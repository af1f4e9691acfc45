//! BMFont bitmap-font descriptor manipulation.
//!
//! The [Font] aggregate holds the contents of a BMFont descriptor file.
//! It can be decoded from, and encoded to, the BMFont text and binary
//! formats, as well as XML and JSON renderings of the same data.

use vstd::prelude::*;

pub mod attributes;
pub mod binary;
pub mod builder;
pub mod charset;
pub mod error;
pub mod font;
pub mod loader;
pub mod parse;
pub mod render;
pub mod text;
pub mod settings;
pub mod tagged_attributes;
pub mod util;
pub mod xml;

pub use charset::Charset;
pub use error::Error;
pub use font::{Char, Chnl, Common, Font, Info, Kerning, Packing, Padding, Spacing};
pub use settings::LoadSettings;

verus! {

} // verus!
