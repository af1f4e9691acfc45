//! Font import behavior settings.

use vstd::prelude::*;

verus! {

/// Font import behavior settings.
///
/// Selects which of the strict decode checks are relaxed, allowing certain
/// partially broken or non-compliant BMFont files to load anyway.
/// All switches default to `false`: maximally strict.
#[derive(Clone, Copy, Debug)]
pub struct LoadSettings {
    /// Allow ASCII control characters in value strings.
    pub allow_string_control_characters: bool,
    /// Ignore incorrect character, kerning and page counts.
    pub ignore_counts: bool,
    /// Ignore unrecognized top-level tags.
    pub ignore_invalid_tags: bool,
}

impl LoadSettings {
    /// Set `ignore_counts` to true. Returns self.
    pub fn ignore_counts(self) -> (r: Self)
        ensures
            r == (LoadSettings { ignore_counts: true, ..self }),
    {
        LoadSettings { ignore_counts: true, ..self }
    }

    /// Set `ignore_invalid_tags` to true. Returns self.
    pub fn ignore_invalid_tags(self) -> (r: Self)
        ensures
            r == (LoadSettings { ignore_invalid_tags: true, ..self }),
    {
        LoadSettings { ignore_invalid_tags: true, ..self }
    }

    /// Set `allow_string_control_characters` to true. Returns self.
    pub fn allow_string_control_characters(self) -> (r: Self)
        ensures
            r == (LoadSettings { allow_string_control_characters: true, ..self }),
    {
        LoadSettings { allow_string_control_characters: true, ..self }
    }
}

impl Default for LoadSettings {
    /// The strict default: no check is relaxed.
    fn default() -> (r: Self)
        ensures
            !r.allow_string_control_characters,
            !r.ignore_counts,
            !r.ignore_invalid_tags,
    {
        LoadSettings {
            allow_string_control_characters: false,
            ignore_counts: false,
            ignore_invalid_tags: false,
        }
    }
}

} // verus!
