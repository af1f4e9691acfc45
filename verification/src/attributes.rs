//! Tag and attribute tokens.

use vstd::prelude::*;

use crate::error::Error;
use crate::parse::ParseError;
use crate::tagged_attributes::{lemma_scan_kv_bounds, scan_kv, ta_wf, KvScan, TaggedAttributes};

verus! {

/// A `key=value` attribute token and the line it was read on.
#[derive(Clone, Copy, Debug, PartialEq, Eq)]
pub struct Attribute<'a> {
    pub key: &'a [u8],
    pub value: &'a [u8],
    pub line: Option<usize>,
}

/// The mathematical value of an [Attribute].
pub ghost struct AttrV {
    pub key: Seq<u8>,
    pub value: Seq<u8>,
    pub line: Option<usize>,
}

impl<'a> View for Attribute<'a> {
    type V = AttrV;

    open spec fn view(&self) -> AttrV {
        AttrV { key: self.key@, value: self.value@, line: self.line }
    }
}

impl<'a> Attribute<'a> {
    /// An attribute token.
    #[inline(always)]
    pub fn new(key: &'a [u8], value: &'a [u8], line: Option<usize>) -> (r: Self)
        ensures
            r@ == (AttrV { key: key@, value: value@, line }),
    {
        Self { key, value, line }
    }
}

/// The attribute values of a token sequence.
pub open spec fn avs<'a>(attrs: Seq<Attribute<'a>>) -> Seq<AttrV> {
    Seq::new(attrs.len(), |i: int| attrs[i]@)
}

/// A tag token and the line it was read on.
#[derive(Clone, Copy, Debug, PartialEq, Eq)]
pub struct Tag<'a> {
    pub tag: &'a [u8],
    pub line: Option<usize>,
}

impl<'a> Tag<'a> {
    /// A tag token.
    #[inline(always)]
    pub fn new(tag: &'a [u8], line: Option<usize>) -> (r: Self)
        ensures
            r.tag@ == tag@,
            r.line == line,
    {
        Self { tag, line }
    }
}

/// The outcome of collecting the attributes of one line.
pub ghost enum AttrsScan {
    /// The line's attributes and the end cursor.
    Done(Seq<AttrV>, int),
    /// A tokenizer error.
    Fail(crate::tagged_attributes::Error),
}

/// Collect the remaining attributes of the current line from `i`: each
/// carries the given line number, which an attribute scan never changes.
pub open spec fn scan_attrs(s: Seq<u8>, i: int, line: nat) -> AttrsScan
    decreases s.len() - i,
    when 0 <= i <= s.len()
    via scan_attrs_dec
{
    match scan_kv(s, i) {
        KvScan::End(idx) => AttrsScan::Done(Seq::empty(), idx),
        KvScan::Pair(kh, kt, vh, vt, idx) => match scan_attrs(s, idx, line) {
            AttrsScan::Done(rest, end) => AttrsScan::Done(
                seq![
                    AttrV {
                        key: s.subrange(kh, kt),
                        value: s.subrange(vh, vt),
                        line: Some(line as usize),
                    },
                ] + rest,
                end,
            ),
            AttrsScan::Fail(e) => AttrsScan::Fail(e),
        },
        KvScan::Fail(e) => AttrsScan::Fail(e),
    }
}

#[via_fn]
proof fn scan_attrs_dec(s: Seq<u8>, i: int, line: nat) {
    lemma_scan_kv_bounds(s, i);
}

/// The bounds of an attribute collection: the end cursor lies within the
/// input, at or past the start.
pub proof fn lemma_scan_attrs_bounds(s: Seq<u8>, i: int, line: nat)
    requires
        0 <= i <= s.len(),
    ensures
        scan_attrs(s, i, line) matches AttrsScan::Done(al, x) ==> i <= x <= s.len(),
    decreases s.len() - i,
{
    lemma_scan_kv_bounds(s, i);
    match scan_kv(s, i) {
        KvScan::End(_) => {},
        KvScan::Pair(kh, kt, vh, vt, idx) => {
            lemma_scan_attrs_bounds(s, idx, line);
        },
        KvScan::Fail(_) => {},
    }
}

/// Collect the remaining attributes of the current line, each carrying the
/// line number.
pub fn collect_attributes<'a>(ta: &mut TaggedAttributes<'a>) -> (r: Result<
    Vec<Attribute<'a>>,
    Error,
>)
    requires
        ta_wf(old(ta)@),
    ensures
        ta_wf(final (ta)@),
        final (ta)@.bytes == old(ta)@.bytes,
        final (ta)@.line == old(ta)@.line,
        match scan_attrs(old(ta)@.bytes, old(ta)@.index, old(ta)@.line) {
            AttrsScan::Done(al, idx) => (r matches Ok(v) && avs(v@) == al && final (ta)@.index
                == idx),
            AttrsScan::Fail(te) => (r matches Err(e) && e matches Error::Parse {
                line,
                entity,
                err,
            } && line == Some(old(ta)@.line as usize) && entity@ == "attribute"@ && err
                == ParseError::Token(te)),
        },
{
    let ghost s = ta@.bytes;
    let ghost i0 = ta@.index;
    let ghost l0 = ta@.line;
    let mut out: Vec<Attribute<'a>> = Vec::new();
    proof {
        let r0 = scan_attrs(s, i0, l0);
        if r0 is Done {
            assert(avs(out@) + r0->Done_0 =~= r0->Done_0);
        }
    }
    loop
        invariant
            ta_wf(ta@),
            s == old(ta)@.bytes,
            i0 == old(ta)@.index,
            l0 == old(ta)@.line,
            ta@.bytes == s,
            ta@.line == l0,
            0 <= ta@.index <= s.len(),
            match scan_attrs(s, i0, l0) {
                AttrsScan::Done(al, idx) => (scan_attrs(s, ta@.index, l0)
                    matches AttrsScan::Done(rest, idx2) && al == avs(out@) + rest && idx == idx2),
                AttrsScan::Fail(te) => scan_attrs(s, ta@.index, l0) == AttrsScan::Fail(te),
            },
        decreases s.len() - ta@.index,
    {
        let ghost icur = ta@.index;
        proof {
            lemma_scan_kv_bounds(s, icur);
        }
        let line = ta.line();
        match ta.key_value() {
            Ok(Some((k, v))) => {
                let a = Attribute::new(k, v, Some(line));
                let ghost out_old = avs(out@);
                out.push(a);
                proof {
                    assert(avs(out@) =~= out_old + seq![a@]);
                    let r2 = scan_attrs(s, ta@.index, l0);
                    if r2 is Done {
                        assert(out_old + (seq![a@] + r2->Done_0) =~= avs(out@) + r2->Done_0);
                    }
                }
            },
            Ok(None) => {
                proof {
                    assert(avs(out@) + Seq::<AttrV>::empty() =~= avs(out@));
                }
                return Ok(out);
            },
            Err(te) => {
                return Err(
                    Error::Parse {
                        line: Some(line),
                        entity: "attribute".to_owned(),
                        err: ParseError::Token(te),
                    },
                );
            },
        }
    }
}

} // verus!
