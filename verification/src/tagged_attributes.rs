//! Tagged attribute tokenizer.
//!
//! Data is encoded as lines that comprise a tag followed by `key=value`
//! attributes. A tag or key is a maximal run of bytes up to whitespace or
//! `=`; a value is either an unquoted run terminated by whitespace or end of
//! line, or a double-quote delimited run that may not itself contain a quote
//! or end of line. Redundant spaces and tabs between tokens are skipped. A
//! carriage return not immediately followed by a line feed is a hard error.
//! The tokenizer reports the current 1-based line number on every token.

use vstd::prelude::*;

verus! {

/// A tokenizer error.
#[derive(Debug, Clone, Copy, PartialEq, Eq, Structural)]
pub enum Error {
    /// A carriage return not immediately followed by a line feed.
    BadCRLF,
    /// A key with no `=` before the next token.
    ExpectedEq,
    /// The input ended inside a token or before a value.
    UnexpectedEndOfFile,
    /// The line ended inside a quoted value or before a value.
    UnexpectedEndOfLine,
}

pub open spec fn is_sp(b: u8) -> bool {
    b == 0x20 || b == 0x09
}

/// Scan an unquoted value from `i`: the value ends at whitespace, end of
/// line or end of input. Returns the value's end and the next cursor.
pub open spec fn scan_value_wn(s: Seq<u8>, i: int) -> Result<(int, int), Error>
    decreases s.len() - i,
{
    if i < 0 || i >= s.len() {
        Ok((s.len() as int, s.len() as int))
    } else if s[i] == 0x0d {
        if i + 1 < s.len() && s[i + 1] == 0x0a {
            Ok((i, i + 1))
        } else {
            Err(Error::BadCRLF)
        }
    } else if s[i] == 0x0a {
        Ok((i, i))
    } else if is_sp(s[i]) {
        Ok((i, i + 1))
    } else {
        scan_value_wn(s, i + 1)
    }
}

/// Scan a quoted value from `i`: the value ends at the closing quote, and
/// may not hold an end of line. Returns the value's end and the next cursor.
pub open spec fn scan_value_qt(s: Seq<u8>, i: int) -> Result<(int, int), Error>
    decreases s.len() - i,
{
    if i < 0 || i >= s.len() {
        Err(Error::UnexpectedEndOfFile)
    } else if s[i] == 0x0d || s[i] == 0x0a {
        Err(Error::UnexpectedEndOfLine)
    } else if s[i] == 0x22 {
        Ok((i, i + 1))
    } else {
        scan_value_qt(s, i + 1)
    }
}

/// Scan for the `=` after a key that ended in whitespace at `ktail`.
pub open spec fn scan_eq_after(s: Seq<u8>, ktail: int, j: int) -> Result<(int, int), Error>
    decreases s.len() - j,
{
    if j < 0 || j >= s.len() {
        Err(Error::ExpectedEq)
    } else if s[j] == 0x3d {
        Ok((ktail, j + 1))
    } else if is_sp(s[j]) {
        scan_eq_after(s, ktail, j + 1)
    } else {
        Err(Error::ExpectedEq)
    }
}

/// Scan a key from `i` (the byte before `i` starts the key): the key ends at
/// `=`, optionally after whitespace. Returns the key's end and the cursor
/// just past the `=`.
pub open spec fn scan_key(s: Seq<u8>, i: int) -> Result<(int, int), Error>
    decreases s.len() - i,
{
    if i < 0 || i >= s.len() {
        Err(Error::UnexpectedEndOfFile)
    } else if s[i] > 0x20 {
        if s[i] == 0x3d {
            Ok((i, i + 1))
        } else {
            scan_key(s, i + 1)
        }
    } else if s[i] == 0x0d || s[i] == 0x0a {
        Err(Error::UnexpectedEndOfLine)
    } else if is_sp(s[i]) {
        scan_eq_after(s, i, i + 1)
    } else {
        scan_key(s, i + 1)
    }
}

/// The outcome of scanning for the next tag.
pub ghost enum TagScan {
    /// No further tag: the end cursor and the final line number.
    Done(int, nat),
    /// A tag token: its start, its end, the next cursor, and its line.
    Tok(int, int, int, nat),
    /// A tokenizer error and the line it is reported on.
    Fail(Error, nat),
}

/// Scan for the next tag from `i`, skipping whitespace and empty lines and
/// counting line breaks.
pub open spec fn scan_tag(s: Seq<u8>, i: int, line: nat) -> TagScan
    decreases s.len() - i,
{
    if i < 0 || i >= s.len() {
        TagScan::Done(s.len() as int, line)
    } else if is_sp(s[i]) {
        scan_tag(s, i + 1, line)
    } else if s[i] == 0x0d {
        if i + 1 < s.len() && s[i + 1] == 0x0a {
            scan_tag(s, i + 2, line + 1)
        } else {
            TagScan::Fail(Error::BadCRLF, line)
        }
    } else if s[i] == 0x0a {
        scan_tag(s, i + 1, line + 1)
    } else {
        match scan_value_wn(s, i + 1) {
            Ok((tail, idx)) => TagScan::Tok(i, tail, idx, line),
            Err(e) => TagScan::Fail(e, line),
        }
    }
}

/// The outcome of scanning for the next `key=value` attribute. The line
/// number never changes: the scan stops at the end of the line.
pub ghost enum KvScan {
    /// No further attribute on this line: the end cursor.
    End(int),
    /// An attribute: the key's start and end, the value's start and end,
    /// and the next cursor.
    Pair(int, int, int, int, int),
    /// A tokenizer error.
    Fail(Error),
}

/// Scan the start of a value from `j`, skipping whitespace: quoted values
/// are delimited by quotes, unquoted values run to whitespace or end of
/// line. Returns the value's start and end and the next cursor.
pub open spec fn scan_value_start(s: Seq<u8>, j: int) -> Result<(int, int, int), Error>
    decreases s.len() - j,
{
    if j < 0 || j >= s.len() {
        Err(Error::UnexpectedEndOfLine)
    } else if is_sp(s[j]) {
        scan_value_start(s, j + 1)
    } else if s[j] == 0x0d || s[j] == 0x0a {
        Err(Error::UnexpectedEndOfLine)
    } else if s[j] == 0x22 {
        match scan_value_qt(s, j + 1) {
            Ok((tail, idx)) => Ok((j + 1, tail, idx)),
            Err(e) => Err(e),
        }
    } else {
        match scan_value_wn(s, j + 1) {
            Ok((tail, idx)) => Ok((j, tail, idx)),
            Err(e) => Err(e),
        }
    }
}

/// Scan for the next attribute from `i`, skipping whitespace and stopping
/// at the end of the line.
pub open spec fn scan_kv(s: Seq<u8>, i: int) -> KvScan
    decreases s.len() - i,
{
    if i < 0 || i >= s.len() {
        KvScan::End(s.len() as int)
    } else if is_sp(s[i]) {
        scan_kv(s, i + 1)
    } else if s[i] == 0x0d {
        if i + 1 < s.len() && s[i + 1] == 0x0a {
            KvScan::End(i + 1)
        } else {
            KvScan::Fail(Error::BadCRLF)
        }
    } else if s[i] == 0x0a {
        KvScan::End(i)
    } else {
        match scan_key(s, i + 1) {
            Ok((ktail, j)) => match scan_value_start(s, j) {
                Ok((vhead, vtail, idx)) => KvScan::Pair(i, ktail, vhead, vtail, idx),
                Err(e) => KvScan::Fail(e),
            },
            Err(e) => KvScan::Fail(e),
        }
    }
}

/// The cursor of a successful unquoted value scan lies within the input.
pub proof fn lemma_scan_value_wn_bounds(s: Seq<u8>, i: int)
    requires
        0 <= i <= s.len(),
    ensures
        scan_value_wn(s, i) matches Ok((t, x)) ==> i <= t <= s.len() && t <= x <= s.len(),
    decreases s.len() - i,
{
    if i < s.len() && !(s[i] == 0x0d || s[i] == 0x0a || is_sp(s[i])) {
        lemma_scan_value_wn_bounds(s, i + 1);
    }
}

/// The cursor of a successful quoted value scan lies within the input.
pub proof fn lemma_scan_value_qt_bounds(s: Seq<u8>, i: int)
    requires
        0 <= i <= s.len(),
    ensures
        scan_value_qt(s, i) matches Ok((t, x)) ==> i <= t < s.len() && t < x <= s.len(),
    decreases s.len() - i,
{
    if i < s.len() && !(s[i] == 0x0d || s[i] == 0x0a || s[i] == 0x22) {
        lemma_scan_value_qt_bounds(s, i + 1);
    }
}

/// The cursor past a found `=` lies within the input, past its start.
pub proof fn lemma_scan_eq_after_bounds(s: Seq<u8>, ktail: int, j: int)
    requires
        0 <= j <= s.len(),
    ensures
        scan_eq_after(s, ktail, j) matches Ok((kt, x)) ==> kt == ktail && j < x <= s.len(),
    decreases s.len() - j,
{
    if j < s.len() && s[j] != 0x3d && is_sp(s[j]) {
        lemma_scan_eq_after_bounds(s, ktail, j + 1);
    }
}

/// The bounds of a successful key scan: its end lies within the input and
/// the cursor moves forward.
pub proof fn lemma_scan_key_bounds(s: Seq<u8>, i: int)
    requires
        0 <= i <= s.len(),
    ensures
        scan_key(s, i) matches Ok((kt, x)) ==> i <= kt < s.len() && i < x <= s.len(),
    decreases s.len() - i,
{
    if i < s.len() {
        if s[i] > 0x20 {
            if s[i] != 0x3d {
                lemma_scan_key_bounds(s, i + 1);
            }
        } else if s[i] == 0x0d || s[i] == 0x0a {
        } else if is_sp(s[i]) {
            lemma_scan_eq_after_bounds(s, i, i + 1);
        } else {
            lemma_scan_key_bounds(s, i + 1);
        }
    }
}

/// The bounds of a successful value scan: its extent lies within the input
/// and the cursor moves forward.
pub proof fn lemma_scan_value_start_bounds(s: Seq<u8>, j: int)
    requires
        0 <= j <= s.len(),
    ensures
        scan_value_start(s, j) matches Ok((vh, vt, x)) ==> j <= vh <= vt <= s.len() && j < x
            <= s.len() && vt <= x,
    decreases s.len() - j,
{
    if j < s.len() {
        if is_sp(s[j]) {
            lemma_scan_value_start_bounds(s, j + 1);
        } else if s[j] == 0x0d || s[j] == 0x0a {
        } else if s[j] == 0x22 {
            lemma_scan_value_qt_bounds(s, j + 1);
        } else {
            lemma_scan_value_wn_bounds(s, j + 1);
        }
    }
}

/// The bounds of an attribute scan: token extents lie within the input and
/// a found pair moves the cursor forward.
pub proof fn lemma_scan_kv_bounds(s: Seq<u8>, i: int)
    requires
        0 <= i <= s.len(),
    ensures
        scan_kv(s, i) matches KvScan::End(x) ==> i <= x <= s.len(),
        scan_kv(s, i) matches KvScan::Pair(kh, kt, vh, vt, x) ==> i <= kh < kt <= s.len() && 0
            <= vh <= vt <= s.len() && i < x <= s.len(),
    decreases s.len() - i,
{
    if i < s.len() {
        if is_sp(s[i]) {
            lemma_scan_kv_bounds(s, i + 1);
        } else if s[i] == 0x0d || s[i] == 0x0a {
        } else {
            lemma_scan_key_bounds(s, i + 1);
            let sk = scan_key(s, i + 1);
            if sk is Ok {
                lemma_scan_value_start_bounds(s, sk->Ok_0.1);
            }
        }
    }
}

/// The bounds of a tag scan: a token lies within the input and moves the
/// cursor strictly forward.
pub proof fn lemma_scan_tag_bounds(s: Seq<u8>, i: int, line: nat)
    requires
        0 <= i <= s.len(),
    ensures
        scan_tag(s, i, line) matches TagScan::Tok(h, t, x, l) ==> i <= h < t <= s.len() && h < x
            <= s.len() && t <= x,
        scan_tag(s, i, line) matches TagScan::Done(x, l) ==> x == s.len(),
    decreases s.len() - i,
{
    if i < s.len() {
        if is_sp(s[i]) {
            lemma_scan_tag_bounds(s, i + 1, line);
        } else if s[i] == 0x0d {
            if i + 1 < s.len() && s[i + 1] == 0x0a {
                lemma_scan_tag_bounds(s, i + 2, (line + 1) as nat);
            }
        } else if s[i] == 0x0a {
            lemma_scan_tag_bounds(s, i + 1, (line + 1) as nat);
        } else {
            lemma_scan_value_wn_bounds(s, i + 1);
        }
    }
}

/// The mathematical state of a tokenizer: the input, the cursor, and the
/// 1-based line number.
pub ghost struct TaView {
    pub bytes: Seq<u8>,
    pub index: int,
    pub line: nat,
}

/// A well-formed tokenizer state: the cursor is within the input, the line
/// count cannot exceed the bytes consumed, and the input is small enough
/// that line numbers cannot outgrow their type.
pub open spec fn ta_wf(v: TaView) -> bool {
    0 <= v.index <= v.bytes.len() && 1 <= v.line <= v.index + 1 && v.bytes.len() < usize::MAX
}

/// Tagged attribute tokenizer.
///
/// Yields the tags of the input, and within a tag's line its `key=value`
/// attributes, reporting the current line number throughout.
#[derive(Debug)]
pub struct TaggedAttributes<'a> {
    bytes: &'a [u8],
    index: usize,
    line: usize,
}

impl<'a> View for TaggedAttributes<'a> {
    type V = TaView;

    closed spec fn view(&self) -> TaView {
        TaView { bytes: self.bytes@, index: self.index as int, line: self.line as nat }
    }
}

impl<'a> TaggedAttributes<'a> {
    /// A tokenizer over the given bytes, at their start, on line one. The
    /// input must leave room for line numbering.
    pub fn from_bytes(bytes: &'a [u8]) -> (r: Self)
        requires
            bytes@.len() < usize::MAX,
        ensures
            r@ == (TaView { bytes: bytes@, index: 0, line: 1 }),
            ta_wf(r@),
    {
        Self { bytes, index: 0, line: 1 }
    }

    /// The current 1-based line number.
    #[inline(always)]
    pub fn line(&self) -> (r: usize)
        ensures
            r == self@.line,
    {
        self.line
    }

    /// The next tag token, or none at the end of the input, skipping
    /// whitespace and empty lines.
    pub fn tag(&mut self) -> (r: Result<Option<&'a [u8]>, Error>)
        requires
            ta_wf(old(self)@),
        ensures
            ta_wf(final (self)@),
            final (self)@.bytes == old(self)@.bytes,
            match scan_tag(old(self)@.bytes, old(self)@.index, old(self)@.line) {
                TagScan::Done(idx, line) => r == Ok::<Option<&[u8]>, Error>(None)
                    && final (self)@.index == idx && final (self)@.line == line,
                TagScan::Tok(head, tail, idx, line) => (r matches Ok(o) && o matches Some(t) && t@
                    == old(self)@.bytes.subrange(head, tail) && final (self)@.index == idx
                    && final (self)@.line == line),
                TagScan::Fail(e, line) => r == Err::<Option<&[u8]>, Error>(e)
                    && final (self)@.line == line,
            },
    {
        let ghost s = self.bytes@;
        let ghost i0 = self.index as int;
        let ghost l0 = self.line as nat;
        let mut i: usize = self.index;
        let mut line: usize = self.line;
        loop
            invariant
                0 <= i <= s.len(),
                1 <= line <= i + 1,
                s == self.bytes@,
                self.bytes@.len() == self.bytes.len(),
                self@ == old(self)@,
                ta_wf(self@),
                i0 == old(self)@.index,
                l0 == old(self)@.line,
                scan_tag(s, i0, l0) == scan_tag(s, i as int, line as nat),
            decreases s.len() - i,
        {
            if i >= self.bytes.len() {
                self.index = i;
                self.line = line;
                return Ok(None);
            }
            let b = self.bytes[i];
            if b == 0x20 || b == 0x09 {
                i = i + 1;
            } else if b == 0x0d {
                if i + 1 < self.bytes.len() && self.bytes[i + 1] == 0x0a {
                    i = i + 2;
                    line = line + 1;
                } else {
                    self.index = i + 1;
                    self.line = line;
                    return Err(Error::BadCRLF);
                }
            } else if b == 0x0a {
                i = i + 1;
                line = line + 1;
            } else {
                let head = i;
                match self.value_wn(i + 1) {
                    Ok((tail, idx)) => {
                        self.index = idx;
                        self.line = line;
                        let t = &self.bytes[head..tail];
                        assert(t@ =~= s.subrange(head as int, tail as int));
                        return Ok(Some(t));
                    },
                    Err(e) => {
                        self.index = i;
                        self.line = line;
                        return Err(e);
                    },
                }
            }
        }
    }

    /// The next `key=value` attribute of the current line, or none at the
    /// end of the line. The line number does not change.
    pub fn key_value(&mut self) -> (r: Result<Option<(&'a [u8], &'a [u8])>, Error>)
        requires
            ta_wf(old(self)@),
        ensures
            ta_wf(final (self)@),
            final (self)@.bytes == old(self)@.bytes,
            final (self)@.line == old(self)@.line,
            match scan_kv(old(self)@.bytes, old(self)@.index) {
                KvScan::End(idx) => r == Ok::<Option<(&[u8], &[u8])>, Error>(None)
                    && final (self)@.index == idx,
                KvScan::Pair(khead, ktail, vhead, vtail, idx) => (r matches Ok(o) && o matches Some(
                    kv,
                ) && kv.0@ == old(self)@.bytes.subrange(khead, ktail) && kv.1@ == old(
                    self,
                )@.bytes.subrange(vhead, vtail) && final (self)@.index == idx),
                KvScan::Fail(e) => r == Err::<Option<(&[u8], &[u8])>, Error>(e),
            },
    {
        let ghost s = self.bytes@;
        let ghost i0 = self.index as int;
        let mut i: usize = self.index;
        loop
            invariant
                0 <= i <= s.len(),
                self@.line <= i + 1,
                1 <= self@.line,
                s == self.bytes@,
                self.bytes@.len() == self.bytes.len(),
                self@ == old(self)@,
                ta_wf(self@),
                i0 == old(self)@.index,
                i0 <= i,
                scan_kv(s, i0) == scan_kv(s, i as int),
            decreases s.len() - i,
        {
            if i >= self.bytes.len() {
                self.index = i;
                return Ok(None);
            }
            let b = self.bytes[i];
            if b == 0x20 || b == 0x09 {
                i = i + 1;
            } else if b == 0x0d {
                if i + 1 < self.bytes.len() && self.bytes[i + 1] == 0x0a {
                    self.index = i + 1;
                    return Ok(None);
                } else {
                    self.index = i + 1;
                    return Err(Error::BadCRLF);
                }
            } else if b == 0x0a {
                self.index = i;
                return Ok(None);
            } else {
                let khead = i;
                let (ktail, j) = match self.key_tail(i + 1) {
                    Ok(p) => p,
                    Err(e) => {
                        return Err(e);
                    },
                };
                let (vhead, vtail, idx) = match self.value_start(j) {
                    Ok(t) => t,
                    Err(e) => {
                        return Err(e);
                    },
                };
                proof {
                    lemma_scan_key_bounds(s, i + 1);
                    lemma_scan_value_start_bounds(s, j as int);
                }
                self.index = idx;
                let k = &self.bytes[khead..ktail];
                let v = &self.bytes[vhead..vtail];
                assert(k@ =~= s.subrange(khead as int, ktail as int));
                assert(v@ =~= s.subrange(vhead as int, vtail as int));
                return Ok(Some((k, v)));
            }
        }
    }

    /// Scan an unquoted value from `i`.
    fn value_wn(&self, i: usize) -> (r: Result<(usize, usize), Error>)
        requires
            0 <= i <= self@.bytes.len(),
        ensures
            match scan_value_wn(self@.bytes, i as int) {
                Ok((tail, idx)) => (r matches Ok(p) && p.0 == tail && p.1 == idx && i <= tail
                    <= self@.bytes.len() && tail <= idx <= self@.bytes.len()),
                Err(e) => r == Err::<(usize, usize), Error>(e),
            },
    {
        let ghost s = self.bytes@;
        let mut j: usize = i;
        loop
            invariant
                i <= j,
                s == self.bytes@,
                self.bytes@.len() == self.bytes.len(),
                scan_value_wn(s, i as int) == scan_value_wn(s, j as int),
                j <= s.len(),
            decreases s.len() - j,
        {
            if j >= self.bytes.len() {
                return Ok((self.bytes.len(), self.bytes.len()));
            }
            let b = self.bytes[j];
            if b == 0x0d {
                if j + 1 < self.bytes.len() && self.bytes[j + 1] == 0x0a {
                    return Ok((j, j + 1));
                } else {
                    return Err(Error::BadCRLF);
                }
            } else if b == 0x0a {
                return Ok((j, j));
            } else if b == 0x20 || b == 0x09 {
                return Ok((j, j + 1));
            } else {
                j = j + 1;
            }
        }
    }

    /// Scan a quoted value from `i`.
    fn value_qt(&self, i: usize) -> (r: Result<(usize, usize), Error>)
        requires
            0 <= i <= self@.bytes.len(),
        ensures
            match scan_value_qt(self@.bytes, i as int) {
                Ok((tail, idx)) => (r matches Ok(p) && p.0 == tail && p.1 == idx && i <= tail
                    <= self@.bytes.len() && tail <= idx <= self@.bytes.len()),
                Err(e) => r == Err::<(usize, usize), Error>(e),
            },
    {
        let ghost s = self.bytes@;
        let mut j: usize = i;
        loop
            invariant
                i <= j,
                s == self.bytes@,
                self.bytes@.len() == self.bytes.len(),
                scan_value_qt(s, i as int) == scan_value_qt(s, j as int),
                j <= s.len(),
            decreases s.len() - j,
        {
            if j >= self.bytes.len() {
                return Err(Error::UnexpectedEndOfFile);
            }
            let b = self.bytes[j];
            if b == 0x0d || b == 0x0a {
                return Err(Error::UnexpectedEndOfLine);
            } else if b == 0x22 {
                return Ok((j, j + 1));
            } else {
                j = j + 1;
            }
        }
    }

    /// Scan a key from `i`, up to and past its `=`.
    fn key_tail(&self, i: usize) -> (r: Result<(usize, usize), Error>)
        requires
            0 <= i <= self@.bytes.len(),
        ensures
            match scan_key(self@.bytes, i as int) {
                Ok((ktail, j)) => (r matches Ok(p) && p.0 == ktail && p.1 == j && i <= ktail
                    <= self@.bytes.len() && j <= self@.bytes.len()),
                Err(e) => r == Err::<(usize, usize), Error>(e),
            },
    {
        let ghost s = self.bytes@;
        let mut j: usize = i;
        loop
            invariant
                i <= j,
                s == self.bytes@,
                self.bytes@.len() == self.bytes.len(),
                scan_key(s, i as int) == scan_key(s, j as int),
                j <= s.len(),
            decreases s.len() - j,
        {
            if j >= self.bytes.len() {
                return Err(Error::UnexpectedEndOfFile);
            }
            let b = self.bytes[j];
            if b > 0x20 {
                if b == 0x3d {
                    return Ok((j, j + 1));
                } else {
                    j = j + 1;
                }
            } else if b == 0x0d || b == 0x0a {
                return Err(Error::UnexpectedEndOfLine);
            } else if b == 0x20 || b == 0x09 {
                let ktail = j;
                let mut k: usize = j + 1;
                assert(scan_key(s, i as int) == scan_eq_after(s, ktail as int, k as int));
                loop
                    invariant
                        i <= ktail < s.len(),
                        j + 1 <= k,
                        s == self.bytes@,
                        self.bytes@.len() == self.bytes.len(),
                        scan_key(s, i as int) == scan_eq_after(s, ktail as int, k as int),
                        k <= s.len(),
                    decreases s.len() - k,
                {
                    if k >= self.bytes.len() {
                        return Err(Error::ExpectedEq);
                    }
                    let c = self.bytes[k];
                    if c == 0x3d {
                        return Ok((ktail, k + 1));
                    } else if c == 0x20 || c == 0x09 {
                        k = k + 1;
                    } else {
                        return Err(Error::ExpectedEq);
                    }
                }
            } else {
                j = j + 1;
            }
        }
    }

    /// Scan the start and extent of a value from `j`.
    fn value_start(&self, j: usize) -> (r: Result<(usize, usize, usize), Error>)
        requires
            0 <= j <= self@.bytes.len(),
        ensures
            match scan_value_start(self@.bytes, j as int) {
                Ok((vhead, vtail, idx)) => (r matches Ok(p) && p.0 == vhead && p.1 == vtail && p.2
                    == idx && 0 <= vhead <= vtail <= self@.bytes.len() && vtail <= idx
                    <= self@.bytes.len()),
                Err(e) => r == Err::<(usize, usize, usize), Error>(e),
            },
    {
        let ghost s = self.bytes@;
        let mut k: usize = j;
        loop
            invariant
                j <= k,
                s == self.bytes@,
                self.bytes@.len() == self.bytes.len(),
                scan_value_start(s, j as int) == scan_value_start(s, k as int),
                k <= s.len(),
            decreases s.len() - k,
        {
            if k >= self.bytes.len() {
                return Err(Error::UnexpectedEndOfLine);
            }
            let b = self.bytes[k];
            if b == 0x20 || b == 0x09 {
                k = k + 1;
            } else if b == 0x0d || b == 0x0a {
                return Err(Error::UnexpectedEndOfLine);
            } else if b == 0x22 {
                match self.value_qt(k + 1) {
                    Ok((vtail, idx)) => {
                        return Ok((k + 1, vtail, idx));
                    },
                    Err(e) => {
                        return Err(e);
                    },
                }
            } else {
                match self.value_wn(k + 1) {
                    Ok((vtail, idx)) => {
                        return Ok((k, vtail, idx));
                    },
                    Err(e) => {
                        return Err(e);
                    },
                }
            }
        }
    }
}

} // verus!
