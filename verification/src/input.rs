//! Positions in a text input: byte offsets, lines and columns, and ranges
//! between two positions.
use vstd::prelude::*;

use crate::keyword::str_chars;
use crate::tokenizer::{bytes_len, char_width, lemma_bytes_len_prefix, width};

verus! {

/// A text to read from.
#[derive(Debug, Clone, PartialEq, Eq)]
pub struct StringInput {
    input: String,
}

impl View for StringInput {
    type V = Seq<char>;

    closed spec fn view(&self) -> Seq<char> {
        self.input@
    }
}

impl StringInput {
    pub fn from_str(input: &str) -> (r: StringInput)
        ensures
            r@ == input@,
    {
        StringInput { input: input.to_owned() }
    }

    pub fn as_char_vec(&self) -> (r: Vec<char>)
        ensures
            r@ == self@,
    {
        str_chars(self.input.as_str())
    }
}

/// Calls `String::push`, which appends the character to the end of the string.
#[verifier::external_body]
fn push_char(s: &mut String, c: char)
    ensures
        final(s)@ == old(s)@.push(c),
{
    s.push(c);
}

/// A length counted both in bytes and in characters.
#[derive(Debug, Clone, Copy, Default, PartialEq, Eq)]
pub struct StrLen {
    pub bytes: usize,
    pub chars: usize,
}

/// A line: its number, from 1, and the bytes before it.
#[derive(Debug, Clone, Copy, PartialEq, Eq)]
pub struct Line {
    line_number: usize,
    bytes: usize,
}

/// The view of a position: bytes from the start, line number, bytes before
/// the line, and column (characters from the start of the line, from 1).
pub ghost struct PosV {
    pub bytes: int,
    pub line: int,
    pub line_bytes: int,
    pub column: int,
}

impl Line {
    pub closed spec fn spec_line_number(&self) -> int {
        self.line_number as int
    }

    pub closed spec fn spec_bytes(&self) -> int {
        self.bytes as int
    }

    pub fn line_number(&self) -> (r: usize)
        ensures
            r == self.spec_line_number(),
    {
        self.line_number
    }

    pub fn bytes(&self) -> (r: usize)
        ensures
            r == self.spec_bytes(),
    {
        self.bytes
    }
}

impl Default for Line {
    /// The first line.
    fn default() -> (r: Line)
        ensures
            r.spec_line_number() == 1,
            r.spec_bytes() == 0,
    {
        Line { line_number: 1, bytes: 0 }
    }
}

/// A position in a text.
#[derive(Debug, Clone, Copy, PartialEq, Eq)]
pub struct StrPos {
    bytes: usize,
    line: Line,
    column: usize,
}

impl View for StrPos {
    type V = PosV;

    closed spec fn view(&self) -> PosV {
        PosV {
            bytes: self.bytes as int,
            line: self.line.line_number as int,
            line_bytes: self.line.bytes as int,
            column: self.column as int,
        }
    }
}

impl Default for StrPos {
    /// The start of a text.
    fn default() -> (r: StrPos)
        ensures
            r@ == (PosV { bytes: 0, line: 1, line_bytes: 0, column: 1 }),
    {
        StrPos { bytes: 0, line: Line::default(), column: 1 }
    }
}

impl StrPos {
    pub fn bytes(&self) -> (r: usize)
        ensures
            r == self@.bytes,
    {
        self.bytes
    }

    pub fn line(&self) -> (r: Line)
        ensures
            r.spec_line_number() == self@.line,
            r.spec_bytes() == self@.line_bytes,
    {
        self.line
    }

    pub fn column(&self) -> (r: usize)
        ensures
            r == self@.column,
    {
        self.column
    }
}

/// Ranges of different texts cannot be merged.
#[derive(Debug)]
pub enum StrRangeError {
    DifferentInput,
}

/// A range of a text, between two positions.
#[derive(Debug, Clone, PartialEq, Eq)]
pub struct StrRange {
    input: StringInput,
    from: StrPos,
    to: StrPos,
}

/// The position after `c` at `p`: a new line after a line feed, the next
/// column otherwise.
pub open spec fn advanced(p: PosV, c: char) -> PosV {
    let bytes = p.bytes + char_width(c);
    if c == '\n' {
        PosV { bytes, line: p.line + 1, line_bytes: bytes, column: 1 }
    } else {
        PosV { bytes, column: p.column + 1, ..p }
    }
}

/// The character index at byte offset `b` of `s`, where one starts.
pub open spec fn char_index(s: Seq<char>, b: int) -> int {
    choose|k: int| 0 <= k <= s.len() && bytes_len(s.take(k)) == b
}

/// Where the characters kept so far start, after `k` were read.
pub open spec fn lo_of(k: int, i: int) -> int {
    if k < i {
        k
    } else {
        i
    }
}

/// Where the characters kept so far end, after `k` were read.
pub open spec fn hi_of(k: int, i: int, j: int) -> int {
    if k < i {
        k
    } else if k < j {
        k
    } else {
        j
    }
}

/// Some character starts at byte offset `b` of `s`, or `b` is its end.
pub open spec fn on_boundary(s: Seq<char>, b: int) -> bool {
    exists|k: int| 0 <= k <= s.len() && bytes_len(s.take(k)) == b
}

pub open spec fn min(a: int, b: int) -> int {
    if a <= b {
        a
    } else {
        b
    }
}

pub open spec fn max(a: int, b: int) -> int {
    if a >= b {
        a
    } else {
        b
    }
}

/// Prefixes of more characters take more bytes.
pub proof fn lemma_prefix_bytes_increase(s: Seq<char>, i: int, j: int)
    requires
        0 <= i < j <= s.len(),
    ensures
        bytes_len(s.take(i)) < bytes_len(s.take(j)),
    decreases j - i,
{
    lemma_bytes_len_prefix(s, j - 1);
    if i < j - 1 {
        lemma_prefix_bytes_increase(s, i, j - 1);
    }
}

proof fn lemma_prefix_bytes_order(s: Seq<char>, i: int, j: int)
    requires
        0 <= i <= s.len(),
        0 <= j <= s.len(),
    ensures
        (bytes_len(s.take(i)) <= bytes_len(s.take(j))) == (i <= j),
        (bytes_len(s.take(i)) == bytes_len(s.take(j))) == (i == j),
{
    if i < j {
        lemma_prefix_bytes_increase(s, i, j);
    } else if j < i {
        lemma_prefix_bytes_increase(s, j, i);
    }
}

impl StrRange {
    pub closed spec fn spec_input(&self) -> Seq<char> {
        self.input@
    }

    pub closed spec fn spec_from(&self) -> PosV {
        self.from@
    }

    pub closed spec fn spec_to(&self) -> PosV {
        self.to@
    }

    /// The empty range at the start of `input`.
    pub fn new(input: StringInput) -> (r: StrRange)
        ensures
            r.spec_input() == input@,
            r.spec_from() == (PosV { bytes: 0, line: 1, line_bytes: 0, column: 1 }),
            r.spec_to() == (PosV { bytes: 0, line: 1, line_bytes: 0, column: 1 }),
    {
        StrRange { input, from: StrPos::default(), to: StrPos::default() }
    }

    pub fn from(&self) -> (r: &StrPos)
        ensures
            r@ == self.spec_from(),
    {
        &self.from
    }

    pub fn to(&self) -> (r: &StrPos)
        ensures
            r@ == self.spec_to(),
    {
        &self.to
    }

    /// Starts a new range where this one ends.
    pub fn catch_up(&mut self)
        ensures
            final(self).spec_input() == old(self).spec_input(),
            final(self).spec_from() == old(self).spec_to(),
            final(self).spec_to() == old(self).spec_to(),
    {
        self.from = self.to;
    }

    /// Moves the end of the range past the character `c`.
    pub fn advance(&mut self, c: char)
        requires
            old(self).spec_to().bytes + 4 <= usize::MAX,
            old(self).spec_to().line + 1 <= usize::MAX,
            old(self).spec_to().column + 1 <= usize::MAX,
        ensures
            final(self).spec_input() == old(self).spec_input(),
            final(self).spec_from() == old(self).spec_from(),
            final(self).spec_to() == advanced(old(self).spec_to(), c),
    {
        self.to.bytes = self.to.bytes + width(c);
        if c == '\n' {
            self.to.line.line_number = self.to.line.line_number + 1;
            self.to.line.bytes = self.to.bytes;
            self.to.column = 1;
        } else {
            self.to.column = self.to.column + 1;
        }
    }

    /// The text between the two positions of the range.
    pub fn substr(&self) -> (r: String)
        requires
            on_boundary(self.spec_input(), self.spec_from().bytes),
            on_boundary(self.spec_input(), self.spec_to().bytes),
            self.spec_from().bytes <= self.spec_to().bytes,
        ensures
            r@ == self.spec_input().subrange(
                char_index(self.spec_input(), self.spec_from().bytes),
                char_index(self.spec_input(), self.spec_to().bytes),
            ),
    {
        let ghost s = self.input@;
        let chars = self.input.as_char_vec();
        let from = self.from.bytes;
        let to = self.to.bytes;
        let ghost i = char_index(s, from as int);
        let ghost j = char_index(s, to as int);
        proof {
            lemma_prefix_bytes_order(s, i, j);
            assert(s.take(0) =~= Seq::<char>::empty());
        }
        let mut out = String::new();
        let mut k: usize = 0;
        let mut pos: usize = 0;
        while k < chars.len() && pos < to
            invariant
                chars@ == s,
                k <= s.len(),
                0 <= i <= j <= s.len(),
                bytes_len(s.take(i)) == from,
                bytes_len(s.take(j)) == to,
                pos == bytes_len(s.take(k as int)),
                out@ == s.subrange(lo_of(k as int, i), hi_of(k as int, i, j)),
            decreases s.len() - k,
        {
            proof {
                lemma_bytes_len_prefix(s, k as int);
                lemma_prefix_bytes_order(s, k as int, i);
                lemma_prefix_bytes_order(s, k as int, j);
                lemma_bytes_len_prefix_bound(s, k as int);
                lemma_prefix_bytes_order(s, k + 1, j);
            }
            let c = chars[k];
            if from <= pos && pos < to {
                let ghost before = out@;
                push_char(&mut out, c);
                assert(out@ =~= s.subrange(lo_of(k + 1, i), hi_of(k + 1, i, j)));
            } else {
                assert(out@ =~= s.subrange(lo_of(k + 1, i), hi_of(k + 1, i, j)));
            }
            pos = pos + width(c);
            k = k + 1;
        }
        proof {
            lemma_prefix_bytes_order(s, k as int, j);
            lemma_prefix_bytes_order(s, k as int, i);
        }
        out
    }

    /// The range that covers both, of the same text.
    pub fn merge(&self, other: &StrRange) -> (r: Result<StrRange, StrRangeError>)
        ensures
            self.spec_input() != other.spec_input() ==> r is Err,
            self.spec_input() == other.spec_input() ==> (r matches Ok(m) && m.spec_input()
                == self.spec_input() && m.spec_from().bytes == min(
                self.spec_from().bytes,
                other.spec_from().bytes,
            ) && m.spec_to().bytes == max(self.spec_to().bytes, other.spec_to().bytes)
                && m.spec_from() == (if self.spec_from().bytes <= other.spec_from().bytes {
                self.spec_from()
            } else {
                other.spec_from()
            }) && m.spec_to() == later_end(self, other)),
    {
        if self.input.input != other.input.input {
            Err(StrRangeError::DifferentInput)
        } else if self.from.bytes <= other.from.bytes {
            Ok(merge_ranges(self, other))
        } else {
            Ok(merge_ranges(other, self))
        }
    }
}

/// The end of a merge: that of the range that starts first (of `a` on a
/// tie), unless the other one ends later.
pub open spec fn later_end(a: &StrRange, b: &StrRange) -> PosV {
    let (r1, r2) = if a.spec_from().bytes <= b.spec_from().bytes {
        (a, b)
    } else {
        (b, a)
    };
    if r1.spec_to().bytes >= r2.spec_to().bytes {
        r1.spec_to()
    } else {
        r2.spec_to()
    }
}

/// Merges `r1` with `r2`, which does not start before it: from the start of
/// `r1` to the later end.
fn merge_ranges(r1: &StrRange, r2: &StrRange) -> (r: StrRange)
    ensures
        r.spec_input() == r1.spec_input(),
        r.spec_from() == r1.spec_from(),
        r.spec_to() == if r1.spec_to().bytes >= r2.spec_to().bytes {
            r1.spec_to()
        } else {
            r2.spec_to()
        },
{
    let input = StringInput { input: r1.input.input.clone() };
    if r1.to.bytes >= r2.to.bytes {
        StrRange { input, from: r1.from, to: r1.to }
    } else {
        StrRange { input, from: r1.from, to: r2.to }
    }
}

proof fn lemma_bytes_len_prefix_bound(s: Seq<char>, k: int)
    requires
        0 <= k < s.len(),
    ensures
        bytes_len(s.take(k)) + char_width(s[k]) <= bytes_len(s),
{
    lemma_bytes_len_prefix(s, k);
}

/// Where something is: nowhere in particular, or a range of a text.
#[derive(Debug, Clone, PartialEq, Eq)]
pub enum Position {
    NoPosition,
    String(StrRange),
}

impl Position {
    /// A copy of the position.
    pub fn duplicate(&self) -> (r: Position)
        ensures
            r == *self,
    {
        match self {
            Position::NoPosition => Position::NoPosition,
            Position::String(r) => Position::String(
                StrRange {
                    input: StringInput { input: r.input.input.clone() },
                    from: r.from,
                    to: r.to,
                },
            ),
        }
    }

    /// The position covering both; nowhere when either is, or when they are
    /// in different texts.
    pub fn merge(&self, other: &Position) -> (r: Position)
        ensures
            match (self, other) {
                (Position::String(a), Position::String(b)) => if a.spec_input() == b.spec_input() {
                    r matches Position::String(m) && m.spec_input() == a.spec_input() && m.spec_from()
                        == (if a.spec_from().bytes <= b.spec_from().bytes {
                        a.spec_from()
                    } else {
                        b.spec_from()
                    }) && m.spec_to() == later_end(a, b)
                } else {
                    r is NoPosition
                },
                _ => r is NoPosition,
            },
    {
        match self {
            Position::NoPosition => Position::NoPosition,
            Position::String(r1) => match other {
                Position::NoPosition => Position::NoPosition,
                Position::String(r2) => match r1.merge(r2) {
                    Ok(r) => Position::String(r),
                    _ => Position::NoPosition,
                },
            },
        }
    }
}


/// Where an input came from.
#[derive(Clone, Copy, Debug, PartialEq, Eq, Structural)]
pub enum Origin {
    String,
}

/// A text to process and where it came from.
#[derive(Clone, Debug)]
pub struct Input {
    pub input: String,
    pub origin: Origin,
}

impl Input {
    /// An input given as a string.
    pub fn from_string(input: String) -> (r: Input)
        ensures
            r.input@ == input@,
            r.origin == Origin::String,
    {
        Input { input, origin: Origin::String }
    }
}

} // verus!
