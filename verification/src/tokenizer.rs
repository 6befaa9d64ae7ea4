//! Splits the input into tokens: runs of spaces or tabs, line ends, operators,
//! brackets, runs of digits and words. Every character of the input belongs to
//! exactly one token; a character that starts no token is reported and skipped.
use vstd::prelude::*;

use crate::error::{Error, ErrorVec, Errors, L, Loc, errors_wf};
use crate::keyword::str_chars;
use crate::symbol::{
    char_is_alnum, char_is_alpha, char_is_digit, is_ascii_alnum, is_ascii_alpha, is_ascii_digit,
};

verus! {

/// The kinds of brackets.
#[derive(Clone, Copy, Debug, PartialEq, Eq, Structural)]
pub enum Enclosure {
    Parens,
    Square,
    Curly,
}

/// The two line endings.
#[derive(Clone, Copy, Debug, PartialEq, Eq, Structural)]
pub enum NewLine {
    LF,
    CRLF,
}

impl NewLine {
    /// The bytes the line ending takes.
    pub fn bytes(self) -> (r: usize)
        ensures
            r == fixed_text(TokenTag::EndOfLine(self)).len(),
    {
        match self {
            NewLine::LF => 1,
            NewLine::CRLF => 2,
        }
    }

    /// The characters the line ending takes.
    pub fn chars(self) -> (r: usize)
        ensures
            r == fixed_text(TokenTag::EndOfLine(self)).len(),
    {
        self.bytes()
    }
}

/// A token of the input.
#[derive(Clone, Debug, PartialEq, Eq)]
pub enum Token {
    Spaces(usize),
    Tabs(usize),
    EndOfLine(NewLine),
    Plus,
    Minus,
    Star,
    Slash,
    Dot,
    Greater,
    GreaterOrEq,
    Less,
    LessOrEq,
    Bang,
    Assignment,
    Equals,
    NotEquals,
    Ampersand,
    LogicalAnd,
    Pipe,
    LogicalOr,
    Colon,
    DoubleColon,
    Open(Enclosure),
    Close(Enclosure),
    Underscore,
    Digits(String),
    Word(String),
}

/// The kind of a token, without its text.
#[derive(Clone, Copy, Debug, PartialEq, Eq, Structural)]
pub enum TokenTag {
    Spaces,
    Tabs,
    EndOfLine(NewLine),
    Plus,
    Minus,
    Star,
    Slash,
    Dot,
    Greater,
    GreaterOrEq,
    Less,
    LessOrEq,
    Bang,
    Assignment,
    Equals,
    NotEquals,
    Ampersand,
    LogicalAnd,
    Pipe,
    LogicalOr,
    Colon,
    DoubleColon,
    Open(Enclosure),
    Close(Enclosure),
    Underscore,
    Digits,
    Word,
}

/// The text of a token whose text is fixed by its kind (empty for the others).
pub open spec fn fixed_text(tag: TokenTag) -> Seq<char> {
    match tag {
        TokenTag::EndOfLine(NewLine::LF) => seq!['\n'],
        TokenTag::EndOfLine(NewLine::CRLF) => seq!['\r', '\n'],
        TokenTag::Plus => seq!['+'],
        TokenTag::Minus => seq!['-'],
        TokenTag::Star => seq!['*'],
        TokenTag::Slash => seq!['/'],
        TokenTag::Dot => seq!['.'],
        TokenTag::Greater => seq!['>'],
        TokenTag::GreaterOrEq => seq!['>', '='],
        TokenTag::Less => seq!['<'],
        TokenTag::LessOrEq => seq!['<', '='],
        TokenTag::Bang => seq!['!'],
        TokenTag::Assignment => seq!['='],
        TokenTag::Equals => seq!['='],
        TokenTag::NotEquals => seq!['!', '='],
        TokenTag::Ampersand => seq!['&'],
        TokenTag::LogicalAnd => seq!['&', '&'],
        TokenTag::Pipe => seq!['|'],
        TokenTag::LogicalOr => seq!['|', '|'],
        TokenTag::Colon => seq![':'],
        TokenTag::DoubleColon => seq![':', ':'],
        TokenTag::Open(Enclosure::Parens) => seq!['('],
        TokenTag::Close(Enclosure::Parens) => seq![')'],
        TokenTag::Open(Enclosure::Curly) => seq!['{'],
        TokenTag::Close(Enclosure::Curly) => seq!['}'],
        TokenTag::Open(Enclosure::Square) => seq!['['],
        TokenTag::Close(Enclosure::Square) => seq![']'],
        TokenTag::Underscore => seq!['_'],
        _ => seq![],
    }
}

/// Whether the text of tokens of this kind varies.
pub open spec fn has_free_text(tag: TokenTag) -> bool {
    tag == TokenTag::Spaces || tag == TokenTag::Tabs || tag == TokenTag::Digits || tag
        == TokenTag::Word
}

impl View for Token {
    type V = (TokenTag, Seq<char>);

    /// The kind of the token and the characters of the input it stands for.
    open spec fn view(&self) -> (TokenTag, Seq<char>) {
        match self {
            Token::Spaces(n) => (TokenTag::Spaces, Seq::new(*n as nat, |_i: int| ' ')),
            Token::Tabs(n) => (TokenTag::Tabs, Seq::new(*n as nat, |_i: int| '\t')),
            Token::Digits(s) => (TokenTag::Digits, s@),
            Token::Word(s) => (TokenTag::Word, s@),
            Token::EndOfLine(nl) => (TokenTag::EndOfLine(*nl), fixed_text(TokenTag::EndOfLine(*nl))),
            Token::Plus => (TokenTag::Plus, fixed_text(TokenTag::Plus)),
            Token::Minus => (TokenTag::Minus, fixed_text(TokenTag::Minus)),
            Token::Star => (TokenTag::Star, fixed_text(TokenTag::Star)),
            Token::Slash => (TokenTag::Slash, fixed_text(TokenTag::Slash)),
            Token::Dot => (TokenTag::Dot, fixed_text(TokenTag::Dot)),
            Token::Greater => (TokenTag::Greater, fixed_text(TokenTag::Greater)),
            Token::GreaterOrEq => (TokenTag::GreaterOrEq, fixed_text(TokenTag::GreaterOrEq)),
            Token::Less => (TokenTag::Less, fixed_text(TokenTag::Less)),
            Token::LessOrEq => (TokenTag::LessOrEq, fixed_text(TokenTag::LessOrEq)),
            Token::Bang => (TokenTag::Bang, fixed_text(TokenTag::Bang)),
            Token::Assignment => (TokenTag::Assignment, fixed_text(TokenTag::Assignment)),
            Token::Equals => (TokenTag::Equals, fixed_text(TokenTag::Equals)),
            Token::NotEquals => (TokenTag::NotEquals, fixed_text(TokenTag::NotEquals)),
            Token::Ampersand => (TokenTag::Ampersand, fixed_text(TokenTag::Ampersand)),
            Token::LogicalAnd => (TokenTag::LogicalAnd, fixed_text(TokenTag::LogicalAnd)),
            Token::Pipe => (TokenTag::Pipe, fixed_text(TokenTag::Pipe)),
            Token::LogicalOr => (TokenTag::LogicalOr, fixed_text(TokenTag::LogicalOr)),
            Token::Colon => (TokenTag::Colon, fixed_text(TokenTag::Colon)),
            Token::DoubleColon => (TokenTag::DoubleColon, fixed_text(TokenTag::DoubleColon)),
            Token::Open(e) => (TokenTag::Open(*e), fixed_text(TokenTag::Open(*e))),
            Token::Close(e) => (TokenTag::Close(*e), fixed_text(TokenTag::Close(*e))),
            Token::Underscore => (TokenTag::Underscore, fixed_text(TokenTag::Underscore)),
        }
    }
}

/// The UTF-8 width of a character.
pub open spec fn char_width(c: char) -> nat {
    if (c as u32) <= 0x7F {
        1
    } else if (c as u32) <= 0x7FF {
        2
    } else if (c as u32) <= 0xFFFF {
        3
    } else {
        4
    }
}

/// The number of bytes of the UTF-8 encoding of `s`.
pub open spec fn bytes_len(s: Seq<char>) -> nat
    decreases s.len(),
{
    if s.len() == 0 {
        0
    } else {
        char_width(s[0]) + bytes_len(s.drop_first())
    }
}

/// A set of characters a run of a token is made of.
#[derive(Clone, Copy, Debug, PartialEq, Eq, Structural)]
pub enum CharClass {
    Space,
    Tab,
    Digit,
    Alnum,
}

pub open spec fn in_class(cl: CharClass, c: char) -> bool {
    match cl {
        CharClass::Space => c == ' ',
        CharClass::Tab => c == '\t',
        CharClass::Digit => is_ascii_digit(c),
        CharClass::Alnum => is_ascii_alnum(c),
    }
}

/// The end of the run of characters of class `cl` that starts at `j`.
pub open spec fn run_from(s: Seq<char>, j: int, cl: CharClass) -> int
    decreases s.len() - j,
{
    if 0 <= j < s.len() && in_class(cl, s[j]) {
        run_from(s, j + 1, cl)
    } else {
        j
    }
}

/// The token that starts at `i`, as its kind and its end, or `None` when the
/// character at `i` starts no token.
pub open spec fn next_token(s: Seq<char>, i: int) -> Option<(TokenTag, int)> {
    let c = s[i];
    let next_is = |d: char| i + 1 < s.len() && s[i + 1] == d;
    if c == '\n' {
        Some((TokenTag::EndOfLine(NewLine::LF), i + 1))
    } else if c == '\r' {
        if next_is('\n') {
            Some((TokenTag::EndOfLine(NewLine::CRLF), i + 2))
        } else {
            None
        }
    } else if c == ' ' {
        Some((TokenTag::Spaces, run_from(s, i + 1, CharClass::Space)))
    } else if c == '\t' {
        Some((TokenTag::Tabs, run_from(s, i + 1, CharClass::Tab)))
    } else if c == '+' {
        Some((TokenTag::Plus, i + 1))
    } else if c == '-' {
        Some((TokenTag::Minus, i + 1))
    } else if c == '*' {
        Some((TokenTag::Star, i + 1))
    } else if c == '/' {
        Some((TokenTag::Slash, i + 1))
    } else if c == '.' {
        Some((TokenTag::Dot, i + 1))
    } else if c == '>' {
        if next_is('=') {
            Some((TokenTag::GreaterOrEq, i + 2))
        } else {
            Some((TokenTag::Greater, i + 1))
        }
    } else if c == '<' {
        if next_is('=') {
            Some((TokenTag::LessOrEq, i + 2))
        } else {
            Some((TokenTag::Less, i + 1))
        }
    } else if c == '!' {
        if next_is('=') {
            Some((TokenTag::NotEquals, i + 2))
        } else {
            Some((TokenTag::Bang, i + 1))
        }
    } else if c == '=' {
        if next_is('=') {
            Some((TokenTag::Equals, i + 1))
        } else {
            Some((TokenTag::Assignment, i + 1))
        }
    } else if c == '&' {
        if next_is('&') {
            Some((TokenTag::LogicalAnd, i + 2))
        } else {
            Some((TokenTag::Ampersand, i + 1))
        }
    } else if c == '|' {
        if next_is('|') {
            Some((TokenTag::LogicalOr, i + 2))
        } else {
            Some((TokenTag::Pipe, i + 1))
        }
    } else if c == '(' {
        Some((TokenTag::Open(Enclosure::Parens), i + 1))
    } else if c == ')' {
        Some((TokenTag::Close(Enclosure::Parens), i + 1))
    } else if c == '{' {
        Some((TokenTag::Open(Enclosure::Curly), i + 1))
    } else if c == '}' {
        Some((TokenTag::Close(Enclosure::Curly), i + 1))
    } else if c == '[' {
        Some((TokenTag::Open(Enclosure::Square), i + 1))
    } else if c == ']' {
        Some((TokenTag::Close(Enclosure::Square), i + 1))
    } else if c == '_' {
        Some((TokenTag::Underscore, i + 1))
    } else if c == ':' {
        if next_is(':') {
            Some((TokenTag::DoubleColon, i + 2))
        } else {
            Some((TokenTag::Colon, i + 1))
        }
    } else if is_ascii_digit(c) {
        Some((TokenTag::Digits, run_from(s, i + 1, CharClass::Digit)))
    } else if is_ascii_alpha(c) {
        Some((TokenTag::Word, run_from(s, i + 1, CharClass::Alnum)))
    } else {
        None
    }
}

pub proof fn lemma_run_from(s: Seq<char>, j: int, cl: CharClass)
    requires
        0 <= j <= s.len(),
    ensures
        j <= run_from(s, j, cl) <= s.len(),
        forall|k: int| j <= k < run_from(s, j, cl) ==> in_class(cl, #[trigger] s[k]),
        run_from(s, j, cl) < s.len() ==> !in_class(cl, s[run_from(s, j, cl)]),
    decreases s.len() - j,
{
    if j < s.len() && in_class(cl, s[j]) {
        lemma_run_from(s, j + 1, cl);
    }
}

/// The token found at `i` covers the characters from `i` to its end, which are
/// its text: the fixed text of its kind, or a run of the right characters.
pub open spec fn token_fits(s: Seq<char>, i: int, tag: TokenTag, e: int) -> bool {
    &&& i < e <= s.len()
    &&& !has_free_text(tag) ==> s.subrange(i, e) == fixed_text(tag)
    &&& tag == TokenTag::Spaces ==> forall|k: int| i <= k < e ==> #[trigger] s[k] == ' '
    &&& tag == TokenTag::Tabs ==> forall|k: int| i <= k < e ==> #[trigger] s[k] == '\t'
    &&& tag == TokenTag::Digits ==> forall|k: int| i <= k < e ==> is_ascii_digit(#[trigger] s[k])
    &&& tag == TokenTag::Word ==> is_ascii_alpha(s[i]) && forall|k: int|
        i <= k < e ==> is_ascii_alnum(#[trigger] s[k])
}

pub proof fn lemma_next_token(s: Seq<char>, i: int)
    requires
        0 <= i < s.len(),
    ensures
        next_token(s, i) matches Some((tag, e)) ==> token_fits(s, i, tag, e),
{
    lemma_run_from(s, i + 1, CharClass::Space);
    lemma_run_from(s, i + 1, CharClass::Tab);
    lemma_run_from(s, i + 1, CharClass::Digit);
    lemma_run_from(s, i + 1, CharClass::Alnum);
    if let Some((tag, e)) = next_token(s, i) {
        if !has_free_text(tag) {
            assert(s.subrange(i, e) =~= fixed_text(tag));
        }
    }
}

/// A token found in the input: its kind, where it starts and where it ends
/// (character positions).
pub type SpecToken = (TokenTag, int, int);

#[verifier::opaque]
/// Scans the input from position `i`: the tokens found, and the positions of
/// the characters that start no token.
pub open spec fn scan(s: Seq<char>, i: int) -> (Seq<SpecToken>, Seq<int>)
    decreases s.len() - i,
{
    if i < 0 || i >= s.len() {
        (seq![], seq![])
    } else {
        match next_token(s, i) {
            Some((tag, e)) => {
                proof {
                    lemma_next_token(s, i);
                }
                let rest = scan(s, e);
                (seq![(tag, i, e)] + rest.0, rest.1)
            },
            None => {
                let rest = scan(s, i + 1);
                (rest.0, seq![i] + rest.1)
            },
        }
    }
}

proof fn lemma_scan_unexpected(s: Seq<char>, i: int)
    requires
        0 <= i < s.len(),
        next_token(s, i) is None,
    ensures
        scan(s, i).0 == scan(s, i + 1).0,
        scan(s, i).1 == seq![i] + scan(s, i + 1).1,
{
    reveal(scan);
}

proof fn lemma_scan_end(s: Seq<char>)
    ensures
        scan(s, s.len() as int).0 == Seq::<SpecToken>::empty(),
        scan(s, s.len() as int).1 == Seq::<int>::empty(),
{
    reveal(scan);
}

proof fn lemma_scan_token(s: Seq<char>, i: int)
    requires
        0 <= i < s.len(),
        next_token(s, i) is Some,
    ensures
        ({
            let (tag, e) = next_token(s, i).unwrap();
            &&& scan(s, i).0 == seq![(tag, i, e)] + scan(s, e).0
            &&& scan(s, i).1 == scan(s, e).1
        }),
{
    reveal(scan);
}

/// The location of character position `i` of the input: its byte offset.
pub open spec fn loc_at(s: Seq<char>, i: int) -> Loc {
    Loc::Input(bytes_len(s.take(i)) as usize)
}

/// The tokens that the input yields, as the tokenizer returns them.
pub open spec fn token_matches(s: Seq<char>, t: L<Token>, st: SpecToken) -> bool {
    &&& t.it@ == (st.0, s.subrange(st.1, st.2))
    &&& t.loc == loc_at(s, st.1)
}

proof fn lemma_bytes_len_append(a: Seq<char>, b: Seq<char>)
    ensures
        bytes_len(a + b) == bytes_len(a) + bytes_len(b),
    decreases a.len(),
{
    if a.len() > 0 {
        assert((a + b).drop_first() =~= a.drop_first() + b);
        lemma_bytes_len_append(a.drop_first(), b);
    } else {
        assert(a + b =~= b);
    }
}

proof fn lemma_bytes_len_encode(s: Seq<char>)
    ensures
        bytes_len(s) == vstd::utf8::encode_utf8(s).len(),
    decreases s.len(),
{
    if s.len() > 0 {
        lemma_bytes_len_encode(s.drop_first());
        let c = s[0];
        vstd::utf8::char_is_scalar(c);
    }
}

pub proof fn lemma_bytes_len_prefix(s: Seq<char>, i: int)
    requires
        0 <= i < s.len(),
    ensures
        bytes_len(s.take(i + 1)) == bytes_len(s.take(i)) + char_width(s[i]),
        bytes_len(s.take(i + 1)) <= bytes_len(s),
{
    assert(s.take(i + 1) =~= s.take(i) + seq![s[i]]);
    lemma_bytes_len_append(s.take(i), seq![s[i]]);
    assert(s =~= s.take(i + 1) + s.skip(i + 1));
    lemma_bytes_len_append(s.take(i + 1), s.skip(i + 1));
    assert(bytes_len(seq![s[i]]) == char_width(s[i])) by {
        assert(seq![s[i]].drop_first() =~= Seq::<char>::empty());
        assert(bytes_len(Seq::<char>::empty()) == 0);
    }
}

pub fn width(c: char) -> (r: usize)
    ensures
        r == char_width(c),
{
    let u = c as u32;
    if u <= 0x7F {
        1
    } else if u <= 0x7FF {
        2
    } else if u <= 0xFFFF {
        3
    } else {
        4
    }
}

fn run_end(chars: &Vec<char>, j: usize, cl: CharClass) -> (r: usize)
    requires
        j <= chars@.len(),
    ensures
        r == run_from(chars@, j as int, cl),
{
    let mut k = j;
    while k < chars.len() && char_in_class(cl, chars[k])
        invariant
            j <= k <= chars@.len(),
            run_from(chars@, j as int, cl) == run_from(chars@, k as int, cl),
        decreases chars@.len() - k,
    {
        k = k + 1;
    }
    k
}

fn char_in_class(cl: CharClass, c: char) -> (r: bool)
    ensures
        r == in_class(cl, c),
{
    match cl {
        CharClass::Space => c == ' ',
        CharClass::Tab => c == '\t',
        CharClass::Digit => char_is_digit(c),
        CharClass::Alnum => char_is_alnum(c),
    }
}

fn next_is(chars: &Vec<char>, i: usize, d: char) -> (r: bool)
    requires
        i < chars@.len(),
        chars@.len() <= usize::MAX,
    ensures
        r == (i + 1 < chars@.len() && chars@[i + 1] == d),
{
    i + 1 < chars.len() && chars[i + 1] == d
}

/// Finds the token that starts at `i`.
fn find_token(chars: &Vec<char>, i: usize) -> (r: Option<(TokenTag, usize)>)
    requires
        i < chars@.len(),
        chars@.len() <= usize::MAX,
    ensures
        match next_token(chars@, i as int) {
            Some((tag, e)) => r == Some((tag, e as usize)),
            None => r is None,
        },
{
    proof {
        lemma_run_from(chars@, i + 1, CharClass::Space);
        lemma_run_from(chars@, i + 1, CharClass::Tab);
        lemma_run_from(chars@, i + 1, CharClass::Digit);
        lemma_run_from(chars@, i + 1, CharClass::Alnum);
    }
    let c = chars[i];
    if c == '\n' {
        Some((TokenTag::EndOfLine(NewLine::LF), i + 1))
    } else if c == '\r' {
        if next_is(chars, i, '\n') {
            Some((TokenTag::EndOfLine(NewLine::CRLF), i + 2))
        } else {
            None
        }
    } else if c == ' ' {
        Some((TokenTag::Spaces, run_end(chars, i + 1, CharClass::Space)))
    } else if c == '\t' {
        Some((TokenTag::Tabs, run_end(chars, i + 1, CharClass::Tab)))
    } else if c == '+' {
        Some((TokenTag::Plus, i + 1))
    } else if c == '-' {
        Some((TokenTag::Minus, i + 1))
    } else if c == '*' {
        Some((TokenTag::Star, i + 1))
    } else if c == '/' {
        Some((TokenTag::Slash, i + 1))
    } else if c == '.' {
        Some((TokenTag::Dot, i + 1))
    } else if c == '>' {
        if next_is(chars, i, '=') {
            Some((TokenTag::GreaterOrEq, i + 2))
        } else {
            Some((TokenTag::Greater, i + 1))
        }
    } else if c == '<' {
        if next_is(chars, i, '=') {
            Some((TokenTag::LessOrEq, i + 2))
        } else {
            Some((TokenTag::Less, i + 1))
        }
    } else if c == '!' {
        if next_is(chars, i, '=') {
            Some((TokenTag::NotEquals, i + 2))
        } else {
            Some((TokenTag::Bang, i + 1))
        }
    } else if c == '=' {
        if next_is(chars, i, '=') {
            Some((TokenTag::Equals, i + 1))
        } else {
            Some((TokenTag::Assignment, i + 1))
        }
    } else if c == '&' {
        if next_is(chars, i, '&') {
            Some((TokenTag::LogicalAnd, i + 2))
        } else {
            Some((TokenTag::Ampersand, i + 1))
        }
    } else if c == '|' {
        if next_is(chars, i, '|') {
            Some((TokenTag::LogicalOr, i + 2))
        } else {
            Some((TokenTag::Pipe, i + 1))
        }
    } else if c == '(' {
        Some((TokenTag::Open(Enclosure::Parens), i + 1))
    } else if c == ')' {
        Some((TokenTag::Close(Enclosure::Parens), i + 1))
    } else if c == '{' {
        Some((TokenTag::Open(Enclosure::Curly), i + 1))
    } else if c == '}' {
        Some((TokenTag::Close(Enclosure::Curly), i + 1))
    } else if c == '[' {
        Some((TokenTag::Open(Enclosure::Square), i + 1))
    } else if c == ']' {
        Some((TokenTag::Close(Enclosure::Square), i + 1))
    } else if c == '_' {
        Some((TokenTag::Underscore, i + 1))
    } else if c == ':' {
        if next_is(chars, i, ':') {
            Some((TokenTag::DoubleColon, i + 2))
        } else {
            Some((TokenTag::Colon, i + 1))
        }
    } else if char_is_digit(c) {
        Some((TokenTag::Digits, run_end(chars, i + 1, CharClass::Digit)))
    } else if char_is_alpha(c) {
        Some((TokenTag::Word, run_end(chars, i + 1, CharClass::Alnum)))
    } else {
        None
    }
}

/// Builds the token of kind `tag` for the characters from `i` to `e`.
fn make_token(input: &str, tag: TokenTag, i: usize, e: usize) -> (t: Token)
    requires
        token_fits(input@, i as int, tag, e as int),
    ensures
        t@ == (tag, input@.subrange(i as int, e as int)),
        token_wf(t),
{
    let ghost text = input@.subrange(i as int, e as int);
    match tag {
        TokenTag::Spaces => {
            assert(Seq::new((e - i) as nat, |_k: int| ' ') =~= text);
            Token::Spaces(e - i)
        },
        TokenTag::Tabs => {
            assert(Seq::new((e - i) as nat, |_k: int| '\t') =~= text);
            Token::Tabs(e - i)
        },
        TokenTag::Digits => Token::Digits(input.substring_char(i, e).to_owned()),
        TokenTag::Word => Token::Word(input.substring_char(i, e).to_owned()),
        TokenTag::EndOfLine(nl) => Token::EndOfLine(nl),
        TokenTag::Plus => Token::Plus,
        TokenTag::Minus => Token::Minus,
        TokenTag::Star => Token::Star,
        TokenTag::Slash => Token::Slash,
        TokenTag::Dot => Token::Dot,
        TokenTag::Greater => Token::Greater,
        TokenTag::GreaterOrEq => Token::GreaterOrEq,
        TokenTag::Less => Token::Less,
        TokenTag::LessOrEq => Token::LessOrEq,
        TokenTag::Bang => Token::Bang,
        TokenTag::Assignment => Token::Assignment,
        TokenTag::Equals => Token::Equals,
        TokenTag::NotEquals => Token::NotEquals,
        TokenTag::Ampersand => Token::Ampersand,
        TokenTag::LogicalAnd => Token::LogicalAnd,
        TokenTag::Pipe => Token::Pipe,
        TokenTag::LogicalOr => Token::LogicalOr,
        TokenTag::Colon => Token::Colon,
        TokenTag::DoubleColon => Token::DoubleColon,
        TokenTag::Open(en) => Token::Open(en),
        TokenTag::Close(en) => Token::Close(en),
        TokenTag::Underscore => Token::Underscore,
    }
}

/// The byte offset of position `e`, from that of position `i`.
fn advance_bytes(chars: &Vec<char>, i: usize, e: usize, byte: usize, total: usize) -> (r: usize)
    requires
        i <= e <= chars@.len(),
        bytes_len(chars@) == total as nat,
        byte == bytes_len(chars@.take(i as int)),
    ensures
        r == bytes_len(chars@.take(e as int)),
{
    let mut k = i;
    let mut b = byte;
    while k < e
        invariant
            i <= k <= e,
            e <= chars@.len(),
            bytes_len(chars@) == total as nat,
            b == bytes_len(chars@.take(k as int)),
        decreases e - k,
    {
        proof {
            lemma_bytes_len_prefix(chars@, k as int);
        }
        b = b + width(chars[k]);
        k = k + 1;
    }
    b
}

fn note_unexpected(errors: &mut Errors, loc: Loc, c: char)
    requires
        errors_wf(*old(errors)),
    ensures
        errors_wf(*final(errors)),
        final(errors)@.len() == old(errors)@.len() + 1,
        forall|k: int| 0 <= k < old(errors)@.len() ==> final(errors)@[k] == old(errors)@[k],
        final(errors)@[old(errors)@.len() as int] == (loc, Error::UnexpectedChar(c)),
{
    errors.add(&loc, Error::UnexpectedChar(c));
}

/// The text of a token is one the tokenizer can produce: digits hold only
/// digits, words start with a letter and go on with letters and digits.
pub open spec fn token_wf(t: Token) -> bool {
    match t {
        Token::Digits(d) => d@.len() > 0 && forall|k: int|
            0 <= k < d@.len() ==> is_ascii_digit(#[trigger] d@[k]),
        Token::Word(w) => w@.len() > 0 && is_ascii_alpha(w@[0]) && forall|k: int|
            0 <= k < w@.len() ==> is_ascii_alnum(#[trigger] w@[k]),
        _ => true,
    }
}

pub open spec fn tokens_wf(tokens: Seq<L<Token>>) -> bool {
    forall|k: int| 0 <= k < tokens.len() ==> token_wf(#[trigger] tokens[k].it)
}

/// A token as later phases see it: its kind and text, and its location.
pub type TokV = ((TokenTag, Seq<char>), Loc);

pub open spec fn token_views(tokens: Seq<L<Token>>) -> Seq<TokV> {
    tokens.map_values(|t: L<Token>| (t.it@, t.loc))
}

/// The tokens of the input, as later phases see them.
pub open spec fn scanned_views(s: Seq<char>) -> Seq<TokV> {
    scan(s, 0).0.map_values(|st: SpecToken| ((st.0, s.subrange(st.1, st.2)), loc_at(s, st.1)))
}

/// What `tokenize` returns for an input: the tokens, or one error per character
/// that starts no token.
pub open spec fn tokenize_ok(s: Seq<char>, tokens: Seq<L<Token>>) -> bool {
    let sc = scan(s, 0);
    &&& tokens_wf(tokens)
    &&& sc.1.len() == 0
    &&& tokens.len() == sc.0.len()
    &&& forall|k: int| 0 <= k < tokens.len() ==> token_matches(s, #[trigger] tokens[k], sc.0[k])
}

pub open spec fn tokenize_errors(s: Seq<char>, errors: Seq<(Loc, Error)>) -> bool {
    let sc = scan(s, 0);
    &&& sc.1.len() > 0
    &&& errors.len() == sc.1.len()
    &&& forall|k: int|
        0 <= k < errors.len() ==> #[trigger] errors[k] == (
            loc_at(s, sc.1[k]),
            Error::UnexpectedChar(s[sc.1[k]]),
        )
}

/// Splits `input` into tokens. Each character belongs to one token, which
/// starts at the first character no earlier token took; the token is located
/// at the byte offset of its first character. Any character that starts no
/// token makes the whole call fail, with one `UnexpectedChar` error per such
/// character.
pub fn tokenize(input: &str) -> (r: Result<Vec<L<Token>>, ErrorVec>)
    ensures
        scan(input@, 0).1.len() == 0 ==> (r matches Ok(tokens) && tokenize_ok(input@, tokens@)
            && token_views(tokens@) == scanned_views(input@)),
        scan(input@, 0).1.len() > 0 ==> (r matches Err(e) && tokenize_errors(input@, e@)),
{
    let chars = str_chars(input);
    let ghost s = input@;
    let mut tokens: Vec<L<Token>> = Vec::new();
    let mut errors = Errors::new();
    let mut i: usize = 0;
    let mut byte: usize = 0;
    let ghost mut done_toks: Seq<SpecToken> = seq![];
    let ghost mut done_errs: Seq<int> = seq![];
    let total: usize = input.as_bytes().len();
    proof {
        lemma_bytes_len_encode(s);
        assert(s.take(0) =~= Seq::<char>::empty());
    }
    while i < chars.len()
        invariant
            chars@ == s,
            s == input@,
            0 <= i <= s.len(),
            bytes_len(s) == total as nat,
            byte == bytes_len(s.take(i as int)),
            scan(s, 0).0 == done_toks + scan(s, i as int).0,
            scan(s, 0).1 == done_errs + scan(s, i as int).1,
            tokens@.len() == done_toks.len(),
            forall|k: int|
                0 <= k < tokens@.len() ==> token_matches(s, #[trigger] tokens@[k], done_toks[k]),
            tokens_wf(tokens@),
            errors_wf(errors),
            errors@.len() == done_errs.len(),
            forall|k: int| 0 <= k < done_errs.len() ==> 0 <= #[trigger] done_errs[k] < i,
            forall|k: int|
                0 <= k < errors@.len() ==> #[trigger] errors@[k] == (
                    loc_at(s, done_errs[k]),
                    Error::UnexpectedChar(s[done_errs[k]]),
                ),
        decreases s.len() - i,
    {
        proof {
            lemma_next_token(s, i as int);
            lemma_bytes_len_prefix(s, i as int);
        }
        let loc = Loc::Input(byte);
        let n = chars.len();
        match find_token(&chars, i) {
            Some((tag, e)) => {
                let t = make_token(input, tag, i, e);
                tokens.push(L { loc, it: t });
                proof {
                    lemma_scan_token(s, i as int);
                    assert(done_toks.push((tag, i as int, e as int)) + scan(s, e as int).0 =~= done_toks
                        + scan(s, i as int).0);
                    done_toks = done_toks.push((tag, i as int, e as int));
                }
                byte = advance_bytes(&chars, i, e, byte, total);
                i = e;
            },
            None => {
                let c = chars[i];
                note_unexpected(&mut errors, loc, c);
                proof {
                    lemma_scan_unexpected(s, i as int);
                    assert(done_errs.push(i as int) + scan(s, i + 1).1 =~= done_errs + scan(s, i as int).1);
                    done_errs = done_errs.push(i as int);
                }
                byte = byte + width(c);
                i = i + 1;
            },
        }
    }
    proof {
        lemma_scan_end(s);
        assert(done_toks =~= done_toks + scan(s, i as int).0);
        assert(done_errs =~= done_errs + scan(s, i as int).1);
        assert(token_views(tokens@) =~= scanned_views(s));
    }
    errors.to_result(tokens)
}

/// Every character is ASCII.
pub open spec fn all_ascii(s: Seq<char>) -> bool {
    forall|i: int| 0 <= i < s.len() ==> (#[trigger] s[i] as u32) <= 0x7F
}

proof fn lemma_ascii_bytes_len(s: Seq<char>)
    requires
        all_ascii(s),
    ensures
        bytes_len(s) == s.len(),
    decreases s.len(),
{
    if s.len() > 0 {
        assert(all_ascii(s.drop_first())) by {
            assert forall|i: int| 0 <= i < s.drop_first().len() implies (
            #[trigger] s.drop_first()[i] as u32) <= 0x7F by {
                assert(s.drop_first()[i] == s[i + 1]);
            }
        }
        lemma_ascii_bytes_len(s.drop_first());
    }
}

impl Token {
    /// Whether the token is spaces, tabs or a line end.
    pub fn is_whitespace(&self) -> (r: bool)
        ensures
            r == (self@.0 == TokenTag::Spaces || self@.0 == TokenTag::Tabs
                || self@.0 is EndOfLine),
    {
        match self {
            Token::Spaces(_) | Token::Tabs(_) | Token::EndOfLine(_) => true,
            _ => false,
        }
    }

    /// The number of characters of the token.
    pub fn chars(&self) -> (r: usize)
        ensures
            r == self@.1.len(),
    {
        match self {
            Token::EndOfLine(nl) => nl.chars(),
            Token::Digits(s) => s.as_str().unicode_len(),
            Token::Word(s) => s.as_str().unicode_len(),
            Token::Spaces(n) => *n,
            Token::Tabs(n) => *n,
            _ => self.fixed_len(),
        }
    }

    /// The number of bytes of the token.
    pub fn bytes(&self) -> (r: usize)
        ensures
            r == bytes_len(self@.1),
    {
        match self {
            Token::Spaces(n) => {
                proof {
                    assert forall|i: int| 0 <= i < self@.1.len() implies (#[trigger] self@.1[i]
                        as u32) <= 0x7F by {
                        assert(self@.1[i] == ' ');
                    }
                    lemma_ascii_bytes_len(self@.1);
                }
                *n
            },
            Token::Tabs(n) => {
                proof {
                    assert forall|i: int| 0 <= i < self@.1.len() implies (#[trigger] self@.1[i]
                        as u32) <= 0x7F by {
                        assert(self@.1[i] == '\t');
                    }
                    lemma_ascii_bytes_len(self@.1);
                }
                *n
            },
            Token::Digits(s) => {
                proof {
                    lemma_bytes_len_encode(s@);
                }
                s.as_str().as_bytes().len()
            },
            Token::Word(s) => {
                proof {
                    lemma_bytes_len_encode(s@);
                }
                s.as_str().as_bytes().len()
            },
            _ => {
                let r = self.fixed_len();
                proof {
                    lemma_ascii_bytes_len(self@.1);
                }
                r
            },
        }
    }

    fn fixed_len(&self) -> (r: usize)
        requires
            !has_free_text(self@.0),
        ensures
            r == self@.1.len(),
            all_ascii(self@.1),
    {
        match self {
            Token::EndOfLine(nl) => nl.bytes(),
            Token::NotEquals | Token::LogicalAnd | Token::LogicalOr | Token::GreaterOrEq
            | Token::LessOrEq | Token::DoubleColon => 2,
            _ => 1,
        }
    }
}

/// The characters that the tokens stand for, one after the other.
pub open spec fn tokens_text(tokens: Seq<L<Token>>) -> Seq<char>
    decreases tokens.len(),
{
    if tokens.len() == 0 {
        seq![]
    } else {
        tokens[0].it@.1 + tokens_text(tokens.drop_first())
    }
}

spec fn scan_text(s: Seq<char>, toks: Seq<SpecToken>) -> Seq<char>
    decreases toks.len(),
{
    if toks.len() == 0 {
        seq![]
    } else {
        s.subrange(toks[0].1, toks[0].2) + scan_text(s, toks.drop_first())
    }
}

proof fn lemma_scan_covers(s: Seq<char>, i: int)
    requires
        0 <= i <= s.len(),
    ensures
        scan(s, i).1.len() == 0 ==> scan_text(s, scan(s, i).0) == s.subrange(i, s.len() as int),
    decreases s.len() - i,
{
    if i == s.len() {
        lemma_scan_end(s);
        assert(s.subrange(i, s.len() as int) =~= Seq::<char>::empty());
    } else {
        lemma_next_token(s, i);
        match next_token(s, i) {
            Some((tag, e)) => {
                lemma_scan_token(s, i);
                lemma_scan_covers(s, e);
                let toks = scan(s, i).0;
                assert(toks.drop_first() =~= scan(s, e).0);
                assert(s.subrange(i, e) + s.subrange(e, s.len() as int) =~= s.subrange(
                    i,
                    s.len() as int,
                ));
            },
            None => {
                lemma_scan_unexpected(s, i);
            },
        }
    }
}

proof fn lemma_texts_agree(s: Seq<char>, tokens: Seq<L<Token>>, toks: Seq<SpecToken>)
    requires
        tokens.len() == toks.len(),
        forall|k: int| 0 <= k < tokens.len() ==> token_matches(s, #[trigger] tokens[k], toks[k]),
    ensures
        tokens_text(tokens) == scan_text(s, toks),
    decreases tokens.len(),
{
    if tokens.len() > 0 {
        assert(token_matches(s, tokens[0], toks[0]));
        assert forall|k: int| 0 <= k < tokens.drop_first().len() implies token_matches(
            s,
            #[trigger] tokens.drop_first()[k],
            toks.drop_first()[k],
        ) by {
            assert(token_matches(s, tokens[k + 1], toks[k + 1]));
        }
        lemma_texts_agree(s, tokens.drop_first(), toks.drop_first());
    }
}

/// When the input tokenizes, the tokens stand for the whole input: their
/// texts, one after the other, are exactly the input.
pub proof fn tokens_cover_input(input: Seq<char>, tokens: Seq<L<Token>>)
    requires
        tokenize_ok(input, tokens),
    ensures
        tokens_text(tokens) == input,
{
    lemma_scan_covers(input, 0);
    lemma_texts_agree(input, tokens, scan(input, 0).0);
    assert(input.subrange(0, input.len() as int) =~= input);
}


/// Where the `k`-th token starts, in bytes: the byte lengths of the tokens
/// before it, added up.
pub open spec fn token_start(tokens: Seq<L<Token>>, k: int) -> nat {
    bytes_len(tokens_text(tokens.take(k)))
}

proof fn lemma_tokens_text_push(tokens: Seq<L<Token>>, t: L<Token>)
    ensures
        tokens_text(tokens.push(t)) == tokens_text(tokens) + t.it@.1,
    decreases tokens.len(),
{
    if tokens.len() == 0 {
        assert(tokens.push(t).drop_first() =~= Seq::<L<Token>>::empty());
        assert(tokens_text(tokens.push(t).drop_first()) == Seq::<char>::empty());
        assert(tokens.push(t)[0] == t);
        assert(t.it@.1 + Seq::<char>::empty() =~= t.it@.1);
        assert(tokens_text(tokens) == Seq::<char>::empty());
        assert(Seq::<char>::empty() + t.it@.1 =~= t.it@.1);
    } else {
        assert(tokens.push(t).drop_first() =~= tokens.drop_first().push(t));
        lemma_tokens_text_push(tokens.drop_first(), t);
        assert(tokens_text(tokens.push(t)) =~= tokens_text(tokens) + t.it@.1);
    }
}

/// Without unexpected characters, the tokens scanned from `i` follow one
/// another: the text of those before the `k`-th runs from `i` to its start.
proof fn lemma_scan_contiguous(s: Seq<char>, i: int)
    requires
        0 <= i <= s.len(),
        scan(s, i).1.len() == 0,
    ensures
        forall|k: int|
            0 <= k < scan(s, i).0.len() ==> i <= (#[trigger] scan(s, i).0[k]).1 <= s.len()
                && scan_text(s, scan(s, i).0.take(k)) == s.subrange(i, scan(s, i).0[k].1),
    decreases s.len() - i,
{
    if i == s.len() {
        lemma_scan_end(s);
    } else {
        lemma_next_token(s, i);
        match next_token(s, i) {
            Some((tag, e)) => {
                lemma_scan_token(s, i);
                lemma_scan_contiguous(s, e);
                let toks = scan(s, i).0;
                let rest = scan(s, e).0;
                assert forall|k: int| 0 <= k < toks.len() implies i <= (#[trigger] toks[k]).1 <= s.len()
                    && scan_text(s, toks.take(k)) == s.subrange(i, toks[k].1) by {
                    if k == 0 {
                        assert(toks.take(0) =~= Seq::<SpecToken>::empty());
                        assert(s.subrange(i, i) =~= Seq::<char>::empty());
                    } else {
                        assert(toks[k] == rest[k - 1]);
                        assert(rest[k - 1].1 <= s.len());
                        assert(toks.take(k).drop_first() =~= rest.take(k - 1));
                        assert(toks.take(k)[0] == (tag, i, e));
                        assert(s.subrange(i, e) + s.subrange(e, rest[k - 1].1) =~= s.subrange(
                            i,
                            rest[k - 1].1,
                        ));
                    }
                }
            },
            None => {
                lemma_scan_unexpected(s, i);
                assert(scan(s, i).1[0] == i);
            },
        }
    }
}

/// When the input tokenizes, each token is located at the byte where it
/// starts, which is the byte lengths of the tokens before it added up, and the
/// byte lengths of all the tokens add up to that of the input.
pub proof fn law_tokens_located_by_bytes(input: Seq<char>, tokens: Seq<L<Token>>)
    requires
        tokenize_ok(input, tokens),
    ensures
        token_start(tokens, 0) == 0,
        forall|k: int|
            0 <= k < tokens.len() ==> token_start(tokens, k + 1) == token_start(tokens, k)
                + bytes_len((#[trigger] tokens[k]).it@.1),
        forall|k: int|
            0 <= k < tokens.len() ==> (#[trigger] tokens[k]).loc == Loc::Input(
                token_start(tokens, k) as usize,
            ),
        token_start(tokens, tokens.len() as int) == bytes_len(input),
{
    let toks = scan(input, 0).0;
    assert(tokens.take(0) =~= Seq::<L<Token>>::empty());
    assert forall|k: int| 0 <= k < tokens.len() implies token_start(tokens, k + 1) == token_start(
        tokens,
        k,
    ) + bytes_len((#[trigger] tokens[k]).it@.1) by {
        assert(tokens.take(k + 1) =~= tokens.take(k).push(tokens[k]));
        lemma_tokens_text_push(tokens.take(k), tokens[k]);
        lemma_bytes_len_append(tokens_text(tokens.take(k)), tokens[k].it@.1);
    }
    lemma_scan_contiguous(input, 0);
    assert forall|k: int| 0 <= k < tokens.len() implies (#[trigger] tokens[k]).loc == Loc::Input(
        token_start(tokens, k) as usize,
    ) by {
        assert(token_matches(input, tokens[k], toks[k]));
        assert(toks[k] == scan(input, 0).0[k]);
        assert forall|j: int| 0 <= j < tokens.take(k).len() implies token_matches(
            input,
            #[trigger] tokens.take(k)[j],
            toks.take(k)[j],
        ) by {
            assert(token_matches(input, tokens[j], toks[j]));
        }
        lemma_texts_agree(input, tokens.take(k), toks.take(k));
        assert(input.take(toks[k].1) =~= input.subrange(0, toks[k].1));
    }
    tokens_cover_input(input, tokens);
    assert(tokens.take(tokens.len() as int) =~= tokens);
}


/// A word is the longest run of ASCII letters (of either case) and digits that
/// starts with a letter: a letter always starts a word, every character of the
/// word is a letter or a digit, and the character after it, if any, is neither.
pub proof fn law_words_are_longest(s: Seq<char>, i: int)
    requires
        0 <= i < s.len(),
        is_ascii_alpha(s[i]),
    ensures
        next_token(s, i) matches Some((TokenTag::Word, e)) && i < e <= s.len() && (forall|k: int|
            i <= k < e ==> is_ascii_alnum(#[trigger] s[k])) && (e == s.len() || !is_ascii_alnum(s[e])),
{
    lemma_run_from(s, i + 1, CharClass::Alnum);
}

proof fn lemma_scan_steps(s: Seq<char>, i: int)
    requires
        0 <= i <= s.len(),
        scan(s, i).1.len() == 0,
    ensures
        forall|k: int|
            0 <= k < scan(s, i).0.len() ==> 0 <= (#[trigger] scan(s, i).0[k]).1 < s.len() && next_token(
                s,
                scan(s, i).0[k].1,
            ) == Some((scan(s, i).0[k].0, scan(s, i).0[k].2)),
        forall|k: int|
            0 <= k < scan(s, i).0.len() - 1 ==> (#[trigger] scan(s, i).0[k + 1]).1 == scan(s, i).0[k].2,
    decreases s.len() - i,
{
    if i == s.len() {
        lemma_scan_end(s);
    } else {
        lemma_next_token(s, i);
        match next_token(s, i) {
            Some((tag, e)) => {
                lemma_scan_token(s, i);
                lemma_scan_steps(s, e);
                let toks = scan(s, i).0;
                let rest = scan(s, e).0;
                assert forall|k: int| 0 <= k < toks.len() implies 0 <= (#[trigger] toks[k]).1 < s.len()
                    && next_token(s, toks[k].1) == Some((toks[k].0, toks[k].2)) by {
                    if k > 0 {
                        assert(toks[k] == rest[k - 1]);
                    }
                }
                assert forall|k: int| 0 <= k < toks.len() - 1 implies (#[trigger] toks[k + 1]).1
                    == toks[k].2 by {
                    assert(toks[k + 1] == rest[k]);
                    if k > 0 {
                        assert(toks[k] == rest[k - 1]);
                        assert(0 <= k - 1 < rest.len() - 1);
                        assert(rest[(k - 1) + 1].1 == rest[k - 1].2);
                    } else {
                        assert(toks[0] == (tag, i, e));
                        lemma_scan_steps(s, e);
                        if rest.len() > 0 {
                            assert(rest[0].1 == e) by {
                                lemma_scan_first(s, e);
                            }
                        }
                    }
                }
            },
            None => {
                lemma_scan_unexpected(s, i);
                assert(scan(s, i).1[0] == i);
            },
        }
    }
}

proof fn lemma_scan_first(s: Seq<char>, i: int)
    requires
        0 <= i <= s.len(),
        scan(s, i).0.len() > 0,
        scan(s, i).1.len() == 0,
    ensures
        scan(s, i).0[0].1 == i,
{
    if i == s.len() {
        lemma_scan_end(s);
    } else {
        lemma_next_token(s, i);
        match next_token(s, i) {
            Some((tag, e)) => {
                lemma_scan_token(s, i);
            },
            None => {
                lemma_scan_unexpected(s, i);
                assert(scan(s, i).1[0] == i);
            },
        }
    }
}

/// In the tokens of an input, a word is never followed directly by a token
/// whose text starts with an ASCII letter or digit: words take all the letters
/// and digits they can.
pub proof fn law_word_tokens_are_longest(input: Seq<char>, tokens: Seq<L<Token>>)
    requires
        tokenize_ok(input, tokens),
    ensures
        forall|k: int|
            0 <= k < tokens.len() - 1 && (#[trigger] tokens[k]).it@.0 == TokenTag::Word ==> tokens[k
                + 1].it@.1.len() > 0 && !is_ascii_alnum(tokens[k + 1].it@.1[0]),
{
    let toks = scan(input, 0).0;
    lemma_scan_steps(input, 0);
    assert forall|k: int|
        0 <= k < tokens.len() - 1 && (#[trigger] tokens[k]).it@.0 == TokenTag::Word implies tokens[k
        + 1].it@.1.len() > 0 && !is_ascii_alnum(tokens[k + 1].it@.1[0]) by {
        assert(token_matches(input, tokens[k], toks[k]));
        assert(token_matches(input, tokens[k + 1], toks[k + 1]));
        let a = toks[k].1;
        let e = toks[k].2;
        assert(toks[k + 1].1 == e);
        lemma_next_token(input, toks[k + 1].1);
        lemma_next_token(input, a);
        assert(is_ascii_alpha(input[a]));
        law_words_are_longest(input, a);
        assert(input.subrange(toks[k + 1].1, toks[k + 1].2)[0] == input[e]);
    }
}


/// A number is the longest run of ASCII digits: a digit always starts a
/// number token, which takes every digit that follows and stops at the first
/// character that is not one.
pub proof fn law_digits_are_longest(s: Seq<char>, i: int)
    requires
        0 <= i < s.len(),
        is_ascii_digit(s[i]),
    ensures
        next_token(s, i) matches Some((TokenTag::Digits, e)) && i < e <= s.len() && (forall|k: int|
            i <= k < e ==> is_ascii_digit(#[trigger] s[k])) && (e == s.len() || !is_ascii_digit(s[e])),
{
    lemma_run_from(s, i + 1, CharClass::Digit);
}

} // verus!
