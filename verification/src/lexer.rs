//! Turns tokens into lexemes: drops whitespace (remembering, for each lexeme,
//! what separated it from the previous one), reads numbers, keywords and
//! symbols, and checks that brackets close in the right order.
use vstd::prelude::*;

use crate::error::{Error, ErrorVec, Errors, L, Loc, errors_wf};
use crate::integer::{Integer, decimal_value};
use crate::keyword::{Keyword, keyword_of};
use crate::symbol::{
    KnownTSymbol, Symbol, TSymbol, is_ascii_alnum, is_ascii_alpha, is_ascii_digit,
    is_ascii_upper, known_of, tsymbol_wf, char_is_upper,
};
use crate::tokenizer::{Enclosure, Token, TokenTag, TokV, token_views, token_wf, tokens_wf, tokenize, scan};

verus! {

/// What separates a lexeme from the one before it.
#[derive(Clone, Copy, Debug, PartialEq, Eq, Structural)]
pub enum Separator {
    Nothing,
    Whitespace,
    NewLine,
}

/// The rank of a separator: a line break outranks whitespace, which outranks nothing.
pub open spec fn sep_rank(s: Separator) -> int {
    match s {
        Separator::Nothing => 0,
        Separator::Whitespace => 1,
        Separator::NewLine => 2,
    }
}

/// The separator made of two separators in a row: the stronger of the two.
pub open spec fn sep_add(a: Separator, b: Separator) -> Separator {
    if sep_rank(a) >= sep_rank(b) {
        a
    } else {
        b
    }
}

impl Separator {
    /// Combines two separators in a row.
    pub fn add(self, other: Separator) -> (r: Separator)
        ensures
            r == sep_add(self, other),
    {
        match self {
            Separator::Nothing => other,
            Separator::Whitespace => {
                if other == Separator::NewLine {
                    Separator::NewLine
                } else {
                    self
                }
            },
            Separator::NewLine => self,
        }
    }
}

/// Combining separators is associative and commutative, `Nothing` changes
/// nothing, and combining a separator with itself gives it back.
pub proof fn separator_add_laws(a: Separator, b: Separator, c: Separator)
    ensures
        sep_add(sep_add(a, b), c) == sep_add(a, sep_add(b, c)),
        sep_add(a, b) == sep_add(b, a),
        sep_add(Separator::Nothing, a) == a,
        sep_add(a, Separator::Nothing) == a,
        sep_add(a, a) == a,
{
}

/// The kind of a lexeme, with what it holds.
#[derive(Clone, Debug, PartialEq, Eq)]
pub enum LexemeKind {
    Plus,
    Minus,
    Star,
    Slash,
    Dot,
    Greater,
    GreaterOrEq,
    Less,
    LessOrEq,
    Bang,
    Assignment,
    Equals,
    NotEquals,
    LogicalAnd,
    LogicalOr,
    Integer(Integer),
    Open(Enclosure),
    Close(Enclosure),
    Underscore,
    Symbol(Symbol),
    TSymbol(TSymbol),
    Keyword(Keyword),
}

/// The mathematical view of a lexeme kind.
pub ghost enum KindV {
    Plus,
    Minus,
    Star,
    Slash,
    Dot,
    Greater,
    GreaterOrEq,
    Less,
    LessOrEq,
    Bang,
    Assignment,
    Equals,
    NotEquals,
    LogicalAnd,
    LogicalOr,
    Integer(int),
    Open(Enclosure),
    Close(Enclosure),
    Underscore,
    Symbol(Seq<char>),
    TSymbol(Seq<char>),
    Keyword(Keyword),
}

impl View for LexemeKind {
    type V = KindV;

    open spec fn view(&self) -> KindV {
        match self {
            LexemeKind::Plus => KindV::Plus,
            LexemeKind::Minus => KindV::Minus,
            LexemeKind::Star => KindV::Star,
            LexemeKind::Slash => KindV::Slash,
            LexemeKind::Dot => KindV::Dot,
            LexemeKind::Greater => KindV::Greater,
            LexemeKind::GreaterOrEq => KindV::GreaterOrEq,
            LexemeKind::Less => KindV::Less,
            LexemeKind::LessOrEq => KindV::LessOrEq,
            LexemeKind::Bang => KindV::Bang,
            LexemeKind::Assignment => KindV::Assignment,
            LexemeKind::Equals => KindV::Equals,
            LexemeKind::NotEquals => KindV::NotEquals,
            LexemeKind::LogicalAnd => KindV::LogicalAnd,
            LexemeKind::LogicalOr => KindV::LogicalOr,
            LexemeKind::Integer(n) => KindV::Integer(n@),
            LexemeKind::Open(e) => KindV::Open(*e),
            LexemeKind::Close(e) => KindV::Close(*e),
            LexemeKind::Underscore => KindV::Underscore,
            LexemeKind::Symbol(s) => KindV::Symbol(s@),
            LexemeKind::TSymbol(t) => KindV::TSymbol(t@),
            LexemeKind::Keyword(k) => KindV::Keyword(*k),
        }
    }
}

/// A lexeme: its kind, where it starts, and what separates it from the previous one.
#[derive(Clone, Debug, PartialEq, Eq)]
pub struct Lexeme {
    pub separator: Separator,
    pub loc: Loc,
    pub kind: LexemeKind,
}

impl Lexeme {
    pub fn new(separator: Separator, loc: Loc, kind: LexemeKind) -> (r: Lexeme)
        ensures
            r.separator == separator,
            r.loc == loc,
            r.kind == kind,
    {
        Lexeme { separator, loc, kind }
    }

    /// Where the lexeme starts.
    pub fn loc(&self) -> (r: Loc)
        ensures
            r == self.loc,
    {
        self.loc
    }
}

/// A lexeme as the specification sees it: separator, index of its first
/// token, kind.
pub type SpecLexeme = (Separator, int, KindV);

/// The state of the lexer: the next token, the pending separator, the open
/// brackets, and what was produced so far.
pub ghost struct LexState {
    pub i: int,
    pub sep: Separator,
    pub encl: Seq<Enclosure>,
    pub lexemes: Seq<SpecLexeme>,
    pub errors: Seq<(Loc, Error)>,
}

/// The end of the run of whitespace tokens (spaces, tabs, line ends) from `j`.
pub open spec fn ws_end(toks: Seq<TokV>, j: int) -> int
    decreases toks.len() - j,
{
    if 0 <= j < toks.len() && is_ws_tag(toks[j].0.0) {
        ws_end(toks, j + 1)
    } else {
        j
    }
}

pub open spec fn is_ws_tag(t: TokenTag) -> bool {
    t == TokenTag::Spaces || t == TokenTag::Tabs || t is EndOfLine
}

/// The index of the next `Close(e)` token from `j`, or the end of the tokens.
pub open spec fn close_from(toks: Seq<TokV>, j: int, e: Enclosure) -> int
    decreases toks.len() - j,
{
    if 0 <= j < toks.len() && toks[j].0.0 != TokenTag::Close(e) {
        close_from(toks, j + 1, e)
    } else {
        j
    }
}

/// The lexeme kind of a word: a keyword, else a type symbol when it starts
/// with an upper-case letter, else a symbol.
pub open spec fn word_kind(w: Seq<char>) -> KindV {
    if keyword_of(w) is Some {
        KindV::Keyword(keyword_of(w).unwrap())
    } else if is_ascii_upper(w[0]) {
        KindV::TSymbol(w)
    } else {
        KindV::Symbol(w)
    }
}

/// The lexeme kind of a token that maps to one lexeme directly.
pub open spec fn simple_kind(t: TokenTag) -> Option<KindV> {
    match t {
        TokenTag::Plus => Some(KindV::Plus),
        TokenTag::Minus => Some(KindV::Minus),
        TokenTag::Star => Some(KindV::Star),
        TokenTag::Slash => Some(KindV::Slash),
        TokenTag::Dot => Some(KindV::Dot),
        TokenTag::Greater => Some(KindV::Greater),
        TokenTag::GreaterOrEq => Some(KindV::GreaterOrEq),
        TokenTag::Less => Some(KindV::Less),
        TokenTag::LessOrEq => Some(KindV::LessOrEq),
        TokenTag::Bang => Some(KindV::Bang),
        TokenTag::Assignment => Some(KindV::Assignment),
        TokenTag::Equals => Some(KindV::Equals),
        TokenTag::NotEquals => Some(KindV::NotEquals),
        TokenTag::LogicalAnd => Some(KindV::LogicalAnd),
        TokenTag::LogicalOr => Some(KindV::LogicalOr),
        TokenTag::Underscore => Some(KindV::Underscore),
        _ => None,
    }
}

/// The state after emitting a lexeme of kind `k` for the current token.
pub open spec fn emit(st: LexState, k: KindV) -> LexState {
    LexState {
        i: st.i + 1,
        sep: Separator::Nothing,
        encl: st.encl,
        lexemes: st.lexemes.push((st.sep, st.i, k)),
        errors: st.errors,
    }
}

/// The state after reporting `e` at the current token and skipping `n` tokens.
pub open spec fn fail(toks: Seq<TokV>, st: LexState, e: Error, n: int) -> LexState {
    LexState {
        i: st.i + n,
        sep: st.sep,
        encl: st.encl,
        lexemes: st.lexemes,
        errors: st.errors.push((toks[st.i].1, e)),
    }
}

/// One step of the lexer, on the token at `st.i`.
pub open spec fn lex_step(toks: Seq<TokV>, st: LexState) -> LexState {
    let (tag, text) = toks[st.i].0;
    if tag == TokenTag::Spaces || tag == TokenTag::Tabs {
        LexState { i: ws_end(toks, st.i), sep: sep_add(st.sep, Separator::Whitespace), ..st }
    } else if tag is EndOfLine {
        LexState { i: ws_end(toks, st.i), sep: sep_add(st.sep, Separator::NewLine), ..st }
    } else if simple_kind(tag) is Some {
        emit(st, simple_kind(tag).unwrap())
    } else if tag is Open {
        let e = tag->Open_0;
        emit(LexState { encl: st.encl.push(e), ..st }, KindV::Open(e))
    } else if tag is Close {
        let e = tag->Close_0;
        if st.encl.len() == 0 {
            fail(toks, st, Error::InvalidClose(e), 1)
        } else if st.encl.last() == e {
            emit(LexState { encl: st.encl.drop_last(), ..st }, KindV::Close(e))
        } else {
            let j = close_from(toks, st.i + 1, e);
            let encl = if j < toks.len() {
                st.encl.drop_last().push(e)
            } else {
                st.encl.drop_last()
            };
            fail(toks, LexState { encl, ..st }, Error::InvalidClose(e), j - st.i)
        }
    } else if tag == TokenTag::Digits {
        emit(st, KindV::Integer(decimal_value(text) as int))
    } else if tag == TokenTag::Word {
        emit(st, word_kind(text))
    } else {
        fail(toks, st, Error::UnexpectedToken, 1)
    }
}

proof fn lemma_ws_end(toks: Seq<TokV>, j: int)
    requires
        0 <= j <= toks.len(),
    ensures
        j <= ws_end(toks, j) <= toks.len(),
    decreases toks.len() - j,
{
    if j < toks.len() && is_ws_tag(toks[j].0.0) {
        lemma_ws_end(toks, j + 1);
    }
}

proof fn lemma_close_from(toks: Seq<TokV>, j: int, e: Enclosure)
    requires
        0 <= j <= toks.len(),
    ensures
        j <= close_from(toks, j, e) <= toks.len(),
        close_from(toks, j, e) < toks.len() ==> toks[close_from(toks, j, e)].0.0
            == TokenTag::Close(e),
    decreases toks.len() - j,
{
    if j < toks.len() && toks[j].0.0 != TokenTag::Close(e) {
        lemma_close_from(toks, j + 1, e);
    }
}

/// Each step moves forward, and not past the end.
pub proof fn lemma_lex_step_advances(toks: Seq<TokV>, st: LexState)
    requires
        0 <= st.i < toks.len(),
    ensures
        st.i < lex_step(toks, st).i <= toks.len(),
{
    lemma_ws_end(toks, st.i + 1);
    let (tag, text) = toks[st.i].0;
    if tag is Close {
        lemma_close_from(toks, st.i + 1, tag->Close_0);
    }
}

/// Runs the lexer from state `st` to the end of the tokens.
pub open spec fn lex_run(toks: Seq<TokV>, st: LexState) -> LexState
    decreases toks.len() - st.i,
{
    if st.i < 0 || st.i >= toks.len() {
        st
    } else {
        proof {
            lemma_lex_step_advances(toks, st);
        }
        lex_run(toks, lex_step(toks, st))
    }
}

/// The state the lexer starts in: a new line, nothing open, nothing produced.
pub open spec fn lex_start() -> LexState {
    LexState {
        i: 0,
        sep: Separator::NewLine,
        encl: seq![],
        lexemes: seq![],
        errors: seq![],
    }
}

/// The lexeme `l` is the one the specification produced.
pub open spec fn lexeme_matches(toks: Seq<TokV>, l: Lexeme, sl: SpecLexeme) -> bool {
    &&& l.separator == sl.0
    &&& 0 <= sl.1 < toks.len()
    &&& l.loc == toks[sl.1].1
    &&& l.kind@ == sl.2
}

pub open spec fn lexemes_match(toks: Seq<TokV>, ls: Seq<Lexeme>, sls: Seq<SpecLexeme>) -> bool {
    &&& ls.len() == sls.len()
    &&& forall|k: int| 0 <= k < ls.len() ==> lexeme_matches(toks, #[trigger] ls[k], sls[k])
}

proof fn lemma_word_names(w: Seq<char>)
    requires
        w.len() > 0,
        is_ascii_alpha(w[0]),
        forall|k: int| 0 <= k < w.len() ==> is_ascii_alnum(#[trigger] w[k]),
    ensures
        crate::symbol::first_bad_tail(w) is None,
        keyword_of(w) is None && is_ascii_upper(w[0]) ==> crate::symbol::name_problem(w, true)
            is None,
        keyword_of(w) is None && !is_ascii_upper(w[0]) ==> crate::symbol::name_problem(w, false)
            is None,
{
    assert(crate::symbol::tail_alnum_upto(w, w.len() as int));
}

proof fn lemma_known_text_of(w: Seq<char>)
    requires
        known_of(w) is Some,
    ensures
        crate::symbol::known_text(known_of(w).unwrap()) == w,
{
}

/// The lexeme kind of a word token.
fn word_kind_exec(loc: &Loc, w: &String) -> (r: LexemeKind)
    requires
        w@.len() > 0,
        is_ascii_alpha(w@[0]),
        forall|k: int| 0 <= k < w@.len() ==> is_ascii_alnum(#[trigger] w@[k]),
    ensures
        r@ == word_kind(w@),
        r matches LexemeKind::TSymbol(t) ==> tsymbol_wf(t),
{
    proof {
        lemma_word_names(w@);
        if known_of(w@) is Some {
            lemma_known_text_of(w@);
        }
    }
    let ws = w.as_str();
    if let Some(k) = Keyword::parse(ws) {
        return LexemeKind::Keyword(k);
    }
    let c = ws.get_char(0);
    if char_is_upper(c) {
        match TSymbol::new(loc, ws) {
            Ok(t) => LexemeKind::TSymbol(t),
            Err(_) => {
                proof {
                    assert(false);
                }
                LexemeKind::Underscore
            },
        }
    } else {
        match Symbol::new(loc, ws) {
            Ok(s) => LexemeKind::Symbol(s),
            Err(_) => {
                proof {
                    assert(false);
                }
                LexemeKind::Underscore
            },
        }
    }
}

/// The lexeme kind of a token that maps to one lexeme directly.
fn simple_kind_exec(t: &Token) -> (r: Option<LexemeKind>)
    ensures
        match simple_kind(t@.0) {
            Some(k) => r matches Some(x) && x@ == k,
            None => r is None,
        },
{
    match t {
        Token::Plus => Some(LexemeKind::Plus),
        Token::Minus => Some(LexemeKind::Minus),
        Token::Star => Some(LexemeKind::Star),
        Token::Slash => Some(LexemeKind::Slash),
        Token::Dot => Some(LexemeKind::Dot),
        Token::Greater => Some(LexemeKind::Greater),
        Token::GreaterOrEq => Some(LexemeKind::GreaterOrEq),
        Token::Less => Some(LexemeKind::Less),
        Token::LessOrEq => Some(LexemeKind::LessOrEq),
        Token::Bang => Some(LexemeKind::Bang),
        Token::Assignment => Some(LexemeKind::Assignment),
        Token::Equals => Some(LexemeKind::Equals),
        Token::NotEquals => Some(LexemeKind::NotEquals),
        Token::LogicalAnd => Some(LexemeKind::LogicalAnd),
        Token::LogicalOr => Some(LexemeKind::LogicalOr),
        Token::Underscore => Some(LexemeKind::Underscore),
        _ => None,
    }
}

fn ws_end_exec(tokens: &Vec<L<Token>>, j: usize) -> (r: usize)
    requires
        j <= tokens@.len(),
    ensures
        r == ws_end(token_views(tokens@), j as int),
{
    let mut k = j;
    while k < tokens.len() && tokens[k].it.is_whitespace()
        invariant
            j <= k <= tokens@.len(),
            ws_end(token_views(tokens@), j as int) == ws_end(token_views(tokens@), k as int),
        decreases tokens@.len() - k,
    {
        k = k + 1;
    }
    k
}

fn is_close(t: &Token, e: Enclosure) -> (r: bool)
    ensures
        r == (t@.0 == TokenTag::Close(e)),
{
    match t {
        Token::Close(x) => *x == e,
        _ => false,
    }
}

fn close_from_exec(tokens: &Vec<L<Token>>, j: usize, e: Enclosure) -> (r: usize)
    requires
        j <= tokens@.len(),
    ensures
        r == close_from(token_views(tokens@), j as int, e),
{
    let mut k = j;
    while k < tokens.len() && !is_close(&tokens[k].it, e)
        invariant
            j <= k <= tokens@.len(),
            close_from(token_views(tokens@), j as int, e) == close_from(token_views(tokens@), k as int, e),
        decreases tokens@.len() - k,
    {
        k = k + 1;
    }
    k
}

/// The exec state `(index, sep, encl, lexemes, errors)` is the spec state `st`.
pub open spec fn state_is(
    toks: Seq<TokV>,
    st: LexState,
    index: usize,
    sep: Separator,
    encl: Seq<Enclosure>,
    lexemes: Seq<Lexeme>,
    errors: Seq<(Loc, Error)>,
) -> bool {
    &&& st.i == index
    &&& st.sep == sep
    &&& st.encl == encl
    &&& lexemes_match(toks, lexemes, st.lexemes)
    &&& st.errors == errors
}

proof fn lemma_emit_matches(toks: Seq<TokV>, ls: Seq<Lexeme>, sls: Seq<SpecLexeme>, l: Lexeme, sl: SpecLexeme)
    requires
        lexemes_match(toks, ls, sls),
        lexeme_matches(toks, l, sl),
    ensures
        lexemes_match(toks, ls.push(l), sls.push(sl)),
{
    assert forall|k: int| 0 <= k < ls.push(l).len() implies lexeme_matches(
        toks,
        #[trigger] ls.push(l)[k],
        sls.push(sl)[k],
    ) by {
        if k < ls.len() {
            assert(ls.push(l)[k] == ls[k]);
            assert(sls.push(sl)[k] == sls[k]);
        }
    }
}

fn push_error(errors: &mut Errors, loc: Loc, e: Error)
    requires
        errors_wf(*old(errors)),
    ensures
        errors_wf(*final(errors)),
        final(errors)@ == old(errors)@.push((loc, e)),
{
    errors.add(&loc, e);
}

/// Lexes tokens that the tokenizer produced.
pub fn lex_tokens(tokens: &Vec<L<Token>>) -> (r: Result<Vec<Lexeme>, ErrorVec>)
    requires
        tokens_wf(tokens@),
    ensures
        ({
            let fin = lex_run(token_views(tokens@), lex_start());
            &&& fin.errors.len() == 0 ==> (r matches Ok(ls) && lexemes_match(token_views(tokens@), ls@, fin.lexemes))
            &&& fin.errors.len() > 0 ==> (r matches Err(e) && e@ == fin.errors)
        }),
{
    let ghost toks = token_views(tokens@);
    let mut index: usize = 0;
    let mut sep = Separator::NewLine;
    let mut encl: Vec<Enclosure> = Vec::new();
    let mut lexemes: Vec<Lexeme> = Vec::new();
    let mut errors = Errors::new();
    let ghost mut st = lex_start();
    while index < tokens.len()
        invariant
            toks == token_views(tokens@),
            tokens_wf(tokens@),
            0 <= index <= toks.len(),
            state_is(toks, st, index, sep, encl@, lexemes@, errors@),
            errors_wf(errors),
            lex_run(toks, lex_start()) == lex_run(toks, st),
        decreases toks.len() - index,
    {
        let ghost st0 = st;
        proof {
            lemma_lex_step_advances(toks, st);
            st = lex_step(toks, st);
            assert(lex_run(toks, st0) == lex_run(toks, st));
        }
        let t = &tokens[index];
        let loc = t.loc;
        assert(token_wf(t.it));
        match &t.it {
            Token::Spaces(_) | Token::Tabs(_) => {
                index = ws_end_exec(tokens, index);
                sep = sep.add(Separator::Whitespace);
            },
            Token::EndOfLine(_) => {
                index = ws_end_exec(tokens, index);
                sep = sep.add(Separator::NewLine);
            },
            Token::Open(e) => {
                encl.push(*e);
                let l = Lexeme { separator: sep, loc, kind: LexemeKind::Open(*e) };
                proof {
                    lemma_emit_matches(toks, lexemes@, st0.lexemes, l, (sep, index as int, KindV::Open(*e)));
                }
                lexemes.push(l);
                index = index + 1;
                sep = Separator::Nothing;
            },
            Token::Close(e) => {
                let e = *e;
                match encl.pop() {
                    None => {
                        push_error(&mut errors, loc, Error::InvalidClose(e));
                        index = index + 1;
                    },
                    Some(last) => {
                        if last == e {
                            let l = Lexeme { separator: sep, loc, kind: LexemeKind::Close(e) };
                            proof {
                                lemma_emit_matches(toks, lexemes@, st0.lexemes, l, (sep, index as int, KindV::Close(e)));
                            }
                            lexemes.push(l);
                            index = index + 1;
                            sep = Separator::Nothing;
                        } else {
                            let j = close_from_exec(tokens, index + 1, e);
                            if j < tokens.len() {
                                encl.push(e);
                            }
                            push_error(&mut errors, loc, Error::InvalidClose(e));
                            index = j;
                        }
                    },
                }
            },
            Token::Digits(d) => {
                let n = Integer::from_decimal(d.as_str());
                let l = Lexeme { separator: sep, loc, kind: LexemeKind::Integer(n) };
                proof {
                    lemma_emit_matches(toks, lexemes@, st0.lexemes, l, (sep, index as int, KindV::Integer(decimal_value(d@) as int)));
                }
                lexemes.push(l);
                index = index + 1;
                sep = Separator::Nothing;
            },
            Token::Word(w) => {
                let k = word_kind_exec(&loc, w);
                let l = Lexeme { separator: sep, loc, kind: k };
                proof {
                    lemma_emit_matches(toks, lexemes@, st0.lexemes, l, (sep, index as int, word_kind(w@)));
                }
                lexemes.push(l);
                index = index + 1;
                sep = Separator::Nothing;
            },
            _ => {
                match simple_kind_exec(&t.it) {
                    Some(k) => {
                        let l = Lexeme { separator: sep, loc, kind: k };
                        proof {
                            lemma_emit_matches(toks, lexemes@, st0.lexemes, l, (sep, index as int, simple_kind(t.it@.0).unwrap()));
                        }
                        lexemes.push(l);
                        index = index + 1;
                        sep = Separator::Nothing;
                    },
                    None => {
                        push_error(&mut errors, loc, Error::UnexpectedToken);
                        index = index + 1;
                    },
                }
            },
        }
    }
    errors.to_result(lexemes)
}

/// Lexes the input: tokenizes it and, when that succeeds, lexes the tokens.
pub fn lex(input: &str) -> (r: Result<Vec<Lexeme>, ErrorVec>)
    ensures
        scan(input@, 0).1.len() > 0 ==> (r matches Err(e) && crate::tokenizer::tokenize_errors(
            input@,
            e@,
        )),
        scan(input@, 0).1.len() == 0 ==> ({
            let toks = crate::tokenizer::scanned_views(input@);
            let fin = lex_run(toks, lex_start());
            &&& fin.errors.len() == 0 ==> (r matches Ok(ls) && lexemes_match(toks, ls@, fin.lexemes))
            &&& fin.errors.len() > 0 ==> (r matches Err(e) && e@ == fin.errors)
        }),
{
    let tokens = tokenize(input)?;
    lex_tokens(&tokens)
}


/// The kinds of lexemes, in order.
pub open spec fn kinds_of(l: Seq<SpecLexeme>) -> Seq<KindV> {
    l.map_values(|x: SpecLexeme| x.2)
}

/// The brackets left open after reading `ks` from the left with a stack: an
/// opening bracket is pushed, a closing one must match the top, which it pops.
/// `None` when a closing bracket finds nothing open, or another bracket on top.
pub open spec fn open_after(ks: Seq<KindV>) -> Option<Seq<Enclosure>>
    decreases ks.len(),
{
    if ks.len() == 0 {
        Some(seq![])
    } else {
        match open_after(ks.drop_last()) {
            None => None,
            Some(st) => match ks.last() {
                KindV::Open(e) => Some(st.push(e)),
                KindV::Close(e) => if st.len() > 0 && st.last() == e {
                    Some(st.drop_last())
                } else {
                    None
                },
                _ => Some(st),
            },
        }
    }
}

proof fn lemma_kinds_push(l: Seq<SpecLexeme>, x: SpecLexeme)
    ensures
        kinds_of(l.push(x)) == kinds_of(l).push(x.2),
        kinds_of(l.push(x)).drop_last() == kinds_of(l),
{
    assert(kinds_of(l.push(x)) =~= kinds_of(l).push(x.2));
    assert(kinds_of(l.push(x)).drop_last() =~= kinds_of(l));
}

proof fn lemma_lex_errors_grow(toks: Seq<TokV>, st: LexState)
    ensures
        lex_run(toks, st).errors.len() >= st.errors.len(),
    decreases toks.len() - st.i,
{
    if 0 <= st.i < toks.len() {
        lemma_lex_step_advances(toks, st);
        lemma_lex_errors_grow(toks, lex_step(toks, st));
    }
}

proof fn lemma_lex_run_brackets(toks: Seq<TokV>, st: LexState)
    requires
        open_after(kinds_of(st.lexemes)) == Some(st.encl),
    ensures
        lex_run(toks, st).errors.len() == st.errors.len() ==> open_after(
            kinds_of(lex_run(toks, st).lexemes),
        ) == Some(lex_run(toks, st).encl),
    decreases toks.len() - st.i,
{
    if 0 <= st.i < toks.len() {
        lemma_lex_step_advances(toks, st);
        let nx = lex_step(toks, st);
        lemma_lex_errors_grow(toks, nx);
        if nx.errors.len() == st.errors.len() {
            let (tag, text) = toks[st.i].0;
            if nx.lexemes.len() > st.lexemes.len() {
                let x = nx.lexemes.last();
                assert(nx.lexemes == st.lexemes.push(x));
                lemma_kinds_push(st.lexemes, x);
                if tag == TokenTag::Word {
                    assert(keyword_of(text) is Some || !(word_kind(text) is Open) && !(word_kind(text) is Close));
                }
            }
            lemma_lex_run_brackets(toks, nx);
        }
    }
}

/// When lexing succeeds, its brackets nest: reading the lexemes from the left
/// with a stack, each closing bracket closes the last one still open (some may
/// stay open).
pub proof fn law_lexed_brackets_nest(toks: Seq<TokV>)
    ensures
        lex_run(toks, lex_start()).errors.len() == 0 ==> open_after(
            kinds_of(lex_run(toks, lex_start()).lexemes),
        ) == Some(lex_run(toks, lex_start()).encl),
{
    assert(kinds_of(lex_start().lexemes) =~= Seq::<KindV>::empty());
    lemma_lex_run_brackets(toks, lex_start());
}

proof fn lemma_lex_errors_prefix(toks: Seq<TokV>, st: LexState)
    ensures
        lex_run(toks, st).errors.len() >= st.errors.len(),
        lex_run(toks, st).errors.subrange(0, st.errors.len() as int) == st.errors,
    decreases toks.len() - st.i,
{
    if 0 <= st.i < toks.len() {
        lemma_lex_step_advances(toks, st);
        let nx = lex_step(toks, st);
        lemma_lex_errors_prefix(toks, nx);
        let fin = lex_run(toks, nx);
        assert(nx.errors.subrange(0, st.errors.len() as int) =~= st.errors);
        assert(fin.errors.subrange(0, st.errors.len() as int) =~= fin.errors.subrange(
            0,
            nx.errors.len() as int,
        ).subrange(0, st.errors.len() as int));
    } else {
        assert(st.errors.subrange(0, st.errors.len() as int) =~= st.errors);
    }
}

/// A closing bracket that finds nothing open, or another bracket on top, is
/// reported as `InvalidClose` where it stands, and the lexing fails with that
/// error among its errors.
pub proof fn law_unmatched_close_fails(toks: Seq<TokV>, st: LexState, e: Enclosure)
    requires
        0 <= st.i < toks.len(),
        toks[st.i].0.0 == TokenTag::Close(e),
        st.encl.len() == 0 || st.encl.last() != e,
    ensures
        lex_run(toks, st).errors.len() > st.errors.len(),
        lex_run(toks, st).errors[st.errors.len() as int] == (toks[st.i].1, Error::InvalidClose(e)),
{
    lemma_lex_step_advances(toks, st);
    if st.encl.len() > 0 {
        lemma_close_from(toks, st.i + 1, e);
    }
    let nx = lex_step(toks, st);
    assert(nx.errors == st.errors.push((toks[st.i].1, Error::InvalidClose(e))));
    lemma_lex_errors_prefix(toks, nx);
    let fin = lex_run(toks, nx);
    assert(fin.errors.subrange(0, nx.errors.len() as int)[st.errors.len() as int] == fin.errors[st.errors.len() as int]);
}

} // verus!
