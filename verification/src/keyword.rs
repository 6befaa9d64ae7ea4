//! Reserved words of the language.
use vstd::prelude::*;

verus! {

/// A reserved word: it can never be used as a symbol.
///
/// `pub` is one of them: the parser reads it as the start of an exported
/// top-level assignment (`pub let`), so it is reserved like the others and a
/// value can never be named `pub`.
#[derive(Clone, Copy, Debug, PartialEq, Eq, Structural)]
pub enum Keyword {
    Pkg,
    Pub,
    Let,
    If,
    Then,
    Else,
    Type,
}

/// The text of each keyword.
pub open spec fn keyword_text(k: Keyword) -> Seq<char> {
    match k {
        Keyword::Pkg => seq!['p', 'k', 'g'],
        Keyword::Pub => seq!['p', 'u', 'b'],
        Keyword::Let => seq!['l', 'e', 't'],
        Keyword::If => seq!['i', 'f'],
        Keyword::Then => seq!['t', 'h', 'e', 'n'],
        Keyword::Else => seq!['e', 'l', 's', 'e'],
        Keyword::Type => seq!['t', 'y', 'p', 'e'],
    }
}

/// The keyword whose text is `s`, if any.
pub open spec fn keyword_of(s: Seq<char>) -> Option<Keyword> {
    if s == keyword_text(Keyword::Pkg) {
        Some(Keyword::Pkg)
    } else if s == keyword_text(Keyword::Pub) {
        Some(Keyword::Pub)
    } else if s == keyword_text(Keyword::Let) {
        Some(Keyword::Let)
    } else if s == keyword_text(Keyword::If) {
        Some(Keyword::If)
    } else if s == keyword_text(Keyword::Then) {
        Some(Keyword::Then)
    } else if s == keyword_text(Keyword::Else) {
        Some(Keyword::Else)
    } else if s == keyword_text(Keyword::Type) {
        Some(Keyword::Type)
    } else {
        None
    }
}

/// Whether `v` holds exactly the characters of `lit`.
pub fn chars_equal(v: &[char], lit: &[char]) -> (r: bool)
    ensures
        r == (v@ == lit@),
{
    if v.len() != lit.len() {
        return false;
    }
    let mut i: usize = 0;
    while i < v.len()
        invariant
            v@.len() == lit@.len(),
            0 <= i <= v@.len(),
            forall|j: int| 0 <= j < i ==> v@[j] == lit@[j],
        decreases v@.len() - i,
    {
        if v[i] != lit[i] {
            return false;
        }
        i = i + 1;
    }
    assert(v@ =~= lit@);
    true
}

/// The characters of `s`, in order.
pub fn str_chars(s: &str) -> (r: Vec<char>)
    ensures
        r@ == s@,
{
    let mut r: Vec<char> = Vec::new();
    for c in it: s.chars()
        invariant
            r@ == it.seq().take(it.index() as int),
            it.seq() == s@,
    {
        r.push(c);
    }
    assert(r@ =~= s@);
    r
}

impl Keyword {
    /// The keyword spelled `keyword`, if it is one.
    pub fn parse(keyword: &str) -> (r: Option<Keyword>)
        ensures
            r == keyword_of(keyword@),
    {
        let v = str_chars(keyword);
        Self::parse_chars(&v)
    }

    /// The keyword spelled by `v`, if it is one.
    pub fn parse_chars(v: &[char]) -> (r: Option<Keyword>)
        ensures
            r == keyword_of(v@),
    {
        if chars_equal(v, &['p', 'k', 'g']) {
            Some(Keyword::Pkg)
        } else if chars_equal(v, &['p', 'u', 'b']) {
            Some(Keyword::Pub)
        } else if chars_equal(v, &['l', 'e', 't']) {
            Some(Keyword::Let)
        } else if chars_equal(v, &['i', 'f']) {
            Some(Keyword::If)
        } else if chars_equal(v, &['t', 'h', 'e', 'n']) {
            Some(Keyword::Then)
        } else if chars_equal(v, &['e', 'l', 's', 'e']) {
            Some(Keyword::Else)
        } else if chars_equal(v, &['t', 'y', 'p', 'e']) {
            Some(Keyword::Type)
        } else {
            None
        }
    }

    /// The text of the keyword.
    pub fn as_str(&self) -> (r: &'static str)
        ensures
            r@ == keyword_text(*self),
    {
        match self {
            Keyword::Pkg => {
                proof {
                    reveal_strlit("pkg");
                }
                "pkg"
            },
            Keyword::Pub => {
                proof {
                    reveal_strlit("pub");
                }
                "pub"
            },
            Keyword::Let => {
                proof {
                    reveal_strlit("let");
                }
                "let"
            },
            Keyword::If => {
                proof {
                    reveal_strlit("if");
                }
                "if"
            },
            Keyword::Then => {
                proof {
                    reveal_strlit("then");
                }
                "then"
            },
            Keyword::Else => {
                proof {
                    reveal_strlit("else");
                }
                "else"
            },
            Keyword::Type => {
                proof {
                    reveal_strlit("type");
                }
                "type"
            },
        }
    }
}

/// Spelling a keyword and reading it back gives the same keyword, and a text
/// names a keyword only when it is that keyword's spelling.
pub proof fn keyword_text_roundtrip(k: Keyword, s: Seq<char>)
    ensures
        keyword_of(keyword_text(k)) == Some(k),
        keyword_of(s) == Some(k) ==> s == keyword_text(k),
{
    assert(keyword_text(Keyword::Pkg) != keyword_text(Keyword::Pub)) by {
        assert(keyword_text(Keyword::Pkg)[1] != keyword_text(Keyword::Pub)[1]);
    }
    assert(keyword_text(Keyword::Then) != keyword_text(Keyword::Else)) by {
        assert(keyword_text(Keyword::Then)[0] != keyword_text(Keyword::Else)[0]);
    }
    assert(keyword_text(Keyword::Then) != keyword_text(Keyword::Type)) by {
        assert(keyword_text(Keyword::Then)[1] != keyword_text(Keyword::Type)[1]);
    }
    assert(keyword_text(Keyword::Else) != keyword_text(Keyword::Type)) by {
        assert(keyword_text(Keyword::Else)[0] != keyword_text(Keyword::Type)[0]);
    }
    assert(keyword_text(Keyword::Pkg) != keyword_text(Keyword::Let)) by {
        assert(keyword_text(Keyword::Pkg)[0] != keyword_text(Keyword::Let)[0]);
    }
    assert(keyword_text(Keyword::Pub) != keyword_text(Keyword::Let)) by {
        assert(keyword_text(Keyword::Pub)[0] != keyword_text(Keyword::Let)[0]);
    }
}

} // verus!
