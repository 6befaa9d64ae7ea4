use arendal::error::{Error, Loc};
use arendal::integer::Integer;
use arendal::keyword::Keyword;
use arendal::lexer::{lex, Lexeme, LexemeKind, Separator};
use arendal::symbol::{Symbol, TSymbol};
use arendal::tokenizer::Enclosure;

fn assert_eq_noloc(actual: &Vec<Lexeme>, expected: &Vec<Lexeme>) {
    assert_eq!(actual.len(), expected.len());
    for (a, e) in actual.iter().zip(expected.iter()) {
        assert_eq!(a.separator, e.separator, "(Separator) Left=actual, Right=expected");
        assert_eq!(a.kind, e.kind, "(Kind) Left=actual, Right=expected");
    }
}

struct TestCase {
    input: String,
    lexemes: Vec<Lexeme>,
}

impl TestCase {
    fn new(input: &str) -> TestCase {
        TestCase { input: input.to_owned(), lexemes: Vec::new() }
    }

    fn token(mut self, separator: Separator, kind: LexemeKind) -> Self {
        self.lexemes.push(Lexeme::new(separator, Loc::input(0), kind));
        self
    }

    fn integer(self, separator: Separator, n: i64) -> Self {
        self.token(separator, LexemeKind::Integer(Integer::from_i64(n)))
    }

    fn open(self, separator: Separator, e: Enclosure) -> Self {
        self.token(separator, LexemeKind::Open(e))
    }

    fn close(self, separator: Separator, e: Enclosure) -> Self {
        self.token(separator, LexemeKind::Close(e))
    }

    fn id(self, separator: Separator, name: &str) -> Self {
        self.token(separator, LexemeKind::Symbol(Symbol::new(&Loc::none(), name).unwrap()))
    }

    fn type_id(self, separator: Separator, name: &str) -> Self {
        self.token(separator, LexemeKind::TSymbol(TSymbol::new(&Loc::none(), name).unwrap()))
    }

    fn keyword(self, separator: Separator, keyword: Keyword) -> Self {
        self.token(separator, LexemeKind::Keyword(keyword))
    }

    fn ok_without_pos(self) {
        match lex(self.input.as_str()) {
            Ok(lexemes) => assert_eq_noloc(&lexemes, &self.lexemes),
            Err(_) => panic!(),
        }
    }

    fn err(self) {
        match lex(self.input.as_str()) {
            Ok(_) => panic!(),
            Err(_) => (),
        }
    }
}

#[test]
fn tests_empty() {
    TestCase::new("").ok_without_pos();
}

#[test]
fn tests_digits1() {
    TestCase::new("1234").integer(Separator::NewLine, 1234).ok_without_pos();
}

#[test]
fn tests_digits2() {
    TestCase::new("\t1234").integer(Separator::NewLine, 1234).ok_without_pos();
}

#[test]
fn digits3() {
    TestCase::new("\t 1234").integer(Separator::NewLine, 1234).ok_without_pos();
}

#[test]
fn add1() {
    TestCase::new("1234+456")
        .integer(Separator::NewLine, 1234)
        .token(Separator::Nothing, LexemeKind::Plus)
        .integer(Separator::Nothing, 456)
        .ok_without_pos();
}

#[test]
fn add2() {
    TestCase::new("  1234 +  456")
        .integer(Separator::NewLine, 1234)
        .token(Separator::Whitespace, LexemeKind::Plus)
        .integer(Separator::Whitespace, 456)
        .ok_without_pos();
}

#[test]
fn add3() {
    TestCase::new("  1234 +\n\t456")
        .integer(Separator::NewLine, 1234)
        .token(Separator::Whitespace, LexemeKind::Plus)
        .integer(Separator::NewLine, 456)
        .ok_without_pos();
}

#[test]
fn remove_empty_lines1() {
    TestCase::new("\n\n \n1234").integer(Separator::NewLine, 1234).ok_without_pos();
}

#[test]
fn remove_empty_lines2() {
    TestCase::new("\n\n \n\t \n \t \n1234").integer(Separator::NewLine, 1234).ok_without_pos();
}

#[test]
fn remove_empty_lines3() {
    TestCase::new("\n\n \n\t \n \t \n\t 1234").integer(Separator::NewLine, 1234).ok_without_pos();
}

#[test]
fn remove_empty_lines4() {
    TestCase::new("\n\n \n\t \n \t \n\t 1234\n\n \n 567\n\n")
        .integer(Separator::NewLine, 1234)
        .integer(Separator::NewLine, 567)
        .ok_without_pos();
}

#[test]
fn parens1() {
    TestCase::new("()")
        .open(Separator::NewLine, Enclosure::Parens)
        .close(Separator::Nothing, Enclosure::Parens)
        .ok_without_pos();
}

#[test]
fn parens2() {
    TestCase::new("((()))")
        .open(Separator::NewLine, Enclosure::Parens)
        .open(Separator::Nothing, Enclosure::Parens)
        .open(Separator::Nothing, Enclosure::Parens)
        .close(Separator::Nothing, Enclosure::Parens)
        .close(Separator::Nothing, Enclosure::Parens)
        .close(Separator::Nothing, Enclosure::Parens)
        .ok_without_pos();
}

#[test]
fn parens_err1() {
    TestCase::new(")").err();
}

#[test]
fn parens_err2() {
    TestCase::new("(()))").err();
}

#[test]
fn enclosures_mixed_ok() {
    TestCase::new("[{(1234)}]")
        .open(Separator::NewLine, Enclosure::Square)
        .open(Separator::Nothing, Enclosure::Curly)
        .open(Separator::Nothing, Enclosure::Parens)
        .integer(Separator::Nothing, 1234)
        .close(Separator::Nothing, Enclosure::Parens)
        .close(Separator::Nothing, Enclosure::Curly)
        .close(Separator::Nothing, Enclosure::Square)
        .ok_without_pos();
}

#[test]
fn assignment() {
    TestCase::new("let x = True")
        .keyword(Separator::NewLine, Keyword::Let)
        .id(Separator::Whitespace, "x")
        .token(Separator::Whitespace, LexemeKind::Assignment)
        .type_id(Separator::Whitespace, "True")
        .ok_without_pos();
}

#[test]
fn invalid_close_is_reported() {
    match lex("(1]") {
        Ok(_) => panic!(),
        Err(e) => assert!(e.errors.iter().any(|x| x.it == Error::InvalidClose(Enclosure::Square))),
    }
}

#[test]
fn unexpected_tokens_are_reported() {
    match lex("a & b") {
        Ok(_) => panic!(),
        Err(e) => {
            assert_eq!(e.errors.len(), 1);
            assert_eq!(e.errors[0].it, Error::UnexpectedToken);
            assert_eq!(e.errors[0].loc.pos(), Some(2));
        }
    }
}

#[test]
fn separators_take_the_strongest() {
    assert_eq!(Separator::Nothing.add(Separator::Whitespace), Separator::Whitespace);
    assert_eq!(Separator::NewLine.add(Separator::Whitespace), Separator::NewLine);
    assert_eq!(Separator::Whitespace.add(Separator::Nothing), Separator::Whitespace);
}

#[test]
fn lexeme_locations() {
    let lexemes = lex("ab + 12").unwrap();
    let positions: Vec<Option<usize>> = lexemes.iter().map(|l| l.loc().pos()).collect();
    assert_eq!(positions, vec![Some(0), Some(3), Some(5)]);
}
