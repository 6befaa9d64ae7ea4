use arendal::error::{Error, Loc, L};
use arendal::tokenizer::{tokenize, Enclosure, NewLine, Token};

struct TestCase {
    input: String,
    index: usize,
    tokens: Vec<L<Token>>,
}

impl TestCase {
    fn new(input: &str) -> TestCase {
        TestCase { input: input.to_owned(), index: 0, tokens: Vec::new() }
    }

    fn token(mut self, token: Token) -> Self {
        let bytes = token.bytes();
        self.tokens.push(Loc::input(self.index).wrap(token));
        self.index += bytes;
        self
    }

    fn newline(self, nl: NewLine) -> Self {
        self.token(Token::EndOfLine(nl))
    }

    fn spaces(self, n: usize) -> Self {
        self.token(Token::Spaces(n))
    }

    fn tabs(self, n: usize) -> Self {
        self.token(Token::Tabs(n))
    }

    fn digits(self, digits: &str) -> Self {
        self.token(Token::Digits(digits.to_owned()))
    }

    fn word(self, word: &str) -> Self {
        self.token(Token::Word(word.to_owned()))
    }

    fn ok(&self) {
        match tokenize(self.input.as_str()) {
            Ok(tokens) => {
                assert_eq!(tokens, self.tokens);
                for (actual, expected) in tokens.iter().zip(self.tokens.iter()) {
                    assert_eq!(actual.loc.pos(), expected.loc.pos());
                }
            }
            Err(_) => panic!(),
        }
    }
}

#[test]
fn empty() {
    TestCase::new("").ok();
}

#[test]
fn spaces() {
    TestCase::new("   ").spaces(3).ok();
}

#[test]
fn tabs() {
    TestCase::new("\t\t\t").tabs(3).ok();
}

#[test]
fn lf() {
    TestCase::new("\n").newline(NewLine::LF).ok();
}

#[test]
fn crlf() {
    TestCase::new("\r\n").newline(NewLine::CRLF).ok();
}

#[test]
fn singles() {
    TestCase::new("+-*./><!()={}[]_")
        .token(Token::Plus)
        .token(Token::Minus)
        .token(Token::Star)
        .token(Token::Dot)
        .token(Token::Slash)
        .token(Token::Greater)
        .token(Token::Less)
        .token(Token::Bang)
        .token(Token::Open(Enclosure::Parens))
        .token(Token::Close(Enclosure::Parens))
        .token(Token::Assignment)
        .token(Token::Open(Enclosure::Curly))
        .token(Token::Close(Enclosure::Curly))
        .token(Token::Open(Enclosure::Square))
        .token(Token::Close(Enclosure::Square))
        .token(Token::Underscore)
        .ok();
}

#[test]
fn bang() {
    TestCase::new("!a!=b")
        .token(Token::Bang)
        .word("a")
        .token(Token::NotEquals)
        .word("b")
        .ok();
}

#[test]
fn digits1() {
    TestCase::new("1234").digits("1234").ok();
}

#[test]
fn digits2() {
    TestCase::new("12 34").digits("12").spaces(1).digits("34").ok();
}

#[test]
fn word1() {
    TestCase::new("abc").word("abc").ok();
}

#[test]
fn word2() {
    TestCase::new("abc4e").word("abc4e").ok();
}

#[test]
fn word3() {
    TestCase::new("4bc5e").digits("4").word("bc5e").ok();
}

#[test]
fn harness() {
    TestCase::new("   \n\t").spaces(3).newline(NewLine::LF).tabs(1).ok();
}

#[test]
fn sum() {
    TestCase::new("1 + 3")
        .digits("1")
        .spaces(1)
        .token(Token::Plus)
        .spaces(1)
        .digits("3")
        .ok();
}

#[test]
fn two_char_operators() {
    TestCase::new(">=<===&&||::&|:")
        .token(Token::GreaterOrEq)
        .token(Token::LessOrEq)
        .token(Token::Equals)
        .token(Token::Assignment)
        .token(Token::LogicalAnd)
        .token(Token::LogicalOr)
        .token(Token::DoubleColon)
        .token(Token::Ampersand)
        .token(Token::Pipe)
        .token(Token::Colon)
        .ok();
}

#[test]
fn unexpected_chars_are_all_reported() {
    match tokenize("a # b $") {
        Ok(_) => panic!(),
        Err(e) => {
            assert_eq!(e.errors.len(), 2);
            assert_eq!(e.errors[0].it, Error::UnexpectedChar('#'));
            assert_eq!(e.errors[0].loc.pos(), Some(2));
            assert_eq!(e.errors[1].it, Error::UnexpectedChar('$'));
            assert_eq!(e.errors[1].loc.pos(), Some(6));
        }
    }
}

#[test]
fn lone_carriage_return_is_an_error() {
    match tokenize("1\r2") {
        Ok(_) => panic!(),
        Err(e) => {
            assert_eq!(e.errors.len(), 1);
            assert_eq!(e.errors[0].it, Error::UnexpectedChar('\r'));
            assert_eq!(e.errors[0].loc.pos(), Some(1));
        }
    }
}

#[test]
fn locations_count_bytes() {
    // 'é' takes two bytes, so the word after it starts at byte 3.
    match tokenize("é x") {
        Ok(_) => panic!(),
        Err(e) => assert_eq!(e.errors[0].loc.pos(), Some(0)),
    }
    let tokens = tokenize("ab\r\ncd").unwrap();
    assert_eq!(tokens.len(), 3);
    assert_eq!(tokens[2].loc.pos(), Some(4));
}

#[test]
fn tokens_cover_the_input() {
    let input = "let x = 12 +\t(y)\r\n";
    let tokens = tokenize(input).unwrap();
    let total: usize = tokens.iter().map(|t| t.it.bytes()).sum();
    assert_eq!(total, input.len());
}
