//! Parses lexemes into a module: type definitions, top-level assignments and
//! expressions, one per line. The grammar, from loosest to tightest binding:
//! `then` sequences, `if ... then ... else ...`, `||`, `&&`, `==` `!=`,
//! comparisons, `+` `-`, `*` `/`, and primaries (integers, symbols, type
//! symbols, parenthesized expressions and `{ }` blocks).
use vstd::prelude::*;

use crate::ast::{
    Assignment, BStmt, BinaryOp, EV, Expr, Expression, Module, ModuleV, SV, TLAssignment,
    TypeDefinition, TypeDfn, expr_view, module_view, stmt_view, stmts_view,
};
use crate::error::{Error, ErrorVec, Loc};
use crate::keyword::Keyword;
use crate::lexer::{KindV, Lexeme, LexemeKind, Separator, SpecLexeme, lex, lex_run, lex_start, lexemes_match};
use crate::symbol::{Symbol, TSymbol, Visibility, tsymbol_wf};
use crate::tokenizer::{Enclosure, TokV, loc_at, scan, scanned_views, tokenize_errors};

verus! {

/// A lexeme as the parser sees it.
pub type LexV = (Separator, Loc, KindV);

pub open spec fn lexeme_views(ls: Seq<Lexeme>) -> Seq<LexV> {
    ls.map_values(|l: Lexeme| (l.separator, l.loc, l.kind@))
}

pub open spec fn kind_at(lx: Seq<LexV>, i: int) -> Option<KindV> {
    if 0 <= i < lx.len() {
        Some(lx[i].2)
    } else {
        None
    }
}

pub open spec fn is_kw(lx: Seq<LexV>, i: int, k: Keyword) -> bool {
    kind_at(lx, i) == Some(KindV::Keyword(k))
}

/// The location reported at position `i`: that of the lexeme there, or of the
/// last lexeme past the end.
pub open spec fn ploc(lx: Seq<LexV>, i: int) -> Loc {
    if lx.len() == 0 {
        Loc::Nowhere
    } else if 0 <= i < lx.len() {
        lx[i].1
    } else {
        lx[lx.len() - 1].1
    }
}

/// The end of a statement: the end of the input, or a lexeme on a new line.
pub open spec fn is_eos(lx: Seq<LexV>, i: int) -> bool {
    !(0 <= i < lx.len()) || lx[i].0 == Separator::NewLine
}

/// A step that moved forward and stayed within the input.
pub open spec fn advanced(lx: Seq<LexV>, i: int, j: int) -> bool {
    i < j <= lx.len()
}

pub type PR = Result<(EV, int), (Loc, Error)>;

pub open spec fn perr<T>(lx: Seq<LexV>, i: int, e: Error) -> Result<T, (Loc, Error)> {
    Err((ploc(lx, i), e))
}

/// The binary operator of lexeme kind `k` at precedence level `level`
/// (6 `||`, 5 `&&`, 4 equality, 3 comparison, 2 addition, 1 multiplication).
pub open spec fn level_op(level: int, k: Option<KindV>) -> Option<BinaryOp> {
    match k {
        Some(KindV::LogicalOr) => if level == 6 {
            Some(BinaryOp::Or)
        } else {
            None
        },
        Some(KindV::LogicalAnd) => if level == 5 {
            Some(BinaryOp::And)
        } else {
            None
        },
        Some(KindV::Equals) => if level == 4 {
            Some(BinaryOp::Eq)
        } else {
            None
        },
        Some(KindV::NotEquals) => if level == 4 {
            Some(BinaryOp::NEq)
        } else {
            None
        },
        Some(KindV::Greater) => if level == 3 {
            Some(BinaryOp::GT)
        } else {
            None
        },
        Some(KindV::GreaterOrEq) => if level == 3 {
            Some(BinaryOp::GE)
        } else {
            None
        },
        Some(KindV::Less) => if level == 3 {
            Some(BinaryOp::LT)
        } else {
            None
        },
        Some(KindV::LessOrEq) => if level == 3 {
            Some(BinaryOp::LE)
        } else {
            None
        },
        Some(KindV::Plus) => if level == 2 {
            Some(BinaryOp::Add)
        } else {
            None
        },
        Some(KindV::Minus) => if level == 2 {
            Some(BinaryOp::Sub)
        } else {
            None
        },
        Some(KindV::Star) => if level == 1 {
            Some(BinaryOp::Mul)
        } else {
            None
        },
        Some(KindV::Slash) => if level == 1 {
            Some(BinaryOp::Div)
        } else {
            None
        },
        _ => None,
    }
}

/// A block of statements: a lone expression stands for itself.
pub open spec fn block_of(loc: Loc, stmts: Seq<SV>) -> EV {
    if stmts.len() == 1 && stmts[0] is Expr {
        stmts[0]->Expr_0
    } else {
        EV::Block(loc, stmts)
    }
}

/// expression := expr (`then` expr)*
pub open spec fn p_expression(lx: Seq<LexV>, i: int) -> PR
    decreases lx.len() - i, 30int,
{
    match p_expr(lx, i) {
        Err(e) => Err(e),
        Ok((left, p)) => if advanced(lx, i, p) {
            p_expression_tail(lx, left, p)
        } else {
            perr(lx, p, Error::ParsingError)
        },
    }
}

pub open spec fn p_expression_tail(lx: Seq<LexV>, left: EV, p: int) -> PR
    decreases lx.len() - p, 0int,
{
    if is_kw(lx, p, Keyword::Then) {
        match p_expr(lx, p + 1) {
            Err(e) => Err(e),
            Ok((right, p2)) => if advanced(lx, p, p2) {
                p_expression_tail(lx, EV::Then(ploc(lx, p), Box::new(left), Box::new(right)), p2)
            } else {
                perr(lx, p2, Error::ParsingError)
            },
        }
    } else {
        Ok((left, p))
    }
}

/// expr := conditional | `||` level
pub open spec fn p_expr(lx: Seq<LexV>, i: int) -> PR
    decreases lx.len() - i, 28int,
{
    if is_kw(lx, i, Keyword::If) {
        p_conditional(lx, i)
    } else {
        p_binary(lx, 6, i)
    }
}

/// conditional := `if` expr `then` expr `else` expr
pub open spec fn p_conditional(lx: Seq<LexV>, i: int) -> PR
    decreases lx.len() - i, 27int,
{
    if !(0 <= i < lx.len()) {
        perr(lx, i, Error::ParsingError)
    } else {
        match p_expr(lx, i + 1) {
            Err(e) => Err(e),
            Ok((c, p2)) => if !advanced(lx, i, p2) {
                perr(lx, p2, Error::ParsingError)
            } else if !is_kw(lx, p2, Keyword::Then) {
                perr(lx, p2, Error::KeywordExpected(Keyword::Then))
            } else {
                match p_expr(lx, p2 + 1) {
                    Err(e) => Err(e),
                    Ok((t, p3)) => if !advanced(lx, p2, p3) {
                        perr(lx, p3, Error::ParsingError)
                    } else if !is_kw(lx, p3, Keyword::Else) {
                        perr(lx, p3, Error::KeywordExpected(Keyword::Else))
                    } else {
                        match p_expr(lx, p3 + 1) {
                            Err(e) => Err(e),
                            Ok((o, p4)) => Ok(
                                (
                                    EV::Cond(ploc(lx, i), Box::new(c), Box::new(t), Box::new(o)),
                                    p4,
                                ),
                            ),
                        }
                    },
                }
            },
        }
    }
}

/// The operands of level `level`: the next tighter level, or primaries.
pub open spec fn p_operand(lx: Seq<LexV>, level: int, i: int) -> PR
    decreases lx.len() - i, 4 + 2 * level,
{
    if level < 1 || level > 6 {
        perr(lx, i, Error::ParsingError)
    } else if level == 1 {
        p_primary(lx, i)
    } else {
        p_binary(lx, level - 1, i)
    }
}

/// level := operand (op operand)*, left associative
pub open spec fn p_binary(lx: Seq<LexV>, level: int, i: int) -> PR
    decreases lx.len() - i, 5 + 2 * level,
{
    if level < 1 || level > 6 {
        perr(lx, i, Error::ParsingError)
    } else {
        match p_operand(lx, level, i) {
            Err(e) => Err(e),
            Ok((left, p)) => if advanced(lx, i, p) {
                p_binary_tail(lx, level, left, p)
            } else {
                perr(lx, p, Error::ParsingError)
            },
        }
    }
}

pub open spec fn p_binary_tail(lx: Seq<LexV>, level: int, left: EV, p: int) -> PR
    decreases lx.len() - p, 0int,
{
    if level < 1 || level > 6 {
        perr(lx, p, Error::ParsingError)
    } else {
        match level_op(level, kind_at(lx, p)) {
            None => Ok((left, p)),
            Some(op) => match p_operand(lx, level, p + 1) {
                Err(e) => Err(e),
                Ok((right, p2)) => if advanced(lx, p, p2) {
                    p_binary_tail(
                        lx,
                        level,
                        EV::Binary(ploc(lx, p), op, Box::new(left), Box::new(right)),
                        p2,
                    )
                } else {
                    perr(lx, p2, Error::ParsingError)
                },
            },
        }
    }
}

/// primary := integer | type symbol | symbol | `(` expression `)` | `{` `}`
///          | `{` statement (newline statement)* `}`
pub open spec fn p_primary(lx: Seq<LexV>, i: int) -> PR
    decreases lx.len() - i, 3int,
{
    match kind_at(lx, i) {
        Some(KindV::Integer(n)) => Ok((EV::Lit(ploc(lx, i), n), i + 1)),
        Some(KindV::TSymbol(s)) => Ok((EV::TSym(ploc(lx, i), s), i + 1)),
        Some(KindV::Symbol(s)) => Ok((EV::Sym(ploc(lx, i), s), i + 1)),
        Some(KindV::Open(Enclosure::Parens)) => match p_expression(lx, i + 1) {
            Err(e) => Err(e),
            Ok((e, next)) => if kind_at(lx, next) != Some(KindV::Close(Enclosure::Parens)) {
                perr(lx, next, Error::CloseExpected(Enclosure::Parens))
            } else {
                Ok((e, next + 1))
            },
        },
        Some(KindV::Open(Enclosure::Curly)) => if kind_at(lx, i + 1) == Some(
            KindV::Close(Enclosure::Curly),
        ) {
            Ok((EV::TSym(ploc(lx, i), crate::symbol::known_text(crate::symbol::KnownTSymbol::Unit)), i + 2))
        } else {
            p_block_items(lx, ploc(lx, i), seq![], i + 1)
        },
        _ => perr(lx, i, Error::ExpressionExpected),
    }
}

/// The statements of a block from `p` on, after `acc`.
pub open spec fn p_block_items(lx: Seq<LexV>, loc: Loc, acc: Seq<SV>, p: int) -> PR
    decreases lx.len() - p, 40int,
{
    if !(0 <= p < lx.len()) {
        perr(lx, p, Error::CloseExpected(Enclosure::Curly))
    } else {
        match p_bstatement(lx, p) {
            Err(e) => Err(e),
            Ok((stmt, p2)) => if !advanced(lx, p, p2) {
                perr(lx, p2, Error::ParsingError)
            } else if kind_at(lx, p2) == Some(KindV::Close(Enclosure::Curly)) {
                Ok((block_of(loc, acc.push(stmt)), p2 + 1))
            } else if !is_eos(lx, p2) {
                perr(lx, p2, Error::EndOfItemExpected)
            } else {
                p_block_items(lx, loc, acc.push(stmt), p2)
            },
        }
    }
}

/// statement := `let` assignment | expression
pub open spec fn p_bstatement(lx: Seq<LexV>, p: int) -> Result<(SV, int), (Loc, Error)>
    decreases lx.len() - p, 38int,
{
    if is_kw(lx, p, Keyword::Let) {
        match p_assignment(lx, p + 1) {
            Err(e) => Err(e),
            Ok(((loc, s, e), p2)) => Ok((SV::Assign(loc, s, e), p2)),
        }
    } else {
        match p_expression(lx, p) {
            Err(e) => Err(e),
            Ok((e, p2)) => Ok((SV::Expr(e), p2)),
        }
    }
}

/// assignment := symbol `=` expression; located at the `=`.
pub open spec fn p_assignment(lx: Seq<LexV>, i: int) -> Result<((Loc, Seq<char>, EV), int), (Loc, Error)>
    decreases lx.len() - i, 36int,
{
    match kind_at(lx, i) {
        Some(KindV::Symbol(id)) => if kind_at(lx, i + 1) == Some(KindV::Assignment) {
            match p_expression(lx, i + 2) {
                Err(e) => Err(e),
                Ok((e, next)) => Ok(((ploc(lx, i + 1), id, e), next)),
            }
        } else {
            perr(lx, i + 1, Error::AssignmentExpected)
        },
        _ => perr(lx, i, Error::LValueExpected),
    }
}

/// typedef := `type` type symbol; located at the type symbol.
pub open spec fn p_typedef(lx: Seq<LexV>, i: int) -> Result<((Loc, Seq<char>), int), (Loc, Error)> {
    match kind_at(lx, i) {
        Some(KindV::TSymbol(s)) => Ok(((ploc(lx, i), s), i + 1)),
        _ => perr(lx, i, Error::TSymbolAfterTypeExpected),
    }
}

/// The visibility a statement at `i` asks for with `pub` or `pkg`.
pub open spec fn visibility_at(lx: Seq<LexV>, i: int) -> Visibility {
    if is_kw(lx, i, Keyword::Pub) {
        Visibility::Exported
    } else if is_kw(lx, i, Keyword::Pkg) {
        Visibility::Package
    } else {
        Visibility::Module
    }
}

/// Where the definition of a statement at `i` is looked for: after `pub` or
/// `pkg` if one stands there.
pub open spec fn stmt_start(lx: Seq<LexV>, i: int) -> int {
    if visibility_at(lx, i) == Visibility::Module {
        i
    } else {
        i + 1
    }
}

pub type SR = Result<(ModuleV, int), (Loc, Error)>;

/// The assignment read at `i`, as one step of a statement.
#[verifier::opaque]
pub open spec fn assignment_at(lx: Seq<LexV>, i: int) -> Result<((Loc, Seq<char>, EV), int), (Loc, Error)> {
    p_assignment(lx, i)
}

/// The expression read at `i`, as one step of a statement.
#[verifier::opaque]
pub open spec fn expression_at(lx: Seq<LexV>, i: int) -> PR {
    p_expression(lx, i)
}

/// `type` statement: the type symbol is read just after `i`.
pub open spec fn p_type_stmt(lx: Seq<LexV>, i: int, m: ModuleV) -> SR {
    match p_typedef(lx, i + 1) {
        Err(e) => Err(e),
        Ok((td, p)) => if is_eos(lx, p) {
            Ok((ModuleV { types: m.types.push(td), ..m }, p))
        } else {
            perr(lx, p, Error::EndOfItemExpected)
        },
    }
}

/// `let` statement: the assignment is read from just after `i`.
pub open spec fn p_let_stmt(lx: Seq<LexV>, i: int, m: ModuleV) -> SR {
    match assignment_at(lx, i + 1) {
        Err(e) => Err(e),
        Ok(((loc, s, e), p)) => if is_eos(lx, p) {
            Ok(
                (
                    ModuleV {
                        assignments: m.assignments.push((visibility_at(lx, i), loc, s, e)),
                        ..m
                    },
                    p,
                ),
            )
        } else {
            perr(lx, p, Error::EndOfItemExpected)
        },
    }
}

/// Expression statement; none may follow `pub` or `pkg`.
pub open spec fn p_expr_stmt(lx: Seq<LexV>, i: int, m: ModuleV) -> SR {
    if visibility_at(lx, i) == Visibility::Module {
        match expression_at(lx, i) {
            Err(e) => Err(e),
            Ok((e, p)) => if is_eos(lx, p) {
                Ok((ModuleV { exprs: m.exprs.push(e), ..m }, p))
            } else {
                perr(lx, p, Error::EndOfItemExpected)
            },
        }
    } else {
        perr(lx, i + 1, Error::ExpressionNotExpected)
    }
}

/// statement := [`pub` | `pkg`] (`type` typedef | `let` assignment) | expression,
/// each ended by a new line or the end of the input. After a visibility
/// keyword, the definition is read from the keyword itself on.
pub open spec fn p_statement(lx: Seq<LexV>, i: int, m: ModuleV) -> SR {
    if is_kw(lx, stmt_start(lx, i), Keyword::Type) {
        p_type_stmt(lx, i, m)
    } else if is_kw(lx, stmt_start(lx, i), Keyword::Let) {
        p_let_stmt(lx, i, m)
    } else {
        p_expr_stmt(lx, i, m)
    }
}

pub open spec fn stmt_matches(r: Result<usize, ErrorVec>, m: Module, s: SR) -> bool {
    match s {
        Ok((mv, p)) => r matches Ok(q) && q == p && module_view(m) == mv,
        Err((loc, err)) => r matches Err(x) && x@ == seq![(loc, err)],
    }
}

/// The statements from `i` to the end, added to `m`.
#[verifier::opaque]
pub open spec fn p_statements(lx: Seq<LexV>, i: int, m: ModuleV) -> Result<ModuleV, (Loc, Error)>
    decreases lx.len() - i,
{
    if !(0 <= i < lx.len()) {
        Ok(m)
    } else {
        match p_statement(lx, i, m) {
            Err(e) => Err(e),
            Ok((m2, p)) => if advanced(lx, i, p) {
                p_statements(lx, p, m2)
            } else {
                perr(lx, p, Error::ParsingError)
            },
        }
    }
}

pub open spec fn empty_module() -> ModuleV {
    ModuleV { types: seq![], assignments: seq![], exprs: seq![] }
}

/// The module that the lexemes spell, or the first error.
pub open spec fn p_module(lx: Seq<LexV>) -> Result<ModuleV, (Loc, Error)> {
    p_statements(lx, 0, empty_module())
}

pub open spec fn pr_matches(r: Result<(Expression, usize), ErrorVec>, s: PR) -> bool {
    match s {
        Ok((ev, p)) => r matches Ok((e, q)) && e@ == ev && q == p,
        Err((loc, err)) => r matches Err(x) && x@ == seq![(loc, err)],
    }
}

fn kind_is_kw(lx: &Vec<Lexeme>, i: usize, k: Keyword) -> (r: bool)
    ensures
        r == is_kw(lexeme_views(lx@), i as int, k),
{
    if i < lx.len() {
        match &lx[i].kind {
            LexemeKind::Keyword(x) => *x == k,
            _ => false,
        }
    } else {
        false
    }
}

fn ploc_exec(lx: &Vec<Lexeme>, i: usize) -> (r: Loc)
    ensures
        r == ploc(lexeme_views(lx@), i as int),
{
    if lx.len() == 0 {
        Loc::Nowhere
    } else if i < lx.len() {
        lx[i].loc
    } else {
        lx[lx.len() - 1].loc
    }
}

fn eos_exec(lx: &Vec<Lexeme>, i: usize) -> (r: bool)
    ensures
        r == is_eos(lexeme_views(lx@), i as int),
{
    if i < lx.len() {
        lx[i].separator == Separator::NewLine
    } else {
        true
    }
}

fn perr_exec<T>(lx: &Vec<Lexeme>, i: usize, e: Error) -> (r: Result<T, ErrorVec>)
    ensures
        r matches Err(x) && x@ == seq![(ploc(lexeme_views(lx@), i as int), e)],
{
    let loc = ploc_exec(lx, i);
    loc.err(e)
}

fn kind_is_close(lx: &Vec<Lexeme>, i: usize, e: Enclosure) -> (r: bool)
    ensures
        r == (kind_at(lexeme_views(lx@), i as int) == Some(KindV::Close(e))),
{
    if i < lx.len() {
        match &lx[i].kind {
            LexemeKind::Close(x) => *x == e,
            _ => false,
        }
    } else {
        false
    }
}

fn level_op_exec(level: u8, lx: &Vec<Lexeme>, i: usize) -> (r: Option<BinaryOp>)
    ensures
        r == level_op(level as int, kind_at(lexeme_views(lx@), i as int)),
{
    if i >= lx.len() {
        return None;
    }
    match &lx[i].kind {
        LexemeKind::LogicalOr => if level == 6 {
            Some(BinaryOp::Or)
        } else {
            None
        },
        LexemeKind::LogicalAnd => if level == 5 {
            Some(BinaryOp::And)
        } else {
            None
        },
        LexemeKind::Equals => if level == 4 {
            Some(BinaryOp::Eq)
        } else {
            None
        },
        LexemeKind::NotEquals => if level == 4 {
            Some(BinaryOp::NEq)
        } else {
            None
        },
        LexemeKind::Greater => if level == 3 {
            Some(BinaryOp::GT)
        } else {
            None
        },
        LexemeKind::GreaterOrEq => if level == 3 {
            Some(BinaryOp::GE)
        } else {
            None
        },
        LexemeKind::Less => if level == 3 {
            Some(BinaryOp::LT)
        } else {
            None
        },
        LexemeKind::LessOrEq => if level == 3 {
            Some(BinaryOp::LE)
        } else {
            None
        },
        LexemeKind::Plus => if level == 2 {
            Some(BinaryOp::Add)
        } else {
            None
        },
        LexemeKind::Minus => if level == 2 {
            Some(BinaryOp::Sub)
        } else {
            None
        },
        LexemeKind::Star => if level == 1 {
            Some(BinaryOp::Mul)
        } else {
            None
        },
        LexemeKind::Slash => if level == 1 {
            Some(BinaryOp::Div)
        } else {
            None
        },
        _ => None,
    }
}

fn x_expression(lx: &Vec<Lexeme>, i: usize) -> (r: Result<(Expression, usize), ErrorVec>)
    requires
        i <= lx@.len(),
    ensures
        pr_matches(r, p_expression(lexeme_views(lx@), i as int)),
    decreases lx@.len() - i, 30int,
{
    reveal_with_fuel(p_expression, 1);
    match x_expr(lx, i) {
        Err(e) => Err(e),
        Ok((left, p)) => if i < p && p <= lx.len() {
            x_expression_tail(lx, left, p)
        } else {
            perr_exec(lx, p, Error::ParsingError)
        },
    }
}

fn x_expression_tail(lx: &Vec<Lexeme>, left: Expression, p: usize) -> (r: Result<
    (Expression, usize),
    ErrorVec,
>)
    requires
        p <= lx@.len(),
    ensures
        pr_matches(r, p_expression_tail(lexeme_views(lx@), left@, p as int)),
    decreases lx@.len() - p, 0int,
{
    reveal_with_fuel(p_expression_tail, 1);
    if p < lx.len() && kind_is_kw(lx, p, Keyword::Then) {
        match x_expr(lx, p + 1) {
            Err(e) => Err(e),
            Ok((right, p2)) => if p < p2 && p2 <= lx.len() {
                let loc = ploc_exec(lx, p);
                let e = Expression { loc, expr: Expr::Then(Box::new(left), Box::new(right)) };
                x_expression_tail(lx, e, p2)
            } else {
                perr_exec(lx, p2, Error::ParsingError)
            },
        }
    } else {
        Ok((left, p))
    }
}

fn x_expr(lx: &Vec<Lexeme>, i: usize) -> (r: Result<(Expression, usize), ErrorVec>)
    requires
        i <= lx@.len(),
    ensures
        pr_matches(r, p_expr(lexeme_views(lx@), i as int)),
    decreases lx@.len() - i, 28int,
{
    reveal_with_fuel(p_expr, 1);
    if kind_is_kw(lx, i, Keyword::If) {
        x_conditional(lx, i)
    } else {
        x_binary(lx, 6, i)
    }
}

fn x_conditional(lx: &Vec<Lexeme>, i: usize) -> (r: Result<(Expression, usize), ErrorVec>)
    requires
        i <= lx@.len(),
    ensures
        pr_matches(r, p_conditional(lexeme_views(lx@), i as int)),
    decreases lx@.len() - i, 27int,
{
    reveal_with_fuel(p_conditional, 1);
    if i >= lx.len() {
        return perr_exec(lx, i, Error::ParsingError);
    }
    let (c, p2) = x_expr(lx, i + 1)?;
    if !(i < p2 && p2 <= lx.len()) {
        return perr_exec(lx, p2, Error::ParsingError);
    }
    if !kind_is_kw(lx, p2, Keyword::Then) {
        return perr_exec(lx, p2, Error::KeywordExpected(Keyword::Then));
    }
    let (t, p3) = x_expr(lx, p2 + 1)?;
    if !(p2 < p3 && p3 <= lx.len()) {
        return perr_exec(lx, p3, Error::ParsingError);
    }
    if !kind_is_kw(lx, p3, Keyword::Else) {
        return perr_exec(lx, p3, Error::KeywordExpected(Keyword::Else));
    }
    let (o, p4) = x_expr(lx, p3 + 1)?;
    let loc = ploc_exec(lx, i);
    Ok((Expression { loc, expr: Expr::Conditional(Box::new(c), Box::new(t), Box::new(o)) }, p4))
}

fn x_operand(lx: &Vec<Lexeme>, level: u8, i: usize) -> (r: Result<(Expression, usize), ErrorVec>)
    requires
        i <= lx@.len(),
    ensures
        pr_matches(r, p_operand(lexeme_views(lx@), level as int, i as int)),
    decreases lx@.len() - i, 4 + 2 * level,
{
    reveal_with_fuel(p_operand, 1);
    if level < 1 || level > 6 {
        perr_exec(lx, i, Error::ParsingError)
    } else if level == 1 {
        x_primary(lx, i)
    } else {
        x_binary(lx, level - 1, i)
    }
}

fn x_binary(lx: &Vec<Lexeme>, level: u8, i: usize) -> (r: Result<(Expression, usize), ErrorVec>)
    requires
        i <= lx@.len(),
    ensures
        pr_matches(r, p_binary(lexeme_views(lx@), level as int, i as int)),
    decreases lx@.len() - i, 5 + 2 * level,
{
    reveal_with_fuel(p_binary, 1);
    if level < 1 || level > 6 {
        return perr_exec(lx, i, Error::ParsingError);
    }
    let (left, p) = x_operand(lx, level, i)?;
    if i < p && p <= lx.len() {
        x_binary_tail(lx, level, left, p)
    } else {
        perr_exec(lx, p, Error::ParsingError)
    }
}

fn x_binary_tail(lx: &Vec<Lexeme>, level: u8, left: Expression, p: usize) -> (r: Result<
    (Expression, usize),
    ErrorVec,
>)
    requires
        p <= lx@.len(),
    ensures
        pr_matches(r, p_binary_tail(lexeme_views(lx@), level as int, left@, p as int)),
    decreases lx@.len() - p, 0int,
{
    reveal_with_fuel(p_binary_tail, 1);
    if level < 1 || level > 6 {
        return perr_exec(lx, p, Error::ParsingError);
    }
    if p >= lx.len() {
        return Ok((left, p));
    }
    match level_op_exec(level, lx, p) {
        None => Ok((left, p)),
        Some(op) => {
            let (right, p2) = x_operand(lx, level, p + 1)?;
            if p < p2 && p2 <= lx.len() {
                let loc = ploc_exec(lx, p);
                let e = Expression { loc, expr: Expr::Binary(op, Box::new(left), Box::new(right)) };
                x_binary_tail(lx, level, e, p2)
            } else {
                perr_exec(lx, p2, Error::ParsingError)
            }
        },
    }
}

fn x_primary(lx: &Vec<Lexeme>, i: usize) -> (r: Result<(Expression, usize), ErrorVec>)
    requires
        i <= lx@.len(),
    ensures
        pr_matches(r, p_primary(lexeme_views(lx@), i as int)),
    decreases lx@.len() - i, 3int,
{
    reveal_with_fuel(p_primary, 1);
    if i >= lx.len() {
        return perr_exec(lx, i, Error::ExpressionExpected);
    }
    let loc = lx[i].loc;
    match &lx[i].kind {
        LexemeKind::Integer(n) => Ok((Expression { loc, expr: Expr::LitInteger(n.duplicate()) }, i + 1)),
        LexemeKind::TSymbol(s) => Ok((Expression { loc, expr: Expr::TSymbol(s.duplicate()) }, i + 1)),
        LexemeKind::Symbol(s) => Ok((Expression { loc, expr: Expr::Symbol(s.duplicate()) }, i + 1)),
        LexemeKind::Open(Enclosure::Parens) => {
            let (e, next) = x_expression(lx, i + 1)?;
            if !kind_is_close(lx, next, Enclosure::Parens) {
                perr_exec(lx, next, Error::CloseExpected(Enclosure::Parens))
            } else {
                Ok((e, next + 1))
            }
        },
        LexemeKind::Open(Enclosure::Curly) => {
            if kind_is_close(lx, i + 1, Enclosure::Curly) {
                Ok((Expression { loc, expr: Expr::TSymbol(TSymbol::none()) }, i + 2))
            } else {
                x_block_items(lx, loc, Vec::new(), i + 1)
            }
        },
        _ => perr_exec(lx, i, Error::ExpressionExpected),
    }
}

proof fn lemma_stmts_view_push(s: Seq<BStmt>, x: BStmt)
    ensures
        stmts_view(s.push(x)) == stmts_view(s).push(stmt_view(x)),
    decreases s.len(),
{
    reveal_with_fuel(stmts_view, 2);
    if s.len() == 0 {
        assert(s.push(x).drop_first() =~= Seq::<BStmt>::empty());
        assert(stmts_view(s.push(x)) =~= stmts_view(s).push(stmt_view(x)));
    } else {
        assert(s.push(x).drop_first() =~= s.drop_first().push(x));
        lemma_stmts_view_push(s.drop_first(), x);
        assert(stmts_view(s.push(x)) =~= stmts_view(s).push(stmt_view(x)));
    }
}

proof fn lemma_stmts_view_len(s: Seq<BStmt>)
    ensures
        stmts_view(s).len() == s.len(),
    decreases s.len(),
{
    if s.len() > 0 {
        lemma_stmts_view_len(s.drop_first());
    }
}

fn make_block(loc: Loc, mut stmts: Vec<BStmt>) -> (r: Expression)
    ensures
        r@ == block_of(loc, stmts_view(stmts@)),
{
    let ghost orig = stmts@;
    proof {
        lemma_stmts_view_len(stmts@);
        reveal_with_fuel(stmts_view, 2);
        if stmts@.len() == 1 {
            assert(stmts@.drop_first() =~= Seq::<BStmt>::empty());
            assert(stmts_view(stmts@) =~= seq![stmt_view(stmts@[0])]);
        }
    }
    if stmts.len() == 1 {
        let ghost s0 = stmts@[0];
        match stmts.pop() {
            Some(BStmt::Expr(e)) => {
                return e;
            },
            Some(other) => {
                stmts.push(other);
                assert(stmts@ =~= orig);
            },
            None => {},
        }
    }
    Expression { loc, expr: Expr::Block(stmts) }
}

fn x_block_items(lx: &Vec<Lexeme>, loc: Loc, acc: Vec<BStmt>, p: usize) -> (r: Result<
    (Expression, usize),
    ErrorVec,
>)
    requires
        p <= lx@.len(),
    ensures
        pr_matches(r, p_block_items(lexeme_views(lx@), loc, stmts_view(acc@), p as int)),
    decreases lx@.len() - p, 40int,
{
    reveal_with_fuel(p_block_items, 1);
    if p >= lx.len() {
        return perr_exec(lx, p, Error::CloseExpected(Enclosure::Curly));
    }
    let (stmt, p2) = x_bstatement(lx, p)?;
    if !(p < p2 && p2 <= lx.len()) {
        return perr_exec(lx, p2, Error::ParsingError);
    }
    let mut acc = acc;
    proof {
        lemma_stmts_view_push(acc@, stmt);
    }
    acc.push(stmt);
    if kind_is_close(lx, p2, Enclosure::Curly) {
        Ok((make_block(loc, acc), p2 + 1))
    } else if !eos_exec(lx, p2) {
        perr_exec(lx, p2, Error::EndOfItemExpected)
    } else {
        x_block_items(lx, loc, acc, p2)
    }
}

pub open spec fn sr_matches(r: Result<(BStmt, usize), ErrorVec>, s: Result<(SV, int), (Loc, Error)>) -> bool {
    match s {
        Ok((sv, p)) => r matches Ok((st, q)) && stmt_view(st) == sv && q == p,
        Err((loc, err)) => r matches Err(x) && x@ == seq![(loc, err)],
    }
}

fn x_bstatement(lx: &Vec<Lexeme>, p: usize) -> (r: Result<(BStmt, usize), ErrorVec>)
    requires
        p <= lx@.len(),
    ensures
        sr_matches(r, p_bstatement(lexeme_views(lx@), p as int)),
    decreases lx@.len() - p, 38int,
{
    reveal_with_fuel(p_bstatement, 1);
    if p < lx.len() && kind_is_kw(lx, p, Keyword::Let) {
        match x_assignment(lx, p + 1) {
            Err(e) => Err(e),
            Ok((loc, a, p2)) => Ok((BStmt::Assignment(loc, a), p2)),
        }
    } else {
        match x_expression(lx, p) {
            Err(e) => Err(e),
            Ok((e, p2)) => Ok((BStmt::Expr(e), p2)),
        }
    }
}

pub open spec fn ar_matches(
    r: Result<(Loc, Assignment, usize), ErrorVec>,
    s: Result<((Loc, Seq<char>, EV), int), (Loc, Error)>,
) -> bool {
    match s {
        Ok(((loc, sym, ev), p)) => r matches Ok((l, a, q)) && l == loc && a.symbol@ == sym
            && a.expr@ == ev && q == p,
        Err((loc, err)) => r matches Err(x) && x@ == seq![(loc, err)],
    }
}

fn x_assignment(lx: &Vec<Lexeme>, i: usize) -> (r: Result<(Loc, Assignment, usize), ErrorVec>)
    requires
        i <= lx@.len(),
    ensures
        ar_matches(r, p_assignment(lexeme_views(lx@), i as int)),
    decreases lx@.len() - i, 36int,
{
    reveal_with_fuel(p_assignment, 1);
    if i >= lx.len() {
        return perr_exec(lx, i, Error::LValueExpected);
    }
    match &lx[i].kind {
        LexemeKind::Symbol(id) => {
            if i + 1 < lx.len() && matches!(lx[i + 1].kind, LexemeKind::Assignment) {
                let (e, next) = x_expression(lx, i + 2)?;
                let loc = lx[i + 1].loc;
                Ok((loc, Assignment { symbol: id.duplicate(), expr: e }, next))
            } else {
                perr_exec(lx, i + 1, Error::AssignmentExpected)
            }
        },
        _ => perr_exec(lx, i, Error::LValueExpected),
    }
}

fn push_type(m: &mut Module, td: TypeDefinition)
    ensures
        module_view(*final(m)) == (ModuleV {
            types: module_view(*old(m)).types.push((td.loc, td.symbol@)),
            ..module_view(*old(m))
        }),
{
    m.types.push(td);
    assert(module_view(*m).types =~= module_view(*old(m)).types.push((td.loc, td.symbol@)));
}

fn push_assignment(m: &mut Module, a: TLAssignment)
    ensures
        module_view(*final(m)) == (ModuleV {
            assignments: module_view(*old(m)).assignments.push(
                (a.visibility, a.loc, a.assignment.symbol@, expr_view(a.assignment.expr)),
            ),
            ..module_view(*old(m))
        }),
{
    let ghost av = (a.visibility, a.loc, a.assignment.symbol@, expr_view(a.assignment.expr));
    m.assignments.push(a);
    assert(module_view(*m).assignments =~= module_view(*old(m)).assignments.push(av));
}

fn push_expression(m: &mut Module, e: Expression)
    ensures
        module_view(*final(m)) == (ModuleV {
            exprs: module_view(*old(m)).exprs.push(expr_view(e)),
            ..module_view(*old(m))
        }),
{
    let ghost ev = expr_view(e);
    m.expressions.push(e);
    assert(module_view(*m).exprs =~= module_view(*old(m)).exprs.push(ev));
}

fn visibility_exec(lx: &Vec<Lexeme>, i: usize) -> (r: Visibility)
    ensures
        r == visibility_at(lexeme_views(lx@), i as int),
{
    if kind_is_kw(lx, i, Keyword::Pub) {
        Visibility::Exported
    } else if kind_is_kw(lx, i, Keyword::Pkg) {
        Visibility::Package
    } else {
        Visibility::Module
    }
}

fn x_assignment_at(lx: &Vec<Lexeme>, i: usize) -> (r: Result<(Loc, Assignment, usize), ErrorVec>)
    requires
        i <= lx@.len(),
    ensures
        ar_matches(r, assignment_at(lexeme_views(lx@), i as int)),
{
    proof {
        reveal(assignment_at);
    }
    x_assignment(lx, i)
}

fn x_expression_at(lx: &Vec<Lexeme>, i: usize) -> (r: Result<(Expression, usize), ErrorVec>)
    requires
        i <= lx@.len(),
    ensures
        pr_matches(r, expression_at(lexeme_views(lx@), i as int)),
{
    proof {
        reveal(expression_at);
    }
    x_expression(lx, i)
}

fn x_typedef_statement(lx: &Vec<Lexeme>, i: usize, m: &mut Module) -> (r: Result<usize, ErrorVec>)
    requires
        i < lx@.len(),
    ensures
        stmt_matches(r, *final(m), p_type_stmt(lexeme_views(lx@), i as int, module_view(*old(m)))),
{
    let n = lx.len();
    if i + 1 < n {
        match &lx[i + 1].kind {
            LexemeKind::TSymbol(t) => {
                let p = i + 2;
                if eos_exec(lx, p) {
                    let td = TypeDefinition {
                        loc: lx[i + 1].loc,
                        symbol: t.duplicate(),
                        dfn: TypeDfn::Singleton,
                    };
                    push_type(m, td);
                    Ok(p)
                } else {
                    perr_exec(lx, p, Error::EndOfItemExpected)
                }
            },
            _ => perr_exec(lx, i + 1, Error::TSymbolAfterTypeExpected),
        }
    } else {
        perr_exec(lx, i + 1, Error::TSymbolAfterTypeExpected)
    }
}

fn x_let_statement(lx: &Vec<Lexeme>, i: usize, m: &mut Module) -> (r: Result<usize, ErrorVec>)
    requires
        i < lx@.len(),
    ensures
        stmt_matches(r, *final(m), p_let_stmt(lexeme_views(lx@), i as int, module_view(*old(m)))),
{
    let n = lx.len();
    let vis = visibility_exec(lx, i);
    match x_assignment_at(lx, i + 1) {
        Err(e) => Err(e),
        Ok((loc, a, p)) => if eos_exec(lx, p) {
            push_assignment(m, TLAssignment { loc, visibility: vis, assignment: a });
            Ok(p)
        } else {
            perr_exec(lx, p, Error::EndOfItemExpected)
        },
    }
}

fn x_expression_statement(lx: &Vec<Lexeme>, i: usize, m: &mut Module) -> (r: Result<usize, ErrorVec>)
    requires
        i < lx@.len(),
    ensures
        stmt_matches(r, *final(m), p_expr_stmt(lexeme_views(lx@), i as int, module_view(*old(m)))),
{
    let n = lx.len();
    let vis = visibility_exec(lx, i);
    if vis == Visibility::Module {
        match x_expression_at(lx, i) {
            Err(e) => Err(e),
            Ok((e, p)) => if eos_exec(lx, p) {
                push_expression(m, e);
                Ok(p)
            } else {
                perr_exec(lx, p, Error::EndOfItemExpected)
            },
        }
    } else {
        perr_exec(lx, i + 1, Error::ExpressionNotExpected)
    }
}

/// Parses the statement at `i` into `m`; returns where the next one starts.
fn x_statement(lx: &Vec<Lexeme>, i: usize, m: &mut Module) -> (r: Result<usize, ErrorVec>)
    requires
        i < lx@.len(),
    ensures
        stmt_matches(r, *final(m), p_statement(lexeme_views(lx@), i as int, module_view(*old(m)))),
{
    let n = lx.len();
    let vis = visibility_exec(lx, i);
    let at = if vis == Visibility::Module {
        i
    } else {
        i + 1
    };
    if kind_is_kw(lx, at, Keyword::Type) {
        x_typedef_statement(lx, i, m)
    } else if kind_is_kw(lx, at, Keyword::Let) {
        x_let_statement(lx, i, m)
    } else {
        x_expression_statement(lx, i, m)
    }
}

/// Parses lexemes into a module.
pub fn parse_lexemes(lx: &Vec<Lexeme>) -> (r: Result<Module, ErrorVec>)
    ensures
        match p_module(lexeme_views(lx@)) {
            Ok(mv) => r matches Ok(m) && module_view(m) == mv,
            Err((loc, err)) => r matches Err(x) && x@ == seq![(loc, err)],
        },
{
    let mut m = Module::new();
    let mut i: usize = 0;
    let ghost v = lexeme_views(lx@);
    while i < lx.len()
        invariant
            v == lexeme_views(lx@),
            0 <= i <= lx@.len(),
            p_module(v) == p_statements(v, i as int, module_view(m)),
        decreases lx@.len() - i,
    {
        proof {
            reveal_with_fuel(p_statements, 1);
        }
        match x_statement(lx, i, &mut m) {
            Err(e) => {
                return Err(e);
            },
            Ok(p) => {
                if !(i < p && p <= lx.len()) {
                    return perr_exec(lx, p, Error::ParsingError);
                }
                i = p;
            },
        }
    }
    proof {
        reveal_with_fuel(p_statements, 1);
    }
    Ok(m)
}

/// The errors of the characters that start no token: one per such character,
/// in order, each located at it (there is one such sequence).
pub open spec fn scan_errors(s: Seq<char>) -> Seq<(Loc, Error)> {
    choose|e: Seq<(Loc, Error)>| tokenize_errors(s, e)
}

/// The lexemes of an input, each with the location of its token, or the
/// errors of the first phase that failed.
pub open spec fn lexed(s: Seq<char>) -> Result<Seq<LexV>, Seq<(Loc, Error)>> {
    if scan(s, 0).1.len() > 0 {
        Err(scan_errors(s))
    } else {
        let toks = scanned_views(s);
        let fin = lex_run(toks, lex_start());
        if fin.errors.len() > 0 {
            Err(fin.errors)
        } else {
            Ok(fin.lexemes.map_values(|sl: SpecLexeme| (sl.0, toks[sl.1].1, sl.2)))
        }
    }
}

/// The module an input spells, or the errors that stop it.
pub open spec fn parsed(s: Seq<char>) -> Result<ModuleV, Seq<(Loc, Error)>> {
    match lexed(s) {
        Err(e) => Err(e),
        Ok(lx) => match p_module(lx) {
            Ok(m) => Ok(m),
            Err((loc, e)) => Err(seq![(loc, e)]),
        },
    }
}

proof fn lemma_lexeme_views(toks: Seq<TokV>, ls: Seq<Lexeme>, sls: Seq<SpecLexeme>)
    requires
        lexemes_match(toks, ls, sls),
    ensures
        lexeme_views(ls) == sls.map_values(|sl: SpecLexeme| (sl.0, toks[sl.1].1, sl.2)),
{
    assert(lexeme_views(ls) =~= sls.map_values(|sl: SpecLexeme| (sl.0, toks[sl.1].1, sl.2)));
}

proof fn lemma_scan_errors(s: Seq<char>, e: Seq<(Loc, Error)>)
    requires
        tokenize_errors(s, e),
    ensures
        e == scan_errors(s),
{
    let c = scan_errors(s);
    assert(tokenize_errors(s, c));
    assert forall|k: int| 0 <= k < e.len() implies e[k] == c[k] by {
        let sc = scan(s, 0).1;
        assert(e[k] == (loc_at(s, sc[k]), Error::UnexpectedChar(s[sc[k]])));
        assert(c[k] == (loc_at(s, sc[k]), Error::UnexpectedChar(s[sc[k]])));
    }
    assert(e =~= c);
}

/// Parses an input into a module: tokenizes, lexes, and parses it.
pub fn parse(input: &str) -> (r: Result<Module, ErrorVec>)
    ensures
        match parsed(input@) {
            Ok(mv) => r matches Ok(m) && module_view(m) == mv,
            Err(es) => r matches Err(e) && e@ == es,
        },
{
    match lex(input) {
        Err(e) => {
            proof {
                if scan(input@, 0).1.len() > 0 {
                    lemma_scan_errors(input@, e@);
                }
            }
            Err(e)
        },
        Ok(ls) => {
            proof {
                let toks = scanned_views(input@);
                let fin = lex_run(toks, lex_start());
                lemma_lexeme_views(toks, ls@, fin.lexemes);
            }
            parse_lexemes(&ls)
        },
    }
}


proof fn lemma_expression_tail_stays(lx: Seq<LexV>, left: EV, p: int)
    ensures
        p_expression_tail(lx, left, p) matches Ok((_, j)) ==> p <= j && (p <= lx.len() ==> j
            <= lx.len()),
    decreases lx.len() - p,
{
    if is_kw(lx, p, Keyword::Then) {
        match p_expr(lx, p + 1) {
            Err(_) => {},
            Ok((right, p2)) => if advanced(lx, p, p2) {
                lemma_expression_tail_stays(lx, EV::Then(ploc(lx, p), Box::new(left), Box::new(right)), p2);
            },
        }
    }
}

proof fn lemma_expression_advances(lx: Seq<LexV>, i: int)
    ensures
        p_expression(lx, i) matches Ok((_, j)) ==> i < j <= lx.len(),
{
    match p_expr(lx, i) {
        Err(_) => {},
        Ok((left, p)) => if advanced(lx, i, p) {
            lemma_expression_tail_stays(lx, left, p);
        },
    }
}

proof fn lemma_block_items_advance(lx: Seq<LexV>, loc: Loc, acc: Seq<SV>, p: int)
    ensures
        p_block_items(lx, loc, acc, p) matches Ok((_, j)) ==> p < j <= lx.len(),
    decreases lx.len() - p,
{
    if 0 <= p < lx.len() {
        match p_bstatement(lx, p) {
            Err(_) => {},
            Ok((stmt, p2)) => if advanced(lx, p, p2) && kind_at(lx, p2) != Some(
                KindV::Close(Enclosure::Curly),
            ) && is_eos(lx, p2) {
                lemma_block_items_advance(lx, loc, acc.push(stmt), p2);
            },
        }
    }
}

/// A primary expression that parses ends after where it starts, and within
/// the lexemes; at the end of the lexemes an expression is expected.
pub proof fn law_primary_advances(lx: Seq<LexV>, i: int)
    ensures
        p_primary(lx, i) matches Ok((_, j)) ==> i < j <= lx.len(),
        !(0 <= i < lx.len()) ==> p_primary(lx, i) == perr::<(EV, int)>(lx, i, Error::ExpressionExpected),
{
    match kind_at(lx, i) {
        Some(KindV::Open(Enclosure::Parens)) => {
            lemma_expression_advances(lx, i + 1);
        },
        Some(KindV::Open(Enclosure::Curly)) => {
            lemma_block_items_advance(lx, ploc(lx, i), seq![], i + 1);
        },
        _ => {},
    }
}


/// Operators and how tightly they bind: each operator lexeme is an operator at
/// one level only; `/` is division and binds as `*` does; `*` and `/` bind
/// tighter than `+` and `-`, which bind tighter than comparisons, then
/// equality, then `&&`, then `||`. A lower level binds tighter: its operands
/// are what the levels below it parse, and the operands of `*` and `/` are
/// primaries.
pub proof fn law_operator_precedence(l: int, m: int, lx: Seq<LexV>, i: int)
    ensures
        level_op(l, Some(KindV::Slash)) is Some ==> level_op(l, Some(KindV::Slash)) == Some(BinaryOp::Div),
        level_op(l, Some(KindV::Star)) is Some ==> level_op(l, Some(KindV::Star)) == Some(BinaryOp::Mul),
        level_op(l, Some(KindV::Plus)) is Some ==> level_op(l, Some(KindV::Plus)) == Some(BinaryOp::Add),
        level_op(l, Some(KindV::Minus)) is Some ==> level_op(l, Some(KindV::Minus)) == Some(BinaryOp::Sub),
        (level_op(l, Some(KindV::Slash)) is Some) == (level_op(l, Some(KindV::Star)) is Some),
        (level_op(l, Some(KindV::Plus)) is Some) == (level_op(l, Some(KindV::Minus)) is Some),
        level_op(l, Some(KindV::Star)) is Some && level_op(m, Some(KindV::Plus)) is Some ==> l < m,
        level_op(l, Some(KindV::Plus)) is Some && level_op(m, Some(KindV::Less)) is Some ==> l < m,
        level_op(l, Some(KindV::Less)) is Some && level_op(m, Some(KindV::NotEquals)) is Some ==> l < m,
        level_op(l, Some(KindV::NotEquals)) is Some && level_op(m, Some(KindV::LogicalAnd)) is Some ==> l < m,
        level_op(l, Some(KindV::LogicalAnd)) is Some && level_op(m, Some(KindV::LogicalOr)) is Some ==> l < m,
        level_op(l, Some(KindV::Slash)) is Some ==> p_operand(lx, l, i) == p_primary(lx, i),
{
}


proof fn lemma_tails_at_end(lx: Seq<LexV>, left: EV, level: int)
    requires
        1 <= level <= 6,
    ensures
        p_binary_tail(lx, level, left, lx.len() as int) == Ok::<(EV, int), (Loc, Error)>((left, lx.len() as int)),
{
}

/// Division binds tighter than addition, whatever the numbers and wherever
/// they stand: `x + y / z` is `x + (y / z)`, and `x / y + z` is `(x / y) + z`.
pub proof fn law_division_binds_tighter(s0: Separator, s1: Separator, s2: Separator, s3: Separator, s4: Separator,
    l0: Loc, l1: Loc, l2: Loc, l3: Loc, l4: Loc, x: int, y: int, z: int)
    ensures
        ({
            let lx = seq![
                (s0, l0, KindV::Integer(x)),
                (s1, l1, KindV::Plus),
                (s2, l2, KindV::Integer(y)),
                (s3, l3, KindV::Slash),
                (s4, l4, KindV::Integer(z)),
            ];
            p_binary(lx, 6, 0) == Ok::<(EV, int), (Loc, Error)>((
                EV::Binary(
                    l1,
                    BinaryOp::Add,
                    Box::new(EV::Lit(l0, x)),
                    Box::new(EV::Binary(l3, BinaryOp::Div, Box::new(EV::Lit(l2, y)), Box::new(EV::Lit(l4, z)))),
                ),
                5,
            ))
        }),
        ({
            let lx = seq![
                (s0, l0, KindV::Integer(x)),
                (s1, l1, KindV::Slash),
                (s2, l2, KindV::Integer(y)),
                (s3, l3, KindV::Plus),
                (s4, l4, KindV::Integer(z)),
            ];
            p_binary(lx, 6, 0) == Ok::<(EV, int), (Loc, Error)>((
                EV::Binary(
                    l3,
                    BinaryOp::Add,
                    Box::new(EV::Binary(l1, BinaryOp::Div, Box::new(EV::Lit(l0, x)), Box::new(EV::Lit(l2, y)))),
                    Box::new(EV::Lit(l4, z)),
                ),
                5,
            ))
        }),
{
    let lx = seq![
        (s0, l0, KindV::Integer(x)),
        (s1, l1, KindV::Plus),
        (s2, l2, KindV::Integer(y)),
        (s3, l3, KindV::Slash),
        (s4, l4, KindV::Integer(z)),
    ];
    let ex = EV::Lit(l0, x);
    let ey = EV::Lit(l2, y);
    let ez = EV::Lit(l4, z);
    let dyz = EV::Binary(l3, BinaryOp::Div, Box::new(ey), Box::new(ez));
    let sum = EV::Binary(l1, BinaryOp::Add, Box::new(ex), Box::new(dyz));
    assert(kind_at(lx, 0) == Some(KindV::Integer(x)));
    assert(kind_at(lx, 1) == Some(KindV::Plus));
    assert(kind_at(lx, 2) == Some(KindV::Integer(y)));
    assert(kind_at(lx, 3) == Some(KindV::Slash));
    assert(kind_at(lx, 4) == Some(KindV::Integer(z)));
    assert(kind_at(lx, 5) == None::<KindV>);
    assert(ploc(lx, 1) == l1 && ploc(lx, 3) == l3 && ploc(lx, 0) == l0 && ploc(lx, 2) == l2 && ploc(lx, 4) == l4);
    // y / z at level 1, from position 2
    assert(p_primary(lx, 4) == Ok::<(EV, int), (Loc, Error)>((ez, 5)));
    assert(p_operand(lx, 1, 4) == Ok::<(EV, int), (Loc, Error)>((ez, 5)));
    lemma_tails_at_end(lx, dyz, 1);
    assert(p_binary_tail(lx, 1, ey, 3) == Ok::<(EV, int), (Loc, Error)>((dyz, 5)));
    assert(p_primary(lx, 2) == Ok::<(EV, int), (Loc, Error)>((ey, 3)));
    assert(p_binary(lx, 1, 2) == Ok::<(EV, int), (Loc, Error)>((dyz, 5)));
    assert(p_operand(lx, 2, 2) == Ok::<(EV, int), (Loc, Error)>((dyz, 5)));
    // x at level 1, from position 0
    assert(p_primary(lx, 0) == Ok::<(EV, int), (Loc, Error)>((ex, 1)));
    assert(p_binary_tail(lx, 1, ex, 1) == Ok::<(EV, int), (Loc, Error)>((ex, 1)));
    assert(p_binary(lx, 1, 0) == Ok::<(EV, int), (Loc, Error)>((ex, 1)));
    assert(p_operand(lx, 2, 0) == Ok::<(EV, int), (Loc, Error)>((ex, 1)));
    lemma_tails_at_end(lx, sum, 2);
    assert(p_binary_tail(lx, 2, ex, 1) == Ok::<(EV, int), (Loc, Error)>((sum, 5)));
    assert(p_binary(lx, 2, 0) == Ok::<(EV, int), (Loc, Error)>((sum, 5)));
    lemma_tails_at_end(lx, sum, 3);
    assert(p_binary(lx, 3, 0) == Ok::<(EV, int), (Loc, Error)>((sum, 5)));
    lemma_tails_at_end(lx, sum, 4);
    assert(p_binary(lx, 4, 0) == Ok::<(EV, int), (Loc, Error)>((sum, 5)));
    lemma_tails_at_end(lx, sum, 5);
    assert(p_binary(lx, 5, 0) == Ok::<(EV, int), (Loc, Error)>((sum, 5)));
    lemma_tails_at_end(lx, sum, 6);
    assert(p_binary(lx, 6, 0) == Ok::<(EV, int), (Loc, Error)>((sum, 5)));

    let mx = seq![
        (s0, l0, KindV::Integer(x)),
        (s1, l1, KindV::Slash),
        (s2, l2, KindV::Integer(y)),
        (s3, l3, KindV::Plus),
        (s4, l4, KindV::Integer(z)),
    ];
    let dxy = EV::Binary(l1, BinaryOp::Div, Box::new(ex), Box::new(ey));
    let sum2 = EV::Binary(l3, BinaryOp::Add, Box::new(dxy), Box::new(ez));
    assert(kind_at(mx, 0) == Some(KindV::Integer(x)));
    assert(kind_at(mx, 1) == Some(KindV::Slash));
    assert(kind_at(mx, 2) == Some(KindV::Integer(y)));
    assert(kind_at(mx, 3) == Some(KindV::Plus));
    assert(kind_at(mx, 4) == Some(KindV::Integer(z)));
    assert(kind_at(mx, 5) == None::<KindV>);
    assert(ploc(mx, 1) == l1 && ploc(mx, 3) == l3 && ploc(mx, 0) == l0 && ploc(mx, 2) == l2 && ploc(mx, 4) == l4);
    assert(p_primary(mx, 0) == Ok::<(EV, int), (Loc, Error)>((ex, 1)));
    assert(p_primary(mx, 2) == Ok::<(EV, int), (Loc, Error)>((ey, 3)));
    assert(p_operand(mx, 1, 2) == Ok::<(EV, int), (Loc, Error)>((ey, 3)));
    assert(p_binary_tail(mx, 1, dxy, 3) == Ok::<(EV, int), (Loc, Error)>((dxy, 3)));
    assert(p_binary_tail(mx, 1, ex, 1) == Ok::<(EV, int), (Loc, Error)>((dxy, 3)));
    assert(p_binary(mx, 1, 0) == Ok::<(EV, int), (Loc, Error)>((dxy, 3)));
    assert(p_operand(mx, 2, 0) == Ok::<(EV, int), (Loc, Error)>((dxy, 3)));
    assert(p_primary(mx, 4) == Ok::<(EV, int), (Loc, Error)>((ez, 5)));
    lemma_tails_at_end(mx, ez, 1);
    assert(p_binary(mx, 1, 4) == Ok::<(EV, int), (Loc, Error)>((ez, 5)));
    assert(p_operand(mx, 2, 4) == Ok::<(EV, int), (Loc, Error)>((ez, 5)));
    lemma_tails_at_end(mx, sum2, 2);
    assert(p_binary_tail(mx, 2, dxy, 3) == Ok::<(EV, int), (Loc, Error)>((sum2, 5)));
    assert(p_binary(mx, 2, 0) == Ok::<(EV, int), (Loc, Error)>((sum2, 5)));
    lemma_tails_at_end(mx, sum2, 3);
    assert(p_binary(mx, 3, 0) == Ok::<(EV, int), (Loc, Error)>((sum2, 5)));
    lemma_tails_at_end(mx, sum2, 4);
    assert(p_binary(mx, 4, 0) == Ok::<(EV, int), (Loc, Error)>((sum2, 5)));
    lemma_tails_at_end(mx, sum2, 5);
    assert(p_binary(mx, 5, 0) == Ok::<(EV, int), (Loc, Error)>((sum2, 5)));
    lemma_tails_at_end(mx, sum2, 6);
    assert(p_binary(mx, 6, 0) == Ok::<(EV, int), (Loc, Error)>((sum2, 5)));
}


/// Operators of one level group to the left: `x - y - z` is `(x - y) - z`.
pub proof fn law_operators_group_left(s0: Separator, s1: Separator, s2: Separator, s3: Separator, s4: Separator,
    l0: Loc, l1: Loc, l2: Loc, l3: Loc, l4: Loc, x: int, y: int, z: int)
    ensures
        ({
            let lx = seq![
                (s0, l0, KindV::Integer(x)),
                (s1, l1, KindV::Minus),
                (s2, l2, KindV::Integer(y)),
                (s3, l3, KindV::Minus),
                (s4, l4, KindV::Integer(z)),
            ];
            p_binary(lx, 6, 0) == Ok::<(EV, int), (Loc, Error)>((
                EV::Binary(
                    l3,
                    BinaryOp::Sub,
                    Box::new(EV::Binary(l1, BinaryOp::Sub, Box::new(EV::Lit(l0, x)), Box::new(EV::Lit(l2, y)))),
                    Box::new(EV::Lit(l4, z)),
                ),
                5,
            ))
        }),
{
    let mx = seq![
        (s0, l0, KindV::Integer(x)),
        (s1, l1, KindV::Minus),
        (s2, l2, KindV::Integer(y)),
        (s3, l3, KindV::Minus),
        (s4, l4, KindV::Integer(z)),
    ];
    let ex = EV::Lit(l0, x);
    let ey = EV::Lit(l2, y);
    let ez = EV::Lit(l4, z);
    let dxy = EV::Binary(l1, BinaryOp::Sub, Box::new(ex), Box::new(ey));
    let sum2 = EV::Binary(l3, BinaryOp::Sub, Box::new(dxy), Box::new(ez));
    assert(kind_at(mx, 0) == Some(KindV::Integer(x)));
    assert(kind_at(mx, 1) == Some(KindV::Minus));
    assert(kind_at(mx, 2) == Some(KindV::Integer(y)));
    assert(kind_at(mx, 3) == Some(KindV::Minus));
    assert(kind_at(mx, 4) == Some(KindV::Integer(z)));
    assert(kind_at(mx, 5) == None::<KindV>);
    assert(ploc(mx, 1) == l1 && ploc(mx, 3) == l3 && ploc(mx, 0) == l0 && ploc(mx, 2) == l2 && ploc(mx, 4) == l4);
    assert(p_primary(mx, 0) == Ok::<(EV, int), (Loc, Error)>((ex, 1)));
    assert(p_binary_tail(mx, 1, ex, 1) == Ok::<(EV, int), (Loc, Error)>((ex, 1)));
    assert(p_binary(mx, 1, 0) == Ok::<(EV, int), (Loc, Error)>((ex, 1)));
    assert(p_operand(mx, 2, 0) == Ok::<(EV, int), (Loc, Error)>((ex, 1)));
    assert(p_primary(mx, 2) == Ok::<(EV, int), (Loc, Error)>((ey, 3)));
    assert(p_binary_tail(mx, 1, ey, 3) == Ok::<(EV, int), (Loc, Error)>((ey, 3)));
    assert(p_binary(mx, 1, 2) == Ok::<(EV, int), (Loc, Error)>((ey, 3)));
    assert(p_operand(mx, 2, 2) == Ok::<(EV, int), (Loc, Error)>((ey, 3)));
    assert(p_primary(mx, 4) == Ok::<(EV, int), (Loc, Error)>((ez, 5)));
    lemma_tails_at_end(mx, ez, 1);
    assert(p_binary(mx, 1, 4) == Ok::<(EV, int), (Loc, Error)>((ez, 5)));
    assert(p_operand(mx, 2, 4) == Ok::<(EV, int), (Loc, Error)>((ez, 5)));
    lemma_tails_at_end(mx, sum2, 2);
    assert(p_binary_tail(mx, 2, dxy, 3) == Ok::<(EV, int), (Loc, Error)>((sum2, 5)));
    assert(p_binary_tail(mx, 2, ex, 1) == Ok::<(EV, int), (Loc, Error)>((sum2, 5)));
    assert(p_binary(mx, 2, 0) == Ok::<(EV, int), (Loc, Error)>((sum2, 5)));
    lemma_tails_at_end(mx, sum2, 3);
    assert(p_binary(mx, 3, 0) == Ok::<(EV, int), (Loc, Error)>((sum2, 5)));
    lemma_tails_at_end(mx, sum2, 4);
    assert(p_binary(mx, 4, 0) == Ok::<(EV, int), (Loc, Error)>((sum2, 5)));
    lemma_tails_at_end(mx, sum2, 5);
    assert(p_binary(mx, 5, 0) == Ok::<(EV, int), (Loc, Error)>((sum2, 5)));
    lemma_tails_at_end(mx, sum2, 6);
    assert(p_binary(mx, 6, 0) == Ok::<(EV, int), (Loc, Error)>((sum2, 5)));
}

} // verus!
