//! Parsing and the function record.
//!
//! The parser is a precedence-climbing recursive-descent translator from
//! the token sequence to the syntax tree plus a locals table; identifiers
//! resolve to locals eagerly, first use declares. `Function` combines the
//! parsed body with the locals table; its layout pass assigns each local a
//! frame offset and rounds the frame size up to a multiple of sixteen.

use vstd::prelude::*;
use vstd::string::StringExecFns;

use crate::ast::cc_stmt;
use crate::ast::cc_stmts;
use crate::ast::lemma_cc_stmts_push;
use crate::ast::lemma_stmts_view_push;
use crate::ast::lemma_wf_expr_mono;
use crate::ast::lemma_wf_stmt_mono;
use crate::ast::lemma_wf_stmts_mono;
use crate::ast::lemma_wf_stmts_push;
use crate::ast::opt_expr_view;
use crate::ast::stmts_view;
use crate::ast::wf_expr;
use crate::ast::wf_opt_expr;
use crate::ast::wf_stmt;
use crate::ast::wf_stmts;
use crate::ast::AssignmentExpr;
use crate::ast::AssignmentOp;
use crate::ast::BinOp;
use crate::ast::BinaryExpr;
use crate::ast::CompoundStatement;
use crate::ast::ExprModel;
use crate::ast::Expression;
use crate::ast::ForStatement;
use crate::ast::IfStatement;
use crate::ast::Local;
use crate::ast::LocalId;
use crate::ast::PointerExpr;
use crate::ast::PointerOp;
use crate::ast::Program;
use crate::ast::Statement;
use crate::ast::StmtModel;
use crate::ast::UnaryExpr;
use crate::ast::UnaryOp;
use crate::ast::WhileStatement;
use crate::tokenizer::kind_eq;
use crate::tokenizer::toks_view;
use crate::tokenizer::Token;
use crate::tokenizer::TokenKind;
use crate::tokenizer::TokenKindModel;
use crate::tokenizer::TokenModel;
use crate::Error;
use crate::Span;

verus! {


// ---------------------------------------------------------------------------
// Binding powers
// ---------------------------------------------------------------------------

pub const TOTAL: u8 = 15;

pub const PREC_UNARY: u8 = TOTAL - 2;

pub const PREC_FACTOR: u8 = TOTAL - 3;

pub const PREC_TERM: u8 = TOTAL - 4;

pub const PREC_RELATIONAL: u8 = TOTAL - 6;

pub const PREC_ASSIGNMENT: u8 = TOTAL - 14;

pub open spec fn spec_prefix_bp(k: TokenKindModel) -> Option<u8> {
    match k {
        TokenKindModel::Plus | TokenKindModel::Minus | TokenKindModel::Star
        | TokenKindModel::Amp => Some(PREC_UNARY),
        _ => None,
    }
}

/// The (left, right) binding powers of the infix operators. Assignment
/// binds its right side one step looser than its left, so it associates
/// to the right; every other operator associates to the left.
pub open spec fn spec_infix_bp(k: TokenKindModel) -> Option<(u8, u8)> {
    match k {
        TokenKindModel::Equal => Some(((PREC_ASSIGNMENT + 1) as u8, PREC_ASSIGNMENT)),
        TokenKindModel::Plus | TokenKindModel::Minus => Some((PREC_TERM, (PREC_TERM + 1) as u8)),
        TokenKindModel::Star | TokenKindModel::Slash => Some(
            (PREC_FACTOR, (PREC_FACTOR + 1) as u8),
        ),
        TokenKindModel::EqualEqual | TokenKindModel::NotEqual | TokenKindModel::Lower
        | TokenKindModel::Greater | TokenKindModel::LowerEqual | TokenKindModel::GreaterEqual
        => Some((PREC_RELATIONAL, (PREC_RELATIONAL + 1) as u8)),
        _ => None,
    }
}

pub open spec fn is_binary_km(k: TokenKindModel) -> bool {
    k is Star || k is Slash || k is Plus || k is Minus || k is EqualEqual || k is NotEqual
        || k is Lower || k is Greater || k is LowerEqual || k is GreaterEqual
}

pub open spec fn binop_of(k: TokenKindModel) -> BinOp {
    match k {
        TokenKindModel::Lower => BinOp::LowerCmp,
        TokenKindModel::LowerEqual => BinOp::LowerEqCmp,
        TokenKindModel::Greater => BinOp::GreaterCmp,
        TokenKindModel::GreaterEqual => BinOp::GreaterEqCmp,
        TokenKindModel::NotEqual => BinOp::NeqCmp,
        TokenKindModel::EqualEqual => BinOp::EqCmp,
        TokenKindModel::Plus => BinOp::Add,
        TokenKindModel::Minus => BinOp::Sub,
        TokenKindModel::Slash => BinOp::Div,
        _ => BinOp::Mul,
    }
}

// ---------------------------------------------------------------------------
// The parsing model
//
// The token sequence is consumed from its end (the scanner hands the
// tokens over reversed), and the locals table is a sequence of names:
// first use declares. Each function returns the parsed node, the
// remaining tokens and the extended names, or the parse error.
// ---------------------------------------------------------------------------

/// The kind about to be consumed; an exhausted sequence reads as end of
/// input.
pub open spec fn tm_peek(toks: Seq<TokenModel>) -> TokenKindModel {
    if toks.len() > 0 {
        toks.last().kind
    } else {
        TokenKindModel::Eof
    }
}

/// Consume one token of exactly the given kind. End of input satisfies
/// only a demand for `Eof`.
pub open spec fn spec_consume(toks: Seq<TokenModel>, k: TokenKindModel) -> Result<
    Seq<TokenModel>,
    (),
> {
    if toks.len() > 0 {
        if toks.last().kind == k {
            Ok(toks.drop_last())
        } else {
            Err(())
        }
    } else {
        if k == TokenKindModel::Eof {
            Ok(toks)
        } else {
            Err(())
        }
    }
}

/// The first index holding this name, scanning from `i`.
pub open spec fn find_name(names: Seq<Seq<char>>, nm: Seq<char>, i: int) -> Option<int>
    decreases names.len() - i,
{
    if i < 0 || i >= names.len() {
        None
    } else if names[i] == nm {
        Some(i)
    } else {
        find_name(names, nm, i + 1)
    }
}

/// Find-or-create: the first occurrence of a name declares the local, a
/// later occurrence resolves to the same slot.
pub open spec fn resolve(names: Seq<Seq<char>>, nm: Seq<char>) -> (int, Seq<Seq<char>>) {
    match find_name(names, nm, 0) {
        Some(i) => (i, names),
        None => (names.len() as int, names.push(nm)),
    }
}

/// Drop every leading semicolon.
pub open spec fn skip_semis(toks: Seq<TokenModel>) -> Seq<TokenModel>
    decreases toks.len(),
{
    if toks.len() > 0 && tm_peek(toks) == TokenKindModel::Semicolon {
        skip_semis(toks.drop_last())
    } else {
        toks
    }
}

pub proof fn lemma_skip_semis(toks: Seq<TokenModel>)
    ensures
        skip_semis(toks).len() <= toks.len(),
        tm_peek(toks) == TokenKindModel::Semicolon ==> skip_semis(toks).len() < toks.len(),
    decreases toks.len(),
{
    if toks.len() > 0 && tm_peek(toks) == TokenKindModel::Semicolon {
        lemma_skip_semis(toks.drop_last());
    }
}

/// A parenthesized sub-expression: the minimum binding power resets to
/// zero inside, and a matching closing parenthesis is required.
pub open spec fn spec_grouping(toks: Seq<TokenModel>, names: Seq<Seq<char>>) -> Result<
    (ExprModel, Seq<TokenModel>, Seq<Seq<char>>),
    (),
>
    decreases toks.len(), 0int,
{
    match spec_consume(toks, TokenKindModel::LeftParen) {
        Err(_) => Err(()),
        Ok(t1) => if t1.len() < toks.len() {
            match spec_expression(t1, names, 0) {
                Err(_) => Err(()),
                Ok((e, t2, n2)) => match spec_consume(t2, TokenKindModel::RightParen) {
                    Err(_) => Err(()),
                    Ok(t3) => Ok((e, t3, n2)),
                },
            }
        } else {
            Err(())
        },
    }
}

/// A prefix-led term: the operator pulls its operand with the unary
/// binding power, then becomes a no-op, a negation, an address-of or a
/// dereference node.
pub open spec fn spec_unary(toks: Seq<TokenModel>, names: Seq<Seq<char>>) -> Result<
    (ExprModel, Seq<TokenModel>, Seq<Seq<char>>),
    (),
>
    decreases toks.len(), 0int,
{
    if toks.len() == 0 {
        Err(())
    } else {
        let t = toks.last();
        let t1 = toks.drop_last();
        match spec_prefix_bp(t.kind) {
            None => Err(()),
            Some(rbp) => match spec_expression(t1, names, rbp) {
                Err(_) => Err(()),
                Ok((lhs, t2, n2)) => match t.kind {
                    TokenKindModel::Plus => Ok(
                        (ExprModel::Unary(UnaryOp::NoOp, Box::new(lhs)), t2, n2),
                    ),
                    TokenKindModel::Minus => Ok(
                        (ExprModel::Unary(UnaryOp::Neg, Box::new(lhs)), t2, n2),
                    ),
                    TokenKindModel::Amp => Ok(
                        (ExprModel::Pointer(PointerOp::Ref, Box::new(lhs)), t2, n2),
                    ),
                    TokenKindModel::Star => Ok(
                        (ExprModel::Pointer(PointerOp::Deref, Box::new(lhs)), t2, n2),
                    ),
                    _ => Err(()),
                },
            },
        }
    }
}

/// One consumed binary operator and its right operand, folded onto the
/// waiting left operand.
pub open spec fn spec_binary(
    lhs: ExprModel,
    toks: Seq<TokenModel>,
    names: Seq<Seq<char>>,
    min_bp: u8,
) -> Result<(ExprModel, Seq<TokenModel>, Seq<Seq<char>>), ()>
    decreases toks.len(), 0int,
{
    if toks.len() == 0 {
        Err(())
    } else {
        let t = toks.last();
        let t1 = toks.drop_last();
        if !is_binary_km(t.kind) {
            Err(())
        } else {
            match spec_expression(t1, names, min_bp) {
                Err(_) => Err(()),
                Ok((rhs, t2, n2)) => Ok(
                    (
                        ExprModel::Binary(binop_of(t.kind), Box::new(lhs), Box::new(rhs)),
                        t2,
                        n2,
                    ),
                ),
            }
        }
    }
}

/// One consumed `=` and its right-hand side, folded into an assignment.
pub open spec fn spec_assignment(
    lhs: ExprModel,
    toks: Seq<TokenModel>,
    names: Seq<Seq<char>>,
    min_bp: u8,
) -> Result<(ExprModel, Seq<TokenModel>, Seq<Seq<char>>), ()>
    decreases toks.len(), 0int,
{
    if toks.len() == 0 {
        Err(())
    } else {
        let t = toks.last();
        let t1 = toks.drop_last();
        match t.kind {
            TokenKindModel::Equal => match spec_expression(t1, names, min_bp) {
                Err(_) => Err(()),
                Ok((rhs, t2, n2)) => Ok(
                    (
                        ExprModel::Assign(AssignmentOp::Eq, Box::new(lhs), Box::new(rhs)),
                        t2,
                        n2,
                    ),
                ),
            },
            _ => Err(()),
        }
    }
}

/// The precedence-climbing loop: while the next operator's left binding
/// power reaches the caller's minimum, fold it and continue with the
/// grown left operand.
pub open spec fn spec_infix(
    lhs: ExprModel,
    toks: Seq<TokenModel>,
    names: Seq<Seq<char>>,
    min_bp: u8,
) -> Result<(ExprModel, Seq<TokenModel>, Seq<Seq<char>>), ()>
    decreases toks.len(), 1int,
{
    match spec_infix_bp(tm_peek(toks)) {
        None => Ok((lhs, toks, names)),
        Some((lbp, rbp)) => if lbp < min_bp {
            Ok((lhs, toks, names))
        } else {
            let sub = if tm_peek(toks) == TokenKindModel::Equal {
                spec_assignment(lhs, toks, names, rbp)
            } else {
                spec_binary(lhs, toks, names, rbp)
            };
            match sub {
                Err(_) => Err(()),
                Ok((e2, t2, n2)) => if t2.len() < toks.len() {
                    spec_infix(e2, t2, n2, min_bp)
                } else {
                    Err(())
                },
            }
        },
    }
}

/// A whole expression at the given minimum binding power: a primary or
/// prefix-led term, then the precedence-climbing loop.
pub open spec fn spec_expression(
    toks: Seq<TokenModel>,
    names: Seq<Seq<char>>,
    min_bp: u8,
) -> Result<(ExprModel, Seq<TokenModel>, Seq<Seq<char>>), ()>
    decreases toks.len(), 2int,
{
    match tm_peek(toks) {
        TokenKindModel::Num(v) => spec_infix(ExprModel::Num(v), toks.drop_last(), names, min_bp),
        TokenKindModel::Ident(nm) => {
            let (id, n2) = resolve(names, nm);
            spec_infix(ExprModel::Var(id), toks.drop_last(), n2, min_bp)
        },
        TokenKindModel::LeftParen => match spec_grouping(toks, names) {
            Err(_) => Err(()),
            Ok((e, t2, n2)) => if t2.len() < toks.len() {
                spec_infix(e, t2, n2, min_bp)
            } else {
                Err(())
            },
        },
        TokenKindModel::Plus | TokenKindModel::Minus | TokenKindModel::Star
        | TokenKindModel::Amp => match spec_unary(toks, names) {
            Err(_) => Err(()),
            Ok((e, t2, n2)) => if t2.len() < toks.len() {
                spec_infix(e, t2, n2, min_bp)
            } else {
                Err(())
            },
        },
        _ => Err(()),
    }
}

/// `if ( <expr> ) <stmt> [else <stmt>]`.
pub open spec fn spec_if_statement(toks: Seq<TokenModel>, names: Seq<Seq<char>>) -> Result<
    (StmtModel, Seq<TokenModel>, Seq<Seq<char>>),
    (),
>
    decreases toks.len(), 0int,
{
    match spec_consume(toks, TokenKindModel::If) {
        Err(_) => Err(()),
        Ok(t1) => match spec_consume(t1, TokenKindModel::LeftParen) {
            Err(_) => Err(()),
            Ok(t2) => if t2.len() < toks.len() {
                match spec_expression(t2, names, 0) {
                    Err(_) => Err(()),
                    Ok((cond, t3, n3)) => match spec_consume(t3, TokenKindModel::RightParen) {
                        Err(_) => Err(()),
                        Ok(t4) => if t4.len() < toks.len() {
                            match spec_statement(t4, n3) {
                                Err(_) => Err(()),
                                Ok((thenb, t5, n5)) => if tm_peek(t5)
                                    == TokenKindModel::Else {
                                    if t5.len() > 0 && t5.len() - 1 < toks.len() {
                                        match spec_statement(t5.drop_last(), n5) {
                                            Err(_) => Err(()),
                                            Ok((elseb, t6, n6)) => Ok(
                                                (
                                                    StmtModel::If(
                                                        cond,
                                                        Box::new(thenb),
                                                        Some(Box::new(elseb)),
                                                    ),
                                                    t6,
                                                    n6,
                                                ),
                                            ),
                                        }
                                    } else {
                                        Err(())
                                    }
                                } else {
                                    Ok(
                                        (
                                            StmtModel::If(cond, Box::new(thenb), None),
                                            t5,
                                            n5,
                                        ),
                                    )
                                },
                            }
                        } else {
                            Err(())
                        },
                    },
                }
            } else {
                Err(())
            },
        },
    }
}

/// `while ( <expr> ) <stmt>`.
pub open spec fn spec_while_statement(toks: Seq<TokenModel>, names: Seq<Seq<char>>) -> Result<
    (StmtModel, Seq<TokenModel>, Seq<Seq<char>>),
    (),
>
    decreases toks.len(), 0int,
{
    match spec_consume(toks, TokenKindModel::While) {
        Err(_) => Err(()),
        Ok(t1) => match spec_consume(t1, TokenKindModel::LeftParen) {
            Err(_) => Err(()),
            Ok(t2) => if t2.len() < toks.len() {
                match spec_expression(t2, names, 0) {
                    Err(_) => Err(()),
                    Ok((cond, t3, n3)) => match spec_consume(t3, TokenKindModel::RightParen) {
                        Err(_) => Err(()),
                        Ok(t4) => if t4.len() < toks.len() {
                            match spec_statement(t4, n3) {
                                Err(_) => Err(()),
                                Ok((body, t5, n5)) => Ok(
                                    (
                                        StmtModel::While(Some(cond), Box::new(body)),
                                        t5,
                                        n5,
                                    ),
                                ),
                            }
                        } else {
                            Err(())
                        },
                    },
                }
            } else {
                Err(())
            },
        },
    }
}

/// One optional `for` clause up to its delimiter: nothing if the
/// delimiter is immediately present, else an expression and the
/// delimiter.
pub open spec fn spec_for_clause(
    toks: Seq<TokenModel>,
    names: Seq<Seq<char>>,
    delim: TokenKindModel,
) -> Result<(Option<ExprModel>, Seq<TokenModel>, Seq<Seq<char>>), ()>
    decreases toks.len(), 3int,
{
    if tm_peek(toks) == delim {
        if toks.len() > 0 {
            Ok((None, toks.drop_last(), names))
        } else {
            Err(())
        }
    } else {
        match spec_expression(toks, names, 0) {
            Err(_) => Err(()),
            Ok((e, t2, n2)) => match spec_consume(t2, delim) {
                Err(_) => Err(()),
                Ok(t3) => Ok((Some(e), t3, n2)),
            },
        }
    }
}

/// `for ( [init] ; [cond] ; [update] ) <stmt>`.
pub open spec fn spec_for_statement(toks: Seq<TokenModel>, names: Seq<Seq<char>>) -> Result<
    (StmtModel, Seq<TokenModel>, Seq<Seq<char>>),
    (),
>
    decreases toks.len(), 0int,
{
    match spec_consume(toks, TokenKindModel::For) {
        Err(_) => Err(()),
        Ok(t1) => match spec_consume(t1, TokenKindModel::LeftParen) {
            Err(_) => Err(()),
            Ok(t2) => if t2.len() < toks.len() {
                match spec_for_clause(t2, names, TokenKindModel::Semicolon) {
                    Err(_) => Err(()),
                    Ok((init, t3, n3)) => if t3.len() < toks.len() {
                        match spec_for_clause(t3, n3, TokenKindModel::Semicolon) {
                            Err(_) => Err(()),
                            Ok((cond, t4, n4)) => if t4.len() < toks.len() {
                                match spec_for_clause(t4, n4, TokenKindModel::RightParen) {
                                    Err(_) => Err(()),
                                    Ok((up, t5, n5)) => if t5.len() < toks.len() {
                                        match spec_statement(t5, n5) {
                                            Err(_) => Err(()),
                                            Ok((body, t6, n6)) => Ok(
                                                (
                                                    StmtModel::For(
                                                        init,
                                                        cond,
                                                        up,
                                                        Box::new(body),
                                                    ),
                                                    t6,
                                                    n6,
                                                ),
                                            ),
                                        }
                                    } else {
                                        Err(())
                                    },
                                }
                            } else {
                                Err(())
                            },
                        }
                    } else {
                        Err(())
                    },
                }
            } else {
                Err(())
            },
        },
    }
}

/// One statement, dispatched on the leading token.
pub open spec fn spec_statement(toks: Seq<TokenModel>, names: Seq<Seq<char>>) -> Result<
    (StmtModel, Seq<TokenModel>, Seq<Seq<char>>),
    (),
>
    decreases toks.len(), 4int,
{
    match tm_peek(toks) {
        TokenKindModel::While => spec_while_statement(toks, names),
        TokenKindModel::For => spec_for_statement(toks, names),
        TokenKindModel::If => spec_if_statement(toks, names),
        TokenKindModel::Return => match spec_consume(toks, TokenKindModel::Return) {
            Err(_) => Err(()),
            Ok(t1) => if t1.len() < toks.len() {
                match spec_expression(t1, names, 0) {
                    Err(_) => Err(()),
                    Ok((e, t2, n2)) => match spec_consume(t2, TokenKindModel::Semicolon) {
                        Err(_) => Err(()),
                        Ok(t3) => Ok((StmtModel::Ret(e), t3, n2)),
                    },
                }
            } else {
                Err(())
            },
        },
        TokenKindModel::LeftCurly => match spec_consume(toks, TokenKindModel::LeftCurly) {
            Err(_) => Err(()),
            Ok(t1) => if t1.len() < toks.len() {
                match spec_stmt_seq(t1, names) {
                    Err(_) => Err(()),
                    Ok((ss, t2, n2)) => match spec_consume(t2, TokenKindModel::RightCurly) {
                        Err(_) => Err(()),
                        Ok(t3) => Ok((StmtModel::Compound(ss), t3, n2)),
                    },
                }
            } else {
                Err(())
            },
        },
        TokenKindModel::Semicolon => Ok((StmtModel::Empty, skip_semis(toks), names)),
        _ => match spec_expression(toks, names, 0) {
            Err(_) => Err(()),
            Ok((e, t2, n2)) => match spec_consume(t2, TokenKindModel::Semicolon) {
                Err(_) => Err(()),
                Ok(t3) => Ok((StmtModel::Expr(e), t3, n2)),
            },
        },
    }
}

/// A run of statements up to the closing brace.
pub open spec fn spec_stmt_seq(toks: Seq<TokenModel>, names: Seq<Seq<char>>) -> Result<
    (Seq<StmtModel>, Seq<TokenModel>, Seq<Seq<char>>),
    (),
>
    decreases toks.len(), 5int,
{
    if tm_peek(toks) == TokenKindModel::RightCurly {
        Ok((Seq::empty(), toks, names))
    } else {
        match spec_statement(toks, names) {
            Err(_) => Err(()),
            Ok((st, t2, n2)) => if t2.len() < toks.len() {
                match spec_stmt_seq(t2, n2) {
                    Err(_) => Err(()),
                    Ok((rest, t3, n3)) => Ok((seq![st] + rest, t3, n3)),
                }
            } else {
                Err(())
            },
        }
    }
}

/// The whole program: a braced statement run, then the end of input.
pub open spec fn spec_program(toks: Seq<TokenModel>, names: Seq<Seq<char>>) -> Result<
    (Seq<StmtModel>, Seq<Seq<char>>),
    (),
> {
    match spec_consume(toks, TokenKindModel::LeftCurly) {
        Err(_) => Err(()),
        Ok(t1) => match spec_stmt_seq(t1, names) {
            Err(_) => Err(()),
            Ok((ss, t2, n2)) => match spec_consume(t2, TokenKindModel::RightCurly) {
                Err(_) => Err(()),
                Ok(t3) => match spec_consume(t3, TokenKindModel::Eof) {
                    Err(_) => Err(()),
                    Ok(_) => Ok((ss, n2)),
                },
            },
        },
    }
}

/// No two locals share a name.
pub open spec fn names_unique(names: Seq<Seq<char>>) -> bool {
    forall|i: int, j: int| 0 <= i < j < names.len() ==> names[i] != names[j]
}

/// The spelled names of a locals table, in declaration order.
pub open spec fn names_of(ls: Seq<Local>) -> Seq<Seq<char>> {
    ls.map_values(|l: Local| l.name@)
}

/// The frame offsets of a locals table, in declaration order.
pub open spec fn offs_of(ls: Seq<Local>) -> Seq<int> {
    ls.map_values(|l: Local| l.offset as int)
}

/// The smallest multiple of `base` that is at least `size`.
pub open spec fn spec_align(size: int, base: int) -> int {
    base * ((size + base - 1) / base)
}

// ---------------------------------------------------------------------------
// The parser
// ---------------------------------------------------------------------------

/// The recursive-descent parser: the remaining tokens (consumed from the
/// end) and the locals accumulated so far.
pub struct Parser<'a> {
    pub code: &'a str,
    pub locals: Vec<Local>,
    pub tokens: Vec<Token>,
}

/// The unary prefix operators' right binding power, or nothing for a
/// token no prefix operator starts with.
pub fn prefix_binding_power(t: &TokenKind) -> (r: Option<u8>)
    ensures
        r == spec_prefix_bp(t@),
{
    match t {
        TokenKind::Plus | TokenKind::Minus | TokenKind::Star | TokenKind::Amp => Some(
            PREC_UNARY,
        ),
        _ => None,
    }
}

/// The infix operators' left and right binding powers.
pub fn infix_binding_power(t: &TokenKind) -> (r: Option<(u8, u8)>)
    ensures
        r == spec_infix_bp(t@),
{
    match t {
        TokenKind::Equal => Some((PREC_ASSIGNMENT + 1, PREC_ASSIGNMENT)),
        TokenKind::Plus | TokenKind::Minus => Some((PREC_TERM, PREC_TERM + 1)),
        TokenKind::Star | TokenKind::Slash => Some((PREC_FACTOR, PREC_FACTOR + 1)),
        TokenKind::EqualEqual | TokenKind::NotEqual | TokenKind::Lower | TokenKind::Greater
        | TokenKind::LowerEqual | TokenKind::GreaterEqual => Some(
            (PREC_RELATIONAL, PREC_RELATIONAL + 1),
        ),
        _ => None,
    }
}

impl<'a> Parser<'a> {
    /// The image of the remaining tokens.
    pub open spec fn toks(&self) -> Seq<TokenModel> {
        toks_view(self.tokens@)
    }

    /// The names of the locals declared so far.
    pub open spec fn names(&self) -> Seq<Seq<char>> {
        names_of(self.locals@)
    }

    /// The parser's invariant: local names never repeat.
    pub open spec fn wf(&self) -> bool {
        names_unique(self.names())
    }

    pub fn new(code: &'a str, tokens: Vec<Token>) -> (p: Self)
        ensures
            p.toks() == toks_view(tokens@),
            p.locals@.len() == 0,
            p.code == code,
            p.wf(),
    {
        let p = Self { code, locals: Vec::new(), tokens };
        proof {
            assert(p.names() =~= Seq::<Seq<char>>::empty());
        }
        p
    }

    /// The synthesized end-of-input token, placed just past the source.
    fn eof(&self) -> (t: Token)
        ensures
            t@.kind == TokenKindModel::Eof,
    {
        Token { start: self.code.len(), end: self.code.len(), kind: TokenKind::Eof }
    }

    /// The next token, without consuming it.
    fn peek(&self) -> (t: Token)
        ensures
            t@.kind == tm_peek(self.toks()),
    {
        let n = self.tokens.len();
        if n > 0 {
            let t = self.tokens[n - 1].clone();
            proof {
                assert(self.toks().last() == self.tokens@.last()@);
            }
            t
        } else {
            self.eof()
        }
    }

    /// Consume and return the next token; end of input yields the
    /// synthesized token and consumes nothing.
    fn next(&mut self) -> (t: Token)
        ensures
            final(self).locals == old(self).locals,
            final(self).code == old(self).code,
            t@.kind == tm_peek(old(self).toks()),
            final(self).toks() == (if old(self).toks().len() > 0 {
                old(self).toks().drop_last()
            } else {
                old(self).toks()
            }),
            final(self).toks().len() <= old(self).toks().len(),
    {
        match self.tokens.pop() {
            Some(t) => {
                proof {
                    assert(old(self).toks().last() == old(self).tokens@.last()@);
                    assert(final(self).toks() =~= old(self).toks().drop_last());
                }
                t
            },
            None => self.eof(),
        }
    }

    /// Resolve an identifier: the slot already holding this name, or a
    /// fresh slot appended to the table.
    #[verifier::loop_isolation(false)]
    fn push_local(&mut self, name: String) -> (id: LocalId)
        requires
            old(self).wf(),
        ensures
            final(self).wf(),
            final(self).tokens == old(self).tokens,
            final(self).code == old(self).code,
            ({
                let (i, n2) = resolve(old(self).names(), name@);
                id.0 as int == i && final(self).names() == n2
            }),
            id.0 < final(self).locals@.len(),
            old(self).locals@.len() <= final(self).locals@.len() <= old(self).locals@.len() + 1,
    {
        let ghost names = self.names();
        let n = self.locals.len();
        let mut i: usize = 0;
        while i < n
            invariant
                i <= n,
                n == self.locals@.len(),
                forall|k: int| 0 <= k < i ==> names[k] != name@,
                find_name(names, name@, i as int) == find_name(names, name@, 0),
            decreases n - i,
        {
            proof {
                assert(names[i as int] == self.locals@[i as int].name@);
            }
            if self.locals[i].name.eq(&name) {
                proof {
                    assert(find_name(names, name@, i as int) == Some(i as int));
                }
                return LocalId(i);
            }
            i = i + 1;
        }
        proof {
            assert(find_name(names, name@, n as int) is None);
        }
        let ghost nm = name@;
        self.locals.push(Local::new(name));
        proof {
            assert(final(self).names() =~= names.push(nm));
            assert forall|a: int, b: int|
                0 <= a < b < final(self).names().len() implies final(self).names()[a] != final(self).names()[b] by {
                if b < names.len() {
                } else {
                    assert(final(self).names()[b] == nm);
                    assert(names[a] != nm);
                }
            }
        }
        LocalId(n)
    }

    /// Demand a token of exactly this kind; anything else is a fatal
    /// grammatical mismatch.
    fn consume(&mut self, kind: TokenKind) -> (r: Result<Token, Error>)
        ensures
            final(self).locals == old(self).locals,
            final(self).code == old(self).code,
            final(self).toks().len() <= old(self).toks().len(),
            match r {
                Ok(_) => spec_consume(old(self).toks(), kind@) matches Ok(t2) && final(self).toks() == t2 && (old(self).toks().len() > 0 ==> final(self).toks().len() == old(self).toks().len() - 1),
                Err(_) => spec_consume(old(self).toks(), kind@) is Err,
            },
    {
        let next = self.next();
        if kind_eq(&next.kind, &kind) {
            Ok(next)
        } else {
            Err(
                Error::new(
                    String::from_str("unexpected token"),
                    Some(Span::new(next.start)),
                ),
            )
        }
    }

    /// Consume the next token only if it is of this kind.
    fn skip(&mut self, kind: TokenKind) -> (b: bool)
        ensures
            final(self).locals == old(self).locals,
            final(self).code == old(self).code,
            b == (tm_peek(old(self).toks()) == kind@),
            final(self).toks() == (if b && old(self).toks().len() > 0 {
                old(self).toks().drop_last()
            } else {
                old(self).toks()
            }),
            final(self).toks().len() <= old(self).toks().len(),
    {
        let p = self.peek();
        if kind_eq(&p.kind, &kind) {
            let _ = self.next();
            true
        } else {
            false
        }
    }

    /// Demand a binary-operator token.
    fn consume_binary(&mut self) -> (r: Result<Token, Error>)
        ensures
            final(self).locals == old(self).locals,
            final(self).code == old(self).code,
            final(self).toks().len() <= old(self).toks().len(),
            match r {
                Ok(t) => old(self).toks().len() > 0 && t@.kind == tm_peek(old(self).toks())
                    && is_binary_km(t@.kind) && final(self).toks() == old(self).toks().drop_last(),
                Err(_) => !is_binary_km(tm_peek(old(self).toks())),
            },
    {
        let next = self.next();
        proof {
            assert(next.kind.spec_binary() == is_binary_km(next.kind@));
        }
        if next.kind.binary() {
            proof {
                assert(tm_peek(old(self).toks()) != TokenKindModel::Eof);
                assert(old(self).toks().len() > 0);
            }
            Ok(next)
        } else {
            Err(
                Error::new(
                    String::from_str("expected a binary operator"),
                    Some(Span::new(next.start)),
                ),
            )
        }
    }
}

impl<'a> Parser<'a> {
    /// Fold one consumed binary-operator token and its right operand onto
    /// the waiting left operand.
    #[verifier::rlimit(100)]
    fn binary(&mut self, lhs: Expression, min_bp: u8) -> (r: Result<Expression, Error>)
        requires
            old(self).wf(),
            wf_expr(lhs@, old(self).locals@.len() as int),
        ensures
            final(self).code == old(self).code,
            final(self).wf(),
            final(self).toks().len() <= old(self).toks().len(),
            old(self).locals@.len() <= final(self).locals@.len(),
            final(self).locals@.len() - old(self).locals@.len() <= old(self).toks().len()
                - final(self).toks().len(),
            match r {
                Ok(e) => spec_binary(lhs@, old(self).toks(), old(self).names(), min_bp)
                    matches Ok(res) && res == (e@, final(self).toks(), final(self).names())
                    && wf_expr(e@, final(self).locals@.len() as int) && final(self).toks().len()
                    < old(self).toks().len(),
                Err(_) => spec_binary(lhs@, old(self).toks(), old(self).names(), min_bp) is Err,
            },
        decreases old(self).toks().len(), 0int,
    {
        let ghost lv = lhs@;
        let t = match self.consume_binary() {
            Ok(t) => t,
            Err(e) => {
                return Err(e);
            },
        };
        let op = match &t.kind {
            TokenKind::Lower => BinOp::LowerCmp,
            TokenKind::LowerEqual => BinOp::LowerEqCmp,
            TokenKind::Greater => BinOp::GreaterCmp,
            TokenKind::GreaterEqual => BinOp::GreaterEqCmp,
            TokenKind::NotEqual => BinOp::NeqCmp,
            TokenKind::EqualEqual => BinOp::EqCmp,
            TokenKind::Plus => BinOp::Add,
            TokenKind::Minus => BinOp::Sub,
            TokenKind::Slash => BinOp::Div,
            TokenKind::Star => BinOp::Mul,
            _ => {
                proof {
                    assert(false);
                }
                return Err(Error::new(String::from_str("expected a binary operator"), None));
            },
        };
        proof {
            assert(op == binop_of(t@.kind));
        }
        let rhs = match self.expression(min_bp) {
            Ok(rhs) => rhs,
            Err(e) => {
                return Err(e);
            },
        };
        proof {
            lemma_wf_expr_mono(lv, old(self).locals@.len() as int, self.locals@.len() as int);
        }
        Ok(Expression::Binary(BinaryExpr { op, lhs: Box::new(lhs), rhs: Box::new(rhs) }))
    }

    /// A parenthesized sub-expression.
    fn grouping(&mut self) -> (r: Result<Expression, Error>)
        requires
            old(self).wf(),
        ensures
            final(self).code == old(self).code,
            final(self).wf(),
            final(self).toks().len() <= old(self).toks().len(),
            old(self).locals@.len() <= final(self).locals@.len(),
            final(self).locals@.len() - old(self).locals@.len() <= old(self).toks().len()
                - final(self).toks().len(),
            match r {
                Ok(e) => spec_grouping(old(self).toks(), old(self).names()) matches Ok(res)
                    && res == (e@, final(self).toks(), final(self).names()) && wf_expr(
                    e@,
                    final(self).locals@.len() as int,
                ) && final(self).toks().len() < old(self).toks().len(),
                Err(_) => spec_grouping(old(self).toks(), old(self).names()) is Err,
            },
        decreases old(self).toks().len(), 0int,
    {
        match self.consume(TokenKind::LeftParen) {
            Ok(_) => {},
            Err(e) => {
                return Err(e);
            },
        }
        let e = match self.expression(0) {
            Ok(e) => e,
            Err(e) => {
                return Err(e);
            },
        };
        match self.consume(TokenKind::RightParen) {
            Ok(_) => {},
            Err(e) => {
                return Err(e);
            },
        }
        Ok(e)
    }

    /// A prefix-led term.
    #[verifier::rlimit(100)]
    fn unary(&mut self) -> (r: Result<Expression, Error>)
        requires
            old(self).wf(),
        ensures
            final(self).code == old(self).code,
            final(self).wf(),
            final(self).toks().len() <= old(self).toks().len(),
            old(self).locals@.len() <= final(self).locals@.len(),
            final(self).locals@.len() - old(self).locals@.len() <= old(self).toks().len()
                - final(self).toks().len(),
            match r {
                Ok(e) => spec_unary(old(self).toks(), old(self).names()) matches Ok(res) && res
                    == (e@, final(self).toks(), final(self).names()) && wf_expr(
                    e@,
                    final(self).locals@.len() as int,
                ) && final(self).toks().len() < old(self).toks().len(),
                Err(_) => spec_unary(old(self).toks(), old(self).names()) is Err,
            },
        decreases old(self).toks().len(), 0int,
    {
        let t = self.next();
        let r_bp = match prefix_binding_power(&t.kind) {
            Some(b) => b,
            None => {
                return Err(
                    Error::new(
                        String::from_str("expected a prefix operator"),
                        Some(Span::new(t.start)),
                    ),
                );
            },
        };
        let lhs = match self.expression(r_bp) {
            Ok(lhs) => lhs,
            Err(e) => {
                return Err(e);
            },
        };
        let e = match t.kind {
            TokenKind::Plus => Expression::Unary(UnaryExpr { op: UnaryOp::NoOp, lhs: Box::new(lhs) }),
            TokenKind::Minus => Expression::Unary(UnaryExpr { op: UnaryOp::Neg, lhs: Box::new(lhs) }),
            TokenKind::Amp => Expression::Pointer(PointerExpr { op: PointerOp::Ref, arg: Box::new(lhs) }),
            TokenKind::Star => Expression::Pointer(PointerExpr { op: PointerOp::Deref, arg: Box::new(lhs) }),
            _ => {
                proof {
                    assert(false);
                }
                return Err(Error::new(String::from_str("expected a prefix operator"), None));
            },
        };
        Ok(e)
    }

    /// Fold one consumed `=` and its right-hand side into an assignment.
    #[verifier::rlimit(100)]
    fn assignment(&mut self, lhs: Expression, min_bp: u8) -> (r: Result<Expression, Error>)
        requires
            old(self).wf(),
            wf_expr(lhs@, old(self).locals@.len() as int),
        ensures
            final(self).code == old(self).code,
            final(self).wf(),
            final(self).toks().len() <= old(self).toks().len(),
            old(self).locals@.len() <= final(self).locals@.len(),
            final(self).locals@.len() - old(self).locals@.len() <= old(self).toks().len()
                - final(self).toks().len(),
            match r {
                Ok(e) => spec_assignment(lhs@, old(self).toks(), old(self).names(), min_bp)
                    matches Ok(res) && res == (e@, final(self).toks(), final(self).names())
                    && wf_expr(e@, final(self).locals@.len() as int) && final(self).toks().len()
                    < old(self).toks().len(),
                Err(_) => spec_assignment(lhs@, old(self).toks(), old(self).names(), min_bp)
                    is Err,
            },
        decreases old(self).toks().len(), 0int,
    {
        let ghost lv = lhs@;
        let t = self.next();
        match &t.kind {
            TokenKind::Equal => {},
            _ => {
                return Err(
                    Error::new(
                        String::from_str("expected an assignment operator"),
                        Some(Span::new(t.start)),
                    ),
                );
            },
        }
        let rhs = match self.expression(min_bp) {
            Ok(rhs) => rhs,
            Err(e) => {
                return Err(e);
            },
        };
        proof {
            lemma_wf_expr_mono(lv, old(self).locals@.len() as int, self.locals@.len() as int);
        }
        Ok(
            Expression::Assignment(
                AssignmentExpr { lhs: Box::new(lhs), rhs: Box::new(rhs), op: AssignmentOp::Eq },
            ),
        )
    }

    /// The precedence-climbing loop, as a recursion on the remaining
    /// tokens: fold infix operators while their left binding power reaches
    /// the caller's minimum.
    #[verifier::rlimit(100)]
    fn infix(&mut self, lhs: Expression, min_bp: u8) -> (r: Result<Expression, Error>)
        requires
            old(self).wf(),
            wf_expr(lhs@, old(self).locals@.len() as int),
        ensures
            final(self).code == old(self).code,
            final(self).wf(),
            final(self).toks().len() <= old(self).toks().len(),
            old(self).locals@.len() <= final(self).locals@.len(),
            final(self).locals@.len() - old(self).locals@.len() <= old(self).toks().len()
                - final(self).toks().len(),
            match r {
                Ok(e) => spec_infix(lhs@, old(self).toks(), old(self).names(), min_bp)
                    matches Ok(res) && res == (e@, final(self).toks(), final(self).names())
                    && wf_expr(e@, final(self).locals@.len() as int),
                Err(_) => spec_infix(lhs@, old(self).toks(), old(self).names(), min_bp) is Err,
            },
        decreases old(self).toks().len(), 1int,
    {
        let p = self.peek();
        match infix_binding_power(&p.kind) {
            None => Ok(lhs),
            Some((l_bp, r_bp)) => {
                if l_bp < min_bp {
                    return Ok(lhs);
                }
                let e2 = if kind_eq(&p.kind, &TokenKind::Equal) {
                    match self.assignment(lhs, r_bp) {
                        Ok(e2) => e2,
                        Err(e) => {
                            return Err(e);
                        },
                    }
                } else {
                    match self.binary(lhs, r_bp) {
                        Ok(e2) => e2,
                        Err(e) => {
                            return Err(e);
                        },
                    }
                };
                self.infix(e2, min_bp)
            },
        }
    }

    /// A whole expression at the given minimum binding power: a primary or
    /// prefix-led term, then the precedence-climbing loop.
    #[verifier::rlimit(100)]
    pub fn expression(&mut self, min_bp: u8) -> (r: Result<Expression, Error>)
        requires
            old(self).wf(),
        ensures
            final(self).code == old(self).code,
            final(self).wf(),
            final(self).toks().len() <= old(self).toks().len(),
            old(self).locals@.len() <= final(self).locals@.len(),
            final(self).locals@.len() - old(self).locals@.len() <= old(self).toks().len()
                - final(self).toks().len(),
            match r {
                Ok(e) => spec_expression(old(self).toks(), old(self).names(), min_bp)
                    matches Ok(res) && res == (e@, final(self).toks(), final(self).names())
                    && wf_expr(e@, final(self).locals@.len() as int) && final(self).toks().len()
                    < old(self).toks().len(),
                Err(_) => spec_expression(old(self).toks(), old(self).names(), min_bp) is Err,
            },
        decreases old(self).toks().len(), 2int,
    {
        let p = self.peek();
        match p.kind {
            TokenKind::Num(v) => {
                let _ = self.next();
                self.infix(Expression::NumberLiteral(v), min_bp)
            },
            TokenKind::Ident(name) => {
                let _ = self.next();
                let id = self.push_local(name);
                self.infix(Expression::Identifier(id), min_bp)
            },
            TokenKind::LeftParen => {
                let lhs = match self.grouping() {
                    Ok(lhs) => lhs,
                    Err(e) => {
                        return Err(e);
                    },
                };
                self.infix(lhs, min_bp)
            },
            TokenKind::Plus | TokenKind::Minus | TokenKind::Star | TokenKind::Amp => {
                let lhs = match self.unary() {
                    Ok(lhs) => lhs,
                    Err(e) => {
                        return Err(e);
                    },
                };
                self.infix(lhs, min_bp)
            },
            _ => Err(
                Error::new(
                    String::from_str("expected an expression"),
                    Some(Span::new(p.start)),
                ),
            ),
        }
    }
}

impl<'a> Parser<'a> {
    /// Whether the next token closes a brace block.
    fn at_right_curly(&self) -> (b: bool)
        ensures
            b == (tm_peek(self.toks()) == TokenKindModel::RightCurly),
    {
        let p = self.peek();
        kind_eq(&p.kind, &TokenKind::RightCurly)
    }

    /// Consume a run of bare semicolons.
    fn skip_semicolons(&mut self)
        ensures
            final(self).locals == old(self).locals,
            final(self).code == old(self).code,
            final(self).toks() == skip_semis(old(self).toks()),
            final(self).toks().len() <= old(self).toks().len(),
        decreases old(self).toks().len(), 0int,
    {
        if self.skip(TokenKind::Semicolon) {
            self.skip_semicolons();
        }
    }

    /// `if ( <expr> ) <stmt> [else <stmt>]`.
    #[verifier::rlimit(100)]
    fn if_statement(&mut self) -> (r: Result<Statement, Error>)
        requires
            old(self).wf(),
        ensures
            final(self).code == old(self).code,
            final(self).wf(),
            final(self).toks().len() <= old(self).toks().len(),
            old(self).locals@.len() <= final(self).locals@.len(),
            final(self).locals@.len() - old(self).locals@.len() <= old(self).toks().len()
                - final(self).toks().len(),
            match r {
                Ok(st) => spec_if_statement(old(self).toks(), old(self).names()) matches Ok(res)
                    && res == (st@, final(self).toks(), final(self).names()) && wf_stmt(
                    st@,
                    final(self).locals@.len() as int,
                ) && final(self).toks().len() < old(self).toks().len() && cc_stmt(st@) <= old(self).toks().len() - final(self).toks().len(),
                Err(_) => spec_if_statement(old(self).toks(), old(self).names()) is Err,
            },
        decreases old(self).toks().len(), 0int,
    {
        match self.consume(TokenKind::If) {
            Ok(_) => {},
            Err(e) => {
                return Err(e);
            },
        }
        match self.consume(TokenKind::LeftParen) {
            Ok(_) => {},
            Err(e) => {
                return Err(e);
            },
        }
        let condition = match self.expression(0) {
            Ok(c) => c,
            Err(e) => {
                return Err(e);
            },
        };
        match self.consume(TokenKind::RightParen) {
            Ok(_) => {},
            Err(e) => {
                return Err(e);
            },
        }
        let ghost len1 = self.locals@.len() as int;
        let tb = match self.statement() {
            Ok(t) => t,
            Err(e) => {
                return Err(e);
            },
        };
        let then_branch = Box::new(tb);
        let ghost len2 = self.locals@.len() as int;
        let else_branch = if self.skip(TokenKind::Else) {
            let eb = match self.statement() {
                Ok(t) => t,
                Err(e) => {
                    return Err(e);
                },
            };
            Some(Box::new(eb))
        } else {
            None
        };
        proof {
            lemma_wf_expr_mono(condition@, len1, final(self).locals@.len() as int);
            lemma_wf_stmt_mono((*then_branch)@, len2, final(self).locals@.len() as int);
        }
        Ok(Statement::If(IfStatement { condition, then_branch, else_branch }))
    }

    /// `while ( <expr> ) <stmt>`.
    #[verifier::rlimit(100)]
    fn while_statement(&mut self) -> (r: Result<Statement, Error>)
        requires
            old(self).wf(),
        ensures
            final(self).code == old(self).code,
            final(self).wf(),
            final(self).toks().len() <= old(self).toks().len(),
            old(self).locals@.len() <= final(self).locals@.len(),
            final(self).locals@.len() - old(self).locals@.len() <= old(self).toks().len()
                - final(self).toks().len(),
            match r {
                Ok(st) => spec_while_statement(old(self).toks(), old(self).names()) matches Ok(
                    res,
                ) && res == (st@, final(self).toks(), final(self).names()) && wf_stmt(
                    st@,
                    final(self).locals@.len() as int,
                ) && final(self).toks().len() < old(self).toks().len() && cc_stmt(st@) <= old(self).toks().len() - final(self).toks().len(),
                Err(_) => spec_while_statement(old(self).toks(), old(self).names()) is Err,
            },
        decreases old(self).toks().len(), 0int,
    {
        match self.consume(TokenKind::While) {
            Ok(_) => {},
            Err(e) => {
                return Err(e);
            },
        }
        match self.consume(TokenKind::LeftParen) {
            Ok(_) => {},
            Err(e) => {
                return Err(e);
            },
        }
        let c = match self.expression(0) {
            Ok(c) => c,
            Err(e) => {
                return Err(e);
            },
        };
        let condition = Some(c);
        match self.consume(TokenKind::RightParen) {
            Ok(_) => {},
            Err(e) => {
                return Err(e);
            },
        }
        let ghost len1 = self.locals@.len() as int;
        let b = match self.statement() {
            Ok(b) => b,
            Err(e) => {
                return Err(e);
            },
        };
        let body = Box::new(b);
        proof {
            match condition {
                Some(ref ce) => {
                    lemma_wf_expr_mono(ce@, len1, final(self).locals@.len() as int);
                },
                None => {},
            }
        }
        Ok(Statement::While(WhileStatement { condition, body }))
    }

    /// One optional `for` clause up to its delimiter.
    #[verifier::rlimit(100)]
    fn for_clause(&mut self, delim: TokenKind) -> (r: Result<Option<Expression>, Error>)
        requires
            old(self).wf(),
            !(delim@ is Eof),
        ensures
            final(self).code == old(self).code,
            final(self).wf(),
            final(self).toks().len() <= old(self).toks().len(),
            old(self).locals@.len() <= final(self).locals@.len(),
            final(self).locals@.len() - old(self).locals@.len() <= old(self).toks().len()
                - final(self).toks().len(),
            match r {
                Ok(oe) => spec_for_clause(old(self).toks(), old(self).names(), delim@)
                    matches Ok(res) && res == (opt_expr_view(oe), final(self).toks(), final(self).names()) && wf_opt_expr(opt_expr_view(oe), final(self).locals@.len() as int)
                    && final(self).toks().len() < old(self).toks().len(),
                Err(_) => spec_for_clause(old(self).toks(), old(self).names(), delim@) is Err,
            },
        decreases old(self).toks().len(), 1int,
    {
        let d2 = delim.clone();
        if self.skip(d2) {
            Ok(None)
        } else {
            let e = match self.expression(0) {
                Ok(e) => e,
                Err(er) => {
                    return Err(er);
                },
            };
            match self.consume(delim) {
                Ok(_) => {},
                Err(er) => {
                    return Err(er);
                },
            }
            Ok(Some(e))
        }
    }

    /// `for ( [init] ; [cond] ; [update] ) <stmt>`.
    #[verifier::rlimit(100)]
    fn for_statement(&mut self) -> (r: Result<Statement, Error>)
        requires
            old(self).wf(),
        ensures
            final(self).code == old(self).code,
            final(self).wf(),
            final(self).toks().len() <= old(self).toks().len(),
            old(self).locals@.len() <= final(self).locals@.len(),
            final(self).locals@.len() - old(self).locals@.len() <= old(self).toks().len()
                - final(self).toks().len(),
            match r {
                Ok(st) => spec_for_statement(old(self).toks(), old(self).names()) matches Ok(
                    res,
                ) && res == (st@, final(self).toks(), final(self).names()) && wf_stmt(
                    st@,
                    final(self).locals@.len() as int,
                ) && final(self).toks().len() < old(self).toks().len() && cc_stmt(st@) <= old(self).toks().len() - final(self).toks().len(),
                Err(_) => spec_for_statement(old(self).toks(), old(self).names()) is Err,
            },
        decreases old(self).toks().len(), 0int,
    {
        match self.consume(TokenKind::For) {
            Ok(_) => {},
            Err(e) => {
                return Err(e);
            },
        }
        match self.consume(TokenKind::LeftParen) {
            Ok(_) => {},
            Err(e) => {
                return Err(e);
            },
        }
        let init = match self.for_clause(TokenKind::Semicolon) {
            Ok(oe) => oe,
            Err(e) => {
                return Err(e);
            },
        };
        let ghost len1 = self.locals@.len() as int;
        let condition = match self.for_clause(TokenKind::Semicolon) {
            Ok(oe) => oe,
            Err(e) => {
                return Err(e);
            },
        };
        let ghost len2 = self.locals@.len() as int;
        let update = match self.for_clause(TokenKind::RightParen) {
            Ok(oe) => oe,
            Err(e) => {
                return Err(e);
            },
        };
        let ghost len3 = self.locals@.len() as int;
        let b = match self.statement() {
            Ok(b) => b,
            Err(e) => {
                return Err(e);
            },
        };
        let body = Box::new(b);
        proof {
            match init {
                Some(ref e) => {
                    lemma_wf_expr_mono(e@, len1, final(self).locals@.len() as int);
                },
                None => {},
            }
            match condition {
                Some(ref e) => {
                    lemma_wf_expr_mono(e@, len2, final(self).locals@.len() as int);
                },
                None => {},
            }
            match update {
                Some(ref e) => {
                    lemma_wf_expr_mono(e@, len3, final(self).locals@.len() as int);
                },
                None => {},
            }
        }
        Ok(Statement::For(ForStatement { init, condition, update, body }))
    }

    /// One statement, dispatched on the leading token.
    #[verifier::rlimit(100)]
    fn statement(&mut self) -> (r: Result<Statement, Error>)
        requires
            old(self).wf(),
        ensures
            final(self).code == old(self).code,
            final(self).wf(),
            final(self).toks().len() <= old(self).toks().len(),
            old(self).locals@.len() <= final(self).locals@.len(),
            final(self).locals@.len() - old(self).locals@.len() <= old(self).toks().len()
                - final(self).toks().len(),
            match r {
                Ok(st) => spec_statement(old(self).toks(), old(self).names()) matches Ok(res)
                    && res == (st@, final(self).toks(), final(self).names()) && wf_stmt(
                    st@,
                    final(self).locals@.len() as int,
                ) && final(self).toks().len() < old(self).toks().len() && cc_stmt(st@) <= old(self).toks().len() - final(self).toks().len(),
                Err(_) => spec_statement(old(self).toks(), old(self).names()) is Err,
            },
        decreases old(self).toks().len(), 3int,
    {
        let p = self.peek();
        match &p.kind {
            TokenKind::While => self.while_statement(),
            TokenKind::For => self.for_statement(),
            TokenKind::If => self.if_statement(),
            TokenKind::Return => {
                match self.consume(TokenKind::Return) {
                    Ok(_) => {},
                    Err(e) => {
                        return Err(e);
                    },
                }
                let lhs = match self.expression(0) {
                    Ok(e) => e,
                    Err(e) => {
                        return Err(e);
                    },
                };
                match self.consume(TokenKind::Semicolon) {
                    Ok(_) => {},
                    Err(e) => {
                        return Err(e);
                    },
                }
                Ok(Statement::Return(lhs))
            },
            TokenKind::LeftCurly => {
                match self.consume(TokenKind::LeftCurly) {
                    Ok(_) => {},
                    Err(e) => {
                        return Err(e);
                    },
                }
                let stmts = match self.statement_list() {
                    Ok(v) => v,
                    Err(e) => {
                        return Err(e);
                    },
                };
                match self.consume(TokenKind::RightCurly) {
                    Ok(_) => {},
                    Err(e) => {
                        return Err(e);
                    },
                }
                Ok(Statement::Compound(CompoundStatement { stmts }))
            },
            TokenKind::Semicolon => {
                proof {
                    lemma_skip_semis(old(self).toks());
                }
                self.skip_semicolons();
                Ok(Statement::Empty)
            },
            _ => {
                let lhs = match self.expression(0) {
                    Ok(e) => e,
                    Err(e) => {
                        return Err(e);
                    },
                };
                match self.consume(TokenKind::Semicolon) {
                    Ok(_) => {},
                    Err(e) => {
                        return Err(e);
                    },
                }
                Ok(Statement::Expr(lhs))
            },
        }
    }

    /// A run of statements up to the closing brace.
    #[verifier::loop_isolation(false)]
    #[verifier::rlimit(100)]
    fn statement_list(&mut self) -> (r: Result<Vec<Statement>, Error>)
        requires
            old(self).wf(),
        ensures
            final(self).code == old(self).code,
            final(self).wf(),
            final(self).toks().len() <= old(self).toks().len(),
            old(self).locals@.len() <= final(self).locals@.len(),
            final(self).locals@.len() - old(self).locals@.len() <= old(self).toks().len()
                - final(self).toks().len(),
            match r {
                Ok(v) => spec_stmt_seq(old(self).toks(), old(self).names()) matches Ok(res)
                    && res == (stmts_view(v@, 0), final(self).toks(), final(self).names())
                    && wf_stmts(stmts_view(v@, 0), 0, final(self).locals@.len() as int)
                    && cc_stmts(stmts_view(v@, 0), 0) <= old(self).toks().len() - final(self).toks().len(),
                Err(_) => spec_stmt_seq(old(self).toks(), old(self).names()) is Err,
            },
        decreases old(self).toks().len(), 4int,
    {
        let mut stmts: Vec<Statement> = Vec::new();
        proof {
            assert(stmts_view(stmts@, 0) =~= Seq::<StmtModel>::empty());
        }
        while !self.at_right_curly()
            invariant
                self.wf(),
                self.code == old(self).code,
                self.toks().len() <= old(self).toks().len(),
                old(self).locals@.len() <= self.locals@.len(),
                self.locals@.len() - old(self).locals@.len() <= old(self).toks().len()
                    - self.toks().len(),
                wf_stmts(stmts_view(stmts@, 0), 0, self.locals@.len() as int),
                cc_stmts(stmts_view(stmts@, 0), 0) <= old(self).toks().len() - self.toks().len(),
                (match spec_stmt_seq(self.toks(), self.names()) {
                    Ok(res2) => spec_stmt_seq(old(self).toks(), old(self).names()) matches Ok(
                        res,
                    ) && res == (stmts_view(stmts@, 0) + res2.0, res2.1, res2.2),
                    Err(e) => spec_stmt_seq(old(self).toks(), old(self).names()) is Err,
                }),
            decreases self.toks().len(),
        {
            let ghost len_before = self.locals@.len() as int;
            let ghost view_before = stmts_view(stmts@, 0);
            let st = match self.statement() {
                Ok(st) => st,
                Err(e) => {
                    return Err(e);
                },
            };
            let ghost snap = stmts@;
            stmts.push(st);
            proof {
                lemma_wf_stmts_mono(view_before, 0, len_before, self.locals@.len() as int);
                lemma_stmts_view_push(snap, st, 0);
                assert(view_before + seq![st@] =~= view_before.push(st@));
                lemma_cc_stmts_push(view_before, st@, 0);
                lemma_wf_stmts_push(view_before, st@, 0, self.locals@.len() as int);
                match spec_stmt_seq(self.toks(), self.names()) {
                    Ok(res2) => {
                        vstd::seq_lib::lemma_concat_associative(
                            view_before,
                            seq![st@],
                            res2.0,
                        );
                    },
                    Err(_) => {},
                }
            }
        }
        proof {
            assert(stmts_view(stmts@, 0) + Seq::<StmtModel>::empty() =~= stmts_view(stmts@, 0));
        }
        Ok(stmts)
    }

    /// The whole program: a braced statement run, then the end of input.
    #[verifier::rlimit(100)]
    pub fn run(&mut self) -> (r: Result<Program, Error>)
        requires
            old(self).wf(),
        ensures
            final(self).code == old(self).code,
            final(self).wf(),
            old(self).locals@.len() <= final(self).locals@.len(),
            final(self).locals@.len() - old(self).locals@.len() <= old(self).toks().len(),
            match r {
                Ok(prog) => spec_program(old(self).toks(), old(self).names()) matches Ok(res)
                    && res == (prog@, final(self).names()) && wf_stmts(
                    prog@,
                    0,
                    final(self).locals@.len() as int,
                ) && cc_stmts(prog@, 0) <= old(self).toks().len(),
                Err(_) => spec_program(old(self).toks(), old(self).names()) is Err,
            },
    {
        match self.consume(TokenKind::LeftCurly) {
            Ok(_) => {},
            Err(e) => {
                return Err(e);
            },
        }
        let stmts = match self.statement_list() {
            Ok(v) => v,
            Err(e) => {
                return Err(e);
            },
        };
        match self.consume(TokenKind::RightCurly) {
            Ok(_) => {},
            Err(e) => {
                return Err(e);
            },
        }
        match self.consume(TokenKind::Eof) {
            Ok(_) => {},
            Err(e) => {
                return Err(e);
            },
        }
        Ok(Program { stmt: CompoundStatement { stmts } })
    }
}

/// The parsed program together with its locals table and, after layout,
/// the aligned stack-frame size.
#[derive(Debug)]
pub struct Function {
    pub stmt: CompoundStatement,
    pub locals: Vec<Local>,
    pub stack_size: usize,
}

impl Function {
    /// The image of the function body.
    pub open spec fn body_view(&self) -> Seq<StmtModel> {
        stmts_view(self.stmt.stmts@, 0)
    }

    /// The computed frame size.
    pub open spec fn spec_stack_size(&self) -> int {
        self.stack_size as int
    }

    /// The frame offsets of the locals, in declaration order.
    pub open spec fn offs(&self) -> Seq<int> {
        offs_of(self.locals@)
    }

    /// Combine a parsed program with the locals the parser accumulated,
    /// then run the layout pass once. The bound keeps the frame size
    /// within the machine word.
    pub fn new(program: Program, locals: Vec<Local>) -> (f: Self)
        requires
            8 * locals@.len() + 15 <= usize::MAX,
        ensures
            f.body_view() == program@,
            f.locals@.len() == locals@.len(),
            forall|i: int|
                0 <= i < locals@.len() ==> (#[trigger] f.locals@[i]).name@ == locals@[i].name@,
            forall|i: int|
                0 <= i < locals@.len() ==> (#[trigger] f.locals@[i]).offset as int == 8 * (
                locals@.len() - i),
            f.spec_stack_size() == spec_align(8 * locals@.len() as int, 16),
            f.spec_stack_size() % 16 == 0,
            f.spec_stack_size() >= 8 * locals@.len(),
    {
        let mut result = Self { stmt: program.stmt, locals, stack_size: 0 };
        result.assign_locals_offsets();
        result
    }

    pub fn stack_size(&self) -> (n: usize)
        ensures
            n as int == self.spec_stack_size(),
    {
        self.stack_size
    }

    pub fn body(&self) -> (b: &CompoundStatement)
        ensures
            b@ == self.body_view(),
    {
        &self.stmt
    }

    pub fn local(&self, id: LocalId) -> (l: &Local)
        requires
            id.0 < self.locals@.len(),
        ensures
            *l == self.locals@[id.0 as int],
    {
        &self.locals[id.0]
    }

    /// The layout pass: walking the table in reverse declaration order,
    /// each local is placed one eight-byte word below the previous one, so
    /// the local declared first ends up deepest in the frame.
    #[verifier::loop_isolation(false)]
    fn assign_locals_offsets(&mut self)
        requires
            8 * old(self).locals@.len() + 15 <= usize::MAX,
        ensures
            final(self).stmt == old(self).stmt,
            final(self).locals@.len() == old(self).locals@.len(),
            forall|i: int|
                0 <= i < old(self).locals@.len() ==> (#[trigger] final(self).locals@[i]).name@
                    == old(self).locals@[i].name@,
            forall|i: int|
                0 <= i < old(self).locals@.len() ==> (#[trigger] final(self).locals@[i]).offset
                    as int == 8 * (old(self).locals@.len() - i),
            final(self).spec_stack_size() == spec_align(8 * old(self).locals@.len() as int, 16),
            final(self).spec_stack_size() % 16 == 0,
            final(self).spec_stack_size() >= 8 * old(self).locals@.len(),
    {
        let n = self.locals.len();
        let mut out: Vec<Local> = Vec::new();
        let mut i: usize = 0;
        while i < n
            invariant
                i <= n,
                out@.len() == i,
                forall|k: int|
                    0 <= k < i ==> (#[trigger] out@[k]).name@ == self.locals@[k].name@
                        && out@[k].offset as int == 8 * (n - k),
            decreases n - i,
        {
            let name = self.locals[i].name.clone();
            let off = 8 * (n - i);
            out.push(Local { name, offset: off });
            i = i + 1;
        }
        self.locals = out;
        self.stack_size = Self::align_stack_size(8 * n, 16);
        proof {
            lemma_align_bounds(8 * n as int, 16);
        }
    }

    /// Round `size` up to the next multiple of `base_align`.
    fn align_stack_size(size: usize, base_align: usize) -> (r: usize)
        requires
            base_align >= 1,
            size + base_align - 1 <= usize::MAX,
        ensures
            r as int == spec_align(size as int, base_align as int),
    {
        let q = (size + (base_align - 1)) / base_align;
        proof {
            vstd::arithmetic::div_mod::lemma_fundamental_div_mod(
                size + base_align - 1,
                base_align as int,
            );
            vstd::arithmetic::div_mod::lemma_mod_bound(size + base_align - 1, base_align as int);
        }
        base_align * q
    }
}

/// Alignment really aligns: the rounded size is a nonnegative multiple of
/// `base` and at least `size`.
pub proof fn lemma_align_bounds(size: int, base: int)
    requires
        size >= 0,
        base >= 1,
    ensures
        spec_align(size, base) % base == 0,
        size <= spec_align(size, base) <= size + base - 1,
{
    let q = (size + base - 1) / base;
    assert(base * q == q * base) by (nonlinear_arith);
    assert(q * base % base == 0) by (nonlinear_arith)
        requires
            base >= 1,
    ;
    assert(size <= q * base <= size + base - 1) by (nonlinear_arith)
        requires
            q == (size + base - 1) / base,
            base >= 1,
            size >= 0,
    ;
}


/// The frame offsets the layout pass assigns to `n` locals: walking the
/// table in reverse declaration order, each local sits one eight-byte word
/// below the previous one, so the local declared first is deepest.
pub open spec fn layout_offs(n: int) -> Seq<int> {
    Seq::new(n as nat, |i: int| 8 * (n - i))
}

/// Where `find_name` answers, the name really stands there, and nowhere
/// earlier.
pub proof fn lemma_find_name(names: Seq<Seq<char>>, nm: Seq<char>, i: int)
    requires
        0 <= i <= names.len(),
    ensures
        match find_name(names, nm, i) {
            Some(j) => i <= j < names.len() && names[j] == nm && (forall|k: int|
                i <= k < j ==> names[k] != nm),
            None => forall|k: int| i <= k < names.len() ==> names[k] != nm,
        },
    decreases names.len() - i,
{
    if i < names.len() && names[i] != nm {
        lemma_find_name(names, nm, i + 1);
    }
}

/// Local identity, the resolution half: in a table without repeated
/// names, find-or-create maps a name already present to its unique slot
/// and leaves the table unchanged, and a fresh name to a fresh slot; the
/// result always holds the name at the returned index, and stays free of
/// repeats. So two occurrences of one identifier resolve to the same
/// slot.
pub proof fn lemma_resolve_stable(names: Seq<Seq<char>>, nm: Seq<char>)
    requires
        names_unique(names),
    ensures
        ({
            let (i, n2) = resolve(names, nm);
            &&& 0 <= i < n2.len()
            &&& n2[i] == nm
            &&& names_unique(n2)
            &&& forall|k: int| 0 <= k < names.len() && names[k] == nm ==> i == k
            &&& names.len() <= n2.len() <= names.len() + 1
        }),
{
    lemma_find_name(names, nm, 0);
    let (i, n2) = resolve(names, nm);
    match find_name(names, nm, 0) {
        Some(j) => {
            assert forall|k: int| 0 <= k < names.len() && names[k] == nm implies i == k by {
                if k < j {
                } else if k > j {
                    assert(names[j] == names[k]);
                }
            }
        },
        None => {
            assert forall|a: int, b: int| 0 <= a < b < n2.len() implies n2[a] != n2[b] by {
                if b == names.len() {
                    assert(n2[b] == nm);
                    assert(names[a] != nm);
                }
            }
        },
    }
}

/// Local identity, the layout half: distinct slots get distinct frame
/// offsets, so two different names never share an offset.
pub proof fn lemma_distinct_offsets(n: int, i: int, j: int)
    requires
        0 <= i < n,
        0 <= j < n,
        i != j,
    ensures
        layout_offs(n)[i] != layout_offs(n)[j],
{
}

/// Frame alignment: the frame reserved for `n` locals is a nonnegative
/// multiple of sixteen, and at least eight bytes per distinct identifier
/// referenced.
pub proof fn lemma_frame_alignment(n: int)
    requires
        n >= 0,
    ensures
        spec_align(8 * n, 16) % 16 == 0,
        spec_align(8 * n, 16) >= 8 * n,
        spec_align(8 * n, 16) >= 0,
{
    lemma_align_bounds(8 * n, 16);
}

} // verus!
