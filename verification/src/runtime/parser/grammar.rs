//! The grammar of the language.
//!
//! Each construct has a spec function `g_..` from tokens and a position to the tree that stands
//! there and the position behind it, or the position of the token that fits nothing; and a parser
//! function that computes it.

use vstd::prelude::*;

use crate::runtime::ast;
use crate::runtime::ast::{
    ActionStmt, ActionStmtV, BinOp, Decl, DeclV, Expr, ExprV, Field, FieldV, HtmlPart, HtmlPartV,
    HtmlTemplate, Stmt, StmtV, UnOp, Value, ValueV,
};
use crate::runtime::interner::{Interner, Symbol};
use crate::runtime::parser::lex;
use crate::runtime::parser::lex::{Keyword, Punct, Token, TokenV};
use crate::runtime::text::joined_text;
use crate::runtime::tt::types;
use crate::runtime::tt::types::{Param, ParamV, Type, TypeV};

verus! {

broadcast use {
    types::views_push,
    ast::group_ast_views,
    types::group_type_views,
};

/// A tree and the position behind it, or the position of the token that fits nothing.
pub type Parsed<T> = Result<(T, int), int>;

/// Whether a mark stands at a position.
pub open spec fn is_mark(t: Seq<TokenV>, p: int, m: Punct) -> bool {
    0 <= p < t.len() && t[p] == TokenV::Mark(m)
}

/// Whether a reserved word stands at a position.
pub open spec fn is_word(t: Seq<TokenV>, p: int, k: Keyword) -> bool {
    0 <= p < t.len() && t[p] == TokenV::Word(k)
}

/// The name that stands at a position.
pub open spec fn ident_at(t: Seq<TokenV>, p: int) -> Option<Symbol> {
    if 0 <= p < t.len() && t[p] is Ident {
        Some(t[p]->Ident_0)
    } else {
        None
    }
}

/// Whether a construct that starts at `p` can end before `q`.
pub open spec fn ends(t: Seq<TokenV>, p: int, q: int) -> bool {
    p < q <= t.len()
}

/// The types that a word or a list in brackets stands for.
pub open spec fn g_type_atom(t: Seq<TokenV>, p: int) -> Parsed<Seq<TypeV>>
    decreases t.len() - p, 1int,
{
    if is_word(t, p, Keyword::Int) {
        Ok((seq![TypeV::Int], p + 1))
    } else if is_word(t, p, Keyword::String) {
        Ok((seq![TypeV::String], p + 1))
    } else if is_word(t, p, Keyword::Bool) {
        Ok((seq![TypeV::Bool], p + 1))
    } else if is_word(t, p, Keyword::Unit) {
        Ok((seq![TypeV::Unit], p + 1))
    } else if is_mark(t, p, Punct::LParen) {
        if is_mark(t, p + 1, Punct::RParen) {
            Ok((Seq::empty(), p + 2))
        } else {
            match g_types(t, p + 1, Seq::empty()) {
                Err(e) => Err(e),
                Ok((ts, q)) => if ends(t, p, q) && is_mark(t, q, Punct::RParen) {
                    Ok((ts, q + 1))
                } else {
                    Err(q)
                },
            }
        }
    } else {
        Err(p)
    }
}

/// A type: an atom, or a function type whose parameters are an atom.
pub open spec fn g_type(t: Seq<TokenV>, p: int) -> Parsed<TypeV>
    decreases t.len() - p, 2int,
{
    match g_type_atom(t, p) {
        Err(e) => Err(e),
        Ok((ts, q)) => if ends(t, p, q) && is_mark(t, q, Punct::Arrow) {
            match g_type(t, q + 1) {
                Err(e) => Err(e),
                Ok((ret, r)) => Ok((TypeV::Func { params: ts, ret: Box::new(ret) }, r)),
            }
        } else if ts.len() == 0 {
            Err(q)
        } else if ts.len() == 1 {
            Ok((ts[0], q))
        } else {
            Ok((TypeV::Tuple(ts), q))
        },
    }
}

/// Types with commas between them, behind those found before.
pub open spec fn g_types(t: Seq<TokenV>, p: int, found: Seq<TypeV>) -> Parsed<Seq<TypeV>>
    decreases t.len() - p, 3int,
{
    match g_type(t, p) {
        Err(e) => Err(e),
        Ok((ty, q)) => if ends(t, p, q) && is_mark(t, q, Punct::Comma) {
            g_types(t, q + 1, found.push(ty))
        } else {
            Ok((found.push(ty), q))
        },
    }
}

/// A colon and a type, or nothing.
#[verifier::opaque]
pub open spec fn g_annotation(t: Seq<TokenV>, p: int) -> Parsed<Option<TypeV>> {
    if is_mark(t, p, Punct::Colon) {
        match g_type(t, p + 1) {
            Err(e) => Err(e),
            Ok((ty, q)) => Ok((Some(ty), q)),
        }
    } else {
        Ok((None, p))
    }
}

/// Parameters with commas between them, up to a closing bracket.
pub open spec fn g_param_list(t: Seq<TokenV>, p: int, found: Seq<ParamV>) -> Parsed<Seq<ParamV>>
    decreases t.len() - p,
{
    match ident_at(t, p) {
        None => Err(p),
        Some(name) => match g_annotation(t, p + 1) {
            Err(e) => Err(e),
            Ok((ty, q)) => if ends(t, p, q) && is_mark(t, q, Punct::Comma) {
                g_param_list(t, q + 1, found.push(ParamV { name, ty }))
            } else if is_mark(t, q, Punct::RParen) {
                Ok((found.push(ParamV { name, ty }), q + 1))
            } else {
                Err(q)
            },
        },
    }
}

/// The parameters of a function: one name, or a list in brackets.
#[verifier::opaque]
pub open spec fn g_params(t: Seq<TokenV>, p: int) -> Parsed<Seq<ParamV>> {
    match ident_at(t, p) {
        Some(name) => Ok((seq![ParamV { name, ty: None }], p + 1)),
        None => if is_mark(t, p, Punct::LParen) {
            if is_mark(t, p + 1, Punct::RParen) {
                Ok((Seq::empty(), p + 2))
            } else {
                g_param_list(t, p + 1, Seq::empty())
            }
        } else {
            Err(p)
        },
    }
}

/// An infix operator: a binary operator, or the dots of a range.
#[derive(Debug, Clone, Copy, PartialEq, Eq, Structural)]
pub enum Infix {
    Op(BinOp),
    Span,
}

/// The number of binding levels of infix operators.
pub const LEVELS: u8 = 6;

/// The infix operator of a level, from the loosest, that stands at a position.
pub open spec fn infix_at(t: Seq<TokenV>, p: int, level: int) -> Option<Infix> {
    if level == 0 && is_mark(t, p, Punct::OrOr) {
        Some(Infix::Op(BinOp::Or))
    } else if level == 1 && is_mark(t, p, Punct::AndAnd) {
        Some(Infix::Op(BinOp::And))
    } else if level == 2 && is_mark(t, p, Punct::EqEq) {
        Some(Infix::Op(BinOp::Eq))
    } else if level == 2 && is_mark(t, p, Punct::Lt) {
        Some(Infix::Op(BinOp::Lt))
    } else if level == 2 && is_mark(t, p, Punct::Gt) {
        Some(Infix::Op(BinOp::Gt))
    } else if level == 3 && is_mark(t, p, Punct::DotDot) {
        Some(Infix::Span)
    } else if level == 4 && is_mark(t, p, Punct::Plus) {
        Some(Infix::Op(BinOp::Add))
    } else if level == 4 && is_mark(t, p, Punct::Minus) {
        Some(Infix::Op(BinOp::Sub))
    } else if level == 5 && is_mark(t, p, Punct::Star) {
        Some(Infix::Op(BinOp::Mul))
    } else if level == 5 && is_mark(t, p, Punct::Slash) {
        Some(Infix::Op(BinOp::Div))
    } else {
        None
    }
}

/// Two expressions joined by an infix operator.
pub open spec fn infixed(i: Infix, l: ExprV, r: ExprV) -> ExprV {
    match i {
        Infix::Op(op) => ExprV::Binop { op, expr1: Box::new(l), expr2: Box::new(r) },
        Infix::Span => ExprV::Range { start: Box::new(l), end: Box::new(r) },
    }
}

/// Names with commas between them.
pub open spec fn g_names(t: Seq<TokenV>, p: int, found: Seq<Symbol>) -> Parsed<Seq<Symbol>>
    decreases t.len() - p,
{
    match ident_at(t, p) {
        None => Err(p),
        Some(n) => if is_mark(t, p + 1, Punct::Comma) {
            g_names(t, p + 2, found.push(n))
        } else {
            Ok((found.push(n), p + 1))
        },
    }
}

/// An expression.
pub open spec fn g_expr(t: Seq<TokenV>, p: int) -> Parsed<ExprV>
    decreases t.len() - p, 20int,
{
    if is_word(t, p, Keyword::If) {
        g_if(t, p)
    } else if is_word(t, p, Keyword::Fn) {
        g_fn(t, p)
    } else if is_word(t, p, Keyword::Select) {
        g_select(t, p)
    } else if is_word(t, p, Keyword::Fold) {
        g_fold(t, p)
    } else if ident_at(t, p) is Some && is_mark(t, p + 1, Punct::Colon) {
        match g_expr(t, p + 2) {
            Err(e) => Err(e),
            Ok((value, q)) => Ok(
                (ExprV::KeyVal { name: ident_at(t, p)->0, value: Box::new(value) }, q),
            ),
        }
    } else {
        g_infix(t, p, 0)
    }
}

/// A choice between two expressions.
pub open spec fn g_if(t: Seq<TokenV>, p: int) -> Parsed<ExprV>
    decreases t.len() - p, 1int,
{
    if p < 0 || p >= t.len() {
        Err(p)
    } else {
        match g_expr(t, p + 1) {
            Err(e) => Err(e),
            Ok((cond, q)) => if !ends(t, p, q) || !is_word(t, q, Keyword::Then) {
                Err(q)
            } else {
                match g_expr(t, q + 1) {
                    Err(e) => Err(e),
                    Ok((a, r)) => if !ends(t, q, r) || !is_word(t, r, Keyword::Else) {
                        Err(r)
                    } else {
                        match g_expr(t, r + 1) {
                            Err(e) => Err(e),
                            Ok((b, s)) => Ok(
                                (
                                    ExprV::If {
                                        cond: Box::new(cond),
                                        expr1: Box::new(a),
                                        expr2: Box::new(b),
                                    },
                                    s,
                                ),
                            ),
                        }
                    },
                }
            },
        }
    }
}

/// A function.
pub open spec fn g_fn(t: Seq<TokenV>, p: int) -> Parsed<ExprV>
    decreases t.len() - p, 1int,
{
    match g_params(t, p + 1) {
        Err(e) => Err(e),
        Ok((params, q)) => if !(p >= 0 && ends(t, p, q)) || !is_mark(t, q, Punct::FatArrow) {
            Err(q)
        } else {
            match g_expr(t, q + 1) {
                Err(e) => Err(e),
                Ok((body, r)) => Ok(
                    (ExprV::Func { params, body: Box::new(body), return_ty: None }, r),
                ),
            }
        },
    }
}

/// A query of a table.
pub open spec fn g_select(t: Seq<TokenV>, p: int) -> Parsed<ExprV>
    decreases t.len() - p, 1int,
{
    match g_names(t, p + 1, Seq::empty()) {
        Err(e) => Err(e),
        Ok((column_names, q)) => if !is_word(t, q, Keyword::From) {
            Err(q)
        } else if ident_at(t, q + 1) is None {
            Err(q + 1)
        } else if !is_word(t, q + 2, Keyword::Where) {
            Err(q + 2)
        } else if !(p >= 0 && ends(t, p, q)) {
            Err(q)
        } else {
            match g_expr(t, q + 3) {
                Err(e) => Err(e),
                Ok((cond, r)) => Ok(
                    (
                        ExprV::Select {
                            table_name: ident_at(t, q + 1)->0,
                            column_names,
                            where_clause: Box::new(cond),
                        },
                        r,
                    ),
                ),
            }
        },
    }
}

/// The fold of a column.
pub open spec fn g_fold(t: Seq<TokenV>, p: int) -> Parsed<ExprV>
    decreases t.len() - p, 1int,
{
    if !is_mark(t, p + 1, Punct::LParen) {
        Err(p + 1)
    } else if ident_at(t, p + 2) is None {
        Err(p + 2)
    } else if !is_mark(t, p + 3, Punct::Dot) {
        Err(p + 3)
    } else if ident_at(t, p + 4) is None {
        Err(p + 4)
    } else if !is_mark(t, p + 5, Punct::Comma) {
        Err(p + 5)
    } else {
        match g_expr(t, p + 6) {
            Err(e) => Err(e),
            Ok((operation, q)) => if !ends(t, p, q) || !is_mark(t, q, Punct::Comma) {
                Err(q)
            } else {
                match g_expr(t, q + 1) {
                    Err(e) => Err(e),
                    Ok((identity, r)) => if !is_mark(t, r, Punct::RParen) {
                        Err(r)
                    } else {
                        Ok(
                            (
                                ExprV::Fold {
                                    table_name: ident_at(t, p + 2)->0,
                                    column_name: ident_at(t, p + 4)->0,
                                    operation: Box::new(operation),
                                    identity: Box::new(identity),
                                },
                                r + 1,
                            ),
                        )
                    },
                }
            },
        }
    }
}

/// Looser levels rest on tighter ones.
pub open spec fn infix_rank(level: int) -> int {
    if 0 <= level < LEVELS {
        12 - level
    } else {
        6
    }
}

/// Operands of a level joined by its operators, from the left.
pub open spec fn g_infix(t: Seq<TokenV>, p: int, level: int) -> Parsed<ExprV>
    decreases t.len() - p, infix_rank(level),
{
    if level < 0 || level >= LEVELS {
        g_unary(t, p)
    } else {
        match g_infix(t, p, level + 1) {
            Err(e) => Err(e),
            Ok((l, q)) => if ends(t, p, q) {
                g_infix_rest(t, q, level, l)
            } else {
                Err(q)
            },
        }
    }
}

/// What follows an operand of a level.
pub open spec fn g_infix_rest(t: Seq<TokenV>, p: int, level: int, l: ExprV) -> Parsed<ExprV>
    decreases t.len() - p, 1int,
{
    match infix_at(t, p, level) {
        None => Ok((l, p)),
        Some(i) => match g_infix(t, p + 1, level + 1) {
            Err(e) => Err(e),
            Ok((r, q)) => if ends(t, p, q) {
                g_infix_rest(t, q, level, infixed(i, l, r))
            } else {
                Err(q)
            },
        },
    }
}

/// An operand with signs before it.
pub open spec fn g_unary(t: Seq<TokenV>, p: int) -> Parsed<ExprV>
    decreases t.len() - p, 5int,
{
    if is_mark(t, p, Punct::Minus) {
        match g_unary(t, p + 1) {
            Err(e) => Err(e),
            Ok((e, q)) => Ok((ExprV::Unop { op: UnOp::Neg, expr: Box::new(e) }, q)),
        }
    } else if is_mark(t, p, Punct::Bang) {
        match g_unary(t, p + 1) {
            Err(e) => Err(e),
            Ok((e, q)) => Ok((ExprV::Unop { op: UnOp::Not, expr: Box::new(e) }, q)),
        }
    } else {
        match g_primary(t, p) {
            Err(e) => Err(e),
            Ok((e, q)) => if ends(t, p, q) {
                g_calls(t, q, e)
            } else {
                Err(q)
            },
        }
    }
}

/// The argument lists behind a callee.
pub open spec fn g_calls(t: Seq<TokenV>, p: int, f: ExprV) -> Parsed<ExprV>
    decreases t.len() - p, 1int,
{
    if is_mark(t, p, Punct::LParen) {
        match g_items(t, p + 1, Punct::RParen) {
            Err(e) => Err(e),
            Ok((args, q)) => if ends(t, p, q) {
                g_calls(t, q, ExprV::Call { func: Box::new(f), args })
            } else {
                Err(q)
            },
        }
    } else {
        Ok((f, p))
    }
}

/// Expressions with commas between them, up to a closing mark; possibly none.
pub open spec fn g_items(t: Seq<TokenV>, p: int, close: Punct) -> Parsed<Seq<ExprV>>
    decreases t.len() - p, 22int,
{
    if is_mark(t, p, close) {
        Ok((Seq::empty(), p + 1))
    } else {
        g_item_list(t, p, close, Seq::empty())
    }
}

/// Expressions with commas between them, up to a closing mark; at least one more.
pub open spec fn g_item_list(
    t: Seq<TokenV>,
    p: int,
    close: Punct,
    found: Seq<ExprV>,
) -> Parsed<Seq<ExprV>>
    decreases t.len() - p, 21int,
{
    match g_expr(t, p) {
        Err(e) => Err(e),
        Ok((e, q)) => if ends(t, p, q) && is_mark(t, q, Punct::Comma) {
            g_item_list(t, q + 1, close, found.push(e))
        } else if is_mark(t, q, close) {
            Ok((found.push(e), q + 1))
        } else {
            Err(q)
        },
    }
}

/// A literal, a name, a member, or something in brackets.
pub open spec fn g_primary(t: Seq<TokenV>, p: int) -> Parsed<ExprV>
    decreases t.len() - p, 3int,
{
    if p < 0 || p >= t.len() {
        Err(p)
    } else {
        match t[p] {
            TokenV::Num(val) => Ok((ExprV::Literal { val: ValueV::Int { val } }, p + 1)),
            TokenV::Str(val) => Ok((ExprV::Literal { val: ValueV::String { val } }, p + 1)),
            TokenV::Word(Keyword::True) => Ok(
                (ExprV::Literal { val: ValueV::Bool { val: true } }, p + 1),
            ),
            TokenV::Word(Keyword::False) => Ok(
                (ExprV::Literal { val: ValueV::Bool { val: false } }, p + 1),
            ),
            TokenV::Ident(name) => if is_mark(t, p + 1, Punct::Dot) {
                match ident_at(t, p + 2) {
                    Some(member_name) => Ok(
                        (ExprV::MemberAccess { service_name: name, member_name }, p + 3),
                    ),
                    None => Err(p + 2),
                }
            } else {
                Ok((ExprV::Variable { name }, p + 1))
            },
            TokenV::Mark(Punct::LBrace) => match g_items(t, p + 1, Punct::RBrace) {
                Err(e) => Err(e),
                Ok((val, q)) => Ok((ExprV::Tuple { val }, q)),
            },
            TokenV::Mark(Punct::LBracket) => match g_items(t, p + 1, Punct::RBracket) {
                Err(e) => Err(e),
                Ok((val, q)) => Ok((ExprV::List(val), q)),
            },
            TokenV::Mark(Punct::LParen) => match g_item_list(
                t,
                p + 1,
                Punct::RParen,
                Seq::empty(),
            ) {
                Err(e) => Err(e),
                Ok((val, q)) => if val.len() == 1 {
                    Ok((val[0], q))
                } else {
                    Ok((ExprV::Tuple { val }, q))
                },
            },
            TokenV::Word(Keyword::Action) => if is_mark(t, p + 1, Punct::LBrace) {
                match g_block(t, p + 2, Seq::empty()) {
                    Err(e) => Err(e),
                    Ok((stmts, q)) => Ok((ExprV::Action(stmts), q)),
                }
            } else {
                Err(p + 1)
            },
            TokenV::Markup(text, true, last) => if last {
                Ok((ExprV::Html(seq![HtmlPartV::Text(text)]), p + 1))
            } else {
                g_markup(t, p + 1, seq![HtmlPartV::Text(text)])
            },
            _ => Err(p),
        }
    }
}

/// The rest of a page, from an expression in it on.
pub open spec fn g_markup(t: Seq<TokenV>, p: int, found: Seq<HtmlPartV>) -> Parsed<ExprV>
    decreases t.len() - p, 21int,
{
    match g_expr(t, p) {
        Err(e) => Err(e),
        Ok((e, q)) => if !ends(t, p, q) || q >= t.len() {
            Err(q)
        } else {
            match t[q] {
                TokenV::Markup(text, false, last) => {
                    let parts = found.push(HtmlPartV::Expr(e)).push(HtmlPartV::Text(text));
                    if last {
                        Ok((ExprV::Html(parts), q + 1))
                    } else {
                        g_markup(t, q + 1, parts)
                    }
                },
                _ => Err(q),
            }
        },
    }
}

/// Statements up to a closing brace.
pub open spec fn g_block(t: Seq<TokenV>, p: int, found: Seq<ActionStmtV>) -> Parsed<
    Seq<ActionStmtV>,
>
    decreases t.len() - p, 24int,
{
    if is_mark(t, p, Punct::RBrace) {
        Ok((found, p + 1))
    } else {
        match g_action_stmt(t, p) {
            Err(e) => Err(e),
            Ok((s, q)) => if ends(t, p, q) {
                g_block(t, q, found.push(s))
            } else {
                Err(q)
            },
        }
    }
}

/// An expression and a semicolon.
pub open spec fn g_expr_semi(t: Seq<TokenV>, p: int) -> Parsed<ExprV>
    decreases t.len() - p, 21int,
{
    match g_expr(t, p) {
        Err(e) => Err(e),
        Ok((e, q)) => if is_mark(t, q, Punct::Semi) {
            Ok((e, q + 1))
        } else {
            Err(q)
        },
    }
}

/// The text that a failed assertion reports.
pub open spec fn assertion_text() -> Seq<char> {
    "assertion failed"@
}

/// A statement of an action.
pub open spec fn g_action_stmt(t: Seq<TokenV>, p: int) -> Parsed<ActionStmtV>
    decreases t.len() - p, 23int,
{
    if is_word(t, p, Keyword::Let) {
        match ident_at(t, p + 1) {
            None => Err(p + 1),
            Some(name) => match g_annotation(t, p + 2) {
                Err(e) => Err(e),
                Ok((ty, q)) => if !ends(t, p, q) || !is_mark(t, q, Punct::Eq) {
                    Err(q)
                } else {
                    match g_expr_semi(t, q + 1) {
                        Err(e) => Err(e),
                        Ok((expr, r)) => Ok((ActionStmtV::Let { name, ty, expr }, r)),
                    }
                },
            },
        }
    } else if is_word(t, p, Keyword::Do) {
        match g_expr_semi(t, p + 1) {
            Err(e) => Err(e),
            Ok((e, q)) => Ok((ActionStmtV::Do(e), q)),
        }
    } else if is_word(t, p, Keyword::Assert) {
        if !is_mark(t, p + 1, Punct::LParen) {
            Err(p + 1)
        } else {
            match g_expr(t, p + 2) {
                Err(e) => Err(e),
                Ok((e, q)) => if !is_mark(t, q, Punct::RParen) {
                    Err(q)
                } else if !is_mark(t, q + 1, Punct::Semi) {
                    Err(q + 1)
                } else {
                    Ok((ActionStmtV::Assert(e, assertion_text()), q + 2))
                },
            }
        }
    } else if is_word(t, p, Keyword::Insert) {
        match g_expr(t, p + 1) {
            Err(e) => Err(e),
            Ok((row, q)) => if !is_word(t, q, Keyword::Into) {
                Err(q)
            } else {
                match ident_at(t, q + 1) {
                    None => Err(q + 1),
                    Some(table_name) => Ok((ActionStmtV::Insert { table_name, row }, q + 2)),
                }
            },
        }
    } else if ident_at(t, p) is Some && is_mark(t, p + 1, Punct::Eq) {
        match g_expr_semi(t, p + 2) {
            Err(e) => Err(e),
            Ok((expr, q)) => Ok((ActionStmtV::Assign { name: ident_at(t, p)->0, expr }, q)),
        }
    } else {
        match g_expr_semi(t, p) {
            Err(e) => Err(e),
            Ok((e, q)) => Ok((ActionStmtV::Expr(e), q)),
        }
    }
}

/// The type of a column.
pub open spec fn g_column_type(t: Seq<TokenV>, p: int) -> Option<TypeV> {
    if is_word(t, p, Keyword::Int) {
        Some(TypeV::Int)
    } else if is_word(t, p, Keyword::String) {
        Some(TypeV::String)
    } else if is_word(t, p, Keyword::Bool) {
        Some(TypeV::Bool)
    } else {
        None
    }
}

/// The columns of a table, each with a comma behind it, up to a closing brace.
pub open spec fn g_fields(t: Seq<TokenV>, p: int, found: Seq<FieldV>) -> Parsed<Seq<FieldV>>
    decreases t.len() - p,
{
    if is_mark(t, p, Punct::RBrace) {
        Ok((found, p + 1))
    } else {
        match ident_at(t, p) {
            None => Err(p),
            Some(name) => if !is_mark(t, p + 1, Punct::Colon) {
                Err(p + 1)
            } else {
                match g_column_type(t, p + 2) {
                    None => Err(p + 2),
                    Some(ty) => if !is_mark(t, p + 3, Punct::Comma) {
                        Err(p + 3)
                    } else {
                        g_fields(t, p + 4, found.push(FieldV { name, ty }))
                    },
                }
            },
        }
    }
}

/// What follows the word that opens a variable or a definition: its name, type and expression.
#[verifier::opaque]
pub open spec fn g_binding(t: Seq<TokenV>, p: int) -> Parsed<(Symbol, Option<TypeV>, ExprV)> {
    match ident_at(t, p) {
        None => Err(p),
        Some(name) => match g_annotation(t, p + 1) {
            Err(e) => Err(e),
            Ok((ty, q)) => if !is_mark(t, q, Punct::Eq) {
                Err(q)
            } else {
                match g_expr_semi(t, q + 1) {
                    Err(e) => Err(e),
                    Ok((val, r)) => Ok(((name, ty, val), r)),
                }
            },
        },
    }
}

/// A declaration.
#[verifier::opaque]
pub open spec fn g_decl(t: Seq<TokenV>, p: int) -> Parsed<DeclV> {
    if is_word(t, p, Keyword::Var) {
        match g_binding(t, p + 1) {
            Err(e) => Err(e),
            Ok((b, q)) => Ok((DeclV::VarDecl { name: b.0, ty: b.1, val: b.2 }, q)),
        }
    } else if is_word(t, p, Keyword::Def) {
        match g_binding(t, p + 1) {
            Err(e) => Err(e),
            Ok((b, q)) => Ok((DeclV::DefDecl { name: b.0, ty: b.1, val: b.2, is_pub: false }, q)),
        }
    } else if is_word(t, p, Keyword::Pub) {
        if !is_word(t, p + 1, Keyword::Def) {
            Err(p + 1)
        } else {
            match g_binding(t, p + 2) {
                Err(e) => Err(e),
                Ok((b, q)) => Ok(
                    (DeclV::DefDecl { name: b.0, ty: b.1, val: b.2, is_pub: true }, q),
                ),
            }
        }
    } else if is_word(t, p, Keyword::Table) {
        match ident_at(t, p + 1) {
            None => Err(p + 1),
            Some(name) => if !is_mark(t, p + 2, Punct::LBrace) {
                Err(p + 2)
            } else {
                match g_fields(t, p + 3, Seq::empty()) {
                    Err(e) => Err(e),
                    Ok((fields, q)) => if !is_mark(t, q, Punct::Semi) {
                        Err(q)
                    } else {
                        Ok((DeclV::TableDecl { name, fields }, q + 1))
                    },
                }
            },
        }
    } else {
        Err(p)
    }
}

/// Declarations up to a closing brace.
pub open spec fn g_decls(t: Seq<TokenV>, p: int, found: Seq<DeclV>) -> Parsed<Seq<DeclV>>
    decreases t.len() - p,
{
    if is_mark(t, p, Punct::RBrace) {
        Ok((found, p + 1))
    } else {
        match g_decl(t, p) {
            Err(e) => Err(e),
            Ok((d, q)) => if ends(t, p, q) {
                g_decls(t, q, found.push(d))
            } else {
                Err(q)
            },
        }
    }
}

/// What follows the word that opens a service or an update: a name, and declarations in braces.
#[verifier::opaque]
pub open spec fn g_service(t: Seq<TokenV>, p: int) -> Parsed<(Symbol, Seq<DeclV>)> {
    match ident_at(t, p) {
        None => Err(p),
        Some(name) => if !is_mark(t, p + 1, Punct::LBrace) {
            Err(p + 1)
        } else {
            match g_decls(t, p + 2, Seq::empty()) {
                Err(e) => Err(e),
                Ok((decls, q)) => Ok(((name, decls), q)),
            }
        },
    }
}

/// Updates up to a closing brace.
pub open spec fn g_updates(t: Seq<TokenV>, p: int, found: Seq<StmtV>) -> Parsed<Seq<StmtV>>
    decreases t.len() - p,
{
    if is_mark(t, p, Punct::RBrace) {
        Ok((found, p + 1))
    } else if !is_word(t, p, Keyword::Update) {
        Err(p)
    } else {
        match g_service(t, p + 1) {
            Err(e) => Err(e),
            Ok((s, q)) => if ends(t, p, q) {
                g_updates(t, q, found.push(StmtV::Update { service_name: s.0, decls: s.1 }))
            } else {
                Err(q)
            },
        }
    }
}

/// The file that an import of a service reads.
pub open spec fn import_path(name: Seq<char>) -> Seq<char> {
    name + ".mkt"@
}

/// A top-level statement. `names` are the interned names.
#[verifier::opaque]
pub open spec fn g_stmt(t: Seq<TokenV>, p: int, names: Seq<Seq<char>>) -> Parsed<StmtV> {
    if is_word(t, p, Keyword::Service) {
        match g_service(t, p + 1) {
            Err(e) => Err(e),
            Ok((s, q)) => Ok((StmtV::Service { name: s.0, decls: s.1 }, q)),
        }
    } else if is_word(t, p, Keyword::Update) {
        match g_service(t, p + 1) {
            Err(e) => Err(e),
            Ok((s, q)) => Ok((StmtV::Update { service_name: s.0, decls: s.1 }, q)),
        }
    } else if is_word(t, p, Keyword::Atomic) {
        if !is_mark(t, p + 1, Punct::LBrace) {
            Err(p + 1)
        } else {
            match g_updates(t, p + 2, Seq::empty()) {
                Err(e) => Err(e),
                Ok((updates, q)) => Ok((StmtV::Atomic { updates }, q)),
            }
        }
    } else if is_word(t, p, Keyword::Import) {
        match ident_at(t, p + 1) {
            None => Err(p + 1),
            Some(service_name) => Ok(
                (
                    StmtV::Import { path: import_path(names[service_name as int]), service_name },
                    p + 2,
                ),
            ),
        }
    } else if is_word(t, p, Keyword::Watch) {
        match g_expr_semi(t, p + 1) {
            Err(e) => Err(e),
            Ok((expr, q)) => Ok((StmtV::Watch { expr }, q)),
        }
    } else if is_word(t, p, Keyword::Test) {
        if !is_mark(t, p + 1, Punct::LParen) {
            Err(p + 1)
        } else if ident_at(t, p + 2) is None {
            Err(p + 2)
        } else if !is_mark(t, p + 3, Punct::RParen) {
            Err(p + 3)
        } else if !is_mark(t, p + 4, Punct::LBrace) {
            Err(p + 4)
        } else {
            match g_block(t, p + 5, Seq::empty()) {
                Err(e) => Err(e),
                Ok((stmts, q)) => Ok(
                    (StmtV::Test { service_name: ident_at(t, p + 2)->0, stmts }, q),
                ),
            }
        }
    } else {
        match g_action_stmt(t, p) {
            Err(e) => Err(e),
            Ok((s, q)) => Ok((StmtV::ActionStmt(s), q)),
        }
    }
}

/// Statements up to the end of the tokens.
pub open spec fn g_program(
    t: Seq<TokenV>,
    p: int,
    names: Seq<Seq<char>>,
    found: Seq<StmtV>,
) -> Result<Seq<StmtV>, int>
    decreases t.len() - p,
{
    if p >= t.len() {
        Ok(found)
    } else {
        match g_stmt(t, p, names) {
            Err(e) => Err(e),
            Ok((s, q)) => if ends(t, p, q) {
                g_program(t, q, names, found.push(s))
            } else {
                Err(q)
            },
        }
    }
}

/// Whether a parser's result is the tree and position that the grammar gives, behind `p`.
pub open spec fn agrees<T: View>(
    res: Result<(T, usize), usize>,
    spec: Parsed<T::V>,
    t: Seq<TokenV>,
    p: int,
) -> bool {
    match res {
        Ok((x, q)) => spec == Ok::<(T::V, int), int>((x@, q as int)) && ends(t, p, q as int),
        Err(e) => spec == Err::<(T::V, int), int>(e as int),
    }
}

/// Whether a parser's list is the list and position that the grammar gives, behind `p`.
pub open spec fn agrees_list<T: View>(
    res: Result<(Vec<T>, usize), usize>,
    spec: Parsed<Seq<T::V>>,
    t: Seq<TokenV>,
    p: int,
) -> bool {
    match res {
        Ok((x, q)) => spec == Ok::<(Seq<T::V>, int), int>((types::views(x@), q as int)) && ends(
            t,
            p,
            q as int,
        ),
        Err(e) => spec == Err::<(Seq<T::V>, int), int>(e as int),
    }
}

fn mark_at(toks: &Vec<Token>, p: usize, m: Punct) -> (res: bool)
    ensures
        res == is_mark(types::views(toks@), p as int, m),
        toks@.len() <= usize::MAX,
{
    if p < toks.len() {
        match &toks[p] {
            Token::Mark(x) => *x == m,
            _ => false,
        }
    } else {
        false
    }
}

fn word_at(toks: &Vec<Token>, p: usize, k: Keyword) -> (res: bool)
    ensures
        res == is_word(types::views(toks@), p as int, k),
        toks@.len() <= usize::MAX,
{
    if p < toks.len() {
        match &toks[p] {
            Token::Word(x) => *x == k,
            _ => false,
        }
    } else {
        false
    }
}

fn name_at(toks: &Vec<Token>, p: usize) -> (res: Option<Symbol>)
    ensures
        res == ident_at(types::views(toks@), p as int),
        toks@.len() <= usize::MAX,
{
    if p < toks.len() {
        match &toks[p] {
            Token::Ident(n) => Some(*n),
            _ => None,
        }
    } else {
        None
    }
}

fn one_type(ty: Type) -> (res: Vec<Type>)
    ensures
        types::views(res@) == seq![ty@],
{
    let mut res: Vec<Type> = Vec::new();
    res.push(ty);
    assert(types::views(res@) =~= seq![ty@]);
    res
}

fn parse_type_atom(toks: &Vec<Token>, p: usize) -> (res: Result<(Vec<Type>, usize), usize>)
    requires
        p <= toks@.len(),
    ensures
        agrees_list(res, g_type_atom(types::views(toks@), p as int), types::views(toks@), p as int),
    decreases toks@.len() - p, 1int,
{
    if word_at(toks, p, Keyword::Int) {
        Ok((one_type(Type::Int), p + 1))
    } else if word_at(toks, p, Keyword::String) {
        Ok((one_type(Type::String), p + 1))
    } else if word_at(toks, p, Keyword::Bool) {
        Ok((one_type(Type::Bool), p + 1))
    } else if word_at(toks, p, Keyword::Unit) {
        Ok((one_type(Type::Unit), p + 1))
    } else if mark_at(toks, p, Punct::LParen) {
        if mark_at(toks, p + 1, Punct::RParen) {
            let none: Vec<Type> = Vec::new();
            assert(types::views(none@) =~= Seq::<TypeV>::empty());
            Ok((none, p + 2))
        } else {
            let (ts, q) = match parse_types(toks, p + 1) {
                Ok(parsed) => parsed,
                Err(e) => {
                    return Err(e);
                },
            };
            if mark_at(toks, q, Punct::RParen) {
                Ok((ts, q + 1))
            } else {
                Err(q)
            }
        }
    } else {
        Err(p)
    }
}

fn parse_type(toks: &Vec<Token>, p: usize) -> (res: Result<(Type, usize), usize>)
    requires
        p <= toks@.len(),
    ensures
        agrees(res, g_type(types::views(toks@), p as int), types::views(toks@), p as int),
    decreases toks@.len() - p, 2int,
{
    let (mut ts, q) = match parse_type_atom(toks, p) {
        Ok(parsed) => parsed,
        Err(e) => {
            return Err(e);
        },
    };
    if mark_at(toks, q, Punct::Arrow) {
        let (ret, r) = match parse_type(toks, q + 1) {
            Ok(parsed) => parsed,
            Err(e) => {
                return Err(e);
            },
        };
        let res = Type::Func { params: ts, ret: Box::new(ret) };
        proof {
            types::lemma_type_view(res);
        }
        Ok((res, r))
    } else if ts.len() == 0 {
        Err(q)
    } else if ts.len() == 1 {
        let ghost all = types::views(ts@);
        let ty = ts.remove(0);
        assert(all[0] == ty@);
        Ok((ty, q))
    } else {
        let res = Type::Tuple(ts);
        proof {
            types::lemma_type_view(res);
        }
        Ok((res, q))
    }
}

fn parse_types(toks: &Vec<Token>, p: usize) -> (res: Result<(Vec<Type>, usize), usize>)
    requires
        p <= toks@.len(),
    ensures
        agrees_list(
            res,
            g_types(types::views(toks@), p as int, Seq::empty()),
            types::views(toks@),
            p as int,
        ),
    decreases toks@.len() - p, 3int,
{
    let ghost t = types::views(toks@);
    let mut found: Vec<Type> = Vec::new();
    assert(types::views(found@) =~= Seq::<TypeV>::empty());
    let mut q: usize = p;
    loop
        invariant
            p <= q <= toks@.len(),
            t == types::views(toks@),
            g_types(t, p as int, Seq::empty()) == g_types(t, q as int, types::views(found@)),
        decreases toks@.len() - q,
    {
        let (ty, r) = match parse_type(toks, q) {
            Ok(parsed) => parsed,
            Err(e) => {
                return Err(e);
            },
        };
        found.push(ty);
        if mark_at(toks, r, Punct::Comma) {
            q = r + 1;
        } else {
            return Ok((found, r));
        }
    }
}

fn parse_annotation(toks: &Vec<Token>, p: usize) -> (res: Result<(Option<Type>, usize), usize>)
    requires
        p <= toks@.len(),
    ensures
        match res {
            Ok((ty, q)) => g_annotation(types::views(toks@), p as int) == Ok::<
                (Option<TypeV>, int),
                int,
            >((types::opt_view(ty), q as int)) && p <= q <= toks@.len(),
            Err(e) => g_annotation(types::views(toks@), p as int) == Err::<
                (Option<TypeV>, int),
                int,
            >(e as int),
        },
{
    proof {
        reveal(g_annotation);
    }
    if mark_at(toks, p, Punct::Colon) {
        let (ty, q) = match parse_type(toks, p + 1) {
            Ok(parsed) => parsed,
            Err(e) => {
                return Err(e);
            },
        };
        Ok((Some(ty), q))
    } else {
        Ok((None, p))
    }
}

fn parse_param_list(toks: &Vec<Token>, p: usize) -> (res: Result<(Vec<Param>, usize), usize>)
    requires
        p <= toks@.len(),
    ensures
        agrees_list(
            res,
            g_param_list(types::views(toks@), p as int, Seq::empty()),
            types::views(toks@),
            p as int,
        ),
{
    let ghost t = types::views(toks@);
    let mut found: Vec<Param> = Vec::new();
    assert(types::views(found@) =~= Seq::<ParamV>::empty());
    let mut q: usize = p;
    loop
        invariant
            p <= q <= toks@.len(),
            t == types::views(toks@),
            g_param_list(t, p as int, Seq::empty()) == g_param_list(
                t,
                q as int,
                types::views(found@),
            ),
        decreases toks@.len() - q,
    {
        match name_at(toks, q) {
            None => {
                return Err(q);
            },
            Some(name) => {
                let (ty, r) = match parse_annotation(toks, q + 1) {
                    Ok(parsed) => parsed,
                    Err(e) => {
                        return Err(e);
                    },
                };
                found.push(Param { name, ty });
                if mark_at(toks, r, Punct::Comma) {
                    q = r + 1;
                } else if mark_at(toks, r, Punct::RParen) {
                    return Ok((found, r + 1));
                } else {
                    return Err(r);
                }
            },
        }
    }
}

fn parse_params(toks: &Vec<Token>, p: usize) -> (res: Result<(Vec<Param>, usize), usize>)
    requires
        p <= toks@.len(),
    ensures
        agrees_list(res, g_params(types::views(toks@), p as int), types::views(toks@), p as int),
{
    proof {
        reveal(g_params);
    }
    match name_at(toks, p) {
        Some(name) => {
            let mut params: Vec<Param> = Vec::new();
            params.push(Param { name, ty: None });
            assert(types::views(params@) =~= seq![ParamV { name, ty: None }]);
            Ok((params, p + 1))
        },
        None => {
            if mark_at(toks, p, Punct::LParen) {
                if mark_at(toks, p + 1, Punct::RParen) {
                    let params: Vec<Param> = Vec::new();
                    assert(types::views(params@) =~= Seq::<ParamV>::empty());
                    Ok((params, p + 2))
                } else {
                    parse_param_list(toks, p + 1)
                }
            } else {
                Err(p)
            }
        },
    }
}

fn operator_at(toks: &Vec<Token>, p: usize, level: u8) -> (res: Option<Infix>)
    ensures
        res == infix_at(types::views(toks@), p as int, level as int),
{
    if level == 0 && mark_at(toks, p, Punct::OrOr) {
        Some(Infix::Op(BinOp::Or))
    } else if level == 1 && mark_at(toks, p, Punct::AndAnd) {
        Some(Infix::Op(BinOp::And))
    } else if level == 2 && mark_at(toks, p, Punct::EqEq) {
        Some(Infix::Op(BinOp::Eq))
    } else if level == 2 && mark_at(toks, p, Punct::Lt) {
        Some(Infix::Op(BinOp::Lt))
    } else if level == 2 && mark_at(toks, p, Punct::Gt) {
        Some(Infix::Op(BinOp::Gt))
    } else if level == 3 && mark_at(toks, p, Punct::DotDot) {
        Some(Infix::Span)
    } else if level == 4 && mark_at(toks, p, Punct::Plus) {
        Some(Infix::Op(BinOp::Add))
    } else if level == 4 && mark_at(toks, p, Punct::Minus) {
        Some(Infix::Op(BinOp::Sub))
    } else if level == 5 && mark_at(toks, p, Punct::Star) {
        Some(Infix::Op(BinOp::Mul))
    } else if level == 5 && mark_at(toks, p, Punct::Slash) {
        Some(Infix::Op(BinOp::Div))
    } else {
        None
    }
}

fn parse_names(toks: &Vec<Token>, p: usize) -> (res: Result<(Vec<Symbol>, usize), usize>)
    requires
        p <= toks@.len(),
    ensures
        agrees(
            res,
            g_names(types::views(toks@), p as int, Seq::empty()),
            types::views(toks@),
            p as int,
        ),
{
    let ghost t = types::views(toks@);
    let mut found: Vec<Symbol> = Vec::new();
    let mut q: usize = p;
    loop
        invariant
            p <= q <= toks@.len(),
            t == types::views(toks@),
            g_names(t, p as int, Seq::empty()) == g_names(t, q as int, found@),
        decreases toks@.len() - q,
    {
        match name_at(toks, q) {
            None => {
                return Err(q);
            },
            Some(n) => {
                found.push(n);
                if mark_at(toks, q + 1, Punct::Comma) {
                    q = q + 2;
                } else {
                    return Ok((found, q + 1));
                }
            },
        }
    }
}

fn parse_expr(toks: &Vec<Token>, p: usize) -> (res: Result<(Expr, usize), usize>)
    requires
        p <= toks@.len(),
    ensures
        agrees(res, g_expr(types::views(toks@), p as int), types::views(toks@), p as int),
    decreases toks@.len() - p, 20int,
{
    if word_at(toks, p, Keyword::If) {
        parse_if(toks, p)
    } else if word_at(toks, p, Keyword::Fn) {
        parse_fn(toks, p)
    } else if word_at(toks, p, Keyword::Select) {
        parse_select(toks, p)
    } else if word_at(toks, p, Keyword::Fold) {
        parse_fold(toks, p)
    } else {
        match name_at(toks, p) {
            Some(name) => {
                if mark_at(toks, p + 1, Punct::Colon) {
                    let (value, q) = match parse_expr(toks, p + 2) {
                        Ok(parsed) => parsed,
                        Err(e) => {
                            return Err(e);
                        },
                    };
                    return Ok((Expr::KeyVal { name, value: Box::new(value) }, q));
                }
            },
            None => {},
        }
        parse_infix(toks, p, 0)
    }
}

fn parse_if(toks: &Vec<Token>, p: usize) -> (res: Result<(Expr, usize), usize>)
    requires
        p < toks@.len(),
    ensures
        agrees(res, g_if(types::views(toks@), p as int), types::views(toks@), p as int),
    decreases toks@.len() - p, 1int,
{
    let _count: usize = toks.len();
    let (cond, q) = match parse_expr(toks, p + 1) {
        Ok(parsed) => parsed,
        Err(e) => {
            return Err(e);
        },
    };
    if !word_at(toks, q, Keyword::Then) {
        return Err(q);
    }
    let (a, r) = match parse_expr(toks, q + 1) {
        Ok(parsed) => parsed,
        Err(e) => {
            return Err(e);
        },
    };
    if !word_at(toks, r, Keyword::Else) {
        return Err(r);
    }
    let (b, s) = match parse_expr(toks, r + 1) {
        Ok(parsed) => parsed,
        Err(e) => {
            return Err(e);
        },
    };
    Ok((Expr::If { cond: Box::new(cond), expr1: Box::new(a), expr2: Box::new(b) }, s))
}

fn parse_fn(toks: &Vec<Token>, p: usize) -> (res: Result<(Expr, usize), usize>)
    requires
        p < toks@.len(),
    ensures
        agrees(res, g_fn(types::views(toks@), p as int), types::views(toks@), p as int),
    decreases toks@.len() - p, 1int,
{
    let _count: usize = toks.len();
    let (params, q) = match parse_params(toks, p + 1) {
        Ok(parsed) => parsed,
        Err(e) => {
            return Err(e);
        },
    };
    if !mark_at(toks, q, Punct::FatArrow) {
        return Err(q);
    }
    let (body, r) = match parse_expr(toks, q + 1) {
        Ok(parsed) => parsed,
        Err(e) => {
            return Err(e);
        },
    };
    Ok((Expr::Func { params, body: Box::new(body), return_ty: None }, r))
}

fn parse_select(toks: &Vec<Token>, p: usize) -> (res: Result<(Expr, usize), usize>)
    requires
        p < toks@.len(),
    ensures
        agrees(res, g_select(types::views(toks@), p as int), types::views(toks@), p as int),
    decreases toks@.len() - p, 1int,
{
    let _count: usize = toks.len();
    let (column_names, q) = match parse_names(toks, p + 1) {
        Ok(parsed) => parsed,
        Err(e) => {
            return Err(e);
        },
    };
    if !word_at(toks, q, Keyword::From) {
        return Err(q);
    }
    match name_at(toks, q + 1) {
        None => Err(q + 1),
        Some(table_name) => {
            if !word_at(toks, q + 2, Keyword::Where) {
                return Err(q + 2);
            }
            let (cond, r) = match parse_expr(toks, q + 3) {
                Ok(parsed) => parsed,
                Err(e) => {
                    return Err(e);
                },
            };
            Ok((Expr::Select { table_name, column_names, where_clause: Box::new(cond) }, r))
        },
    }
}

fn parse_fold(toks: &Vec<Token>, p: usize) -> (res: Result<(Expr, usize), usize>)
    requires
        p < toks@.len(),
    ensures
        agrees(res, g_fold(types::views(toks@), p as int), types::views(toks@), p as int),
    decreases toks@.len() - p, 1int,
{
    let _count: usize = toks.len();
    if !mark_at(toks, p + 1, Punct::LParen) {
        return Err(p + 1);
    }
    let table_name = match name_at(toks, p + 2) {
        Some(n) => n,
        None => {
            return Err(p + 2);
        },
    };
    if !mark_at(toks, p + 3, Punct::Dot) {
        return Err(p + 3);
    }
    let column_name = match name_at(toks, p + 4) {
        Some(n) => n,
        None => {
            return Err(p + 4);
        },
    };
    if !mark_at(toks, p + 5, Punct::Comma) {
        return Err(p + 5);
    }
    let (operation, q) = match parse_expr(toks, p + 6) {
        Ok(parsed) => parsed,
        Err(e) => {
            return Err(e);
        },
    };
    if !mark_at(toks, q, Punct::Comma) {
        return Err(q);
    }
    let (identity, r) = match parse_expr(toks, q + 1) {
        Ok(parsed) => parsed,
        Err(e) => {
            return Err(e);
        },
    };
    if !mark_at(toks, r, Punct::RParen) {
        return Err(r);
    }
    Ok(
        (
            Expr::Fold {
                table_name,
                column_name,
                operation: Box::new(operation),
                identity: Box::new(identity),
            },
            r + 1,
        ),
    )
}

fn parse_infix(toks: &Vec<Token>, p: usize, level: u8) -> (res: Result<(Expr, usize), usize>)
    requires
        p <= toks@.len(),
        level <= LEVELS,
    ensures
        agrees(
            res,
            g_infix(types::views(toks@), p as int, level as int),
            types::views(toks@),
            p as int,
        ),
    decreases toks@.len() - p, infix_rank(level as int),
{
    if level >= LEVELS {
        return parse_unary(toks, p);
    }
    let ghost t = types::views(toks@);
    let (first, first_end) = match parse_infix(toks, p, level + 1) {
        Ok(parsed) => parsed,
        Err(e) => {
            return Err(e);
        },
    };
    let mut left = first;
    let mut q: usize = first_end;
    loop
        invariant
            p < q <= toks@.len(),
            level < LEVELS,
            t == types::views(toks@),
            g_infix(t, p as int, level as int) == g_infix_rest(t, q as int, level as int, left@),
        decreases toks@.len() - q,
    {
        let _count: usize = toks.len();
        match operator_at(toks, q, level) {
            None => {
                return Ok((left, q));
            },
            Some(i) => {
                let (right, r) = match parse_infix(toks, q + 1, level + 1) {
                    Ok(parsed) => parsed,
                    Err(e) => {
                        return Err(e);
                    },
                };
                left = match i {
                    Infix::Op(op) => Expr::Binop {
                        op,
                        expr1: Box::new(left),
                        expr2: Box::new(right),
                    },
                    Infix::Span => Expr::Range { start: Box::new(left), end: Box::new(right) },
                };
                q = r;
            },
        }
    }
}

fn parse_unary(toks: &Vec<Token>, p: usize) -> (res: Result<(Expr, usize), usize>)
    requires
        p <= toks@.len(),
    ensures
        agrees(res, g_unary(types::views(toks@), p as int), types::views(toks@), p as int),
    decreases toks@.len() - p, 5int,
{
    if mark_at(toks, p, Punct::Minus) {
        let (e, q) = match parse_unary(toks, p + 1) {
            Ok(parsed) => parsed,
            Err(e) => {
                return Err(e);
            },
        };
        Ok((Expr::Unop { op: UnOp::Neg, expr: Box::new(e) }, q))
    } else if mark_at(toks, p, Punct::Bang) {
        let (e, q) = match parse_unary(toks, p + 1) {
            Ok(parsed) => parsed,
            Err(e) => {
                return Err(e);
            },
        };
        Ok((Expr::Unop { op: UnOp::Not, expr: Box::new(e) }, q))
    } else {
        let ghost t = types::views(toks@);
        let (callee, callee_end) = match parse_primary(toks, p) {
            Ok(parsed) => parsed,
            Err(e) => {
                return Err(e);
            },
        };
        let mut f = callee;
        let mut q: usize = callee_end;
        while mark_at(toks, q, Punct::LParen)
            invariant
                p < q <= toks@.len(),
                t == types::views(toks@),
                !is_mark(t, p as int, Punct::Minus),
                !is_mark(t, p as int, Punct::Bang),
                g_unary(t, p as int) == g_calls(t, q as int, f@),
            decreases toks@.len() - q,
        {
            let (args, r) = match parse_items(toks, q + 1, Punct::RParen) {
                Ok(parsed) => parsed,
                Err(e) => {
                    return Err(e);
                },
            };
            f = Expr::Call { func: Box::new(f), args };
            proof {
                ast::lemma_expr_view(f);
            }
            q = r;
        }
        Ok((f, q))
    }
}

fn parse_items(toks: &Vec<Token>, p: usize, close: Punct) -> (res: Result<
    (Vec<Expr>, usize),
    usize,
>)
    requires
        p <= toks@.len(),
    ensures
        agrees_list(
            res,
            g_items(types::views(toks@), p as int, close),
            types::views(toks@),
            p as int,
        ),
    decreases toks@.len() - p, 22int,
{
    if mark_at(toks, p, close) {
        let none: Vec<Expr> = Vec::new();
        assert(types::views(none@) =~= Seq::<ExprV>::empty());
        Ok((none, p + 1))
    } else {
        parse_item_list(toks, p, close)
    }
}

fn parse_item_list(toks: &Vec<Token>, p: usize, close: Punct) -> (res: Result<
    (Vec<Expr>, usize),
    usize,
>)
    requires
        p <= toks@.len(),
    ensures
        agrees_list(
            res,
            g_item_list(types::views(toks@), p as int, close, Seq::empty()),
            types::views(toks@),
            p as int,
        ),
    decreases toks@.len() - p, 21int,
{
    let ghost t = types::views(toks@);
    let mut found: Vec<Expr> = Vec::new();
    assert(types::views(found@) =~= Seq::<ExprV>::empty());
    let mut q: usize = p;
    loop
        invariant
            p <= q <= toks@.len(),
            t == types::views(toks@),
            g_item_list(t, p as int, close, Seq::empty()) == g_item_list(
                t,
                q as int,
                close,
                types::views(found@),
            ),
        decreases toks@.len() - q,
    {
        let (e, r) = match parse_expr(toks, q) {
            Ok(parsed) => parsed,
            Err(e) => {
                return Err(e);
            },
        };
        found.push(e);
        if mark_at(toks, r, Punct::Comma) {
            q = r + 1;
        } else if mark_at(toks, r, close) {
            return Ok((found, r + 1));
        } else {
            return Err(r);
        }
    }
}

/// The rest of a page, from an expression in it on, behind the parts found before.
fn parse_markup(toks: &Vec<Token>, p: usize, parts: Vec<HtmlPart>) -> (res: Result<
    (Expr, usize),
    usize,
>)
    requires
        p <= toks@.len(),
    ensures
        agrees(
            res,
            g_markup(types::views(toks@), p as int, types::views(parts@)),
            types::views(toks@),
            p as int,
        ),
    decreases toks@.len() - p, 21int,
{
    let (e, q) = match parse_expr(toks, p) {
        Ok(parsed) => parsed,
        Err(e) => {
            return Err(e);
        },
    };
    if q >= toks.len() {
        return Err(q);
    }
    assert(types::views(toks@)[q as int] == toks@[q as int]@);
    match &toks[q] {
        Token::Markup(text, false, last) => {
            let mut parts = parts;
            parts.push(HtmlPart::Expr(e));
            parts.push(HtmlPart::Text(text.clone()));
            if *last {
                Ok((Expr::Html(HtmlTemplate { parts }), q + 1))
            } else {
                parse_markup(toks, q + 1, parts)
            }
        },
        _ => Err(q),
    }
}

fn parse_primary(toks: &Vec<Token>, p: usize) -> (res: Result<(Expr, usize), usize>)
    requires
        p <= toks@.len(),
    ensures
        agrees(res, g_primary(types::views(toks@), p as int), types::views(toks@), p as int),
    decreases toks@.len() - p, 3int,
{
    if p >= toks.len() {
        return Err(p);
    }
    assert(types::views(toks@)[p as int] == toks@[p as int]@);
    match &toks[p] {
        Token::Num(val) => Ok((Expr::Literal { val: Value::Int { val: *val } }, p + 1)),
        Token::Str(val) => Ok((Expr::Literal { val: Value::String { val: val.clone() } }, p + 1)),
        Token::Word(Keyword::True) => Ok((Expr::Literal { val: Value::Bool { val: true } }, p + 1)),
        Token::Word(Keyword::False) => Ok(
            (Expr::Literal { val: Value::Bool { val: false } }, p + 1),
        ),
        Token::Ident(name) => {
            if mark_at(toks, p + 1, Punct::Dot) {
                match name_at(toks, p + 2) {
                    Some(member_name) => Ok(
                        (Expr::MemberAccess { service_name: *name, member_name }, p + 3),
                    ),
                    None => Err(p + 2),
                }
            } else {
                Ok((Expr::Variable { name: *name }, p + 1))
            }
        },
        Token::Mark(Punct::LBrace) => {
            let (val, q) = match parse_items(toks, p + 1, Punct::RBrace) {
                Ok(parsed) => parsed,
                Err(e) => {
                    return Err(e);
                },
            };
            let res = Expr::Tuple { val };
            proof {
                ast::lemma_expr_view(res);
            }
            Ok((res, q))
        },
        Token::Mark(Punct::LBracket) => {
            let (val, q) = match parse_items(toks, p + 1, Punct::RBracket) {
                Ok(parsed) => parsed,
                Err(e) => {
                    return Err(e);
                },
            };
            let res = Expr::List(val);
            proof {
                ast::lemma_expr_view(res);
            }
            Ok((res, q))
        },
        Token::Mark(Punct::LParen) => {
            let (mut val, q) = match parse_item_list(toks, p + 1, Punct::RParen) {
                Ok(parsed) => parsed,
                Err(e) => {
                    return Err(e);
                },
            };
            if val.len() == 1 {
                let ghost all = types::views(val@);
                let e = val.remove(0);
                assert(all[0] == e@);
                Ok((e, q))
            } else {
                let res = Expr::Tuple { val };
                proof {
                    ast::lemma_expr_view(res);
                }
                Ok((res, q))
            }
        },
        Token::Word(Keyword::Action) => {
            if mark_at(toks, p + 1, Punct::LBrace) {
                let (stmts, q) = match parse_block(toks, p + 2) {
                    Ok(parsed) => parsed,
                    Err(e) => {
                        return Err(e);
                    },
                };
                let res = Expr::Action(stmts);
                proof {
                    ast::lemma_expr_view(res);
                }
                Ok((res, q))
            } else {
                Err(p + 1)
            }
        },
        Token::Markup(text, true, last) => {
            let mut parts: Vec<HtmlPart> = Vec::new();
            parts.push(HtmlPart::Text(text.clone()));
            assert(types::views(parts@) =~= seq![HtmlPartV::Text(text@)]);
            if *last {
                let template = HtmlTemplate { parts };
                let res = Expr::Html(template);
                Ok((res, p + 1))
            } else {
                parse_markup(toks, p + 1, parts)
            }
        },
        _ => Err(p),
    }
}

fn parse_block(toks: &Vec<Token>, p: usize) -> (res: Result<(Vec<ActionStmt>, usize), usize>)
    requires
        p <= toks@.len(),
    ensures
        agrees_list(
            res,
            g_block(types::views(toks@), p as int, Seq::empty()),
            types::views(toks@),
            p as int,
        ),
    decreases toks@.len() - p, 24int,
{
    let ghost t = types::views(toks@);
    let mut found: Vec<ActionStmt> = Vec::new();
    assert(types::views(found@) =~= Seq::<ActionStmtV>::empty());
    let mut q: usize = p;
    while !mark_at(toks, q, Punct::RBrace)
        invariant
            p <= q <= toks@.len(),
            t == types::views(toks@),
            g_block(t, p as int, Seq::empty()) == g_block(t, q as int, types::views(found@)),
        decreases toks@.len() - q,
    {
        let (s, r) = match parse_action_stmt(toks, q) {
            Ok(parsed) => parsed,
            Err(e) => {
                return Err(e);
            },
        };
        found.push(s);
        q = r;
    }
    Ok((found, q + 1))
}

fn parse_expr_semi(toks: &Vec<Token>, p: usize) -> (res: Result<(Expr, usize), usize>)
    requires
        p <= toks@.len(),
    ensures
        agrees(res, g_expr_semi(types::views(toks@), p as int), types::views(toks@), p as int),
    decreases toks@.len() - p, 21int,
{
    let (e, q) = match parse_expr(toks, p) {
        Ok(parsed) => parsed,
        Err(e) => {
            return Err(e);
        },
    };
    if mark_at(toks, q, Punct::Semi) {
        Ok((e, q + 1))
    } else {
        Err(q)
    }
}

fn parse_action_stmt(toks: &Vec<Token>, p: usize) -> (res: Result<(ActionStmt, usize), usize>)
    requires
        p <= toks@.len(),
    ensures
        agrees(res, g_action_stmt(types::views(toks@), p as int), types::views(toks@), p as int),
    decreases toks@.len() - p, 23int,
{
    if word_at(toks, p, Keyword::Let) {
        match name_at(toks, p + 1) {
            None => Err(p + 1),
            Some(name) => {
                let (ty, q) = match parse_annotation(toks, p + 2) {
                    Ok(parsed) => parsed,
                    Err(e) => {
                        return Err(e);
                    },
                };
                if !mark_at(toks, q, Punct::Eq) {
                    return Err(q);
                }
                let (expr, r) = match parse_expr_semi(toks, q + 1) {
                    Ok(parsed) => parsed,
                    Err(e) => {
                        return Err(e);
                    },
                };
                Ok((ActionStmt::Let { name, ty, expr }, r))
            },
        }
    } else if word_at(toks, p, Keyword::Do) {
        let (e, q) = match parse_expr_semi(toks, p + 1) {
            Ok(parsed) => parsed,
            Err(e) => {
                return Err(e);
            },
        };
        Ok((ActionStmt::Do(e), q))
    } else if word_at(toks, p, Keyword::Assert) {
        if !mark_at(toks, p + 1, Punct::LParen) {
            return Err(p + 1);
        }
        let (e, q) = match parse_expr(toks, p + 2) {
            Ok(parsed) => parsed,
            Err(e) => {
                return Err(e);
            },
        };
        if !mark_at(toks, q, Punct::RParen) {
            return Err(q);
        }
        if !mark_at(toks, q + 1, Punct::Semi) {
            return Err(q + 1);
        }
        Ok((ActionStmt::Assert(e, "assertion failed".to_owned()), q + 2))
    } else if word_at(toks, p, Keyword::Insert) {
        let (row, q) = match parse_expr(toks, p + 1) {
            Ok(parsed) => parsed,
            Err(e) => {
                return Err(e);
            },
        };
        if !word_at(toks, q, Keyword::Into) {
            return Err(q);
        }
        match name_at(toks, q + 1) {
            None => Err(q + 1),
            Some(table_name) => Ok((ActionStmt::Insert { table_name, row }, q + 2)),
        }
    } else {
        match name_at(toks, p) {
            Some(name) => {
                if mark_at(toks, p + 1, Punct::Eq) {
                    let (expr, q) = match parse_expr_semi(toks, p + 2) {
                        Ok(parsed) => parsed,
                        Err(e) => {
                            return Err(e);
                        },
                    };
                    return Ok((ActionStmt::Assign { name, expr }, q));
                }
            },
            None => {},
        }
        let (e, q) = match parse_expr_semi(toks, p) {
            Ok(parsed) => parsed,
            Err(e) => {
                return Err(e);
            },
        };
        Ok((ActionStmt::Expr(e), q))
    }
}

fn column_type(toks: &Vec<Token>, p: usize) -> (res: Option<Type>)
    ensures
        types::opt_view(res) == g_column_type(types::views(toks@), p as int),
{
    if word_at(toks, p, Keyword::Int) {
        Some(Type::Int)
    } else if word_at(toks, p, Keyword::String) {
        Some(Type::String)
    } else if word_at(toks, p, Keyword::Bool) {
        Some(Type::Bool)
    } else {
        None
    }
}

fn parse_fields(toks: &Vec<Token>, p: usize) -> (res: Result<(Vec<Field>, usize), usize>)
    requires
        p <= toks@.len(),
    ensures
        agrees_list(
            res,
            g_fields(types::views(toks@), p as int, Seq::empty()),
            types::views(toks@),
            p as int,
        ),
{
    let ghost t = types::views(toks@);
    let mut found: Vec<Field> = Vec::new();
    assert(types::views(found@) =~= Seq::<FieldV>::empty());
    let mut q: usize = p;
    while !mark_at(toks, q, Punct::RBrace)
        invariant
            p <= q <= toks@.len(),
            t == types::views(toks@),
            g_fields(t, p as int, Seq::empty()) == g_fields(t, q as int, types::views(found@)),
        decreases toks@.len() - q,
    {
        match name_at(toks, q) {
            None => {
                return Err(q);
            },
            Some(name) => {
                if !mark_at(toks, q + 1, Punct::Colon) {
                    return Err(q + 1);
                }
                match column_type(toks, q + 2) {
                    None => {
                        return Err(q + 2);
                    },
                    Some(ty) => {
                        if !mark_at(toks, q + 3, Punct::Comma) {
                            return Err(q + 3);
                        }
                        found.push(Field { name, ty });
                        q = q + 4;
                    },
                }
            },
        }
    }
    Ok((found, q + 1))
}

/// The name, type and expression of a variable or a definition.
struct Binding {
    name: Symbol,
    ty: Option<Type>,
    val: Expr,
}

fn parse_binding(toks: &Vec<Token>, p: usize) -> (res: Result<(Binding, usize), usize>)
    requires
        p <= toks@.len(),
    ensures
        match res {
            Ok((b, q)) => g_binding(types::views(toks@), p as int) == Ok::<
                ((Symbol, Option<TypeV>, ExprV), int),
                int,
            >(((b.name, types::opt_view(b.ty), b.val@), q as int)) && p < q <= toks@.len(),
            Err(e) => g_binding(types::views(toks@), p as int) == Err::<
                ((Symbol, Option<TypeV>, ExprV), int),
                int,
            >(e as int),
        },
{
    proof {
        reveal(g_binding);
    }
    match name_at(toks, p) {
        None => Err(p),
        Some(name) => {
            let (ty, q) = match parse_annotation(toks, p + 1) {
                Ok(parsed) => parsed,
                Err(e) => {
                    return Err(e);
                },
            };
            if !mark_at(toks, q, Punct::Eq) {
                return Err(q);
            }
            let (val, r) = match parse_expr_semi(toks, q + 1) {
                Ok(parsed) => parsed,
                Err(e) => {
                    return Err(e);
                },
            };
            Ok((Binding { name, ty, val }, r))
        },
    }
}

fn parse_decl(toks: &Vec<Token>, p: usize) -> (res: Result<(Decl, usize), usize>)
    requires
        p <= toks@.len(),
    ensures
        agrees(res, g_decl(types::views(toks@), p as int), types::views(toks@), p as int),
{
    proof {
        reveal(g_decl);
    }
    if word_at(toks, p, Keyword::Var) {
        let (b, q) = match parse_binding(toks, p + 1) {
            Ok(parsed) => parsed,
            Err(e) => {
                return Err(e);
            },
        };
        Ok((Decl::VarDecl { name: b.name, ty: b.ty, val: b.val }, q))
    } else if word_at(toks, p, Keyword::Def) {
        let (b, q) = match parse_binding(toks, p + 1) {
            Ok(parsed) => parsed,
            Err(e) => {
                return Err(e);
            },
        };
        Ok((Decl::DefDecl { name: b.name, ty: b.ty, val: b.val, is_pub: false }, q))
    } else if word_at(toks, p, Keyword::Pub) {
        if !word_at(toks, p + 1, Keyword::Def) {
            return Err(p + 1);
        }
        let (b, q) = match parse_binding(toks, p + 2) {
            Ok(parsed) => parsed,
            Err(e) => {
                return Err(e);
            },
        };
        Ok((Decl::DefDecl { name: b.name, ty: b.ty, val: b.val, is_pub: true }, q))
    } else if word_at(toks, p, Keyword::Table) {
        match name_at(toks, p + 1) {
            None => Err(p + 1),
            Some(name) => {
                if !mark_at(toks, p + 2, Punct::LBrace) {
                    return Err(p + 2);
                }
                let (fields, q) = match parse_fields(toks, p + 3) {
                    Ok(parsed) => parsed,
                    Err(e) => {
                        return Err(e);
                    },
                };
                if !mark_at(toks, q, Punct::Semi) {
                    return Err(q);
                }
                Ok((Decl::TableDecl { name, fields }, q + 1))
            },
        }
    } else {
        Err(p)
    }
}

fn parse_decls(toks: &Vec<Token>, p: usize) -> (res: Result<(Vec<Decl>, usize), usize>)
    requires
        p <= toks@.len(),
    ensures
        agrees_list(
            res,
            g_decls(types::views(toks@), p as int, Seq::empty()),
            types::views(toks@),
            p as int,
        ),
{
    let ghost t = types::views(toks@);
    let mut found: Vec<Decl> = Vec::new();
    assert(types::views(found@) =~= Seq::<DeclV>::empty());
    let mut q: usize = p;
    while !mark_at(toks, q, Punct::RBrace)
        invariant
            p <= q <= toks@.len(),
            t == types::views(toks@),
            g_decls(t, p as int, Seq::empty()) == g_decls(t, q as int, types::views(found@)),
        decreases toks@.len() - q,
    {
        let (d, r) = match parse_decl(toks, q) {
            Ok(parsed) => parsed,
            Err(e) => {
                return Err(e);
            },
        };
        found.push(d);
        q = r;
    }
    Ok((found, q + 1))
}

fn parse_service(toks: &Vec<Token>, p: usize) -> (res: Result<(Symbol, Vec<Decl>, usize), usize>)
    requires
        p <= toks@.len(),
    ensures
        match res {
            Ok((name, decls, q)) => g_service(types::views(toks@), p as int) == Ok::<
                ((Symbol, Seq<DeclV>), int),
                int,
            >(((name, types::views(decls@)), q as int)) && p < q <= toks@.len(),
            Err(e) => g_service(types::views(toks@), p as int) == Err::<
                ((Symbol, Seq<DeclV>), int),
                int,
            >(e as int),
        },
{
    proof {
        reveal(g_service);
    }
    match name_at(toks, p) {
        None => Err(p),
        Some(name) => {
            if !mark_at(toks, p + 1, Punct::LBrace) {
                return Err(p + 1);
            }
            let (decls, q) = match parse_decls(toks, p + 2) {
                Ok(parsed) => parsed,
                Err(e) => {
                    return Err(e);
                },
            };
            Ok((name, decls, q))
        },
    }
}

fn parse_updates(toks: &Vec<Token>, p: usize) -> (res: Result<(Vec<Stmt>, usize), usize>)
    requires
        p <= toks@.len(),
    ensures
        agrees_list(
            res,
            g_updates(types::views(toks@), p as int, Seq::empty()),
            types::views(toks@),
            p as int,
        ),
{
    let ghost t = types::views(toks@);
    let mut found: Vec<Stmt> = Vec::new();
    assert(types::views(found@) =~= Seq::<StmtV>::empty());
    let mut q: usize = p;
    while !mark_at(toks, q, Punct::RBrace)
        invariant
            p <= q <= toks@.len(),
            t == types::views(toks@),
            g_updates(t, p as int, Seq::empty()) == g_updates(t, q as int, types::views(found@)),
        decreases toks@.len() - q,
    {
        if !word_at(toks, q, Keyword::Update) {
            return Err(q);
        }
        let (service_name, decls, r) = match parse_service(toks, q + 1) {
            Ok(parsed) => parsed,
            Err(e) => {
                return Err(e);
            },
        };
        found.push(Stmt::Update { service_name, decls });
        q = r;
    }
    Ok((found, q + 1))
}

fn parse_stmt(toks: &Vec<Token>, p: usize, interner: &Interner) -> (res: Result<
    (Stmt, usize),
    usize,
>)
    requires
        p <= toks@.len(),
        lex::names_known(types::views(toks@), interner@),
    ensures
        agrees(
            res,
            g_stmt(types::views(toks@), p as int, interner@),
            types::views(toks@),
            p as int,
        ),
        res matches Ok((Stmt::Import { service_name, .. }, _)) ==> service_name < interner@.len(),
{
    proof {
        reveal(g_stmt);
    }
    if word_at(toks, p, Keyword::Service) {
        let (name, decls, q) = match parse_service(toks, p + 1) {
            Ok(parsed) => parsed,
            Err(e) => {
                return Err(e);
            },
        };
        Ok((Stmt::Service { name, decls }, q))
    } else if word_at(toks, p, Keyword::Update) {
        let (service_name, decls, q) = match parse_service(toks, p + 1) {
            Ok(parsed) => parsed,
            Err(e) => {
                return Err(e);
            },
        };
        Ok((Stmt::Update { service_name, decls }, q))
    } else if word_at(toks, p, Keyword::Atomic) {
        if !mark_at(toks, p + 1, Punct::LBrace) {
            return Err(p + 1);
        }
        let (updates, q) = match parse_updates(toks, p + 2) {
            Ok(parsed) => parsed,
            Err(e) => {
                return Err(e);
            },
        };
        let res = Stmt::Atomic { updates };
        proof {
            ast::lemma_stmt_view(res);
        }
        Ok((res, q))
    } else if word_at(toks, p, Keyword::Import) {
        match name_at(toks, p + 1) {
            None => Err(p + 1),
            Some(service_name) => {
                let path = joined_text(interner.get(service_name), ".mkt");
                Ok((Stmt::Import { path, service_name }, p + 2))
            },
        }
    } else if word_at(toks, p, Keyword::Watch) {
        let (expr, q) = match parse_expr_semi(toks, p + 1) {
            Ok(parsed) => parsed,
            Err(e) => {
                return Err(e);
            },
        };
        Ok((Stmt::Watch { expr }, q))
    } else if word_at(toks, p, Keyword::Test) {
        if !mark_at(toks, p + 1, Punct::LParen) {
            return Err(p + 1);
        }
        match name_at(toks, p + 2) {
            None => Err(p + 2),
            Some(service_name) => {
                if !mark_at(toks, p + 3, Punct::RParen) {
                    return Err(p + 3);
                }
                if !mark_at(toks, p + 4, Punct::LBrace) {
                    return Err(p + 4);
                }
                let (stmts, q) = match parse_block(toks, p + 5) {
                    Ok(parsed) => parsed,
                    Err(e) => {
                        return Err(e);
                    },
                };
                Ok((Stmt::Test { service_name, stmts }, q))
            },
        }
    } else {
        let (s, q) = match parse_action_stmt(toks, p) {
            Ok(parsed) => parsed,
            Err(e) => {
                return Err(e);
            },
        };
        Ok((Stmt::ActionStmt(s), q))
    }
}

/// Whether the table knows every service that the statements import.
pub open spec fn imports_known(stmts: Seq<StmtV>, names: Seq<Seq<char>>) -> bool {
    forall|i: int|
        0 <= i < stmts.len() ==> ((#[trigger] stmts[i]) matches StmtV::Import {
            service_name,
            ..
        } ==> service_name < names.len())
}

/// The statements that the tokens write, or the position of the token that fits nothing.
pub fn parse_program(toks: &Vec<Token>, interner: &Interner) -> (res: Result<Vec<Stmt>, usize>)
    requires
        lex::names_known(types::views(toks@), interner@),
    ensures
        res matches Ok(stmts) ==> imports_known(types::views(stmts@), interner@),
        match res {
            Ok(stmts) => g_program(types::views(toks@), 0, interner@, Seq::empty()) == Ok::<
                Seq<StmtV>,
                int,
            >(types::views(stmts@)),
            Err(e) => g_program(types::views(toks@), 0, interner@, Seq::empty()) == Err::<
                Seq<StmtV>,
                int,
            >(e as int),
        },
{
    let ghost t = types::views(toks@);
    let mut found: Vec<Stmt> = Vec::new();
    assert(types::views(found@) =~= Seq::<StmtV>::empty());
    let mut q: usize = 0;
    while q < toks.len()
        invariant
            q <= toks@.len(),
            t == types::views(toks@),
            lex::names_known(t, interner@),
            imports_known(types::views(found@), interner@),
            g_program(t, 0, interner@, Seq::empty()) == g_program(
                t,
                q as int,
                interner@,
                types::views(found@),
            ),
        decreases toks@.len() - q,
    {
        let (s, r) = match parse_stmt(toks, q, interner) {
            Ok(parsed) => parsed,
            Err(e) => {
                return Err(e);
            },
        };
        proof {
            ast::lemma_stmt_view(s);
        }
        found.push(s);
        q = r;
    }
    Ok(found)
}

} // verus!
