//! How infix operators bind.

use vstd::prelude::*;

use crate::runtime::ast::{BinOp, ExprV, UnOp};
use crate::runtime::interner::Symbol;
use crate::runtime::parser::grammar;
use crate::runtime::parser::grammar::Infix;
use crate::runtime::parser::lex::{Punct, TokenV};

verus! {

/// The mark that an infix operator is written with.
pub open spec fn mark_of(i: Infix) -> Punct {
    match i {
        Infix::Op(BinOp::Or) => Punct::OrOr,
        Infix::Op(BinOp::And) => Punct::AndAnd,
        Infix::Op(BinOp::Eq) => Punct::EqEq,
        Infix::Op(BinOp::Lt) => Punct::Lt,
        Infix::Op(BinOp::Gt) => Punct::Gt,
        Infix::Span => Punct::DotDot,
        Infix::Op(BinOp::Add) => Punct::Plus,
        Infix::Op(BinOp::Sub) => Punct::Minus,
        Infix::Op(BinOp::Mul) => Punct::Star,
        Infix::Op(BinOp::Div) => Punct::Slash,
    }
}

/// How tight an infix operator binds: alternatives are joined last, then conditions, comparisons,
/// ranges, sums, and products.
pub open spec fn strength(i: Infix) -> int {
    match i {
        Infix::Op(BinOp::Or) => 0,
        Infix::Op(BinOp::And) => 1,
        Infix::Op(BinOp::Eq) | Infix::Op(BinOp::Lt) | Infix::Op(BinOp::Gt) => 2,
        Infix::Span => 3,
        Infix::Op(BinOp::Add) | Infix::Op(BinOp::Sub) => 4,
        Infix::Op(BinOp::Mul) | Infix::Op(BinOp::Div) => 5,
    }
}

/// Two expressions joined by an infix operator.
pub open spec fn joined(i: Infix, l: ExprV, r: ExprV) -> ExprV {
    match i {
        Infix::Op(op) => ExprV::Binop { op, expr1: Box::new(l), expr2: Box::new(r) },
        Infix::Span => ExprV::Range { start: Box::new(l), end: Box::new(r) },
    }
}

/// A name.
pub open spec fn named(x: Symbol) -> ExprV {
    ExprV::Variable { name: x }
}

/// Which operator stands at a position.
proof fn lemma_mark(t: Seq<TokenV>, p: int, i: Infix, level: int)
    requires
        0 <= p < t.len(),
        t[p] == TokenV::Mark(mark_of(i)),
    ensures
        grammar::infix_at(t, p, level) == if level == strength(i) {
            Some(i)
        } else {
            None
        },
{
}

/// No operator stands behind the end.
proof fn lemma_end(t: Seq<TokenV>, level: int)
    ensures
        grammar::infix_at(t, t.len() as int, level) is None,
{
}

/// A name that nothing is called or taken of is an operand.
proof fn lemma_name(t: Seq<TokenV>, p: int, x: Symbol)
    requires
        0 <= p < t.len(),
        t[p] == TokenV::Ident(x),
        !grammar::is_mark(t, p + 1, Punct::Dot),
        !grammar::is_mark(t, p + 1, Punct::LParen),
    ensures
        grammar::g_infix(t, p, grammar::LEVELS as int) == Ok::<(ExprV, int), int>(
            (named(x), p + 1),
        ),
{
    assert(grammar::g_primary(t, p) == Ok::<(ExprV, int), int>((named(x), p + 1)));
    assert(grammar::g_calls(t, p + 1, named(x)) == Ok::<(ExprV, int), int>((named(x), p + 1)));
    assert(grammar::g_unary(t, p) == Ok::<(ExprV, int), int>((named(x), p + 1)));
}

/// What stands at a tight level stands at a looser one, where no operator in between follows.
proof fn lemma_looser(t: Seq<TokenV>, p: int, tight: int, loose: int, e: ExprV, q: int)
    requires
        0 <= loose <= tight <= grammar::LEVELS,
        0 <= p < q <= t.len(),
        grammar::g_infix(t, p, tight) == Ok::<(ExprV, int), int>((e, q)),
        forall|l: int| loose <= l < tight ==> #[trigger] grammar::infix_at(t, q, l) is None,
    ensures
        grammar::g_infix(t, p, loose) == Ok::<(ExprV, int), int>((e, q)),
    decreases tight - loose,
{
    if loose < tight {
        assert(grammar::infix_at(t, q, tight - 1) is None);
        assert(grammar::g_infix_rest(t, q, tight - 1, e) == Ok::<(ExprV, int), int>((e, q)));
        assert(grammar::g_infix(t, p, tight - 1) == Ok::<(ExprV, int), int>((e, q)));
        lemma_looser(t, p, tight - 1, loose, e, q);
    }
}

/// A name before an operator is an operand of the levels that are tighter than the operator.
proof fn lemma_operand(t: Seq<TokenV>, p: int, x: Symbol, i: Infix, level: int)
    requires
        0 <= p,
        p + 1 < t.len(),
        t[p] == TokenV::Ident(x),
        t[p + 1] == TokenV::Mark(mark_of(i)),
        strength(i) < level <= grammar::LEVELS,
    ensures
        grammar::g_infix(t, p, level) == Ok::<(ExprV, int), int>((named(x), p + 1)),
{
    lemma_name(t, p, x);
    assert forall|l: int| level <= l < grammar::LEVELS implies #[trigger] grammar::infix_at(
        t,
        p + 1,
        l,
    ) is None by {
        lemma_mark(t, p + 1, i, l);
    }
    lemma_looser(t, p, grammar::LEVELS as int, level, named(x), p + 1);
}

/// A name at the end is an operand of every level.
proof fn lemma_last(t: Seq<TokenV>, p: int, x: Symbol, level: int)
    requires
        0 <= p,
        p + 1 == t.len(),
        t[p] == TokenV::Ident(x),
        0 <= level <= grammar::LEVELS,
    ensures
        grammar::g_infix(t, p, level) == Ok::<(ExprV, int), int>((named(x), p + 1)),
{
    lemma_name(t, p, x);
    lemma_looser(t, p, grammar::LEVELS as int, level, named(x), p + 1);
}

/// Two names joined at the end.
proof fn lemma_pair(t: Seq<TokenV>, p: int, i: Infix, x: Symbol, y: Symbol)
    requires
        0 <= p,
        p + 3 == t.len(),
        t[p] == TokenV::Ident(x),
        t[p + 1] == TokenV::Mark(mark_of(i)),
        t[p + 2] == TokenV::Ident(y),
    ensures
        grammar::g_infix(t, p, strength(i)) == Ok::<(ExprV, int), int>(
            (joined(i, named(x), named(y)), p + 3),
        ),
{
    let level = strength(i);
    lemma_operand(t, p, x, i, level + 1);
    lemma_last(t, p + 2, y, level + 1);
    lemma_mark(t, p + 1, i, level);
    lemma_end(t, level);
    let e = joined(i, named(x), named(y));
    assert(grammar::g_infix_rest(t, p + 3, level, e) == Ok::<(ExprV, int), int>((e, p + 3)));
    assert(grammar::g_infix_rest(t, p + 1, level, named(x)) == Ok::<(ExprV, int), int>((e, p + 3)));
}

/// Three names joined by two operators.
pub open spec fn three(x: Symbol, i: Infix, y: Symbol, j: Infix, z: Symbol) -> Seq<TokenV> {
    seq![
        TokenV::Ident(x),
        TokenV::Mark(mark_of(i)),
        TokenV::Ident(y),
        TokenV::Mark(mark_of(j)),
        TokenV::Ident(z),
    ]
}

/// Of two infix operators the tighter one is joined first, and of two that bind alike the left one.
pub proof fn tighter_operators_join_first(x: Symbol, i: Infix, y: Symbol, j: Infix, z: Symbol)
    ensures
        grammar::g_expr(three(x, i, y, j, z), 0) == Ok::<(ExprV, int), int>(
            (
                if strength(j) > strength(i) {
                    joined(i, named(x), joined(j, named(y), named(z)))
                } else {
                    joined(j, joined(i, named(x), named(y)), named(z))
                },
                5,
            ),
        ),
{
    let t = three(x, i, y, j, z);
    let a = strength(i);
    let b = strength(j);
    lemma_operand(t, 0, x, i, a + 1);
    lemma_mark(t, 1, i, a);
    if b > a {
        let right = joined(j, named(y), named(z));
        let e = joined(i, named(x), right);
        lemma_pair(t, 2, j, y, z);
        assert forall|l: int| a + 1 <= l < b implies #[trigger] grammar::infix_at(t, 5, l) is None by {
            lemma_end(t, l);
        }
        lemma_looser(t, 2, b, a + 1, right, 5);
        lemma_end(t, a);
        assert(grammar::g_infix_rest(t, 5, a, e) == Ok::<(ExprV, int), int>((e, 5int)));
        assert(grammar::g_infix_rest(t, 1, a, named(x)) == Ok::<(ExprV, int), int>((e, 5int)));
        assert(grammar::g_infix(t, 0, a) == Ok::<(ExprV, int), int>((e, 5int)));
        assert forall|l: int| 0 <= l < a implies #[trigger] grammar::infix_at(t, 5, l) is None by {
            lemma_end(t, l);
        }
        lemma_looser(t, 0, a, 0, e, 5);
    } else {
        let left = joined(i, named(x), named(y));
        let e = joined(j, left, named(z));
        lemma_operand(t, 2, y, j, a + 1);
        lemma_last(t, 4, z, b + 1);
        lemma_mark(t, 3, j, a);
        lemma_mark(t, 3, j, b);
        lemma_end(t, b);
        assert(grammar::g_infix_rest(t, 5, b, e) == Ok::<(ExprV, int), int>((e, 5int)));
        assert(grammar::g_infix_rest(t, 3, b, left) == Ok::<(ExprV, int), int>((e, 5int)));
        if b == a {
            assert(grammar::g_infix_rest(t, 1, a, named(x)) == Ok::<(ExprV, int), int>((e, 5int)));
            assert(grammar::g_infix(t, 0, a) == Ok::<(ExprV, int), int>((e, 5int)));
        } else {
            assert(grammar::g_infix_rest(t, 3, a, left) == Ok::<(ExprV, int), int>((left, 3int)));
            assert(grammar::g_infix_rest(t, 1, a, named(x)) == Ok::<(ExprV, int), int>(
                (left, 3int),
            ));
            assert(grammar::g_infix(t, 0, a) == Ok::<(ExprV, int), int>((left, 3int)));
            assert forall|l: int| b + 1 <= l < a implies #[trigger] grammar::infix_at(
                t,
                3,
                l,
            ) is None by {
                lemma_mark(t, 3, j, l);
            }
            lemma_looser(t, 0, a, b + 1, left, 3);
            assert(grammar::g_infix(t, 0, b) == Ok::<(ExprV, int), int>((e, 5int)));
        }
        assert forall|l: int| 0 <= l < b implies #[trigger] grammar::infix_at(t, 5, l) is None by {
            lemma_end(t, l);
        }
        lemma_looser(t, 0, b, 0, e, 5);
    }
}

/// A sign before a name binds tighter than an infix operator behind it.
pub proof fn signs_bind_tightest(x: Symbol, i: Infix, y: Symbol)
    ensures
        grammar::g_expr(
            seq![
                TokenV::Mark(Punct::Minus),
                TokenV::Ident(x),
                TokenV::Mark(mark_of(i)),
                TokenV::Ident(y),
            ],
            0,
        ) == Ok::<(ExprV, int), int>(
            (
                joined(i, ExprV::Unop { op: UnOp::Neg, expr: Box::new(named(x)) }, named(y)),
                4,
            ),
        ),
{
    let t = seq![
        TokenV::Mark(Punct::Minus),
        TokenV::Ident(x),
        TokenV::Mark(mark_of(i)),
        TokenV::Ident(y),
    ];
    let a = strength(i);
    let l = ExprV::Unop { op: UnOp::Neg, expr: Box::new(named(x)) };
    let e = joined(i, l, named(y));
    lemma_name(t, 1, x);
    assert(grammar::g_unary(t, 1) == Ok::<(ExprV, int), int>((named(x), 2int)));
    assert(grammar::g_unary(t, 0) == Ok::<(ExprV, int), int>((l, 2int)));
    assert(grammar::g_infix(t, 0, grammar::LEVELS as int) == Ok::<(ExprV, int), int>((l, 2int)));
    assert forall|k: int| a + 1 <= k < grammar::LEVELS implies #[trigger] grammar::infix_at(
        t,
        2,
        k,
    ) is None by {
        lemma_mark(t, 2, i, k);
    }
    lemma_looser(t, 0, grammar::LEVELS as int, a + 1, l, 2);
    lemma_last(t, 3, y, a + 1);
    lemma_mark(t, 2, i, a);
    lemma_end(t, a);
    assert(grammar::g_infix_rest(t, 4, a, e) == Ok::<(ExprV, int), int>((e, 4int)));
    assert(grammar::g_infix_rest(t, 2, a, l) == Ok::<(ExprV, int), int>((e, 4int)));
    assert(grammar::g_infix(t, 0, a) == Ok::<(ExprV, int), int>((e, 4int)));
    assert forall|k: int| 0 <= k < a implies #[trigger] grammar::infix_at(t, 4, k) is None by {
        lemma_end(t, k);
    }
    lemma_looser(t, 0, a, 0, e, 4);
}

} // verus!
