//! What holds of the values of expressions.

use vstd::prelude::*;

use crate::runtime::ast::{BinOp, ExprV, UnOp, ValueV};
use crate::runtime::interner::Symbol;
use crate::runtime::interpreter::evaluator;
use crate::runtime::interpreter::evaluator::{ContextV, EvalErrorV, Evaluated};

verus! {

/// Two expressions joined by an operator.
pub open spec fn joined_by(op: BinOp, a: ExprV, b: ExprV) -> ExprV {
    ExprV::Binop { op, expr1: Box::new(a), expr2: Box::new(b) }
}

/// An expression behind a sign.
pub open spec fn signed(op: UnOp, a: ExprV) -> ExprV {
    ExprV::Unop { op, expr: Box::new(a) }
}

/// A written integer.
pub open spec fn number(i: int) -> ExprV {
    ExprV::Literal { val: ValueV::Int { val: i } }
}

/// A written truth value.
pub open spec fn truth(b: bool) -> ExprV {
    ExprV::Literal { val: ValueV::Bool { val: b } }
}

/// A choice between two expressions.
pub open spec fn choice(c: ExprV, a: ExprV, b: ExprV) -> ExprV {
    ExprV::If { cond: Box::new(c), expr1: Box::new(a), expr2: Box::new(b) }
}

/// The outcome that is an integer.
pub open spec fn is_int(r: Evaluated, i: int) -> bool {
    r == Ok::<ValueV, EvalErrorV>(ValueV::Int { val: i })
}

/// The outcome that is a truth value.
pub open spec fn is_bool(r: Evaluated, b: bool) -> bool {
    r == Ok::<ValueV, EvalErrorV>(ValueV::Bool { val: b })
}

/// The outcome that is a failure with a message.
pub open spec fn fails(r: Evaluated, msg: Seq<char>) -> bool {
    r == Err::<ValueV, EvalErrorV>(EvalErrorV::RuntimeError(msg))
}

/// Whether an integer fits.
pub open spec fn fits(i: int) -> bool {
    i32::MIN <= i <= i32::MAX
}

/// Of two integers exactly one of `a < b`, `a == b` and `a > b` is true; `a < b` has the value of
/// `b > a`; no integer is less than itself, and each is less than the one behind it.
pub proof fn integers_are_ordered(
    cx: ContextV,
    env: Seq<(Symbol, ValueV)>,
    e1: ExprV,
    e2: ExprV,
    a: int,
    b: int,
    fuel: nat,
)
    requires
        is_int(evaluator::evaluated(cx, env, e1, fuel), a),
        is_int(evaluator::evaluated(cx, env, e2, fuel), b),
    ensures
        ({
            let lt = evaluator::evaluated(cx, env, joined_by(BinOp::Lt, e1, e2), fuel);
            let eq = evaluator::evaluated(cx, env, joined_by(BinOp::Eq, e1, e2), fuel);
            let gt = evaluator::evaluated(cx, env, joined_by(BinOp::Gt, e1, e2), fuel);
            ||| is_bool(lt, true) && is_bool(eq, false) && is_bool(gt, false)
            ||| is_bool(lt, false) && is_bool(eq, true) && is_bool(gt, false)
            ||| is_bool(lt, false) && is_bool(eq, false) && is_bool(gt, true)
        }),
        evaluator::evaluated(cx, env, joined_by(BinOp::Lt, e1, e2), fuel) == evaluator::evaluated(
            cx,
            env,
            joined_by(BinOp::Gt, e2, e1),
            fuel,
        ),
        evaluator::evaluated(cx, env, joined_by(BinOp::Eq, e1, e2), fuel) == evaluator::evaluated(
            cx,
            env,
            joined_by(BinOp::Eq, e2, e1),
            fuel,
        ),
        is_bool(evaluator::evaluated(cx, env, joined_by(BinOp::Eq, e1, e1), fuel), true),
        fits(a + 1) ==> is_bool(
            evaluator::evaluated(
                cx,
                env,
                joined_by(BinOp::Lt, e1, joined_by(BinOp::Add, e1, number(1))),
                fuel,
            ),
            true,
        ),
{
    reveal_with_fuel(evaluator::evaluated, 3);
}

/// The order of integers goes on: what is less than something that is less than a third is less
/// than the third; and what is less stays less when the same is added to both.
pub proof fn order_goes_on(
    cx: ContextV,
    env: Seq<(Symbol, ValueV)>,
    e1: ExprV,
    e2: ExprV,
    e3: ExprV,
    a: int,
    b: int,
    c: int,
    fuel: nat,
)
    requires
        is_int(evaluator::evaluated(cx, env, e1, fuel), a),
        is_int(evaluator::evaluated(cx, env, e2, fuel), b),
        is_int(evaluator::evaluated(cx, env, e3, fuel), c),
    ensures
        is_bool(evaluator::evaluated(cx, env, joined_by(BinOp::Lt, e1, e2), fuel), true) && is_bool(
            evaluator::evaluated(cx, env, joined_by(BinOp::Lt, e2, e3), fuel),
            true,
        ) ==> is_bool(
            evaluator::evaluated(cx, env, joined_by(BinOp::Lt, e1, e3), fuel),
            true,
        ),
        fits(a + c) && fits(b + c) ==> evaluator::evaluated(
            cx,
            env,
            joined_by(BinOp::Lt, e1, e2),
            fuel,
        ) == evaluator::evaluated(
            cx,
            env,
            joined_by(
                BinOp::Lt,
                joined_by(BinOp::Add, e1, e3),
                joined_by(BinOp::Add, e2, e3),
            ),
            fuel,
        ),
{
    reveal_with_fuel(evaluator::evaluated, 3);
}

/// Adding: nothing added changes nothing, one more added gives one more, and the order of the two
/// does not matter. Taking away undoes adding. A sign undoes itself, and with its sign changed an
/// integer adds to nothing.
pub proof fn adding_counts(
    cx: ContextV,
    env: Seq<(Symbol, ValueV)>,
    e1: ExprV,
    e2: ExprV,
    a: int,
    b: int,
    fuel: nat,
)
    requires
        is_int(evaluator::evaluated(cx, env, e1, fuel), a),
        is_int(evaluator::evaluated(cx, env, e2, fuel), b),
        fits(a),
        fits(b),
    ensures
        is_int(evaluator::evaluated(cx, env, joined_by(BinOp::Add, e1, number(0)), fuel), a),
        fits(b + 1) && fits(a + b) && fits(a + b + 1) ==> {
            let one = number(1);
            evaluator::evaluated(
                cx,
                env,
                joined_by(BinOp::Add, e1, joined_by(BinOp::Add, e2, one)),
                fuel,
            ) == evaluator::evaluated(
                cx,
                env,
                joined_by(BinOp::Add, joined_by(BinOp::Add, e1, e2), one),
                fuel,
            )
        },
        evaluator::evaluated(cx, env, joined_by(BinOp::Add, e1, e2), fuel) == evaluator::evaluated(
            cx,
            env,
            joined_by(BinOp::Add, e2, e1),
            fuel,
        ),
        fits(a + b) <==> evaluator::evaluated(cx, env, joined_by(BinOp::Add, e1, e2), fuel) is Ok,
        fits(a - b) <==> evaluator::evaluated(cx, env, joined_by(BinOp::Sub, e1, e2), fuel) is Ok,
        fits(a + b) ==> is_int(
            evaluator::evaluated(
                cx,
                env,
                joined_by(BinOp::Sub, joined_by(BinOp::Add, e1, e2), e2),
                fuel,
            ),
            a,
        ),
        fits(a - b) ==> is_int(
            evaluator::evaluated(
                cx,
                env,
                joined_by(BinOp::Add, joined_by(BinOp::Sub, e1, e2), e2),
                fuel,
            ),
            a,
        ),
        fits(-a) ==> {
            let back = signed(UnOp::Neg, e1);
            &&& is_int(
                evaluator::evaluated(cx, env, joined_by(BinOp::Add, e1, back), fuel),
                0,
            )
            &&& is_int(evaluator::evaluated(cx, env, signed(UnOp::Neg, back), fuel), a)
        },
        !fits(a + b) ==> fails(
            evaluator::evaluated(cx, env, joined_by(BinOp::Add, e1, e2), fuel),
            "integer overflow"@,
        ),
{
    reveal_with_fuel(evaluator::evaluated, 4);
}

/// Multiplying: nothing taken any number of times is nothing, taking something once more adds it
/// once more, and the order of the two does not matter.
pub proof fn multiplying_repeats_adding(
    cx: ContextV,
    env: Seq<(Symbol, ValueV)>,
    e1: ExprV,
    e2: ExprV,
    a: int,
    b: int,
    fuel: nat,
)
    requires
        is_int(evaluator::evaluated(cx, env, e1, fuel), a),
        is_int(evaluator::evaluated(cx, env, e2, fuel), b),
        fits(a),
        fits(b),
    ensures
        is_int(evaluator::evaluated(cx, env, joined_by(BinOp::Mul, e1, number(0)), fuel), 0),
        fits(b + 1) && evaluator::evaluated(cx, env, joined_by(BinOp::Mul, e1, e2), fuel) is Ok
            && fits(a * b + a) ==> evaluator::evaluated(
            cx,
            env,
            joined_by(BinOp::Mul, e1, joined_by(BinOp::Add, e2, number(1))),
            fuel,
        ) == evaluator::evaluated(
            cx,
            env,
            joined_by(BinOp::Add, joined_by(BinOp::Mul, e1, e2), e1),
            fuel,
        ),
        evaluator::evaluated(cx, env, joined_by(BinOp::Mul, e1, e2), fuel) == evaluator::evaluated(
            cx,
            env,
            joined_by(BinOp::Mul, e2, e1),
            fuel,
        ),
        fits(a * b) <==> evaluator::evaluated(cx, env, joined_by(BinOp::Mul, e1, e2), fuel) is Ok,
{
    reveal_with_fuel(evaluator::evaluated, 3);
    assert(a * 0 == 0);
    assert(a * (b + 1) == a * b + a) by (nonlinear_arith);
    assert(a * b == b * a) by (nonlinear_arith);
}

/// The distance of an integer from nothing.
spec fn size(i: int) -> int {
    if i < 0 {
        -i
    } else {
        i
    }
}

/// Dividing: what is left over is smaller than the divisor, and has the sign of what was divided,
/// where something is left. Nothing divides by nothing.
pub proof fn dividing_leaves_a_rest(
    cx: ContextV,
    env: Seq<(Symbol, ValueV)>,
    e1: ExprV,
    e2: ExprV,
    a: int,
    b: int,
    fuel: nat,
)
    requires
        is_int(evaluator::evaluated(cx, env, e1, fuel), a),
        is_int(evaluator::evaluated(cx, env, e2, fuel), b),
        fits(a),
        fits(b),
    ensures
        b == 0 ==> fails(
            evaluator::evaluated(cx, env, joined_by(BinOp::Div, e1, e2), fuel),
            "division by zero"@,
        ),
        b != 0 && !(a == i32::MIN && b == -1) ==> exists|q: int| #[trigger]
            is_int(evaluator::evaluated(cx, env, joined_by(BinOp::Div, e1, e2), fuel), q) && {
                let rest = a - q * b;
                &&& -b < rest < b || b < rest < -b
                &&& rest != 0 ==> (rest < 0) == (a < 0)
            },
        a == i32::MIN && b == -1 ==> fails(
            evaluator::evaluated(cx, env, joined_by(BinOp::Div, e1, e2), fuel),
            "integer overflow"@,
        ),
{
    reveal_with_fuel(evaluator::evaluated, 2);
    if b != 0 {
        let x = evaluator::abs(a);
        let y = evaluator::abs(b);
        let n = x / y;
        let rem = x % y;
        let q = evaluator::quotient(a, b);
        vstd::arithmetic::div_mod::lemma_fundamental_div_mod(x, y);
        vstd::arithmetic::div_mod::lemma_mod_bound(x, y);
        vstd::arithmetic::div_mod::lemma_div_is_ordered_by_denominator(x, 1, y);
        vstd::arithmetic::div_mod::lemma_div_basics(x);
        vstd::arithmetic::div_mod::lemma_div_pos_is_pos(x, y);
        assert(0 <= n <= x);
        assert(a - q * b == if a < 0 {
            -rem
        } else {
            rem
        }) by (nonlinear_arith)
            requires
                x == y * n + rem,
                x == (if a < 0 {
                    -a
                } else {
                    a
                }),
                y == (if b < 0 {
                    -b
                } else {
                    b
                }),
                q == (if (a < 0) == (b < 0) {
                    n
                } else {
                    -n
                }),
        ;
        if !(a == i32::MIN && b == -1) {
            if b != 1 && b != -1 {
                assert(y >= 2);
                assert(n * 2 <= x) by (nonlinear_arith)
                    requires
                        x == y * n + rem,
                        rem >= 0,
                        y >= 2,
                        n >= 0,
                ;
            }
            assert(fits(q));
            assert(is_int(evaluator::evaluated(cx, env, joined_by(BinOp::Div, e1, e2), fuel), q));
        } else {
            assert(y == 1);
            assert(n == x) by {
                vstd::arithmetic::div_mod::lemma_div_basics(x);
            }
        }
    }
}

/// Truth values: `!` undoes itself; what is joined with something true by `&&` keeps its value, and
/// with something false is false; `||` is `&&` seen from the other side; and a truth value equals
/// itself and not its opposite.
pub proof fn truth_values_join(
    cx: ContextV,
    env: Seq<(Symbol, ValueV)>,
    e1: ExprV,
    e2: ExprV,
    a: bool,
    b: bool,
    fuel: nat,
)
    requires
        is_bool(evaluator::evaluated(cx, env, e1, fuel), a),
        is_bool(evaluator::evaluated(cx, env, e2, fuel), b),
    ensures
        is_bool(
            evaluator::evaluated(cx, env, signed(UnOp::Not, signed(UnOp::Not, e1)), fuel),
            a,
        ),
        !is_bool(evaluator::evaluated(cx, env, signed(UnOp::Not, e1), fuel), a),
        is_bool(evaluator::evaluated(cx, env, joined_by(BinOp::And, truth(true), e2), fuel), b),
        is_bool(evaluator::evaluated(cx, env, joined_by(BinOp::And, truth(false), e2), fuel), false),
        evaluator::evaluated(cx, env, joined_by(BinOp::And, e1, e2), fuel) == evaluator::evaluated(
            cx,
            env,
            joined_by(BinOp::And, e2, e1),
            fuel,
        ),
        evaluator::evaluated(cx, env, joined_by(BinOp::Or, e1, e2), fuel) == evaluator::evaluated(
            cx,
            env,
            signed(
                UnOp::Not,
                joined_by(BinOp::And, signed(UnOp::Not, e1), signed(UnOp::Not, e2)),
            ),
            fuel,
        ),
        is_bool(evaluator::evaluated(cx, env, joined_by(BinOp::Eq, e1, e1), fuel), true),
        is_bool(
            evaluator::evaluated(cx, env, joined_by(BinOp::Eq, e1, signed(UnOp::Not, e1)), fuel),
            false,
        ),
{
    reveal_with_fuel(evaluator::evaluated, 4);
}

/// Strings are equal exactly where they are the same text; the order of the two does not matter.
pub proof fn equal_strings_are_the_same(
    cx: ContextV,
    env: Seq<(Symbol, ValueV)>,
    e1: ExprV,
    e2: ExprV,
    a: Seq<char>,
    b: Seq<char>,
    fuel: nat,
)
    requires
        evaluator::evaluated(cx, env, e1, fuel) == Ok::<ValueV, EvalErrorV>(
            ValueV::String { val: a },
        ),
        evaluator::evaluated(cx, env, e2, fuel) == Ok::<ValueV, EvalErrorV>(
            ValueV::String { val: b },
        ),
    ensures
        is_bool(evaluator::evaluated(cx, env, joined_by(BinOp::Eq, e1, e2), fuel), true) <==> a
            == b,
        is_bool(evaluator::evaluated(cx, env, joined_by(BinOp::Eq, e1, e2), fuel), false) <==> a
            != b,
{
    reveal_with_fuel(evaluator::evaluated, 2);
}

/// A choice has the value of the branch that its condition picks, whatever the other one is; with
/// the opposite condition the branches change places.
pub proof fn choices_pick_a_branch(
    cx: ContextV,
    env: Seq<(Symbol, ValueV)>,
    c: ExprV,
    a: ExprV,
    b: ExprV,
    fuel: nat,
)
    ensures
        evaluator::evaluated(cx, env, choice(truth(true), a, b), fuel) == evaluator::evaluated(
            cx,
            env,
            a,
            fuel,
        ),
        evaluator::evaluated(cx, env, choice(truth(false), a, b), fuel) == evaluator::evaluated(
            cx,
            env,
            b,
            fuel,
        ),
        evaluator::evaluated(cx, env, c, fuel) matches Ok(ValueV::Bool { val }) ==> {
            &&& evaluator::evaluated(cx, env, choice(c, a, b), fuel) == evaluator::evaluated(
                cx,
                env,
                choice(truth(val), a, b),
                fuel,
            )
            &&& evaluator::evaluated(cx, env, choice(c, a, b), fuel) == evaluator::evaluated(
                cx,
                env,
                choice(signed(UnOp::Not, c), b, a),
                fuel,
            )
        },
{
    reveal_with_fuel(evaluator::evaluated, 3);
}

} // verus!
