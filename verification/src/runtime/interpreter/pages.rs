//! What pages show.

use vstd::prelude::*;

use crate::runtime::ast::{ExprV, HtmlPartV, HtmlV, ValueV};
use crate::runtime::interner::Symbol;
use crate::runtime::interpreter::evaluator;
use crate::runtime::interpreter::evaluator::{ContextV, EvalErrorV, Evaluated};
use crate::runtime::text;

verus! {

/// The outcome that is a page.
pub open spec fn is_page(r: Evaluated, page: HtmlV) -> bool {
    r == Ok::<ValueV, EvalErrorV>(ValueV::Html(page))
}

/// The page of a template.
pub open spec fn page_of(
    cx: ContextV,
    env: Seq<(Symbol, ValueV)>,
    parts: Seq<HtmlPartV>,
    fuel: nat,
) -> Evaluated {
    evaluator::evaluated(cx, env, ExprV::Html(parts), fuel)
}

/// One more piece of a template.
proof fn lemma_push(
    cx: ContextV,
    env: Seq<(Symbol, ValueV)>,
    parts: Seq<HtmlPartV>,
    part: HtmlPartV,
    i: int,
    before: HtmlV,
    fuel: nat,
)
    requires
        0 <= i <= parts.len(),
    ensures
        evaluator::rendered(cx, env, parts.push(part), i, before, fuel) == match evaluator::rendered(
            cx,
            env,
            parts,
            i,
            before,
            fuel,
        ) {
            Err(e) => Err(e),
            Ok(page) => match part {
                HtmlPartV::Text(s) => Ok(HtmlV { text: page.text + s, ..page }),
                HtmlPartV::Expr(e) => match evaluator::evaluated(cx, env, e, fuel) {
                    Err(e) => Err(e),
                    Ok(v) => Ok(evaluator::with_value(page, v)),
                },
            },
        },
    decreases parts.len() - i,
{
    let all = parts.push(part);
    if i < parts.len() {
        assert(all[i] == parts[i]);
        match parts[i] {
            HtmlPartV::Text(s) => {
                let next = HtmlV { text: before.text + s, ..before };
                lemma_push(cx, env, parts, part, i + 1, next, fuel);
            },
            HtmlPartV::Expr(e) => {
                if let Ok(v) = evaluator::evaluated(cx, env, e, fuel) {
                    let next = evaluator::with_value(before, v);
                    lemma_push(cx, env, parts, part, i + 1, next, fuel);
                }
            },
        }
    } else {
        assert(all[i] == part);
        match part {
            HtmlPartV::Text(s) => {
                let next = HtmlV { text: before.text + s, ..before };
                assert(evaluator::rendered(cx, env, all, i + 1, next, fuel) == Ok::<
                    HtmlV,
                    EvalErrorV,
                >(next));
            },
            HtmlPartV::Expr(e) => {
                if let Ok(v) = evaluator::evaluated(cx, env, e, fuel) {
                    let next = evaluator::with_value(before, v);
                    assert(evaluator::rendered(cx, env, all, i + 1, next, fuel) == Ok::<
                        HtmlV,
                        EvalErrorV,
                    >(next));
                }
            },
        }
    }
}

/// The empty template is an empty page. Text behind a template stands behind its page, and so does
/// what is shown of a value that is neither a function nor an action. A template fails with the
/// first of its pieces that does.
pub proof fn pieces_are_shown_in_order(
    cx: ContextV,
    env: Seq<(Symbol, ValueV)>,
    parts: Seq<HtmlPartV>,
    page: HtmlV,
    s: Seq<char>,
    e: ExprV,
    fuel: nat,
)
    requires
        is_page(page_of(cx, env, parts, fuel), page),
    ensures
        is_page(
            page_of(cx, env, Seq::empty(), fuel),
            HtmlV { text: Seq::empty(), handlers: Seq::empty() },
        ),
        is_page(
            page_of(cx, env, parts.push(HtmlPartV::Text(s)), fuel),
            HtmlV { text: page.text + s, handlers: page.handlers },
        ),
        evaluator::evaluated(cx, env, e, fuel) matches Err(f) ==> page_of(
            cx,
            env,
            parts.push(HtmlPartV::Expr(e)),
            fuel,
        ) == Err::<ValueV, EvalErrorV>(f),
        evaluator::evaluated(cx, env, e, fuel) matches Ok(v) ==> (v !is Closure
            && v !is ActionClosure ==> is_page(
            page_of(cx, env, parts.push(HtmlPartV::Expr(e)), fuel),
            HtmlV { text: page.text + evaluator::shown(v), handlers: page.handlers },
        )),
{
    let none = evaluator::empty_page();
    let empty = Seq::<HtmlPartV>::empty();
    assert(evaluator::rendered(cx, env, empty, 0, none, fuel) == Ok::<HtmlV, EvalErrorV>(none));
    lemma_push(cx, env, parts, HtmlPartV::Text(s), 0, none, fuel);
    lemma_push(cx, env, parts, HtmlPartV::Expr(e), 0, none, fuel);
}

/// A string and a page are shown as they are, and a truth value by its name.
pub proof fn values_are_shown_by_their_text(
    cx: ContextV,
    env: Seq<(Symbol, ValueV)>,
    s: Seq<char>,
    b: bool,
    h: HtmlV,
    fuel: nat,
)
    ensures
        is_page(
            page_of(
                cx,
                env,
                seq![HtmlPartV::Expr(ExprV::Literal { val: ValueV::String { val: s } })],
                fuel,
            ),
            HtmlV { text: s, handlers: Seq::empty() },
        ),
        is_page(
            page_of(
                cx,
                env,
                seq![HtmlPartV::Expr(ExprV::Literal { val: ValueV::Bool { val: b } })],
                fuel,
            ),
            HtmlV {
                text: if b {
                    "true"@
                } else {
                    "false"@
                },
                handlers: Seq::empty(),
            },
        ),
        is_page(
            page_of(
                cx,
                env,
                seq![HtmlPartV::Expr(ExprV::Literal { val: ValueV::Html(h) })],
                fuel,
            ),
            HtmlV { text: h.text, handlers: Seq::empty() },
        ),
{
    lemma_alone(cx, env, ValueV::String { val: s }, fuel);
    lemma_alone(cx, env, ValueV::Bool { val: b }, fuel);
    lemma_alone(cx, env, ValueV::Html(h), fuel);
}

/// A template that is one written value.
proof fn lemma_alone(cx: ContextV, env: Seq<(Symbol, ValueV)>, v: ValueV, fuel: nat)
    requires
        v !is Closure,
        v !is ActionClosure,
    ensures
        is_page(
            page_of(cx, env, seq![HtmlPartV::Expr(ExprV::Literal { val: v })], fuel),
            HtmlV { text: evaluator::shown(v), handlers: Seq::empty() },
        ),
{
    let e = ExprV::Literal { val: v };
    let none = evaluator::empty_page();
    let empty = Seq::<HtmlPartV>::empty();
    assert(evaluator::evaluated(cx, env, e, fuel) == Ok::<ValueV, EvalErrorV>(v));
    assert(evaluator::rendered(cx, env, empty, 0, none, fuel) == Ok::<HtmlV, EvalErrorV>(none));
    lemma_push(cx, env, empty, HtmlPartV::Expr(e), 0, none, fuel);
    assert(empty.push(HtmlPartV::Expr(e)) =~= seq![HtmlPartV::Expr(e)]);
    assert(Seq::<char>::empty() + evaluator::shown(v) =~= evaluator::shown(v));
}

/// A list is shown between brackets, and one more item behind a comma.
pub proof fn lists_are_shown_item_by_item(vals: Seq<ValueV>, v: ValueV, w: ValueV)
    ensures
        evaluator::shown(ValueV::List { vals: Seq::empty() }) == "["@ + "]"@,
        evaluator::shown(ValueV::List { vals: seq![v] }) == "["@ + evaluator::shown(v) + "]"@,
        evaluator::shown(ValueV::List { vals: vals.push(v).push(w) }) == "["@ + text::joined(
            evaluator::shown_all(vals.push(v)),
            ", "@,
        ) + ", "@ + evaluator::shown(w) + "]"@,
{
    reveal_with_fuel(evaluator::shown_all, 3);
    let none = Seq::<ValueV>::empty();
    assert(evaluator::shown(ValueV::List { vals: none }) =~= "["@ + "]"@);
    assert(seq![v].drop_last() =~= none);
    assert(evaluator::shown_all(seq![v]) =~= seq![evaluator::shown(v)]);
    let two = vals.push(v).push(w);
    assert(two.drop_last() =~= vals.push(v));
    let texts = evaluator::shown_all(two);
    assert(texts.drop_last() =~= evaluator::shown_all(vals.push(v)));
    assert(texts.last() == evaluator::shown(w));
    assert(vals.push(v).drop_last() =~= vals);
    assert(texts.len() >= 2);
    assert(evaluator::shown(ValueV::List { vals: two }) =~= "["@ + text::joined(
        evaluator::shown_all(vals.push(v)),
        ", "@,
    ) + ", "@ + evaluator::shown(w) + "]"@);
}

/// Whether a text is made of letters.
pub open spec fn all_letters(s: Seq<char>) -> bool {
    forall|i: int| 0 <= i < s.len() ==> is_letter(#[trigger] s[i])
}

/// Whether a character is a letter.
pub open spec fn is_letter(c: char) -> bool {
    'a' <= c <= 'z' || 'A' <= c <= 'Z'
}

/// Letters begin where what is no letter ends.
proof fn lemma_letters(s: Seq<char>, k: int, p: int)
    requires
        0 <= k <= p <= s.len(),
        forall|i: int| k <= i < p ==> is_letter(#[trigger] s[i]),
        k == 0 || !is_letter(s[k - 1]),
    ensures
        evaluator::letters_begin(s, p) == k,
    decreases p - k,
{
    if k < p {
        assert(is_letter(s[p - 1]));
        lemma_letters(s, k, p - 1);
    }
}

/// An action or a function behind an event attribute becomes the handler of that event, and the
/// attribute is not shown.
pub proof fn actions_handle_the_events_before_them(
    cx: ContextV,
    env: Seq<(Symbol, ValueV)>,
    parts: Seq<HtmlPartV>,
    page: HtmlV,
    head: Seq<char>,
    name: Seq<char>,
    e: ExprV,
    v: ValueV,
    fuel: nat,
)
    requires
        is_page(page_of(cx, env, parts, fuel), page),
        page.text == head + seq!['o', 'n'] + name + seq!['='],
        name.len() > 0,
        all_letters(name),
        head.len() == 0 || !is_letter(head.last()),
        evaluator::evaluated(cx, env, e, fuel) == Ok::<ValueV, EvalErrorV>(v),
        v is Closure || v is ActionClosure,
    ensures
        is_page(
            page_of(cx, env, parts.push(HtmlPartV::Expr(e)), fuel),
            HtmlV { text: head, handlers: page.handlers.push((seq!['o', 'n'] + name, v)) },
        ),
{
    let none = evaluator::empty_page();
    lemma_push(cx, env, parts, HtmlPartV::Expr(e), 0, none, fuel);
    let s = page.text;
    let end = s.len() - 1;
    let k = head.len() as int;
    assert(end == k + 2 + name.len());
    assert forall|i: int| k <= i < end implies is_letter(#[trigger] s[i]) by {
        if i >= k + 2 {
            assert(s[i] == name[i - k - 2]);
        }
    }
    lemma_letters(s, k, end);
    assert(s.subrange(0, k) =~= head);
    assert(s.subrange(k, end) =~= seq!['o', 'n'] + name);
}

} // verus!
