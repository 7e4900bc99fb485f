//! Written updates, read again.

use vstd::prelude::*;

use crate::runtime::ast::{ActionStmtV, DeclV, ExprV, FieldV, HtmlPartV, StmtV};
use crate::runtime::interner;
use crate::runtime::interner::Symbol;
use crate::runtime::parser;
use crate::runtime::parser::grammar;
use crate::runtime::parser::grammar::Infix;
use crate::runtime::parser::lex::{Keyword, Punct, TokenV};
use crate::runtime::tt::types::{ParamV, TypeV};
use crate::runtime::update::printing;
use crate::runtime::update::scanning;
use crate::runtime::update::tokens;

verus! {

/// Whether tokens stand at a position among others.
#[verifier::opaque]
pub open spec fn stands(t: Seq<TokenV>, p: int, ts: Seq<TokenV>) -> bool {
    &&& 0 <= p
    &&& p + ts.len() <= t.len()
    &&& t.subrange(p, p + ts.len()) == ts
}

/// The parts of what stands at a position stand one behind the other.
proof fn lemma_split(t: Seq<TokenV>, p: int, a: Seq<TokenV>, b: Seq<TokenV>)
    requires
        stands(t, p, a + b),
    ensures
        stands(t, p, a),
        stands(t, p + a.len(), b),
        0 <= p,
        p + a.len() + b.len() <= t.len(),
{
    reveal(stands);
    let ab = t.subrange(p, p + (a + b).len());
    assert(t.subrange(p, p + a.len()) =~= a) by {
        assert forall|i: int| 0 <= i < a.len() implies t.subrange(p, p + a.len())[i] == a[i] by {
            assert(ab[i] == (a + b)[i]);
        }
    }
    assert(t.subrange(p + a.len(), p + a.len() + b.len()) =~= b) by {
        assert forall|i: int| 0 <= i < b.len() implies t.subrange(
            p + a.len(),
            p + a.len() + b.len(),
        )[i] == b[i] by {
            assert(ab[i + a.len()] == (a + b)[i + a.len()]);
        }
    }
}

/// A single token at a position.
proof fn lemma_one(t: Seq<TokenV>, p: int, x: TokenV)
    requires
        stands(t, p, seq![x]),
    ensures
        0 <= p < t.len(),
        t[p] == x,
{
    reveal(stands);
    assert(t.subrange(p, p + 1)[0] == seq![x][0]);
}

/// The first tokens of what stands at a position.
proof fn lemma_nth(t: Seq<TokenV>, p: int, ts: Seq<TokenV>, i: int)
    requires
        stands(t, p, ts),
        0 <= i < ts.len(),
    ensures
        0 <= p,
        p + ts.len() <= t.len(),
        t[p + i] == ts[i],
{
    reveal(stands);
    assert(t.subrange(p, p + ts.len())[i] == ts[i]);
}

/// The three parts of what stands at a position.
proof fn lemma_parts3(
    t: Seq<TokenV>,
    p: int,
    a: Seq<TokenV>,
    b: Seq<TokenV>,
    c: Seq<TokenV>,
)
    requires
        stands(t, p, a + b + c),
    ensures
        stands(t, p, a),
        stands(t, p + a.len(), b),
        stands(t, p + a.len() + b.len(), c),
        0 <= p,
        p + a.len() + b.len() + c.len() <= t.len(),
{
    lemma_split(t, p, a + b, c);
    lemma_split(t, p, a, b);
}

/// The four parts of what stands at a position.
proof fn lemma_parts4(
    t: Seq<TokenV>,
    p: int,
    a: Seq<TokenV>,
    b: Seq<TokenV>,
    c: Seq<TokenV>,
    d: Seq<TokenV>,
)
    requires
        stands(t, p, a + b + c + d),
    ensures
        stands(t, p, a),
        stands(t, p + a.len(), b),
        stands(t, p + a.len() + b.len(), c),
        stands(t, p + a.len() + b.len() + c.len(), d),
        0 <= p,
        p + a.len() + b.len() + c.len() + d.len() <= t.len(),
{
    lemma_split(t, p, a + b + c, d);
    lemma_parts3(t, p, a, b, c);
}

/// The five parts of what stands at a position.
proof fn lemma_parts5(
    t: Seq<TokenV>,
    p: int,
    a: Seq<TokenV>,
    b: Seq<TokenV>,
    c: Seq<TokenV>,
    d: Seq<TokenV>,
    e: Seq<TokenV>,
)
    requires
        stands(t, p, a + b + c + d + e),
    ensures
        stands(t, p, a),
        stands(t, p + a.len(), b),
        stands(t, p + a.len() + b.len(), c),
        stands(t, p + a.len() + b.len() + c.len(), d),
        stands(t, p + a.len() + b.len() + c.len() + d.len(), e),
        0 <= p,
        p + a.len() + b.len() + c.len() + d.len() + e.len() <= t.len(),
{
    lemma_split(t, p, a + b + c + d, e);
    lemma_parts4(t, p, a, b, c, d);
}

/// The six parts of what stands at a position.
proof fn lemma_parts6(
    t: Seq<TokenV>,
    p: int,
    a: Seq<TokenV>,
    b: Seq<TokenV>,
    c: Seq<TokenV>,
    d: Seq<TokenV>,
    e: Seq<TokenV>,
    f: Seq<TokenV>,
)
    requires
        stands(t, p, a + b + c + d + e + f),
    ensures
        stands(t, p, a),
        stands(t, p + a.len(), b),
        stands(t, p + a.len() + b.len(), c),
        stands(t, p + a.len() + b.len() + c.len(), d),
        stands(t, p + a.len() + b.len() + c.len() + d.len(), e),
        stands(t, p + a.len() + b.len() + c.len() + d.len() + e.len(), f),
        0 <= p,
        p + a.len() + b.len() + c.len() + d.len() + e.len() + f.len() <= t.len(),
{
    lemma_split(t, p, a + b + c + d + e, f);
    lemma_parts5(t, p, a, b, c, d, e);
}

/// What stands in a row without separators.
proof fn lemma_listed_step(parts: Seq<Seq<TokenV>>, i: int)
    requires
        0 <= i < parts.len(),
    ensures
        tokens::listed(parts, Seq::empty(), i) == parts[i] + tokens::listed(
            parts,
            Seq::empty(),
            i + 1,
        ),
{
    let none = Seq::<TokenV>::empty();
    let rest = tokens::listed(parts, none, i + 1);
    assert(parts[i] + none + rest =~= parts[i] + rest);
    if i + 1 == parts.len() {
        assert(parts[i] =~= parts[i] + rest);
    }
}

/// What a written type starts with.
proof fn lemma_type_head(ty: TypeV)
    requires
        tokens::type_fits(ty),
    ensures
        tokens::type_tokens(ty).len() > 0,
        tokens::type_tokens(ty)[0] != TokenV::Mark(Punct::RParen),
{
    match ty {
        TypeV::Tuple(ts) => {
            assert(tokens::type_tokens(ty)[0] == TokenV::Mark(Punct::LParen));
        },
        TypeV::Func { params, ret } => {
            assert(tokens::type_tokens(ty)[0] == TokenV::Mark(Punct::LParen));
        },
        _ => {},
    }
}

/// A written type is read again.
proof fn lemma_read_type(t: Seq<TokenV>, p: int, ty: TypeV)
    requires
        tokens::type_fits(ty),
        stands(t, p, tokens::type_tokens(ty)),
        !grammar::is_mark(t, p + tokens::type_tokens(ty).len(), Punct::Arrow),
    ensures
        grammar::g_type(t, p) == Ok::<(TypeV, int), int>(
            (ty, p + tokens::type_tokens(ty).len()),
        ),
    decreases ty, 1int,
{
    let q = p + tokens::type_tokens(ty).len();
    match ty {
        TypeV::Tuple(ts) => {
            lemma_read_atom(t, p, ts, tokens::mark(Punct::RParen));
        },
        TypeV::Func { params, ret } => {
            let open = tokens::mark(Punct::LParen);
            let inner = tokens::listed(
                tokens::type_token_lists(params),
                tokens::mark(Punct::Comma),
                0,
            );
            let close = tokens::mark(Punct::RParen) + tokens::mark(Punct::Arrow);
            lemma_split(t, p, open + inner + close, tokens::type_tokens(*ret));
            lemma_read_atom(t, p, params, close);
            lemma_split(t, p, open + inner, close);
            lemma_split(
                t,
                p + (open + inner).len(),
                tokens::mark(Punct::RParen),
                tokens::mark(Punct::Arrow),
            );
            lemma_one(t, p + (open + inner).len() + 1, TokenV::Mark(Punct::Arrow));
            lemma_read_type(t, p + (open + inner + close).len(), *ret);
        },
        _ => {
            let x = tokens::type_tokens(ty)[0];
            assert(tokens::type_tokens(ty) =~= seq![x]);
            lemma_one(t, p, x);
        },
    }
}

/// Written types in brackets are read again. `rest` starts with the closing bracket.
proof fn lemma_read_atom(t: Seq<TokenV>, p: int, ts: Seq<TypeV>, rest: Seq<TokenV>)
    requires
        tokens::types_fit(ts),
        stands(
            t,
            p,
            tokens::mark(Punct::LParen) + tokens::listed(
                tokens::type_token_lists(ts),
                tokens::mark(Punct::Comma),
                0,
            ) + rest,
        ),
        rest.len() > 0,
        rest[0] == TokenV::Mark(Punct::RParen),
    ensures
        grammar::g_type_atom(t, p) == Ok::<(Seq<TypeV>, int), int>(
            (
                ts,
                p + 2 + tokens::listed(
                    tokens::type_token_lists(ts),
                    tokens::mark(Punct::Comma),
                    0,
                ).len(),
            ),
        ),
    decreases ts, ts.len() + 1,
{
    let open = tokens::mark(Punct::LParen);
    let inner = tokens::listed(tokens::type_token_lists(ts), tokens::mark(Punct::Comma), 0);
    lemma_split(t, p, open + inner, rest);
    lemma_split(t, p, open, inner);
    lemma_one(t, p, TokenV::Mark(Punct::LParen));
    lemma_nth(t, p + (open + inner).len(), rest, 0);
    if ts.len() == 0 {
        assert(inner.len() == 0);
        assert(ts =~= Seq::<TypeV>::empty());
    } else {
        scanning::lemma_type_lists(ts, 0);
        assert(tokens::type_fits(ts[0]));
        lemma_type_head(ts[0]);
        assert(inner[0] == tokens::type_tokens(ts[0])[0]);
        lemma_nth(t, p + 1, inner, 0);
        lemma_read_types(t, p + 1, ts, 0, Seq::empty());
        assert(Seq::<TypeV>::empty() + ts.skip(0) =~= ts);
    }
}

/// Written types with commas between them are read again.
proof fn lemma_read_types(t: Seq<TokenV>, p: int, ts: Seq<TypeV>, i: int, found: Seq<TypeV>)
    requires
        tokens::types_fit(ts),
        0 <= i < ts.len(),
        stands(
            t,
            p,
            tokens::listed(tokens::type_token_lists(ts), tokens::mark(Punct::Comma), i),
        ),
        grammar::is_mark(
            t,
            p + tokens::listed(
                tokens::type_token_lists(ts),
                tokens::mark(Punct::Comma),
                i,
            ).len(),
            Punct::RParen,
        ),
    ensures
        grammar::g_types(t, p, found) == Ok::<(Seq<TypeV>, int), int>(
            (
                found + ts.skip(i),
                p + tokens::listed(
                    tokens::type_token_lists(ts),
                    tokens::mark(Punct::Comma),
                    i,
                ).len(),
            ),
        ),
        tokens::listed(tokens::type_token_lists(ts), tokens::mark(Punct::Comma), i).len() > 0,
    decreases ts, ts.len() - i,
{
    let lists = tokens::type_token_lists(ts);
    let comma = tokens::mark(Punct::Comma);
    scanning::lemma_type_lists(ts, i);
    assert(tokens::type_fits(ts[i]));
    lemma_type_head(ts[i]);
    if i + 1 < ts.len() {
        let rest = tokens::listed(lists, comma, i + 1);
        lemma_parts3(t, p, lists[i], comma, rest);
        lemma_one(t, p + lists[i].len(), TokenV::Mark(Punct::Comma));
        lemma_read_type(t, p, ts[i]);
        lemma_read_types(t, p + lists[i].len() + 1, ts, i + 1, found.push(ts[i]));
        assert(found.push(ts[i]) + ts.skip(i + 1) =~= found + ts.skip(i));
    } else {
        lemma_read_type(t, p, ts[i]);
        assert(found.push(ts[i]) =~= found + ts.skip(i));
    }
}

/// A written name and type are read again.
proof fn lemma_read_typed(
    t: Seq<TokenV>,
    p: int,
    x: Symbol,
    ty: Option<TypeV>,
    names: Seq<Seq<char>>,
)
    requires
        tokens::typed_fits(names, x, ty),
        stands(t, p, tokens::typed_tokens(x, ty)),
        !grammar::is_mark(t, p + tokens::typed_tokens(x, ty).len(), Punct::Arrow),
        !grammar::is_mark(t, p + tokens::typed_tokens(x, ty).len(), Punct::Colon),
    ensures
        grammar::ident_at(t, p) == Some(x),
        grammar::g_annotation(t, p + 1) == Ok::<(Option<TypeV>, int), int>(
            (ty, p + tokens::typed_tokens(x, ty).len()),
        ),
        tokens::typed_tokens(x, ty).len() > 0,
        tokens::typed_tokens(x, ty)[0] == TokenV::Ident(x),
{
    reveal(grammar::g_annotation);
    match ty {
        Some(u) => {
            let colon = tokens::mark(Punct::Colon);
            lemma_split(t, p, tokens::ident(x) + colon, tokens::type_tokens(u));
            lemma_split(t, p, tokens::ident(x), colon);
            lemma_one(t, p, TokenV::Ident(x));
            lemma_one(t, p + 1, TokenV::Mark(Punct::Colon));
            lemma_read_type(t, p + 2, u);
        },
        None => {
            lemma_one(t, p, TokenV::Ident(x));
        },
    }
}

/// Written parameters are read again.
proof fn lemma_read_params(
    t: Seq<TokenV>,
    p: int,
    ps: Seq<ParamV>,
    i: int,
    found: Seq<ParamV>,
    names: Seq<Seq<char>>,
)
    requires
        forall|j: int|
            0 <= j < ps.len() ==> tokens::typed_fits(names, (#[trigger] ps[j]).name, ps[j].ty),
        0 <= i < ps.len(),
        stands(
            t,
            p,
            tokens::listed(tokens::param_token_lists(ps), tokens::mark(Punct::Comma), i),
        ),
        grammar::is_mark(
            t,
            p + tokens::listed(
                tokens::param_token_lists(ps),
                tokens::mark(Punct::Comma),
                i,
            ).len(),
            Punct::RParen,
        ),
    ensures
        grammar::g_param_list(t, p, found) == Ok::<(Seq<ParamV>, int), int>(
            (
                found + ps.skip(i),
                p + 1 + tokens::listed(
                    tokens::param_token_lists(ps),
                    tokens::mark(Punct::Comma),
                    i,
                ).len(),
            ),
        ),
    decreases ps.len() - i,
{
    let lists = tokens::param_token_lists(ps);
    let comma = tokens::mark(Punct::Comma);
    let one = tokens::typed_tokens(ps[i].name, ps[i].ty);
    assert(lists[i] == one);
    if i + 1 < ps.len() {
        let rest = tokens::listed(lists, comma, i + 1);
        lemma_parts3(t, p, one, comma, rest);
        lemma_one(t, p + one.len(), TokenV::Mark(Punct::Comma));
        lemma_read_typed(t, p, ps[i].name, ps[i].ty, names);
        lemma_read_params(t, p + one.len() + 1, ps, i + 1, found.push(ps[i]), names);
        assert(found.push(ps[i]) + ps.skip(i + 1) =~= found + ps.skip(i));
    } else {
        lemma_read_typed(t, p, ps[i].name, ps[i].ty, names);
        assert(found.push(ps[i]) =~= found + ps.skip(i));
    }
}

/// Written names are read again.
proof fn lemma_read_names(t: Seq<TokenV>, p: int, xs: Seq<Symbol>, i: int, found: Seq<Symbol>)
    requires
        0 <= i < xs.len(),
        stands(
            t,
            p,
            tokens::listed(tokens::name_token_lists(xs), tokens::mark(Punct::Comma), i),
        ),
        !grammar::is_mark(
            t,
            p + tokens::listed(
                tokens::name_token_lists(xs),
                tokens::mark(Punct::Comma),
                i,
            ).len(),
            Punct::Comma,
        ),
    ensures
        grammar::g_names(t, p, found) == Ok::<(Seq<Symbol>, int), int>(
            (
                found + xs.skip(i),
                p + tokens::listed(
                    tokens::name_token_lists(xs),
                    tokens::mark(Punct::Comma),
                    i,
                ).len(),
            ),
        ),
    decreases xs.len() - i,
{
    let lists = tokens::name_token_lists(xs);
    let comma = tokens::mark(Punct::Comma);
    let one = tokens::ident(xs[i]);
    assert(lists[i] == one);
    if i + 1 < xs.len() {
        let rest = tokens::listed(lists, comma, i + 1);
        lemma_parts3(t, p, one, comma, rest);
        lemma_one(t, p, TokenV::Ident(xs[i]));
        lemma_one(t, p + 1, TokenV::Mark(Punct::Comma));
        lemma_read_names(t, p + 2, xs, i + 1, found.push(xs[i]));
        assert(found.push(xs[i]) + xs.skip(i + 1) =~= found + xs.skip(i));
    } else {
        lemma_one(t, p, TokenV::Ident(xs[i]));
        assert(found.push(xs[i]) =~= found + xs.skip(i));
    }
}

/// What a written expression can start with: no closing mark, no word that opens a statement, and
/// no name with `=` behind it.
pub open spec fn expr_head(ts: Seq<TokenV>) -> bool {
    &&& ts.len() > 0
    &&& ts[0] != TokenV::Mark(Punct::RParen)
    &&& ts[0] != TokenV::Mark(Punct::RBracket)
    &&& ts[0] != TokenV::Mark(Punct::RBrace)
    &&& ts[0] != TokenV::Word(Keyword::Let)
    &&& ts[0] != TokenV::Word(Keyword::Do)
    &&& ts[0] != TokenV::Word(Keyword::Assert)
    &&& ts[0] != TokenV::Word(Keyword::Insert)
    &&& ts[0] is Ident && ts.len() > 1 ==> ts[1] != TokenV::Mark(Punct::Eq)
}

/// What a written operand can start with: no word that opens an expression that is none, and no
/// name with a colon behind it.
pub open spec fn operand_head(ts: Seq<TokenV>) -> bool {
    &&& expr_head(ts)
    &&& ts[0] != TokenV::Word(Keyword::If)
    &&& ts[0] != TokenV::Word(Keyword::Fn)
    &&& ts[0] != TokenV::Word(Keyword::Select)
    &&& ts[0] != TokenV::Word(Keyword::Fold)
    &&& ts[0] is Ident && ts.len() > 1 ==> ts[1] != TokenV::Mark(Punct::Colon)
}

/// The tokens of an operand of a level.
pub open spec fn operand(e: ExprV, level: int) -> Seq<TokenV> {
    tokens::enclosed(tokens::expr_tokens(e), printing::tightness(e) < level)
}

/// What stands behind an operand that starts an expression does not change its start.
proof fn lemma_head_behind(a: Seq<TokenV>, m: Punct, b: Seq<TokenV>)
    requires
        operand_head(a),
        m != Punct::Eq,
        m != Punct::Colon,
    ensures
        operand_head(a + tokens::mark(m) + b),
{
    let ts = a + tokens::mark(m) + b;
    assert(ts[0] == a[0]);
    if a.len() > 1 {
        assert(ts[1] == a[1]);
    } else {
        assert(ts[1] == TokenV::Mark(m));
    }
}

/// What a written expression starts with.
proof fn lemma_head(e: ExprV, names: Seq<Seq<char>>)
    requires
        tokens::fits(e, names),
    ensures
        expr_head(tokens::expr_tokens(e)),
        printing::tightness(e) >= 0 ==> operand_head(tokens::expr_tokens(e)),
    decreases e, 0int,
{
    let ts = tokens::expr_tokens(e);
    match e {
        ExprV::MemberAccess { service_name, member_name } => {
            assert(ts[1] == TokenV::Mark(Punct::Dot));
        },
        ExprV::Call { func, args } => {
            let a = operand(*func, grammar::LEVELS + 1);
            lemma_operand_head(*func, grammar::LEVELS + 1, names);
            let inner = tokens::listed(
                tokens::expr_token_lists(args),
                tokens::mark(Punct::Comma),
                0,
            );
            let close = tokens::mark(Punct::RParen);
            lemma_head_behind(a, Punct::LParen, inner + close);
            assert(ts =~= a + tokens::mark(Punct::LParen) + (inner + close));
        },
        ExprV::Binop { op, expr1, expr2 } => {
            let level = printing::op_level(op);
            lemma_operand_head(*expr1, level, names);
            lemma_head_behind(
                operand(*expr1, level),
                tokens::op_mark(op),
                operand(*expr2, level + 1),
            );
        },
        ExprV::Range { start, end } => {
            lemma_operand_head(*start, 3, names);
            lemma_head_behind(operand(*start, 3), Punct::DotDot, operand(*end, 4));
        },
        ExprV::Unop { op, expr } => {
            assert(ts[0] == TokenV::Mark(tokens::sign_mark(op)));
        },
        ExprV::Tuple { val } => {
            if val.len() < 2 {
                assert(ts[0] == TokenV::Mark(Punct::LBrace));
            } else {
                assert(ts[0] == TokenV::Mark(Punct::LParen));
            }
        },
        ExprV::List(val) => {
            assert(ts[0] == TokenV::Mark(Punct::LBracket));
        },
        ExprV::If { .. } => {
            assert(ts[0] == TokenV::Word(Keyword::If));
        },
        ExprV::Func { .. } => {
            assert(ts[0] == TokenV::Word(Keyword::Fn));
        },
        ExprV::Select { .. } => {
            assert(ts[0] == TokenV::Word(Keyword::Select));
        },
        ExprV::Fold { .. } => {
            assert(ts[0] == TokenV::Word(Keyword::Fold));
        },
        ExprV::Action(_) => {
            assert(ts[0] == TokenV::Word(Keyword::Action));
        },
        ExprV::Html(parts) => {
            lemma_page_head(parts, true, names);
        },
        ExprV::KeyVal { .. } => {
            assert(ts[1] == TokenV::Mark(Punct::Colon));
        },
        _ => {},
    }
}

/// What a written page starts with.
proof fn lemma_page_head(parts: Seq<HtmlPartV>, last: bool, names: Seq<Seq<char>>)
    requires
        tokens::parts_fit(parts, names),
    ensures
        tokens::page_tokens(parts, last).len() > 0,
        tokens::page_tokens(parts, last)[0] is Markup,
    decreases parts.len(),
{
    assert(parts[parts.len() - 1] is Text);
    if parts.len() > 1 {
        tokens::lemma_shorter_page(parts, names);
        assert(parts.drop_last().last() == parts[parts.len() - 2]);
        let shorter = parts.drop_last().drop_last();
        lemma_page_head(shorter, false, names);
        let head = tokens::page_tokens(shorter, false);
        let before = tokens::page_tokens(parts.drop_last(), false);
        assert(before[0] == head[0]);
        assert(tokens::page_tokens(parts, last)[0] == before[0]);
    } else {
        assert(parts.drop_last().len() == 0);
        assert(tokens::page_tokens(parts.drop_last(), false).len() == 0);
    }
}

/// What a written operand starts with.
proof fn lemma_operand_head(e: ExprV, level: int, names: Seq<Seq<char>>)
    requires
        tokens::fits(e, names),
        level >= 0,
    ensures
        operand_head(operand(e, level)),
    decreases e, 1int,
{
    lemma_head(e, names);
    if printing::tightness(e) < level {
        assert(operand(e, level)[0] == TokenV::Mark(Punct::LParen));
    }
}

/// Whether what stands at a position ends an operand of a level: no call, no member, and no
/// operator that binds tighter.
pub open spec fn quiet(t: Seq<TokenV>, q: int, level: int) -> bool {
    &&& !grammar::is_mark(t, q, Punct::LParen)
    &&& !grammar::is_mark(t, q, Punct::Dot)
    &&& forall|k: int|
        level < k < grammar::LEVELS ==> #[trigger] grammar::infix_at(t, q, k) is None
}

/// Whether what stands at a position ends an expression.
pub open spec fn stops(t: Seq<TokenV>, q: int) -> bool {
    q < t.len() ==> {
        ||| t[q] == TokenV::Mark(Punct::Comma)
        ||| t[q] == TokenV::Mark(Punct::RParen)
        ||| t[q] == TokenV::Mark(Punct::RBracket)
        ||| t[q] == TokenV::Mark(Punct::RBrace)
        ||| t[q] == TokenV::Mark(Punct::Semi)
        ||| t[q] == TokenV::Word(Keyword::Then)
        ||| t[q] == TokenV::Word(Keyword::Else)
        ||| t[q] == TokenV::Word(Keyword::Into)
        ||| t[q] is Markup
    }
}

/// The infix operator and the operands of an expression that has one.
pub open spec fn infix_of(e: ExprV) -> Option<(Infix, int, ExprV, ExprV)> {
    match e {
        ExprV::Binop { op, expr1, expr2 } => Some(
            (Infix::Op(op), printing::op_level(op), *expr1, *expr2),
        ),
        ExprV::Range { start, end } => Some((Infix::Span, 3, *start, *end)),
        _ => None,
    }
}

/// The mark of an infix operator.
pub open spec fn infix_mark(i: Infix) -> Punct {
    match i {
        Infix::Op(op) => tokens::op_mark(op),
        Infix::Span => Punct::DotDot,
    }
}

/// A written operand is read again, up to the operators of its level.
proof fn lemma_read_infix(
    t: Seq<TokenV>,
    p: int,
    e: ExprV,
    level: int,
    names: Seq<Seq<char>>,
)
    requires
        0 <= level <= grammar::LEVELS,
        tokens::fits(e, names),
        printing::tightness(e) >= level,
        stands(t, p, tokens::expr_tokens(e)),
        quiet(t, p + tokens::expr_tokens(e).len(), level),
    ensures
        tokens::expr_tokens(e).len() > 0,
        level < grammar::LEVELS ==> grammar::g_infix(t, p, level) == grammar::g_infix_rest(
            t,
            p + tokens::expr_tokens(e).len(),
            level,
            e,
        ),
        level == grammar::LEVELS ==> grammar::g_infix(t, p, level) == Ok::<(ExprV, int), int>(
            (e, p + tokens::expr_tokens(e).len()),
        ),
    decreases e, 20 - level,
{
    let q = p + tokens::expr_tokens(e).len();
    lemma_head(e, names);
    lemma_nth(t, p, tokens::expr_tokens(e), 0);
    if level == grammar::LEVELS {
        lemma_read_unary(t, p, e, names);
    } else if infix_of(e) is Some && (infix_of(e)->0).1 == level {
        let (i, _, a, b) = infix_of(e)->0;
        let ta = operand(a, level);
        let tb = operand(b, level + 1);
        let m = infix_mark(i);
        lemma_parts3(t, p, ta, tokens::mark(m), tb);
        lemma_one(t, p + ta.len(), TokenV::Mark(m));
        let r = p + ta.len();
        assert(grammar::infix_at(t, r, level) == Some(i));
        assert(quiet(t, r, level));
        lemma_read_operand(t, p, a, level, names);
        assert(quiet(t, q, level + 1)) by {
            assert forall|k: int| level + 1 < k < grammar::LEVELS implies #[trigger]
                grammar::infix_at(t, q, k) is None by {}
        }
        lemma_read_operand(t, r + 1, b, level + 1, names);
        if level + 1 < grammar::LEVELS {
            assert(grammar::infix_at(t, q, level + 1) is None);
        }
        assert(grammar::g_infix(t, r + 1, level + 1) == Ok::<(ExprV, int), int>((b, q)));
        assert(grammar::infixed(i, a, b) == e);
    } else {
        assert(quiet(t, q, level + 1)) by {
            assert forall|k: int| level + 1 < k < grammar::LEVELS implies #[trigger]
                grammar::infix_at(t, q, k) is None by {}
        }
        lemma_read_infix(t, p, e, level + 1, names);
        if level + 1 < grammar::LEVELS {
            assert(grammar::infix_at(t, q, level + 1) is None);
        }
        assert(grammar::g_infix(t, p, level + 1) == Ok::<(ExprV, int), int>((e, q)));
    }
}

/// What is read as an operand with signs is read as one of a level, where no operator follows that
/// binds tighter.
proof fn lemma_lift(t: Seq<TokenV>, p: int, q: int, e: ExprV, level: int)
    requires
        0 <= level <= grammar::LEVELS,
        grammar::g_unary(t, p) == Ok::<(ExprV, int), int>((e, q)),
        grammar::ends(t, p, q),
        quiet(t, q, level),
    ensures
        level < grammar::LEVELS ==> grammar::g_infix(t, p, level) == grammar::g_infix_rest(
            t,
            q,
            level,
            e,
        ),
        level == grammar::LEVELS ==> grammar::g_infix(t, p, level) == Ok::<(ExprV, int), int>(
            (e, q),
        ),
    decreases grammar::LEVELS - level,
{
    if level < grammar::LEVELS {
        assert(quiet(t, q, level + 1)) by {
            assert forall|k: int| level + 1 < k < grammar::LEVELS implies #[trigger]
                grammar::infix_at(t, q, k) is None by {}
        }
        lemma_lift(t, p, q, e, level + 1);
        if level + 1 < grammar::LEVELS {
            assert(grammar::infix_at(t, q, level + 1) is None);
        }
    }
}

/// A written operand, in brackets or not, is read again, up to the operators of its level.
proof fn lemma_read_operand(
    t: Seq<TokenV>,
    p: int,
    e: ExprV,
    level: int,
    names: Seq<Seq<char>>,
)
    requires
        0 <= level <= grammar::LEVELS,
        tokens::fits(e, names),
        stands(t, p, operand(e, level)),
        quiet(t, p + operand(e, level).len(), level),
    ensures
        operand(e, level).len() > 0,
        level < grammar::LEVELS ==> grammar::g_infix(t, p, level) == grammar::g_infix_rest(
            t,
            p + operand(e, level).len(),
            level,
            e,
        ),
        level == grammar::LEVELS ==> grammar::g_infix(t, p, level) == Ok::<(ExprV, int), int>(
            (e, p + operand(e, level).len()),
        ),
    decreases e, 40int,
{
    if printing::tightness(e) < level {
        let q = p + operand(e, level).len();
        lemma_read_bracketed(t, p, e, names);
        lemma_plain_step(t, p, q, e);
        lemma_lift(t, p, q, e, level);
    } else {
        lemma_read_infix(t, p, e, level, names);
    }
}

/// How a single expression in brackets is read.
proof fn lemma_bracket_step(t: Seq<TokenV>, p: int, q: int, e: ExprV)
    requires
        grammar::is_mark(t, p, Punct::LParen),
        grammar::g_expr(t, p + 1) == Ok::<(ExprV, int), int>((e, q)),
        grammar::ends(t, p + 1, q),
        grammar::is_mark(t, q, Punct::RParen),
    ensures
        grammar::g_primary(t, p) == Ok::<(ExprV, int), int>((e, q + 1)),
{
    assert(grammar::g_item_list(t, p + 1, Punct::RParen, Seq::empty()) == Ok::<
        (Seq<ExprV>, int),
        int,
    >((Seq::empty().push(e), q + 1)));
}

/// A written expression in brackets is read again.
proof fn lemma_read_bracketed(t: Seq<TokenV>, p: int, e: ExprV, names: Seq<Seq<char>>)
    requires
        tokens::fits(e, names),
        stands(t, p, tokens::enclosed(tokens::expr_tokens(e), true)),
    ensures
        grammar::g_primary(t, p) == Ok::<(ExprV, int), int>(
            (e, p + tokens::expr_tokens(e).len() + 2),
        ),
        grammar::ends(t, p, p + tokens::expr_tokens(e).len() + 2),
        grammar::is_mark(t, p, Punct::LParen),
    decreases e, 35int,
{
    let a = tokens::expr_tokens(e);
    lemma_parts3(t, p, tokens::mark(Punct::LParen), a, tokens::mark(Punct::RParen));
    lemma_one(t, p, TokenV::Mark(Punct::LParen));
    lemma_one(t, p + 1 + a.len(), TokenV::Mark(Punct::RParen));
    lemma_head(e, names);
    lemma_read_expr(t, p + 1, e, names);
    lemma_bracket_step(t, p, p + 1 + a.len(), e);
}

/// A written operand with signs is read again.
proof fn lemma_read_unary(t: Seq<TokenV>, p: int, e: ExprV, names: Seq<Seq<char>>)
    requires
        tokens::fits(e, names),
        printing::tightness(e) >= grammar::LEVELS,
        stands(t, p, tokens::expr_tokens(e)),
        quiet(t, p + tokens::expr_tokens(e).len(), grammar::LEVELS as int),
    ensures
        grammar::g_unary(t, p) == Ok::<(ExprV, int), int>(
            (e, p + tokens::expr_tokens(e).len()),
        ),
    decreases e, 3int,
{
    match e {
        ExprV::Unop { op, expr } => {
            lemma_split(
                t,
                p,
                tokens::mark(tokens::sign_mark(op)),
                operand(*expr, grammar::LEVELS as int),
            );
            lemma_one(t, p, TokenV::Mark(tokens::sign_mark(op)));
            lemma_read_operand(t, p + 1, *expr, grammar::LEVELS as int, names);
        },
        _ => {
            lemma_read_callee(t, p, e, names);
        },
    }
}

/// How the arguments of a call are read.
proof fn lemma_call_step(t: Seq<TokenV>, p: int, q: int, func: ExprV, args: Seq<ExprV>)
    requires
        grammar::is_mark(t, p, Punct::LParen),
        grammar::g_items(t, p + 1, Punct::RParen) == Ok::<(Seq<ExprV>, int), int>((args, q)),
        grammar::ends(t, p, q),
    ensures
        grammar::g_calls(t, p, func) == grammar::g_calls(
            t,
            q,
            ExprV::Call { func: Box::new(func), args },
        ),
{
}

/// How what is no sign is read.
proof fn lemma_plain_step(t: Seq<TokenV>, p: int, q: int, e: ExprV)
    requires
        !grammar::is_mark(t, p, Punct::Minus),
        !grammar::is_mark(t, p, Punct::Bang),
        grammar::g_primary(t, p) == Ok::<(ExprV, int), int>((e, q)),
        grammar::ends(t, p, q),
    ensures
        grammar::g_unary(t, p) == grammar::g_calls(t, q, e),
{
}

/// A written callee is read again, up to its arguments.
proof fn lemma_read_callee(t: Seq<TokenV>, p: int, e: ExprV, names: Seq<Seq<char>>)
    requires
        tokens::fits(e, names),
        printing::tightness(e) > grammar::LEVELS,
        stands(t, p, tokens::expr_tokens(e)),
        !grammar::is_mark(t, p + tokens::expr_tokens(e).len(), Punct::Dot),
    ensures
        grammar::g_unary(t, p) == grammar::g_calls(t, p + tokens::expr_tokens(e).len(), e),
    decreases e, 2int,
{
    let q = p + tokens::expr_tokens(e).len();
    match e {
        ExprV::Call { func, args } => {
            let f = operand(*func, grammar::LEVELS + 1);
            let open = tokens::mark(Punct::LParen);
            let inner = tokens::listed(
                tokens::expr_token_lists(args),
                tokens::mark(Punct::Comma),
                0,
            );
            let close = tokens::mark(Punct::RParen);
            lemma_parts4(t, p, f, open, inner, close);
            lemma_one(t, p + f.len(), TokenV::Mark(Punct::LParen));
            lemma_one(t, q - 1, TokenV::Mark(Punct::RParen));
            if printing::tightness(*func) < grammar::LEVELS + 1 {
                lemma_read_bracketed(t, p, *func, names);
                lemma_plain_step(t, p, p + f.len(), *func);
            } else {
                lemma_read_callee(t, p, *func, names);
            }
            lemma_read_items(t, p + f.len() + 1, args, Punct::RParen, names);
            lemma_call_step(t, p + f.len(), q, *func, args);
        },
        _ => {
            lemma_read_primary(t, p, e, names);
            lemma_plain_step(t, p, q, e);
        },
    }
}

/// A written literal, name, member or bracket is read again.
proof fn lemma_read_primary(t: Seq<TokenV>, p: int, e: ExprV, names: Seq<Seq<char>>)
    requires
        tokens::fits(e, names),
        printing::tightness(e) > grammar::LEVELS,
        e !is Call,
        stands(t, p, tokens::expr_tokens(e)),
        !grammar::is_mark(t, p + tokens::expr_tokens(e).len(), Punct::Dot),
    ensures
        grammar::g_primary(t, p) == Ok::<(ExprV, int), int>(
            (e, p + tokens::expr_tokens(e).len()),
        ),
        grammar::ends(t, p, p + tokens::expr_tokens(e).len()),
        !grammar::is_mark(t, p, Punct::Minus),
        !grammar::is_mark(t, p, Punct::Bang),
    decreases e, 1int,
{
    match e {
        ExprV::Tuple { .. } => lemma_read_tuple(t, p, e, names),
        ExprV::List(_) => lemma_read_list(t, p, e, names),
        ExprV::Action(_) => lemma_read_action(t, p, e, names),
        ExprV::Html(parts) => lemma_read_page(t, p, parts, true, names),
        _ => lemma_read_leaf(t, p, e, names),
    }
}

/// A written literal, name or member is read again.
proof fn lemma_read_leaf(t: Seq<TokenV>, p: int, e: ExprV, names: Seq<Seq<char>>)
    requires
        e is Literal || e is Variable || e is MemberAccess,
        tokens::fits(e, names),
        stands(t, p, tokens::expr_tokens(e)),
        !grammar::is_mark(t, p + tokens::expr_tokens(e).len(), Punct::Dot),
    ensures
        grammar::g_primary(t, p) == Ok::<(ExprV, int), int>(
            (e, p + tokens::expr_tokens(e).len()),
        ),
        grammar::ends(t, p, p + tokens::expr_tokens(e).len()),
        t[p] !is Mark,
{
    match e {
        ExprV::Literal { val } => {
            lemma_one(t, p, tokens::literal_token(val));
        },
        ExprV::Variable { name } => {
            lemma_one(t, p, TokenV::Ident(name));
        },
        ExprV::MemberAccess { service_name, member_name } => {
            let dot = tokens::mark(Punct::Dot);
            lemma_parts3(t, p, tokens::ident(service_name), dot, tokens::ident(member_name));
            lemma_one(t, p, TokenV::Ident(service_name));
            lemma_one(t, p + 1, TokenV::Mark(Punct::Dot));
            lemma_one(t, p + 2, TokenV::Ident(member_name));
        },
        _ => {},
    }
}

/// A written tuple is read again.
proof fn lemma_read_tuple(t: Seq<TokenV>, p: int, e: ExprV, names: Seq<Seq<char>>)
    requires
        e is Tuple,
        tokens::fits(e, names),
        stands(t, p, tokens::expr_tokens(e)),
    ensures
        grammar::g_primary(t, p) == Ok::<(ExprV, int), int>(
            (e, p + tokens::expr_tokens(e).len()),
        ),
        grammar::ends(t, p, p + tokens::expr_tokens(e).len()),
        t[p] is Mark,
        t[p] != TokenV::Mark(Punct::Minus),
        t[p] != TokenV::Mark(Punct::Bang),
    decreases e, 0int,
{
    let val = e->Tuple_val;
    let inner = tokens::listed(tokens::expr_token_lists(val), tokens::mark(Punct::Comma), 0);
    if val.len() < 2 {
        lemma_parts3(t, p, tokens::mark(Punct::LBrace), inner, tokens::mark(Punct::RBrace));
        lemma_one(t, p, TokenV::Mark(Punct::LBrace));
        lemma_one(t, p + 1 + inner.len(), TokenV::Mark(Punct::RBrace));
        lemma_read_items(t, p + 1, val, Punct::RBrace, names);
    } else {
        lemma_parts3(t, p, tokens::mark(Punct::LParen), inner, tokens::mark(Punct::RParen));
        lemma_one(t, p, TokenV::Mark(Punct::LParen));
        lemma_one(t, p + 1 + inner.len(), TokenV::Mark(Punct::RParen));
        lemma_read_item_list(t, p + 1, val, 0, Punct::RParen, Seq::empty(), names);
        assert(Seq::<ExprV>::empty() + val.skip(0) =~= val);
    }
}

/// A written list is read again.
proof fn lemma_read_list(t: Seq<TokenV>, p: int, e: ExprV, names: Seq<Seq<char>>)
    requires
        e is List,
        tokens::fits(e, names),
        stands(t, p, tokens::expr_tokens(e)),
    ensures
        grammar::g_primary(t, p) == Ok::<(ExprV, int), int>(
            (e, p + tokens::expr_tokens(e).len()),
        ),
        grammar::ends(t, p, p + tokens::expr_tokens(e).len()),
        t[p] == TokenV::Mark(Punct::LBracket),
    decreases e, 0int,
{
    let val = e->List_0;
    let open = tokens::mark(Punct::LBracket);
    let inner = tokens::listed(tokens::expr_token_lists(val), tokens::mark(Punct::Comma), 0);
    lemma_parts3(t, p, open, inner, tokens::mark(Punct::RBracket));
    lemma_one(t, p, TokenV::Mark(Punct::LBracket));
    lemma_one(t, p + 1 + inner.len(), TokenV::Mark(Punct::RBracket));
    lemma_read_items(t, p + 1, val, Punct::RBracket, names);
}

/// A written action is read again.
proof fn lemma_read_action(t: Seq<TokenV>, p: int, e: ExprV, names: Seq<Seq<char>>)
    requires
        e is Action,
        tokens::fits(e, names),
        stands(t, p, tokens::expr_tokens(e)),
    ensures
        grammar::g_primary(t, p) == Ok::<(ExprV, int), int>(
            (e, p + tokens::expr_tokens(e).len()),
        ),
        grammar::ends(t, p, p + tokens::expr_tokens(e).len()),
        t[p] == TokenV::Word(Keyword::Action),
    decreases e, 0int,
{
    let stmts = e->Action_0;
    let head = tokens::word(Keyword::Action) + tokens::mark(Punct::LBrace);
    let inner = tokens::listed(tokens::stmt_token_lists(stmts), Seq::empty(), 0);
    lemma_parts3(t, p, head, inner, tokens::mark(Punct::RBrace));
    lemma_split(t, p, tokens::word(Keyword::Action), tokens::mark(Punct::LBrace));
    lemma_one(t, p, TokenV::Word(Keyword::Action));
    lemma_one(t, p + 1, TokenV::Mark(Punct::LBrace));
    lemma_one(t, p + 2 + inner.len(), TokenV::Mark(Punct::RBrace));
    lemma_read_block(t, p + 2, stmts, 0, Seq::empty(), names);
    assert(Seq::<ActionStmtV>::empty() + stmts.skip(0) =~= stmts);
}

/// How a page goes on behind an expression.
proof fn lemma_page_step(
    t: Seq<TokenV>,
    p: int,
    q: int,
    e: ExprV,
    s: Seq<char>,
    last: bool,
    found: Seq<HtmlPartV>,
)
    requires
        grammar::g_expr(t, p) == Ok::<(ExprV, int), int>((e, q)),
        grammar::ends(t, p, q),
        q < t.len(),
        t[q] == TokenV::Markup(s, false, last),
    ensures
        ({
            let parts = found.push(HtmlPartV::Expr(e)).push(HtmlPartV::Text(s));
            grammar::g_markup(t, p, found) == if last {
                Ok::<(ExprV, int), int>((ExprV::Html(parts), q + 1))
            } else {
                grammar::g_markup(t, q + 1, parts)
            }
        }),
{
}

/// The beginning of a written page is read again, and all of it where its last text is the last.
proof fn lemma_read_page(
    t: Seq<TokenV>,
    p: int,
    parts: Seq<HtmlPartV>,
    last: bool,
    names: Seq<Seq<char>>,
)
    requires
        tokens::parts_fit(parts, names),
        stands(t, p, tokens::page_tokens(parts, last)),
    ensures
        last ==> grammar::g_primary(t, p) == Ok::<(ExprV, int), int>(
            (ExprV::Html(parts), p + tokens::page_tokens(parts, last).len()),
        ),
        !last ==> grammar::g_primary(t, p) == grammar::g_markup(
            t,
            p + tokens::page_tokens(parts, last).len(),
            parts,
        ),
        grammar::ends(t, p, p + tokens::page_tokens(parts, last).len()),
        t[p] is Markup,
    decreases parts, parts.len() as int,
{
    let n = parts.len() as int;
    assert(parts[n - 1] is Text);
    let s = parts[n - 1]->Text_0;
    let x = TokenV::Markup(s, n == 1, last);
    let before = tokens::page_tokens(parts.drop_last(), false);
    if n == 1 {
        assert(before + seq![x] =~= seq![x]);
        lemma_one(t, p, x);
        assert(parts =~= seq![HtmlPartV::Text(s)]);
    } else {
        let shorter = parts.drop_last().drop_last();
        tokens::lemma_shorter_page(parts, names);
        assert(parts.drop_last().last() == parts[n - 2]);
        let e = parts[n - 2]->Expr_0;
        let head = tokens::page_tokens(shorter, false);
        let a = tokens::expr_tokens(e);
        assert(before == head + a);
        lemma_parts3(t, p, head, a, seq![x]);
        let r = p + head.len();
        let q = r + a.len();
        lemma_one(t, q, x);
        lemma_head(e, names);
        lemma_read_page(t, p, shorter, false, names);
        lemma_read_expr(t, r, e, names);
        lemma_page_step(t, r, q, e, s, last, shorter);
        assert(shorter.push(HtmlPartV::Expr(e)).push(HtmlPartV::Text(s)) =~= parts);
    }
}

/// Written expressions up to a closing mark are read again.
proof fn lemma_read_items(
    t: Seq<TokenV>,
    p: int,
    es: Seq<ExprV>,
    close: Punct,
    names: Seq<Seq<char>>,
)
    requires
        tokens::all_fit(es, names),
        close == Punct::RParen || close == Punct::RBracket || close == Punct::RBrace,
        stands(
            t,
            p,
            tokens::listed(tokens::expr_token_lists(es), tokens::mark(Punct::Comma), 0),
        ),
        grammar::is_mark(
            t,
            p + tokens::listed(
                tokens::expr_token_lists(es),
                tokens::mark(Punct::Comma),
                0,
            ).len(),
            close,
        ),
    ensures
        grammar::g_items(t, p, close) == Ok::<(Seq<ExprV>, int), int>(
            (
                es,
                p + 1 + tokens::listed(
                    tokens::expr_token_lists(es),
                    tokens::mark(Punct::Comma),
                    0,
                ).len(),
            ),
        ),
    decreases es, es.len() + 1,
{
    if es.len() == 0 {
        assert(es =~= Seq::<ExprV>::empty());
    } else {
        let inner = tokens::listed(tokens::expr_token_lists(es), tokens::mark(Punct::Comma), 0);
        scanning::lemma_expr_lists(es, names, 0);
        assert(tokens::fits(es[0], names));
        lemma_head(es[0], names);
        assert(inner[0] == tokens::expr_tokens(es[0])[0]);
        lemma_nth(t, p, inner, 0);
        lemma_read_item_list(t, p, es, 0, close, Seq::empty(), names);
        assert(Seq::<ExprV>::empty() + es.skip(0) =~= es);
    }
}

/// Written expressions with commas between them are read again.
proof fn lemma_read_item_list(
    t: Seq<TokenV>,
    p: int,
    es: Seq<ExprV>,
    i: int,
    close: Punct,
    found: Seq<ExprV>,
    names: Seq<Seq<char>>,
)
    requires
        tokens::all_fit(es, names),
        0 <= i < es.len(),
        close == Punct::RParen || close == Punct::RBracket || close == Punct::RBrace,
        stands(
            t,
            p,
            tokens::listed(tokens::expr_token_lists(es), tokens::mark(Punct::Comma), i),
        ),
        grammar::is_mark(
            t,
            p + tokens::listed(
                tokens::expr_token_lists(es),
                tokens::mark(Punct::Comma),
                i,
            ).len(),
            close,
        ),
    ensures
        grammar::g_item_list(t, p, close, found) == Ok::<(Seq<ExprV>, int), int>(
            (
                found + es.skip(i),
                p + 1 + tokens::listed(
                    tokens::expr_token_lists(es),
                    tokens::mark(Punct::Comma),
                    i,
                ).len(),
            ),
        ),
    decreases es, es.len() - i,
{
    let lists = tokens::expr_token_lists(es);
    let comma = tokens::mark(Punct::Comma);
    scanning::lemma_expr_lists(es, names, i);
    assert(tokens::fits(es[i], names));
    lemma_head(es[i], names);
    if i + 1 < es.len() {
        let rest = tokens::listed(lists, comma, i + 1);
        lemma_parts3(t, p, lists[i], comma, rest);
        lemma_one(t, p + lists[i].len(), TokenV::Mark(Punct::Comma));
        lemma_read_expr(t, p, es[i], names);
        lemma_read_item_list(
            t,
            p + lists[i].len() + 1,
            es,
            i + 1,
            close,
            found.push(es[i]),
            names,
        );
        assert(found.push(es[i]) + es.skip(i + 1) =~= found + es.skip(i));
    } else {
        lemma_read_expr(t, p, es[i], names);
        assert(found.push(es[i]) =~= found + es.skip(i));
    }
}

/// A written choice is read again.
proof fn lemma_read_if(t: Seq<TokenV>, p: int, e: ExprV, names: Seq<Seq<char>>)
    requires
        e is If,
        tokens::fits(e, names),
        stands(t, p, tokens::expr_tokens(e)),
        stops(t, p + tokens::expr_tokens(e).len()),
    ensures
        grammar::g_expr(t, p) == Ok::<(ExprV, int), int>(
            (e, p + tokens::expr_tokens(e).len()),
        ),
    decreases e, 29int,
{
    let cond = e->If_cond;
    let expr1 = e->If_expr1;
    let expr2 = e->If_expr2;
    let q = p + tokens::expr_tokens(e).len();
    let c = tokens::expr_tokens(*cond);
    let a = tokens::expr_tokens(*expr1);
    let b = tokens::expr_tokens(*expr2);
    let h0 = tokens::word(Keyword::If);
    let h1 = tokens::word(Keyword::Then);
    let h2 = tokens::word(Keyword::Else);
    lemma_parts6(t, p, h0, c, h1, a, h2, b);
    let r = p + 1 + c.len();
    lemma_one(t, r, TokenV::Word(Keyword::Then));
    lemma_one(t, r + 1 + a.len(), TokenV::Word(Keyword::Else));
    lemma_read_expr(t, p + 1, *cond, names);
    lemma_read_expr(t, r + 1, *expr1, names);
    lemma_read_expr(t, r + 2 + a.len(), *expr2, names);
    lemma_head(*cond, names);
    lemma_head(*expr1, names);
    lemma_one(t, p, TokenV::Word(Keyword::If));
    assert(grammar::g_if(t, p) == Ok::<(ExprV, int), int>((e, q)));
}

/// A written function is read again.
proof fn lemma_read_fn(t: Seq<TokenV>, p: int, e: ExprV, names: Seq<Seq<char>>)
    requires
        e is Func,
        tokens::fits(e, names),
        stands(t, p, tokens::expr_tokens(e)),
        stops(t, p + tokens::expr_tokens(e).len()),
    ensures
        grammar::g_expr(t, p) == Ok::<(ExprV, int), int>(
            (e, p + tokens::expr_tokens(e).len()),
        ),
    decreases e, 29int,
{
    let params = e->Func_params;
    let body = e->Func_body;
    let q = p + tokens::expr_tokens(e).len();
    let head = tokens::word(Keyword::Fn) + tokens::mark(Punct::LParen);
    let inner = tokens::listed(
        tokens::param_token_lists(params),
        tokens::mark(Punct::Comma),
        0,
    );
    let tail = tokens::mark(Punct::RParen) + tokens::mark(Punct::FatArrow);
    let b = tokens::expr_tokens(*body);
    lemma_parts4(t, p, head, inner, tail, b);
    lemma_split(t, p, tokens::word(Keyword::Fn), tokens::mark(Punct::LParen));
    lemma_one(t, p + 1, TokenV::Mark(Punct::LParen));
    let r = p + 2 + inner.len();
    lemma_split(t, r, tokens::mark(Punct::RParen), tokens::mark(Punct::FatArrow));
    lemma_one(t, r, TokenV::Mark(Punct::RParen));
    lemma_one(t, r + 1, TokenV::Mark(Punct::FatArrow));
    reveal(grammar::g_params);
    if params.len() == 0 {
        assert(params =~= Seq::<ParamV>::empty());
    } else {
        let one = tokens::typed_tokens(params[0].name, params[0].ty);
        assert(tokens::param_token_lists(params)[0] == one);
        assert(one[0] == TokenV::Ident(params[0].name));
        assert(inner[0] == one[0]);
        lemma_nth(t, p + 2, inner, 0);
        lemma_read_params(t, p + 2, params, 0, Seq::empty(), names);
        assert(Seq::<ParamV>::empty() + params.skip(0) =~= params);
    }
    lemma_read_expr(t, r + 2, *body, names);
    lemma_one(t, p, TokenV::Word(Keyword::Fn));
    assert(grammar::g_fn(t, p) == Ok::<(ExprV, int), int>((e, q)));
}

/// A written key and value is read again.
proof fn lemma_read_key_val(t: Seq<TokenV>, p: int, e: ExprV, names: Seq<Seq<char>>)
    requires
        e is KeyVal,
        tokens::fits(e, names),
        stands(t, p, tokens::expr_tokens(e)),
        stops(t, p + tokens::expr_tokens(e).len()),
    ensures
        grammar::g_expr(t, p) == Ok::<(ExprV, int), int>(
            (e, p + tokens::expr_tokens(e).len()),
        ),
    decreases e, 29int,
{
    let name = e->KeyVal_name;
    let value = e->KeyVal_value;
    let colon = tokens::mark(Punct::Colon);
    lemma_parts3(t, p, tokens::ident(name), colon, tokens::expr_tokens(*value));
    lemma_one(t, p, TokenV::Ident(name));
    lemma_one(t, p + 1, TokenV::Mark(Punct::Colon));
    lemma_read_expr(t, p + 2, *value, names);
}

/// A written query is read again.
proof fn lemma_read_select(t: Seq<TokenV>, p: int, e: ExprV, names: Seq<Seq<char>>)
    requires
        e is Select,
        tokens::fits(e, names),
        stands(t, p, tokens::expr_tokens(e)),
        stops(t, p + tokens::expr_tokens(e).len()),
    ensures
        grammar::g_expr(t, p) == Ok::<(ExprV, int), int>(
            (e, p + tokens::expr_tokens(e).len()),
        ),
    decreases e, 29int,
{
    let table_name = e->Select_table_name;
    let column_names = e->Select_column_names;
    let where_clause = e->Select_where_clause;
    let q = p + tokens::expr_tokens(e).len();
    let h = tokens::word(Keyword::Select);
    let cols = tokens::listed(
        tokens::name_token_lists(column_names),
        tokens::mark(Punct::Comma),
        0,
    );
    let f = tokens::word(Keyword::From);
    let n = tokens::ident(table_name);
    let w = tokens::word(Keyword::Where);
    let c = tokens::expr_tokens(*where_clause);
    lemma_parts6(t, p, h, cols, f, n, w, c);
    let r = p + 1 + cols.len();
    lemma_one(t, r, TokenV::Word(Keyword::From));
    lemma_one(t, r + 1, TokenV::Ident(table_name));
    lemma_one(t, r + 2, TokenV::Word(Keyword::Where));
    lemma_read_names(t, p + 1, column_names, 0, Seq::empty());
    assert(Seq::<Symbol>::empty() + column_names.skip(0) =~= column_names);
    lemma_read_expr(t, r + 3, *where_clause, names);
    lemma_one(t, p, TokenV::Word(Keyword::Select));
    assert(grammar::g_select(t, p) == Ok::<(ExprV, int), int>((e, q)));
}

/// A written fold is read again.
proof fn lemma_read_fold(t: Seq<TokenV>, p: int, e: ExprV, names: Seq<Seq<char>>)
    requires
        e is Fold,
        tokens::fits(e, names),
        stands(t, p, tokens::expr_tokens(e)),
        stops(t, p + tokens::expr_tokens(e).len()),
    ensures
        grammar::g_expr(t, p) == Ok::<(ExprV, int), int>(
            (e, p + tokens::expr_tokens(e).len()),
        ),
    decreases e, 29int,
{
    let table_name = e->Fold_table_name;
    let column_name = e->Fold_column_name;
    let operation = e->Fold_operation;
    let identity = e->Fold_identity;
    let q = p + tokens::expr_tokens(e).len();
    let head = tokens::word(Keyword::Fold) + tokens::mark(Punct::LParen);
    let n = tokens::ident(table_name);
    let dot = tokens::mark(Punct::Dot);
    let m = tokens::ident(column_name);
    let comma = tokens::mark(Punct::Comma);
    let a = tokens::expr_tokens(*operation);
    let b = tokens::expr_tokens(*identity);
    lemma_split(
        t,
        p,
        head + n + dot + m + comma + a + comma + b,
        tokens::mark(Punct::RParen),
    );
    lemma_split(t, p, head + n + dot + m + comma + a + comma, b);
    lemma_split(t, p, head + n + dot + m + comma + a, comma);
    lemma_parts6(t, p, head, n, dot, m, comma, a);
    lemma_split(t, p, tokens::word(Keyword::Fold), tokens::mark(Punct::LParen));
    lemma_one(t, p + 1, TokenV::Mark(Punct::LParen));
    lemma_one(t, p + 2, TokenV::Ident(table_name));
    lemma_one(t, p + 3, TokenV::Mark(Punct::Dot));
    lemma_one(t, p + 4, TokenV::Ident(column_name));
    lemma_one(t, p + 5, TokenV::Mark(Punct::Comma));
    let r = p + 6 + a.len();
    lemma_one(t, r, TokenV::Mark(Punct::Comma));
    lemma_one(t, q - 1, TokenV::Mark(Punct::RParen));
    lemma_read_expr(t, p + 6, *operation, names);
    lemma_read_expr(t, r + 1, *identity, names);
    lemma_one(t, p, TokenV::Word(Keyword::Fold));
    assert(grammar::g_fold(t, p) == Ok::<(ExprV, int), int>((e, q)));
}

/// A written expression is read again.
proof fn lemma_read_expr(t: Seq<TokenV>, p: int, e: ExprV, names: Seq<Seq<char>>)
    requires
        tokens::fits(e, names),
        stands(t, p, tokens::expr_tokens(e)),
        stops(t, p + tokens::expr_tokens(e).len()),
    ensures
        grammar::g_expr(t, p) == Ok::<(ExprV, int), int>(
            (e, p + tokens::expr_tokens(e).len()),
        ),
    decreases e, 30int,
{
    let q = p + tokens::expr_tokens(e).len();
    match e {
        ExprV::If { .. } => lemma_read_if(t, p, e, names),
        ExprV::Func { .. } => lemma_read_fn(t, p, e, names),
        ExprV::KeyVal { .. } => lemma_read_key_val(t, p, e, names),
        ExprV::Select { .. } => lemma_read_select(t, p, e, names),
        ExprV::Fold { .. } => lemma_read_fold(t, p, e, names),
        _ => {
            lemma_head(e, names);
            lemma_nth(t, p, tokens::expr_tokens(e), 0);
            if tokens::expr_tokens(e).len() > 1 {
                lemma_nth(t, p, tokens::expr_tokens(e), 1);
            }
            assert(quiet(t, q, 0));
            lemma_read_infix(t, p, e, 0, names);
        },
    }
}

/// A written expression and a semicolon are read again.
proof fn lemma_read_semi(t: Seq<TokenV>, p: int, e: ExprV, names: Seq<Seq<char>>)
    requires
        tokens::fits(e, names),
        stands(t, p, tokens::expr_tokens(e)),
        grammar::is_mark(t, p + tokens::expr_tokens(e).len(), Punct::Semi),
    ensures
        grammar::g_expr_semi(t, p) == Ok::<(ExprV, int), int>(
            (e, p + tokens::expr_tokens(e).len() + 1),
        ),
    decreases e, 31int,
{
    lemma_read_expr(t, p, e, names);
}

/// How a binding is read.
proof fn lemma_let_step(
    t: Seq<TokenV>,
    p: int,
    q: int,
    r: int,
    name: Symbol,
    ty: Option<TypeV>,
    e: ExprV,
)
    requires
        grammar::is_word(t, p, Keyword::Let),
        grammar::ident_at(t, p + 1) == Some(name),
        grammar::g_annotation(t, p + 2) == Ok::<(Option<TypeV>, int), int>((ty, q)),
        p < q,
        grammar::is_mark(t, q, Punct::Eq),
        grammar::g_expr_semi(t, q + 1) == Ok::<(ExprV, int), int>((e, r)),
    ensures
        grammar::g_action_stmt(t, p) == Ok::<(ActionStmtV, int), int>(
            (ActionStmtV::Let { name, ty, expr: e }, r),
        ),
{
}

/// How an assignment is read.
proof fn lemma_assign_step(t: Seq<TokenV>, p: int, r: int, name: Symbol, e: ExprV)
    requires
        grammar::ident_at(t, p) == Some(name),
        grammar::is_mark(t, p + 1, Punct::Eq),
        grammar::g_expr_semi(t, p + 2) == Ok::<(ExprV, int), int>((e, r)),
    ensures
        grammar::g_action_stmt(t, p) == Ok::<(ActionStmtV, int), int>(
            (ActionStmtV::Assign { name, expr: e }, r),
        ),
{
}

/// How an action to run is read.
proof fn lemma_do_step(t: Seq<TokenV>, p: int, r: int, e: ExprV)
    requires
        grammar::is_word(t, p, Keyword::Do),
        grammar::g_expr_semi(t, p + 1) == Ok::<(ExprV, int), int>((e, r)),
    ensures
        grammar::g_action_stmt(t, p) == Ok::<(ActionStmtV, int), int>((ActionStmtV::Do(e), r)),
{
}

/// How an assertion is read.
proof fn lemma_assert_step(t: Seq<TokenV>, p: int, r: int, e: ExprV)
    requires
        grammar::is_word(t, p, Keyword::Assert),
        grammar::is_mark(t, p + 1, Punct::LParen),
        grammar::g_expr(t, p + 2) == Ok::<(ExprV, int), int>((e, r)),
        grammar::is_mark(t, r, Punct::RParen),
        grammar::is_mark(t, r + 1, Punct::Semi),
    ensures
        grammar::g_action_stmt(t, p) == Ok::<(ActionStmtV, int), int>(
            (ActionStmtV::Assert(e, grammar::assertion_text()), r + 2),
        ),
{
}

/// How an expression that is a statement is read.
proof fn lemma_expr_step(t: Seq<TokenV>, p: int, r: int, e: ExprV)
    requires
        !grammar::is_word(t, p, Keyword::Let),
        !grammar::is_word(t, p, Keyword::Do),
        !grammar::is_word(t, p, Keyword::Assert),
        !grammar::is_word(t, p, Keyword::Insert),
        !(grammar::ident_at(t, p) is Some && grammar::is_mark(t, p + 1, Punct::Eq)),
        grammar::g_expr_semi(t, p) == Ok::<(ExprV, int), int>((e, r)),
    ensures
        grammar::g_action_stmt(t, p) == Ok::<(ActionStmtV, int), int>((ActionStmtV::Expr(e), r)),
{
}

/// How an insertion is read.
proof fn lemma_insert_step(t: Seq<TokenV>, p: int, r: int, e: ExprV, table_name: Symbol)
    requires
        grammar::is_word(t, p, Keyword::Insert),
        grammar::g_expr(t, p + 1) == Ok::<(ExprV, int), int>((e, r)),
        grammar::is_word(t, r, Keyword::Into),
        grammar::ident_at(t, r + 1) == Some(table_name),
    ensures
        grammar::g_action_stmt(t, p) == Ok::<(ActionStmtV, int), int>(
            (ActionStmtV::Insert { table_name, row: e }, r + 2),
        ),
{
}

/// A written binding is read again.
proof fn lemma_read_let(t: Seq<TokenV>, p: int, s: ActionStmtV, names: Seq<Seq<char>>)
    requires
        s is Let,
        tokens::stmt_fits(s, names),
        stands(t, p, tokens::stmt_tokens(s)),
    ensures
        grammar::g_action_stmt(t, p) == Ok::<(ActionStmtV, int), int>(
            (s, p + tokens::stmt_tokens(s).len()),
        ),
        tokens::stmt_tokens(s).len() > 0,
        tokens::stmt_tokens(s)[0] != TokenV::Mark(Punct::RBrace),
    decreases s, 0int,
{
    let name = s->Let_name;
    let ty = s->Let_ty;
    let expr = s->Let_expr;
    let q = p + tokens::stmt_tokens(s).len();
    let semi = tokens::mark(Punct::Semi);
    let eq = tokens::mark(Punct::Eq);
    let h = tokens::word(Keyword::Let);
    let d = tokens::typed_tokens(name, ty);
    let a = tokens::expr_tokens(expr);
    lemma_parts5(t, p, h, d, eq, a, semi);
    lemma_one(t, p, TokenV::Word(Keyword::Let));
    let r = p + 1 + d.len();
    lemma_one(t, r, TokenV::Mark(Punct::Eq));
    lemma_one(t, q - 1, TokenV::Mark(Punct::Semi));
    lemma_read_typed(t, p + 1, name, ty, names);
    lemma_read_semi(t, r + 1, expr, names);
    lemma_let_step(t, p, r, q, name, ty, expr);
}

/// A written assignment is read again.
proof fn lemma_read_assign(t: Seq<TokenV>, p: int, s: ActionStmtV, names: Seq<Seq<char>>)
    requires
        s is Assign,
        tokens::stmt_fits(s, names),
        stands(t, p, tokens::stmt_tokens(s)),
    ensures
        grammar::g_action_stmt(t, p) == Ok::<(ActionStmtV, int), int>(
            (s, p + tokens::stmt_tokens(s).len()),
        ),
        tokens::stmt_tokens(s).len() > 0,
        tokens::stmt_tokens(s)[0] != TokenV::Mark(Punct::RBrace),
    decreases s, 0int,
{
    let name = s->Assign_name;
    let expr = s->Assign_expr;
    let q = p + tokens::stmt_tokens(s).len();
    let semi = tokens::mark(Punct::Semi);
    let eq = tokens::mark(Punct::Eq);
    let h = tokens::ident(name);
    let a = tokens::expr_tokens(expr);
    lemma_parts4(t, p, h, eq, a, semi);
    lemma_one(t, p, TokenV::Ident(name));
    lemma_one(t, p + 1, TokenV::Mark(Punct::Eq));
    lemma_one(t, q - 1, TokenV::Mark(Punct::Semi));
    lemma_read_semi(t, p + 2, expr, names);
    lemma_assign_step(t, p, q, name, expr);
}

/// A written action to run is read again.
proof fn lemma_read_do(t: Seq<TokenV>, p: int, s: ActionStmtV, names: Seq<Seq<char>>)
    requires
        s is Do,
        tokens::stmt_fits(s, names),
        stands(t, p, tokens::stmt_tokens(s)),
    ensures
        grammar::g_action_stmt(t, p) == Ok::<(ActionStmtV, int), int>(
            (s, p + tokens::stmt_tokens(s).len()),
        ),
        tokens::stmt_tokens(s).len() > 0,
        tokens::stmt_tokens(s)[0] != TokenV::Mark(Punct::RBrace),
    decreases s, 0int,
{
    let expr = s->Do_0;
    let q = p + tokens::stmt_tokens(s).len();
    let semi = tokens::mark(Punct::Semi);
    let h = tokens::word(Keyword::Do);
    let a = tokens::expr_tokens(expr);
    lemma_parts3(t, p, h, a, semi);
    lemma_one(t, p, TokenV::Word(Keyword::Do));
    lemma_one(t, q - 1, TokenV::Mark(Punct::Semi));
    lemma_read_semi(t, p + 1, expr, names);
    lemma_do_step(t, p, q, expr);
}

/// A written assertion is read again.
proof fn lemma_read_assert(t: Seq<TokenV>, p: int, s: ActionStmtV, names: Seq<Seq<char>>)
    requires
        s is Assert,
        tokens::stmt_fits(s, names),
        stands(t, p, tokens::stmt_tokens(s)),
    ensures
        grammar::g_action_stmt(t, p) == Ok::<(ActionStmtV, int), int>(
            (s, p + tokens::stmt_tokens(s).len()),
        ),
        tokens::stmt_tokens(s).len() > 0,
        tokens::stmt_tokens(s)[0] != TokenV::Mark(Punct::RBrace),
    decreases s, 0int,
{
    let expr = s->Assert_0;
    let semi = tokens::mark(Punct::Semi);
    let h = tokens::word(Keyword::Assert) + tokens::mark(Punct::LParen);
    let a = tokens::expr_tokens(expr);
    let tail = tokens::mark(Punct::RParen) + semi;
    lemma_parts3(t, p, h, a, tail);
    lemma_split(t, p, tokens::word(Keyword::Assert), tokens::mark(Punct::LParen));
    lemma_one(t, p, TokenV::Word(Keyword::Assert));
    lemma_one(t, p + 1, TokenV::Mark(Punct::LParen));
    let r = p + 2 + a.len();
    lemma_split(t, r, tokens::mark(Punct::RParen), semi);
    lemma_one(t, r, TokenV::Mark(Punct::RParen));
    lemma_one(t, r + 1, TokenV::Mark(Punct::Semi));
    lemma_read_expr(t, p + 2, expr, names);
    lemma_assert_step(t, p, r, expr);
}

/// A written expression that is a statement is read again.
proof fn lemma_read_expr_stmt(t: Seq<TokenV>, p: int, s: ActionStmtV, names: Seq<Seq<char>>)
    requires
        s is Expr,
        tokens::stmt_fits(s, names),
        stands(t, p, tokens::stmt_tokens(s)),
    ensures
        grammar::g_action_stmt(t, p) == Ok::<(ActionStmtV, int), int>(
            (s, p + tokens::stmt_tokens(s).len()),
        ),
        tokens::stmt_tokens(s).len() > 0,
        tokens::stmt_tokens(s)[0] != TokenV::Mark(Punct::RBrace),
    decreases s, 0int,
{
    let expr = s->Expr_0;
    let q = p + tokens::stmt_tokens(s).len();
    let semi = tokens::mark(Punct::Semi);
    let a = tokens::expr_tokens(expr);
    lemma_split(t, p, a, semi);
    lemma_one(t, q - 1, TokenV::Mark(Punct::Semi));
    lemma_head(expr, names);
    lemma_nth(t, p, a, 0);
    assert(tokens::stmt_tokens(s)[0] == a[0]);
    if a.len() > 1 {
        lemma_nth(t, p, a, 1);
    }
    lemma_read_semi(t, p, expr, names);
    lemma_expr_step(t, p, q, expr);
}

/// A written insertion is read again.
proof fn lemma_read_insert(t: Seq<TokenV>, p: int, s: ActionStmtV, names: Seq<Seq<char>>)
    requires
        s is Insert,
        tokens::stmt_fits(s, names),
        stands(t, p, tokens::stmt_tokens(s)),
    ensures
        grammar::g_action_stmt(t, p) == Ok::<(ActionStmtV, int), int>(
            (s, p + tokens::stmt_tokens(s).len()),
        ),
        tokens::stmt_tokens(s).len() > 0,
        tokens::stmt_tokens(s)[0] != TokenV::Mark(Punct::RBrace),
    decreases s, 0int,
{
    let table_name = s->Insert_table_name;
    let row = s->Insert_row;
    let h = tokens::word(Keyword::Insert);
    let a = tokens::expr_tokens(row);
    let m = tokens::word(Keyword::Into);
    let n = tokens::ident(table_name);
    lemma_parts4(t, p, h, a, m, n);
    lemma_one(t, p, TokenV::Word(Keyword::Insert));
    let r = p + 1 + a.len();
    lemma_one(t, r, TokenV::Word(Keyword::Into));
    lemma_one(t, r + 1, TokenV::Ident(table_name));
    lemma_read_expr(t, p + 1, row, names);
    lemma_insert_step(t, p, r, row, table_name);
}

/// A written statement is read again.
proof fn lemma_read_stmt(t: Seq<TokenV>, p: int, s: ActionStmtV, names: Seq<Seq<char>>)
    requires
        tokens::stmt_fits(s, names),
        stands(t, p, tokens::stmt_tokens(s)),
    ensures
        grammar::g_action_stmt(t, p) == Ok::<(ActionStmtV, int), int>(
            (s, p + tokens::stmt_tokens(s).len()),
        ),
        tokens::stmt_tokens(s).len() > 0,
        tokens::stmt_tokens(s)[0] != TokenV::Mark(Punct::RBrace),
    decreases s, 1int,
{
    match s {
        ActionStmtV::Let { .. } => lemma_read_let(t, p, s, names),
        ActionStmtV::Assign { .. } => lemma_read_assign(t, p, s, names),
        ActionStmtV::Do(..) => lemma_read_do(t, p, s, names),
        ActionStmtV::Assert(..) => lemma_read_assert(t, p, s, names),
        ActionStmtV::Expr(..) => lemma_read_expr_stmt(t, p, s, names),
        ActionStmtV::Insert { .. } => lemma_read_insert(t, p, s, names),
        _ => {},
    }
}

/// The next of written statements is read again.
proof fn lemma_read_next(
    t: Seq<TokenV>,
    p: int,
    ss: Seq<ActionStmtV>,
    i: int,
    names: Seq<Seq<char>>,
) -> (q: int)
    requires
        tokens::stmts_fit(ss, names),
        0 <= i < ss.len(),
        stands(t, p, tokens::listed(tokens::stmt_token_lists(ss), Seq::empty(), i)),
    ensures
        grammar::g_action_stmt(t, p) == Ok::<(ActionStmtV, int), int>((ss[i], q)),
        grammar::ends(t, p, q),
        !grammar::is_mark(t, p, Punct::RBrace),
        stands(t, q, tokens::listed(tokens::stmt_token_lists(ss), Seq::empty(), i + 1)),
        p + tokens::listed(tokens::stmt_token_lists(ss), Seq::empty(), i).len() == q
            + tokens::listed(tokens::stmt_token_lists(ss), Seq::empty(), i + 1).len(),
    decreases ss, 0int,
{
    let lists = tokens::stmt_token_lists(ss);
    scanning::lemma_stmt_lists(ss, names, i);
    assert(tokens::stmt_fits(ss[i], names));
    lemma_listed_step(lists, i);
    lemma_split(t, p, lists[i], tokens::listed(lists, Seq::empty(), i + 1));
    lemma_read_stmt(t, p, ss[i], names);
    lemma_nth(t, p, lists[i], 0);
    p + lists[i].len()
}

/// How a statement before others is read.
proof fn lemma_block_step(
    t: Seq<TokenV>,
    p: int,
    q: int,
    s: ActionStmtV,
    found: Seq<ActionStmtV>,
)
    requires
        grammar::g_action_stmt(t, p) == Ok::<(ActionStmtV, int), int>((s, q)),
        grammar::ends(t, p, q),
        !grammar::is_mark(t, p, Punct::RBrace),
    ensures
        grammar::g_block(t, p, found) == grammar::g_block(t, q, found.push(s)),
{
}

/// Written statements up to a closing brace are read again.
proof fn lemma_read_block(
    t: Seq<TokenV>,
    p: int,
    ss: Seq<ActionStmtV>,
    i: int,
    found: Seq<ActionStmtV>,
    names: Seq<Seq<char>>,
)
    requires
        tokens::stmts_fit(ss, names),
        0 <= i <= ss.len(),
        stands(t, p, tokens::listed(tokens::stmt_token_lists(ss), Seq::empty(), i)),
        grammar::is_mark(
            t,
            p + tokens::listed(tokens::stmt_token_lists(ss), Seq::empty(), i).len(),
            Punct::RBrace,
        ),
    ensures
        grammar::g_block(t, p, found) == Ok::<(Seq<ActionStmtV>, int), int>(
            (
                found + ss.skip(i),
                p + 1 + tokens::listed(tokens::stmt_token_lists(ss), Seq::empty(), i).len(),
            ),
        ),
    decreases ss, ss.len() - i + 1,
{
    if i < ss.len() {
        let q = lemma_read_next(t, p, ss, i, names);
        lemma_read_block(t, q, ss, i + 1, found.push(ss[i]), names);
        lemma_block_step(t, p, q, ss[i], found);
        assert(found.push(ss[i]) + ss.skip(i + 1) =~= found + ss.skip(i));
    } else {
        lemma_stmt_count(ss);
        assert(found + ss.skip(i) =~= found);
    }
}

/// There is one list of tokens for each statement.
proof fn lemma_stmt_count(ss: Seq<ActionStmtV>)
    ensures
        tokens::stmt_token_lists(ss).len() == ss.len(),
{
    if ss.len() > 0 {
        scanning::lemma_stmt_lists(ss, Seq::empty(), 0);
    }
}

/// What follows the word that opens a written declaration is read again.
proof fn lemma_read_binding(
    t: Seq<TokenV>,
    p: int,
    name: Symbol,
    ty: Option<TypeV>,
    val: ExprV,
    names: Seq<Seq<char>>,
)
    requires
        tokens::typed_fits(names, name, ty),
        tokens::fits(val, names),
        stands(
            t,
            p,
            tokens::typed_tokens(name, ty) + tokens::mark(Punct::Eq) + tokens::expr_tokens(val)
                + tokens::mark(Punct::Semi),
        ),
    ensures
        grammar::g_binding(t, p) == Ok::<((Symbol, Option<TypeV>, ExprV), int), int>(
            (
                (name, ty, val),
                p + tokens::typed_tokens(name, ty).len() + tokens::expr_tokens(val).len() + 2,
            ),
        ),
        0 <= p,
        p + tokens::typed_tokens(name, ty).len() + tokens::expr_tokens(val).len() + 2 <= t.len(),
{
    reveal(grammar::g_binding);
    let d = tokens::typed_tokens(name, ty);
    let eq = tokens::mark(Punct::Eq);
    let a = tokens::expr_tokens(val);
    let semi = tokens::mark(Punct::Semi);
    lemma_parts4(t, p, d, eq, a, semi);
    lemma_one(t, p + d.len(), TokenV::Mark(Punct::Eq));
    lemma_one(t, p + d.len() + 1 + a.len(), TokenV::Mark(Punct::Semi));
    lemma_read_typed(t, p, name, ty, names);
    lemma_read_semi(t, p + d.len() + 1, val, names);
}

/// Whether a column stands at a position.
pub open spec fn field_stands(t: Seq<TokenV>, p: int, f: FieldV) -> bool {
    &&& grammar::ident_at(t, p) == Some(f.name)
    &&& grammar::is_mark(t, p + 1, Punct::Colon)
    &&& grammar::g_column_type(t, p + 2) == Some(f.ty)
    &&& grammar::is_mark(t, p + 3, Punct::Comma)
}

/// Written columns stand one behind the other.
proof fn lemma_fields(t: Seq<TokenV>, p: int, fs: Seq<FieldV>, names: Seq<Seq<char>>)
    requires
        forall|i: int| 0 <= i < fs.len() ==> tokens::field_fits(#[trigger] fs[i], names),
        stands(t, p, tokens::field_tokens(fs)),
    ensures
        tokens::field_tokens(fs).len() == 4 * fs.len(),
        forall|i: int| 0 <= i < fs.len() ==> field_stands(t, p + 4 * i, #[trigger] fs[i]),
    decreases fs.len(),
{
    if fs.len() > 0 {
        let last = fs.last();
        assert(tokens::field_fits(fs[fs.len() - 1], names));
        let before = tokens::field_tokens(fs.drop_last());
        let ty = tokens::type_tokens(last.ty);
        let colon = tokens::mark(Punct::Colon);
        lemma_parts5(t, p, before, tokens::ident(last.name), colon, ty, tokens::mark(Punct::Comma));
        let q = p + before.len();
        lemma_one(t, q, TokenV::Ident(last.name));
        lemma_one(t, q + 1, TokenV::Mark(Punct::Colon));
        assert(ty =~= seq![ty[0]]);
        lemma_one(t, q + 2, ty[0]);
        lemma_one(t, q + 3, TokenV::Mark(Punct::Comma));
        lemma_fields(t, p, fs.drop_last(), names);
        assert forall|i: int| 0 <= i < fs.len() implies field_stands(
            t,
            p + 4 * i,
            #[trigger] fs[i],
        ) by {
            if i < fs.len() - 1 {
                assert(fs.drop_last()[i] == fs[i]);
            }
        }
    }
}

/// Written columns up to a closing brace are read again.
proof fn lemma_read_fields(t: Seq<TokenV>, p: int, fs: Seq<FieldV>, i: int, found: Seq<FieldV>)
    requires
        0 <= i <= fs.len(),
        forall|j: int| 0 <= j < fs.len() ==> field_stands(t, p + 4 * j, #[trigger] fs[j]),
        grammar::is_mark(t, p + 4 * fs.len(), Punct::RBrace),
    ensures
        grammar::g_fields(t, p + 4 * i, found) == Ok::<(Seq<FieldV>, int), int>(
            (found + fs.skip(i), p + 4 * fs.len() + 1),
        ),
    decreases fs.len() - i,
{
    if i < fs.len() {
        assert(field_stands(t, p + 4 * i, fs[i]));
        lemma_read_fields(t, p, fs, i + 1, found.push(fs[i]));
        assert(found.push(fs[i]) + fs.skip(i + 1) =~= found + fs.skip(i));
    } else {
        assert(found + fs.skip(i) =~= found);
    }
}

/// A written declaration is read again.
proof fn lemma_read_decl(t: Seq<TokenV>, p: int, d: DeclV, names: Seq<Seq<char>>)
    requires
        tokens::decl_fits(d, names),
        stands(t, p, tokens::decl_tokens(d)),
    ensures
        grammar::g_decl(t, p) == Ok::<(DeclV, int), int>((d, p + tokens::decl_tokens(d).len())),
        grammar::ends(t, p, p + tokens::decl_tokens(d).len()),
        !grammar::is_mark(t, p, Punct::RBrace),
{
    reveal(grammar::g_decl);
    let eq = tokens::mark(Punct::Eq);
    let semi = tokens::mark(Punct::Semi);
    match d {
        DeclV::VarDecl { name, ty, val } => {
            let h = tokens::word(Keyword::Var);
            let n = tokens::typed_tokens(name, ty);
            let a = tokens::expr_tokens(val);
            assert(h + n + eq + a + semi =~= h + (n + eq + a + semi));
            lemma_split(t, p, h, n + eq + a + semi);
            lemma_one(t, p, TokenV::Word(Keyword::Var));
            lemma_read_binding(t, p + 1, name, ty, val, names);
        },
        DeclV::DefDecl { name, ty, val, is_pub } => {
            let h = tokens::word(Keyword::Def);
            let n = tokens::typed_tokens(name, ty);
            let a = tokens::expr_tokens(val);
            if is_pub {
                let w = tokens::word(Keyword::Pub);
                assert(w + h + n + eq + a + semi =~= (w + h) + (n + eq + a + semi));
                lemma_split(t, p, w + h, n + eq + a + semi);
                lemma_split(t, p, w, h);
                lemma_one(t, p, TokenV::Word(Keyword::Pub));
                lemma_one(t, p + 1, TokenV::Word(Keyword::Def));
                lemma_read_binding(t, p + 2, name, ty, val, names);
            } else {
                assert(Seq::<TokenV>::empty() + h + n + eq + a + semi =~= h + (n + eq + a + semi));
                lemma_split(t, p, h, n + eq + a + semi);
                lemma_one(t, p, TokenV::Word(Keyword::Def));
                lemma_read_binding(t, p + 1, name, ty, val, names);
            }
        },
        DeclV::TableDecl { name, fields } => {
            let close = tokens::mark(Punct::RBrace) + semi;
            let cols = tokens::field_tokens(fields);
            lemma_parts5(
                t,
                p,
                tokens::word(Keyword::Table),
                tokens::ident(name),
                tokens::mark(Punct::LBrace),
                cols,
                close,
            );
            lemma_one(t, p, TokenV::Word(Keyword::Table));
            lemma_one(t, p + 1, TokenV::Ident(name));
            lemma_one(t, p + 2, TokenV::Mark(Punct::LBrace));
            let r = p + 3 + cols.len();
            lemma_split(t, r, tokens::mark(Punct::RBrace), semi);
            lemma_one(t, r, TokenV::Mark(Punct::RBrace));
            lemma_one(t, r + 1, TokenV::Mark(Punct::Semi));
            lemma_fields(t, p + 3, fields, names);
            lemma_read_fields(t, p + 3, fields, 0, Seq::empty());
            assert(Seq::<FieldV>::empty() + fields.skip(0) =~= fields);
        },
    }
}

/// Written declarations up to a closing brace are read again.
proof fn lemma_read_decls(
    t: Seq<TokenV>,
    p: int,
    ds: Seq<DeclV>,
    i: int,
    found: Seq<DeclV>,
    names: Seq<Seq<char>>,
)
    requires
        forall|j: int| 0 <= j < ds.len() ==> tokens::decl_fits(#[trigger] ds[j], names),
        0 <= i <= ds.len(),
        stands(t, p, tokens::listed(tokens::decl_token_lists(ds), Seq::empty(), i)),
        grammar::is_mark(
            t,
            p + tokens::listed(tokens::decl_token_lists(ds), Seq::empty(), i).len(),
            Punct::RBrace,
        ),
    ensures
        grammar::g_decls(t, p, found) == Ok::<(Seq<DeclV>, int), int>(
            (
                found + ds.skip(i),
                p + 1 + tokens::listed(tokens::decl_token_lists(ds), Seq::empty(), i).len(),
            ),
        ),
    decreases ds.len() - i,
{
    let lists = tokens::decl_token_lists(ds);
    if i < ds.len() {
        lemma_listed_step(lists, i);
        lemma_split(t, p, lists[i], tokens::listed(lists, Seq::empty(), i + 1));
        lemma_read_decl(t, p, ds[i], names);
        lemma_read_decls(t, p + lists[i].len(), ds, i + 1, found.push(ds[i]), names);
        assert(found.push(ds[i]) + ds.skip(i + 1) =~= found + ds.skip(i));
    } else {
        assert(found + ds.skip(i) =~= found);
    }
}

/// What is written of an expression is valid source: read again, all of it is the expression, and
/// no name changes its symbol. Left out are the expressions that the language cannot write.
pub proof fn written_expressions_can_be_read(e: ExprV, names: Seq<Seq<char>>)
    requires
        tokens::fits(e, names),
        interner::distinct_names(names),
    ensures
        parser::lex::lexed(printing::expr_text(e, names), names).names == names,
        parser::lex::lexed(printing::expr_text(e, names), names).tokens is Ok,
        ({
            let t = parser::lex::lexed(printing::expr_text(e, names), names).tokens->Ok_0;
            grammar::g_expr(t, 0) == Ok::<(ExprV, int), int>((e, t.len() as int))
        }),
{
    scanning::written_expressions_are_tokens(e, names);
    let t = tokens::expr_tokens(e);
    assert(stands(t, 0, t)) by {
        reveal(stands);
        assert(t.subrange(0, t.len() as int) =~= t);
    }
    lemma_read_expr(t, 0, e, names);
}

/// What is written of an update is valid source: parsed again, it gives the update, and no name
/// changes its symbol. Left out are the updates that the language cannot write.
pub proof fn written_updates_can_be_read(service: Symbol, ds: Seq<DeclV>, names: Seq<Seq<char>>)
    requires
        tokens::update_fits(service, ds, names),
        interner::distinct_names(names),
    ensures
        parser::parsed(printing::update_text(service, ds, names), names) == Ok::<
            Seq<StmtV>,
            Seq<char>,
        >(seq![StmtV::Update { service_name: service, decls: ds }]),
        parser::lex::lexed(printing::update_text(service, ds, names), names).names == names,
{
    scanning::written_updates_are_tokens(service, ds, names);
    let t = tokens::update_tokens(service, ds);
    let h = tokens::word(Keyword::Update);
    let n = tokens::ident(service);
    let open = tokens::mark(Punct::LBrace);
    let inner = tokens::listed(tokens::decl_token_lists(ds), Seq::empty(), 0);
    assert(stands(t, 0, t)) by {
        reveal(stands);
        assert(t.subrange(0, t.len() as int) =~= t);
    }
    lemma_parts5(t, 0, h, n, open, inner, tokens::mark(Punct::RBrace));
    lemma_one(t, 0, TokenV::Word(Keyword::Update));
    lemma_one(t, 1, TokenV::Ident(service));
    lemma_one(t, 2, TokenV::Mark(Punct::LBrace));
    lemma_one(t, 3int + inner.len(), TokenV::Mark(Punct::RBrace));
    lemma_read_decls(t, 3, ds, 0, Seq::empty(), names);
    assert(Seq::<DeclV>::empty() + ds.skip(0) =~= ds);
    reveal(grammar::g_service);
    reveal(grammar::g_stmt);
    let u = StmtV::Update { service_name: service, decls: ds };
    assert(grammar::g_stmt(t, 0, names) == Ok::<(StmtV, int), int>((u, t.len() as int)));
    assert(grammar::g_program(t, t.len() as int, names, seq![u]) == Ok::<Seq<StmtV>, int>(
        seq![u],
    ));
    assert(Seq::<StmtV>::empty().push(u) =~= seq![u]);
}

} // verus!
