//! Braces and pages among tokens, and which of them close which.

use vstd::prelude::*;

use crate::runtime::ast::{ActionStmtV, DeclV, ExprV, FieldV, HtmlPartV};
use crate::runtime::interner::Symbol;
use crate::runtime::parser::grammar;
use crate::runtime::parser::lex;
use crate::runtime::parser::lex::{Keyword, Punct, TokenV};
use crate::runtime::tt::types::TypeV;
use crate::runtime::update::printing;
use crate::runtime::update::tokens;

verus! {

/// Whether a token closes what is open: a brace closes a brace, and the text of a page goes on
/// behind an expression of a page.
pub open spec fn closes_own(open: Seq<bool>, t: TokenV) -> bool {
    match t {
        TokenV::Mark(Punct::RBrace) => open.len() > 0 && !open.last(),
        TokenV::Markup(_, false, _) => open.len() > 0 && open.last(),
        _ => true,
    }
}

/// Whether each of the tokens closes what is open before it.
pub open spec fn nests(open: Seq<bool>, t: Seq<TokenV>) -> bool
    decreases t.len(),
{
    t.len() == 0 || (nests(open, t.drop_last()) && closes_own(
        lex::open_after(open, t.drop_last()),
        t.last(),
    ))
}

/// Tokens behind others.
pub proof fn lemma_nests_join(open: Seq<bool>, a: Seq<TokenV>, b: Seq<TokenV>)
    ensures
        lex::open_after(open, a + b) == lex::open_after(lex::open_after(open, a), b),
        nests(open, a + b) <==> nests(open, a) && nests(lex::open_after(open, a), b),
    decreases b.len(),
{
    if b.len() == 0 {
        assert(a + b =~= a);
    } else {
        lemma_nests_join(open, a, b.drop_last());
        assert((a + b).drop_last() =~= a + b.drop_last());
        assert((a + b).last() == b.last());
    }
}

/// Whether tokens close all that they open, and nothing else.
#[verifier::opaque]
pub open spec fn balanced(t: Seq<TokenV>) -> bool {
    forall|open: Seq<bool>| #[trigger] nests(open, t) && lex::open_after(open, t) == open
}

/// Whether a token opens and closes nothing.
pub open spec fn neutral(t: TokenV) -> bool {
    match t {
        TokenV::Mark(m) => m != Punct::LBrace && m != Punct::RBrace,
        TokenV::Markup(_, first, last) => first && last,
        _ => true,
    }
}

/// Tokens that open and close nothing.
pub proof fn lemma_neutral(t: Seq<TokenV>)
    requires
        forall|i: int| 0 <= i < t.len() ==> neutral(#[trigger] t[i]),
    ensures
        balanced(t),
{
    reveal(balanced);
    assert forall|open: Seq<bool>| #[trigger] nests(open, t) && lex::open_after(open, t)
        == open by {
        lemma_neutral_at(open, t);
    }
}

proof fn lemma_neutral_at(open: Seq<bool>, t: Seq<TokenV>)
    requires
        forall|i: int| 0 <= i < t.len() ==> neutral(#[trigger] t[i]),
    ensures
        nests(open, t),
        lex::open_after(open, t) == open,
    decreases t.len(),
{
    if t.len() > 0 {
        assert(neutral(t[t.len() - 1]));
        assert forall|i: int| 0 <= i < t.drop_last().len() implies neutral(
            #[trigger] t.drop_last()[i],
        ) by {
            assert(neutral(t[i]));
        }
        lemma_neutral_at(open, t.drop_last());
    }
}

/// Balanced tokens behind others.
pub proof fn lemma_balanced_join(a: Seq<TokenV>, b: Seq<TokenV>)
    requires
        balanced(a),
        balanced(b),
    ensures
        balanced(a + b),
{
    reveal(balanced);
    assert forall|open: Seq<bool>| #[trigger] nests(open, a + b) && lex::open_after(open, a + b)
        == open by {
        lemma_nests_join(open, a, b);
        assert(nests(open, a));
        assert(nests(open, b));
    }
}

/// Balanced tokens in braces.
pub proof fn lemma_balanced_braces(a: Seq<TokenV>)
    requires
        balanced(a),
    ensures
        balanced(tokens::mark(Punct::LBrace) + a + tokens::mark(Punct::RBrace)),
{
    reveal(balanced);
    let l = tokens::mark(Punct::LBrace);
    let r = tokens::mark(Punct::RBrace);
    assert forall|open: Seq<bool>| #[trigger] nests(open, l + a + r) && lex::open_after(
        open,
        l + a + r,
    ) == open by {
        lemma_nests_join(open, l + a, r);
        lemma_nests_join(open, l, a);
        lemma_one(open, TokenV::Mark(Punct::LBrace));
        let inner = open.push(false);
        assert(nests(inner, a));
        lemma_one(inner, TokenV::Mark(Punct::RBrace));
        assert(inner.drop_last() =~= open);
    }
}

/// A single token.
pub proof fn lemma_one(open: Seq<bool>, x: TokenV)
    ensures
        lex::open_after(open, seq![x]) == lex::open_behind(open, x),
        nests(open, seq![x]) <==> closes_own(open, x),
{
    let t = seq![x];
    assert(t.drop_last() =~= Seq::<TokenV>::empty());
    assert(t.last() == x);
    assert(lex::open_after(open, t.drop_last()) == open);
    assert(nests(open, t.drop_last()));
}

/// Three balanced parts.
proof fn lemma_balanced3(a: Seq<TokenV>, b: Seq<TokenV>, c: Seq<TokenV>)
    requires
        balanced(a),
        balanced(b),
        balanced(c),
    ensures
        balanced(a + b + c),
{
    lemma_balanced_join(a, b);
    lemma_balanced_join(a + b, c);
}

/// Four balanced parts.
proof fn lemma_balanced4(a: Seq<TokenV>, b: Seq<TokenV>, c: Seq<TokenV>, d: Seq<TokenV>)
    requires
        balanced(a),
        balanced(b),
        balanced(c),
        balanced(d),
    ensures
        balanced(a + b + c + d),
{
    lemma_balanced3(a, b, c);
    lemma_balanced_join(a + b + c, d);
}

/// A mark that is no brace.
proof fn lemma_mark(m: Punct)
    requires
        m != Punct::LBrace,
        m != Punct::RBrace,
    ensures
        balanced(tokens::mark(m)),
{
    lemma_neutral(tokens::mark(m));
}

/// A reserved word.
proof fn lemma_word(k: Keyword)
    ensures
        balanced(tokens::word(k)),
{
    lemma_neutral(tokens::word(k));
}

/// A name.
proof fn lemma_ident(x: Symbol)
    ensures
        balanced(tokens::ident(x)),
{
    lemma_neutral(tokens::ident(x));
}

/// No tokens.
proof fn lemma_none()
    ensures
        balanced(Seq::empty()),
{
    lemma_neutral(Seq::empty());
}

/// Balanced parts in a row.
proof fn lemma_listed(parts: Seq<Seq<TokenV>>, sep: Seq<TokenV>, i: int)
    requires
        balanced(sep),
        forall|k: int| 0 <= k < parts.len() ==> balanced(#[trigger] parts[k]),
    ensures
        balanced(tokens::listed(parts, sep, i)),
    decreases parts.len() - i,
{
    if i < 0 || i >= parts.len() {
        lemma_none();
    } else {
        assert(balanced(parts[i]));
        if i + 1 < parts.len() {
            lemma_listed(parts, sep, i + 1);
            lemma_balanced3(parts[i], sep, tokens::listed(parts, sep, i + 1));
        }
    }
}

/// Types hold no braces.
proof fn lemma_type(ty: TypeV)
    ensures
        balanced(tokens::type_tokens(ty)),
    decreases ty, 1int,
{
    lemma_mark(Punct::LParen);
    lemma_mark(Punct::RParen);
    lemma_mark(Punct::Comma);
    lemma_mark(Punct::Arrow);
    lemma_none();
    match ty {
        TypeV::Tuple(ts) => {
            lemma_types(ts);
            let inner = tokens::listed(tokens::type_token_lists(ts), tokens::mark(Punct::Comma), 0);
            lemma_listed(tokens::type_token_lists(ts), tokens::mark(Punct::Comma), 0);
            lemma_balanced3(tokens::mark(Punct::LParen), inner, tokens::mark(Punct::RParen));
        },
        TypeV::Func { params, ret } => {
            lemma_types(params);
            lemma_type(*ret);
            let lists = tokens::type_token_lists(params);
            lemma_listed(lists, tokens::mark(Punct::Comma), 0);
            lemma_balanced_join(tokens::mark(Punct::RParen), tokens::mark(Punct::Arrow));
            lemma_balanced4(
                tokens::mark(Punct::LParen),
                tokens::listed(lists, tokens::mark(Punct::Comma), 0),
                tokens::mark(Punct::RParen) + tokens::mark(Punct::Arrow),
                tokens::type_tokens(*ret),
            );
        },
        _ => {
            lemma_neutral(tokens::type_tokens(ty));
        },
    }
}

proof fn lemma_types(ts: Seq<TypeV>)
    ensures
        forall|k: int|
            0 <= k < tokens::type_token_lists(ts).len() ==> balanced(
                #[trigger] tokens::type_token_lists(ts)[k],
            ),
    decreases ts, 0int,
{
    if ts.len() > 0 {
        lemma_types(ts.drop_last());
        lemma_type(ts.last());
        let shorter = tokens::type_token_lists(ts.drop_last());
        let lists = tokens::type_token_lists(ts);
        assert forall|k: int| 0 <= k < lists.len() implies balanced(#[trigger] lists[k]) by {
            if k < shorter.len() {
                assert(balanced(shorter[k]));
            }
        }
    }
}

/// A name and its type hold no braces.
proof fn lemma_typed(x: Symbol, ty: Option<TypeV>)
    ensures
        balanced(tokens::typed_tokens(x, ty)),
{
    lemma_ident(x);
    if let Some(u) = ty {
        lemma_mark(Punct::Colon);
        lemma_type(u);
        lemma_balanced3(tokens::ident(x), tokens::mark(Punct::Colon), tokens::type_tokens(u));
    }
}

/// Operands in brackets or without.
proof fn lemma_enclosed(t: Seq<TokenV>, needed: bool)
    requires
        balanced(t),
    ensures
        balanced(tokens::enclosed(t, needed)),
{
    lemma_mark(Punct::LParen);
    lemma_mark(Punct::RParen);
    lemma_balanced3(tokens::mark(Punct::LParen), t, tokens::mark(Punct::RParen));
}

/// An expression in a list between two marks.
proof fn lemma_items(es: Seq<ExprV>, names: Seq<Seq<char>>)
    requires
        tokens::all_fit(es, names),
    ensures
        balanced(tokens::listed(tokens::expr_token_lists(es), tokens::mark(Punct::Comma), 0)),
    decreases es, es.len() + 1,
{
    lemma_exprs(es, names);
    lemma_mark(Punct::Comma);
    lemma_listed(tokens::expr_token_lists(es), tokens::mark(Punct::Comma), 0);
}

proof fn lemma_exprs(es: Seq<ExprV>, names: Seq<Seq<char>>)
    requires
        tokens::all_fit(es, names),
    ensures
        forall|k: int|
            0 <= k < tokens::expr_token_lists(es).len() ==> balanced(
                #[trigger] tokens::expr_token_lists(es)[k],
            ),
    decreases es, es.len(),
{
    if es.len() > 0 {
        assert(tokens::fits(es[es.len() - 1], names));
        assert forall|i: int| 0 <= i < es.drop_last().len() implies tokens::fits(
            #[trigger] es.drop_last()[i],
            names,
        ) by {
            assert(tokens::fits(es[i], names));
        }
        lemma_exprs(es.drop_last(), names);
        lemma_balanced_expr(es.last(), names);
        let shorter = tokens::expr_token_lists(es.drop_last());
        let lists = tokens::expr_token_lists(es);
        assert forall|k: int| 0 <= k < lists.len() implies balanced(#[trigger] lists[k]) by {
            if k < shorter.len() {
                assert(balanced(shorter[k]));
            }
        }
    }
}

/// A written expression closes all that it opens.
#[verifier::rlimit(40)]
pub proof fn lemma_balanced_expr(e: ExprV, names: Seq<Seq<char>>)
    requires
        tokens::fits(e, names),
    ensures
        balanced(tokens::expr_tokens(e)),
    decreases e, 0nat,
{
    let ts = tokens::expr_tokens(e);
    let comma = tokens::mark(Punct::Comma);
    lemma_mark(Punct::LParen);
    lemma_mark(Punct::RParen);
    match e {
        ExprV::Literal { val } => {
            let x = tokens::literal_token(val);
            assert(neutral(x));
            assert(ts =~= seq![x]);
            lemma_neutral(seq![x]);
        },
        ExprV::Variable { name } => lemma_ident(name),
        ExprV::MemberAccess { service_name, member_name } => {
            lemma_ident(service_name);
            lemma_ident(member_name);
            lemma_mark(Punct::Dot);
            lemma_balanced3(
                tokens::ident(service_name),
                tokens::mark(Punct::Dot),
                tokens::ident(member_name),
            );
        },
        ExprV::Tuple { val } => {
            lemma_items(val, names);
            let inner = tokens::listed(tokens::expr_token_lists(val), comma, 0);
            lemma_balanced_braces(inner);
            lemma_balanced3(tokens::mark(Punct::LParen), inner, tokens::mark(Punct::RParen));
        },
        ExprV::List(val) => {
            lemma_items(val, names);
            lemma_mark(Punct::LBracket);
            lemma_mark(Punct::RBracket);
            lemma_balanced3(
                tokens::mark(Punct::LBracket),
                tokens::listed(tokens::expr_token_lists(val), comma, 0),
                tokens::mark(Punct::RBracket),
            );
        },
        ExprV::Call { func, args } => {
            lemma_balanced_expr(*func, names);
            lemma_items(args, names);
            let needed = printing::tightness(*func) < grammar::LEVELS + 1;
            lemma_enclosed(tokens::expr_tokens(*func), needed);
            lemma_balanced4(
                tokens::enclosed(tokens::expr_tokens(*func), needed),
                tokens::mark(Punct::LParen),
                tokens::listed(tokens::expr_token_lists(args), comma, 0),
                tokens::mark(Punct::RParen),
            );
        },
        ExprV::Unop { op, expr } => {
            lemma_balanced_expr(*expr, names);
            let needed = printing::tightness(*expr) < grammar::LEVELS;
            lemma_enclosed(tokens::expr_tokens(*expr), needed);
            lemma_mark(tokens::sign_mark(op));
            lemma_balanced_join(
                tokens::mark(tokens::sign_mark(op)),
                tokens::enclosed(tokens::expr_tokens(*expr), needed),
            );
        },
        ExprV::Binop { op, expr1, expr2 } => {
            lemma_balanced_expr(*expr1, names);
            lemma_balanced_expr(*expr2, names);
            let level = printing::op_level(op);
            lemma_infix(
                tokens::expr_tokens(*expr1),
                printing::tightness(*expr1) < level,
                tokens::op_mark(op),
                tokens::expr_tokens(*expr2),
                printing::tightness(*expr2) < level + 1,
            );
        },
        ExprV::Range { start, end } => {
            lemma_balanced_expr(*start, names);
            lemma_balanced_expr(*end, names);
            lemma_infix(
                tokens::expr_tokens(*start),
                printing::tightness(*start) < 3,
                Punct::DotDot,
                tokens::expr_tokens(*end),
                printing::tightness(*end) < 4,
            );
        },
        ExprV::If { cond, expr1, expr2 } => {
            lemma_balanced_expr(*cond, names);
            lemma_balanced_expr(*expr1, names);
            lemma_balanced_expr(*expr2, names);
            let w0 = tokens::word(Keyword::If);
            let w1 = tokens::word(Keyword::Then);
            let w2 = tokens::word(Keyword::Else);
            lemma_word(Keyword::If);
            lemma_word(Keyword::Then);
            lemma_word(Keyword::Else);
            let a = tokens::expr_tokens(*cond);
            let b = tokens::expr_tokens(*expr1);
            let c = tokens::expr_tokens(*expr2);
            lemma_balanced4(w0, a, w1, b);
            lemma_balanced3(w0 + a + w1 + b, w2, c);
        },
        ExprV::Func { params, body, .. } => {
            lemma_balanced_expr(*body, names);
            lemma_word(Keyword::Fn);
            lemma_mark(Punct::FatArrow);
            lemma_mark(Punct::Comma);
            let lists = tokens::param_token_lists(params);
            assert forall|k: int| 0 <= k < lists.len() implies balanced(#[trigger] lists[k]) by {
                lemma_typed(params[k].name, params[k].ty);
            }
            lemma_listed(lists, comma, 0);
            let head = tokens::word(Keyword::Fn) + tokens::mark(Punct::LParen);
            let tail = tokens::mark(Punct::RParen) + tokens::mark(Punct::FatArrow);
            lemma_balanced_join(tokens::word(Keyword::Fn), tokens::mark(Punct::LParen));
            lemma_balanced_join(tokens::mark(Punct::RParen), tokens::mark(Punct::FatArrow));
            lemma_balanced4(
                head,
                tokens::listed(lists, comma, 0),
                tail,
                tokens::expr_tokens(*body),
            );
        },
        ExprV::KeyVal { name, value } => {
            lemma_balanced_expr(*value, names);
            lemma_ident(name);
            lemma_mark(Punct::Colon);
            lemma_balanced3(
                tokens::ident(name),
                tokens::mark(Punct::Colon),
                tokens::expr_tokens(*value),
            );
        },
        ExprV::Select { table_name, column_names, where_clause } => {
            lemma_balanced_expr(*where_clause, names);
            lemma_word(Keyword::Select);
            lemma_word(Keyword::From);
            lemma_word(Keyword::Where);
            lemma_ident(table_name);
            lemma_mark(Punct::Comma);
            let lists = tokens::name_token_lists(column_names);
            assert forall|k: int| 0 <= k < lists.len() implies balanced(#[trigger] lists[k]) by {
                lemma_ident(column_names[k]);
            }
            lemma_listed(lists, comma, 0);
            let w = tokens::word(Keyword::Select);
            let cols = tokens::listed(lists, comma, 0);
            let f = tokens::word(Keyword::From);
            let n = tokens::ident(table_name);
            lemma_balanced4(w, cols, f, n);
            lemma_balanced3(
                w + cols + f + n,
                tokens::word(Keyword::Where),
                tokens::expr_tokens(*where_clause),
            );
        },
        ExprV::Fold { table_name, column_name, operation, identity } => {
            lemma_balanced_expr(*operation, names);
            lemma_balanced_expr(*identity, names);
            lemma_word(Keyword::Fold);
            lemma_ident(table_name);
            lemma_ident(column_name);
            lemma_mark(Punct::Dot);
            lemma_mark(Punct::Comma);
            let head = tokens::word(Keyword::Fold) + tokens::mark(Punct::LParen);
            let n = tokens::ident(table_name);
            let dot = tokens::mark(Punct::Dot);
            let m = tokens::ident(column_name);
            let a = tokens::expr_tokens(*operation);
            let b = tokens::expr_tokens(*identity);
            lemma_balanced_join(tokens::word(Keyword::Fold), tokens::mark(Punct::LParen));
            lemma_balanced4(head, n, dot, m);
            lemma_balanced4(head + n + dot + m, comma, a, comma);
            lemma_balanced3(head + n + dot + m + comma + a + comma, b, tokens::mark(Punct::RParen));
        },
        ExprV::Action(stmts) => {
            lemma_balanced_stmts(stmts, names);
            lemma_none();
            let lists = tokens::stmt_token_lists(stmts);
            let inner = tokens::listed(lists, Seq::empty(), 0);
            lemma_listed(lists, Seq::empty(), 0);
            lemma_word(Keyword::Action);
            let w = tokens::word(Keyword::Action);
            let l = tokens::mark(Punct::LBrace);
            let r = tokens::mark(Punct::RBrace);
            lemma_balanced_braces(inner);
            lemma_balanced_join(w, l + inner + r);
            assert(w + (l + inner + r) =~= w + l + inner + r);
        },
        ExprV::Html(parts) => {
            lemma_balanced_page(parts, names);
        },
        _ => {},
    }
}

/// A written page closes all that it opens.
proof fn lemma_balanced_page(parts: Seq<HtmlPartV>, names: Seq<Seq<char>>)
    requires
        tokens::parts_fit(parts, names),
    ensures
        balanced(tokens::page_tokens(parts, true)),
    decreases parts, parts.len() + 1,
{
    let ts = tokens::page_tokens(parts, true);
    assert forall|open: Seq<bool>| #[trigger] nests(open, ts) && lex::open_after(open, ts)
        == open by {
        lemma_page(parts, true, open, names);
    }
    reveal(balanced);
}

/// Two operands and the mark between them.
proof fn lemma_infix(a: Seq<TokenV>, left: bool, m: Punct, b: Seq<TokenV>, right: bool)
    requires
        balanced(a),
        balanced(b),
        m != Punct::LBrace,
        m != Punct::RBrace,
    ensures
        balanced(tokens::enclosed(a, left) + tokens::mark(m) + tokens::enclosed(b, right)),
{
    lemma_enclosed(a, left);
    lemma_enclosed(b, right);
    lemma_mark(m);
    lemma_balanced3(tokens::enclosed(a, left), tokens::mark(m), tokens::enclosed(b, right));
}

/// The parts of a page: the texts of it close what they open, but for the last, where more follows.
proof fn lemma_page(
    parts: Seq<HtmlPartV>,
    last: bool,
    open: Seq<bool>,
    names: Seq<Seq<char>>,
)
    requires
        tokens::parts_fit(parts, names),
    ensures
        nests(open, tokens::page_tokens(parts, last)),
        lex::open_after(open, tokens::page_tokens(parts, last)) == if last {
            open
        } else {
            open.push(true)
        },
    decreases parts, parts.len(),
{
    let n = parts.len() as int;
    assert(parts[n - 1] is Text);
    let s = parts[n - 1]->Text_0;
    let x = TokenV::Markup(s, n == 1, last);
    let before = tokens::page_tokens(parts.drop_last(), false);
    if n == 1 {
        lemma_one(open, x);
        assert(before + seq![x] =~= seq![x]);
    } else {
        let shorter = parts.drop_last().drop_last();
        assert(parts[n - 2] is Expr && tokens::part_fits(parts[n - 2], names));
        let e = parts[n - 2]->Expr_0;
        assert(parts.drop_last().last() == parts[n - 2]);
        tokens::lemma_shorter_page(parts, names);
        let head = tokens::page_tokens(shorter, false);
        let ts = tokens::expr_tokens(e);
        lemma_page(shorter, false, open, names);
        lemma_balanced_expr(e, names);
        let inner = open.push(true);
        assert(before == head + ts);
        lemma_nests_join(open, head, ts);
        assert(nests(inner, ts) && lex::open_after(inner, ts) == inner) by {
            reveal(balanced);
        }
        lemma_nests_join(open, before, seq![x]);
        lemma_one(inner, x);
        assert(inner.drop_last() =~= open);
    }
}

/// Written statements close all that they open.
proof fn lemma_balanced_stmts(ss: Seq<ActionStmtV>, names: Seq<Seq<char>>)
    requires
        tokens::stmts_fit(ss, names),
    ensures
        forall|k: int|
            0 <= k < tokens::stmt_token_lists(ss).len() ==> balanced(
                #[trigger] tokens::stmt_token_lists(ss)[k],
            ),
    decreases ss, ss.len(),
{
    if ss.len() > 0 {
        assert(tokens::stmt_fits(ss[ss.len() - 1], names));
        assert forall|i: int| 0 <= i < ss.drop_last().len() implies tokens::stmt_fits(
            #[trigger] ss.drop_last()[i],
            names,
        ) by {
            assert(tokens::stmt_fits(ss[i], names));
        }
        lemma_balanced_stmts(ss.drop_last(), names);
        lemma_balanced_stmt(ss.last(), names);
        let shorter = tokens::stmt_token_lists(ss.drop_last());
        let lists = tokens::stmt_token_lists(ss);
        assert forall|k: int| 0 <= k < lists.len() implies balanced(#[trigger] lists[k]) by {
            if k < shorter.len() {
                assert(balanced(shorter[k]));
            }
        }
    }
}

/// A written statement closes all that it opens.
proof fn lemma_balanced_stmt(s: ActionStmtV, names: Seq<Seq<char>>)
    requires
        tokens::stmt_fits(s, names),
    ensures
        balanced(tokens::stmt_tokens(s)),
    decreases s, 0nat,
{
    let semi = tokens::mark(Punct::Semi);
    lemma_mark(Punct::Semi);
    lemma_mark(Punct::Eq);
    match s {
        ActionStmtV::Let { name, ty, expr } => {
            lemma_balanced_expr(expr, names);
            lemma_word(Keyword::Let);
            lemma_typed(name, ty);
            let d = tokens::typed_tokens(name, ty);
            let w = tokens::word(Keyword::Let);
            let eq = tokens::mark(Punct::Eq);
            lemma_balanced4(w, d, eq, tokens::expr_tokens(expr));
            lemma_balanced_join(w + d + eq + tokens::expr_tokens(expr), semi);
        },
        ActionStmtV::Assign { name, expr } => {
            lemma_balanced_expr(expr, names);
            lemma_ident(name);
            lemma_balanced4(
                tokens::ident(name),
                tokens::mark(Punct::Eq),
                tokens::expr_tokens(expr),
                semi,
            );
        },
        ActionStmtV::Do(expr) => {
            lemma_balanced_expr(expr, names);
            lemma_word(Keyword::Do);
            lemma_balanced3(tokens::word(Keyword::Do), tokens::expr_tokens(expr), semi);
        },
        ActionStmtV::Assert(expr, _) => {
            lemma_balanced_expr(expr, names);
            lemma_word(Keyword::Assert);
            lemma_mark(Punct::LParen);
            lemma_mark(Punct::RParen);
            lemma_balanced_join(tokens::word(Keyword::Assert), tokens::mark(Punct::LParen));
            lemma_balanced_join(tokens::mark(Punct::RParen), semi);
            lemma_balanced3(
                tokens::word(Keyword::Assert) + tokens::mark(Punct::LParen),
                tokens::expr_tokens(expr),
                tokens::mark(Punct::RParen) + semi,
            );
        },
        ActionStmtV::Expr(expr) => {
            lemma_balanced_expr(expr, names);
            lemma_balanced_join(tokens::expr_tokens(expr), semi);
        },
        ActionStmtV::Insert { table_name, row } => {
            lemma_balanced_expr(row, names);
            lemma_word(Keyword::Insert);
            lemma_word(Keyword::Into);
            lemma_ident(table_name);
            lemma_balanced4(
                tokens::word(Keyword::Insert),
                tokens::expr_tokens(row),
                tokens::word(Keyword::Into),
                tokens::ident(table_name),
            );
        },
        _ => {},
    }
}

/// Columns hold no braces.
proof fn lemma_fields(fs: Seq<FieldV>)
    ensures
        balanced(tokens::field_tokens(fs)),
    decreases fs.len(),
{
    if fs.len() == 0 {
        lemma_none();
    } else {
        lemma_fields(fs.drop_last());
        lemma_ident(fs.last().name);
        lemma_mark(Punct::Colon);
        lemma_mark(Punct::Comma);
        lemma_type(fs.last().ty);
        let a = tokens::field_tokens(fs.drop_last());
        let n = tokens::ident(fs.last().name);
        let colon = tokens::mark(Punct::Colon);
        let ty = tokens::type_tokens(fs.last().ty);
        lemma_balanced4(a, n, colon, ty);
        lemma_balanced_join(a + n + colon + ty, tokens::mark(Punct::Comma));
    }
}

/// A written declaration closes all that it opens.
proof fn lemma_balanced_decl(d: DeclV, names: Seq<Seq<char>>)
    requires
        tokens::decl_fits(d, names),
    ensures
        balanced(tokens::decl_tokens(d)),
{
    let semi = tokens::mark(Punct::Semi);
    let eq = tokens::mark(Punct::Eq);
    lemma_mark(Punct::Semi);
    lemma_mark(Punct::Eq);
    match d {
        DeclV::VarDecl { name, ty, val } => {
            lemma_balanced_expr(val, names);
            lemma_word(Keyword::Var);
            lemma_typed(name, ty);
            let w = tokens::word(Keyword::Var);
            let n = tokens::typed_tokens(name, ty);
            lemma_balanced4(w, n, eq, tokens::expr_tokens(val));
            lemma_balanced_join(w + n + eq + tokens::expr_tokens(val), semi);
        },
        DeclV::DefDecl { name, ty, val, is_pub } => {
            lemma_balanced_expr(val, names);
            lemma_word(Keyword::Def);
            lemma_word(Keyword::Pub);
            lemma_none();
            lemma_typed(name, ty);
            let w = if is_pub {
                tokens::word(Keyword::Pub)
            } else {
                Seq::empty()
            };
            let k = tokens::word(Keyword::Def);
            let n = tokens::typed_tokens(name, ty);
            lemma_balanced4(w, k, n, eq);
            lemma_balanced3(w + k + n + eq, tokens::expr_tokens(val), semi);
        },
        DeclV::TableDecl { name, fields } => {
            lemma_fields(fields);
            lemma_word(Keyword::Table);
            lemma_ident(name);
            let w = tokens::word(Keyword::Table);
            let n = tokens::ident(name);
            let l = tokens::mark(Punct::LBrace);
            let r = tokens::mark(Punct::RBrace);
            let inner = tokens::field_tokens(fields);
            lemma_balanced_braces(inner);
            lemma_balanced4(w, n, l + inner + r, semi);
            assert(w + n + (l + inner + r) + semi =~= w + n + l + inner + (r + semi));
        },
    }
}

/// A written update closes all that it opens.
pub proof fn lemma_balanced_update(service: Symbol, ds: Seq<DeclV>, names: Seq<Seq<char>>)
    requires
        tokens::update_fits(service, ds, names),
    ensures
        balanced(tokens::update_tokens(service, ds)),
{
    let lists = tokens::decl_token_lists(ds);
    assert forall|k: int| 0 <= k < lists.len() implies balanced(#[trigger] lists[k]) by {
        lemma_balanced_decl(ds[k], names);
    }
    lemma_none();
    lemma_listed(lists, Seq::empty(), 0);
    lemma_word(Keyword::Update);
    lemma_ident(service);
    let inner = tokens::listed(lists, Seq::empty(), 0);
    let w = tokens::word(Keyword::Update);
    let n = tokens::ident(service);
    let l = tokens::mark(Punct::LBrace);
    let r = tokens::mark(Punct::RBrace);
    lemma_balanced_braces(inner);
    lemma_balanced3(w, n, l + inner + r);
    assert(w + n + (l + inner + r) =~= w + n + l + inner + r);
}

} // verus!
