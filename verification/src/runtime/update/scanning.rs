//! Written declarations, read token by token.

use vstd::prelude::*;

use crate::runtime::ast::{ActionStmtV, BinOp, DeclV, ExprV, FieldV, HtmlPartV, UnOp, ValueV};
use crate::runtime::interner;
use crate::runtime::interner::Symbol;
use crate::runtime::parser::grammar;
use crate::runtime::parser::lex;
use crate::runtime::parser::lex::{Class, Keyword, Punct, TokenV};
use crate::runtime::text;
use crate::runtime::tt::types;
use crate::runtime::tt::types::{ParamV, TypeV};
use crate::runtime::update::nesting;
use crate::runtime::update::pieces;
use crate::runtime::update::pieces::PieceV;
use crate::runtime::update::printing;
use crate::runtime::update::tokens;

verus! {

/// Joined texts, seen from the left.
proof fn lemma_joined_behind(parts: Seq<Seq<char>>, sep: Seq<char>, i: int)
    requires
        1 <= i < parts.len(),
    ensures
        text::joined(parts, sep) == text::joined(parts.take(i), sep) + sep + tokens::listed(
            parts,
            sep,
            i,
        ),
    decreases parts.len() - i,
{
    let whole = text::joined(parts, sep);
    if i + 1 == parts.len() {
        assert(parts.take(i) =~= parts.drop_last());
    } else {
        lemma_joined_behind(parts, sep, i + 1);
        assert(parts.take(i + 1).drop_last() =~= parts.take(i));
        assert(parts.take(i + 1).last() == parts[i]);
        let rest = tokens::listed(parts, sep, i + 1);
        let front = text::joined(parts.take(i), sep);
        assert(whole == (front + sep + parts[i]) + sep + rest);
        assert((front + sep + parts[i]) + sep + rest =~= front + sep + (parts[i] + sep + rest));
    }
}

/// Joined texts, seen from the left.
proof fn lemma_joined(parts: Seq<Seq<char>>, sep: Seq<char>)
    ensures
        text::joined(parts, sep) == tokens::listed(parts, sep, 0),
{
    if parts.len() > 1 {
        lemma_joined_behind(parts, sep, 1);
        assert(parts.take(1).len() == 1);
        assert(parts.take(1)[0] == parts[0]);
        assert(text::joined(parts.take(1), sep) == parts[0]);
    }
}

/// Whether texts are read as tokens, one by one.
pub open spec fn all_readable(
    parts: Seq<Seq<char>>,
    toks: Seq<Seq<TokenV>>,
    names: Seq<Seq<char>>,
) -> bool {
    &&& parts.len() == toks.len()
    &&& forall|j: int|
        0 <= j < parts.len() ==> pieces::readable(
            pieces::construct(#[trigger] parts[j], toks[j]),
            names,
        )
}

/// Written constructs with separators between them.
proof fn lemma_listed(
    parts: Seq<Seq<char>>,
    toks: Seq<Seq<TokenV>>,
    sep: PieceV,
    i: int,
    names: Seq<Seq<char>>,
) -> (x: PieceV)
    requires
        all_readable(parts, toks, names),
        pieces::readable(sep, names),
        !sep.begins,
        !sep.closed,
        0 <= i < parts.len(),
    ensures
        x == pieces::construct(
            tokens::listed(parts, sep.text, i),
            tokens::listed(toks, sep.tokens, i),
        ),
        pieces::readable(x, names),
    decreases parts.len() - i,
{
    let one = pieces::construct(parts[i], toks[i]);
    if i + 1 < parts.len() {
        let rest = lemma_listed(parts, toks, sep, i + 1, names);
        let x = pieces::join(one, sep, names);
        pieces::join(x, rest, names)
    } else {
        one
    }
}

/// Written constructs with separators between them, enclosed.
proof fn lemma_enclosed(
    pre: PieceV,
    parts: Seq<Seq<char>>,
    toks: Seq<Seq<TokenV>>,
    sep: PieceV,
    post: PieceV,
    names: Seq<Seq<char>>,
) -> (x: PieceV)
    requires
        pieces::readable(pre, names),
        !pre.closed,
        pre.text.last() != '.',
        all_readable(parts, toks, names),
        pieces::readable(sep, names),
        !sep.begins,
        !sep.closed,
        pieces::readable(post, names),
        !post.begins,
    ensures
        x == (PieceV {
            text: pre.text + text::joined(parts, sep.text) + post.text,
            tokens: pre.tokens + tokens::listed(toks, sep.tokens, 0) + post.tokens,
            begins: pre.begins,
            closed: post.closed,
        }),
        pieces::readable(x, names),
{
    lemma_joined(parts, sep.text);
    if parts.len() == 0 {
        assert(pre.text + text::joined(parts, sep.text) =~= pre.text);
        assert(pre.tokens + tokens::listed(toks, sep.tokens, 0) =~= pre.tokens);
        pieces::join(pre, post, names)
    } else {
        let inner = lemma_listed(parts, toks, sep, 0, names);
        let x = pieces::join(pre, inner, names);
        pieces::join(x, post, names)
    }
}

/// A name is a construct.
proof fn lemma_name(x: Symbol, names: Seq<Seq<char>>) -> (z: PieceV)
    requires
        tokens::named(names, x),
        interner::distinct_names(names),
    ensures
        z == pieces::construct(interner::name_text(names, x), tokens::ident(x)),
        pieces::readable(z, names),
{
    pieces::lemma_scan_name(x, names);
    let s = names[x as int];
    assert(lex::in_class(Class::NameChar, s[0]));
    assert(lex::in_class(Class::NameChar, s[s.len() - 1]));
    pieces::construct(s, tokens::ident(x))
}

/// What is written of types, one by one.
pub proof fn lemma_type_lists(ts: Seq<TypeV>, i: int)
    requires
        0 <= i < ts.len(),
    ensures
        types::type_texts(ts).len() == ts.len(),
        types::type_texts(ts)[i] == types::type_text(ts[i]),
        tokens::type_token_lists(ts).len() == ts.len(),
        tokens::type_token_lists(ts)[i] == tokens::type_tokens(ts[i]),
    decreases ts.len(),
{
    if ts.len() > 1 {
        if i < ts.len() - 1 {
            lemma_type_lists(ts.drop_last(), i);
        } else {
            lemma_type_lists(ts.drop_last(), 0);
        }
    } else {
        assert(types::type_texts(ts.drop_last()).len() == 0);
        assert(tokens::type_token_lists(ts.drop_last()).len() == 0);
    }
}

/// A written type is read as its tokens.
proof fn lemma_scan_type(ty: TypeV, names: Seq<Seq<char>>) -> (x: PieceV)
    requires
        tokens::type_fits(ty),
    ensures
        x == pieces::construct(types::type_text(ty), tokens::type_tokens(ty)),
        pieces::readable(x, names),
    decreases ty, 1int,
{
    match ty {
        TypeV::Tuple(ts) => {
            lemma_scan_types(ts, names);
            reveal_strlit("(");
            let t_open = pieces::text_open(names);
            let t_comma = pieces::text_comma(names);
            let t_close = pieces::text_close(names);
            lemma_enclosed(
                t_open,
                types::type_texts(ts),
                tokens::type_token_lists(ts),
                t_comma,
                t_close,
                names,
            )
        },
        TypeV::Func { params, ret } => {
            lemma_scan_types(params, names);
            reveal_strlit("(");
            let t_open = pieces::text_open(names);
            let t_comma = pieces::text_comma(names);
            let t_arrow_type = pieces::text_arrow_type(names);
            let h = lemma_enclosed(
                t_open,
                types::type_texts(params),
                tokens::type_token_lists(params),
                t_comma,
                t_arrow_type,
                names,
            );
            let r = lemma_scan_type(*ret, names);
            pieces::join(h, r, names)
        },
        _ => {
            pieces::lemma_keywords();
            reveal_strlit("int");
            reveal_strlit("bool");
            reveal_strlit("string");
            reveal_strlit("unit");
            let k = if ty is Int {
                Keyword::Int
            } else if ty is Bool {
                Keyword::Bool
            } else if ty is String {
                Keyword::String
            } else {
                Keyword::Unit
            };
            pieces::lemma_word_alone(types::type_text(ty), k, names);
            pieces::construct(types::type_text(ty), tokens::type_tokens(ty))
        },
    }
}

/// Written types are read as their tokens.
proof fn lemma_scan_types(ts: Seq<TypeV>, names: Seq<Seq<char>>)
    requires
        tokens::types_fit(ts),
    ensures
        all_readable(types::type_texts(ts), tokens::type_token_lists(ts), names),
    decreases ts, 0int,
{
    let parts = types::type_texts(ts);
    let toks = tokens::type_token_lists(ts);
    if ts.len() > 0 {
        lemma_type_lists(ts, 0);
    }
    assert forall|j: int| 0 <= j < parts.len() implies pieces::readable(
        pieces::construct(#[trigger] parts[j], toks[j]),
        names,
    ) by {
        lemma_type_lists(ts, j);
        assert(tokens::type_fits(ts[j]));
        let x = lemma_scan_type(ts[j], names);
    }
}

/// A binary operator and the blanks around it.
proof fn lemma_op(op: BinOp, names: Seq<Seq<char>>) -> (x: PieceV)
    ensures
        x == pieces::link(
            " "@ + printing::binop_text(op) + " "@,
            tokens::mark(tokens::op_mark(op)),
        ),
        pieces::readable(x, names),
{
    let blank = seq![' '];
    let none = Seq::<TokenV>::empty();
    let m = tokens::mark(tokens::op_mark(op));
    let s = printing::binop_text(op);
    reveal_strlit(" ");
    assert(" "@ =~= blank);
    reveal_strlit("+");
    reveal_strlit("-");
    reveal_strlit("*");
    reveal_strlit("/");
    reveal_strlit("==");
    reveal_strlit("<");
    reveal_strlit(">");
    reveal_strlit("&&");
    reveal_strlit("||");
    if op is Eq {
        pieces::lemma_scan_pair('=', '=', names);
        assert(s =~= seq!['=', '=']);
    } else if op is And {
        pieces::lemma_scan_pair('&', '&', names);
        assert(s =~= seq!['&', '&']);
    } else if op is Or {
        pieces::lemma_scan_pair('|', '|', names);
        assert(s =~= seq!['|', '|']);
    } else {
        pieces::lemma_mark_alone(s, tokens::op_mark(op), names);
    }
    pieces::lemma_scan_blank(' ', names);
    pieces::lemma_scan_join(blank, none, s, m, names);
    pieces::lemma_scan_join(blank + s, none + m, blank, none, names);
    assert(none + m + none =~= m);
    assert((blank + s + blank).last() == ' ');
    pieces::link(" "@ + s + " "@, m)
}

/// A sign.
proof fn lemma_sign(op: UnOp, names: Seq<Seq<char>>) -> (x: PieceV)
    ensures
        x == pieces::opening(printing::unop_text(op), tokens::mark(tokens::sign_mark(op))),
        pieces::readable(x, names),
{
    let s = printing::unop_text(op);
    reveal_strlit("-");
    reveal_strlit("!");
    pieces::lemma_mark_alone(s, tokens::sign_mark(op), names);
    pieces::opening(s, tokens::mark(tokens::sign_mark(op)))
}

/// A literal is a construct.
proof fn lemma_literal(v: ValueV, names: Seq<Seq<char>>)
    requires
        tokens::literal_fits(v),
    ensures
        pieces::readable(
            pieces::construct(printing::literal_text(v), seq![tokens::literal_token(v)]),
            names,
        ),
{
    match v {
        ValueV::Int { val } => {
            pieces::lemma_scan_number(val as nat, names);
            pieces::lemma_digits(val as nat);
            let s = text::nat_text(val as nat);
            assert(lex::in_class(Class::Digit, s[0]));
            assert(lex::in_class(Class::Digit, s[s.len() - 1]));
        },
        ValueV::String { val } => {
            reveal_strlit("\"");
            assert("\""@ =~= seq!['"']);
            pieces::lemma_scan_string(val, names);
        },
        _ => {
            pieces::lemma_keywords();
            reveal_strlit("true");
            reveal_strlit("false");
            let k = if v->Bool_val {
                Keyword::True
            } else {
                Keyword::False
            };
            pieces::lemma_word_alone(printing::literal_text(v), k, names);
        },
    }
}

/// A name and its type are a construct.
proof fn lemma_typed(x: Symbol, ty: Option<TypeV>, names: Seq<Seq<char>>) -> (z: PieceV)
    requires
        tokens::typed_fits(names, x, ty),
        interner::distinct_names(names),
    ensures
        z == pieces::construct(
            printing::typed_name(interner::name_text(names, x), ty),
            tokens::typed_tokens(x, ty),
        ),
        pieces::readable(z, names),
{
    let n = lemma_name(x, names);
    match ty {
        Some(u) => {
            let r = lemma_scan_type(u, names);
            let t_colon = pieces::text_colon(names);
            let x = pieces::join(n, t_colon, names);
            pieces::join(x, r, names)
        },
        None => n,
    }
}

/// What is written of parameters, one by one.
proof fn lemma_param_texts(ps: Seq<ParamV>, names: Seq<Seq<char>>, i: int)
    requires
        0 <= i < ps.len(),
    ensures
        printing::param_texts(ps, names).len() == ps.len(),
        printing::param_texts(ps, names)[i] == printing::typed_name(
            interner::name_text(names, ps[i].name),
            ps[i].ty,
        ),
    decreases ps.len(),
{
    if ps.len() > 1 {
        if i < ps.len() - 1 {
            lemma_param_texts(ps.drop_last(), names, i);
        } else {
            lemma_param_texts(ps.drop_last(), names, 0);
        }
    } else {
        assert(printing::param_texts(ps.drop_last(), names).len() == 0);
    }
}

/// Written parameters are read as their tokens.
proof fn lemma_params(ps: Seq<ParamV>, names: Seq<Seq<char>>)
    requires
        forall|i: int|
            0 <= i < ps.len() ==> tokens::typed_fits(names, (#[trigger] ps[i]).name, ps[i].ty),
        interner::distinct_names(names),
    ensures
        all_readable(printing::param_texts(ps, names), tokens::param_token_lists(ps), names),
{
    let parts = printing::param_texts(ps, names);
    let toks = tokens::param_token_lists(ps);
    if ps.len() > 0 {
        lemma_param_texts(ps, names, 0);
    }
    assert forall|j: int| 0 <= j < parts.len() implies pieces::readable(
        pieces::construct(#[trigger] parts[j], toks[j]),
        names,
    ) by {
        lemma_param_texts(ps, names, j);
        let x = lemma_typed(ps[j].name, ps[j].ty, names);
    }
}

/// What is written of names, one by one.
proof fn lemma_symbol_texts(xs: Seq<Symbol>, names: Seq<Seq<char>>, i: int)
    requires
        0 <= i < xs.len(),
    ensures
        printing::symbol_texts(xs, names).len() == xs.len(),
        printing::symbol_texts(xs, names)[i] == interner::name_text(names, xs[i]),
    decreases xs.len(),
{
    if xs.len() > 1 {
        if i < xs.len() - 1 {
            lemma_symbol_texts(xs.drop_last(), names, i);
        } else {
            lemma_symbol_texts(xs.drop_last(), names, 0);
        }
    } else {
        assert(printing::symbol_texts(xs.drop_last(), names).len() == 0);
    }
}

/// Written names are read as their tokens.
proof fn lemma_names(xs: Seq<Symbol>, names: Seq<Seq<char>>)
    requires
        forall|i: int| 0 <= i < xs.len() ==> tokens::named(names, #[trigger] xs[i]),
        interner::distinct_names(names),
    ensures
        all_readable(printing::symbol_texts(xs, names), tokens::name_token_lists(xs), names),
{
    let parts = printing::symbol_texts(xs, names);
    let toks = tokens::name_token_lists(xs);
    if xs.len() > 0 {
        lemma_symbol_texts(xs, names, 0);
    }
    assert forall|j: int| 0 <= j < parts.len() implies pieces::readable(
        pieces::construct(#[trigger] parts[j], toks[j]),
        names,
    ) by {
        lemma_symbol_texts(xs, names, j);
        let x = lemma_name(xs[j], names);
    }
}

/// What is written of expressions, one by one.
pub proof fn lemma_expr_lists(es: Seq<ExprV>, names: Seq<Seq<char>>, i: int)
    requires
        0 <= i < es.len(),
    ensures
        printing::expr_texts(es, names).len() == es.len(),
        printing::expr_texts(es, names)[i] == printing::expr_text(es[i], names),
        tokens::expr_token_lists(es).len() == es.len(),
        tokens::expr_token_lists(es)[i] == tokens::expr_tokens(es[i]),
    decreases es.len(),
{
    if es.len() > 1 {
        if i < es.len() - 1 {
            lemma_expr_lists(es.drop_last(), names, i);
        } else {
            lemma_expr_lists(es.drop_last(), names, 0);
        }
    } else {
        assert(printing::expr_texts(es.drop_last(), names).len() == 0);
        assert(tokens::expr_token_lists(es.drop_last()).len() == 0);
    }
}

/// What is written of statements, one by one.
pub proof fn lemma_stmt_lists(ss: Seq<ActionStmtV>, names: Seq<Seq<char>>, i: int)
    requires
        0 <= i < ss.len(),
    ensures
        printing::stmt_texts(ss, names).len() == ss.len(),
        printing::stmt_texts(ss, names)[i] == printing::stmt_text(ss[i], names),
        tokens::stmt_token_lists(ss).len() == ss.len(),
        tokens::stmt_token_lists(ss)[i] == tokens::stmt_tokens(ss[i]),
    decreases ss.len(),
{
    if ss.len() > 1 {
        if i < ss.len() - 1 {
            lemma_stmt_lists(ss.drop_last(), names, i);
        } else {
            lemma_stmt_lists(ss.drop_last(), names, 0);
        }
    } else {
        assert(printing::stmt_texts(ss.drop_last(), names).len() == 0);
        assert(tokens::stmt_token_lists(ss.drop_last()).len() == 0);
    }
}

/// A written expression is read as its tokens.
#[verifier::rlimit(40)]
proof fn lemma_scan_expr(e: ExprV, names: Seq<Seq<char>>) -> (z: PieceV)
    requires
        tokens::fits(e, names),
        interner::distinct_names(names),
    ensures
        z == pieces::construct(printing::expr_text(e, names), tokens::expr_tokens(e)),
        pieces::readable(z, names),
    decreases e, 1int,
{
    match e {
        ExprV::Literal { val } => {
            lemma_literal(val, names);
        },
        ExprV::Variable { name } => {
            let x = lemma_name(name, names);
        },
        ExprV::MemberAccess { service_name, member_name } => {
            let a = lemma_name(service_name, names);
            let b = lemma_name(member_name, names);
            let t_dot = pieces::text_dot(names);
            let x = pieces::join(a, t_dot, names);
            let x = pieces::join(x, b, names);
        },
        ExprV::Tuple { val } => {
            lemma_scan_exprs(val, names);
            let t_comma = pieces::text_comma(names);
            if val.len() < 2 {
                reveal_strlit("{ ");
                let t_open = pieces::text_open_brace(names);
                let t_close = pieces::text_end_action(names);
                let x = lemma_enclosed(
                    t_open,
                    printing::expr_texts(val, names),
                    tokens::expr_token_lists(val),
                    t_comma,
                    t_close,
                    names,
                );
            } else {
                reveal_strlit("(");
                let t_open = pieces::text_open(names);
                let t_close = pieces::text_close(names);
                let x = lemma_enclosed(
                    t_open,
                    printing::expr_texts(val, names),
                    tokens::expr_token_lists(val),
                    t_comma,
                    t_close,
                    names,
                );
            }
        },
        ExprV::List(val) => {
            lemma_scan_exprs(val, names);
            reveal_strlit("[");
            let t_open_list = pieces::text_open_list(names);
            let t_comma = pieces::text_comma(names);
            let t_close_list = pieces::text_close_list(names);
            let x = lemma_enclosed(
                t_open_list,
                printing::expr_texts(val, names),
                tokens::expr_token_lists(val),
                t_comma,
                t_close_list,
                names,
            );
        },
        ExprV::Call { func, args } => {
            let f = lemma_scan_operand(*func, grammar::LEVELS + 1, names);
            lemma_scan_exprs(args, names);
            reveal_strlit("(");
            let t_open_args = pieces::text_open_args(names);
            let x = pieces::join(f, t_open_args, names);
            let t_comma = pieces::text_comma(names);
            let t_close = pieces::text_close(names);
            let x = lemma_enclosed(
                x,
                printing::expr_texts(args, names),
                tokens::expr_token_lists(args),
                t_comma,
                t_close,
                names,
            );
        },
        ExprV::Unop { op, expr } => {
            let a = lemma_scan_operand(*expr, grammar::LEVELS as int, names);
            let sign = lemma_sign(op, names);
            let x = pieces::join(sign, a, names);
        },
        ExprV::Binop { op, expr1, expr2 } => {
            let a = lemma_scan_operand(*expr1, printing::op_level(op), names);
            let b = lemma_scan_operand(*expr2, printing::op_level(op) + 1, names);
            let o = printing::binop_text(op);
            let o_piece = lemma_op(op, names);
            let x = pieces::join(a, o_piece, names);
            let x = pieces::join(x, b, names);
            assert(a.text + (" "@ + o + " "@) + b.text =~= a.text + " "@ + o + " "@ + b.text);
        },
        ExprV::Range { start, end } => {
            let a = lemma_scan_operand(*start, 3, names);
            let b = lemma_scan_operand(*end, 4, names);
            let t_dots = pieces::text_dots(names);
            let x = pieces::join(a, t_dots, names);
            let x = pieces::join(x, b, names);
        },
        ExprV::If { cond, expr1, expr2 } => {
            let c = lemma_scan_expr(*cond, names);
            let a = lemma_scan_expr(*expr1, names);
            let b = lemma_scan_expr(*expr2, names);
            let t_if = pieces::text_if(names);
            let x = pieces::join(t_if, c, names);
            let t_then = pieces::text_then(names);
            let x = pieces::join(x, t_then, names);
            let x = pieces::join(x, a, names);
            let t_else = pieces::text_else(names);
            let x = pieces::join(x, t_else, names);
            let x = pieces::join(x, b, names);
        },
        ExprV::Func { params, body, .. } => {
            lemma_params(params, names);
            reveal_strlit("fn (");
            let t_fn = pieces::text_fn(names);
            let t_comma = pieces::text_comma(names);
            let t_arrow_body = pieces::text_arrow_body(names);
            let h = lemma_enclosed(
                t_fn,
                printing::param_texts(params, names),
                tokens::param_token_lists(params),
                t_comma,
                t_arrow_body,
                names,
            );
            let b = lemma_scan_expr(*body, names);
            let x = pieces::join(h, b, names);
        },
        ExprV::KeyVal { name, value } => {
            let n = lemma_name(name, names);
            let a = lemma_scan_expr(*value, names);
            let t_colon = pieces::text_colon(names);
            let x = pieces::join(n, t_colon, names);
            let x = pieces::join(x, a, names);
        },
        ExprV::Select { table_name, column_names, where_clause } => {
            lemma_names(column_names, names);
            reveal_strlit("select ");
            let t_select = pieces::text_select(names);
            let t_comma = pieces::text_comma(names);
            let t_from = pieces::text_from(names);
            let h = lemma_enclosed(
                t_select,
                printing::symbol_texts(column_names, names),
                tokens::name_token_lists(column_names),
                t_comma,
                t_from,
                names,
            );
            let n = lemma_name(table_name, names);
            let w = lemma_scan_expr(*where_clause, names);
            let x = pieces::join(h, n, names);
            let t_where = pieces::text_where(names);
            let x = pieces::join(x, t_where, names);
            let x = pieces::join(x, w, names);
        },
        ExprV::Fold { table_name, column_name, operation, identity } => {
            let n = lemma_name(table_name, names);
            let c = lemma_name(column_name, names);
            let a = lemma_scan_expr(*operation, names);
            let b = lemma_scan_expr(*identity, names);
            let t_fold = pieces::text_fold(names);
            let x = pieces::join(t_fold, n, names);
            let t_dot = pieces::text_dot(names);
            let x = pieces::join(x, t_dot, names);
            let x = pieces::join(x, c, names);
            let t_comma = pieces::text_comma(names);
            let x = pieces::join(x, t_comma, names);
            let x = pieces::join(x, a, names);
            let x = pieces::join(x, t_comma, names);
            let x = pieces::join(x, b, names);
            let t_close = pieces::text_close(names);
            let x = pieces::join(x, t_close, names);
        },
        ExprV::Action(stmts) => {
            lemma_scan_stmts(stmts, names);
            reveal_strlit("action { ");
            let t_action = pieces::text_action(names);
            let t_space = pieces::text_space(names);
            let t_end_action = pieces::text_end_action(names);
            let x = lemma_enclosed(
                t_action,
                printing::stmt_texts(stmts, names),
                tokens::stmt_token_lists(stmts),
                t_space,
                t_end_action,
                names,
            );
        },
        ExprV::Html(parts) => {
            let x = lemma_scan_page(parts, true, names);
        },
        _ => {},
    }
    pieces::construct(printing::expr_text(e, names), tokens::expr_tokens(e))
}

/// The parts of a page, and what stands around them, are read as their tokens.
proof fn lemma_scan_page(parts: Seq<HtmlPartV>, last: bool, names: Seq<Seq<char>>) -> (z: PieceV)
    requires
        tokens::parts_fit(parts, names),
        last ==> tokens::ends_with_tag(parts),
        interner::distinct_names(names),
    ensures
        z == (PieceV {
            text: "("@ + printing::parts_text(parts, names) + if last {
                ")"@
            } else {
                "{"@
            },
            tokens: tokens::page_tokens(parts, last),
            begins: true,
            closed: last,
        }),
        pieces::readable(z, names),
    decreases parts, parts.len() as int,
{
    reveal_strlit("(");
    reveal_strlit(")");
    reveal_strlit("{");
    reveal_strlit("}");
    let n = parts.len() as int;
    assert(parts[n - 1] is Text && tokens::part_fits(parts[n - 1], names));
    let s = parts[n - 1]->Text_0;
    let c = if last {
        ")"@
    } else {
        "{"@
    };
    let d = if last {
        ')'
    } else {
        '{'
    };
    assert(c =~= seq![d]);
    assert("("@ =~= seq!['(']);
    assert("}"@ =~= seq!['}']);
    assert("{"@ =~= seq!['{']);
    if n == 1 {
        let x = pieces::piece_of_page(s, true, last, names);
        let none = Seq::<TokenV>::empty();
        assert(parts.drop_last() =~= Seq::<HtmlPartV>::empty());
        assert(parts.last() == HtmlPartV::Text(s));
        assert(printing::parts_text(parts.drop_last(), names) =~= Seq::<char>::empty());
        assert(printing::parts_text(parts, names) =~= s);
        assert(tokens::page_tokens(parts.drop_last(), false) =~= none);
        assert(tokens::page_tokens(parts, last) =~= x.tokens);
        assert(x.text =~= "("@ + s + c);
        x
    } else {
        let shorter = parts.drop_last().drop_last();
        tokens::lemma_shorter_page(parts, names);
        assert(parts.drop_last().last() == parts[n - 2]);
        let e = parts[n - 2]->Expr_0;
        let head = lemma_scan_page(shorter, false, names);
        let ex = lemma_scan_expr(e, names);
        let tail = pieces::piece_of_page(s, false, last, names);
        let x = pieces::join(head, ex, names);
        let y = pieces::join(x, tail, names);
        let pt = printing::parts_text(shorter, names);
        let et = printing::expr_text(e, names);
        assert(printing::parts_text(parts.drop_last(), names) == pt + ("{"@ + et + "}"@));
        assert(printing::parts_text(parts, names) == (pt + ("{"@ + et + "}"@)) + s);
        assert(y.text =~= "("@ + ((pt + ("{"@ + et + "}"@)) + s) + c);
        assert(tokens::page_tokens(parts.drop_last(), false) == head.tokens + ex.tokens);
        y
    }
}

/// A written operand is read as its tokens.
proof fn lemma_scan_operand(e: ExprV, level: int, names: Seq<Seq<char>>) -> (z: PieceV)
    requires
        tokens::fits(e, names),
        interner::distinct_names(names),
    ensures
        z == pieces::construct(
            printing::bracketed(
                printing::expr_text(e, names),
                printing::tightness(e) < level,
            ),
            tokens::enclosed(tokens::expr_tokens(e), printing::tightness(e) < level),
        ),
        pieces::readable(z, names),
    decreases e, 2int,
{
    let x = lemma_scan_expr(e, names);
    if printing::tightness(e) < level {
        let t_open = pieces::text_open(names);
        let t_close = pieces::text_close(names);
        let y = pieces::join(t_open, x, names);
        pieces::join(y, t_close, names)
    } else {
        x
    }
}

/// Written expressions are read as their tokens.
proof fn lemma_scan_exprs(es: Seq<ExprV>, names: Seq<Seq<char>>)
    requires
        tokens::all_fit(es, names),
        interner::distinct_names(names),
    ensures
        all_readable(printing::expr_texts(es, names), tokens::expr_token_lists(es), names),
    decreases es, 0int,
{
    let parts = printing::expr_texts(es, names);
    let toks = tokens::expr_token_lists(es);
    if es.len() > 0 {
        lemma_expr_lists(es, names, 0);
    }
    assert forall|j: int| 0 <= j < parts.len() implies pieces::readable(
        pieces::construct(#[trigger] parts[j], toks[j]),
        names,
    ) by {
        lemma_expr_lists(es, names, j);
        assert(tokens::fits(es[j], names));
        let x = lemma_scan_expr(es[j], names);
    }
}

/// A written statement is read as its tokens.
proof fn lemma_scan_stmt(s: ActionStmtV, names: Seq<Seq<char>>) -> (z: PieceV)
    requires
        tokens::stmt_fits(s, names),
        interner::distinct_names(names),
    ensures
        z == pieces::construct(printing::stmt_text(s, names), tokens::stmt_tokens(s)),
        pieces::readable(z, names),
    decreases s, 1int,
{
    match s {
        ActionStmtV::Let { name, ty, expr } => {
            let d = lemma_typed(name, ty, names);
            let a = lemma_scan_expr(expr, names);
            let t_let = pieces::text_let(names);
            let x = pieces::join(t_let, d, names);
            let t_equals = pieces::text_equals(names);
            let x = pieces::join(x, t_equals, names);
            let x = pieces::join(x, a, names);
            let t_semi = pieces::text_semi(names);
            let x = pieces::join(x, t_semi, names);
            if let Some(u) = ty {
                let n = interner::name_text(names, name);
                assert("let "@ + (n + ": "@ + types::type_text(u)) =~= "let "@ + n + ": "@
                    + types::type_text(u));
            }
        },
        ActionStmtV::Assign { name, expr } => {
            let n = lemma_name(name, names);
            let a = lemma_scan_expr(expr, names);
            let t_equals = pieces::text_equals(names);
            let x = pieces::join(n, t_equals, names);
            let x = pieces::join(x, a, names);
            let t_semi = pieces::text_semi(names);
            let x = pieces::join(x, t_semi, names);
        },
        ActionStmtV::Do(expr) => {
            let a = lemma_scan_expr(expr, names);
            let t_do = pieces::text_do(names);
            let x = pieces::join(t_do, a, names);
            let t_semi = pieces::text_semi(names);
            let x = pieces::join(x, t_semi, names);
        },
        ActionStmtV::Assert(expr, _) => {
            let a = lemma_scan_expr(expr, names);
            let t_assert = pieces::text_assert(names);
            let x = pieces::join(t_assert, a, names);
            let t_end_assert = pieces::text_end_assert(names);
            let x = pieces::join(x, t_end_assert, names);
        },
        ActionStmtV::Expr(expr) => {
            let a = lemma_scan_expr(expr, names);
            let t_semi = pieces::text_semi(names);
            let x = pieces::join(a, t_semi, names);
        },
        ActionStmtV::Insert { table_name, row } => {
            let a = lemma_scan_expr(row, names);
            let n = lemma_name(table_name, names);
            let t_insert = pieces::text_insert(names);
            let x = pieces::join(t_insert, a, names);
            let t_into = pieces::text_into(names);
            let x = pieces::join(x, t_into, names);
            let x = pieces::join(x, n, names);
        },
        _ => {},
    }
    pieces::construct(printing::stmt_text(s, names), tokens::stmt_tokens(s))
}

/// Written statements are read as their tokens.
proof fn lemma_scan_stmts(ss: Seq<ActionStmtV>, names: Seq<Seq<char>>)
    requires
        tokens::stmts_fit(ss, names),
        interner::distinct_names(names),
    ensures
        all_readable(printing::stmt_texts(ss, names), tokens::stmt_token_lists(ss), names),
    decreases ss, 0int,
{
    let parts = printing::stmt_texts(ss, names);
    let toks = tokens::stmt_token_lists(ss);
    if ss.len() > 0 {
        lemma_stmt_lists(ss, names, 0);
    }
    assert forall|j: int| 0 <= j < parts.len() implies pieces::readable(
        pieces::construct(#[trigger] parts[j], toks[j]),
        names,
    ) by {
        lemma_stmt_lists(ss, names, j);
        assert(tokens::stmt_fits(ss[j], names));
        let x = lemma_scan_stmt(ss[j], names);
    }
}

/// Written columns are read as their tokens, behind what opens the table.
proof fn lemma_scan_fields(
    open: PieceV,
    fs: Seq<FieldV>,
    names: Seq<Seq<char>>,
) -> (z: PieceV)
    requires
        pieces::readable(open, names),
        !open.closed,
        open.text.last() == ' ',
        forall|i: int| 0 <= i < fs.len() ==> tokens::field_fits(#[trigger] fs[i], names),
        interner::distinct_names(names),
    ensures
        z == (PieceV {
            text: open.text + printing::fields_text(fs, names),
            tokens: open.tokens + tokens::field_tokens(fs),
            ..open
        }),
        pieces::readable(z, names),
        z.text.last() == ' ',
    decreases fs.len(),
{
    if fs.len() == 0 {
        assert(open.text + printing::fields_text(fs, names) =~= open.text);
        assert(open.tokens + tokens::field_tokens(fs) =~= open.tokens);
        open
    } else {
        let last = fs.last();
        assert(tokens::field_fits(fs[fs.len() - 1], names));
        let x = lemma_scan_fields(open, fs.drop_last(), names);
        let d = lemma_typed(last.name, Some(last.ty), names);
        let t_comma = pieces::text_comma(names);
        reveal_strlit(", ");
        let y = pieces::join(x, d, names);
        let z = pieces::join(y, t_comma, names);
        let n = interner::name_text(names, last.name);
        let u = types::type_text(last.ty);
        let before = printing::fields_text(fs.drop_last(), names);
        assert((open.text + before) + (n + ": "@ + u) + ", "@ =~= open.text + (before + n + ": "@
            + u + ", "@));
        let tn = tokens::ident(last.name);
        let tu = tokens::type_tokens(last.ty);
        let tb = tokens::field_tokens(fs.drop_last());
        let colon = tokens::mark(Punct::Colon);
        let comma = tokens::mark(Punct::Comma);
        assert((open.tokens + tb) + (tn + colon + tu) + comma =~= open.tokens + (tb + tn + colon
            + tu + comma));
        z
    }
}

/// A written declaration is read as its tokens.
proof fn lemma_scan_decl(d: DeclV, names: Seq<Seq<char>>) -> (z: PieceV)
    requires
        tokens::decl_fits(d, names),
        interner::distinct_names(names),
    ensures
        z == pieces::construct(printing::decl_text(d, names), tokens::decl_tokens(d)),
        pieces::readable(z, names),
{
    match d {
        DeclV::VarDecl { name, ty, val } => {
            let n = lemma_typed(name, ty, names);
            let a = lemma_scan_expr(val, names);
            let t_var = pieces::text_var(names);
            let x = pieces::join(t_var, n, names);
            let t_equals = pieces::text_equals(names);
            let x = pieces::join(x, t_equals, names);
            let x = pieces::join(x, a, names);
            let t_semi = pieces::text_semi(names);
            let x = pieces::join(x, t_semi, names);
        },
        DeclV::DefDecl { name, ty, val, is_pub } => {
            let n = lemma_typed(name, ty, names);
            let a = lemma_scan_expr(val, names);
            let h = if is_pub {
                let t_pub = pieces::text_pub(names);
                let t_def = pieces::text_def(names);
                pieces::join(t_pub, t_def, names)
            } else {
                assert(Seq::<char>::empty() + "def "@ =~= "def "@);
                assert(Seq::<TokenV>::empty() + tokens::word(Keyword::Def) =~= tokens::word(
                    Keyword::Def,
                ));
                pieces::text_def(names)
            };
            let x = pieces::join(h, n, names);
            let t_equals = pieces::text_equals(names);
            let x = pieces::join(x, t_equals, names);
            let x = pieces::join(x, a, names);
            let t_semi = pieces::text_semi(names);
            let x = pieces::join(x, t_semi, names);
        },
        DeclV::TableDecl { name, fields } => {
            let n = lemma_name(name, names);
            let t_table = pieces::text_table(names);
            let t_brace = pieces::text_brace(names);
            let x = pieces::join(t_table, n, names);
            let x = pieces::join(x, t_brace, names);
            let x = lemma_scan_fields(x, fields, names);
            let t_end = pieces::text_end_table(names);
            pieces::lemma_scan_join(x.text, x.tokens, t_end.text, t_end.tokens, names);
            assert((x.text + t_end.text).last() == t_end.text.last());
            assert((x.text + t_end.text)[0] == x.text[0]);
            let h = "table "@ + interner::name_text(names, name) + " { "@;
            let th = tokens::word(Keyword::Table) + tokens::ident(name) + tokens::mark(
                Punct::LBrace,
            );
            assert(x.text + t_end.text == h + printing::fields_text(fields, names) + "};"@);
            assert(x.tokens + t_end.tokens == th + tokens::field_tokens(fields)
                + t_end.tokens);
        },
    }
    pieces::construct(printing::decl_text(d, names), tokens::decl_tokens(d))
}

/// What is written of declarations, one by one.
proof fn lemma_decl_texts(ds: Seq<DeclV>, names: Seq<Seq<char>>, i: int)
    requires
        0 <= i < ds.len(),
    ensures
        printing::decl_texts(ds, names).len() == ds.len(),
        printing::decl_texts(ds, names)[i] == printing::decl_text(ds[i], names),
    decreases ds.len(),
{
    if ds.len() > 1 {
        if i < ds.len() - 1 {
            lemma_decl_texts(ds.drop_last(), names, i);
        } else {
            lemma_decl_texts(ds.drop_last(), names, 0);
        }
    } else {
        assert(printing::decl_texts(ds.drop_last(), names).len() == 0);
    }
}

/// The tokens of a written expression. No new names occur in it.
pub proof fn written_expressions_are_tokens(e: ExprV, names: Seq<Seq<char>>)
    requires
        tokens::fits(e, names),
        interner::distinct_names(names),
    ensures
        lex::lexed(printing::expr_text(e, names), names) == (lex::Lexed {
            tokens: Ok(tokens::expr_tokens(e)),
            names,
        }),
{
    let x = lemma_scan_expr(e, names);
    nesting::lemma_balanced_expr(e, names);
    pieces::lemma_scans_all(x.text, x.tokens, names);
}

/// The tokens of a written update. No new names occur in it.
pub proof fn written_updates_are_tokens(service: Symbol, ds: Seq<DeclV>, names: Seq<Seq<char>>)
    requires
        tokens::update_fits(service, ds, names),
        interner::distinct_names(names),
    ensures
        lex::lexed(printing::update_text(service, ds, names), names) == (lex::Lexed {
            tokens: Ok(tokens::update_tokens(service, ds)),
            names,
        }),
{
    let parts = printing::decl_texts(ds, names);
    let toks = tokens::decl_token_lists(ds);
    assert(all_readable(parts, toks, names)) by {
        if ds.len() > 0 {
            lemma_decl_texts(ds, names, 0);
        }
        assert forall|j: int| 0 <= j < parts.len() implies pieces::readable(
            pieces::construct(#[trigger] parts[j], toks[j]),
            names,
        ) by {
            lemma_decl_texts(ds, names, j);
            let x = lemma_scan_decl(ds[j], names);
        }
    }
    reveal_strlit(" {\n  ");
    let n = lemma_name(service, names);
    let t_update = pieces::text_update(names);
    let x = pieces::join(t_update, n, names);
    let t_block = pieces::text_block(names);
    let h = pieces::join(x, t_block, names);
    let t_line = pieces::text_line(names);
    let t_end_block = pieces::text_end_block(names);
    let x = lemma_enclosed(h, parts, toks, t_line, t_end_block, names);
    nesting::lemma_balanced_update(service, ds, names);
    pieces::lemma_scans_all(x.text, x.tokens, names);
}

} // verus!
