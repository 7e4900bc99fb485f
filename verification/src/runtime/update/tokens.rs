//! The tokens that written declarations consist of, and which declarations the language can write.

use vstd::prelude::*;

use crate::runtime::ast::{ActionStmtV, BinOp, DeclV, ExprV, FieldV, HtmlPartV, UnOp, ValueV};
use crate::runtime::interner::Symbol;
use crate::runtime::limits::{MAX_IDENTIFIER_LENGTH, MAX_STRING_LITERAL_LENGTH};
use crate::runtime::parser::grammar;
use crate::runtime::parser::lex;
use crate::runtime::parser::lex::{Class, Keyword, Punct, TokenV};
use crate::runtime::tt::types::{ParamV, TypeV};
use crate::runtime::update::printing;

verus! {

/// Whether a text can be written as a name.
pub open spec fn is_identifier(w: Seq<char>) -> bool {
    &&& 0 < w.len() <= MAX_IDENTIFIER_LENGTH
    &&& lex::in_class(Class::Letter, w[0])
    &&& forall|i: int| 0 <= i < w.len() ==> lex::in_class(Class::NameChar, #[trigger] w[i])
    &&& lex::keyword_of(w) is None
}

/// Whether a symbol has a name that can be written.
pub open spec fn named(names: Seq<Seq<char>>, x: Symbol) -> bool {
    x < names.len() && is_identifier(names[x as int])
}

/// The token of a mark.
pub open spec fn mark(m: Punct) -> Seq<TokenV> {
    seq![TokenV::Mark(m)]
}

/// The token of a reserved word.
pub open spec fn word(k: Keyword) -> Seq<TokenV> {
    seq![TokenV::Word(k)]
}

/// The token of a name.
pub open spec fn ident(x: Symbol) -> Seq<TokenV> {
    seq![TokenV::Ident(x)]
}

/// The items from item `i` on, with a separator between each two.
pub open spec fn listed<T>(parts: Seq<Seq<T>>, sep: Seq<T>, i: int) -> Seq<T>
    decreases parts.len() - i,
{
    if i < 0 || i >= parts.len() {
        Seq::empty()
    } else if i + 1 == parts.len() {
        parts[i]
    } else {
        parts[i] + sep + listed(parts, sep, i + 1)
    }
}

/// The tokens of a type.
pub open spec fn type_tokens(ty: TypeV) -> Seq<TokenV>
    decreases ty,
{
    match ty {
        TypeV::Int => word(Keyword::Int),
        TypeV::Bool => word(Keyword::Bool),
        TypeV::String => word(Keyword::String),
        TypeV::Unit => word(Keyword::Unit),
        TypeV::Tuple(ts) => mark(Punct::LParen) + listed(
            type_token_lists(ts),
            mark(Punct::Comma),
            0,
        ) + mark(Punct::RParen),
        TypeV::Func { params, ret } => mark(Punct::LParen) + listed(
            type_token_lists(params),
            mark(Punct::Comma),
            0,
        ) + (mark(Punct::RParen) + mark(Punct::Arrow)) + type_tokens(*ret),
        _ => Seq::empty(),
    }
}

/// The tokens of types, one by one.
pub open spec fn type_token_lists(ts: Seq<TypeV>) -> Seq<Seq<TokenV>>
    decreases ts,
{
    if ts.len() == 0 {
        Seq::empty()
    } else {
        type_token_lists(ts.drop_last()).push(type_tokens(ts.last()))
    }
}

/// Whether the language can write a type: it has no lists, templates or actions as types, and a
/// tuple of one is that one.
pub open spec fn type_fits(ty: TypeV) -> bool
    decreases ty,
{
    match ty {
        TypeV::Int | TypeV::Bool | TypeV::String | TypeV::Unit => true,
        TypeV::Tuple(ts) => ts.len() >= 2 && types_fit(ts),
        TypeV::Func { params, ret } => types_fit(params) && type_fits(*ret),
        _ => false,
    }
}

/// Whether the language can write types.
pub open spec fn types_fit(ts: Seq<TypeV>) -> bool
    decreases ts,
{
    forall|i: int| 0 <= i < ts.len() ==> type_fits(#[trigger] ts[i])
}

/// The tokens of a name and its type.
pub open spec fn typed_tokens(x: Symbol, ty: Option<TypeV>) -> Seq<TokenV> {
    match ty {
        Some(u) => ident(x) + mark(Punct::Colon) + type_tokens(u),
        None => ident(x),
    }
}

/// Whether the language can write a name and its type.
pub open spec fn typed_fits(names: Seq<Seq<char>>, x: Symbol, ty: Option<TypeV>) -> bool {
    named(names, x) && (ty matches Some(u) ==> type_fits(u))
}

/// The tokens of parameters, one by one.
pub open spec fn param_token_lists(ps: Seq<ParamV>) -> Seq<Seq<TokenV>> {
    ps.map_values(|p: ParamV| typed_tokens(p.name, p.ty))
}

/// The tokens of names, one by one.
pub open spec fn name_token_lists(xs: Seq<Symbol>) -> Seq<Seq<TokenV>> {
    xs.map_values(|x: Symbol| ident(x))
}

/// The mark of a binary operator.
pub open spec fn op_mark(op: BinOp) -> Punct {
    match op {
        BinOp::Add => Punct::Plus,
        BinOp::Sub => Punct::Minus,
        BinOp::Mul => Punct::Star,
        BinOp::Div => Punct::Slash,
        BinOp::Eq => Punct::EqEq,
        BinOp::Lt => Punct::Lt,
        BinOp::Gt => Punct::Gt,
        BinOp::And => Punct::AndAnd,
        BinOp::Or => Punct::OrOr,
    }
}

/// The mark of a sign.
pub open spec fn sign_mark(op: UnOp) -> Punct {
    match op {
        UnOp::Neg => Punct::Minus,
        UnOp::Not => Punct::Bang,
    }
}

/// The token of a literal.
pub open spec fn literal_token(v: ValueV) -> TokenV {
    match v {
        ValueV::Int { val } => TokenV::Num(val),
        ValueV::Bool { val } => TokenV::Word(
            if val {
                Keyword::True
            } else {
                Keyword::False
            },
        ),
        ValueV::String { val } => TokenV::Str(val),
        _ => TokenV::Word(Keyword::False),
    }
}

/// Whether the language can write a literal: a number without a sign, a truth value, or a text
/// without quotes.
pub open spec fn literal_fits(v: ValueV) -> bool {
    match v {
        ValueV::Int { val } => 0 <= val <= i32::MAX,
        ValueV::Bool { .. } => true,
        ValueV::String { val } => val.len() <= MAX_STRING_LITERAL_LENGTH && !val.contains('"'),
        _ => false,
    }
}

/// Tokens, in brackets where these are needed.
pub open spec fn enclosed(ts: Seq<TokenV>, needed: bool) -> Seq<TokenV> {
    if needed {
        mark(Punct::LParen) + ts + mark(Punct::RParen)
    } else {
        ts
    }
}

/// The tokens of an expression.
pub open spec fn expr_tokens(e: ExprV) -> Seq<TokenV>
    decreases e,
{
    match e {
        ExprV::Literal { val } => seq![literal_token(val)],
        ExprV::Variable { name } => ident(name),
        ExprV::MemberAccess { service_name, member_name } => ident(service_name) + mark(Punct::Dot)
            + ident(member_name),
        ExprV::Tuple { val } => if val.len() < 2 {
            mark(Punct::LBrace) + listed(expr_token_lists(val), mark(Punct::Comma), 0) + mark(
                Punct::RBrace,
            )
        } else {
            mark(Punct::LParen) + listed(expr_token_lists(val), mark(Punct::Comma), 0) + mark(
                Punct::RParen,
            )
        },
        ExprV::List(val) => mark(Punct::LBracket) + listed(
            expr_token_lists(val),
            mark(Punct::Comma),
            0,
        ) + mark(Punct::RBracket),
        ExprV::Call { func, args } => enclosed(
            expr_tokens(*func),
            printing::tightness(*func) < grammar::LEVELS + 1,
        ) + mark(Punct::LParen) + listed(
            expr_token_lists(args),
            mark(Punct::Comma),
            0,
        ) + mark(Punct::RParen),
        ExprV::Unop { op, expr } => mark(sign_mark(op)) + enclosed(
            expr_tokens(*expr),
            printing::tightness(*expr) < grammar::LEVELS,
        ),
        ExprV::Binop { op, expr1, expr2 } => enclosed(
            expr_tokens(*expr1),
            printing::tightness(*expr1) < printing::op_level(op),
        ) + mark(op_mark(op)) + enclosed(
            expr_tokens(*expr2),
            printing::tightness(*expr2) < printing::op_level(op) + 1,
        ),
        ExprV::Range { start, end } => enclosed(
            expr_tokens(*start),
            printing::tightness(*start) < 3,
        ) + mark(Punct::DotDot) + enclosed(expr_tokens(*end), printing::tightness(*end) < 4),
        ExprV::If { cond, expr1, expr2 } => word(Keyword::If) + expr_tokens(*cond) + word(
            Keyword::Then,
        ) + expr_tokens(*expr1) + word(Keyword::Else) + expr_tokens(*expr2),
        ExprV::Func { params, body, .. } => (word(Keyword::Fn) + mark(Punct::LParen)) + listed(
            param_token_lists(params),
            mark(Punct::Comma),
            0,
        ) + (mark(Punct::RParen) + mark(Punct::FatArrow)) + expr_tokens(*body),
        ExprV::KeyVal { name, value } => ident(name) + mark(Punct::Colon) + expr_tokens(*value),
        ExprV::Select { table_name, column_names, where_clause } => word(Keyword::Select) + listed(
            name_token_lists(column_names),
            mark(Punct::Comma),
            0,
        ) + word(Keyword::From) + ident(table_name) + word(Keyword::Where) + expr_tokens(
            *where_clause,
        ),
        ExprV::Fold { table_name, column_name, operation, identity } => (word(Keyword::Fold) + mark(
            Punct::LParen,
        )) + ident(table_name) + mark(Punct::Dot) + ident(column_name) + mark(Punct::Comma)
            + expr_tokens(*operation) + mark(Punct::Comma) + expr_tokens(*identity) + mark(
            Punct::RParen,
        ),
        ExprV::Action(stmts) => (word(Keyword::Action) + mark(Punct::LBrace)) + listed(
            stmt_token_lists(stmts),
            Seq::empty(),
            0,
        ) + mark(Punct::RBrace),
        ExprV::Html(parts) => page_tokens(parts, true),
        _ => Seq::empty(),
    }
}

/// The tokens of the parts of a page; `last` tells whether they are all.
pub open spec fn page_tokens(parts: Seq<HtmlPartV>, last: bool) -> Seq<TokenV>
    decreases parts,
{
    if parts.len() == 0 {
        Seq::empty()
    } else {
        page_tokens(parts.drop_last(), false) + match parts.last() {
            HtmlPartV::Text(s) => seq![TokenV::Markup(s, parts.len() == 1, last)],
            HtmlPartV::Expr(e) => expr_tokens(e),
        }
    }
}

/// Whether a text can stand in a page as it is: no expression begins in it, and no tag with a
/// closing bracket behind it ends there.
pub open spec fn markup_fits(s: Seq<char>) -> bool {
    &&& !s.contains('{')
    &&& forall|i: int| 0 <= i < s.len() - 1 ==> !((#[trigger] s[i]) == '>' && s[i + 1] == ')')
}

/// Whether the language can write a part of a page.
pub open spec fn part_fits(part: HtmlPartV, names: Seq<Seq<char>>) -> bool
    decreases part,
{
    match part {
        HtmlPartV::Text(s) => markup_fits(s),
        HtmlPartV::Expr(e) => fits(e, names),
    }
}

/// Whether the language can write the beginning of a page up to a text: texts and expressions take
/// turns, and the first text starts with a tag.
pub open spec fn parts_fit(parts: Seq<HtmlPartV>, names: Seq<Seq<char>>) -> bool
    decreases parts,
{
    &&& parts.len() % 2 == 1
    &&& forall|i: int|
        0 <= i < parts.len() ==> part_fits(#[trigger] parts[i], names) && (parts[i] is Text <==> i
            % 2 == 0)
    &&& parts[0]->Text_0.len() > 0 && parts[0]->Text_0[0] == '<'
}

/// Whether the last text of a page ends with a tag.
pub open spec fn ends_with_tag(parts: Seq<HtmlPartV>) -> bool {
    parts.len() > 0 && (parts.last() matches HtmlPartV::Text(s) && s.len() > 0 && s.last() == '>')
}

/// The tokens of expressions, one by one.
pub open spec fn expr_token_lists(es: Seq<ExprV>) -> Seq<Seq<TokenV>>
    decreases es,
{
    if es.len() == 0 {
        Seq::empty()
    } else {
        expr_token_lists(es.drop_last()).push(expr_tokens(es.last()))
    }
}

/// The tokens of a statement.
pub open spec fn stmt_tokens(s: ActionStmtV) -> Seq<TokenV>
    decreases s,
{
    match s {
        ActionStmtV::Let { name, ty, expr } => word(Keyword::Let) + typed_tokens(name, ty) + mark(
            Punct::Eq,
        ) + expr_tokens(expr) + mark(Punct::Semi),
        ActionStmtV::Assign { name, expr } => ident(name) + mark(Punct::Eq) + expr_tokens(expr)
            + mark(Punct::Semi),
        ActionStmtV::Do(expr) => word(Keyword::Do) + expr_tokens(expr) + mark(Punct::Semi),
        ActionStmtV::Assert(expr, _) => (word(Keyword::Assert) + mark(Punct::LParen)) + expr_tokens(
            expr,
        ) + (mark(Punct::RParen) + mark(Punct::Semi)),
        ActionStmtV::Expr(expr) => expr_tokens(expr) + mark(Punct::Semi),
        ActionStmtV::Insert { table_name, row } => word(Keyword::Insert) + expr_tokens(row) + word(
            Keyword::Into,
        ) + ident(table_name),
        _ => Seq::empty(),
    }
}

/// The tokens of statements, one by one.
pub open spec fn stmt_token_lists(ss: Seq<ActionStmtV>) -> Seq<Seq<TokenV>>
    decreases ss,
{
    if ss.len() == 0 {
        Seq::empty()
    } else {
        stmt_token_lists(ss.drop_last()).push(stmt_tokens(ss.last()))
    }
}

/// Whether the language can write an expression: it has no literals with a sign or of another kind
/// than numbers, truth values and texts, and no result types of functions.
pub open spec fn fits(e: ExprV, names: Seq<Seq<char>>) -> bool
    decreases e,
{
    match e {
        ExprV::Literal { val } => literal_fits(val),
        ExprV::Variable { name } => named(names, name),
        ExprV::MemberAccess { service_name, member_name } => named(names, service_name) && named(
            names,
            member_name,
        ),
        ExprV::Tuple { val } => all_fit(val, names),
        ExprV::List(val) => all_fit(val, names),
        ExprV::Call { func, args } => fits(*func, names) && all_fit(args, names),
        ExprV::Unop { expr, .. } => fits(*expr, names),
        ExprV::Binop { expr1, expr2, .. } => fits(*expr1, names) && fits(*expr2, names),
        ExprV::Range { start, end } => fits(*start, names) && fits(*end, names),
        ExprV::If { cond, expr1, expr2 } => {
            &&& fits(*cond, names)
            &&& fits(*expr1, names)
            &&& fits(*expr2, names)
        },
        ExprV::Func { params, body, return_ty } => {
            &&& return_ty is None
            &&& forall|i: int|
                0 <= i < params.len() ==> typed_fits(
                    names,
                    (#[trigger] params[i]).name,
                    params[i].ty,
                )
            &&& fits(*body, names)
        },
        ExprV::KeyVal { name, value } => named(names, name) && fits(*value, names),
        ExprV::Select { table_name, column_names, where_clause } => {
            &&& column_names.len() > 0
            &&& forall|i: int|
                0 <= i < column_names.len() ==> named(names, #[trigger] column_names[i])
            &&& named(names, table_name)
            &&& fits(*where_clause, names)
        },
        ExprV::Fold { table_name, column_name, operation, identity } => {
            &&& named(names, table_name)
            &&& named(names, column_name)
            &&& fits(*operation, names)
            &&& fits(*identity, names)
        },
        ExprV::Action(stmts) => stmts_fit(stmts, names),
        ExprV::Html(parts) => parts_fit(parts, names) && ends_with_tag(parts),
        _ => false,
    }
}

/// Whether the language can write expressions.
pub open spec fn all_fit(es: Seq<ExprV>, names: Seq<Seq<char>>) -> bool
    decreases es,
{
    forall|i: int| 0 <= i < es.len() ==> fits(#[trigger] es[i], names)
}

/// Whether the language can write a statement: it writes no loops, and no text that an assertion
/// reports.
pub open spec fn stmt_fits(s: ActionStmtV, names: Seq<Seq<char>>) -> bool
    decreases s,
{
    match s {
        ActionStmtV::Let { name, ty, expr } => typed_fits(names, name, ty) && fits(expr, names),
        ActionStmtV::Assign { name, expr } => named(names, name) && fits(expr, names),
        ActionStmtV::Do(expr) => fits(expr, names),
        ActionStmtV::Assert(expr, msg) => msg == grammar::assertion_text() && fits(expr, names),
        ActionStmtV::Expr(expr) => fits(expr, names),
        ActionStmtV::Insert { table_name, row } => named(names, table_name) && fits(row, names),
        _ => false,
    }
}

/// Whether the language can write statements.
pub open spec fn stmts_fit(ss: Seq<ActionStmtV>, names: Seq<Seq<char>>) -> bool
    decreases ss,
{
    forall|i: int| 0 <= i < ss.len() ==> stmt_fits(#[trigger] ss[i], names)
}

/// The tokens of the columns of a table.
pub open spec fn field_tokens(fs: Seq<FieldV>) -> Seq<TokenV>
    decreases fs.len(),
{
    if fs.len() == 0 {
        Seq::empty()
    } else {
        field_tokens(fs.drop_last()) + ident(fs.last().name) + mark(Punct::Colon) + type_tokens(
            fs.last().ty,
        ) + mark(Punct::Comma)
    }
}

/// Whether the language can write a column: its type is that of a number, a text or a truth value.
pub open spec fn field_fits(f: FieldV, names: Seq<Seq<char>>) -> bool {
    named(names, f.name) && (f.ty is Int || f.ty is String || f.ty is Bool)
}

/// The tokens of a declaration.
pub open spec fn decl_tokens(d: DeclV) -> Seq<TokenV> {
    match d {
        DeclV::VarDecl { name, ty, val } => word(Keyword::Var) + typed_tokens(name, ty) + mark(
            Punct::Eq,
        ) + expr_tokens(val) + mark(Punct::Semi),
        DeclV::DefDecl { name, ty, val, is_pub } => (if is_pub {
            word(Keyword::Pub)
        } else {
            Seq::empty()
        }) + word(Keyword::Def) + typed_tokens(name, ty) + mark(Punct::Eq) + expr_tokens(val)
            + mark(Punct::Semi),
        DeclV::TableDecl { name, fields } => word(Keyword::Table) + ident(name) + mark(
            Punct::LBrace,
        ) + field_tokens(fields) + (mark(Punct::RBrace) + mark(Punct::Semi)),
    }
}

/// The tokens of declarations, one by one.
pub open spec fn decl_token_lists(ds: Seq<DeclV>) -> Seq<Seq<TokenV>> {
    ds.map_values(|d: DeclV| decl_tokens(d))
}

/// Whether the language can write a declaration.
pub open spec fn decl_fits(d: DeclV, names: Seq<Seq<char>>) -> bool {
    match d {
        DeclV::VarDecl { name, ty, val } => typed_fits(names, name, ty) && fits(val, names),
        DeclV::DefDecl { name, ty, val, .. } => typed_fits(names, name, ty) && fits(val, names),
        DeclV::TableDecl { name, fields } => named(names, name) && forall|i: int|
            0 <= i < fields.len() ==> field_fits(#[trigger] fields[i], names),
    }
}

/// Whether the language can write an update.
pub open spec fn update_fits(service: Symbol, ds: Seq<DeclV>, names: Seq<Seq<char>>) -> bool {
    &&& named(names, service)
    &&& forall|i: int| 0 <= i < ds.len() ==> decl_fits(#[trigger] ds[i], names)
}

/// The tokens of an update.
pub open spec fn update_tokens(service: Symbol, ds: Seq<DeclV>) -> Seq<TokenV> {
    word(Keyword::Update) + ident(service) + mark(Punct::LBrace) + listed(
        decl_token_lists(ds),
        Seq::empty(),
        0,
    ) + mark(Punct::RBrace)
}

/// A page without its last expression and the text behind it.
pub proof fn lemma_shorter_page(parts: Seq<HtmlPartV>, names: Seq<Seq<char>>)
    requires
        parts_fit(parts, names),
        parts.len() > 1,
    ensures
        parts_fit(parts.drop_last().drop_last(), names),
        parts[parts.len() - 2] is Expr,
        fits(parts[parts.len() - 2]->Expr_0, names),
        parts.last() is Text,
        markup_fits(parts.last()->Text_0),
{
    let shorter = parts.drop_last().drop_last();
    let n = parts.len() as int;
    assert(part_fits(parts[n - 1], names) && parts[n - 1] is Text);
    assert(part_fits(parts[n - 2], names) && !(parts[n - 2] is Text));
    assert forall|i: int| 0 <= i < shorter.len() implies part_fits(#[trigger] shorter[i], names)
        && (shorter[i] is Text <==> i % 2 == 0) by {
        assert(shorter[i] == parts[i]);
    }
    assert(shorter[0] == parts[0]);
}

} // verus!
