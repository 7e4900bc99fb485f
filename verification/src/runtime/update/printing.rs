//! Declarations and expressions written out as source text.

use vstd::prelude::*;

use crate::runtime::ast;
use crate::runtime::ast::{
    ActionStmt, ActionStmtV, BinOp, Decl, DeclV, Expr, ExprV, Field, FieldV, HtmlPart, HtmlPartV,
    UnOp, Value, ValueV,
};
use crate::runtime::interner;
use crate::runtime::interner::{Interner, Symbol};
use crate::runtime::interpreter::evaluator;
use crate::runtime::interpreter::evaluator::show;
use crate::runtime::parser::grammar;
use crate::runtime::text;
use crate::runtime::text::{int_to_string, join};
use crate::runtime::tt::types;
use crate::runtime::tt::types::{type_to_string, Param, ParamV};

verus! {

broadcast use types::views_push;

/// How an operator is written.
pub open spec fn binop_text(op: BinOp) -> Seq<char> {
    match op {
        BinOp::Add => "+"@,
        BinOp::Sub => "-"@,
        BinOp::Mul => "*"@,
        BinOp::Div => "/"@,
        BinOp::Eq => "=="@,
        BinOp::Lt => "<"@,
        BinOp::Gt => ">"@,
        BinOp::And => "&&"@,
        BinOp::Or => "||"@,
    }
}

/// How a sign is written.
pub open spec fn unop_text(op: UnOp) -> Seq<char> {
    match op {
        UnOp::Neg => "-"@,
        UnOp::Not => "!"@,
    }
}

/// The binding level of a binary operator, from the loosest.
pub open spec fn op_level(op: BinOp) -> int {
    match op {
        BinOp::Or => 0,
        BinOp::And => 1,
        BinOp::Eq | BinOp::Lt | BinOp::Gt => 2,
        BinOp::Add | BinOp::Sub => 4,
        BinOp::Mul | BinOp::Div => 5,
    }
}

/// How tight an expression holds together. Below 0 is what stands only where any expression may
/// stand, the levels from 0 on are those of the infix operators, then come operands with signs,
/// then what can be called.
pub open spec fn tightness(e: ExprV) -> int {
    match e {
        ExprV::Binop { op, .. } => op_level(op),
        ExprV::Range { .. } => 3,
        ExprV::Unop { .. } => grammar::LEVELS as int,
        ExprV::If { .. } | ExprV::Func { .. } | ExprV::KeyVal { .. } | ExprV::Select { .. }
        | ExprV::Fold { .. } => -1,
        _ => grammar::LEVELS + 1,
    }
}

/// A text, in brackets where these are needed.
pub open spec fn bracketed(s: Seq<char>, needed: bool) -> Seq<char> {
    if needed {
        "("@ + s + ")"@
    } else {
        s
    }
}

/// How a literal is written.
pub open spec fn literal_text(v: ValueV) -> Seq<char> {
    match v {
        ValueV::Int { val } => text::int_text(val),
        ValueV::Bool { val } => if val {
            "true"@
        } else {
            "false"@
        },
        ValueV::String { val } => "\""@ + val + "\""@,
        _ => evaluator::shown(v),
    }
}

/// How a parameter is written.
pub open spec fn param_text(p: ParamV, names: Seq<Seq<char>>) -> Seq<char> {
    match p.ty {
        Some(t) => interner::name_text(names, p.name) + ": "@ + types::type_text(t),
        None => interner::name_text(names, p.name),
    }
}

/// How parameters are written.
pub open spec fn param_texts(ps: Seq<ParamV>, names: Seq<Seq<char>>) -> Seq<Seq<char>>
    decreases ps.len(),
{
    if ps.len() == 0 {
        Seq::empty()
    } else {
        param_texts(ps.drop_last(), names).push(param_text(ps.last(), names))
    }
}

/// How names are written.
pub open spec fn symbol_texts(xs: Seq<Symbol>, names: Seq<Seq<char>>) -> Seq<Seq<char>>
    decreases xs.len(),
{
    if xs.len() == 0 {
        Seq::empty()
    } else {
        symbol_texts(xs.drop_last(), names).push(interner::name_text(names, xs.last()))
    }
}

/// How an expression is written.
pub open spec fn expr_text(e: ExprV, names: Seq<Seq<char>>) -> Seq<char>
    decreases e,
{
    match e {
        ExprV::Literal { val } => literal_text(val),
        ExprV::Html(parts) => "("@ + parts_text(parts, names) + ")"@,
        ExprV::Table { .. } => "<table>"@,
        ExprV::Tuple { val } => if val.len() < 2 {
            "{ "@ + text::joined(expr_texts(val, names), ", "@) + " }"@
        } else {
            "("@ + text::joined(expr_texts(val, names), ", "@) + ")"@
        },
        ExprV::KeyVal { name, value } => interner::name_text(names, name) + ": "@ + expr_text(
            *value,
            names,
        ),
        ExprV::Variable { name } => interner::name_text(names, name),
        ExprV::Unop { op, expr } => unop_text(op) + bracketed(
            expr_text(*expr, names),
            tightness(*expr) < grammar::LEVELS,
        ),
        ExprV::Binop { op, expr1, expr2 } => bracketed(
            expr_text(*expr1, names),
            tightness(*expr1) < op_level(op),
        ) + " "@ + binop_text(op) + " "@ + bracketed(
            expr_text(*expr2, names),
            tightness(*expr2) < op_level(op) + 1,
        ),
        ExprV::If { cond, expr1, expr2 } => "if "@ + expr_text(*cond, names) + " then "@
            + expr_text(*expr1, names) + " else "@ + expr_text(*expr2, names),
        ExprV::Func { params, body, .. } => "fn ("@ + text::joined(
            param_texts(params, names),
            ", "@,
        ) + ") => "@ + expr_text(*body, names),
        ExprV::Call { func, args } => bracketed(
            expr_text(*func, names),
            tightness(*func) < grammar::LEVELS + 1,
        ) + "("@ + text::joined(
            expr_texts(args, names),
            ", "@,
        ) + ")"@,
        ExprV::Action(stmts) => "action { "@ + text::joined(stmt_texts(stmts, names), " "@)
            + " }"@,
        ExprV::MemberAccess { service_name, member_name } => interner::name_text(
            names,
            service_name,
        ) + "."@ + interner::name_text(names, member_name),
        ExprV::Select { table_name, column_names, where_clause } => "select "@ + text::joined(
            symbol_texts(column_names, names),
            ", "@,
        ) + " from "@ + interner::name_text(names, table_name) + " where "@ + expr_text(
            *where_clause,
            names,
        ),
        ExprV::Fold { table_name, column_name, operation, identity } => "fold("@
            + interner::name_text(names, table_name) + "."@ + interner::name_text(
            names,
            column_name,
        ) + ", "@ + expr_text(*operation, names) + ", "@ + expr_text(*identity, names) + ")"@,
        ExprV::List(val) => "["@ + text::joined(expr_texts(val, names), ", "@) + "]"@,
        ExprV::Range { start, end } => bracketed(
            expr_text(*start, names),
            tightness(*start) < 3,
        ) + ".."@ + bracketed(expr_text(*end, names), tightness(*end) < 4),
    }
}

/// How the parts of a page are written: expressions stand in braces.
pub open spec fn parts_text(parts: Seq<HtmlPartV>, names: Seq<Seq<char>>) -> Seq<char>
    decreases parts,
{
    if parts.len() == 0 {
        Seq::empty()
    } else {
        parts_text(parts.drop_last(), names) + match parts.last() {
            HtmlPartV::Text(s) => s,
            HtmlPartV::Expr(e) => "{"@ + expr_text(e, names) + "}"@,
        }
    }
}

/// How expressions are written.
pub open spec fn expr_texts(es: Seq<ExprV>, names: Seq<Seq<char>>) -> Seq<Seq<char>>
    decreases es,
{
    if es.len() == 0 {
        Seq::empty()
    } else {
        expr_texts(es.drop_last(), names).push(expr_text(es.last(), names))
    }
}

/// How a statement is written.
pub open spec fn stmt_text(s: ActionStmtV, names: Seq<Seq<char>>) -> Seq<char>
    decreases s,
{
    match s {
        ActionStmtV::Let { name, ty, expr } => match ty {
            Some(t) => "let "@ + interner::name_text(names, name) + ": "@ + types::type_text(t)
                + " = "@ + expr_text(expr, names) + ";"@,
            None => "let "@ + interner::name_text(names, name) + " = "@ + expr_text(expr, names)
                + ";"@,
        },
        ActionStmtV::Assign { name, expr } => interner::name_text(names, name) + " = "@
            + expr_text(expr, names) + ";"@,
        ActionStmtV::Do(expr) => "do "@ + expr_text(expr, names) + ";"@,
        ActionStmtV::Assert(expr, _) => "assert("@ + expr_text(expr, names) + ");"@,
        ActionStmtV::Expr(expr) => expr_text(expr, names) + ";"@,
        ActionStmtV::Insert { table_name, row } => "insert "@ + expr_text(row, names) + " into "@
            + interner::name_text(names, table_name),
        ActionStmtV::For { var, iterable, body } => "for "@ + interner::name_text(names, var)
            + " in "@ + expr_text(iterable, names) + " { "@ + text::joined(
            stmt_texts(body, names),
            " "@,
        ) + " }"@,
    }
}

/// How statements are written.
pub open spec fn stmt_texts(ss: Seq<ActionStmtV>, names: Seq<Seq<char>>) -> Seq<Seq<char>>
    decreases ss,
{
    if ss.len() == 0 {
        Seq::empty()
    } else {
        stmt_texts(ss.drop_last(), names).push(stmt_text(ss.last(), names))
    }
}

/// How a name and its type are written.
pub open spec fn typed_name(name: Seq<char>, ty: Option<types::TypeV>) -> Seq<char> {
    match ty {
        Some(t) => name + ": "@ + types::type_text(t),
        None => name,
    }
}

/// How the columns of a table are written.
pub open spec fn fields_text(fs: Seq<FieldV>, names: Seq<Seq<char>>) -> Seq<char>
    decreases fs.len(),
{
    if fs.len() == 0 {
        Seq::empty()
    } else {
        fields_text(fs.drop_last(), names) + interner::name_text(names, fs.last().name) + ": "@
            + types::type_text(fs.last().ty) + ", "@
    }
}

/// How a declaration is written.
pub open spec fn decl_text(d: DeclV, names: Seq<Seq<char>>) -> Seq<char> {
    match d {
        DeclV::VarDecl { name, ty, val } => "var "@ + typed_name(
            interner::name_text(names, name),
            ty,
        ) + " = "@ + expr_text(val, names) + ";"@,
        DeclV::DefDecl { name, ty, val, is_pub } => (if is_pub {
            "pub "@
        } else {
            Seq::empty()
        }) + "def "@ + typed_name(interner::name_text(names, name), ty) + " = "@ + expr_text(
            val,
            names,
        ) + ";"@,
        DeclV::TableDecl { name, fields } => "table "@ + interner::name_text(names, name) + " { "@
            + fields_text(fields, names) + "};"@,
    }
}

/// How declarations are written.
pub open spec fn decl_texts(ds: Seq<DeclV>, names: Seq<Seq<char>>) -> Seq<Seq<char>>
    decreases ds.len(),
{
    if ds.len() == 0 {
        Seq::empty()
    } else {
        decl_texts(ds.drop_last(), names).push(decl_text(ds.last(), names))
    }
}

/// How an update of a service is written.
pub open spec fn update_text(service: Symbol, ds: Seq<DeclV>, names: Seq<Seq<char>>) -> Seq<char> {
    "update "@ + interner::name_text(names, service) + " {\n  "@ + text::joined(
        decl_texts(ds, names),
        "\n  "@,
    ) + "\n}"@
}

fn binop_str(op: BinOp) -> (res: &'static str)
    ensures
        res@ == binop_text(op),
{
    match op {
        BinOp::Add => "+",
        BinOp::Sub => "-",
        BinOp::Mul => "*",
        BinOp::Div => "/",
        BinOp::Eq => "==",
        BinOp::Lt => "<",
        BinOp::Gt => ">",
        BinOp::And => "&&",
        BinOp::Or => "||",
    }
}

fn unop_str(op: UnOp) -> (res: &'static str)
    ensures
        res@ == unop_text(op),
{
    match op {
        UnOp::Neg => "-",
        UnOp::Not => "!",
    }
}

fn op_level_of(op: BinOp) -> (res: i8)
    ensures
        res == op_level(op),
{
    match op {
        BinOp::Or => 0,
        BinOp::And => 1,
        BinOp::Eq | BinOp::Lt | BinOp::Gt => 2,
        BinOp::Add | BinOp::Sub => 4,
        BinOp::Mul | BinOp::Div => 5,
    }
}

fn tightness_of(e: &Expr) -> (res: i8)
    ensures
        res == tightness(e@),
{
    proof {
        ast::lemma_expr_view(*e);
    }
    match e {
        Expr::Binop { op, .. } => op_level_of(*op),
        Expr::Range { .. } => 3,
        Expr::Unop { .. } => 6,
        Expr::If { .. } | Expr::Func { .. } | Expr::KeyVal { .. } | Expr::Select { .. }
        | Expr::Fold { .. } => -1,
        _ => 7,
    }
}

fn put_in_brackets(s: String, needed: bool) -> (res: String)
    ensures
        res@ == bracketed(s@, needed),
{
    if needed {
        let mut res = "(".to_owned();
        res.append(s.as_str());
        res.append(")");
        res
    } else {
        s
    }
}

fn format_literal(v: &Value) -> (res: String)
    ensures
        res@ == literal_text(v@),
{
    proof {
        ast::lemma_value_view(*v);
    }
    match v {
        Value::Int { val } => int_to_string(*val),
        Value::Bool { val } => {
            if *val {
                "true".to_owned()
            } else {
                "false".to_owned()
            }
        },
        Value::String { val } => {
            let mut res = "\"".to_owned();
            res.append(val.as_str());
            res.append("\"");
            res
        },
        _ => show(v),
    }
}

fn format_param(p: &Param, interner: &Interner) -> (res: String)
    ensures
        res@ == param_text(p@, interner@),
{
    let mut res = interner.text(p.name).to_owned();
    if let Some(t) = &p.ty {
        res.append(": ");
        res.append(type_to_string(t).as_str());
    }
    res
}

/// How parameters are written.
fn format_params(items: &Vec<Param>, interner: &Interner) -> (res: Vec<String>)
    ensures
        types::views(res@) == param_texts(types::views(items@), interner@),
    decreases *items,
{
    let ghost vs = types::views(items@);
    let mut res: Vec<String> = Vec::new();
    assert(types::views(res@) =~= param_texts(vs.take(0), interner@));
    let mut i: usize = 0;
    while i < items.len()
        invariant
            i <= items@.len(),
            vs == types::views(items@),
            types::views(res@) == param_texts(vs.take(i as int), interner@),
            decreases_to!(*items => items@),
        decreases items@.len() - i,
    {
        assert(decreases_to!(items@ => items@[i as int]));
        assert(vs.take(i + 1).drop_last() =~= vs.take(i as int));
        assert(vs.take(i + 1).last() == items@[i as int]@);
        res.push(format_param(&items[i], interner));
        i += 1;
    }
    assert(vs.take(i as int) =~= vs);
    res
}

/// How names are written.
fn format_symbols(xs: &Vec<Symbol>, interner: &Interner) -> (res: Vec<String>)
    ensures
        types::views(res@) == symbol_texts(xs@, interner@),
{
    let mut res: Vec<String> = Vec::new();
    assert(types::views(res@) =~= symbol_texts(xs@.take(0), interner@));
    let mut i: usize = 0;
    while i < xs.len()
        invariant
            i <= xs@.len(),
            types::views(res@) == symbol_texts(xs@.take(i as int), interner@),
        decreases xs@.len() - i,
    {
        assert(xs@.take(i + 1).drop_last() =~= xs@.take(i as int));
        res.push(interner.text(xs[i]).to_owned());
        i += 1;
    }
    assert(xs@.take(i as int) =~= xs@);
    res
}

/// Format an expression as source text. Operands stand in brackets where they would be read
/// otherwise without.
#[verifier::rlimit(60)]
pub fn format_expr(expr: &Expr, interner: &Interner) -> (res: String)
    ensures
        res@ == expr_text(expr@, interner@),
    decreases *expr,
{
    proof {
        ast::lemma_expr_view(*expr);
    }
    match expr {
        Expr::Literal { val } => format_literal(val),
        Expr::Html(template) => {
            let mut res = "(".to_owned();
            res.append(format_parts(&template.parts, interner).as_str());
            res.append(")");
            res
        },
        Expr::Table { .. } => "<table>".to_owned(),
        Expr::Tuple { val } => {
            let items = join(&format_exprs(val, interner), ", ");
            if val.len() < 2 {
                let mut res = "{ ".to_owned();
                res.append(items.as_str());
                res.append(" }");
                res
            } else {
                let mut res = "(".to_owned();
                res.append(items.as_str());
                res.append(")");
                res
            }
        },
        Expr::KeyVal { name, value } => {
            let mut res = interner.text(*name).to_owned();
            res.append(": ");
            res.append(format_expr(value, interner).as_str());
            res
        },
        Expr::Variable { name } => interner.text(*name).to_owned(),
        Expr::Unop { op, expr } => {
            let mut res = unop_str(*op).to_owned();
            let operand = put_in_brackets(format_expr(expr, interner), tightness_of(expr) < 6);
            res.append(operand.as_str());
            res
        },
        Expr::Binop { op, expr1, expr2 } => {
            let level = op_level_of(*op);
            let left = format_expr(expr1, interner);
            let right = format_expr(expr2, interner);
            let mut res = put_in_brackets(left, tightness_of(expr1) < level);
            res.append(" ");
            res.append(binop_str(*op));
            res.append(" ");
            res.append(put_in_brackets(right, tightness_of(expr2) < level + 1).as_str());
            res
        },
        Expr::If { cond, expr1, expr2 } => {
            let mut res = "if ".to_owned();
            res.append(format_expr(cond, interner).as_str());
            res.append(" then ");
            res.append(format_expr(expr1, interner).as_str());
            res.append(" else ");
            res.append(format_expr(expr2, interner).as_str());
            res
        },
        Expr::Func { params, body, .. } => {
            let mut res = "fn (".to_owned();
            res.append(join(&format_params(params, interner), ", ").as_str());
            res.append(") => ");
            res.append(format_expr(body, interner).as_str());
            res
        },
        Expr::Call { func, args } => {
            let mut res = put_in_brackets(format_expr(func, interner), tightness_of(func) < 7);
            res.append("(");
            res.append(join(&format_exprs(args, interner), ", ").as_str());
            res.append(")");
            res
        },
        Expr::Action(stmts) => {
            let mut res = "action { ".to_owned();
            res.append(join(&format_stmts(stmts, interner), " ").as_str());
            res.append(" }");
            res
        },
        Expr::MemberAccess { service_name, member_name } => {
            let mut res = interner.text(*service_name).to_owned();
            res.append(".");
            res.append(interner.text(*member_name));
            res
        },
        Expr::Select { table_name, column_names, where_clause } => {
            let mut res = "select ".to_owned();
            res.append(join(&format_symbols(column_names, interner), ", ").as_str());
            res.append(" from ");
            res.append(interner.text(*table_name));
            res.append(" where ");
            res.append(format_expr(where_clause, interner).as_str());
            res
        },
        Expr::Fold { table_name, column_name, operation, identity } => {
            let mut res = "fold(".to_owned();
            res.append(interner.text(*table_name));
            res.append(".");
            res.append(interner.text(*column_name));
            res.append(", ");
            res.append(format_expr(operation, interner).as_str());
            res.append(", ");
            res.append(format_expr(identity, interner).as_str());
            res.append(")");
            res
        },
        Expr::List(val) => {
            let mut res = "[".to_owned();
            res.append(join(&format_exprs(val, interner), ", ").as_str());
            res.append("]");
            res
        },
        Expr::Range { start, end } => {
            let mut res = put_in_brackets(format_expr(start, interner), tightness_of(start) < 3);
            res.append("..");
            let last = put_in_brackets(format_expr(end, interner), tightness_of(end) < 4);
            res.append(last.as_str());
            res
        },
    }
}

/// How expressions are written.
fn format_exprs(items: &Vec<Expr>, interner: &Interner) -> (res: Vec<String>)
    ensures
        types::views(res@) == expr_texts(types::views(items@), interner@),
    decreases *items,
{
    let ghost vs = types::views(items@);
    let mut res: Vec<String> = Vec::new();
    assert(types::views(res@) =~= expr_texts(vs.take(0), interner@));
    let mut i: usize = 0;
    while i < items.len()
        invariant
            i <= items@.len(),
            vs == types::views(items@),
            types::views(res@) == expr_texts(vs.take(i as int), interner@),
            decreases_to!(*items => items@),
        decreases items@.len() - i,
    {
        assert(decreases_to!(items@ => items@[i as int]));
        assert(vs.take(i + 1).drop_last() =~= vs.take(i as int));
        assert(vs.take(i + 1).last() == items@[i as int]@);
        res.push(format_expr(&items[i], interner));
        i += 1;
    }
    assert(vs.take(i as int) =~= vs);
    res
}

/// How the parts of a page are written.
fn format_parts(parts: &Vec<HtmlPart>, interner: &Interner) -> (res: String)
    ensures
        res@ == parts_text(types::views(parts@), interner@),
    decreases *parts,
{
    let ghost ps = types::views(parts@);
    let mut res = String::new();
    assert(res@ =~= parts_text(ps.take(0), interner@));
    let mut i: usize = 0;
    while i < parts.len()
        invariant
            i <= parts@.len(),
            ps == types::views(parts@),
            res@ == parts_text(ps.take(i as int), interner@),
            decreases_to!(*parts => parts@),
        decreases parts@.len() - i,
    {
        assert(decreases_to!(parts@ => parts@[i as int]));
        assert(ps.take(i + 1).drop_last() =~= ps.take(i as int));
        assert(ps.take(i + 1).last() == parts@[i as int]@);
        proof {
            ast::lemma_html_part_view(parts@[i as int]);
        }
        let ghost before = res@;
        match &parts[i] {
            HtmlPart::Text(s) => {
                res.append(s.as_str());
            },
            HtmlPart::Expr(e) => {
                assert(decreases_to!(parts@[i as int] => e));
                res.append("{");
                res.append(format_expr(e, interner).as_str());
                res.append("}");
                assert(res@ =~= before + ("{"@ + expr_text(e@, interner@) + "}"@));
            },
        }
        i += 1;
    }
    assert(ps.take(i as int) =~= ps);
    res
}

/// How a statement is written.
#[verifier::rlimit(30)]
fn format_stmt(stmt: &ActionStmt, interner: &Interner) -> (res: String)
    ensures
        res@ == stmt_text(stmt@, interner@),
    decreases *stmt,
{
    proof {
        ast::lemma_action_stmt_view(*stmt);
    }
    match stmt {
        ActionStmt::Let { name, ty, expr } => {
            let mut res = "let ".to_owned();
            res.append(interner.text(*name));
            if let Some(t) = ty {
                res.append(": ");
                res.append(type_to_string(t).as_str());
            }
            res.append(" = ");
            res.append(format_expr(expr, interner).as_str());
            res.append(";");
            res
        },
        ActionStmt::Assign { name, expr } => {
            let mut res = interner.text(*name).to_owned();
            res.append(" = ");
            res.append(format_expr(expr, interner).as_str());
            res.append(";");
            res
        },
        ActionStmt::Do(expr) => {
            let mut res = "do ".to_owned();
            res.append(format_expr(expr, interner).as_str());
            res.append(";");
            res
        },
        ActionStmt::Assert(expr, _) => {
            let mut res = "assert(".to_owned();
            res.append(format_expr(expr, interner).as_str());
            res.append(");");
            res
        },
        ActionStmt::Expr(expr) => {
            let mut res = format_expr(expr, interner);
            res.append(";");
            res
        },
        ActionStmt::Insert { table_name, row } => {
            let mut res = "insert ".to_owned();
            res.append(format_expr(row, interner).as_str());
            res.append(" into ");
            res.append(interner.text(*table_name));
            res
        },
        ActionStmt::For { var, iterable, body } => {
            let mut res = "for ".to_owned();
            res.append(interner.text(*var));
            res.append(" in ");
            res.append(format_expr(iterable, interner).as_str());
            res.append(" { ");
            res.append(join(&format_stmts(body, interner), " ").as_str());
            res.append(" }");
            res
        },
    }
}

/// How statements are written.
fn format_stmts(items: &Vec<ActionStmt>, interner: &Interner) -> (res: Vec<String>)
    ensures
        types::views(res@) == stmt_texts(types::views(items@), interner@),
    decreases *items,
{
    let ghost vs = types::views(items@);
    let mut res: Vec<String> = Vec::new();
    assert(types::views(res@) =~= stmt_texts(vs.take(0), interner@));
    let mut i: usize = 0;
    while i < items.len()
        invariant
            i <= items@.len(),
            vs == types::views(items@),
            types::views(res@) == stmt_texts(vs.take(i as int), interner@),
            decreases_to!(*items => items@),
        decreases items@.len() - i,
    {
        assert(decreases_to!(items@ => items@[i as int]));
        assert(vs.take(i + 1).drop_last() =~= vs.take(i as int));
        assert(vs.take(i + 1).last() == items@[i as int]@);
        res.push(format_stmt(&items[i], interner));
        i += 1;
    }
    assert(vs.take(i as int) =~= vs);
    res
}

/// How the columns of a table are written.
fn format_fields(fields: &Vec<Field>, interner: &Interner) -> (res: String)
    ensures
        res@ == fields_text(types::views(fields@), interner@),
{
    let ghost fs = types::views(fields@);
    let mut res = String::new();
    assert(res@ =~= fields_text(fs.take(0), interner@));
    let mut i: usize = 0;
    while i < fields.len()
        invariant
            i <= fields@.len(),
            fs == types::views(fields@),
            res@ == fields_text(fs.take(i as int), interner@),
        decreases fields@.len() - i,
    {
        assert(fs.take(i + 1).drop_last() =~= fs.take(i as int));
        assert(fs.take(i + 1).last() == fields@[i as int]@);
        res.append(interner.text(fields[i].name));
        res.append(": ");
        res.append(type_to_string(&fields[i].ty).as_str());
        res.append(", ");
        i += 1;
    }
    assert(fs.take(i as int) =~= fs);
    res
}

/// Format a declaration as source text.
pub fn format_decl(decl: &Decl, interner: &Interner) -> (res: String)
    ensures
        res@ == decl_text(decl@, interner@),
{
    match decl {
        Decl::VarDecl { name, ty, val } => {
            let mut res = "var ".to_owned();
            res.append(interner.text(*name));
            if let Some(t) = ty {
                res.append(": ");
                res.append(type_to_string(t).as_str());
            }
            res.append(" = ");
            res.append(format_expr(val, interner).as_str());
            res.append(";");
            assert(res@ =~= decl_text(decl@, interner@));
            res
        },
        Decl::DefDecl { name, ty, val, is_pub } => {
            let mut res = if *is_pub {
                "pub ".to_owned()
            } else {
                String::new()
            };
            res.append("def ");
            res.append(interner.text(*name));
            if let Some(t) = ty {
                res.append(": ");
                res.append(type_to_string(t).as_str());
            }
            res.append(" = ");
            res.append(format_expr(val, interner).as_str());
            res.append(";");
            assert(res@ =~= decl_text(decl@, interner@));
            res
        },
        Decl::TableDecl { name, fields } => {
            let mut res = "table ".to_owned();
            res.append(interner.text(*name));
            res.append(" { ");
            res.append(format_fields(fields, interner).as_str());
            res.append("};");
            res
        },
    }
}

/// Format an update of a service as source text.
pub fn format_update_source(service_name: Symbol, decls: &[Decl], interner: &Interner) -> (res:
    String)
    ensures
        res@ == update_text(service_name, types::views(decls@), interner@),
{
    let ghost ds = types::views(decls@);
    let mut lines: Vec<String> = Vec::new();
    assert(types::views(lines@) =~= decl_texts(ds.take(0), interner@));
    let mut i: usize = 0;
    while i < decls.len()
        invariant
            i <= decls@.len(),
            ds == types::views(decls@),
            types::views(lines@) == decl_texts(ds.take(i as int), interner@),
        decreases decls@.len() - i,
    {
        assert(ds.take(i + 1).drop_last() =~= ds.take(i as int));
        assert(ds.take(i + 1).last() == decls@[i as int]@);
        lines.push(format_decl(&decls[i], interner));
        i += 1;
    }
    assert(ds.take(i as int) =~= ds);
    let mut res = "update ".to_owned();
    res.append(interner.text(service_name));
    res.append(" {\n  ");
    res.append(join(&lines, "\n  ").as_str());
    res.append("\n}");
    res
}

} // verus!
