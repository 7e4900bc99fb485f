//! Expressions and declarations as source text.

use meerkat_lib::runtime::ast::{
    ActionStmt, BinOp, Decl, Expr, Field, Html, Stmt, UnOp, Value,
};
use meerkat_lib::runtime::html::HtmlTemplateBuilder;
use meerkat_lib::runtime::interner::Interner;
use meerkat_lib::runtime::parser::parse_string;
use meerkat_lib::runtime::tt::{Param, Type};
use meerkat_lib::runtime::update::{format_decl, format_expr, format_update_source};

fn number(val: i32) -> Expr {
    Expr::Literal {
        val: Value::Int { val },
    }
}

fn name(interner: &mut Interner, text: &str) -> Expr {
    Expr::Variable {
        name: interner.insert(text),
    }
}

#[test]
fn literals_are_written_out() {
    let interner = Interner::new();
    assert_eq!(format_expr(&number(-7), &interner), "-7");
    assert_eq!(format_expr(&number(0), &interner), "0");
    assert_eq!(
        format_expr(&number(i32::MIN), &interner),
        "-2147483648"
    );
    let t = Expr::Literal {
        val: Value::Bool { val: true },
    };
    assert_eq!(format_expr(&t, &interner), "true");
    let s = Expr::Literal {
        val: Value::String {
            val: "hi".to_string(),
        },
    };
    assert_eq!(format_expr(&s, &interner), "\"hi\"");
    let h = Expr::Literal {
        val: Value::Html(Html {
            text: "<p>x</p>".to_string(),
            handlers: Vec::new(),
        }),
    };
    assert_eq!(format_expr(&h, &interner), "<p>x</p>");
    let l = Expr::Literal {
        val: Value::List {
            vals: vec![Value::Int { val: 1 }, Value::Int { val: 2 }],
        },
    };
    assert_eq!(format_expr(&l, &interner), "[1, 2]");
    let r = Expr::Literal {
        val: Value::Range { start: 1, end: 4 },
    };
    assert_eq!(format_expr(&r, &interner), "1..4");
}

#[test]
fn compound_expressions_are_written_out() {
    let mut interner = Interner::new();
    let x = name(&mut interner, "x");
    let y = name(&mut interner, "y");
    let sum = Expr::Binop {
        op: BinOp::Add,
        expr1: Box::new(x.clone()),
        expr2: Box::new(number(1)),
    };
    assert_eq!(format_expr(&sum, &interner), "x + 1");
    for (op, text) in [
        (BinOp::Sub, "-"),
        (BinOp::Mul, "*"),
        (BinOp::Div, "/"),
        (BinOp::Eq, "=="),
        (BinOp::Lt, "<"),
        (BinOp::Gt, ">"),
        (BinOp::And, "&&"),
        (BinOp::Or, "||"),
    ] {
        let e = Expr::Binop {
            op,
            expr1: Box::new(x.clone()),
            expr2: Box::new(y.clone()),
        };
        assert_eq!(format_expr(&e, &interner), format!("x {} y", text));
    }
    let neg = Expr::Unop {
        op: UnOp::Neg,
        expr: Box::new(x.clone()),
    };
    assert_eq!(format_expr(&neg, &interner), "-x");
    let not = Expr::Unop {
        op: UnOp::Not,
        expr: Box::new(x.clone()),
    };
    assert_eq!(format_expr(&not, &interner), "!x");
    let choice = Expr::If {
        cond: Box::new(x.clone()),
        expr1: Box::new(number(1)),
        expr2: Box::new(number(2)),
    };
    assert_eq!(format_expr(&choice, &interner), "if x then 1 else 2");
    let call = Expr::Call {
        func: Box::new(x.clone()),
        args: vec![number(1), y.clone()],
    };
    assert_eq!(format_expr(&call, &interner), "x(1, y)");
    let tuple = Expr::Tuple {
        val: vec![number(1), number(2)],
    };
    assert_eq!(format_expr(&tuple, &interner), "(1, 2)");
    let list = Expr::List(vec![number(1), number(2)]);
    assert_eq!(format_expr(&list, &interner), "[1, 2]");
    let range = Expr::Range {
        start: Box::new(number(1)),
        end: Box::new(number(9)),
    };
    assert_eq!(format_expr(&range, &interner), "1..9");
    let s = interner.insert("s");
    let m = interner.insert("m");
    let member = Expr::MemberAccess {
        service_name: s,
        member_name: m,
    };
    assert_eq!(format_expr(&member, &interner), "s.m");
    let pair = Expr::KeyVal {
        name: m,
        value: Box::new(number(3)),
    };
    assert_eq!(format_expr(&pair, &interner), "m: 3");
    let mut page = HtmlTemplateBuilder::new();
    page.push_text("<p>");
    page.push_expr(x.clone());
    page.push_text("</p>");
    assert_eq!(
        format_expr(&Expr::Html(page.build()), &interner),
        "(<p>{x}</p>)"
    );
    let table = Expr::Table { fields: Vec::new() };
    assert_eq!(format_expr(&table, &interner), "<table>");
}

#[test]
fn functions_and_actions_are_written_out() {
    let mut interner = Interner::new();
    let a = interner.insert("a");
    let b = interner.insert("b");
    let t = interner.insert("t");
    let f = Expr::Func {
        params: vec![
            Param {
                name: a,
                ty: Some(Type::Int),
            },
            Param { name: b, ty: None },
        ],
        body: Box::new(Expr::Variable { name: a }),
        return_ty: None,
    };
    assert_eq!(format_expr(&f, &interner), "fn (a: int, b) => a");
    let action = Expr::Action(vec![
        ActionStmt::Let {
            name: a,
            ty: Some(Type::Bool),
            expr: number(1),
        },
        ActionStmt::Let {
            name: a,
            ty: None,
            expr: number(1),
        },
        ActionStmt::Assign {
            name: b,
            expr: number(2),
        },
        ActionStmt::Do(Expr::Variable { name: a }),
        ActionStmt::Assert(Expr::Variable { name: b }, "why".to_string()),
        ActionStmt::Expr(number(3)),
        ActionStmt::Insert {
            table_name: t,
            row: number(4),
        },
        ActionStmt::For {
            var: a,
            iterable: Expr::Variable { name: b },
            body: vec![ActionStmt::Expr(number(5))],
        },
    ]);
    assert_eq!(
        format_expr(&action, &interner),
        "action { let a: bool = 1; let a = 1; b = 2; do a; assert(b); 3; insert 4 into t \
         for a in b { 5; } }"
    );
    let select = Expr::Select {
        table_name: t,
        column_names: vec![a, b],
        where_clause: Box::new(Expr::Variable { name: a }),
    };
    assert_eq!(format_expr(&select, &interner), "select a, b from t where a");
    let fold = Expr::Fold {
        table_name: t,
        column_name: a,
        operation: Box::new(Expr::Variable { name: b }),
        identity: Box::new(number(0)),
    };
    assert_eq!(format_expr(&fold, &interner), "fold(t.a, b, 0)");
}

#[test]
fn declarations_are_written_out() {
    let mut interner = Interner::new();
    let x = interner.insert("x");
    let var = Decl::VarDecl {
        name: x,
        ty: None,
        val: number(1),
    };
    assert_eq!(format_decl(&var, &interner), "var x = 1;");
    let typed = Decl::VarDecl {
        name: x,
        ty: Some(Type::Int),
        val: number(1),
    };
    assert_eq!(format_decl(&typed, &interner), "var x: int = 1;");
    let def = Decl::DefDecl {
        name: x,
        ty: None,
        val: number(2),
        is_pub: true,
    };
    assert_eq!(format_decl(&def, &interner), "pub def x = 2;");
    let plain = Decl::DefDecl {
        name: x,
        ty: Some(Type::Int),
        val: number(2),
        is_pub: false,
    };
    assert_eq!(format_decl(&plain, &interner), "def x: int = 2;");
    let table = Decl::TableDecl {
        name: x,
        fields: vec![Field {
            name: x,
            ty: Type::Int,
        }],
    };
    assert_eq!(format_decl(&table, &interner), "table x { x: int, };");
}

#[test]
fn updates_are_written_out() {
    let mut interner = Interner::new();
    let s = interner.insert("s");
    let x = interner.insert("x");
    let y = interner.insert("y");
    let decls = vec![
        Decl::VarDecl {
            name: x,
            ty: None,
            val: number(1),
        },
        Decl::DefDecl {
            name: y,
            ty: None,
            val: Expr::Variable { name: x },
            is_pub: true,
        },
    ];
    assert_eq!(
        format_update_source(s, &decls, &interner),
        "update s {\n  var x = 1;\n  pub def y = x;\n}"
    );
    assert_eq!(
        format_update_source(s, &[], &interner),
        "update s {\n  \n}"
    );
}

/// The text of an update, read again, gives the update.
#[test]
fn written_updates_can_be_read() {
    let sources = [
        "update s { var x = 1; }",
        "update s { var x: int = 1 + 2 * 3; pub def y = if x < 2 then x else 7; }",
        "update s { def f = fn (a: int, b: int) => a + b; def z = f(1, 2); }",
        "update s { def l = [1, 2]; def m = t.v; def q = \"text\"; def b = !true; }",
        "update s { def act = action { let k = 1; x = k; do go; assert(true); }; }",
        "update s { def y = (a + b) * c; def z = a - (b - c); def w = -(a + b); }",
        "update s { def y = (fn (a: int) => a)(1); def z = (if p then f else g)(x, y); }",
        "update s { def y = !(a && b) || (c == d) == e; def z = (a..b)..c; }",
        "update s { def y = {}; def z = {a}; def w = (a, b); def v = {k: 1}; }",
        "update s { table t { a: int, b: string, c: bool, }; table e { }; }",
        "update s { def p = (<p>z = {z}</p>); def q = (<b>{a}{b + 1}</b>); def r = (<br>); }",
        "update s { def h = (<button onclick={action { n = n + 1; }}>+</button>); }",
    ];
    for source in sources {
        let mut interner = Interner::new();
        let stmts = parse_string(source, &mut interner).expect("parses");
        match &stmts[0] {
            Stmt::Update {
                service_name,
                decls,
            } => {
                let text = format_update_source(*service_name, decls, &interner);
                let again = parse_string(&text, &mut interner).expect("parses again");
                assert_eq!(again, stmts);
            }
            _ => panic!("expected an update"),
        }
    }
}

/// Brackets are written where operands need them, and nowhere else.
#[test]
fn brackets_are_written_around_loose_operands() {
    for (source, written) in [
        ("(a + b) * c", "(a + b) * c"),
        ("(a * b) + c", "a * b + c"),
        ("a - (b - c)", "a - (b - c)"),
        ("(a - b) - c", "a - b - c"),
        ("-(a + b)", "-(a + b)"),
        ("!(!a)", "!!a"),
        ("(a + b)(c)", "(a + b)(c)"),
        ("s.f(c)", "s.f(c)"),
        ("a && (if p then b else c)", "a && (if p then b else c)"),
        ("{a}", "{ a }"),
        ("{}", "{  }"),
        ("{a, b}", "(a, b)"),
    ] {
        let mut interner = Interner::new();
        let code = format!("update s {{ def y = {}; }}", source);
        let stmts = parse_string(&code, &mut interner).expect("parses");
        match &stmts[0] {
            Stmt::Update {
                service_name,
                decls,
            } => {
                let text = format_update_source(*service_name, decls, &interner);
                assert_eq!(text, format!("update s {{\n  def y = {};\n}}", written));
                let again = parse_string(&text, &mut interner).expect("parses again");
                assert_eq!(again, stmts);
            }
            _ => panic!("expected an update"),
        }
    }
}
