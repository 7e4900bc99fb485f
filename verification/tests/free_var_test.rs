//! Free variables and cross-service dependencies of expressions.

use meerkat_lib::runtime::ast::{ActionStmt, BinOp, Expr, UnOp, Value};
use meerkat_lib::runtime::graphs::free_var::{cross_service_deps, free_var};
use meerkat_lib::runtime::html::HtmlTemplateBuilder;
use meerkat_lib::runtime::interner::Interner;
use meerkat_lib::runtime::tt::Param;
use std::collections::HashSet;

#[test]
fn test_free_var_basic_literals_and_vars() {
    let mut interner = Interner::new();
    let x = interner.insert("x");
    let y = interner.insert("y");

    let lit = Expr::Literal {
        val: Value::Int { val: 42 },
    };
    assert!(free_var(&lit, &HashSet::new()).is_empty());

    let var_x = Expr::Variable { name: x };
    let free_vars = free_var(&var_x, &HashSet::new());
    assert_eq!(free_vars.len(), 1);
    assert!(free_vars.contains(&x));

    let bound_vars = HashSet::from([x]);
    assert!(free_var(&var_x, &bound_vars).is_empty());

    let kv = Expr::KeyVal {
        name: x,
        value: Box::new(Expr::Variable { name: y }),
    };
    assert!(free_var(&kv, &HashSet::new()).contains(&y));
}

#[test]
fn test_free_var_unop_binop_if_tuple_list_range() {
    let mut interner = Interner::new();
    let a = interner.insert("a");
    let b = interner.insert("b");
    let c = interner.insert("c");

    let unop = Expr::Unop {
        op: UnOp::Neg,
        expr: Box::new(Expr::Variable { name: a }),
    };
    assert!(free_var(&unop, &HashSet::new()).contains(&a));

    let binop = Expr::Binop {
        op: BinOp::Add,
        expr1: Box::new(Expr::Variable { name: a }),
        expr2: Box::new(Expr::Variable { name: b }),
    };
    let bin_vars = free_var(&binop, &HashSet::new());
    assert_eq!(bin_vars.len(), 2);

    let if_expr = Expr::If {
        cond: Box::new(Expr::Variable { name: a }),
        expr1: Box::new(Expr::Variable { name: b }),
        expr2: Box::new(Expr::Variable { name: c }),
    };
    let if_vars = free_var(&if_expr, &HashSet::new());
    assert_eq!(if_vars.len(), 3);

    let tuple_expr = Expr::Tuple {
        val: vec![Expr::Variable { name: a }, Expr::Variable { name: b }],
    };
    assert_eq!(free_var(&tuple_expr, &HashSet::new()).len(), 2);

    let list_expr = Expr::List(vec![Expr::Variable { name: a }]);
    assert_eq!(free_var(&list_expr, &HashSet::new()).len(), 1);

    let range_expr = Expr::Range {
        start: Box::new(Expr::Variable { name: a }),
        end: Box::new(Expr::Variable { name: b }),
    };
    assert_eq!(free_var(&range_expr, &HashSet::new()).len(), 2);
}

#[test]
fn test_free_var_func_call_html_select_fold() {
    let mut interner = Interner::new();
    let p = interner.insert("p");
    let x = interner.insert("x");
    let tbl = interner.insert("tbl");

    let func_expr = Expr::Func {
        params: vec![Param { name: p, ty: None }],
        body: Box::new(Expr::Binop {
            op: BinOp::Add,
            expr1: Box::new(Expr::Variable { name: p }),
            expr2: Box::new(Expr::Variable { name: x }),
        }),
        return_ty: None,
    };
    let func_vars = free_var(&func_expr, &HashSet::new());
    assert_eq!(func_vars.len(), 1);
    assert!(func_vars.contains(&x));
    assert!(!func_vars.contains(&p));

    let call_expr = Expr::Call {
        func: Box::new(func_expr),
        args: vec![Expr::Variable { name: x }],
    };
    assert_eq!(free_var(&call_expr, &HashSet::new()).len(), 1);

    let mut builder = HtmlTemplateBuilder::new();
    builder.push_text("hello");
    let html_expr = Expr::Html(builder.build());
    assert!(free_var(&html_expr, &HashSet::new()).is_empty());

    let select_expr = Expr::Select {
        table_name: tbl,
        where_clause: Box::new(Expr::Variable { name: x }),
        column_names: vec![],
    };
    let sel_vars = free_var(&select_expr, &HashSet::new());
    assert!(sel_vars.contains(&tbl));
    assert!(sel_vars.contains(&x));

    let fold_expr = Expr::Fold {
        table_name: tbl,
        column_name: x,
        operation: Box::new(Expr::Variable { name: x }),
        identity: Box::new(Expr::Literal {
            val: Value::Int { val: 0 },
        }),
    };
    assert!(free_var(&fold_expr, &HashSet::new()).contains(&x));
}

#[test]
fn test_free_var_action_statements() {
    let mut interner = Interner::new();
    let a = interner.insert("a");
    let b = interner.insert("b");
    let i = interner.insert("i");
    let tbl = interner.insert("tbl");

    let action_expr = Expr::Action(vec![
        ActionStmt::Let {
            name: a,
            ty: None,
            expr: Expr::Variable { name: b },
        },
        ActionStmt::Assign {
            name: a,
            expr: Expr::Variable { name: a },
        },
        ActionStmt::Do(Expr::Variable { name: a }),
        ActionStmt::Assert(Expr::Variable { name: a }, "assert".to_string()),
        ActionStmt::Expr(Expr::Variable { name: a }),
        ActionStmt::Insert {
            table_name: tbl,
            row: Expr::Variable { name: b },
        },
        ActionStmt::For {
            var: i,
            iterable: Expr::Variable { name: b },
            body: vec![ActionStmt::Expr(Expr::Variable { name: i })],
        },
    ]);

    let act_vars = free_var(&action_expr, &HashSet::new());
    assert!(act_vars.contains(&b));
    assert!(!act_vars.contains(&i));
}

#[test]
fn test_cross_service_deps_all_exprs_and_stmts() {
    let mut interner = Interner::new();
    let s1 = interner.insert("s1");
    let m1 = interner.insert("m1");
    let tbl = interner.insert("tbl");
    let i = interner.insert("i");

    let ma = Expr::MemberAccess {
        service_name: s1,
        member_name: m1,
    };
    let deps = cross_service_deps(&ma);
    assert_eq!(deps.len(), 1);
    assert!(deps.contains(&(s1, m1)));

    let tuple_ma = Expr::Tuple {
        val: vec![ma.clone()],
    };
    assert_eq!(cross_service_deps(&tuple_ma).len(), 1);

    let unop_ma = Expr::Unop {
        op: UnOp::Neg,
        expr: Box::new(ma.clone()),
    };
    assert_eq!(cross_service_deps(&unop_ma).len(), 1);

    let binop_ma = Expr::Binop {
        op: BinOp::Add,
        expr1: Box::new(ma.clone()),
        expr2: Box::new(Expr::Literal {
            val: Value::Int { val: 1 },
        }),
    };
    assert_eq!(cross_service_deps(&binop_ma).len(), 1);

    let if_ma = Expr::If {
        cond: Box::new(ma.clone()),
        expr1: Box::new(ma.clone()),
        expr2: Box::new(ma.clone()),
    };
    assert_eq!(cross_service_deps(&if_ma).len(), 1);

    let func_ma = Expr::Func {
        params: vec![],
        body: Box::new(ma.clone()),
        return_ty: None,
    };
    assert_eq!(cross_service_deps(&func_ma).len(), 1);

    let mut builder2 = HtmlTemplateBuilder::new();
    builder2.push_text("test");
    let html_ma = Expr::Html(builder2.build());
    assert!(cross_service_deps(&html_ma).is_empty());

    let call_ma = Expr::Call {
        func: Box::new(ma.clone()),
        args: vec![ma.clone()],
    };
    assert_eq!(cross_service_deps(&call_ma).len(), 1);

    let select_ma = Expr::Select {
        table_name: tbl,
        where_clause: Box::new(ma.clone()),
        column_names: vec![],
    };
    assert_eq!(cross_service_deps(&select_ma).len(), 1);

    let fold_ma = Expr::Fold {
        table_name: tbl,
        column_name: i,
        operation: Box::new(ma.clone()),
        identity: Box::new(ma.clone()),
    };
    assert_eq!(cross_service_deps(&fold_ma).len(), 1);

    let list_ma = Expr::List(vec![ma.clone()]);
    assert_eq!(cross_service_deps(&list_ma).len(), 1);

    let range_ma = Expr::Range {
        start: Box::new(ma.clone()),
        end: Box::new(ma.clone()),
    };
    assert_eq!(cross_service_deps(&range_ma).len(), 1);

    let action_ma = Expr::Action(vec![
        ActionStmt::Let {
            name: i,
            ty: None,
            expr: ma.clone(),
        },
        ActionStmt::Assign {
            name: i,
            expr: ma.clone(),
        },
        ActionStmt::Do(ma.clone()),
        ActionStmt::Assert(ma.clone(), "assert".to_string()),
        ActionStmt::Expr(ma.clone()),
        ActionStmt::Insert {
            table_name: tbl,
            row: ma.clone(),
        },
        ActionStmt::For {
            var: i,
            iterable: ma.clone(),
            body: vec![ActionStmt::Expr(ma.clone())],
        },
    ]);
    assert_eq!(cross_service_deps(&action_ma).len(), 1);
}
