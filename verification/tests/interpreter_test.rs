//! Evaluation.

use std::collections::HashMap;

use meerkat_lib::runtime::ast::{ActionStmt, BinOp, Decl, Expr, Html, Stmt, UnOp, Value};
use meerkat_lib::runtime::html::HtmlTemplateBuilder;
use meerkat_lib::runtime::interner::{Interner, Symbol};
use meerkat_lib::runtime::interpreter::evaluator::{eval, eval_within, show, EvalContext, EvalError};
use meerkat_lib::runtime::manager::{Manager, ServiceState};
use meerkat_lib::runtime::parser::parse_string;
use meerkat_lib::runtime::Node;

fn literal(val: Value) -> Expr {
    Expr::Literal { val }
}

fn number(val: i32) -> Expr {
    literal(Value::Int { val })
}

fn truth(val: bool) -> Expr {
    literal(Value::Bool { val })
}

fn text(s: &str) -> Expr {
    literal(Value::String { val: s.to_string() })
}

fn binop(op: BinOp, a: Expr, b: Expr) -> Expr {
    Expr::Binop {
        op,
        expr1: Box::new(a),
        expr2: Box::new(b),
    }
}

fn alone(expr: &Expr) -> Result<Value, EvalError> {
    let services: HashMap<Symbol, ServiceState> = HashMap::new();
    let ctx = EvalContext {
        services: &services,
        service_name: 0,
        service_net_id: "net",
        fetched: &Vec::new(),
    };
    eval(expr, &Vec::new(), &ctx)
}

fn start(code: &str) -> Manager {
    let mut node = Node::new();
    let ast = parse_string(code, &mut node.interner).expect("parses");
    match node.on_manager_startup(&Vec::new(), &ast, &Vec::new()) {
        Ok((manager, _)) => manager,
        Err(_) => panic!("startup failed"),
    }
}

fn definition(manager: &mut Manager, svc: &str, name: &str) -> Result<Value, EvalError> {
    definition_within(manager, svc, name, usize::MAX)
}

fn definition_within(
    manager: &mut Manager,
    svc: &str,
    name: &str,
    depth: usize,
) -> Result<Value, EvalError> {
    let s = manager.interner.insert(svc);
    let n = manager.interner.insert(name);
    let expr = manager.services.get(&s).unwrap().defs.get(&n).unwrap().clone();
    let ctx = EvalContext {
        services: &manager.services,
        service_name: s,
        service_net_id: "net",
        fetched: &Vec::new(),
    };
    eval_within(&expr, &Vec::new(), &ctx, depth)
}

fn failure(msg: &str) -> Result<Value, EvalError> {
    Err(EvalError::RuntimeError(msg.to_string()))
}

#[test]
fn test_literal() {
    assert_eq!(alone(&number(42)), Ok(Value::Int { val: 42 }));
}

#[test]
fn test_binop_add() {
    let expr = binop(BinOp::Add, number(2), number(3));
    assert_eq!(alone(&expr), Ok(Value::Int { val: 5 }));
}

#[test]
fn operators_compute() {
    let cases = [
        (BinOp::Sub, 7, 9, Value::Int { val: -2 }),
        (BinOp::Mul, -7, 9, Value::Int { val: -63 }),
        (BinOp::Div, 7, 2, Value::Int { val: 3 }),
        (BinOp::Div, -7, 2, Value::Int { val: -3 }),
        (BinOp::Div, 7, -2, Value::Int { val: -3 }),
        (BinOp::Eq, 7, 7, Value::Bool { val: true }),
        (BinOp::Lt, 7, 7, Value::Bool { val: false }),
        (BinOp::Gt, 8, 7, Value::Bool { val: true }),
    ];
    for (op, a, b, expected) in cases {
        assert_eq!(alone(&binop(op, number(a), number(b))), Ok(expected));
    }
    assert_eq!(
        alone(&binop(BinOp::And, truth(true), truth(false))),
        Ok(Value::Bool { val: false })
    );
    assert_eq!(
        alone(&binop(BinOp::Or, truth(true), truth(false))),
        Ok(Value::Bool { val: true })
    );
    assert_eq!(
        alone(&binop(BinOp::Eq, text("a"), text("a"))),
        Ok(Value::Bool { val: true })
    );
    let neg = Expr::Unop {
        op: UnOp::Neg,
        expr: Box::new(number(4)),
    };
    assert_eq!(alone(&neg), Ok(Value::Int { val: -4 }));
    let not = Expr::Unop {
        op: UnOp::Not,
        expr: Box::new(truth(false)),
    };
    assert_eq!(alone(&not), Ok(Value::Bool { val: true }));
}

#[test]
fn wrong_operands_fail() {
    assert_eq!(
        alone(&binop(BinOp::Div, number(1), number(0))),
        failure("division by zero")
    );
    assert_eq!(
        alone(&binop(BinOp::Add, number(i32::MAX), number(1))),
        failure("integer overflow")
    );
    assert_eq!(
        alone(&binop(BinOp::Div, number(i32::MIN), number(-1))),
        failure("integer overflow")
    );
    assert_eq!(
        alone(&binop(BinOp::Add, number(1), truth(true))),
        failure("Type error in binary operation")
    );
    let neg = Expr::Unop {
        op: UnOp::Neg,
        expr: Box::new(truth(true)),
    };
    assert_eq!(alone(&neg), failure("Type error in unary operation"));
    let choice = Expr::If {
        cond: Box::new(number(1)),
        expr1: Box::new(number(1)),
        expr2: Box::new(number(2)),
    };
    assert_eq!(alone(&choice), failure("Condition must be boolean"));
    let call = Expr::Call {
        func: Box::new(number(1)),
        args: Vec::new(),
    };
    assert_eq!(
        alone(&call),
        failure("Attempting to call a non-function value")
    );
    let range = Expr::Range {
        start: Box::new(truth(true)),
        end: Box::new(number(2)),
    };
    assert_eq!(alone(&range), failure("Range bounds must be integers"));
    assert_eq!(
        alone(&Expr::Tuple { val: Vec::new() }),
        Err(EvalError::NotImplemented)
    );
}

#[test]
fn lists_and_ranges_compute() {
    let list = Expr::List(vec![number(1), binop(BinOp::Add, number(1), number(1))]);
    assert_eq!(
        alone(&list),
        Ok(Value::List {
            vals: vec![Value::Int { val: 1 }, Value::Int { val: 2 }],
        })
    );
    let range = Expr::Range {
        start: Box::new(number(1)),
        end: Box::new(number(5)),
    };
    assert_eq!(alone(&range), Ok(Value::Range { start: 1, end: 5 }));
}

#[test]
fn pages_show_values() {
    let mut page = HtmlTemplateBuilder::new();
    page.push_text("<p>");
    page.push_expr(binop(BinOp::Add, number(40), number(2)));
    page.push_text("</p>");
    assert_eq!(
        alone(&Expr::Html(page.build())),
        Ok(Value::Html(Html {
            text: "<p>42</p>".to_string(),
            handlers: Vec::new(),
        }))
    );
}

#[test]
fn values_are_shown() {
    assert_eq!(show(&Value::Int { val: -3 }), "-3");
    assert_eq!(show(&Value::Bool { val: false }), "false");
    assert_eq!(
        show(&Value::String {
            val: "s".to_string()
        }),
        "s"
    );
    assert_eq!(
        show(&Value::List {
            vals: vec![Value::Int { val: 1 }, Value::Bool { val: true }],
        }),
        "[1, true]"
    );
    assert_eq!(show(&Value::Range { start: 1, end: 2 }), "1..2");
}

#[test]
fn members_elsewhere_are_asked_for() {
    let mut interner = Interner::new();
    let s = interner.insert("s");
    let m = interner.insert("m");
    let access = Expr::MemberAccess {
        service_name: s,
        member_name: m,
    };
    assert_eq!(alone(&access), Err(EvalError::NeedLookup((s, m))));
    let services: HashMap<Symbol, ServiceState> = HashMap::new();
    let fetched = vec![((s, m), Value::Int { val: 8 })];
    let ctx = EvalContext {
        services: &services,
        service_name: s,
        service_net_id: "net",
        fetched: &fetched,
    };
    assert_eq!(
        eval(&access, &Vec::new(), &ctx),
        Ok(Value::Int { val: 8 })
    );
}

#[test]
fn test_action_closure_dynamic_service_state() {
    let mut manager = start(
        "
        service counter {
            var count = 0;
            def inc = fn () => action {
                count = count + 1;
            };
        }
    ",
    );
    let count_sym = manager.interner.insert("count");
    let inc_val = definition(&mut manager, "counter", "inc").unwrap();
    if let Value::Closure { env, .. } = &inc_val {
        assert!(!env.iter().any(|(sym, _)| *sym == count_sym));
    } else {
        panic!("Expected Value::Closure");
    }
}

#[test]
fn test_higher_order_function_closure_evaluation() {
    let mut manager = start(
        "
        service math {
            def apply = fn (f: (int) -> int, val: int) => f(val);
            def make_adder = fn (base: int) => fn (x: int) => x + base;
            def add5 = make_adder(5);
            def res = apply(add5, 10);
        }
    ",
    );
    assert_eq!(
        definition(&mut manager, "math", "res"),
        Ok(Value::Int { val: 15 })
    );
}

#[test]
fn closures_keep_only_what_they_need() {
    let mut interner = Interner::new();
    let a = interner.insert("a");
    let b = interner.insert("b");
    let services: HashMap<Symbol, ServiceState> = HashMap::new();
    let ctx = EvalContext {
        services: &services,
        service_name: 0,
        service_net_id: "here",
        fetched: &Vec::new(),
    };
    let env = vec![(a, Value::Int { val: 1 }), (b, Value::Int { val: 2 })];
    let action = Expr::Action(vec![ActionStmt::Expr(Expr::Variable { name: b })]);
    match eval(&action, &env, &ctx) {
        Ok(Value::ActionClosure {
            env: kept,
            service_net_id,
            ..
        }) => {
            assert_eq!(kept, vec![(b, Value::Int { val: 2 })]);
            assert_eq!(service_net_id, "here");
        }
        _ => panic!("expected an action"),
    }
}

#[test]
fn depth_only_decides_whether_evaluation_stops() {
    let mut manager = start(
        "
        service s {
            def a = 1;
            def b = a + 1;
            def c = b + 1;
        }
    ",
    );
    assert_eq!(
        definition_within(&mut manager, "s", "c", 1),
        failure("evaluation depth limit exceeded")
    );
    for depth in 2..6 {
        assert_eq!(
            definition_within(&mut manager, "s", "c", depth),
            Ok(Value::Int { val: 3 })
        );
    }
}

/// Nothing but the machine bounds how deep evaluation goes.
#[test]
fn deep_definitions_have_values() {
    let mut code = "service s { def d0 = 7;".to_string();
    for i in 1..300 {
        code.push_str(&format!(" def d{} = d{};", i, i - 1));
    }
    code.push_str(" }");
    let mut manager = start(&code);
    let s = manager.interner.insert("s");
    let last = manager.interner.insert("d299");
    let ctx = EvalContext {
        services: &manager.services,
        service_name: s,
        service_net_id: "net",
        fetched: &Vec::new(),
    };
    assert_eq!(
        eval(&Expr::Variable { name: last }, &Vec::new(), &ctx),
        Ok(Value::Int { val: 7 })
    );
}

#[test]
fn locals_hide_members() {
    let mut manager = start("service s { var x = 1; }");
    let s = manager.interner.insert("s");
    let x = manager.interner.insert("x");
    let ctx = EvalContext {
        services: &manager.services,
        service_name: s,
        service_net_id: "net",
        fetched: &Vec::new(),
    };
    let env = vec![(x, Value::Int { val: 5 }), (x, Value::Int { val: 6 })];
    let name = Expr::Variable { name: x };
    assert_eq!(eval(&name, &env, &ctx), Ok(Value::Int { val: 6 }));
    assert_eq!(
        eval(&name, &Vec::new(), &ctx),
        Ok(Value::Int { val: 1 })
    );
}

#[test]
fn parsed_declarations_keep_their_shape() {
    let mut interner = Interner::new();
    let stmts = parse_string("service s { pub def d: int = 1; }", &mut interner).unwrap();
    match &stmts[0] {
        Stmt::Service { decls, .. } => match &decls[0] {
            Decl::DefDecl { is_pub, val, .. } => {
                assert!(*is_pub);
                assert_eq!(*val, number(1));
            }
            _ => panic!("expected a definition"),
        },
        _ => panic!("expected a service"),
    }
}

/// A function that is called as the member of a service knows the members of that service, and its
/// actions belong to it.
#[test]
fn functions_know_their_service() {
    let mut manager = start(
        "
        service a { var k = 5; def f = fn (n: int) => n + k; def go = action { k = 1; }; }
        service b { var k = 7; def r = a.f(1); def h = a.go; }
    ",
    );
    assert_eq!(
        definition(&mut manager, "b", "r"),
        Ok(Value::Int { val: 6 })
    );
    let a = manager.interner.insert("a");
    manager.services.get_mut(&a).unwrap().net_id = "far".to_string();
    match definition(&mut manager, "b", "h") {
        Ok(Value::ActionClosure { service_net_id, .. }) => assert_eq!(service_net_id, "far"),
        _ => panic!("expected an action"),
    }
}
