//! Names, types and their errors.

use std::collections::HashSet;

use meerkat_lib::error::Error;
use meerkat_lib::runtime::ast::{ActionStmt, Decl, Expr, Stmt, Value};
use meerkat_lib::runtime::interner::{Interner, Symbol};
use meerkat_lib::runtime::nameres::{resolve, Expected, NameError};
use meerkat_lib::runtime::parser::parse_string;
use meerkat_lib::runtime::tt::check::{check, CheckError, TypecheckEnv};
use meerkat_lib::runtime::tt::flow::Flow;
use meerkat_lib::runtime::tt::Type;
use meerkat_lib::runtime::Node;

fn parse(code: &str) -> (Vec<Stmt>, Interner) {
    let mut interner = Interner::new();
    let stmts = parse_string(code, &mut interner).expect("parses");
    (stmts, interner)
}

fn check_error(code: &str) -> CheckError {
    let (stmts, _) = parse(code);
    check(&stmts).err().expect("rejected")
}

fn message(code: &str) -> String {
    let mut node = Node::new();
    let stmts = parse_string(code, &mut node.interner).expect("parses");
    match node.run_static_checks(&stmts) {
        Err(Error::Message(msg)) => msg,
        _ => panic!("expected a message"),
    }
}

#[test]
fn unknown_names_are_reported() {
    let (stmts, mut interner) = parse("service s { def d = nothing; }");
    let s = interner.insert("s");
    let nothing = interner.insert("nothing");
    assert_eq!(
        resolve(&stmts),
        Err(NameError::UnknownIdentifier {
            name: nothing,
            expected: Expected::Variable,
            context_name: Some(s),
        })
    );
    assert_eq!(
        message("service s { def d = nothing; }"),
        "Unknown identifier 'nothing' (expected variable) in service 's'"
    );
    assert_eq!(
        message("service s { def d = t.m; }"),
        "Unknown identifier 't' (expected service) in service 's'"
    );
    assert_eq!(
        message("service t { var a = 1; } service s { def d = t.m; }"),
        "Unknown identifier 'm' (expected member) in service 't'"
    );
    assert_eq!(
        message("service s { def d = select a from t where a; }"),
        "Unknown identifier 't' (expected table) in service 's'"
    );
    assert_eq!(
        message("watch nothing;"),
        "Unknown identifier 'nothing' (expected variable)"
    );
}

#[test]
fn names_of_a_block_are_not_used_early() {
    assert_eq!(
        message("service s { def d = action { let a = b; let b = 1; }; }"),
        "Invalid forward reference to uninitialized value 'b'"
    );
}

#[test]
fn scopes_may_not_nest_too_deep() {
    let mut code = "service s { def d = ".to_string();
    for i in 0..65 {
        code.push_str(&format!("fn (a{}: int) => ", i));
    }
    code.push_str("1; }");
    let (stmts, _) = parse(&code);
    assert_eq!(resolve(&stmts), Err(NameError::DepthLimit));
    assert_eq!(message(&code), "scope depth limit exceeded");
}

#[test]
fn resolved_names_are_members_or_columns() {
    let (stmts, _) = parse(
        "
        service t { var m = 1; }
        service s {
            table rows { c: int, };
            var x = 1;
            def y = fn (p: int) => p + x + t.m;
            def z = select c from rows where c == x;
        }
    ",
    );
    assert_eq!(resolve(&stmts), Ok(()));
}

#[test]
fn type_errors_are_reported() {
    assert_eq!(
        check_error("service s { var x = 1 + true; }"),
        CheckError::TypeMismatch {
            expected: Type::Int,
            found: Type::Bool,
        }
    );
    assert_eq!(
        check_error("service s { var x: string = 1; }"),
        CheckError::TypeMismatch {
            expected: Type::String,
            found: Type::Int,
        }
    );
    assert_eq!(
        check_error("service s { var x = 1; var y = x(2); }"),
        CheckError::NotAFunction
    );
    assert_eq!(
        check_error("service s { def f = fn (a: int) => a; var y = f(1, 2); }"),
        CheckError::InvalidTupleArity
    );
    assert_eq!(
        check_error("service s { def f = fn (a) => a; }"),
        CheckError::CannotInferType
    );
    let (_, mut interner) = parse("service s { var x = y; }");
    let y = interner.insert("y");
    assert_eq!(
        check_error("service s { var x = y; }"),
        CheckError::UnboundVariable(y)
    );
}

#[test]
fn type_errors_are_written_out() {
    assert_eq!(
        message("service s { var x = 1 + true; }"),
        "type check error: type mismatch: expected int, found bool."
    );
    assert_eq!(
        message("service s { var x = 1; var y = x(2); }"),
        "type check error: not a function."
    );
    assert_eq!(
        message("service s { def f = fn (a: int) => a; var y = f(1, 2); }"),
        "type check error: invalid tuple arity."
    );
    assert_eq!(
        message("service s { def f = fn (a) => a; }"),
        "type check error: cannot infer type."
    );
    assert_eq!(
        message("service s { def a = b; def b = a; }"),
        "type check error: dependency cycle detected at service 's', member 'a'."
    );
    assert_eq!(
        message("service s { var x = y; var y = 1; }"),
        "Invalid forward reference to uninitialized value 'y' of service 's'"
    );
}

#[test]
fn inference_may_not_go_too_deep() {
    let mut code = "service s { ".to_string();
    for i in 0..70 {
        code.push_str(&format!("def d{} = s.d{}; ", i, i + 1));
    }
    code.push_str("def d70 = 1; }");
    assert_eq!(check_error(&code), CheckError::DepthLimitExceeded);
    assert_eq!(
        message(&code),
        "type check error: depth limit exceeded."
    );
}

#[test]
fn cycles_are_rejected_and_orders_accepted() {
    assert!(matches!(
        check_error("service a { def x = b.y; } service b { def y = c.z; } service c { def z = a.x; }"),
        CheckError::DependencyCycle { .. }
    ));
    let (stmts, _) = parse("service a { def x = b.y; } service b { def y = 1; }");
    assert!(check(&stmts).is_ok());
}

/// What a function reads counts where it is called, also where it was passed to another one.
#[test]
fn reads_of_functions_count_where_they_are_called() {
    for code in [
        "service s { def y = z; var z = 1; }",
        "service s { def f = fn () => z; def y = f(); var z = 1; }",
        "service s { def f = fn () => z; def g = fn () => f(); def y = g(); var z = 1; }",
        "service s { def apply = fn (f: () -> int) => f(); def y = apply(fn () => z); var z = 1; }",
        "service s { def apply = fn (f: () -> int) => f(); \
         def twice = fn (f: () -> int) => apply(f); def y = twice(fn () => z); var z = 1; }",
    ] {
        assert!(
            matches!(check_error(code), CheckError::IllegalDependency { .. }),
            "{}",
            code
        );
    }
    for code in [
        "service s { var z = 1; def apply = fn (f: () -> int) => f(); def y = apply(fn () => z); }",
        "service s { def f = fn () => z; var z = 1; def y = f(); }",
        "service s { def a = action { z = 2; }; var z = 1; }",
    ] {
        let (stmts, _) = parse(code);
        assert!(check(&stmts).is_ok(), "{}", code);
    }
}

#[test]
fn declarations_are_checked_one_by_one() {
    let (stmts, mut interner) = parse("service s { var x = 1; def y = x + 1; }");
    let s = interner.insert("s");
    let x = interner.insert("x");
    let y = interner.insert("y");
    let decls = match &stmts[0] {
        Stmt::Service { decls, .. } => decls,
        _ => panic!("expected a service"),
    };
    let mut env = TypecheckEnv::new(&stmts, s);
    env.typecheck_service(decls);
    match env.finish() {
        Ok(known) => {
            assert_eq!(known.len(), 2);
            assert_eq!(known[0].0, (s, x));
            assert_eq!(known[1].0, (s, y));
            assert!(matches!(known[1].1, Flow::Int));
        }
        Err(_) => panic!("expected types"),
    }
    let mut single = TypecheckEnv::new(&stmts, s);
    single.typecheck_decl(&decls[1]);
    assert!(single.finish().is_err());
}

#[test]
fn expressions_read_free_names_and_tables() {
    let mut interner = Interner::new();
    let a = interner.insert("a");
    let b = interner.insert("b");
    let t = interner.insert("t");
    let none: HashSet<Symbol> = HashSet::new();
    let bound: HashSet<Symbol> = [a, t].into_iter().collect();
    let e = Expr::Select {
        table_name: t,
        column_names: vec![b],
        where_clause: Box::new(Expr::Tuple {
            val: vec![Expr::Variable { name: a }, Expr::Variable { name: b }],
        }),
    };
    assert_eq!(e.free_var(&none, &bound), [b].into_iter().collect());
    assert_eq!(e.free_var(&none, &none), [a, b, t].into_iter().collect());
    let empty = Expr::Action(Vec::new());
    assert!(empty.free_var(&none, &none).is_empty());
}

#[test]
fn urls_of_services_are_listed() {
    let mut node = Node::new();
    let stmts = parse_string(
        "service a { var x = 1; } watch 1; service b { var y = 2; }",
        &mut node.interner,
    )
    .unwrap();
    assert_eq!(
        node.startup_lines(&stmts, "/addr"),
        vec![
            "Service URL: /addr/a".to_string(),
            "Service URL: /addr/b".to_string()
        ]
    );
}

#[test]
fn parse_errors_are_reported() {
    let mut node = Node::new();
    assert!(matches!(
        node.load_file("service s { var x = ; }"),
        Err(Error::Message(_))
    ));
    assert!(matches!(
        node.load_file("service s { var x = 1 }"),
        Err(Error::Message(_))
    ));
    assert!(node.load_file("").unwrap().is_empty());
}

#[test]
fn operators_bind_as_usual() {
    let (stmts, mut interner) = parse("service s { def d = 1 + 2 * 3 == 7 && true; }");
    let d = interner.insert("d");
    match &stmts[0] {
        Stmt::Service { decls, .. } => match &decls[0] {
            Decl::DefDecl { name, val, .. } => {
                assert_eq!(*name, d);
                match val {
                    Expr::Binop { op, expr1, expr2 } => {
                        assert_eq!(*op, meerkat_lib::runtime::ast::BinOp::And);
                        assert_eq!(
                            **expr2,
                            Expr::Literal {
                                val: Value::Bool { val: true }
                            }
                        );
                        assert!(matches!(
                            **expr1,
                            Expr::Binop {
                                op: meerkat_lib::runtime::ast::BinOp::Eq,
                                ..
                            }
                        ));
                    }
                    _ => panic!("expected an operation"),
                }
            }
            _ => panic!("expected a definition"),
        },
        _ => panic!("expected a service"),
    }
}

#[test]
fn statements_are_parsed() {
    let (stmts, mut interner) = parse(
        "import far
         @test(s) { let a: int = 1; x = a; do go; assert(a == 1); insert a into rows a; }
         watch 3;
         update s { var x = 1; }
         do go;",
    );
    let far = interner.insert("far");
    assert_eq!(stmts.len(), 5);
    assert_eq!(
        stmts[0],
        Stmt::Import {
            path: "far.mkt".to_string(),
            service_name: far,
        }
    );
    match &stmts[1] {
        Stmt::Test { stmts, .. } => assert_eq!(stmts.len(), 6),
        _ => panic!("expected a test"),
    }
    assert!(matches!(stmts[2], Stmt::Watch { .. }));
    assert!(matches!(stmts[3], Stmt::Update { .. }));
    assert!(matches!(stmts[4], Stmt::ActionStmt(ActionStmt::Do(_))));
}

#[test]
fn symbols_stand_for_names() {
    let mut interner = Interner::new();
    let a = interner.insert("a");
    let b = interner.insert("b");
    assert_eq!(interner.insert("a"), a);
    assert_ne!(a, b);
    assert_eq!(interner.get(a), "a");
    assert_eq!(interner.get(b), "b");
    assert_eq!(interner.len(), 2);
    assert_eq!(interner.lookup("b"), Some(b));
    assert_eq!(interner.lookup("c"), None);
    assert_eq!(interner.text(99), "");
}
