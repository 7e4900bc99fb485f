//! Dependency analysis of higher-order functions.

use meerkat_lib::runtime::{parser::parse_string, Node};

fn check_program(input: &str) -> Result<(), String> {
    let mut node = Node::new();
    let prog = parse_string(input, &mut node.interner).map_err(|e| format!("Parse error: {}", e))?;
    node.run_static_checks(&prog).map_err(|e| e.to_string())
}

#[test]
fn test_dependency_analysis_1() {
    let code = r#"
        service s1 {
            var b = 0;
            def app = fn (f: (int) -> int) => fn (x: int) => f(x + b);
            def d1 = app(fn (x: int) => x + a); 
            def d2 = d1(0); 
            var a = 0; // illegal forward reference!
        }
    "#;
    let res = check_program(code);
    assert!(
        res.is_err(),
        "Expected illegal forward reference to fail: {:?}",
        res
    );
}

#[test]
fn test_dependency_analysis_2() {
    let code = r#"
        service s1 {
            def store = fn (f: (int) -> int) => [f]; // push the function into a singleton list
            def d = store(fn (x: int) => x + a);
            var a = 0; // should be safe!
        }
    "#;
    let res = check_program(code);
    assert!(
        res.is_ok(),
        "Expected compilation to succeed, but got: {:?}",
        res
    );
}

#[test]
fn test_dependency_analysis_3() {
    let code = r#"
        service s1 {
            def add_a = fn (x: int) => x + a;
            def my_add = fn (x: int) => add_a(x);
            var a = 0; // should be safe!
        }
    "#;
    let res = check_program(code);
    assert!(
        res.is_ok(),
        "Expected compilation to succeed, but got: {:?}",
        res
    );
}
