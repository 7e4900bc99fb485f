//! Free variables of closures.

use meerkat_lib::runtime::ast::{Decl, Expr, Stmt};
use meerkat_lib::runtime::graphs::free_var::free_var;
use meerkat_lib::runtime::{parser::parse_string, Node};
use std::collections::HashSet;

fn setup_node(input: &str) -> (Node, Vec<Stmt>) {
    let mut node = Node::new();
    let stmts = parse_string(input, &mut node.interner).expect("Test input must be valid syntax");
    (node, stmts)
}

/// Verify that free_var analysis correctly extracts free variables from closures
/// while omitting parameter-bound variables.
#[test]
fn test_free_var_closure_parameter_shadowing() {
    let input = "
        service test_service {
            var x = 10;
            def adder = fn (x: int) => x + y;
        }
    ";
    let (node, stmts) = setup_node(input);
    let mut interner = node.interner;
    let x_sym = interner.insert("x");
    let y_sym = interner.insert("y");

    if let Stmt::Service { decls, .. } = &stmts[0] {
        if let Decl::DefDecl {
            val: Expr::Func { params, body, .. },
            ..
        } = &decls[1]
        {
            let bound: HashSet<_> = params.iter().map(|p| p.name).collect();
            assert!(bound.contains(&x_sym));

            let free_vars = free_var(body, &bound);
            assert!(
                !free_vars.contains(&x_sym),
                "x should be bound by parameter"
            );
            assert!(
                free_vars.contains(&y_sym),
                "y should be identified as free variable"
            );
        }
    }
}

/// Verify nested closure environment flattening and free variable resolution across scopes
#[test]
fn test_nested_closure_environment_flattening() {
    let input = "
        service s {
            def curried = fn (a: int) => fn (b: int) => fn (c: int) => a + b + c + z;
            var z = 100;
        }
    ";
    let mut node = Node::new();
    let stmts = parse_string(input, &mut node.interner).unwrap();
    assert!(node.run_static_checks(&stmts).is_ok());
}

/// Verify that complex closure expressions with tuples, lists, and conditions correctly capture all free variables
#[test]
fn test_complex_closure_free_variables() {
    let input = "
        service complex {
            def process = fn (p: int) => (p + a + b + c + d + e);
            var a = 1;
            var b = 2;
            var c = 3;
            var d = 4;
            var e = 5;
        }
    ";
    let (node, stmts) = setup_node(input);
    let mut interner = node.interner;
    let p_sym = interner.insert("p");
    let a_sym = interner.insert("a");
    let b_sym = interner.insert("b");
    let c_sym = interner.insert("c");
    let d_sym = interner.insert("d");
    let e_sym = interner.insert("e");

    if let Stmt::Service { decls, .. } = &stmts[0] {
        if let Decl::DefDecl {
            val: Expr::Func { params, body, .. },
            ..
        } = &decls[0]
        {
            let bound: HashSet<_> = params.iter().map(|param| param.name).collect();
            assert!(bound.contains(&p_sym));

            let free_vars = free_var(body, &bound);
            assert!(free_vars.contains(&a_sym));
            assert!(free_vars.contains(&b_sym));
            assert!(free_vars.contains(&c_sym));
            assert!(free_vars.contains(&d_sym));
            assert!(free_vars.contains(&e_sym));
            assert!(!free_vars.contains(&p_sym));
        }
    }
}
