//! The client in a browser.

use meerkat_lib::net::Address;
use meerkat_lib::runtime::ast::{ActionStmt, Decl, Expr, Html, Stmt, Value};
use meerkat_lib::runtime::html::HtmlTemplateBuilder;
use meerkat_lib::runtime::interner::Interner;
use meerkat_lib::runtime::interpreter::evaluator::EvalError;
use meerkat_lib::runtime::manager::Manager;
use meerkat_lib::runtime::parser::parse_string;
use meerkat_lib::runtime::Node;
use meerkat_lib::runtime::web::{
    check_server_address, current_handlers, current_html, list_click_actions, page_to_render,
};

fn click() -> Value {
    Value::ActionClosure {
        stmts: vec![ActionStmt::Expr(Expr::Literal {
            val: Value::Int { val: 1 },
        })],
        env: vec![(3, Value::Bool { val: true })],
        service_net_id: "srv".to_string(),
    }
}

#[test]
fn only_websocket_addresses_are_dialled() {
    assert!(check_server_address("/ip4/127.0.0.1/tcp/9001/ws/p2p/x").is_ok());
    assert!(check_server_address("/ws").is_ok());
    let refused = check_server_address("/ip4/127.0.0.1/tcp/9001/p2p/x");
    assert_eq!(
        refused,
        Err(
            "Expected a WebSocket address containing /ws, e.g. /ip4/127.0.0.1/tcp/9001/ws/p2p/<peer_id>"
                .to_string()
        )
    );
    assert!(check_server_address("").is_err());
    assert!(check_server_address("/w").is_err());
}

#[test]
fn programs_are_loaded() {
    let mut manager = Manager::new(Interner::new());
    let program = parse_string(
        "import far\nservice near { var x = 1; }",
        &mut manager.interner,
    )
    .unwrap();
    let server = Address::new("/srv/ws");
    let summary = manager.load_program(&program, &server, &Vec::new());
    assert_eq!(
        summary,
        Ok("import far (remote)\nservice near instantiated\n".to_string())
    );
    let far = manager.interner.insert("far");
    let near = manager.interner.insert("near");
    assert_eq!(manager.remote_services.get(&far).unwrap().0, "/srv/ws");
    assert!(manager.services.contains_key(&near));
}

#[test]
fn empty_programs_are_reported() {
    let mut manager = Manager::new(Interner::new());
    let summary = manager.load_program(&Vec::new(), &Address::new("/ws"), &Vec::new());
    assert_eq!(summary, Ok("(no services or imports found)".to_string()));
}

#[test]
fn failing_services_stop_loading() {
    let mut manager = Manager::new(Interner::new());
    let program = parse_string("service s { var x = 1 / 0; }", &mut manager.interner).unwrap();
    let res = manager.load_program(&program, &Address::new("/ws"), &Vec::new());
    assert_eq!(
        res,
        Err(EvalError::RuntimeError("division by zero".to_string()))
    );
}

/// A program with the expression of each definition `html` replaced by a page.
fn with_page(code: &str, manager: &mut Manager, page: Expr) -> Vec<Stmt> {
    let html = manager.interner.insert("html");
    let mut program = parse_string(code, &mut manager.interner).unwrap();
    for stmt in &mut program {
        if let Stmt::Service { decls, .. } = stmt {
            for decl in decls {
                if let Decl::DefDecl { name, val, .. } = decl {
                    if *name == html {
                        *val = page.clone();
                    }
                }
            }
        }
    }
    program
}

fn load(manager: &mut Manager, program: &Vec<Stmt>) {
    manager
        .load_program(program, &Address::new("/ws"), &Vec::new())
        .unwrap();
}

#[test]
fn the_page_of_a_service_is_shown() {
    let mut manager = Manager::new(Interner::new());
    let x = manager.interner.insert("x");
    let html = manager.interner.insert("html");
    let mut page = HtmlTemplateBuilder::new();
    page.push_text("<p>x = ");
    page.push_expr(Expr::Variable { name: x });
    page.push_text("</p>");
    let page = Expr::Html(page.build());
    let program = with_page(
        "service s { var x = 1; pub def html = 0; }",
        &mut manager,
        page,
    );
    load(&mut manager, &program);
    assert_eq!(
        current_html(&manager, html, &Vec::new()),
        Some("<p>x = 1</p>".to_string())
    );
    assert!(current_handlers(&manager, html, &Vec::new()).is_empty());

    let s = manager.interner.insert("s");
    let service = manager.services.get_mut(&s).unwrap();
    service.vars.get_mut(&x).unwrap().value = Value::Int { val: 2 };
    assert_eq!(
        current_html(&manager, html, &Vec::new()),
        Some("<p>x = 2</p>".to_string())
    );
}

#[test]
fn services_without_pages_show_nothing() {
    let mut manager = Manager::new(Interner::new());
    let program = parse_string(
        "service s { var x = 1; } service t { pub def html = 7; }",
        &mut manager.interner,
    )
    .unwrap();
    load(&mut manager, &program);
    let html = manager.interner.insert("html");
    assert_eq!(current_html(&manager, html, &Vec::new()), None);
    assert!(current_handlers(&manager, html, &Vec::new()).is_empty());
}

/// An action in an event attribute is the handler of the event, and belongs to its service.
#[test]
fn event_attributes_carry_actions() {
    let mut manager = Manager::new(Interner::new());
    let bump = manager.interner.insert("bump");
    let n = manager.interner.insert("n");
    let html = manager.interner.insert("html");
    let mut page = HtmlTemplateBuilder::new();
    page.push_text("<button onclick=");
    page.push_expr(Expr::Variable { name: bump });
    page.push_text(">+</button> id=");
    page.push_expr(Expr::Variable { name: n });
    let program = with_page(
        "service c { var n = 0; pub def bump = action { n = n + 1; }; pub def html = 0; }",
        &mut manager,
        Expr::Html(page.build()),
    );
    load(&mut manager, &program);
    assert_eq!(
        current_html(&manager, html, &Vec::new()),
        Some("<button >+</button> id=0".to_string())
    );
    let handlers = current_handlers(&manager, html, &Vec::new());
    assert_eq!(handlers.len(), 1);
    assert_eq!(handlers[0].0, "onclick");
    let actions = list_click_actions(&handlers);
    assert_eq!(actions.len(), 1);
    assert_eq!(actions[0].stmts.len(), 1);
}

/// Of several pages the one of the service that was named first is shown, with its handlers.
#[test]
fn one_page_is_shown() {
    let mut manager = Manager::new(Interner::new());
    let html = manager.interner.insert("html");
    let program = parse_string(
        "service a { var html = 0; } service b { var html = 0; }",
        &mut manager.interner,
    )
    .unwrap();
    load(&mut manager, &program);
    for (name, text) in [("b", "of b"), ("a", "of a")] {
        let s = manager.interner.insert(name);
        let service = manager.services.get_mut(&s).unwrap();
        service.vars.get_mut(&html).unwrap().value = Value::Html(Html {
            text: text.to_string(),
            handlers: vec![(text.to_string(), click())],
        });
    }
    assert_eq!(
        current_html(&manager, html, &Vec::new()),
        Some("of a".to_string())
    );
    let handlers = current_handlers(&manager, html, &Vec::new());
    assert_eq!(handlers.len(), 1);
    assert_eq!(handlers[0].0, "of a");
    assert_eq!(handlers[0].1, click());
}

/// Definitions are evaluated when their service is made.
#[test]
fn failing_definitions_stop_loading() {
    let mut manager = Manager::new(Interner::new());
    let program = parse_string("service s { def d = 1 / 0; }", &mut manager.interner).unwrap();
    let res = manager.load_program(&program, &Address::new("/ws"), &Vec::new());
    assert_eq!(
        res,
        Err(EvalError::RuntimeError("division by zero".to_string()))
    );
}

#[test]
fn only_clicks_with_actions_run() {
    let handlers = vec![
        ("onclick".to_string(), click()),
        ("onhover".to_string(), click()),
        ("onclick".to_string(), Value::Int { val: 3 }),
    ];
    let actions = list_click_actions(&handlers);
    assert_eq!(actions.len(), 1);
    assert_eq!(actions[0].service_net_id, "srv");
    assert_eq!(actions[0].env, vec![(3, Value::Bool { val: true })]);
    assert_eq!(actions[0].stmts.len(), 1);
}

#[test]
fn pages_are_shown_when_they_change() {
    let a = Some("a".to_string());
    let b = Some("b".to_string());
    assert_eq!(page_to_render(&a, &a), None);
    assert_eq!(page_to_render(&a, &b), b);
    assert_eq!(page_to_render(&None, &a), a);
    assert_eq!(page_to_render(&a, &None), None);
    assert_eq!(page_to_render(&None, &None), None);
}

/// A page is written as a template, with expressions in braces.
#[test]
fn written_pages_are_shown() {
    let mut manager = Manager::new(Interner::new());
    let html = manager.interner.insert("html");
    let program = parse_string(
        "service s {
            var x = 3;
            def z = x * 2;
            def bump = action { x = x + 1; };
            pub def html = (<div><p>z = {z} (twice)</p><button onclick={bump}>+</button></div>);
        }",
        &mut manager.interner,
    )
    .expect("parses");
    load(&mut manager, &program);
    assert_eq!(
        current_html(&manager, html, &Vec::new()),
        Some("<div><p>z = 6 (twice)</p><button >+</button></div>".to_string())
    );
    let handlers = current_handlers(&manager, html, &Vec::new());
    assert_eq!(handlers.len(), 1);
    assert_eq!(handlers[0].0, "onclick");
}

#[test]
fn pages_have_an_end() {
    for code in [
        "service s { def html = (<p>x; }",
        "service s { def html = (<p>{1}; }",
        "service s { def html = (<p>{1 2}</p>); }",
        "service s { def html = (<p>{}</p>); }",
    ] {
        assert!(parse_string(code, &mut Interner::new()).is_err());
    }
}

/// The expressions of a page are checked like others.
#[test]
fn pages_are_checked() {
    for (code, accepted) in [
        ("service s { var x = 3; pub def html = (<p>{x + 1}</p>); }", true),
        ("service s { pub def html = (<p>{nobody}</p>); }", false),
    ] {
        let mut node = Node::new();
        node.unified_ast = parse_string(code, &mut node.interner).expect("parses");
        assert_eq!(node.static_checks().is_ok(), accepted);
    }
}
