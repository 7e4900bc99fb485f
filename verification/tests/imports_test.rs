//! The imports state machine.

use meerkat_lib::error::Error;
use meerkat_lib::net::codec::decode_source_response;
use meerkat_lib::net::messages::NetworkEvent;
use meerkat_lib::net::{MeerkatMessage, MessageId, NetworkCommand};
use meerkat_lib::runtime::ast::Stmt;
use meerkat_lib::runtime::fetch::FetchAction;
use meerkat_lib::runtime::imports::Imports;
use meerkat_lib::runtime::interner::Interner;
use meerkat_lib::runtime::limits::{
    IMPORT_POLL_INTERVAL_MS, IMPORT_RETRY_DELAY_MS, MAX_IMPORTED_SERVICES, MAX_IMPORT_RETRIES,
    MAX_NET_REQUEST_SOURCE_LENGTH,
};
use meerkat_lib::runtime::{parser, Node};

const URL: &str = "/ip4/127.0.0.1/tcp/9000";
const MY_ADDR: &str = "/ip4/127.0.0.1/tcp/8000/p2p/peer_a";

fn remote(name: &str) -> Vec<(String, String)> {
    vec![(name.to_string(), URL.to_string())]
}

fn import(interner: &mut Interner, name: &str) -> Stmt {
    Stmt::Import {
        path: format!("{}.mkt", name),
        service_name: interner.insert(name),
    }
}

fn service_names(stmts: &[Stmt], interner: &Interner) -> Vec<String> {
    stmts
        .iter()
        .filter_map(|s| match s {
            Stmt::Service { name, .. } => Some(interner.get(*name).to_string()),
            _ => None,
        })
        .collect()
}

#[test]
fn test_imports_local_resolution_and_circular_prevention() {
    let mut interner = Interner::new();
    let sym_b = interner.insert("B");
    let sym_a = interner.insert("A");
    let base_ast = vec![
        Stmt::Import {
            path: "B.mkt".to_string(),
            service_name: sym_b,
        },
        Stmt::Service {
            name: sym_a,
            decls: Vec::new(),
        },
    ];
    let (mut imports, initial_cmds) = Imports::new(&interner, remote("B"), &base_ast, MY_ADDR);
    assert_eq!(initial_cmds.len(), 1);
    assert!(!imports.is_done());

    let source_b = "import A\nservice B {\n    var y = 0;\n}";
    let new_cmds = imports
        .on_recv_source(source_b, "B", &mut interner)
        .expect("on_recv_source success");
    assert!(new_cmds.is_empty());
    assert!(imports.is_done());

    let final_ast = imports.finalize();
    assert!(service_names(&final_ast, &interner).contains(&"B".to_string()));
}

#[test]
fn test_imports_remote_queuing() {
    let mut interner = Interner::new();
    let sym_b = interner.insert("B");
    let base_ast = vec![Stmt::Import {
        path: "B.mkt".to_string(),
        service_name: sym_b,
    }];
    let (imports, initial_cmds) = Imports::new(&interner, remote("B"), &base_ast, MY_ADDR);
    assert!(!imports.is_done());
    assert_eq!(initial_cmds.len(), 1);
    assert_eq!(initial_cmds[0].1, "B");
}

#[test]
fn first_request_names_the_file_and_the_reply_address() {
    let mut interner = Interner::new();
    let base_ast = vec![import(&mut interner, "B")];
    let (_imports, cmds) = Imports::new(&interner, remote("B"), &base_ast, MY_ADDR);
    match &cmds[0].0 {
        NetworkCommand::SendMessage { addr, msg } => {
            assert_eq!(addr.0, URL);
            assert_eq!(
                *msg,
                MeerkatMessage::ServiceCodeRequest {
                    request_id: 1,
                    path: "B.mkt".to_string(),
                    reply_to: MY_ADDR.to_string(),
                }
            );
        }
        _ => panic!("expected a message"),
    }
    assert_eq!(cmds[0].2, URL);
    assert_eq!(cmds[0].3, 0);
}

#[test]
fn test_imports_local_then_static_checks() {
    let mut node = Node::new();
    let source_a = "service A {\n    pub def val_a = B.val_b;\n}";
    let source_b = "service B {\n    pub def val_b = 42;\n}";
    let mut stmts = parser::parse_string(source_a, &mut node.interner).expect("parse source A");
    let stmts_b = parser::parse_string(source_b, &mut node.interner).expect("parse source B");
    stmts.extend(stmts_b);
    let res = node.run_static_checks(&stmts);
    assert!(res.is_ok());
}

#[test]
fn test_imports_on_recv_source_merges_and_resolves() {
    let mut node = Node::new();
    let sym_b = node.interner.insert("B");
    let base_ast = vec![Stmt::Import {
        path: "B.mkt".to_string(),
        service_name: sym_b,
    }];
    let (mut imports, _initial_cmds) =
        Imports::new(&node.interner, remote("B"), &base_ast, MY_ADDR);
    let remote_source = "service B {\n    pub def count = 100;\n}";
    let new_cmds = imports
        .on_recv_source(remote_source, "B", &mut node.interner)
        .expect("on_recv_source success");
    assert!(new_cmds.is_empty());
    assert!(imports.is_done());

    let imported_ast = imports.finalize();
    let mut all_stmts = base_ast;
    all_stmts.extend(imported_ast);
    let res = node.run_static_checks(&all_stmts);
    assert!(res.is_ok());
}

#[test]
fn test_imports_transitive_static_checks() {
    let mut node = Node::new();
    let source_a = "service A {\n    pub def get_c = B.val_c;\n}";
    let source_b = "service B {\n    pub def val_c = C.val_base;\n}";
    let source_c = "service C {\n    pub def val_base = 99;\n}";
    let mut stmts = parser::parse_string(source_a, &mut node.interner).expect("parse source A");
    let stmts_b = parser::parse_string(source_b, &mut node.interner).expect("parse source B");
    let stmts_c = parser::parse_string(source_c, &mut node.interner).expect("parse source C");
    stmts.extend(stmts_b);
    stmts.extend(stmts_c);
    let res = node.run_static_checks(&stmts);
    assert!(res.is_ok());
}

#[test]
fn test_imports_network_cycle_static_check_rejection() {
    let mut node = Node::new();
    let source_a = "service A {\n    pub def val_a = B.val_b;\n}";
    let source_b = "service B {\n    pub def val_b = A.val_a;\n}";
    let mut stmts =
        parser::parse_string(source_a, &mut node.interner).expect("failed to parse source A");
    let stmts_b =
        parser::parse_string(source_b, &mut node.interner).expect("failed to parse source B");
    stmts.extend(stmts_b);
    let res = node.run_static_checks(&stmts);
    let err_msg = res.expect_err("expected static check error").to_string();
    assert!(err_msg.contains("dependency cycle detected"));
}

#[test]
fn test_imports_pending_cleanup() {
    let mut interner = Interner::new();
    let sym_b = interner.insert("B");
    let base_ast = vec![Stmt::Import {
        path: "B.mkt".to_string(),
        service_name: sym_b,
    }];
    let (mut imports, _initial_cmds) = Imports::new(&interner, remote("B"), &base_ast, MY_ADDR);
    let msg1 = MessageId(101);
    let msg2 = MessageId(102);
    imports.register_sent_command(msg1, "B".to_string(), URL.to_string(), 0, 0);
    imports.register_sent_command(msg2, "B".to_string(), URL.to_string(), 1, 0);

    let retry1 = imports.on_send_failure(msg1).expect("on_send_failure ok");
    assert!(retry1.is_none());

    let remote_source = "service B {\n    pub def count = 100;\n}";
    let _ = imports
        .on_recv_source(remote_source, "B", &mut interner)
        .expect("on_recv_source success");

    let retry2 = imports.on_send_failure(msg2).expect("on_send_failure ok");
    assert!(retry2.is_none());
}

#[test]
fn test_decode_source_response_validation() {
    let valid_res = decode_source_response("B.mkt", "service B {}");
    assert_eq!(valid_res.expect("valid source response"), "B");

    let valid_no_ext = decode_source_response("B", "service B {}");
    assert_eq!(
        valid_no_ext.expect("valid source response without ext"),
        "B"
    );

    let invalid_path = decode_source_response("../B.mkt", "service B {}");
    assert!(invalid_path.is_err());

    let bad_chars = decode_source_response("B-invalid#.mkt", "service B {}");
    assert!(bad_chars.is_err());

    let oversized_source = "a".repeat(MAX_NET_REQUEST_SOURCE_LENGTH + 1);
    let oversized_res = decode_source_response("B.mkt", &oversized_source);
    assert!(oversized_res.is_err());
}

#[test]
fn test_imports_max_imported_services_limit() {
    let mut interner = Interner::new();
    let base_ast = Vec::new();
    let (mut imports, _initial_cmds) = Imports::new(&interner, Vec::new(), &base_ast, "");
    for i in 0..MAX_IMPORTED_SERVICES {
        let src = format!("service S{} {{}}", i);
        let _ = imports.on_recv_source(&src, &format!("S{}", i), &mut interner);
    }
    let res = imports.on_recv_source("service Overflow {}", "Overflow", &mut interner);
    match res {
        Err(Error::LimitExceeded(msg)) => assert_eq!(
            msg,
            "imported service count exceeds maximum limit of 256"
        ),
        _ => panic!("expected the limit"),
    }
}

/// Reads local files out of a table until nothing is left to read.
fn resolve_from(
    node: &mut Node,
    main: &str,
    files: &[(&str, &str)],
) -> Result<Vec<String>, Error> {
    let local = node.load_file(main)?;
    let (mut imports, cmds) = Imports::new(&node.interner, Vec::new(), &local, "");
    assert!(cmds.is_empty());
    while let Some(name) = imports.next_read() {
        let source = files
            .iter()
            .find(|f| f.0 == name)
            .map(|f| f.1)
            .expect("file exists");
        let more = imports.on_recv_source(source, &name, &mut node.interner)?;
        assert!(more.is_empty());
    }
    assert!(imports.is_done());
    node.set_unified_ast(&local, imports.finalize());
    Ok(service_names(&node.unified_ast, &node.interner))
}

#[test]
fn test_imports_precede_local_program_in_unified_ast() {
    let mut node = Node::new();
    let order = resolve_from(
        &mut node,
        "import dep\n\nservice app {\n    pub def z = dep.y * 2;\n}\n",
        &[(
            "dep",
            "service dep {\n    var x = 0;\n    pub def y = x + 1;\n}\n",
        )],
    )
    .expect("imports resolve");
    assert_eq!(order, vec!["dep".to_string(), "app".to_string()]);
    node.static_checks()
        .expect("a def over the imported service's own var must type check");
}

#[test]
fn test_transitive_imports_are_dependency_ordered() {
    let mut node = Node::new();
    let order = resolve_from(
        &mut node,
        "import a\n\nservice main_s {\n    pub def r = a.q + 1;\n}\n",
        &[
            ("b", "service b {\n    var n = 1;\n    pub def y = n + 1;\n}\n"),
            (
                "a",
                "import b\n\nservice a {\n    pub def q = b.y * 10;\n}\n",
            ),
        ],
    )
    .expect("imports resolve");
    assert_eq!(
        order,
        vec!["b".to_string(), "a".to_string(), "main_s".to_string()]
    );
    node.static_checks()
        .expect("a chain of imports must type check in dependency order");
}

#[test]
fn circular_files_are_placed_once() {
    let mut node = Node::new();
    let order = resolve_from(
        &mut node,
        "import a\nservice m {\n    var k = 1;\n}\n",
        &[
            ("a", "import b\nservice a {\n    var n = 1;\n}\n"),
            ("b", "import a\nservice b {\n    var n = 2;\n}\n"),
        ],
    )
    .expect("imports resolve");
    assert_eq!(
        order,
        vec!["b".to_string(), "a".to_string(), "m".to_string()]
    );
}

#[test]
fn a_source_that_does_not_parse_is_reported() {
    let mut interner = Interner::new();
    let base_ast = vec![import(&mut interner, "B")];
    let (mut imports, _) = Imports::new(&interner, remote("B"), &base_ast, MY_ADDR);
    match imports.on_recv_source("service {", "B", &mut interner) {
        Err(Error::Message(_)) => {}
        _ => panic!("expected a message"),
    }
    assert!(imports.is_done());
}

#[test]
fn retries_end_with_an_error() {
    let mut interner = Interner::new();
    let base_ast = vec![import(&mut interner, "B")];
    let (mut imports, _) = Imports::new(&interner, remote("B"), &base_ast, MY_ADDR);
    imports.register_sent_command(MessageId(1), "B".to_string(), URL.to_string(), 0, 0);
    let mut id: u64 = 1;
    for expected in 1..=MAX_IMPORT_RETRIES {
        let cmd = imports
            .on_send_failure(MessageId(id))
            .expect("retry allowed")
            .expect("retry made");
        assert_eq!(cmd.3, expected);
        id += 1;
        imports.register_sent_command(MessageId(id), cmd.1, cmd.2, cmd.3, 0);
    }
    match imports.on_send_failure(MessageId(id)) {
        Err(Error::Message(msg)) => assert_eq!(
            msg,
            "Import fetch failed for service 'B' after 5 retries"
        ),
        _ => panic!("expected the retries to end"),
    }
}

#[test]
fn requests_time_out_after_two_seconds() {
    let mut interner = Interner::new();
    let base_ast = vec![import(&mut interner, "B")];
    let (mut imports, _) = Imports::new(&interner, remote("B"), &base_ast, MY_ADDR);
    imports.register_sent_command(MessageId(7), "B".to_string(), URL.to_string(), 0, 1000);
    assert!(imports.poll_timeouts(2999).expect("no error").is_empty());
    let cmds = imports.poll_timeouts(3000).expect("no error");
    assert_eq!(cmds.len(), 1);
    assert_eq!(cmds[0].1, "B");
    assert_eq!(cmds[0].3, 1);
    assert!(imports.poll_timeouts(9000).expect("no error").is_empty());
    assert_eq!(imports.get_pending_services(), vec!["B".to_string()]);
}

#[test]
fn network_events_lead_to_actions() {
    let mut interner = Interner::new();
    let base_ast = vec![import(&mut interner, "B")];
    let (mut imports, _) = Imports::new(&interner, remote("B"), &base_ast, MY_ADDR);
    imports.register_sent_command(MessageId(7), "B".to_string(), URL.to_string(), 0, 0);

    match imports.step(&mut interner, None, 0) {
        Ok(FetchAction::Send {
            before_ms,
            commands,
            after_ms,
        }) => {
            assert_eq!(before_ms, 0);
            assert!(commands.is_empty());
            assert_eq!(after_ms, IMPORT_POLL_INTERVAL_MS);
        }
        _ => panic!("expected a wait"),
    }

    let failed = NetworkEvent::SendFailed {
        msg_id: MessageId(7),
        error: "gone".to_string(),
    };
    match imports.step(&mut interner, Some(failed), 0) {
        Ok(FetchAction::Send {
            before_ms,
            commands,
            ..
        }) => {
            assert_eq!(before_ms, IMPORT_RETRY_DELAY_MS);
            assert_eq!(commands.len(), 1);
        }
        _ => panic!("expected a retry"),
    }

    let request = NetworkEvent::MessageReceived {
        peer: "p".to_string(),
        msg: MeerkatMessage::ServiceCodeRequest {
            request_id: 3,
            path: "A.mkt".to_string(),
            reply_to: "/x".to_string(),
        },
    };
    match imports.step(&mut interner, Some(request), 0) {
        Ok(FetchAction::Serve {
            request_id,
            path,
            reply_to,
        }) => {
            assert_eq!(request_id, 3);
            assert_eq!(path, "A.mkt");
            assert_eq!(reply_to, "/x");
        }
        _ => panic!("expected to serve"),
    }

    let connected = NetworkEvent::PeerConnected {
        peer: "p".to_string(),
    };
    match imports.step(&mut interner, Some(connected), 0) {
        Ok(FetchAction::Keep(NetworkEvent::PeerConnected { peer })) => assert_eq!(peer, "p"),
        _ => panic!("expected to keep the event"),
    }

    let refused = NetworkEvent::MessageReceived {
        peer: "p".to_string(),
        msg: MeerkatMessage::ServiceCodeError {
            request_id: 3,
            error: "no such file".to_string(),
        },
    };
    match imports.step(&mut interner, Some(refused), 0) {
        Err(e) => assert_eq!(
            e.to_string(),
            "Remote peer returned service error: no such file"
        ),
        _ => panic!("expected an error"),
    }

    let answer = NetworkEvent::MessageReceived {
        peer: "p".to_string(),
        msg: MeerkatMessage::ServiceCodeResponse {
            request_id: 1,
            path: "B.mkt".to_string(),
            source: "service B { var x = 1; }".to_string(),
        },
    };
    assert!(imports.step(&mut interner, Some(answer), 0).is_ok());
    assert!(imports.is_done());
}

/// A failed request is retried once, and forgotten requests are not retried.
#[test]
fn failures_of_replaced_requests_lead_to_nothing() {
    let mut interner = Interner::new();
    let base_ast = vec![import(&mut interner, "B")];
    let (mut imports, _) = Imports::new(&interner, remote("B"), &base_ast, MY_ADDR);
    imports.register_sent_command(MessageId(1), "B".to_string(), URL.to_string(), 0, 0);
    imports.register_sent_command(MessageId(2), "B".to_string(), URL.to_string(), 0, 0);
    assert!(imports.on_send_failure(MessageId(1)).expect("no error").is_none());
    let cmd = imports
        .on_send_failure(MessageId(2))
        .expect("no error")
        .expect("retry made");
    assert_eq!(cmd.1, "B");
    assert_eq!(cmd.2, URL);
    assert_eq!(cmd.3, 1);
    assert!(imports.on_send_failure(MessageId(2)).expect("no error").is_none());
    assert_eq!(imports.get_pending_services(), vec!["B".to_string()]);
}

/// Each service is asked for once, whoever imports it.
#[test]
fn services_are_asked_for_once() {
    let mut interner = Interner::new();
    let urls = vec![
        ("B".to_string(), URL.to_string()),
        ("C".to_string(), URL.to_string()),
        ("D".to_string(), URL.to_string()),
    ];
    let base_ast = vec![
        import(&mut interner, "B"),
        import(&mut interner, "C"),
        import(&mut interner, "B"),
    ];
    let (mut imports, cmds) = Imports::new(&interner, urls, &base_ast, MY_ADDR);
    let names: Vec<&str> = cmds.iter().map(|c| c.1.as_str()).collect();
    assert_eq!(names, vec!["B", "C"]);
    for (k, c) in cmds.into_iter().enumerate() {
        imports.register_sent_command(MessageId(k as u64), c.1, c.2, c.3, 0);
    }
    let source = "import C\nimport D\nservice B { var x = 1; }";
    let more = imports
        .on_recv_source(source, "B", &mut interner)
        .expect("no error");
    assert_eq!(more.len(), 1);
    assert_eq!(more[0].1, "D");
    assert_eq!(
        imports.get_pending_services(),
        vec!["C".to_string(), "D".to_string()]
    );
    assert!(imports.on_send_failure(MessageId(0)).expect("no error").is_none());
    assert!(imports.on_send_failure(MessageId(1)).expect("no error").is_some());
}

/// A node without an address asks for nothing, and reads files instead.
#[test]
fn nodes_without_addresses_read_files() {
    let mut interner = Interner::new();
    let base_ast = vec![import(&mut interner, "B"), import(&mut interner, "C")];
    let (mut imports, cmds) = Imports::new(&interner, remote("B"), &base_ast, "");
    assert!(cmds.is_empty());
    assert_eq!(imports.next_read(), Some("B".to_string()));
    assert!(!imports.is_done());
    assert!(imports
        .on_recv_source("service B { var x = 1; }", "B", &mut interner)
        .expect("no error")
        .is_empty());
    assert_eq!(imports.next_read(), Some("C".to_string()));
    imports
        .on_recv_source("service C { var x = 1; }", "C", &mut interner)
        .expect("no error");
    assert_eq!(imports.next_read(), None);
    assert!(imports.is_done());
}

/// A file that does not parse ends the machine: what was left to look at is given up.
#[test]
fn a_file_that_does_not_parse_ends_the_imports() {
    let mut interner = Interner::new();
    let base_ast = vec![import(&mut interner, "B"), import(&mut interner, "C")];
    let (mut imports, _) = Imports::new(&interner, Vec::new(), &base_ast, "");
    assert_eq!(imports.next_read(), Some("B".to_string()));
    assert!(imports
        .on_recv_source("service {", "B", &mut interner)
        .is_err());
    assert_eq!(imports.next_read(), None);
    assert!(imports.is_done());
    assert!(imports.get_pending_services().is_empty());
}

/// Once every file is read, the machine is done exactly where no service is awaited.
#[test]
fn imports_are_done_where_nothing_is_awaited() {
    let mut interner = Interner::new();
    let base_ast = vec![import(&mut interner, "A"), import(&mut interner, "B")];
    let (mut imports, cmds) = Imports::new(&interner, remote("B"), &base_ast, MY_ADDR);
    assert!(cmds.is_empty());
    assert_eq!(imports.next_read(), Some("A".to_string()));
    let cmds = imports
        .on_recv_source("import B service A { var x = 1; }", "A", &mut interner)
        .expect("no error");
    assert_eq!(cmds.len(), 1);
    assert_eq!(imports.next_read(), None);
    assert_eq!(imports.get_pending_services(), vec!["B".to_string()]);
    assert!(!imports.is_done());
    imports
        .on_recv_source("service B { var x = 1; }", "B", &mut interner)
        .expect("no error");
    assert_eq!(imports.next_read(), None);
    assert!(imports.get_pending_services().is_empty());
    assert!(imports.is_done());
}
