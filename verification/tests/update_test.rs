//! Update transactions.

use meerkat_lib::net::types::TxnId;
use meerkat_lib::net::Address;
use meerkat_lib::runtime::ast::{Decl, Expr, Stmt, Value};
use meerkat_lib::runtime::interner::{Interner, Symbol};
use meerkat_lib::runtime::interpreter::evaluator::{eval, EvalContext, EvalError};
use meerkat_lib::runtime::lookup::{look_up, LookupStep};
use meerkat_lib::runtime::manager::{LockConflict, Manager};
use meerkat_lib::runtime::parser::parse_string;
use meerkat_lib::runtime::startup::{local_service_names, StartupError};
use meerkat_lib::runtime::tt::check::CheckError;
use meerkat_lib::runtime::tt::debug::debug_check_error;
use meerkat_lib::runtime::tt::Type;
use meerkat_lib::runtime::txn::{LockGroup, LockTxn, VarLock};
use meerkat_lib::runtime::update::effects::{update_request, Effect};
use meerkat_lib::runtime::update::transaction::{Action, Event};
use meerkat_lib::runtime::update::{transactions_of, Transaction, TransactionState};
use meerkat_lib::runtime::wait_die::{
    after_conflict, decide_conflict, is_older, LockDecision, LockStep,
};
use meerkat_lib::runtime::Node;

fn id(n: u64) -> TxnId {
    TxnId {
        timestamp: n,
        node_id: 0,
    }
}

fn start(code: &str) -> Manager {
    let mut node = Node::new();
    let ast = parse_string(code, &mut node.interner).expect("parses");
    node.unified_ast = ast;
    node.static_checks().expect("checks");
    let local_ast = node.unified_ast.clone();
    match node.on_manager_startup(&Vec::new(), &local_ast, &Vec::new()) {
        Ok((manager, _)) => manager,
        Err(_) => panic!("startup failed"),
    }
}

fn setup_test_manager() -> Manager {
    start(
        "
        service s1 {
            var x = 10;
            pub def y = (x * 2);
        }
    ",
    )
}

/// Drives a transaction on one node. Gives what followed from it.
fn run(txn: &mut Transaction, manager: &mut Manager) -> Result<Vec<Effect>, EvalError> {
    let mut event = Event::Begin(id(1));
    let mut effects = Vec::new();
    loop {
        match txn.poll(manager, event) {
            Action::Acquire(lock_txn, groups) => {
                event = match manager.acquire_lock_groups(&lock_txn, &groups) {
                    Ok(()) => Event::Locked(lock_txn),
                    Err(_) => Event::Refused(lock_txn),
                };
            }
            Action::Evaluate((svc, _, expr)) => {
                let value = {
                    let ctx = EvalContext {
                        services: &manager.services,
                        service_name: svc,
                        service_net_id: "",
                        fetched: &Vec::new(),
                    };
                    eval(&expr, &Vec::new(), &ctx)
                };
                event = Event::Value(value);
            }
            Action::Apply(es) => {
                effects = es;
                event = Event::Applied;
            }
            Action::Fail(e) => return Err(e),
            Action::Done => return Ok(effects),
        }
    }
}

fn update(manager: &mut Manager, code: &str) -> Result<Vec<Effect>, EvalError> {
    let updates = parse_string(code, &mut manager.interner).expect("parses");
    Transaction::new(updates).run_local(manager, id(1), &Vec::new())
}

fn value(manager: &mut Manager, svc: &str, name: &str) -> Value {
    let s = manager.interner.insert(svc);
    let n = manager.interner.insert(name);
    manager.services.get(&s).unwrap().vars.get(&n).unwrap().value.clone()
}

fn computed(manager: &mut Manager, svc: &str, name: &str) -> Value {
    let s = manager.interner.insert(svc);
    let n = manager.interner.insert(name);
    let expr = manager.services.get(&s).unwrap().defs.get(&n).unwrap().clone();
    let ctx = EvalContext {
        services: &manager.services,
        service_name: s,
        service_net_id: "",
        fetched: &Vec::new(),
    };
    eval(&expr, &Vec::new(), &ctx).unwrap()
}

fn message(e: EvalError) -> String {
    match e {
        EvalError::RuntimeError(msg) => msg,
        _ => panic!("expected a message"),
    }
}

fn number(val: i32) -> Value {
    Value::Int { val }
}

#[test]
fn test_transaction_new_initialization() {
    let mut interner = Interner::new();
    let svc_sym = interner.insert("s1");
    let var_sym = interner.insert("x");
    let update_stmt = Stmt::Service {
        name: svc_sym,
        decls: vec![Decl::VarDecl {
            name: var_sym,
            ty: None,
            val: Expr::Literal {
                val: Value::Int { val: 42 },
            },
        }],
    };
    let txn = Transaction::new(vec![update_stmt]);
    assert_eq!(txn.state, TransactionState::Init);
}

#[test]
fn test_transaction_poll_releases_locks_on_nameres_failure() {
    let mut manager = start("service s1 { var x = 10; }");
    let res = update(&mut manager, "update s1 { var x = unbound_variable; }");
    assert_eq!(
        message(res.err().expect("fails")),
        "Name resolution failed on update: Unknown identifier 'unbound_variable' (expected \
         variable) in service 's1'"
    );
    let s1_sym = manager.interner.insert("s1");
    let x_sym = manager.interner.insert("x");
    let service = manager.services.get(&s1_sym).unwrap();
    let var_state = service.vars.get(&x_sym).unwrap();
    assert!(matches!(var_state.lock, VarLock::Unlocked));
}

#[test]
fn test_transaction_poll_releases_locks_on_tt_failure() {
    let mut manager = start("service s1 { var x = 10; }");
    let res = update(&mut manager, "update s1 { var x: string = 42; }");
    assert_eq!(
        message(res.err().expect("fails")),
        "Type check failed on update: TypeMismatch { expected: String, found: Int }"
    );
    let s1_sym = manager.interner.insert("s1");
    let x_sym = manager.interner.insert("x");
    let service = manager.services.get(&s1_sym).unwrap();
    let var_state = service.vars.get(&x_sym).unwrap();
    assert!(matches!(var_state.lock, VarLock::Unlocked));
}

#[test]
fn test_step1_receive_and_limits_syntax_error() {
    let mut interner = Interner::new();
    let malformed_update_code = "
        update s1 {
            var x = ;
        }
    ";
    let parse_res = parse_string(malformed_update_code, &mut interner);
    assert!(parse_res.is_err());
}

#[test]
fn test_step2_locking_conflict() {
    let mut manager = setup_test_manager();
    let s1_sym = manager.interner.insert("s1");
    let x_sym = manager.interner.insert("x");
    if let Some(service) = manager.services.get_mut(&s1_sym) {
        if let Some(var_state) = service.vars.get_mut(&x_sym) {
            var_state.lock = VarLock::WriteLocked(id(99));
        }
    }
    let poll_res = update(&mut manager, "update s1 { var x = 99; }");
    assert_eq!(
        message(poll_res.err().expect("fails")),
        "Lock acquisition conflict during update"
    );
    let service = manager.services.get(&s1_sym).unwrap();
    let var_state = service.vars.get(&x_sym).unwrap();
    assert_eq!(var_state.value, Value::Int { val: 10 });
    assert_eq!(var_state.lock, VarLock::WriteLocked(id(99)));
}

#[test]
fn test_step3_nonexistent_service_rejection() {
    let mut manager = setup_test_manager();
    let poll_res = update(&mut manager, "update nonexistent_service { var x = 99; }");
    assert_eq!(
        message(poll_res.err().expect("fails")),
        "Target service 'nonexistent_service' for update not found"
    );
    assert_eq!(value(&mut manager, "s1", "x"), number(10));
}

#[test]
fn test_step4_and_5_static_validation_rejection() {
    let mut manager = setup_test_manager();
    let poll_res = update(
        &mut manager,
        "
        update s1 {
            var x = \"string_value_instead_of_int\";
        }
    ",
    );
    assert!(poll_res.is_err());
    assert_eq!(value(&mut manager, "s1", "x"), number(10));
}

#[test]
fn test_step6_old_state_evaluation_failure() {
    let mut manager = setup_test_manager();
    let poll_res = update(&mut manager, "update s1 { var x = (1 / 0); }");
    assert_eq!(
        message(poll_res.err().expect("fails")),
        "division by zero"
    );
    assert_eq!(value(&mut manager, "s1", "x"), number(10));
    let s1_sym = manager.interner.insert("s1");
    let x_sym = manager.interner.insert("x");
    let service = manager.services.get(&s1_sym).unwrap();
    assert_eq!(service.vars.get(&x_sym).unwrap().lock, VarLock::Unlocked);
}

#[test]
fn test_step8_and_9_success_and_propagation() {
    let mut manager = setup_test_manager();
    let poll_res = update(&mut manager, "update s1 { var x = 42; }");
    assert!(poll_res.is_ok());
    assert_eq!(value(&mut manager, "s1", "x"), number(42));
    assert_eq!(computed(&mut manager, "s1", "y"), number(84));
}

#[test]
fn test_type_change_incompatible_rejection() {
    let mut manager = setup_test_manager();
    let poll_res = update(&mut manager, "update s1 { var x = \"hello\"; }");
    assert!(poll_res.is_err());
    assert_eq!(value(&mut manager, "s1", "x"), number(10));
}

#[test]
fn test_type_change_valid_shift() {
    let mut manager = start(
        "
        service s1 {
            var x = 10;
            pub def label = \"initial\";
        }
    ",
    );
    let poll_res = update(
        &mut manager,
        "
        update s1 {
            var x = \"migrated\";
            pub def label = x;
        }
    ",
    );
    assert!(poll_res.is_ok());
    let migrated = Value::String {
        val: "migrated".to_string(),
    };
    assert_eq!(value(&mut manager, "s1", "x"), migrated);
    assert_eq!(computed(&mut manager, "s1", "label"), migrated);
}

#[test]
fn test_update_supports_introducing_new_field() {
    let mut manager = setup_test_manager();
    let poll_res = update(&mut manager, "update s1 { var is_celsius = true; }");
    assert!(poll_res.is_ok());
    assert_eq!(
        value(&mut manager, "s1", "is_celsius"),
        Value::Bool { val: true }
    );
}

#[test]
fn test_update_rejects_removing_existing_field() {
    let mut manager = start(
        "
        service s1 {
            var x = 10;
            var y = 20;
        }
    ",
    );
    let poll_res = update(&mut manager, "update s1 { var x = 99; }");
    assert!(poll_res.is_ok());
    assert_eq!(value(&mut manager, "s1", "x"), number(99));
    assert_eq!(value(&mut manager, "s1", "y"), number(20));
}

#[test]
fn test_update_new_field_conflict_service_lock_rejection() {
    let mut manager = setup_test_manager();
    let s1_sym = manager.interner.insert("s1");
    manager.acquire_service_lock(s1_sym, &id(999)).unwrap();
    let poll_res = update(&mut manager, "update s1 { var new_field = 42; }");
    assert!(poll_res.is_err());
    let new_field_sym = manager.interner.insert("new_field");
    let service = manager.services.get(&s1_sym).unwrap();
    assert!(!service.vars.contains_key(&new_field_sym));
    assert_eq!(service.service_lock, Some(id(999)));
}

#[test]
fn test_update_multiple_new_fields_and_reactive_defs_success() {
    let mut manager = setup_test_manager();
    let poll_res = update(
        &mut manager,
        "
        update s1 {
            var new_a = 10;
            var new_b = 20;
            pub def sum = new_a + new_b;
        }
    ",
    );
    assert!(poll_res.is_ok());
    assert_eq!(value(&mut manager, "s1", "new_a"), number(10));
    assert_eq!(value(&mut manager, "s1", "new_b"), number(20));
    assert_eq!(computed(&mut manager, "s1", "sum"), number(30));
}

#[test]
fn test_atomic_block_multiple_services_update() {
    let mut manager = start(
        "
        service s1 {
            var x = 10;
        }
        service s2 {
            var y = 20;
        }
    ",
    );
    let atomic_code = "
        atomic {
            update s1 {
                var x = 100;
            }
            update s2 {
                var y = 200;
            }
        }
    ";
    let ast = parse_string(atomic_code, &mut manager.interner).expect("atomic parse failed");
    assert_eq!(ast.len(), 1);
    if let Stmt::Atomic { updates } = &ast[0] {
        let mut txn = Transaction::new(updates.clone());
        assert!(run(&mut txn, &mut manager).is_ok());
    } else {
        panic!("expected Stmt::Atomic");
    }
    assert_eq!(value(&mut manager, "s1", "x"), number(100));
    assert_eq!(value(&mut manager, "s2", "y"), number(200));
}

#[test]
fn test_update_empty_statements_no_panic() {
    let mut manager = Manager::new(Interner::new());
    let mut txn = Transaction::new(Vec::new());
    assert!(run(&mut txn, &mut manager).is_ok());
}

#[test]
fn test_code_updates_1() {
    let mut manager = start(
        r#"
        service s1 {
            var a = 0;
            var b = 0;
            def c = (fn (x: int) => x)(a);
        }
    "#,
    );
    let res = update(
        &mut manager,
        r#"
        update s1 {
            var a = ""; // compatible redefine, should pass
        }
    "#,
    );
    assert!(res.is_ok());
}

#[test]
fn test_code_updates_2() {
    let mut manager = start(
        r#"
        service s1 {
            var a = 0;
            var b = 0;
            def c = a + b;
        }
    "#,
    );
    let res = update(
        &mut manager,
        r#"
        update s1 {
            var a = ""; // incompatible redefine, should not pass
        }
    "#,
    );
    assert!(res.is_err());
}

#[test]
fn updates_rewire_and_propagate() {
    let mut manager = start("service s1 { var x = 10; }");
    let effects = update(
        &mut manager,
        "update s1 { var x = 10; pub def y = (x + 1); }",
    )
    .unwrap();
    let s1 = manager.interner.insert("s1");
    let x = manager.interner.insert("x");
    let y = manager.interner.insert("y");
    assert_eq!(effects.len(), 4);
    assert!(matches!(effects[0], Effect::Rewire { service } if service == s1));
    assert!(
        matches!(effects[1], Effect::Propagate { service, name } if service == s1 && name == x)
    );
    assert!(
        matches!(effects[2], Effect::Recompute { service, name } if service == s1 && name == y)
    );
    assert!(
        matches!(effects[3], Effect::Propagate { service, name } if service == s1 && name == y)
    );
    let edges: Vec<(Symbol, Symbol)> =
        manager.services.get(&s1).unwrap().graphs.reactive_edges();
    assert_eq!(edges, vec![(x, y)]);
}

#[test]
fn updates_add_cross_service_edges() {
    let mut manager = start("service s1 { var x = 100; } service s2 { pub def y = 1; }");
    update(&mut manager, "update s2 { pub def y = s1.x; }").unwrap();
    let s1 = manager.interner.insert("s1");
    let s2 = manager.interner.insert("s2");
    let x = manager.interner.insert("x");
    let y = manager.interner.insert("y");
    let deps = &manager.services.get(&s2).unwrap().graphs.cross_deps;
    assert_eq!(deps.get(&y).unwrap(), &vec![(s1, x)]);
    assert_eq!(computed(&mut manager, "s2", "y"), number(100));
}

#[test]
fn remote_services_are_sent_their_update() {
    let mut manager = start("service s1 { var x = 10; }");
    let s1 = manager.interner.insert("s1");
    manager.remote_services.insert(s1, Address::new("/peer"));
    let effects = update(&mut manager, "update s1 { var x = 11; }").unwrap();
    match &effects[2] {
        Effect::SendUpdate {
            address,
            txn_id,
            service_name,
            source,
            timeout,
        } => {
            assert_eq!(address.0, "/peer");
            assert_eq!(*txn_id, Some(id(1)));
            assert_eq!(service_name, "s1");
            assert_eq!(source, "update s1 {\n  var x = 11;\n}");
            assert_eq!(
                timeout,
                "Timeout waiting for service update response for 's1'"
            );
            let msg = update_request(9, *txn_id, service_name, source, "/me");
            match msg {
                meerkat_lib::net::MeerkatMessage::UpdateServiceRequest {
                    request_id,
                    reply_to,
                    ..
                } => {
                    assert_eq!(request_id, 9);
                    assert_eq!(reply_to, "/me");
                }
                _ => panic!("expected an update request"),
            }
        }
        _ => panic!("expected an update to be sent"),
    }
}

#[test]
fn participants_are_told_to_commit() {
    let mut manager = start("service s1 { var x = 10; }");
    let updates = parse_string("update s1 { var x = 11; }", &mut manager.interner).unwrap();
    let mut txn = Transaction::new_with_id(id(5), updates);
    let lock_txn = match txn.poll(&mut manager, Event::Begin(id(1))) {
        Action::Acquire(mut lock_txn, groups) => {
            assert_eq!(lock_txn.id, id(5));
            assert_eq!(groups.len(), 1);
            assert_eq!(groups[0].0, "s1");
            assert!(!groups[0].1.service_level_lock);
            assert_eq!(groups[0].1.writes, vec!["x".to_string()]);
            lock_txn.participants.push(Address::new("/other"));
            lock_txn
        }
        _ => panic!("expected locks"),
    };
    assert!(matches!(
        txn.poll(&mut manager, Event::Locked(lock_txn)),
        Action::Evaluate(_)
    ));
    match txn.poll(&mut manager, Event::Value(Ok(number(11)))) {
        Action::Apply(effects) => {
            assert!(effects.iter().any(|e| matches!(
                e,
                Effect::SendCommit { address, id: n } if address.0 == "/other" && *n == id(5)
            )));
        }
        _ => panic!("expected to take effect"),
    }
    assert_eq!(txn.state, TransactionState::Evaluated);
}

#[test]
fn tables_cannot_be_updated() {
    let mut manager = setup_test_manager();
    let s1 = manager.interner.insert("s1");
    let t = manager.interner.insert("t");
    let updates = vec![Stmt::Update {
        service_name: s1,
        decls: vec![Decl::TableDecl {
            name: t,
            fields: Vec::new(),
        }],
    }];
    let mut txn = Transaction::new(updates);
    assert_eq!(
        run(&mut txn, &mut manager).err(),
        Some(EvalError::NotImplemented)
    );
    assert_eq!(txn.state, TransactionState::Init);
}

#[test]
fn unexpected_events_change_nothing() {
    let mut manager = setup_test_manager();
    let updates = parse_string("update s1 { var x = 11; }", &mut manager.interner).unwrap();
    let mut txn = Transaction::new(updates);
    assert!(matches!(
        txn.poll(&mut manager, Event::Value(Ok(number(1)))),
        Action::Done
    ));
    assert!(matches!(
        txn.poll(&mut manager, Event::Applied),
        Action::Done
    ));
    assert_eq!(txn.state, TransactionState::Init);
    assert_eq!(value(&mut manager, "s1", "x"), number(10));
}

#[test]
fn failed_transactions_do_not_go_on() {
    let mut manager = setup_test_manager();
    let updates = parse_string("update s1 { var x = (1 / 0); }", &mut manager.interner).unwrap();
    let mut txn = Transaction::new(updates);
    assert!(run(&mut txn, &mut manager).is_err());
    assert!(matches!(
        txn.poll(&mut manager, Event::Value(Ok(number(5)))),
        Action::Done
    ));
    assert_eq!(value(&mut manager, "s1", "x"), number(10));
}

#[test]
fn a_new_service_asks_for_the_service_lock() {
    let mut manager = setup_test_manager();
    let updates =
        parse_string("service fresh { var a = 1; }", &mut manager.interner).unwrap();
    let mut txn = Transaction::new(updates);
    match txn.poll(&mut manager, Event::Begin(id(3))) {
        Action::Acquire(lock_txn, groups) => {
            assert_eq!(lock_txn.id, id(3));
            assert_eq!(groups[0].0, "fresh");
            assert!(groups[0].1.service_level_lock);
        }
        _ => panic!("expected locks"),
    }
}

#[test]
fn read_locks_are_shared_and_write_locks_are_not() {
    let mut manager = setup_test_manager();
    let s1 = manager.interner.insert("s1");
    let x = manager.interner.insert("x");
    let reads = vec![(
        "s1".to_string(),
        LockGroup {
            service_level_lock: false,
            reads: vec!["x".to_string()],
            writes: Vec::new(),
        },
    )];
    let writes = vec![(
        "s1".to_string(),
        LockGroup {
            service_level_lock: false,
            reads: Vec::new(),
            writes: vec!["x".to_string()],
        },
    )];
    let a = LockTxn::new(id(1));
    let b = LockTxn::new(id(2));
    assert!(manager.acquire_lock_groups(&a, &reads).is_ok());
    assert!(manager.acquire_lock_groups(&b, &reads).is_ok());
    assert_eq!(
        manager.acquire_lock_groups(&a, &writes),
        Err(LockConflict::Variable(s1, x))
    );
    manager.release_all_locks(&b);
    assert!(manager.acquire_lock_groups(&a, &writes).is_ok());
    assert_eq!(
        manager.acquire_lock_groups(&b, &reads),
        Err(LockConflict::Variable(s1, x))
    );
    manager.release_all_locks(&a);
    let service = manager.services.get(&s1).unwrap();
    assert_eq!(service.vars.get(&x).unwrap().lock, VarLock::Unlocked);
}

#[test]
fn startup_announces_services() {
    let mut node = Node::new();
    let ast = parse_string("service s1 { var x = 1; }", &mut node.interner).unwrap();
    let remotes = vec![("far".to_string(), "/addr".to_string())];
    match node.on_manager_startup(&remotes, &ast, &Vec::new()) {
        Ok((mut manager, lines)) => {
            assert_eq!(
                lines,
                vec![
                    "Remote service 'far' registered at /addr".to_string(),
                    "Service 's1' loaded".to_string(),
                ]
            );
            let far = manager.interner.insert("far");
            assert_eq!(manager.remote_services.get(&far).unwrap().0, "/addr");
        }
        Err(_) => panic!("startup failed"),
    }
}

#[test]
fn startup_reports_what_fails() {
    let mut node = Node::new();
    let ast = parse_string("service s1 { var x = 1 / 0; }", &mut node.interner).unwrap();
    match node.on_manager_startup(&Vec::new(), &ast, &Vec::new()) {
        Err(StartupError::Failed(e)) => {
            assert_eq!(e.to_string(), "Service error: division by zero")
        }
        _ => panic!("expected a failure"),
    }
}

#[test]
fn startup_asks_for_remote_values() {
    let mut node = Node::new();
    let ast = parse_string("service s1 { var x = far.y; }", &mut node.interner).unwrap();
    let far = node.interner.insert("far");
    let y = node.interner.insert("y");
    let copy = node.interner.clone();
    let remotes = vec![("far".to_string(), "/addr".to_string())];
    match node.on_manager_startup(&remotes, &ast, &Vec::new()) {
        Err(StartupError::Read {
            addr,
            service,
            name,
            member,
        }) => {
            assert_eq!(addr, Address::new("/addr"));
            assert_eq!((service.as_str(), name.as_str()), ("far", "y"));
            assert_eq!(member, (far, y));
        }
        _ => panic!("expected a read"),
    }
    let mut unknown = Node::new();
    unknown.interner = copy.clone();
    match unknown.on_manager_startup(&Vec::new(), &ast, &Vec::new()) {
        Err(StartupError::Failed(e)) => {
            assert_eq!(e.to_string(), "Service error: no value of 'far.y'")
        }
        _ => panic!("expected a failure"),
    }
    let mut again = Node::new();
    again.interner = copy;
    let fetched = vec![((far, y), number(7))];
    match again.on_manager_startup(&remotes, &ast, &fetched) {
        Ok((mut manager, _)) => assert_eq!(value(&mut manager, "s1", "x"), number(7)),
        Err(_) => panic!("startup failed"),
    }
}

#[test]
fn a_started_node_runs_nothing() {
    let mut node = Node::new();
    let s = node.interner.insert("s");
    let manager = node.start();
    assert!(manager.services.is_empty());
    assert!(manager.remote_services.is_empty());
    assert_eq!(manager.interner.get(s), "s");
}

/// An update leaves the locks that other transactions hold.
#[test]
fn updates_leave_locks_of_others() {
    let mut manager = start(
        "
        service s1 { var x = 10; var z = 1; }
        service s2 { var w = 1; }
    ",
    );
    let s1 = manager.interner.insert("s1");
    let s2 = manager.interner.insert("s2");
    let z = manager.interner.insert("z");
    manager.services.get_mut(&s2).unwrap().service_lock = Some(id(99));
    manager.services.get_mut(&s1).unwrap().vars.get_mut(&z).unwrap().lock =
        VarLock::ReadLocked(vec![id(98)]);
    update(&mut manager, "update s1 { var x = 11; }").expect("succeeds");
    assert_eq!(value(&mut manager, "s1", "x"), number(11));
    assert_eq!(manager.services.get(&s2).unwrap().service_lock, Some(id(99)));
    let service = manager.services.get(&s1).unwrap();
    assert_eq!(service.service_lock, None);
    assert_eq!(
        service.vars.get(&z).unwrap().lock,
        VarLock::ReadLocked(vec![id(98)])
    );
}

fn locks_of(manager: &mut Manager, code: &str) -> Vec<(String, LockGroup)> {
    let updates = parse_string(code, &mut manager.interner).expect("parses");
    let mut txn = Transaction::new(updates);
    match txn.poll(manager, Event::Begin(id(1))) {
        Action::Acquire(_, groups) => groups,
        _ => panic!("expected locks"),
    }
}

/// What an update reads is locked too, at its own service and at others.
#[test]
fn what_is_read_is_locked() {
    let mut manager = start(
        "
        service s1 { var x = 10; var y = 2; }
        service s2 { var w = 1; }
    ",
    );
    let groups = locks_of(&mut manager, "update s1 { var x = y + s2.w; }");
    assert_eq!(groups.len(), 2);
    assert_eq!(groups[0].0, "s1");
    assert!(!groups[0].1.service_level_lock);
    assert_eq!(groups[0].1.reads, vec!["y".to_string()]);
    assert_eq!(groups[0].1.writes, vec!["x".to_string()]);
    assert_eq!(groups[1].0, "s2");
    assert_eq!(groups[1].1.reads, vec!["w".to_string()]);
    assert!(groups[1].1.writes.is_empty());

    let w = manager.interner.insert("w");
    let s2 = manager.interner.insert("s2");
    manager.services.get_mut(&s2).unwrap().vars.get_mut(&w).unwrap().lock =
        VarLock::WriteLocked(id(99));
    let res = update(&mut manager, "update s1 { var x = y + s2.w; }");
    assert_eq!(
        message(res.err().expect("fails")),
        "Lock acquisition conflict during update"
    );
}

/// Two updates of the same service need the locks of both.
#[test]
fn locks_of_the_same_service_are_merged() {
    let mut manager = setup_test_manager();
    let groups = locks_of(
        &mut manager,
        "update s1 { var fresh = 1; } update s1 { var x = fresh; }",
    );
    assert_eq!(groups.len(), 1);
    assert!(groups[0].1.service_level_lock);
    assert_eq!(groups[0].1.reads, vec!["fresh".to_string()]);
    assert_eq!(
        groups[0].1.writes,
        vec!["fresh".to_string(), "x".to_string()]
    );
}

/// A transaction waits for older ones, and dies where a younger one stands in its way.
#[test]
fn transactions_wait_for_older_ones_only() {
    let mut manager = setup_test_manager();
    let s1 = manager.interner.insert("s1");
    let x = manager.interner.insert("x");
    let other = TxnId {
        timestamp: 5,
        node_id: 1,
    };
    assert!(is_older(&id(4), &id(5)));
    assert!(is_older(&id(5), &other));
    assert!(!is_older(&other, &id(5)));
    assert!(!is_older(&id(5), &id(5)));

    let service = LockConflict::Service(s1);
    manager.services.get_mut(&s1).unwrap().service_lock = Some(id(5));
    assert_eq!(decide_conflict(&manager, service, &id(6)), LockDecision::Wait);
    assert_eq!(decide_conflict(&manager, service, &id(4)), LockDecision::Die);

    let variable = LockConflict::Variable(s1, x);
    let lock = VarLock::ReadLocked(vec![id(3), id(6), id(7)]);
    manager.services.get_mut(&s1).unwrap().vars.get_mut(&x).unwrap().lock = lock;
    assert_eq!(decide_conflict(&manager, variable, &id(8)), LockDecision::Wait);
    assert_eq!(decide_conflict(&manager, variable, &id(7)), LockDecision::Wait);
    assert_eq!(decide_conflict(&manager, variable, &id(5)), LockDecision::Die);
    let lock = VarLock::WriteLocked(id(9));
    manager.services.get_mut(&s1).unwrap().vars.get_mut(&x).unwrap().lock = lock;
    assert_eq!(decide_conflict(&manager, variable, &id(8)), LockDecision::Die);
    assert_eq!(decide_conflict(&manager, variable, &id(10)), LockDecision::Wait);
}

/// Values are computed in the state before the update; the last assignment to a variable prevails.
#[test]
fn updates_read_the_state_before_them() {
    let mut manager = start("service s1 { var w = 5; var x = 10; var z = 1; }");
    update(
        &mut manager,
        "update s1 { var x = 2; var z = x; var x = w + 1; }",
    )
    .expect("succeeds");
    assert_eq!(value(&mut manager, "s1", "x"), number(6));
    assert_eq!(value(&mut manager, "s1", "z"), number(10));
    assert_eq!(value(&mut manager, "s1", "w"), number(5));
    let s1 = manager.interner.insert("s1");
    let service = manager.services.get(&s1).unwrap();
    assert!(service.vars.values().all(|v| v.lock == VarLock::Unlocked));
    assert_eq!(service.service_lock, None);
}

/// An update whose second value fails changes nothing and holds nothing.
#[test]
fn failed_runs_leave_the_node_as_it_was() {
    let mut manager = start("service s1 { var y = 0; var x = 10; var z = 1; }");
    let res = update(&mut manager, "update s1 { var x = 1; var z = x / y; }");
    assert_eq!(message(res.err().expect("fails")), "division by zero");
    assert_eq!(value(&mut manager, "s1", "x"), number(10));
    let s1 = manager.interner.insert("s1");
    let service = manager.services.get(&s1).unwrap();
    assert!(service.vars.values().all(|v| v.lock == VarLock::Unlocked));
}

#[test]
fn runs_stop_at_locks_of_others() {
    let mut manager = start("service s1 { var x = 10; }");
    let s1 = manager.interner.insert("s1");
    manager.services.get_mut(&s1).unwrap().service_lock = Some(id(7));
    let res = update(&mut manager, "update s1 { var x = 1; }");
    assert_eq!(
        message(res.err().expect("fails")),
        "Lock acquisition conflict during update"
    );
    assert_eq!(value(&mut manager, "s1", "x"), number(10));
    assert_eq!(manager.services.get(&s1).unwrap().service_lock, Some(id(7)));
}

#[test]
fn finished_transactions_run_no_more() {
    let mut manager = start("service s1 { var w = 10; var x = 1; }");
    let updates = parse_string("update s1 { var x = w + 1; }", &mut manager.interner).unwrap();
    let mut txn = Transaction::new(updates);
    txn.run_local(&mut manager, id(1), &Vec::new()).expect("succeeds");
    assert_eq!(txn.state, TransactionState::Evaluated);
    let again = txn.run_local(&mut manager, id(2), &Vec::new());
    assert!(again.expect("nothing is left to do").is_empty());
    assert_eq!(value(&mut manager, "s1", "x"), number(11));
}

/// A run uses the values fetched from other nodes, and names the first that is missing.
#[test]
fn runs_use_fetched_values() {
    let mut manager = start("service s1 { var x = 10; } service far { var y = 1; }");
    let far = manager.interner.insert("far");
    let y = manager.interner.insert("y");
    manager.services.remove(&far);
    let code = "update s1 { var x = far.y; }";
    assert_eq!(
        update(&mut manager, code).err(),
        Some(EvalError::NeedLookup((far, y)))
    );
    let updates = parse_string(code, &mut manager.interner).unwrap();
    let fetched = vec![((far, y), number(3))];
    Transaction::new(updates)
        .run_local(&mut manager, id(1), &fetched)
        .expect("succeeds");
    assert_eq!(value(&mut manager, "s1", "x"), number(3));
}

/// What is missing is read from the node that the service runs on.
#[test]
fn missing_members_are_read_from_their_node() {
    let mut manager = start("service s1 { var x = 10; }");
    let s1 = manager.interner.insert("s1");
    let far = manager.interner.insert("far");
    let y = manager.interner.insert("y");
    let expr = Expr::MemberAccess {
        service_name: far,
        member_name: y,
    };
    match look_up(&manager, s1, &expr, &Vec::new()) {
        LookupStep::Ready(Err(EvalError::NeedLookup(at))) => assert_eq!(at, (far, y)),
        _ => panic!("nothing is known of the service"),
    }
    manager.remote_services.insert(far, Address::new("/addr"));
    match look_up(&manager, s1, &expr, &Vec::new()) {
        LookupStep::Read {
            addr,
            service,
            name,
            member,
        } => {
            assert_eq!(addr, Address::new("/addr"));
            assert_eq!((service.as_str(), name.as_str()), ("far", "y"));
            assert_eq!(member, (far, y));
        }
        _ => panic!("expected a read"),
    }
    match look_up(&manager, s1, &expr, &vec![((far, y), number(4))]) {
        LookupStep::Ready(res) => assert_eq!(res, Ok(number(4))),
        _ => panic!("expected a value"),
    }
}

/// Each update block is a transaction, and so are the updates of an atomic block together.
#[test]
fn blocks_are_transactions() {
    let mut interner = Interner::new();
    let program = parse_string(
        "
        service s1 { var x = 1; }
        update s1 { var x = 2; }
        atomic {
            update s1 { var x = 3; }
            update s1 { var x = 4; }
        }
        update s1 { var x = 5; }
    ",
        &mut interner,
    )
    .unwrap();
    let found = transactions_of(&program);
    assert_eq!(found.len(), 3);
    assert_eq!(found[0], vec![program[1].clone()]);
    match &program[2] {
        Stmt::Atomic { updates } => assert_eq!(&found[1], updates),
        _ => panic!("expected an atomic block"),
    }
    assert_eq!(found[1].len(), 2);
    assert_eq!(found[2], vec![program[3].clone()]);
    assert!(transactions_of(&program[..1]).is_empty());
}

/// A transaction that waits pauses longer than one that starts anew, and both end.
#[test]
fn test_wait_die_retries_are_paced() {
    let mut manager = start("service s1 { var x = 10; }");
    let s1 = manager.interner.insert("s1");
    manager.services.get_mut(&s1).unwrap().service_lock = Some(id(5));
    let conflict = LockConflict::Service(s1);
    for retries in 0..10 {
        assert_eq!(
            after_conflict(&manager, conflict, &id(6), retries),
            LockStep::Wait { pause_ms: 20 }
        );
        assert_eq!(
            after_conflict(&manager, conflict, &id(4), retries),
            LockStep::Restart { pause_ms: 2 }
        );
    }
    assert_eq!(after_conflict(&manager, conflict, &id(6), 10), LockStep::GiveUp);
    assert_eq!(after_conflict(&manager, conflict, &id(4), 11), LockStep::GiveUp);
}

/// An address given for a service that the program declares has no effect, and a line says so.
#[test]
fn register_remote_services_skips_locally_declared_services() {
    let mut node = Node::new();
    let ast = parse_string("service s2 { var x = 1; }", &mut node.interner).unwrap();
    let local = local_service_names(&ast);
    let mut manager = node.start();
    let remotes = vec![
        ("s2".to_string(), "/ip4/p2p".to_string()),
        ("far".to_string(), "/addr".to_string()),
    ];
    let lines = manager.register_remote_services(&remotes, &local);
    assert_eq!(
        lines,
        vec![
            "Warning: '-i s2=/ip4/p2p' has no effect: the program declares service 's2'"
                .to_string(),
            "Remote service 'far' registered at /addr".to_string(),
        ]
    );
    let s2 = manager.interner.insert("s2");
    let far = manager.interner.insert("far");
    assert!(!manager.remote_services.contains_key(&s2));
    assert_eq!(manager.remote_services.get(&far), Some(&Address::new("/addr")));
}

#[test]
fn local_service_names_covers_declarations_only() {
    let mut interner = Interner::new();
    let ast = parse_string(
        "import far service s1 { var x = 1; } service s2 { var y = 2; }",
        &mut interner,
    )
    .unwrap();
    let far = interner.insert("far");
    let names = local_service_names(&ast);
    assert_eq!(names.len(), 2);
    assert!(names.contains(&interner.insert("s1")));
    assert!(names.contains(&interner.insert("s2")));
    assert!(!names.contains(&far));
}

/// A declared service starts here although an address was given for it.
#[test]
fn declared_services_start_here() {
    let mut node = Node::new();
    let ast = parse_string("service s1 { var x = 1; }", &mut node.interner).unwrap();
    let remotes = vec![("s1".to_string(), "/addr".to_string())];
    match node.on_manager_startup(&remotes, &ast, &Vec::new()) {
        Ok((mut manager, lines)) => {
            assert_eq!(
                lines,
                vec![
                    "Warning: '-i s1=/addr' has no effect: the program declares service 's1'"
                        .to_string(),
                    "Service 's1' loaded".to_string(),
                ]
            );
            assert!(manager.remote_services.is_empty());
            assert_eq!(value(&mut manager, "s1", "x"), number(1));
        }
        Err(_) => panic!("startup failed"),
    }
}

/// What a type check finds wrong with an update is reported in its debug form.
#[test]
fn failed_checks_are_reported_in_debug_form() {
    let mut manager = start("service s1 { var x = 10; def f = fn (n: int) => n; }");
    let res = update(&mut manager, "update s1 { var x: (int) -> bool = f; }");
    assert_eq!(
        message(res.err().expect("fails")),
        "Type check failed on update: TypeMismatch { expected: Func { params: [Int], ret: Bool \
         }, found: Func { params: [Int], ret: Int } }"
    );
    let res = update(&mut manager, "update s1 { def d = x(1); }");
    assert_eq!(
        message(res.err().expect("fails")),
        "Type check failed on update: NotAFunction"
    );
}

#[test]
fn debug_forms_of_check_errors() {
    let tuple = Type::Tuple(vec![Type::Html, Type::List(Box::new(Type::Unit))]);
    let mismatch = CheckError::TypeMismatch {
        expected: tuple,
        found: Type::Action,
    };
    assert_eq!(debug_check_error(&mismatch), format!("{:?}", mismatch));
    assert_eq!(
        debug_check_error(&mismatch),
        "TypeMismatch { expected: Tuple([Html, List(Unit)]), found: Action }"
    );
    assert_eq!(
        debug_check_error(&CheckError::UnboundVariable(12)),
        "UnboundVariable(Symbol(12))"
    );
    assert_eq!(
        debug_check_error(&CheckError::DependencyCycle {
            service: 0,
            member: 1
        }),
        "DependencyCycle { service: Symbol(0), member: Symbol(1) }"
    );
    assert_eq!(
        debug_check_error(&CheckError::IllegalDependency {
            service: 2,
            member: 3
        }),
        "IllegalDependency { service: Symbol(2), member: Symbol(3) }"
    );
    for e in [
        CheckError::CannotInferType,
        CheckError::DepthLimitExceeded,
        CheckError::InvalidTupleArity,
        CheckError::NotAFunction,
    ] {
        assert_eq!(debug_check_error(&e), format!("{:?}", e));
    }
}
