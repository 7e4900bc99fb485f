//! What runs once a program is loaded, and what clicks run.

use vstd::prelude::*;

use crate::runtime::ast::{StmtV, ValueV};
use crate::runtime::creation;
use crate::runtime::graphs::ServiceGraphs;
use crate::runtime::importing;
use crate::runtime::interner::Symbol;
use crate::runtime::manager::ManagerV;
use crate::runtime::startup;
use crate::runtime::tt::types::Member;
use crate::runtime::web;
use crate::runtime::web::ClickActionV;

verus! {

/// What creating one service changes.
proof fn lemma_created(
    m: ManagerV,
    o: startup::OriginV,
    s: StmtV,
    graphs: ServiceGraphs,
    svc: Symbol,
)
    requires
        s is Service,
        s->Service_name == o.svc,
        startup::created(m, o, s->Service_decls, graphs).1 is None,
    ensures
        startup::created(m, o, s->Service_decls, graphs).0.services.contains_key(svc) <==> svc
            == o.svc || m.services.contains_key(svc),
        startup::created(m, o, s->Service_decls, graphs).0.remote == m.remote,
        startup::created(m, o, s->Service_decls, graphs).0.names == m.names,
        startup::created(m, o, s->Service_decls, graphs).0.ast == m.ast.push(s),
        svc != o.svc ==> startup::created(m, o, s->Service_decls, graphs).0.services[svc]
            == m.services[svc],
{
    let other: Symbol = if svc == o.svc {
        if svc == 0 {
            1
        } else {
            0
        }
    } else {
        svc
    };
    creation::services_come_up_as_declared(m, o, s->Service_decls, graphs, svc, other);
}

/// What one more statement declares and imports.
proof fn lemma_one_more(prog: Seq<StmtV>, s: Symbol)
    requires
        prog.len() > 0,
    ensures
        importing::declares(prog, s) <==> importing::declares(prog.drop_last(), s) || (
        prog.last() is Service && prog.last()->Service_name == s),
        importing::imports_it(prog, s) <==> importing::imports_it(prog.drop_last(), s) || (
        prog.last() is Import && prog.last()->Import_service_name == s),
{
    let rest = prog.drop_last();
    let n = prog.len() - 1;
    assert(prog.last() == prog[n]);
    assert forall|i: int| 0 <= i < n implies #[trigger] rest[i] == prog[i] by {}
    if importing::declares(rest, s) {
        let i = choose|i: int|
            0 <= i < rest.len() && (#[trigger] rest[i]) is Service && rest[i]->Service_name == s;
        assert(prog[i] is Service);
    }
    if importing::imports_it(rest, s) {
        let i = choose|i: int|
            0 <= i < rest.len() && (#[trigger] rest[i]) is Import && rest[i]->Import_service_name
                == s;
        assert(prog[i] is Import);
    }
    if importing::declares(prog, s) && !(prog[n] is Service && prog[n]->Service_name == s) {
        let i = choose|i: int|
            0 <= i < prog.len() && (#[trigger] prog[i]) is Service && prog[i]->Service_name == s;
        assert(rest[i] is Service);
    }
    if importing::imports_it(prog, s) && !(prog[n] is Import && prog[n]->Import_service_name == s) {
        let i = choose|i: int|
            0 <= i < prog.len() && (#[trigger] prog[i]) is Import && prog[i]->Import_service_name
                == s;
        assert(rest[i] is Import);
    }
}

/// Where the services of a program came up, exactly those run that it declares or that ran before;
/// where others are found does not change.
pub proof fn declared_services_come_up(
    m: ManagerV,
    prog: Seq<StmtV>,
    graphs: Seq<ServiceGraphs>,
    fetched: Seq<(Member, ValueV)>,
    fuel: nat,
    svc: Symbol,
)
    requires
        startup::services_created(m, prog, graphs, fetched, fuel).1 is None,
    ensures
        ({
            let m2 = startup::services_created(m, prog, graphs, fetched, fuel).0;
            &&& m2.services.contains_key(svc) <==> importing::declares(prog, svc)
                || m.services.contains_key(svc)
            &&& !importing::declares(prog, svc) ==> m2.services[svc] == m.services[svc]
            &&& m2.remote == m.remote
            &&& m2.names == m.names
        }),
    decreases prog.len(),
{
    if prog.len() > 0 {
        let rest = prog.drop_last();
        declared_services_come_up(m, rest, graphs.drop_last(), fetched, fuel, svc);
        lemma_one_more(prog, svc);
        let r = startup::services_created(m, rest, graphs.drop_last(), fetched, fuel);
        if let StmtV::Service { name, decls } = prog.last() {
            let o = startup::origin_of(r.0, name, fetched, fuel);
            lemma_created(r.0, o, prog.last(), graphs.last(), svc);
        }
    }
}

/// Where a program is loaded, exactly those services run that it declares or that ran before, and
/// exactly those that it imports are found at the server from then on.
pub proof fn imported_services_run_at_the_server(
    m: ManagerV,
    prog: Seq<StmtV>,
    graphs: Seq<ServiceGraphs>,
    server: Seq<char>,
    fetched: Seq<(Member, ValueV)>,
    fuel: nat,
    svc: Symbol,
)
    requires
        web::loaded(m, prog, graphs, server, fetched, fuel).1 is None,
    ensures
        ({
            let m2 = web::loaded(m, prog, graphs, server, fetched, fuel).0;
            &&& m2.services.contains_key(svc) <==> importing::declares(prog, svc)
                || m.services.contains_key(svc)
            &&& importing::imports_it(prog, svc) ==> m2.remote.contains_key(svc) && m2.remote[svc]
                == server
            &&& !importing::imports_it(prog, svc) ==> (m2.remote.contains_key(svc)
                <==> m.remote.contains_key(svc)) && m2.remote[svc] == m.remote[svc]
            &&& m2.names == m.names
        }),
    decreases prog.len(),
{
    if prog.len() > 0 {
        let rest = prog.drop_last();
        imported_services_run_at_the_server(
            m,
            rest,
            graphs.drop_last(),
            server,
            fetched,
            fuel,
            svc,
        );
        lemma_one_more(prog, svc);
        let r = web::loaded(m, rest, graphs.drop_last(), server, fetched, fuel);
        if let StmtV::Service { name, decls } = prog.last() {
            let o = startup::origin_of(r.0, name, fetched, fuel);
            lemma_created(r.0, o, prog.last(), graphs.last(), svc);
        }
    }
}

/// Whether a handler is an action for clicks, and this is what it runs.
pub open spec fn runs_on_click(h: (Seq<char>, ValueV), a: ClickActionV) -> bool {
    h == (
        "onclick"@,
        ValueV::ActionClosure { stmts: a.stmts, env: a.env, service_net_id: a.service_net_id },
    )
}

/// A click runs the actions that handle clicks, and nothing else.
pub proof fn clicks_run_their_handlers(handlers: Seq<(Seq<char>, ValueV)>, a: ClickActionV)
    ensures
        web::click_actions(handlers).contains(a) <==> exists|i: int|
            0 <= i < handlers.len() && runs_on_click(#[trigger] handlers[i], a),
    decreases handlers.len(),
{
    if handlers.len() > 0 {
        let rest = handlers.drop_last();
        let n = handlers.len() - 1;
        clicks_run_their_handlers(rest, a);
        let before = web::click_actions(rest);
        let all = web::click_actions(handlers);
        assert forall|i: int| 0 <= i < n implies #[trigger] rest[i] == handlers[i] by {}
        assert(handlers.last() == handlers[n]);
        if before.contains(a) {
            let k = choose|k: int| 0 <= k < before.len() && before[k] == a;
            assert(all[k] == a);
            let i = choose|i: int| 0 <= i < rest.len() && runs_on_click(#[trigger] rest[i], a);
            assert(runs_on_click(handlers[i], a));
        }
        if all.contains(a) && !before.contains(a) {
            let k = choose|k: int| 0 <= k < all.len() && all[k] == a;
            assert(k == before.len());
            assert(runs_on_click(handlers[n], a));
        }
        if runs_on_click(handlers[n], a) {
            assert(all[before.len() as int] == a);
        }
        if exists|i: int| 0 <= i < handlers.len() && runs_on_click(#[trigger] handlers[i], a) {
            let i = choose|i: int|
                0 <= i < handlers.len() && runs_on_click(#[trigger] handlers[i], a);
            if i < n {
                assert(runs_on_click(rest[i], a));
            }
        }
    }
}

/// The actions of clicks run in the order of their handlers.
pub proof fn clicks_run_in_order(
    handlers: Seq<(Seq<char>, ValueV)>,
    h: (Seq<char>, ValueV),
    a: ClickActionV,
)
    ensures
        runs_on_click(h, a) ==> web::click_actions(handlers.push(h)) == web::click_actions(
            handlers,
        ).push(a),
        h.0 != "onclick"@ ==> web::click_actions(handlers.push(h)) == web::click_actions(handlers),
        h.1 !is ActionClosure ==> web::click_actions(handlers.push(h)) == web::click_actions(
            handlers,
        ),
{
    assert(handlers.push(h).drop_last() =~= handlers);
    assert(handlers.push(h).last() == h);
}

} // verus!
