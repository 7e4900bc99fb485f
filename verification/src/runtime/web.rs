//! The client in a browser: what it loads, what it shows, and what a click runs.

use vstd::prelude::*;

use crate::net::types::Address;
use crate::runtime::ast;
use crate::runtime::ast::{
    clone_action_stmts, clone_env, ActionStmt, ActionStmtV, Expr, ExprV, Html, HtmlV, Stmt, StmtV,
    Value, ValueV,
};
use crate::runtime::graphs::analysis;
use crate::runtime::graphs::ServiceGraphs;
use crate::runtime::interner;
use crate::runtime::interner::Symbol;
use crate::runtime::interpreter::evaluator;
use crate::runtime::interpreter::evaluator::{eval, ContextV, EvalContext, EvalError, EvalErrorV};
use crate::runtime::manager;
use crate::runtime::manager::{keys_of, Manager, ManagerV};
use crate::runtime::startup;
use crate::runtime::startup::Creating;
use crate::runtime::tt::types;
use crate::runtime::tt::types::Member;

verus! {

broadcast use vstd::std_specs::hash::group_hash_axioms;

/// Whether `part` stands somewhere in `s`.
pub open spec fn contains_text(s: Seq<char>, part: Seq<char>) -> bool {
    exists|i: int|
        0 <= i && i + part.len() <= s.len() && #[trigger] s.subrange(i, i + part.len()) == part
}

/// What is reported of an address that a browser cannot reach.
pub open spec fn address_error() -> Seq<char> {
    "Expected a WebSocket address containing /ws, e.g. /ip4/127.0.0.1/tcp/9001/ws/p2p/<peer_id>"@
}

/// The line that reports a loaded statement.
pub open spec fn loaded_text(s: StmtV, names: Seq<Seq<char>>) -> Seq<char> {
    match s {
        StmtV::Import { service_name, .. } => "import "@ + interner::name_text(names, service_name)
            + " (remote)\n"@,
        StmtV::Service { name, .. } => "service "@ + interner::name_text(names, name)
            + " instantiated\n"@,
        _ => Seq::empty(),
    }
}

/// The lines that report loaded statements.
pub open spec fn loaded_texts(prog: Seq<StmtV>, names: Seq<Seq<char>>) -> Seq<char>
    decreases prog.len(),
{
    if prog.len() == 0 {
        Seq::empty()
    } else {
        loaded_texts(prog.drop_last(), names) + loaded_text(prog.last(), names)
    }
}

/// What is reported of a loaded program.
pub open spec fn summary_text(prog: Seq<StmtV>, names: Seq<Seq<char>>) -> Seq<char> {
    if loaded_texts(prog, names).len() == 0 {
        "(no services or imports found)"@
    } else {
        loaded_texts(prog, names)
    }
}

/// Loading statements, one after another, up to the first that fails: what is imported runs at
/// the server, what is declared is created here.
pub open spec fn loaded(
    m: ManagerV,
    prog: Seq<StmtV>,
    graphs: Seq<ServiceGraphs>,
    server: Seq<char>,
    fetched: Seq<(Member, ValueV)>,
    fuel: nat,
) -> Creating
    decreases prog.len(),
{
    if prog.len() == 0 {
        (m, None)
    } else {
        let r = loaded(m, prog.drop_last(), graphs.drop_last(), server, fetched, fuel);
        if r.1 is Some {
            r
        } else {
            match prog.last() {
                StmtV::Import { service_name, .. } => (
                    ManagerV { remote: r.0.remote.insert(service_name, server), ..r.0 },
                    None,
                ),
                StmtV::Service { name, decls } => startup::created(
                    r.0,
                    startup::origin_of(r.0, name, fetched, fuel),
                    decls,
                    graphs.last(),
                ),
                _ => r,
            }
        }
    }
}

/// How a program was loaded: all of it, or up to a service that could not be created.
pub open spec fn load_outcome(
    m: ManagerV,
    prog: Seq<StmtV>,
    server: Seq<char>,
    fetched: Seq<(Member, ValueV)>,
    fuel: nat,
    m2: ManagerV,
    error: Option<EvalErrorV>,
) -> bool {
    exists|graphs: Seq<ServiceGraphs>|
        {
            &&& graphs.len() <= prog.len()
            &&& #[trigger] startup::graphs_fit(prog.take(graphs.len() as int), graphs)
            &&& loaded(
                m,
                prog.take(graphs.len() as int),
                graphs,
                server,
                fetched,
                fuel,
            ) == (m2, error)
            &&& error is None ==> graphs.len() == prog.len()
        }
}

/// What the definitions of a running service are evaluated in.
pub open spec fn page_context(
    m: ManagerV,
    svc: Symbol,
    fetched: Seq<(Member, ValueV)>,
) -> ContextV {
    ContextV { services: m.services, svc, net_id: m.services[svc].net_id, fetched }
}

/// The page that a service shows: the value of its member `html_sym`, where that is a page.
/// `fetched` are the values fetched from other nodes.
pub open spec fn page_of(
    m: ManagerV,
    svc: Symbol,
    html_sym: Symbol,
    fetched: Seq<(Member, ValueV)>,
    fuel: nat,
) -> Option<HtmlV> {
    if m.services.dom().contains(svc) {
        match evaluator::evaluated(
            page_context(m, svc, fetched),
            Seq::empty(),
            ExprV::Variable { name: html_sym },
            fuel,
        ) {
            Ok(ValueV::Html(h)) => Some(h),
            _ => None,
        }
    } else {
        None
    }
}

/// Whether `svc` is the first service that shows a page.
pub open spec fn shows_page(
    m: ManagerV,
    svc: Symbol,
    html_sym: Symbol,
    fetched: Seq<(Member, ValueV)>,
    fuel: nat,
) -> bool {
    &&& page_of(m, svc, html_sym, fetched, fuel) is Some
    &&& forall|s: Symbol|
        s < svc ==> #[trigger] page_of(m, s, html_sym, fetched, fuel) is None
}

/// At most one service is the first that shows a page, so the text and the handlers that are
/// read of a node are those of one page.
pub proof fn one_page_is_shown(
    m: ManagerV,
    a: Symbol,
    b: Symbol,
    html_sym: Symbol,
    fetched: Seq<(Member, ValueV)>,
    fuel: nat,
)
    requires
        shows_page(m, a, html_sym, fetched, fuel),
        shows_page(m, b, html_sym, fetched, fuel),
    ensures
        a == b,
{
}

/// The page of a definition is that of its evaluated expression.
pub proof fn pages_are_evaluated_definitions(
    m: ManagerV,
    svc: Symbol,
    html_sym: Symbol,
    fetched: Seq<(Member, ValueV)>,
    fuel: nat,
    h: HtmlV,
)
    requires
        m.services.dom().contains(svc),
        !m.services[svc].vars.dom().contains(html_sym),
        m.services[svc].defs.dom().contains(html_sym),
        fuel > 0,
        evaluator::evaluated(
            page_context(m, svc, fetched),
            Seq::empty(),
            m.services[svc].defs[html_sym],
            (fuel - 1) as nat,
        ) == Ok::<ValueV, EvalErrorV>(ValueV::Html(h)),
    ensures
        page_of(m, svc, html_sym, fetched, fuel) == Some(h),
{
}

/// An action that a click runs.
pub struct ClickAction {
    pub stmts: Vec<ActionStmt>,
    pub env: Vec<(Symbol, Value)>,
    /// The service that owns the action.
    pub service_net_id: String,
}

/// What a `ClickAction` stands for.
pub struct ClickActionV {
    pub stmts: Seq<ActionStmtV>,
    pub env: Seq<(Symbol, ValueV)>,
    pub service_net_id: Seq<char>,
}

impl View for ClickAction {
    type V = ClickActionV;

    open spec fn view(&self) -> ClickActionV {
        ClickActionV {
            stmts: types::views(self.stmts@),
            env: ast::env_view(self.env@),
            service_net_id: self.service_net_id@,
        }
    }
}

/// The actions that clicks run: those of the handlers for clicks whose value can be run.
pub open spec fn click_actions(handlers: Seq<(Seq<char>, ValueV)>) -> Seq<ClickActionV>
    decreases handlers.len(),
{
    if handlers.len() == 0 {
        Seq::empty()
    } else {
        let before = click_actions(handlers.drop_last());
        match handlers.last().1 {
            ValueV::ActionClosure { stmts, env, service_net_id } if handlers.last().0
                == "onclick"@ => before.push(ClickActionV { stmts, env, service_net_id }),
            _ => before,
        }
    }
}

/// Check that a browser can reach an address.
pub fn check_server_address(addr: &str) -> (res: Result<(), String>)
    ensures
        match res {
            Ok(()) => contains_text(addr@, "/ws"@),
            Err(e) => !contains_text(addr@, "/ws"@) && e@ == address_error(),
        },
{
    proof {
        reveal_strlit("/ws");
    }
    let n: usize = addr.unicode_len();
    let mut i: usize = 0;
    while i < n && n - i >= 3
        invariant
            i <= n == addr@.len(),
            "/ws"@.len() == 3,
            forall|k: int| 0 <= k < i ==> #[trigger] addr@.subrange(k, k + 3) != "/ws"@,
        decreases n - i,
    {
        if addr.substring_char(i, i + 3).to_owned() == "/ws".to_owned() {
            assert(addr@.subrange(i as int, i as int + "/ws"@.len()) == "/ws"@);
            return Ok(());
        }
        i += 1;
    }
    assert(!contains_text(addr@, "/ws"@));
    Err(
        "Expected a WebSocket address containing /ws, e.g. /ip4/127.0.0.1/tcp/9001/ws/p2p/<peer_id>".to_owned(),
    )
}

/// The page of a running service.
fn render_page(
    manager: &Manager,
    svc: Symbol,
    html_sym: Symbol,
    fetched: &Vec<(Member, Value)>,
) -> (res: Option<Html>)
    ensures
        types::opt_view(res) == page_of(
            manager@,
            svc,
            html_sym,
            evaluator::fetched_view(fetched@),
            evaluator::unbounded(),
        ),
{
    match manager.services.get(&svc) {
        None => None,
        Some(s) => {
            let ctx = EvalContext {
                services: &manager.services,
                service_name: svc,
                service_net_id: s.net_id.as_str(),
                fetched,
            };
            let env: Vec<(Symbol, Value)> = Vec::new();
            assert(ast::env_view(env@) =~= Seq::<(Symbol, ValueV)>::empty());
            let page = Expr::Variable { name: html_sym };
            proof {
                ast::lemma_expr_view(page);
            }
            match eval(&page, &env, &ctx) {
                Ok(v) => {
                    proof {
                        ast::lemma_value_view(v);
                    }
                    match v {
                        Value::Html(h) => Some(h),
                        _ => None,
                    }
                },
                Err(_) => None,
            }
        },
    }
}

/// The page of the first service that shows one.
fn find_page(
    manager: &Manager,
    html_sym: Symbol,
    fetched: &Vec<(Member, Value)>,
) -> (res: Option<Html>)
    ensures
        match res {
            Some(h) => exists|svc: Symbol|
                {
                    &&& #[trigger] shows_page(
                        manager@,
                        svc,
                        html_sym,
                        evaluator::fetched_view(fetched@),
                        evaluator::unbounded(),
                    )
                    &&& page_of(
                        manager@,
                        svc,
                        html_sym,
                        evaluator::fetched_view(fetched@),
                        evaluator::unbounded(),
                    ) == Some(h@)
                },
            None => forall|svc: Symbol| #[trigger]
                page_of(
                    manager@,
                    svc,
                    html_sym,
                    evaluator::fetched_view(fetched@),
                    evaluator::unbounded(),
                ) is None,
        },
{
    let ghost m = manager@;
    let ghost fs = evaluator::fetched_view(fetched@);
    let ghost n = evaluator::unbounded();
    let keys = keys_of(&manager.services);
    let mut best: Option<(Symbol, Html)> = None;
    let mut i: usize = 0;
    while i < keys.len()
        invariant
            i <= keys@.len(),
            m == manager@,
            fs == evaluator::fetched_view(fetched@),
            n == evaluator::unbounded(),
            forall|k: Symbol| #[trigger]
                keys@.contains(k) <==> manager.services@.dom().contains(k),
            match best {
                Some((s, h)) => {
                    &&& page_of(m, s, html_sym, fs, n) == Some(h@)
                    &&& forall|k: int|
                        0 <= k < i && #[trigger] keys@[k] < s ==> page_of(
                            m,
                            keys@[k],
                            html_sym,
                            fs,
                            n,
                        ) is None
                },
                None => forall|k: int|
                    0 <= k < i ==> page_of(m, #[trigger] keys@[k], html_sym, fs, n) is None,
            },
        decreases keys@.len() - i,
    {
        let svc = keys[i];
        let earlier = match &best {
            Some((s, _)) => svc < *s,
            None => true,
        };
        if earlier {
            if let Some(h) = render_page(manager, svc, html_sym, fetched) {
                best = Some((svc, h));
            }
        }
        i += 1;
    }
    proof {
        assert forall|svc: Symbol|
            (best matches Some((s, _)) ==> svc < s) implies #[trigger] page_of(
            m,
            svc,
            html_sym,
            fs,
            n,
        ) is None by {
            if m.services.dom().contains(svc) {
                assert(keys@.contains(svc));
                let k = choose|k: int| 0 <= k < keys@.len() && keys@[k] == svc;
                assert(page_of(m, keys@[k], html_sym, fs, n) is None);
            }
        }
    }
    match best {
        Some((s, h)) => {
            assert(shows_page(m, s, html_sym, fs, n));
            Some(h)
        },
        None => None,
    }
}

/// The text of the page that a node shows: that of the first service whose member `html_sym` is a
/// page. Nothing where there is none.
pub fn current_html(
    manager: &Manager,
    html_sym: Symbol,
    fetched: &Vec<(Member, Value)>,
) -> (res: Option<String>)
    ensures
        match res {
            Some(text) => exists|svc: Symbol|
                {
                    &&& #[trigger] shows_page(
                        manager@,
                        svc,
                        html_sym,
                        evaluator::fetched_view(fetched@),
                        evaluator::unbounded(),
                    )
                    &&& (page_of(
                        manager@,
                        svc,
                        html_sym,
                        evaluator::fetched_view(fetched@),
                        evaluator::unbounded(),
                    )->0).text == text@
                },
            None => forall|svc: Symbol| #[trigger]
                page_of(
                    manager@,
                    svc,
                    html_sym,
                    evaluator::fetched_view(fetched@),
                    evaluator::unbounded(),
                ) is None,
        },
{
    match find_page(manager, html_sym, fetched) {
        Some(h) => {
            proof {
                ast::lemma_html_view(h);
            }
            Some(h.text)
        },
        None => None,
    }
}

/// The handlers of the page that a node shows; none where it shows no page.
pub fn current_handlers(
    manager: &Manager,
    html_sym: Symbol,
    fetched: &Vec<(Member, Value)>,
) -> (res: Vec<(String, Value)>)
    ensures
        ({
            ||| exists|svc: Symbol|
                {
                    &&& #[trigger] shows_page(
                        manager@,
                        svc,
                        html_sym,
                        evaluator::fetched_view(fetched@),
                        evaluator::unbounded(),
                    )
                    &&& (page_of(
                        manager@,
                        svc,
                        html_sym,
                        evaluator::fetched_view(fetched@),
                        evaluator::unbounded(),
                    )->0).handlers == ast::handlers_view(res@)
                }
            ||| res@.len() == 0 && forall|svc: Symbol| #[trigger]
                page_of(
                    manager@,
                    svc,
                    html_sym,
                    evaluator::fetched_view(fetched@),
                    evaluator::unbounded(),
                ) is None
        }),
{
    match find_page(manager, html_sym, fetched) {
        Some(h) => {
            proof {
                ast::lemma_html_view(h);
            }
            h.handlers
        },
        None => Vec::new(),
    }
}

/// The page to show, where it changed and there is one.
pub fn page_to_render(last: &Option<String>, now: &Option<String>) -> (res: Option<String>)
    ensures
        types::opt_view(res) == (if types::opt_view(*now) != types::opt_view(*last) {
            types::opt_view(*now)
        } else {
            None
        }),
{
    match now {
        None => None,
        Some(text) => {
            if let Some(old_text) = last {
                if *old_text == *text {
                    return None;
                }
            }
            Some(text.clone())
        },
    }
}

/// The actions that clicks run.
pub fn list_click_actions(handlers: &Vec<(String, Value)>) -> (res: Vec<ClickAction>)
    ensures
        types::views(res@) == click_actions(ast::handlers_view(handlers@)),
{
    let ghost hs = ast::handlers_view(handlers@);
    let mut res: Vec<ClickAction> = Vec::new();
    let mut i: usize = 0;
    assert(types::views(res@) =~= click_actions(hs.take(0)));
    while i < handlers.len()
        invariant
            i <= handlers@.len(),
            hs == ast::handlers_view(handlers@),
            types::views(res@) == click_actions(hs.take(i as int)),
        decreases handlers@.len() - i,
    {
        assert(hs.take(i + 1).drop_last() =~= hs.take(i as int));
        assert(hs.take(i + 1).last() == (handlers@[i as int].0@, handlers@[i as int].1@));
        proof {
            ast::lemma_value_view(handlers@[i as int].1);
        }
        if handlers[i].0 == "onclick".to_owned() {
            if let Value::ActionClosure { stmts, env, service_net_id } = &handlers[i].1 {
                let ghost before = types::views(res@);
                let action = ClickAction {
                    stmts: clone_action_stmts(stmts),
                    env: clone_env(env),
                    service_net_id: service_net_id.clone(),
                };
                res.push(action);
                assert(types::views(res@) =~= before.push(action@));
            }
        }
        i += 1;
    }
    assert(hs.take(i as int) =~= hs);
    res
}

impl Manager {
    /// Load a program from a server: what it imports runs there, what it declares is created
    /// here. Gives what is reported.
    pub fn load_program(
        &mut self,
        program: &Vec<Stmt>,
        server: &Address,
        fetched: &Vec<(Member, Value)>,
    ) -> (res: Result<String, EvalError>)
        ensures
            load_outcome(
                old(self)@,
                types::views(program@),
                server@,
                evaluator::fetched_view(fetched@),
                evaluator::unbounded(),
                final(self)@,
                match res {
                    Ok(_) => None,
                    Err(e) => Some(e@),
                },
            ),
            res matches Ok(summary) ==> summary@ == summary_text(
                types::views(program@),
                old(self)@.names,
            ),
    {
        let ghost prog = types::views(program@);
        let ghost before = self@;
        let ghost fs = evaluator::fetched_view(fetched@);
        let ghost mut graphs: Seq<ServiceGraphs> = Seq::empty();
        let mut summary = String::new();
        let mut i: usize = 0;
        assert(prog.take(0) =~= Seq::<StmtV>::empty());
        assert(summary@ =~= loaded_texts(prog.take(0), before.names));
        while i < program.len()
            invariant
                i <= program@.len(),
                prog == types::views(program@),
                fs == evaluator::fetched_view(fetched@),
                before == old(self)@,
                graphs.len() == i,
                startup::graphs_fit(prog.take(i as int), graphs),
                loaded(
                    before,
                    prog.take(i as int),
                    graphs,
                    server@,
                    fs,
                    evaluator::unbounded(),
                ) == (self@, None::<EvalErrorV>),
                self@.names == before.names,
                summary@ == loaded_texts(prog.take(i as int), before.names),
            decreases program@.len() - i,
        {
            assert(prog.take(i + 1).drop_last() =~= prog.take(i as int));
            assert(prog.take(i + 1).last() == program@[i as int]@);
            proof {
                ast::lemma_stmt_view(program@[i as int]);
            }
            let ghost start = self@;
            let ghost mut g: ServiceGraphs = arbitrary();
            let mut failed: Option<EvalError> = None;
            match &program[i] {
                Stmt::Import { service_name, .. } => {
                    self.remote_services.insert(*service_name, server.clone());
                    assert(self@.remote =~= start.remote.insert(*service_name, server@));
                    summary.append("import ");
                    summary.append(self.interner.text(*service_name));
                    summary.append(" (remote)\n");
                },
                Stmt::Service { name, decls } => {
                    let ghost o = startup::origin_of(start, *name, fs, evaluator::unbounded());
                    let ghost ds = types::views(decls@);
                    let net_id = self.interner.text(*name).to_owned();
                    let r = self.create_service(*name, net_id.as_str(), decls, fetched);
                    let ghost error = match &r {
                        Ok(()) => None::<EvalErrorV>,
                        Err(e) => Some(e@),
                    };
                    proof {
                        g = choose|g: ServiceGraphs| #[trigger]
                            analysis::analyses(g, ds) && startup::created(start, o, ds, g) == (
                                self@,
                                error,
                            );
                        startup::lemma_created_keeps_names(start, o, ds, g);
                    }
                    match r {
                        Ok(()) => {
                            summary.append("service ");
                            summary.append(self.interner.text(*name));
                            summary.append(" instantiated\n");
                        },
                        Err(e) => {
                            failed = Some(e);
                        },
                    }
                },
                _ => {},
            }
            proof {
                let old_graphs = graphs;
                graphs = graphs.push(g);
                assert(graphs.drop_last() =~= old_graphs);
                assert(startup::graphs_fit(prog.take(i + 1), graphs)) by {
                    assert forall|k: int| 0 <= k < i + 1 implies (#[trigger] prog.take(
                        i + 1,
                    )[k] matches StmtV::Service { decls, .. } ==> analysis::analyses(
                        graphs[k],
                        decls,
                    )) by {
                        if k < i {
                            assert(prog.take(i as int)[k] == prog.take(i + 1)[k]);
                        }
                    }
                }
            }
            if let Some(e) = failed {
                return Err(e);
            }
            assert(summary@ =~= loaded_texts(prog.take(i + 1), before.names));
            i += 1;
        }
        assert(prog.take(i as int) =~= prog);
        if summary.as_str().unicode_len() == 0 {
            return Ok("(no services or imports found)".to_owned());
        }
        Ok(summary)
    }
}

} // verus!
