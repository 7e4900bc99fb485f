//! Bringing services up.

use std::collections::HashSet;
use vstd::prelude::*;

use crate::error::{Error, ErrorV};
use crate::net::types::Address;
use crate::runtime::ast;
use crate::runtime::ast::{clone_decls, Decl, DeclV, Stmt, StmtV, Value, ValueV};
use crate::runtime::collections::set_of;
use crate::runtime::graphs::analysis;
use crate::runtime::graphs::analysis::service_graphs;
use crate::runtime::graphs::ServiceGraphs;
use crate::runtime::imports;
use crate::runtime::imports::declared_services;
use crate::runtime::interner;
use crate::runtime::interner::Symbol;
use crate::runtime::interpreter::evaluator;
use crate::runtime::interpreter::evaluator::{eval, ContextV, EvalContext, EvalError, EvalErrorV};
use crate::runtime::manager;
use crate::runtime::manager::{Manager, ManagerV, ServiceState, ServiceV};
use crate::runtime::node::Node;
use crate::runtime::tt::types;
use crate::runtime::tt::types::Member;
use crate::runtime::txn::{VarLock, VarLockV, VarState, VarStateV};

verus! {

broadcast use {
    vstd::std_specs::hash::group_hash_axioms,
    types::views_push,
    ast::group_ast_views,
};

/// The state of a node after part of a service was created, and why it stopped.
pub type Creating = (ManagerV, Option<EvalErrorV>);

/// What the members of a service are created from: its name, its name on the network, the values
/// fetched from other nodes, and how deep evaluation may go.
pub struct OriginV {
    pub svc: Symbol,
    pub net_id: Seq<char>,
    pub fetched: Seq<(Member, ValueV)>,
    pub fuel: nat,
}

/// What an expression of a new service is evaluated in.
pub open spec fn creation_context(m: ManagerV, o: OriginV) -> ContextV {
    ContextV { services: m.services, svc: o.svc, net_id: o.net_id, fetched: o.fetched }
}

/// A variable that nobody holds and nobody wrote.
pub open spec fn initial_state(v: ValueV) -> VarStateV {
    VarStateV { value: v, lock: VarLockV::Unlocked, latest_write_txn: None }
}

/// Creating a member: a variable gets its first value, a definition its expression. A definition
/// is evaluated then too, and fails where it has no value; one that reads what is not there yet
/// is evaluated when it is read.
pub open spec fn member_created(m: ManagerV, o: OriginV, d: DeclV) -> Creating {
    let s = m.services[o.svc];
    match d {
        DeclV::VarDecl { name, val, .. } => match evaluator::evaluated(
            creation_context(m, o),
            Seq::empty(),
            val,
            o.fuel,
        ) {
            Ok(v) => (
                manager::with_service(m, o.svc, manager::with_var(s, name, initial_state(v))),
                None,
            ),
            Err(e) => (m, Some(e)),
        },
        DeclV::DefDecl { name, val, .. } => match evaluator::evaluated(
            creation_context(m, o),
            Seq::empty(),
            val,
            o.fuel,
        ) {
            Err(e) if e !is NeedLookup => (m, Some(e)),
            _ => (
                manager::with_service(
                    m,
                    o.svc,
                    ServiceV { defs: s.defs.insert(name, val), ..s },
                ),
                None,
            ),
        },
        DeclV::TableDecl { .. } => (m, None),
    }
}

/// Creating the members of a service, from the `i`th on, up to the first that fails.
pub open spec fn members_created(m: ManagerV, o: OriginV, decls: Seq<DeclV>, i: int) -> Creating
    decreases decls.len() - i,
{
    if i < 0 || i >= decls.len() {
        (m, None)
    } else {
        let r = member_created(m, o, decls[i]);
        if r.1 is Some {
            r
        } else {
            members_created(r.0, o, decls, i + 1)
        }
    }
}

/// A service without members.
pub open spec fn bare_service(net_id: Seq<char>, graphs: ServiceGraphs) -> ServiceV {
    ServiceV { net_id, vars: Map::empty(), defs: Map::empty(), graphs, service_lock: None }
}

/// Creating a service whose dependency graphs are `graphs`. The program of the node grows by it.
pub open spec fn created(
    m: ManagerV,
    o: OriginV,
    decls: Seq<DeclV>,
    graphs: ServiceGraphs,
) -> Creating {
    members_created(
        ManagerV {
            ast: m.ast.push(StmtV::Service { name: o.svc, decls }),
            ..manager::with_service(m, o.svc, bare_service(o.net_id, graphs))
        },
        o,
        decls,
        0,
    )
}

/// Whether these are the graphs of the services among statements, by statement.
pub open spec fn graphs_fit(prog: Seq<StmtV>, graphs: Seq<ServiceGraphs>) -> bool {
    &&& graphs.len() == prog.len()
    &&& forall|i: int|
        0 <= i < prog.len() ==> (#[trigger] prog[i] matches StmtV::Service { decls, .. }
            ==> analysis::analyses(graphs[i], decls))
}

/// What a service of the program is created from. Its name stands for it on the network.
pub open spec fn origin_of(
    m: ManagerV,
    svc: Symbol,
    fetched: Seq<(Member, ValueV)>,
    fuel: nat,
) -> OriginV {
    OriginV { svc, net_id: interner::name_text(m.names, svc), fetched, fuel }
}

/// Creating the services of a program, one after another, up to the first that fails.
pub open spec fn services_created(
    m: ManagerV,
    prog: Seq<StmtV>,
    graphs: Seq<ServiceGraphs>,
    fetched: Seq<(Member, ValueV)>,
    fuel: nat,
) -> Creating
    decreases prog.len(),
{
    if prog.len() == 0 {
        (m, None)
    } else {
        let r = services_created(m, prog.drop_last(), graphs.drop_last(), fetched, fuel);
        match prog.last() {
            StmtV::Service { name, decls } if r.1 is None => created(
                r.0,
                origin_of(r.0, name, fetched, fuel),
                decls,
                graphs.last(),
            ),
            _ => r,
        }
    }
}

/// How the services of a program came up: each in turn, all of them, or up to one that failed.
pub open spec fn brought_up(
    m: ManagerV,
    prog: Seq<StmtV>,
    fetched: Seq<(Member, ValueV)>,
    fuel: nat,
    m2: ManagerV,
    error: Option<EvalErrorV>,
) -> bool {
    exists|graphs: Seq<ServiceGraphs>|
        {
            &&& graphs.len() <= prog.len()
            &&& #[trigger] graphs_fit(prog.take(graphs.len() as int), graphs)
            &&& services_created(
                m,
                prog.take(graphs.len() as int),
                graphs,
                fetched,
                fuel,
            ) == (m2, error)
            &&& error is None ==> graphs.len() == prog.len()
        }
}

/// The lines that announce the services that run here.
pub open spec fn loaded_lines(
    services: Seq<(Symbol, Seq<DeclV>)>,
    names: Seq<Seq<char>>,
) -> Seq<Seq<char>> {
    services.map_values(
        |s: (Symbol, Seq<DeclV>)| loaded_line(interner::name_text(names, s.0)),
    )
}

/// The line that announces a service that runs elsewhere.
pub open spec fn remote_line(name: Seq<char>, url: Seq<char>) -> Seq<char> {
    "Remote service '"@ + name + "' registered at "@ + url
}

/// The line that warns that a service runs here although an address was given for it.
pub open spec fn ignored_line(name: Seq<char>, url: Seq<char>) -> Seq<char> {
    "Warning: '-i "@ + name + "="@ + url + "' has no effect: the program declares service '"@ + name
        + "'"@
}

/// The line that announces a service that runs here.
pub open spec fn loaded_line(name: Seq<char>) -> Seq<char> {
    "Service '"@ + name + "' loaded"@
}

/// What is reported of an expression that has no value.
pub open spec fn eval_error_text(e: EvalErrorV, names: Seq<Seq<char>>) -> Seq<char> {
    match e {
        EvalErrorV::RuntimeError(msg) => msg,
        EvalErrorV::NotImplemented => "not implemented"@,
        EvalErrorV::NeedLookup(at) => "no value of '"@ + interner::name_text(names, at.0) + "."@
            + interner::name_text(names, at.1) + "'"@,
    }
}

/// Where services run that do not run here: their names, and their addresses.
pub open spec fn pairs_view(ps: Seq<(String, String)>) -> Seq<(Seq<char>, Seq<char>)> {
    ps.map_values(|p: (String, String)| (p.0@, p.1@))
}

/// A node after it was told where one more service runs. One of the services in `local` runs here,
/// and stays so.
pub open spec fn remote_known(
    m: ManagerV,
    name: Seq<char>,
    url: Seq<char>,
    local: Set<Symbol>,
) -> ManagerV {
    let names = interner::interned(m.names, name);
    let sym = interner::symbol_in(names, name);
    ManagerV {
        names,
        remote: if local.contains(sym) {
            m.remote
        } else {
            m.remote.insert(sym, url)
        },
        ..m
    }
}

/// A node after it was told where these services run.
pub open spec fn remotes_known(
    m: ManagerV,
    remotes: Seq<(Seq<char>, Seq<char>)>,
    local: Set<Symbol>,
) -> ManagerV
    decreases remotes.len(),
{
    if remotes.len() == 0 {
        m
    } else {
        remote_known(
            remotes_known(m, remotes.drop_last(), local),
            remotes.last().0,
            remotes.last().1,
            local,
        )
    }
}

/// The lines that announce services that run elsewhere, or warn that one runs here.
pub open spec fn remote_lines(
    m: ManagerV,
    remotes: Seq<(Seq<char>, Seq<char>)>,
    local: Set<Symbol>,
) -> Seq<Seq<char>>
    decreases remotes.len(),
{
    if remotes.len() == 0 {
        Seq::empty()
    } else {
        let rest = remotes.drop_last();
        let (name, url) = remotes.last();
        let names = interner::interned(remotes_known(m, rest, local).names, name);
        remote_lines(m, rest, local).push(
            if local.contains(interner::symbol_in(names, name)) {
                ignored_line(name, url)
            } else {
                remote_line(name, url)
            },
        )
    }
}

/// The services that a program declares run here: an address given for one of them changes
/// nothing of where it is looked for.
pub proof fn declared_services_stay_here(
    m: ManagerV,
    remotes: Seq<(Seq<char>, Seq<char>)>,
    local: Set<Symbol>,
    svc: Symbol,
)
    requires
        local.contains(svc),
    ensures
        remotes_known(m, remotes, local).remote.contains_key(svc) <==> m.remote.contains_key(svc),
        m.remote.contains_key(svc) ==> remotes_known(m, remotes, local).remote[svc]
            == m.remote[svc],
    decreases remotes.len(),
{
    if remotes.len() > 0 {
        declared_services_stay_here(m, remotes.drop_last(), local, svc);
    }
}

/// The services that a program declares. What it imports is not among them.
pub fn local_service_names(prog: &[Stmt]) -> (res: HashSet<Symbol>)
    ensures
        res@ == imports::declared_in(types::views(prog@)).to_set(),
{
    set_of(&declared_services(prog))
}

/// What is reported of an expression that has no value.
pub fn format_eval_error(e: &EvalError, interner: &interner::Interner) -> (res: String)
    ensures
        res@ == eval_error_text(e@, interner@),
{
    match e {
        EvalError::RuntimeError(msg) => msg.clone(),
        EvalError::NotImplemented => "not implemented".to_owned(),
        EvalError::NeedLookup(at) => {
            let mut msg = "no value of '".to_owned();
            msg.append(interner.text(at.0));
            msg.append(".");
            msg.append(interner.text(at.1));
            msg.append("'");
            msg
        },
    }
}

/// The error that stops a node whose service could not be created.
pub fn service_error(e: &EvalError, interner: &interner::Interner) -> (res: Error)
    ensures
        res@ == ErrorV::Message("Service error: "@ + eval_error_text(e@, interner@)),
{
    let mut msg = "Service error: ".to_owned();
    msg.append(format_eval_error(e, interner).as_str());
    Error::Message(msg)
}

impl Manager {
    /// Remember where services run that do not run here, and announce them. One of the services in
    /// `local` runs here: a line warns that its address has no effect.
    pub fn register_remote_services(
        &mut self,
        remotes: &Vec<(String, String)>,
        local: &HashSet<Symbol>,
    ) -> (res: Vec<String>)
        ensures
            final(self)@ == remotes_known(old(self)@, pairs_view(remotes@), local@),
            types::views(res@) == remote_lines(old(self)@, pairs_view(remotes@), local@),
    {
        let ghost ps = pairs_view(remotes@);
        let mut res: Vec<String> = Vec::new();
        let mut i: usize = 0;
        assert(ps.take(0) =~= Seq::<(Seq<char>, Seq<char>)>::empty());
        assert(types::views(res@) =~= remote_lines(old(self)@, ps.take(0), local@));
        while i < remotes.len()
            invariant
                i <= remotes@.len(),
                ps == pairs_view(remotes@),
                self@ == remotes_known(old(self)@, ps.take(i as int), local@),
                types::views(res@) == remote_lines(old(self)@, ps.take(i as int), local@),
            decreases remotes@.len() - i,
        {
            assert(ps.take(i + 1).drop_last() =~= ps.take(i as int));
            assert(ps.take(i + 1).last() == (remotes@[i as int].0@, remotes@[i as int].1@));
            let name = remotes[i].0.as_str();
            let url = remotes[i].1.as_str();
            let ghost before = self@;
            let sym = self.interner.insert(name);
            if local.contains(&sym) {
                let mut line = "Warning: '-i ".to_owned();
                line.append(name);
                line.append("=");
                line.append(url);
                line.append("' has no effect: the program declares service '");
                line.append(name);
                line.append("'");
                assert(line@ == ignored_line(name@, url@));
                res.push(line);
            } else {
                self.remote_services.insert(sym, Address::new(url));
                assert(self@.remote =~= before.remote.insert(sym, url@));
                let mut line = "Remote service '".to_owned();
                line.append(name);
                line.append("' registered at ");
                line.append(url);
                assert(line@ == remote_line(name@, url@));
                res.push(line);
            }
            assert(self@ == remote_known(before, name@, url@, local@));
            i += 1;
        }
        assert(ps.take(i as int) =~= ps);
        res
    }

    /// Create a member of a service that is being created.
    fn create_member(
        &mut self,
        svc: Symbol,
        net_id: &str,
        d: &Decl,
        fetched: &Vec<(Member, Value)>,
    ) -> (res: Result<(), EvalError>)
        requires
            old(self)@.services.dom().contains(svc),
        ensures
            ({
                let r = member_created(
                    old(self)@,
                    OriginV {
                        svc,
                        net_id: net_id@,
                        fetched: evaluator::fetched_view(fetched@),
                        fuel: evaluator::unbounded(),
                    },
                    d@,
                );
                &&& final(self)@ == r.0
                &&& match res {
                    Ok(()) => r.1 is None,
                    Err(e) => r.1 == Some(e@),
                }
            }),
            final(self)@.services.dom() == old(self)@.services.dom(),
    {
        let ghost before = self@;
        match d {
            Decl::VarDecl { name, val, .. } => {
                let env: Vec<(Symbol, Value)> = Vec::new();
                assert(ast::env_view(env@) =~= Seq::<(Symbol, ValueV)>::empty());
                let ctx = EvalContext {
                    services: &self.services,
                    service_name: svc,
                    service_net_id: net_id,
                    fetched,
                };
                match eval(val, &env, &ctx) {
                    Err(e) => Err(e),
                    Ok(v) => {
                        let ghost value = v@;
                        if let Some(s) = self.services.remove(&svc) {
                            let mut s = s;
                            let ghost s0 = s@;
                            s.vars.insert(
                                *name,
                                VarState {
                                    value: v,
                                    lock: VarLock::Unlocked,
                                    latest_write_txn: None,
                                },
                            );
                            assert(s@.vars =~= s0.vars.insert(*name, initial_state(value)));
                            self.services.insert(svc, s);
                            assert(self@.services =~= before.services.insert(svc, s@));
                        }
                        Ok(())
                    },
                }
            },
            Decl::DefDecl { name, val, .. } => {
                let env: Vec<(Symbol, Value)> = Vec::new();
                assert(ast::env_view(env@) =~= Seq::<(Symbol, ValueV)>::empty());
                let ctx = EvalContext {
                    services: &self.services,
                    service_name: svc,
                    service_net_id: net_id,
                    fetched,
                };
                match eval(val, &env, &ctx) {
                    Ok(_) | Err(EvalError::NeedLookup(_)) => {},
                    Err(e) => {
                        return Err(e);
                    },
                }
                if let Some(s) = self.services.remove(&svc) {
                    let mut s = s;
                    let ghost s0 = s@;
                    s.defs.insert(*name, val.clone());
                    assert(s@.defs =~= s0.defs.insert(*name, val@));
                    self.services.insert(svc, s);
                    assert(self@.services =~= before.services.insert(svc, s@));
                }
                Ok(())
            },
            Decl::TableDecl { .. } => Ok(()),
        }
    }

    /// Create a service: its variables get their first values, one after another, and its
    /// definitions their expressions, which are evaluated once.
    pub fn create_service(
        &mut self,
        svc: Symbol,
        net_id: &str,
        decls: &Vec<Decl>,
        fetched: &Vec<(Member, Value)>,
    ) -> (res: Result<(), EvalError>)
        ensures
            exists|graphs: ServiceGraphs| #[trigger]
                analysis::analyses(graphs, types::views(decls@)) && {
                    let r = created(
                        old(self)@,
                        OriginV {
                            svc,
                            net_id: net_id@,
                            fetched: evaluator::fetched_view(fetched@),
                            fuel: evaluator::unbounded(),
                        },
                        types::views(decls@),
                        graphs,
                    );
                    &&& final(self)@ == r.0
                    &&& match res {
                        Ok(()) => r.1 is None,
                        Err(e) => r.1 == Some(e@),
                    }
                },
    {
        let ghost before = self@;
        let ghost ds = types::views(decls@);
        let ghost o = OriginV {
            svc,
            net_id: net_id@,
            fetched: evaluator::fetched_view(fetched@),
            fuel: evaluator::unbounded(),
        };
        let graphs = service_graphs(decls);
        let ghost g = graphs;
        let mut s = ServiceState::new(net_id);
        s.graphs = graphs;
        self.services.insert(svc, s);
        let stmt = Stmt::Service { name: svc, decls: clone_decls(decls) };
        proof {
            ast::lemma_stmt_view(stmt);
        }
        self.unified_ast.push(stmt);
        assert(self@.services =~= before.services.insert(svc, bare_service(net_id@, g)));
        let ghost start = self@;
        assert(created(before, o, ds, g) == members_created(start, o, ds, 0));
        let mut i: usize = 0;
        while i < decls.len()
            invariant
                i <= decls@.len(),
                ds == types::views(decls@),
                o == (OriginV {
                    svc,
                    net_id: net_id@,
                    fetched: evaluator::fetched_view(fetched@),
                    fuel: evaluator::unbounded(),
                }),
                before == old(self)@,
                analysis::analyses(g, ds),
                self@.services.dom().contains(svc),
                created(before, o, ds, g) == members_created(self@, o, ds, i as int),
            decreases decls@.len() - i,
        {
            assert(ds[i as int] == decls@[i as int]@);
            match self.create_member(svc, net_id, &decls[i], fetched) {
                Ok(()) => {},
                Err(e) => {
                    return Err(e);
                },
            }
            i += 1;
        }
        Ok(())
    }

    /// Create the services of a program, and announce them.
    pub fn create_services(
        &mut self,
        program: &[Stmt],
        fetched: &Vec<(Member, Value)>,
    ) -> (res: Result<Vec<String>, EvalError>)
        ensures
            brought_up(
                old(self)@,
                types::views(program@),
                evaluator::fetched_view(fetched@),
                evaluator::unbounded(),
                final(self)@,
                match res {
                    Ok(_) => None,
                    Err(e) => Some(e@),
                },
            ),
            final(self)@.names == old(self)@.names,
            final(self)@.remote == old(self)@.remote,
            res matches Ok(lines) ==> types::views(lines@) == loaded_lines(
                ast::services(types::views(program@)),
                old(self)@.names,
            ),
    {
        let ghost prog = types::views(program@);
        let ghost before = self@;
        let ghost fs = evaluator::fetched_view(fetched@);
        let ghost mut graphs: Seq<ServiceGraphs> = Seq::empty();
        let mut lines: Vec<String> = Vec::new();
        let mut i: usize = 0;
        assert(prog.take(0) =~= Seq::<StmtV>::empty());
        assert(types::views(lines@) =~= loaded_lines(ast::services(prog.take(0)), before.names));
        while i < program.len()
            invariant
                i <= program@.len(),
                prog == types::views(program@),
                fs == evaluator::fetched_view(fetched@),
                before == old(self)@,
                graphs.len() == i,
                graphs_fit(prog.take(i as int), graphs),
                services_created(
                    before,
                    prog.take(i as int),
                    graphs,
                    fs,
                    evaluator::unbounded(),
                ) == (self@, None::<EvalErrorV>),
                self@.names == before.names,
                self@.remote == before.remote,
                types::views(lines@) == loaded_lines(
                    ast::services(prog.take(i as int)),
                    before.names,
                ),
            decreases program@.len() - i,
        {
            assert(prog.take(i + 1).drop_last() =~= prog.take(i as int));
            assert(prog.take(i + 1).last() == program@[i as int]@);
            proof {
                ast::lemma_stmt_view(program@[i as int]);
            }
            let ghost start = self@;
            if let Stmt::Service { name, decls } = &program[i] {
                let ghost o = origin_of(start, *name, fs, evaluator::unbounded());
                let ghost ds = types::views(decls@);
                let net_id = self.interner.text(*name).to_owned();
                let r = self.create_service(*name, net_id.as_str(), decls, fetched);
                let ghost error = match &r {
                    Ok(()) => None::<EvalErrorV>,
                    Err(e) => Some(e@),
                };
                proof {
                    let g = choose|g: ServiceGraphs| #[trigger]
                        analysis::analyses(g, ds) && created(start, o, ds, g) == (
                            self@,
                            error,
                        );
                    lemma_created_keeps_names(start, o, ds, g);
                    let old_graphs = graphs;
                    graphs = graphs.push(g);
                    assert(graphs.drop_last() =~= old_graphs);
                    assert(graphs_fit(prog.take(i + 1), graphs)) by {
                        assert forall|k: int| 0 <= k < i + 1 implies (#[trigger] prog.take(
                            i + 1,
                        )[k] matches StmtV::Service { decls, .. } ==> analysis::analyses(
                            graphs[k],
                            decls,
                        )) by {
                            if k < i {
                                assert(prog.take(i as int)[k] == prog.take(i + 1)[k]);
                            }
                        }
                    }
                }
                match r {
                    Ok(()) => {},
                    Err(e) => {
                        return Err(e);
                    },
                }
                let mut line = "Service '".to_owned();
                line.append(self.interner.text(*name));
                line.append("' loaded");
                lines.push(line);
                assert(types::views(lines@) =~= loaded_lines(
                    ast::services(prog.take(i + 1)),
                    before.names,
                ));
            } else {
                proof {
                    let old_graphs = graphs;
                    graphs = graphs.push(arbitrary());
                    assert(graphs.drop_last() =~= old_graphs);
                    assert(graphs_fit(prog.take(i + 1), graphs)) by {
                        assert forall|k: int| 0 <= k < i + 1 implies (#[trigger] prog.take(
                            i + 1,
                        )[k] matches StmtV::Service { decls, .. } ==> analysis::analyses(
                            graphs[k],
                            decls,
                        )) by {
                            if k < i {
                                assert(prog.take(i as int)[k] == prog.take(i + 1)[k]);
                            }
                        }
                    }
                }
            }
            i += 1;
        }
        assert(prog.take(i as int) =~= prog);
        Ok(lines)
    }
}

/// Creating members keeps the names of the node, and where services run that do not run there.
proof fn lemma_members_keep_names(m: ManagerV, o: OriginV, decls: Seq<DeclV>, i: int)
    ensures
        members_created(m, o, decls, i).0.names == m.names,
        members_created(m, o, decls, i).0.remote == m.remote,
    decreases decls.len() - i,
{
    if 0 <= i < decls.len() {
        lemma_members_keep_names(member_created(m, o, decls[i]).0, o, decls, i + 1);
    }
}

/// Creating a service keeps the names of the node, and where services run that do not run there.
pub proof fn lemma_created_keeps_names(m: ManagerV, o: OriginV, decls: Seq<DeclV>, g: ServiceGraphs)
    ensures
        created(m, o, decls, g).0.names == m.names,
        created(m, o, decls, g).0.remote == m.remote,
{
    lemma_members_keep_names(
        ManagerV {
            ast: m.ast.push(StmtV::Service { name: o.svc, decls }),
            ..manager::with_service(m, o.svc, bare_service(o.net_id, g))
        },
        o,
        decls,
        0,
    );
}

/// Why a node could not be brought up.
pub enum StartupError {
    /// A service could not be created.
    Failed(Error),
    /// The value of a member is to be read first, from the node at an address.
    Read { addr: Address, service: String, name: String, member: Member },
}

/// Whether a node reports what stopped it. A member that is not known here is read from the node
/// that its service runs on, where there is one.
pub open spec fn stopped_by(res: StartupError, e: EvalErrorV, m: ManagerV) -> bool {
    match e {
        EvalErrorV::NeedLookup(at) if m.remote.contains_key(at.0) => {
            &&& res matches StartupError::Read { addr, service, name, member }
            &&& addr@ == m.remote[at.0]
            &&& service@ == interner::name_text(m.names, at.0)
            &&& name@ == interner::name_text(m.names, at.1)
            &&& member == at
        },
        _ => res matches StartupError::Failed(err) && err@ == ErrorV::Message(
            "Service error: "@ + eval_error_text(e, m.names),
        ),
    }
}

/// How bringing up the services of a program failed, and what is reported.
pub open spec fn brought_down(
    m: ManagerV,
    prog: Seq<StmtV>,
    fetched: Seq<(Member, ValueV)>,
    fuel: nat,
    m2: ManagerV,
    e: EvalErrorV,
    res: StartupError,
) -> bool {
    brought_up(m, prog, fetched, fuel, m2, Some(e)) && stopped_by(res, e, m)
}

/// A node that runs nothing yet.
pub open spec fn blank_manager(names: Seq<Seq<char>>) -> ManagerV {
    ManagerV {
        names,
        node_id: 0,
        ast: Seq::empty(),
        types: Seq::empty(),
        services: Map::empty(),
        remote: Map::empty(),
    }
}

impl Node {
    /// Go over to running, with nothing running yet.
    pub fn start(self) -> (res: Manager)
        ensures
            res@ == blank_manager(self.interner@),
    {
        Manager::new(self.interner)
    }

    /// Go over to running: remember where services run that the program does not declare, and
    /// create the services of the program. The lines announce both, and warn of an address given
    /// for a service that the program declares.
    pub fn on_manager_startup(
        self,
        remote_url_map: &Vec<(String, String)>,
        local_ast: &[Stmt],
        fetched: &Vec<(Member, Value)>,
    ) -> (res: Result<(Manager, Vec<String>), StartupError>)
        ensures
            res matches Ok((m, lines)) ==> {
                &&& brought_up(
                    remotes_known(
                        blank_manager(self.interner@),
                        pairs_view(remote_url_map@),
                        imports::declared_in(types::views(local_ast@)).to_set(),
                    ),
                    types::views(local_ast@),
                    evaluator::fetched_view(fetched@),
                    evaluator::unbounded(),
                    m@,
                    None,
                )
                &&& types::views(lines@) == remote_lines(
                    blank_manager(self.interner@),
                    pairs_view(remote_url_map@),
                    imports::declared_in(types::views(local_ast@)).to_set(),
                ) + loaded_lines(
                    ast::services(types::views(local_ast@)),
                    remotes_known(
                        blank_manager(self.interner@),
                        pairs_view(remote_url_map@),
                        imports::declared_in(types::views(local_ast@)).to_set(),
                    ).names,
                )
            },
            res matches Err(stopped) ==> exists|m2: ManagerV, e: EvalErrorV| #[trigger]
                brought_down(
                    remotes_known(
                        blank_manager(self.interner@),
                        pairs_view(remote_url_map@),
                        imports::declared_in(types::views(local_ast@)).to_set(),
                    ),
                    types::views(local_ast@),
                    evaluator::fetched_view(fetched@),
                    evaluator::unbounded(),
                    m2,
                    e,
                    stopped,
                ),
    {
        let mut manager = Manager::new(self.interner);
        let local = local_service_names(local_ast);
        let mut lines = manager.register_remote_services(remote_url_map, &local);
        let ghost known = manager@;
        assert(known == remotes_known(
            blank_manager(self.interner@),
            pairs_view(remote_url_map@),
            local@,
        ));
        match manager.create_services(local_ast, fetched) {
            Ok(loaded) => {
                let mut loaded = loaded;
                let ghost a = lines@;
                let ghost b = loaded@;
                lines.append(&mut loaded);
                assert(types::views(a + b) =~= types::views(a) + types::views(b));
                assert(lines@ =~= a + b);
                Ok((manager, lines))
            },
            Err(e) => {
                let ghost cause = e@;
                let failed = StartupError::Failed(service_error(&e, &manager.interner));
                let stopped = match e {
                    EvalError::NeedLookup(member) => match manager.remote_services.get(&member.0) {
                        Some(addr) => StartupError::Read {
                            addr: addr.clone(),
                            service: manager.interner.text(member.0).to_owned(),
                            name: manager.interner.text(member.1).to_owned(),
                            member,
                        },
                        None => failed,
                    },
                    _ => failed,
                };
                assert(brought_down(
                    known,
                    types::views(local_ast@),
                    evaluator::fetched_view(fetched@),
                    evaluator::unbounded(),
                    manager@,
                    cause,
                    stopped,
                ));
                Err(stopped)
            },
        }
    }
}

} // verus!
