//! The state of a running node.

use std::collections::HashMap;
use vstd::prelude::*;

use crate::net::types::{Address, TxnId};
use crate::runtime::ast::{Expr, ExprV, Stmt, StmtV};
use crate::runtime::graphs::ServiceGraphs;
use crate::runtime::interner;
use crate::runtime::interner::{Interner, Symbol};
use crate::runtime::tt::check;
use crate::runtime::tt::check::Known;
use crate::runtime::tt::flow::Flow;
use crate::runtime::tt::types;
use crate::runtime::tt::types::Member;
use crate::runtime::txn;
use crate::runtime::txn::{LockGroup, LockGroupV, LockTxn, VarState, VarStateV};

verus! {

broadcast use vstd::std_specs::hash::group_hash_axioms;

/// A running service.
pub struct ServiceState {
    /// The name of the service on the network.
    pub net_id: String,
    /// Values of the variables.
    pub vars: HashMap<Symbol, VarState>,
    /// Expressions of the definitions.
    pub defs: HashMap<Symbol, Expr>,
    /// Who is told of which change.
    pub graphs: ServiceGraphs,
    /// The transaction that holds the whole service.
    pub service_lock: Option<TxnId>,
}

/// What a `ServiceState` stands for.
pub struct ServiceV {
    pub net_id: Seq<char>,
    pub vars: Map<Symbol, VarStateV>,
    pub defs: Map<Symbol, ExprV>,
    pub graphs: ServiceGraphs,
    pub service_lock: Option<TxnId>,
}

pub open spec fn vars_view(vars: Map<Symbol, VarState>) -> Map<Symbol, VarStateV> {
    vars.map_values(|v: VarState| v@)
}

pub open spec fn defs_view(defs: Map<Symbol, Expr>) -> Map<Symbol, ExprV> {
    defs.map_values(|e: Expr| e@)
}

impl View for ServiceState {
    type V = ServiceV;

    open spec fn view(&self) -> ServiceV {
        ServiceV {
            net_id: self.net_id@,
            vars: vars_view(self.vars@),
            defs: defs_view(self.defs@),
            graphs: self.graphs,
            service_lock: self.service_lock,
        }
    }
}

/// The state of a running node.
pub struct Manager {
    /// The names of the process.
    pub interner: Interner,
    /// The number of the node.
    pub node_id: u64,
    /// The program that is running.
    pub unified_ast: Vec<Stmt>,
    /// The types of its members.
    pub local_services: Vec<(Member, Flow)>,
    /// The services that run here.
    pub services: HashMap<Symbol, ServiceState>,
    /// The addresses of services that run elsewhere.
    pub remote_services: HashMap<Symbol, Address>,
}

/// What a `Manager` stands for.
pub struct ManagerV {
    pub names: Seq<Seq<char>>,
    pub node_id: u64,
    pub ast: Seq<StmtV>,
    pub types: Known,
    pub services: Map<Symbol, ServiceV>,
    pub remote: Map<Symbol, Seq<char>>,
}

pub open spec fn services_view(services: Map<Symbol, ServiceState>) -> Map<Symbol, ServiceV> {
    services.map_values(|s: ServiceState| s@)
}

pub open spec fn remote_view(remote: Map<Symbol, Address>) -> Map<Symbol, Seq<char>> {
    remote.map_values(|a: Address| a@)
}

impl View for Manager {
    type V = ManagerV;

    open spec fn view(&self) -> ManagerV {
        ManagerV {
            names: self.interner@,
            node_id: self.node_id,
            ast: types::views(self.unified_ast@),
            types: check::known_view(self.local_services@),
            services: services_view(self.services@),
            remote: remote_view(self.remote_services@),
        }
    }
}

/// What stands in the way of a lock.
#[derive(Debug, Clone, Copy, PartialEq, Eq, Structural)]
pub enum LockConflict {
    /// Another transaction holds the service.
    Service(Symbol),
    /// Another transaction holds the variable.
    Variable(Symbol, Symbol),
}

/// The state of a node after locking, and what stood in the way.
pub type Locking = (ManagerV, Option<LockConflict>);

/// A service with another variable state.
pub open spec fn with_var(s: ServiceV, x: Symbol, v: VarStateV) -> ServiceV {
    ServiceV { vars: s.vars.insert(x, v), ..s }
}

/// A node with another service state.
pub open spec fn with_service(m: ManagerV, svc: Symbol, s: ServiceV) -> ManagerV {
    ManagerV { services: m.services.insert(svc, s), ..m }
}

/// Whether a transaction other than `id` holds a service.
pub open spec fn held_by_other(s: ServiceV, id: TxnId) -> bool {
    match s.service_lock {
        Some(holder) => holder != id,
        None => false,
    }
}

/// Locking a service. A service that does not run here is not locked here.
pub open spec fn lock_service(m: ManagerV, svc: Symbol, id: TxnId) -> Locking {
    if !m.services.dom().contains(svc) {
        (m, None)
    } else if held_by_other(m.services[svc], id) {
        (m, Some(LockConflict::Service(svc)))
    } else {
        (
            with_service(m, svc, ServiceV { service_lock: Some(id), ..m.services[svc] }),
            None,
        )
    }
}

/// Locking a variable. A variable that does not exist here is not locked here.
pub open spec fn lock_var(
    m: ManagerV,
    svc: Symbol,
    x: Symbol,
    write: bool,
    id: TxnId,
) -> Locking {
    if !m.services.dom().contains(svc) {
        (m, None)
    } else {
        let s = m.services[svc];
        if held_by_other(s, id) {
            (m, Some(LockConflict::Service(svc)))
        } else if !s.vars.dom().contains(x) {
            (m, None)
        } else if !txn::free_for(s.vars[x].lock, id, write) {
            (m, Some(LockConflict::Variable(svc, x)))
        } else {
            (
                with_service(
                    m,
                    svc,
                    with_var(
                        s,
                        x,
                        VarStateV { lock: txn::taken(s.vars[x].lock, id, write), ..s.vars[x] },
                    ),
                ),
                None,
            )
        }
    }
}

/// Locking the variables with these names, from the `i`th on, up to the first conflict.
pub open spec fn lock_vars(
    m: ManagerV,
    svc: Symbol,
    names: Seq<Seq<char>>,
    i: int,
    write: bool,
    id: TxnId,
) -> Locking
    decreases names.len() - i,
{
    if i < 0 || i >= names.len() {
        (m, None)
    } else if !m.names.contains(names[i]) {
        lock_vars(m, svc, names, i + 1, write, id)
    } else {
        let r = lock_var(m, svc, interner::symbol_in(m.names, names[i]), write, id);
        if r.1 is Some {
            r
        } else {
            lock_vars(r.0, svc, names, i + 1, write, id)
        }
    }
}

/// Taking the locks that a transaction needs at a service: the service, then what it reads,
/// then what it writes.
pub open spec fn lock_group(m: ManagerV, name: Seq<char>, g: LockGroupV, id: TxnId) -> Locking {
    if !m.names.contains(name) {
        (m, None)
    } else {
        let svc = interner::symbol_in(m.names, name);
        let whole = if g.service_level_lock {
            lock_service(m, svc, id)
        } else {
            (m, None)
        };
        if whole.1 is Some {
            whole
        } else {
            let reads = lock_vars(whole.0, svc, g.reads, 0, false, id);
            if reads.1 is Some {
                reads
            } else {
                lock_vars(reads.0, svc, g.writes, 0, true, id)
            }
        }
    }
}

/// Taking the locks of each group, from the `i`th on, up to the first conflict.
pub open spec fn lock_groups(
    m: ManagerV,
    groups: Seq<(Seq<char>, LockGroupV)>,
    i: int,
    id: TxnId,
) -> Locking
    decreases groups.len() - i,
{
    if i < 0 || i >= groups.len() {
        (m, None)
    } else {
        let r = lock_group(m, groups[i].0, groups[i].1, id);
        if r.1 is Some {
            r
        } else {
            lock_groups(r.0, groups, i + 1, id)
        }
    }
}

/// A variable after a transaction let go of it.
pub open spec fn var_released(v: VarStateV, id: TxnId) -> VarStateV {
    VarStateV { lock: txn::let_go(v.lock, id), ..v }
}

/// A service after a transaction let go of all it holds there.
pub open spec fn service_released(s: ServiceV, id: TxnId) -> ServiceV {
    ServiceV {
        vars: s.vars.map_values(|v: VarStateV| var_released(v, id)),
        service_lock: if s.service_lock == Some(id) {
            None
        } else {
            s.service_lock
        },
        ..s
    }
}

/// A node after a transaction let go of all it holds there.
pub open spec fn released(m: ManagerV, id: TxnId) -> ManagerV {
    ManagerV { services: m.services.map_values(|s: ServiceV| service_released(s, id)), ..m }
}

pub open spec fn groups_view(gs: Seq<(String, LockGroup)>) -> Seq<(Seq<char>, LockGroupV)> {
    gs.map_values(|g: (String, LockGroup)| (g.0@, g.1@))
}

/// Locking a service and letting go comes to letting go.
proof fn lemma_release_service(m: ManagerV, svc: Symbol, id: TxnId)
    ensures
        released(lock_service(m, svc, id).0, id) == released(m, id),
{
    assert(released(lock_service(m, svc, id).0, id).services =~= released(m, id).services);
}

/// Locking a variable and letting go comes to letting go.
proof fn lemma_release_var(m: ManagerV, svc: Symbol, x: Symbol, write: bool, id: TxnId)
    ensures
        released(lock_var(m, svc, x, write, id).0, id) == released(m, id),
{
    if m.services.dom().contains(svc) {
        let s = m.services[svc];
        if s.vars.dom().contains(x) && txn::free_for(s.vars[x].lock, id, write) {
            txn::letting_go_undoes_taking(s.vars[x].lock, id, write);
            let v = VarStateV { lock: txn::taken(s.vars[x].lock, id, write), ..s.vars[x] };
            assert(service_released(with_var(s, x, v), id).vars =~= service_released(s, id).vars);
        }
    }
    assert(released(lock_var(m, svc, x, write, id).0, id).services =~= released(m, id).services);
}

/// Locking variables and letting go comes to letting go.
proof fn lemma_release_vars(
    m: ManagerV,
    svc: Symbol,
    names: Seq<Seq<char>>,
    i: int,
    write: bool,
    id: TxnId,
)
    ensures
        released(lock_vars(m, svc, names, i, write, id).0, id) == released(m, id),
    decreases names.len() - i,
{
    if 0 <= i < names.len() {
        if !m.names.contains(names[i]) {
            lemma_release_vars(m, svc, names, i + 1, write, id);
        } else {
            let x = interner::symbol_in(m.names, names[i]);
            lemma_release_var(m, svc, x, write, id);
            lemma_release_vars(
                lock_var(m, svc, x, write, id).0,
                svc,
                names,
                i + 1,
                write,
                id,
            );
        }
    }
}

/// Taking locks, whether all of them or up to a conflict, and then letting go of all that the
/// transaction holds, comes to letting go: a transaction that held nothing leaves no trace.
pub proof fn releasing_undoes_locking(
    m: ManagerV,
    groups: Seq<(Seq<char>, LockGroupV)>,
    i: int,
    id: TxnId,
)
    ensures
        released(lock_groups(m, groups, i, id).0, id) == released(m, id),
    decreases groups.len() - i,
{
    if 0 <= i < groups.len() {
        let g = groups[i].1;
        let r = lock_group(m, groups[i].0, g, id);
        if m.names.contains(groups[i].0) {
            let svc = interner::symbol_in(m.names, groups[i].0);
            lemma_release_service(m, svc, id);
            let whole = if g.service_level_lock {
                lock_service(m, svc, id)
            } else {
                (m, None)
            };
            lemma_release_vars(whole.0, svc, g.reads, 0, false, id);
            let reads = lock_vars(whole.0, svc, g.reads, 0, false, id);
            lemma_release_vars(reads.0, svc, g.writes, 0, true, id);
        }
        releasing_undoes_locking(r.0, groups, i + 1, id);
    }
}

/// The keys of a map, each once.
pub fn keys_of<V>(map: &HashMap<Symbol, V>) -> (res: Vec<Symbol>)
    ensures
        res@.no_duplicates(),
        forall|k: Symbol| #[trigger] res@.contains(k) <==> map@.dom().contains(k),
{
    let mut res: Vec<Symbol> = Vec::new();
    for k in it: map.keys()
        invariant
            it.seq().unref().to_set() == map@.dom(),
            it.seq().unref().no_duplicates(),
            res@ == it.seq().unref().take(it.index()),
    {
        res.push(*k);
        assert(res@ =~= it.seq().unref().take(it.index() + 1));
    }
    proof {
        let all = vstd::std_specs::iter::IteratorSpec::remaining(
            &vstd::std_specs::hash::spec_keys_iter(map),
        ).unref();
        assert(all.take(all.len() as int) =~= all);
    }
    assert forall|k: Symbol| #[trigger] res@.contains(k) <==> map@.dom().contains(k) by {
        assert(res@.to_set().contains(k) <==> res@.contains(k));
    }
    res
}

impl ServiceState {
    /// A service without members.
    pub fn new(net_id: &str) -> (res: ServiceState)
        ensures
            res@.net_id == net_id@,
            res@.vars == Map::<Symbol, VarStateV>::empty(),
            res@.defs == Map::<Symbol, ExprV>::empty(),
            res@.graphs.is_blank(),
            res@.service_lock is None,
    {
        let res = ServiceState {
            net_id: net_id.to_owned(),
            vars: HashMap::new(),
            defs: HashMap::new(),
            graphs: ServiceGraphs::new(),
            service_lock: None,
        };
        assert(res@.vars =~= Map::<Symbol, VarStateV>::empty());
        assert(res@.defs =~= Map::<Symbol, ExprV>::empty());
        res
    }
}

impl ServiceState {
    /// The service after a transaction let go of all it holds there.
    fn release(self, id: TxnId) -> (res: ServiceState)
        ensures
            res@ == service_released(self@, id),
    {
        let ghost before = self@;
        let mut s = self;
        if let Some(holder) = s.service_lock {
            if holder == id {
                s.service_lock = None;
            }
        }
        let keys = keys_of(&s.vars);
        let ghost lock = s.service_lock;
        let mut i: usize = 0;
        while i < keys.len()
            invariant
                i <= keys@.len(),
                keys@.no_duplicates(),
                forall|k: Symbol| #[trigger] keys@.contains(k) <==> before.vars.dom().contains(k),
                s@.vars.dom() == before.vars.dom(),
                forall|k: int|
                    0 <= k < i ==> s@.vars[#[trigger] keys@[k]] == var_released(
                        before.vars[keys@[k]],
                        id,
                    ),
                forall|k: int|
                    i <= k < keys@.len() ==> s@.vars[#[trigger] keys@[k]]
                        == before.vars[keys@[k]],
                s@ == (ServiceV { vars: s@.vars, service_lock: lock, ..before }),
            decreases keys@.len() - i,
        {
            let key = keys[i];
            assert(keys@.contains(keys@[i as int]));
            let ghost start = s@;
            if let Some(v) = s.vars.remove(&key) {
                let VarState { value, lock, latest_write_txn } = v;
                let v = VarState { value, lock: lock.release(id), latest_write_txn };
                s.vars.insert(key, v);
                assert(s@.vars =~= start.vars.insert(key, v@));
            }
            i += 1;
        }
        assert(s@.vars =~= service_released(before, id).vars) by {
            assert forall|k: Symbol| before.vars.dom().contains(k) implies s@.vars[k]
                == service_released(before, id).vars[k] by {
                assert(keys@.contains(k));
                let j = choose|j: int| 0 <= j < keys@.len() && keys@[j] == k;
                assert(s@.vars[keys@[j]] == var_released(before.vars[k], id));
            }
        }
        s
    }
}

impl Manager {
    /// A node that runs nothing yet.
    pub fn new(interner: Interner) -> (res: Manager)
        ensures
            res@ == (ManagerV {
                names: interner@,
                node_id: 0,
                ast: Seq::empty(),
                types: Seq::empty(),
                services: Map::empty(),
                remote: Map::empty(),
            }),
    {
        let res = Manager {
            interner,
            node_id: 0,
            unified_ast: Vec::new(),
            local_services: Vec::new(),
            services: HashMap::new(),
            remote_services: HashMap::new(),
        };
        assert(res@.ast =~= Seq::<StmtV>::empty());
        assert(res@.types =~= Seq::<(Member, crate::runtime::tt::flow::FlowV)>::empty());
        assert(res@.services =~= Map::<Symbol, ServiceV>::empty());
        assert(res@.remote =~= Map::<Symbol, Seq<char>>::empty());
        res
    }

    /// Lock a service for a transaction.
    pub fn acquire_service_lock(&mut self, svc: Symbol, id: &TxnId) -> (res: Result<
        (),
        LockConflict,
    >)
        ensures
            final(self)@ == lock_service(old(self)@, svc, *id).0,
            match res {
                Ok(()) => lock_service(old(self)@, svc, *id).1 is None,
                Err(c) => lock_service(old(self)@, svc, *id).1 == Some(c),
            },
    {
        let ghost before = self@;
        match self.services.remove(&svc) {
            None => {
                assert(self@.services =~= before.services);
                Ok(())
            },
            Some(s) => {
                let mut s = s;
                let mut res: Result<(), LockConflict> = Ok(());
                match s.service_lock {
                    Some(holder) if holder != *id => {
                        res = Err(LockConflict::Service(svc));
                    },
                    _ => {
                        s.service_lock = Some(*id);
                    },
                }
                self.services.insert(svc, s);
                assert(self@.services =~= lock_service(before, svc, *id).0.services);
                res
            },
        }
    }

    /// Lock a variable for a transaction.
    fn acquire_var_lock(&mut self, svc: Symbol, x: Symbol, write: bool, id: &TxnId) -> (res: Result<
        (),
        LockConflict,
    >)
        ensures
            final(self)@ == lock_var(old(self)@, svc, x, write, *id).0,
            match res {
                Ok(()) => lock_var(old(self)@, svc, x, write, *id).1 is None,
                Err(c) => lock_var(old(self)@, svc, x, write, *id).1 == Some(c),
            },
    {
        let ghost before = self@;
        match self.services.remove(&svc) {
            None => {
                assert(self@.services =~= before.services);
                Ok(())
            },
            Some(s) => {
                let mut s = s;
                let ghost s0 = s@;
                let mut res: Result<(), LockConflict> = Ok(());
                match s.service_lock {
                    Some(holder) if holder != *id => {
                        res = Err(LockConflict::Service(svc));
                    },
                    _ => {
                        if let Some(v) = s.vars.remove(&x) {
                            if v.lock.is_free_for(*id, write) {
                                let VarState { value, lock, latest_write_txn } = v;
                                let v = VarState {
                                    value,
                                    lock: lock.take(*id, write),
                                    latest_write_txn,
                                };
                                s.vars.insert(x, v);
                            } else {
                                res = Err(LockConflict::Variable(svc, x));
                                s.vars.insert(x, v);
                            }
                        }
                    },
                }
                assert(s@.vars =~= if lock_var(before, svc, x, write, *id).1 is None
                    && s0.vars.dom().contains(x) {
                    s0.vars.insert(
                        x,
                        VarStateV { lock: txn::taken(s0.vars[x].lock, *id, write), ..s0.vars[x] },
                    )
                } else {
                    s0.vars
                });
                self.services.insert(svc, s);
                assert(self@.services =~= lock_var(before, svc, x, write, *id).0.services);
                res
            },
        }
    }

    /// Lock the variables with these names for a transaction.
    fn acquire_var_locks(
        &mut self,
        svc: Symbol,
        names: &Vec<String>,
        write: bool,
        id: &TxnId,
    ) -> (res: Result<(), LockConflict>)
        ensures
            final(self)@ == lock_vars(
                old(self)@,
                svc,
                types::views(names@),
                0,
                write,
                *id,
            ).0,
            match res {
                Ok(()) => lock_vars(
                    old(self)@,
                    svc,
                    types::views(names@),
                    0,
                    write,
                    *id,
                ).1 is None,
                Err(c) => lock_vars(old(self)@, svc, types::views(names@), 0, write, *id).1
                    == Some(c),
            },
    {
        let ghost before = self@;
        let ghost ns = types::views(names@);
        let mut i: usize = 0;
        while i < names.len()
            invariant
                i <= names@.len(),
                ns == types::views(names@),
                before == old(self)@,
                lock_vars(before, svc, ns, 0, write, *id) == lock_vars(
                    self@,
                    svc,
                    ns,
                    i as int,
                    write,
                    *id,
                ),
            decreases names@.len() - i,
        {
            assert(ns[i as int] == names@[i as int]@);
            match self.interner.lookup(names[i].as_str()) {
                None => {},
                Some(x) => {
                    self.interner.check_distinct();
                    proof {
                        interner::lemma_symbol_in(self.interner@, x, ns[i as int]);
                    }
                    match self.acquire_var_lock(svc, x, write, id) {
                        Ok(()) => {},
                        Err(c) => {
                            return Err(c);
                        },
                    }
                },
            }
            i += 1;
        }
        Ok(())
    }

    /// Take the locks that a transaction needs at a service.
    fn acquire_group(&mut self, name: &str, group: &LockGroup, id: &TxnId) -> (res: Result<
        (),
        LockConflict,
    >)
        ensures
            final(self)@ == lock_group(old(self)@, name@, group@, *id).0,
            match res {
                Ok(()) => lock_group(old(self)@, name@, group@, *id).1 is None,
                Err(c) => lock_group(old(self)@, name@, group@, *id).1 == Some(c),
            },
    {
        match self.interner.lookup(name) {
            None => Ok(()),
            Some(svc) => {
                self.interner.check_distinct();
                proof {
                    interner::lemma_symbol_in(self.interner@, svc, name@);
                }
                if group.service_level_lock {
                    match self.acquire_service_lock(svc, id) {
                        Ok(()) => {},
                        Err(c) => {
                            return Err(c);
                        },
                    }
                }
                match self.acquire_var_locks(svc, &group.reads, false, id) {
                    Ok(()) => {},
                    Err(c) => {
                        return Err(c);
                    },
                }
                self.acquire_var_locks(svc, &group.writes, true, id)
            },
        }
    }

    /// Take the locks of a transaction that lie at this node, up to the first conflict.
    pub fn acquire_lock_groups(
        &mut self,
        txn: &LockTxn,
        groups: &Vec<(String, LockGroup)>,
    ) -> (res: Result<(), LockConflict>)
        ensures
            final(self)@ == lock_groups(old(self)@, groups_view(groups@), 0, txn.id).0,
            match res {
                Ok(()) => lock_groups(old(self)@, groups_view(groups@), 0, txn.id).1 is None,
                Err(c) => lock_groups(old(self)@, groups_view(groups@), 0, txn.id).1 == Some(c),
            },
    {
        let ghost before = self@;
        let ghost gs = groups_view(groups@);
        let mut i: usize = 0;
        while i < groups.len()
            invariant
                i <= groups@.len(),
                gs == groups_view(groups@),
                before == old(self)@,
                lock_groups(before, gs, 0, txn.id) == lock_groups(self@, gs, i as int, txn.id),
            decreases groups@.len() - i,
        {
            assert(gs[i as int] == (groups@[i as int].0@, groups@[i as int].1@));
            match self.acquire_group(groups[i].0.as_str(), &groups[i].1, &txn.id) {
                Ok(()) => {},
                Err(c) => {
                    return Err(c);
                },
            }
            i += 1;
        }
        Ok(())
    }

    /// Let go of all that a transaction holds at this node.
    pub fn release_all_locks(&mut self, txn: &LockTxn)
        ensures
            final(self)@ == released(old(self)@, txn.id),
    {
        let ghost before = self@;
        let keys = keys_of(&self.services);
        let mut i: usize = 0;
        while i < keys.len()
            invariant
                i <= keys@.len(),
                keys@.no_duplicates(),
                before == old(self)@,
                forall|k: Symbol| #[trigger]
                    keys@.contains(k) <==> before.services.dom().contains(k),
                self@.services.dom() == before.services.dom(),
                forall|k: int|
                    0 <= k < i ==> self@.services[#[trigger] keys@[k]] == service_released(
                        before.services[keys@[k]],
                        txn.id,
                    ),
                forall|k: int|
                    i <= k < keys@.len() ==> self@.services[#[trigger] keys@[k]]
                        == before.services[keys@[k]],
                self@ == (ManagerV { services: self@.services, ..before }),
            decreases keys@.len() - i,
        {
            let key = keys[i];
            assert(keys@.contains(keys@[i as int]));
            let ghost start = self@;
            if let Some(s) = self.services.remove(&key) {
                let s = s.release(txn.id);
                self.services.insert(key, s);
                assert(self@.services =~= start.services.insert(key, s@));
            }
            i += 1;
        }
        assert(self@.services =~= released(before, txn.id).services) by {
            assert forall|k: Symbol| before.services.dom().contains(k) implies self@.services[k]
                == released(before, txn.id).services[k] by {
                assert(keys@.contains(k));
                let j = choose|j: int| 0 <= j < keys@.len() && keys@[j] == k;
                assert(self@.services[keys@[j]] == service_released(before.services[k], txn.id));
            }
        }
    }
}

} // verus!
