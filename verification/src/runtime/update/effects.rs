//! What follows from an update that took effect.

use vstd::prelude::*;

use crate::net::types::{Address, MeerkatMessage, MeerkatMessageV, TxnId};
use crate::runtime::ast;
use crate::runtime::ast::{Decl, DeclV, Stmt, StmtV};
use crate::runtime::interner;
use crate::runtime::interner::Symbol;
use crate::runtime::manager::{Manager, ManagerV};
use crate::runtime::nameres::has_symbol;
use crate::runtime::tt::types;
use crate::runtime::txn::{LockTxn, LockTxnV};
use crate::runtime::update::printing;
use crate::runtime::update::printing::format_update_source;
use crate::runtime::update::patch;

verus! {

broadcast use {vstd::std_specs::hash::group_hash_axioms, types::views_push};

/// Something that is still to be done once an update took effect.
#[allow(inconsistent_fields)]
pub enum Effect {
    /// Connect the listeners of a service anew.
    Rewire { service: Symbol },
    /// Compute a definition anew.
    Recompute { service: Symbol, name: Symbol },
    /// Tell those who depend on a member.
    Propagate { service: Symbol, name: Symbol },
    /// Update a service at the node where it runs.
    SendUpdate {
        address: Address,
        txn_id: Option<TxnId>,
        service_name: String,
        source: String,
        /// What is reported where no answer comes.
        timeout: String,
    },
    /// Commit the transaction at another node.
    SendCommit { address: Address, id: TxnId },
}

/// What an `Effect` stands for.
#[allow(inconsistent_fields)]
pub enum EffectV {
    Rewire { service: Symbol },
    Recompute { service: Symbol, name: Symbol },
    Propagate { service: Symbol, name: Symbol },
    SendUpdate {
        address: Seq<char>,
        txn_id: Option<TxnId>,
        service_name: Seq<char>,
        source: Seq<char>,
        timeout: Seq<char>,
    },
    SendCommit { address: Seq<char>, id: TxnId },
}

impl View for Effect {
    type V = EffectV;

    open spec fn view(&self) -> EffectV {
        match *self {
            Effect::Rewire { service } => EffectV::Rewire { service },
            Effect::Recompute { service, name } => EffectV::Recompute { service, name },
            Effect::Propagate { service, name } => EffectV::Propagate { service, name },
            Effect::SendUpdate { address, txn_id, service_name, source, timeout } =>
                EffectV::SendUpdate {
                address: address@,
                txn_id,
                service_name: service_name@,
                source: source@,
                timeout: timeout@,
            },
            Effect::SendCommit { address, id } => EffectV::SendCommit { address: address@, id },
        }
    }
}

/// The services that updates name, each once.
pub open spec fn updated_services(updates: Seq<StmtV>) -> Seq<Symbol>
    decreases updates.len(),
{
    if updates.len() == 0 {
        Seq::empty()
    } else {
        let before = updated_services(updates.drop_last());
        match patch::block_of(updates.last()) {
            Some((svc, _)) => if before.contains(svc) {
                before
            } else {
                before.push(svc)
            },
            None => before,
        }
    }
}

/// The listeners that are connected anew.
pub open spec fn rewirings(services: Seq<Symbol>) -> Seq<EffectV> {
    services.map_values(|service: Symbol| EffectV::Rewire { service })
}

/// What follows at a running service from its new declarations.
pub open spec fn notices(svc: Symbol, decls: Seq<DeclV>) -> Seq<EffectV>
    decreases decls.len(),
{
    if decls.len() == 0 {
        Seq::empty()
    } else {
        let before = notices(svc, decls.drop_last());
        match decls.last() {
            DeclV::VarDecl { name, .. } => before.push(EffectV::Propagate { service: svc, name }),
            DeclV::DefDecl { name, .. } => before.push(
                EffectV::Recompute { service: svc, name },
            ).push(EffectV::Propagate { service: svc, name }),
            DeclV::TableDecl { .. } => before,
        }
    }
}

/// The request that updates a service at the node where it runs.
pub open spec fn remote_update(
    m: ManagerV,
    svc: Symbol,
    decls: Seq<DeclV>,
    id: Option<TxnId>,
) -> EffectV {
    EffectV::SendUpdate {
        address: m.remote[svc],
        txn_id: id,
        service_name: interner::name_text(m.names, svc),
        source: printing::update_text(svc, decls, m.names),
        timeout: "Timeout waiting for service update response for '"@ + interner::name_text(
            m.names,
            svc,
        ) + "'"@,
    }
}

/// What follows from the update of a service.
pub open spec fn consequences(
    m: ManagerV,
    svc: Symbol,
    decls: Seq<DeclV>,
    id: Option<TxnId>,
) -> Seq<EffectV> {
    (if m.services.dom().contains(svc) {
        notices(svc, decls)
    } else {
        Seq::empty()
    }) + (if m.remote.dom().contains(svc) {
        seq![remote_update(m, svc, decls, id)]
    } else {
        Seq::empty()
    })
}

/// What follows from updates, one after another.
pub open spec fn all_consequences(
    m: ManagerV,
    updates: Seq<StmtV>,
    id: Option<TxnId>,
) -> Seq<EffectV>
    decreases updates.len(),
{
    if updates.len() == 0 {
        Seq::empty()
    } else {
        let before = all_consequences(m, updates.drop_last(), id);
        match patch::block_of(updates.last()) {
            Some((svc, decls)) => before + consequences(m, svc, decls, id),
            None => before,
        }
    }
}

/// The commits that are sent to other nodes.
pub open spec fn commits(txn: Option<LockTxnV>) -> Seq<EffectV> {
    match txn {
        None => Seq::empty(),
        Some(t) => t.participants.map_values(
            |address: Seq<char>| EffectV::SendCommit { address, id: t.id },
        ),
    }
}

/// The number of a transaction.
pub open spec fn id_of(txn: Option<LockTxnV>) -> Option<TxnId> {
    match txn {
        Some(t) => Some(t.id),
        None => None,
    }
}

/// What is still to be done once updates took effect: listeners are connected anew, then those
/// who depend on what was updated are told, here and at other nodes, then the other nodes commit.
pub open spec fn effects(m: ManagerV, updates: Seq<StmtV>, txn: Option<LockTxnV>) -> Seq<EffectV> {
    rewirings(updated_services(updates)) + all_consequences(m, updates, id_of(txn)) + commits(txn)
}

/// The services that updates name, each once.
fn find_updated_services(updates: &Vec<Stmt>) -> (res: Vec<Symbol>)
    ensures
        res@ == updated_services(types::views(updates@)),
{
    let ghost us = types::views(updates@);
    let mut res: Vec<Symbol> = Vec::new();
    let mut i: usize = 0;
    assert(res@ =~= updated_services(us.take(0)));
    while i < updates.len()
        invariant
            i <= updates@.len(),
            us == types::views(updates@),
            res@ == updated_services(us.take(i as int)),
        decreases updates@.len() - i,
    {
        assert(us.take(i + 1).drop_last() =~= us.take(i as int));
        assert(us.take(i + 1).last() == updates@[i as int]@);
        proof {
            ast::lemma_stmt_view(updates@[i as int]);
        }
        let svc: Option<Symbol> = match &updates[i] {
            Stmt::Service { name, .. } => Some(*name),
            Stmt::Update { service_name, .. } => Some(*service_name),
            _ => None,
        };
        if let Some(svc) = svc {
            if !has_symbol(&res, svc) {
                res.push(svc);
            }
        }
        i += 1;
    }
    assert(us.take(i as int) =~= us);
    res
}

/// Append what follows at a running service from its new declarations.
fn add_notices(out: &mut Vec<Effect>, svc: Symbol, decls: &Vec<Decl>)
    ensures
        types::views(final(out)@) == types::views(old(out)@) + notices(
            svc,
            types::views(decls@),
        ),
{
    let ghost ds = types::views(decls@);
    let ghost before = types::views(out@);
    let mut i: usize = 0;
    assert(types::views(out@) =~= before + notices(svc, ds.take(0)));
    while i < decls.len()
        invariant
            i <= decls@.len(),
            ds == types::views(decls@),
            before == types::views(old(out)@),
            types::views(out@) == before + notices(svc, ds.take(i as int)),
        decreases decls@.len() - i,
    {
        assert(ds.take(i + 1).drop_last() =~= ds.take(i as int));
        assert(ds.take(i + 1).last() == decls@[i as int]@);
        match &decls[i] {
            Decl::VarDecl { name, .. } => {
                out.push(Effect::Propagate { service: svc, name: *name });
            },
            Decl::DefDecl { name, .. } => {
                out.push(Effect::Recompute { service: svc, name: *name });
                out.push(Effect::Propagate { service: svc, name: *name });
            },
            Decl::TableDecl { .. } => {},
        }
        i += 1;
        assert(types::views(out@) =~= before + notices(svc, ds.take(i as int)));
    }
    assert(ds.take(i as int) =~= ds);
}

/// Append what follows from the update of a service.
fn add_consequences(
    out: &mut Vec<Effect>,
    manager: &Manager,
    svc: Symbol,
    decls: &Vec<Decl>,
    id: Option<TxnId>,
)
    ensures
        types::views(final(out)@) == types::views(old(out)@) + consequences(
            manager@,
            svc,
            types::views(decls@),
            id,
        ),
{
    let ghost before = types::views(out@);
    if manager.services.contains_key(&svc) {
        add_notices(out, svc, decls);
    }
    let ghost mid = types::views(out@);
    if let Some(addr) = manager.remote_services.get(&svc) {
        let name = manager.interner.text(svc);
        let mut timeout = "Timeout waiting for service update response for '".to_owned();
        timeout.append(name);
        timeout.append("'");
        let e = Effect::SendUpdate {
            address: addr.clone(),
            txn_id: id,
            service_name: name.to_owned(),
            source: format_update_source(svc, decls.as_slice(), &manager.interner),
            timeout,
        };
        out.push(e);
        assert(types::views(out@) =~= mid + seq![e@]);
    }
    assert(types::views(out@) =~= before + consequences(manager@, svc, types::views(decls@), id));
}

/// Append the commits that are sent to other nodes.
fn add_commits(out: &mut Vec<Effect>, txn: &LockTxn)
    ensures
        types::views(final(out)@) == types::views(old(out)@) + commits(Some(txn@)),
{
    let ghost before = types::views(out@);
    let ghost all = commits(Some(txn@));
    let mut i: usize = 0;
    assert(types::views(out@) =~= before + all.take(0));
    while i < txn.participants.len()
        invariant
            i <= txn.participants@.len(),
            all == commits(Some(txn@)),
            before == types::views(old(out)@),
            types::views(out@) == before + all.take(i as int),
        decreases txn.participants@.len() - i,
    {
        let e = Effect::SendCommit { address: txn.participants[i].clone(), id: txn.id };
        assert(all[i as int] == e@);
        out.push(e);
        i += 1;
        assert(types::views(out@) =~= before + all.take(i as int));
    }
    assert(all.take(i as int) =~= all);
}

/// What is still to be done once updates took effect.
pub fn list_effects(manager: &Manager, updates: &Vec<Stmt>, txn: &Option<LockTxn>) -> (res: Vec<
    Effect,
>)
    ensures
        types::views(res@) == effects(
            manager@,
            types::views(updates@),
            types::opt_view(*txn),
        ),
{
    let ghost us = types::views(updates@);
    let id: Option<TxnId> = match txn {
        Some(t) => Some(t.id),
        None => None,
    };
    let services = find_updated_services(updates);
    let ghost rewired = rewirings(services@);
    let mut res: Vec<Effect> = Vec::new();
    let mut k: usize = 0;
    assert(types::views(res@) =~= rewired.take(0));
    while k < services.len()
        invariant
            k <= services@.len(),
            rewired == rewirings(services@),
            types::views(res@) == rewired.take(k as int),
        decreases services@.len() - k,
    {
        let e = Effect::Rewire { service: services[k] };
        assert(rewired[k as int] == e@);
        res.push(e);
        k += 1;
        assert(types::views(res@) =~= rewired.take(k as int));
    }
    assert(rewired.take(k as int) =~= rewired);
    let mut i: usize = 0;
    assert(types::views(res@) =~= rewired + all_consequences(manager@, us.take(0), id));
    while i < updates.len()
        invariant
            i <= updates@.len(),
            us == types::views(updates@),
            types::views(res@) == rewired + all_consequences(manager@, us.take(i as int), id),
        decreases updates@.len() - i,
    {
        assert(us.take(i + 1).drop_last() =~= us.take(i as int));
        assert(us.take(i + 1).last() == updates@[i as int]@);
        proof {
            ast::lemma_stmt_view(updates@[i as int]);
        }
        match &updates[i] {
            Stmt::Service { name, decls } => {
                add_consequences(&mut res, manager, *name, decls, id);
            },
            Stmt::Update { service_name, decls } => {
                add_consequences(&mut res, manager, *service_name, decls, id);
            },
            _ => {},
        }
        i += 1;
        assert(types::views(res@) =~= rewired + all_consequences(
            manager@,
            us.take(i as int),
            id,
        ));
    }
    assert(us.take(i as int) =~= us);
    let ghost mid = types::views(res@);
    if let Some(t) = txn {
        add_commits(&mut res, t);
    }
    assert(types::views(res@) =~= mid + commits(types::opt_view(*txn)));
    res
}

/// The request that updates a service at another node.
pub fn update_request(
    request_id: u64,
    txn_id: Option<TxnId>,
    service_name: &str,
    source: &str,
    reply_to: &str,
) -> (res: MeerkatMessage)
    ensures
        res@ == (MeerkatMessageV::UpdateServiceRequest {
            request_id,
            txn_id,
            service_name: service_name@,
            source: source@,
            reply_to: reply_to@,
        }),
{
    MeerkatMessage::UpdateServiceRequest {
        request_id,
        txn_id,
        service_name: service_name.to_owned(),
        source: source.to_owned(),
        reply_to: reply_to.to_owned(),
    }
}

} // verus!
