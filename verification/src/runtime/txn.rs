//! Locks of transactions.

use vstd::prelude::*;

use crate::net::types::{Address, TxnId};
use crate::runtime::ast::{Value, ValueV};
use crate::runtime::tt::types;

verus! {

/// Who holds a variable.
#[derive(Debug, PartialEq, Eq)]
pub enum VarLock {
    Unlocked,
    ReadLocked(Vec<TxnId>),
    WriteLocked(TxnId),
}

/// What a `VarLock` stands for.
pub enum VarLockV {
    Unlocked,
    ReadLocked(Seq<TxnId>),
    WriteLocked(TxnId),
}

impl View for VarLock {
    type V = VarLockV;

    open spec fn view(&self) -> VarLockV {
        match *self {
            VarLock::Unlocked => VarLockV::Unlocked,
            VarLock::ReadLocked(ids) => VarLockV::ReadLocked(ids@),
            VarLock::WriteLocked(id) => VarLockV::WriteLocked(id),
        }
    }
}

/// A variable of a running service.
#[derive(Debug, PartialEq, Eq)]
pub struct VarState {
    pub value: Value,
    pub lock: VarLock,
    pub latest_write_txn: Option<TxnId>,
}

/// What a `VarState` stands for.
pub struct VarStateV {
    pub value: ValueV,
    pub lock: VarLockV,
    pub latest_write_txn: Option<TxnId>,
}

impl View for VarState {
    type V = VarStateV;

    open spec fn view(&self) -> VarStateV {
        VarStateV {
            value: self.value@,
            lock: self.lock@,
            latest_write_txn: self.latest_write_txn,
        }
    }
}

/// A transaction that holds locks, here and at other nodes.
#[derive(Debug, PartialEq, Eq)]
pub struct LockTxn {
    pub id: TxnId,
    /// Other nodes that hold locks for it.
    pub participants: Vec<Address>,
}

/// What a `LockTxn` stands for.
pub struct LockTxnV {
    pub id: TxnId,
    pub participants: Seq<Seq<char>>,
}

impl View for LockTxn {
    type V = LockTxnV;

    open spec fn view(&self) -> LockTxnV {
        LockTxnV { id: self.id, participants: types::views(self.participants@) }
    }
}

impl LockTxn {
    /// A transaction that holds nothing yet.
    pub fn new(id: TxnId) -> (res: LockTxn)
        ensures
            res@ == (LockTxnV { id, participants: Seq::empty() }),
    {
        let participants: Vec<Address> = Vec::new();
        assert(types::views(participants@) =~= Seq::<Seq<char>>::empty());
        LockTxn { id, participants }
    }
}

/// The locks that a transaction needs at a service.
#[derive(Debug, PartialEq, Eq)]
pub struct LockGroup {
    /// Whether the whole service is locked.
    pub service_level_lock: bool,
    /// Members that are read.
    pub reads: Vec<String>,
    /// Members that are written.
    pub writes: Vec<String>,
}

/// What a `LockGroup` stands for.
pub struct LockGroupV {
    pub service_level_lock: bool,
    pub reads: Seq<Seq<char>>,
    pub writes: Seq<Seq<char>>,
}

impl View for LockGroup {
    type V = LockGroupV;

    open spec fn view(&self) -> LockGroupV {
        LockGroupV {
            service_level_lock: self.service_level_lock,
            reads: types::views(self.reads@),
            writes: types::views(self.writes@),
        }
    }
}

/// Whether a list holds one transaction only.
pub open spec fn own_only(ids: Seq<TxnId>, id: TxnId) -> bool {
    forall|i: int| 0 <= i < ids.len() ==> #[trigger] ids[i] == id
}

/// Whether a transaction may lock a variable.
pub open spec fn free_for(lock: VarLockV, id: TxnId, write: bool) -> bool {
    match lock {
        VarLockV::Unlocked => true,
        VarLockV::ReadLocked(ids) => !write || own_only(ids, id),
        VarLockV::WriteLocked(holder) => holder == id,
    }
}

/// The lock of a variable after a transaction took it.
pub open spec fn taken(lock: VarLockV, id: TxnId, write: bool) -> VarLockV {
    match lock {
        VarLockV::WriteLocked(_) => lock,
        VarLockV::ReadLocked(ids) => if write {
            VarLockV::WriteLocked(id)
        } else if ids.contains(id) {
            lock
        } else {
            VarLockV::ReadLocked(ids.push(id))
        },
        VarLockV::Unlocked => if write {
            VarLockV::WriteLocked(id)
        } else {
            VarLockV::ReadLocked(seq![id])
        },
    }
}

/// Tells the other transactions from one.
pub open spec fn others(id: TxnId) -> spec_fn(TxnId) -> bool {
    |x: TxnId| x != id
}

/// The lock of a variable after a transaction let go of it.
pub open spec fn let_go(lock: VarLockV, id: TxnId) -> VarLockV {
    match lock {
        VarLockV::Unlocked => lock,
        VarLockV::ReadLocked(ids) => {
            let rest = ids.filter(others(id));
            if rest.len() == 0 {
                VarLockV::Unlocked
            } else {
                VarLockV::ReadLocked(rest)
            }
        },
        VarLockV::WriteLocked(holder) => if holder == id {
            VarLockV::Unlocked
        } else {
            lock
        },
    }
}

/// Whether a transaction holds a variable.
pub open spec fn holds(lock: VarLockV, id: TxnId) -> bool {
    match lock {
        VarLockV::Unlocked => false,
        VarLockV::ReadLocked(ids) => ids.contains(id),
        VarLockV::WriteLocked(holder) => holder == id,
    }
}

/// Letting go of a lock takes it from no other transaction.
pub proof fn lemma_others_hold(lock: VarLockV, id: TxnId, other: TxnId)
    requires
        id != other,
        holds(lock, other),
    ensures
        holds(let_go(lock, id), other),
{
    if let VarLockV::ReadLocked(ids) = lock {
        let i = choose|i: int| 0 <= i < ids.len() && ids[i] == other;
        ids.lemma_filter_contains(others(id), i);
    }
}

/// Letting go of a lock again changes nothing.
pub proof fn lemma_let_go_twice(lock: VarLockV, id: TxnId)
    ensures
        let_go(let_go(lock, id), id) == let_go(lock, id),
{
    if let VarLockV::ReadLocked(ids) = lock {
        lemma_filter_twice(ids, id);
    }
}

proof fn lemma_filter_twice(ids: Seq<TxnId>, id: TxnId)
    ensures
        ids.filter(others(id)).filter(others(id)) == ids.filter(others(id)),
    decreases ids.len(),
{
    reveal(Seq::filter);
    if ids.len() > 0 {
        lemma_filter_twice(ids.drop_last(), id);
        let rest = ids.drop_last().filter(others(id));
        if ids.last() != id {
            assert(rest.push(ids.last()).drop_last() =~= rest);
        }
    }
}

/// Taking a lock and letting go of it comes to letting go of it.
pub proof fn letting_go_undoes_taking(lock: VarLockV, id: TxnId, write: bool)
    requires
        free_for(lock, id, write),
    ensures
        let_go(taken(lock, id, write), id) == let_go(lock, id),
{
    reveal(Seq::filter);
    match lock {
        VarLockV::ReadLocked(ids) => {
            if write {
                lemma_only_own(ids, id);
            } else if !ids.contains(id) {
                assert(ids.push(id).drop_last() =~= ids);
            }
        },
        VarLockV::Unlocked => {
            assert(seq![id].drop_last() =~= Seq::<TxnId>::empty());
            assert(Seq::<TxnId>::empty().filter(others(id)) =~= Seq::<TxnId>::empty());
        },
        VarLockV::WriteLocked(_) => {},
    }
}

/// Nothing is left of a list that holds one transaction only once it is taken out.
proof fn lemma_only_own(ids: Seq<TxnId>, id: TxnId)
    requires
        own_only(ids, id),
    ensures
        ids.filter(others(id)).len() == 0,
    decreases ids.len(),
{
    reveal(Seq::filter);
    if ids.len() > 0 {
        assert(ids.last() == id);
        lemma_only_own(ids.drop_last(), id);
    }
}

impl VarLock {
    /// Whether a transaction may take the lock.
    pub fn is_free_for(&self, id: TxnId, write: bool) -> (res: bool)
        ensures
            res == free_for(self@, id, write),
    {
        match self {
            VarLock::Unlocked => true,
            VarLock::WriteLocked(holder) => *holder == id,
            VarLock::ReadLocked(ids) => {
                if !write {
                    return true;
                }
                let mut i: usize = 0;
                while i < ids.len()
                    invariant
                        i <= ids@.len(),
                        write,
                        self@ == VarLockV::ReadLocked(ids@),
                        forall|k: int| 0 <= k < i ==> #[trigger] ids@[k] == id,
                    decreases ids@.len() - i,
                {
                    if ids[i] != id {
                        assert(ids@[i as int] != id);
                        assert(!own_only(ids@, id));
                        return false;
                    }
                    i += 1;
                }
                true
            },
        }
    }

    /// The lock after a transaction took it.
    pub fn take(self, id: TxnId, write: bool) -> (res: VarLock)
        ensures
            res@ == taken(self@, id, write),
    {
        match self {
            VarLock::WriteLocked(holder) => VarLock::WriteLocked(holder),
            VarLock::ReadLocked(ids) => {
                if write {
                    return VarLock::WriteLocked(id);
                }
                let mut ids = ids;
                let mut i: usize = 0;
                while i < ids.len()
                    invariant
                        i <= ids@.len(),
                        !write,
                        self@ == VarLockV::ReadLocked(ids@),
                        forall|k: int| 0 <= k < i ==> #[trigger] ids@[k] != id,
                    decreases ids@.len() - i,
                {
                    if ids[i] == id {
                        assert(ids@.contains(ids@[i as int]));
                        return VarLock::ReadLocked(ids);
                    }
                    i += 1;
                }
                ids.push(id);
                VarLock::ReadLocked(ids)
            },
            VarLock::Unlocked => {
                if write {
                    VarLock::WriteLocked(id)
                } else {
                    let mut ids: Vec<TxnId> = Vec::new();
                    ids.push(id);
                    assert(ids@ =~= seq![id]);
                    VarLock::ReadLocked(ids)
                }
            },
        }
    }

    /// The lock after a transaction let go of it.
    pub fn release(self, id: TxnId) -> (res: VarLock)
        ensures
            res@ == let_go(self@, id),
    {
        match self {
            VarLock::Unlocked => VarLock::Unlocked,
            VarLock::WriteLocked(holder) => {
                if holder == id {
                    VarLock::Unlocked
                } else {
                    VarLock::WriteLocked(holder)
                }
            },
            VarLock::ReadLocked(ids) => {
                let mut rest: Vec<TxnId> = Vec::new();
                proof {
                    reveal(Seq::filter);
                }
                assert(rest@ =~= ids@.take(0).filter(others(id)));
                let mut i: usize = 0;
                while i < ids.len()
                    invariant
                        i <= ids@.len(),
                        rest@ == ids@.take(i as int).filter(others(id)),
                    decreases ids@.len() - i,
                {
                    proof {
                        reveal(Seq::filter);
                    }
                    assert(ids@.take(i + 1).drop_last() =~= ids@.take(i as int));
                    assert(ids@.take(i + 1).last() == ids@[i as int]);
                    if ids[i] != id {
                        rest.push(ids[i]);
                    }
                    i += 1;
                }
                assert(ids@.take(i as int) =~= ids@);
                if rest.len() == 0 {
                    VarLock::Unlocked
                } else {
                    VarLock::ReadLocked(rest)
                }
            },
        }
    }
}

} // verus!
