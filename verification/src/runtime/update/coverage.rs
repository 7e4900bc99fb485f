//! What an update locks: all that it writes, and all that its expressions use.

use vstd::prelude::*;

use crate::runtime::ast;
use crate::runtime::ast::{DeclV, ExprV, StmtV};
use crate::runtime::graphs::uses;
use crate::runtime::interner;
use crate::runtime::interner::Symbol;
use crate::runtime::manager::ManagerV;
use crate::runtime::tree::Node;
use crate::runtime::txn::LockGroupV;
use crate::runtime::update::aftermath;
use crate::runtime::update::needs;
use crate::runtime::update::patch;

verus! {

/// Whether locks hold one of a member of a service, to write it where it has to.
pub open spec fn asks_for(
    groups: Seq<(Seq<char>, LockGroupV)>,
    svc: Seq<char>,
    x: Seq<char>,
    write: bool,
) -> bool {
    exists|k: int|
        0 <= k < groups.len() && (#[trigger] groups[k]).0 == svc && if write {
            groups[k].1.writes.contains(x)
        } else {
            groups[k].1.reads.contains(x)
        }
}

/// Whether locks hold one of a whole service.
pub open spec fn asks_for_service(groups: Seq<(Seq<char>, LockGroupV)>, svc: Seq<char>) -> bool {
    exists|k: int|
        0 <= k < groups.len() && (#[trigger] groups[k]).0 == svc && groups[k].1.service_level_lock
}

/// The expression that a declaration gives its name.
pub open spec fn given(d: DeclV, e: ExprV) -> bool {
    match d {
        DeclV::VarDecl { val, .. } => val == e,
        DeclV::DefDecl { val, .. } => val == e,
        DeclV::TableDecl { .. } => false,
    }
}

/// The names that are written.
proof fn lemma_written(decls: Seq<DeclV>, names: Seq<Seq<char>>, k: int)
    requires
        0 <= k < decls.len(),
    ensures
        needs::written(decls, names).contains(
            interner::name_text(names, ast::decl_name(decls[k])),
        ),
    decreases decls.len(),
{
    let before = needs::written(decls.drop_last(), names);
    let last = interner::name_text(names, ast::decl_name(decls.last()));
    let t = interner::name_text(names, ast::decl_name(decls[k]));
    if k < decls.len() - 1 {
        lemma_written(decls.drop_last(), names, k);
        let i = choose|i: int| 0 <= i < before.len() && before[i] == t;
        assert(needs::with_text(before, last)[i] == t);
    } else if !before.contains(last) {
        assert(before.push(last)[before.len() as int] == t);
    }
}

/// The members that are read.
proof fn lemma_read(
    decls: Seq<DeclV>,
    svc: Symbol,
    s: Symbol,
    names: Seq<Seq<char>>,
    k: int,
    x: Symbol,
)
    requires
        x < k <= names.len(),
        needs::reads_member(decls, svc, s, x),
    ensures
        needs::members_read(decls, svc, s, names, k).contains(names[x as int]),
    decreases k,
{
    let before = needs::members_read(decls, svc, s, names, k - 1);
    let now = needs::members_read(decls, svc, s, names, k);
    if x < k - 1 {
        lemma_read(decls, svc, s, names, k - 1, x);
        let i = choose|i: int| 0 <= i < before.len() && before[i] == names[x as int];
        assert(now[i] == names[x as int]);
    } else {
        assert((k - 1) as Symbol == x);
        assert(now[before.len() as int] == names[x as int]);
    }
}

/// Locks that hold those of a group ask for all that the group does.
proof fn lemma_asks(
    groups: Seq<(Seq<char>, LockGroupV)>,
    svc: Seq<char>,
    g: LockGroupV,
)
    requires
        needs::covers(groups, svc, g),
    ensures
        forall|x: Seq<char>| #[trigger] g.reads.contains(x) ==> asks_for(groups, svc, x, false),
        forall|x: Seq<char>| #[trigger] g.writes.contains(x) ==> asks_for(groups, svc, x, true),
        g.service_level_lock ==> asks_for_service(groups, svc),
{
    let k = choose|k: int|
        0 <= k < groups.len() && (#[trigger] groups[k]).0 == svc && needs::includes(groups[k].1, g);
    assert(groups[k].0 == svc);
}

/// An update asks for a lock of each member that it declares, to write it, and of each member that
/// an expression of it accesses or uses by its bare name; and for the whole service where the
/// service does not run here, or has no member of a name that is declared.
pub proof fn all_that_is_used_is_locked(
    m: ManagerV,
    updates: Seq<StmtV>,
    i: int,
    svc: Symbol,
    decls: Seq<DeclV>,
    k: int,
)
    requires
        0 <= i < updates.len(),
        aftermath::is_about(updates[i], svc, decls),
        0 <= k < decls.len(),
    ensures
        asks_for(
            needs::needed(m, updates),
            interner::name_text(m.names, svc),
            interner::name_text(m.names, ast::decl_name(decls[k])),
            true,
        ),
        forall|e: ExprV, x: Symbol|
            #![trigger given(decls[k], e), uses::uses(Node::Expr(e), x)]
            given(decls[k], e) && uses::uses(Node::Expr(e), x) && x < m.names.len() ==> asks_for(
                needs::needed(m, updates),
                interner::name_text(m.names, svc),
                m.names[x as int],
                false,
            ),
        forall|e: ExprV, s: Symbol, x: Symbol|
            #![trigger given(decls[k], e), uses::accesses(Node::Expr(e), (s, x))]
            given(decls[k], e) && uses::accesses(Node::Expr(e), (s, x)) && s < m.names.len() && x
                < m.names.len() ==> asks_for(
                needs::needed(m, updates),
                m.names[s as int],
                m.names[x as int],
                false,
            ),
        !m.services.contains_key(svc) ==> asks_for_service(
            needs::needed(m, updates),
            interner::name_text(m.names, svc),
        ),
        m.services.contains_key(svc) && decls[k] !is TableDecl
            && !m.services[svc].vars.contains_key(ast::decl_name(decls[k]))
            && !m.services[svc].defs.contains_key(ast::decl_name(decls[k])) ==> asks_for_service(
            needs::needed(m, updates),
            interner::name_text(m.names, svc),
        ),
{
    let groups = needs::needed(m, updates);
    let name = interner::name_text(m.names, svc);
    let own = needs::group_of(m, svc, decls);
    let n = m.names.len() as int;
    needs::every_update_is_covered(m, updates, i);
    assert(patch::block_of(updates[i]) == Some((svc, decls)));
    lemma_asks(groups, name, own);
    lemma_written(decls, m.names, k);
    assert(own.writes.contains(interner::name_text(m.names, ast::decl_name(decls[k]))));
    assert(needs::is_new(m, svc, decls[k]) ==> needs::introduces(m, svc, decls));
    assert forall|e: ExprV, x: Symbol|
        #![trigger given(decls[k], e), uses::uses(Node::Expr(e), x)]
        given(decls[k], e) && uses::uses(Node::Expr(e), x) && x < m.names.len() implies asks_for(
        groups,
        name,
        m.names[x as int],
        false,
    ) by {
        uses::free_names_are_those_used_unbound(e, x);
        assert(ast::decl_val(decls[k]) == Some(e));
        assert(needs::reads_member(decls, svc, svc, x));
        lemma_read(decls, svc, svc, m.names, n, x);
        assert(own.reads.contains(m.names[x as int]));
    }
    assert forall|e: ExprV, s: Symbol, x: Symbol|
        #![trigger given(decls[k], e), uses::accesses(Node::Expr(e), (s, x))]
        given(decls[k], e) && uses::accesses(Node::Expr(e), (s, x)) && s < m.names.len() && x
            < m.names.len() implies asks_for(
        groups,
        m.names[s as int],
        m.names[x as int],
        false,
    ) by {
        uses::listed_members_are_those_accessed(e, (s, x));
        assert(ast::decl_val(decls[k]) == Some(e));
        assert(needs::reads_member(decls, svc, s, x));
        lemma_read(decls, svc, s, m.names, n, x);
        if s == svc {
            assert(own.reads.contains(m.names[x as int]));
        } else {
            let g = needs::reads_at(m, svc, decls, s);
            assert(g.reads.contains(m.names[x as int]));
            assert(g.reads.len() > 0);
            lemma_asks(groups, m.names[s as int], g);
        }
    }
}

} // verus!
