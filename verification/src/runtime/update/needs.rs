//! The locks that an update needs.

use std::collections::HashSet;
use vstd::prelude::*;

use crate::runtime::ast;
use crate::runtime::ast::{Decl, DeclV, Expr, Stmt, StmtV};
use crate::runtime::collections;
use crate::runtime::collections::{has_member, insert_member, insert_members};
use crate::runtime::graphs::digraph::graph_node_list;
use crate::runtime::graphs::free_var;
use crate::runtime::graphs::free_var::{cross_service_deps, free_var_graph};
use crate::runtime::interner;
use crate::runtime::interner::Symbol;
use crate::runtime::manager;
use crate::runtime::manager::{Manager, ManagerV};
use crate::runtime::tt::types;
use crate::runtime::tt::types::Member;
use crate::runtime::txn::{LockGroup, LockGroupV};
use crate::runtime::update::patch;

verus! {

broadcast use {vstd::std_specs::hash::group_hash_axioms, types::views_push};

/// Whether declarations hold a table.
pub open spec fn has_table(decls: Seq<DeclV>) -> bool {
    exists|i: int| 0 <= i < decls.len() && #[trigger] decls[i] is TableDecl
}

/// Whether an update declares a table.
pub open spec fn declares_table(updates: Seq<StmtV>) -> bool {
    exists|i: int|
        0 <= i < updates.len() && (patch::block_of(#[trigger] updates[i]) matches Some((_, decls))
            && has_table(decls))
}

/// Whether a variable or definition is new to a running service.
pub open spec fn is_new(m: ManagerV, svc: Symbol, d: DeclV) -> bool {
    d !is TableDecl && !m.services[svc].vars.dom().contains(ast::decl_name(d))
        && !m.services[svc].defs.dom().contains(ast::decl_name(d))
}

/// Whether an update brings a new service, or a new member of a running one.
pub open spec fn introduces(m: ManagerV, svc: Symbol, decls: Seq<DeclV>) -> bool {
    ||| !m.services.dom().contains(svc)
    ||| exists|i: int| 0 <= i < decls.len() && is_new(m, svc, #[trigger] decls[i])
}

/// A list with a text appended that it did not hold.
pub open spec fn with_text(texts: Seq<Seq<char>>, t: Seq<char>) -> Seq<Seq<char>> {
    if texts.contains(t) {
        texts
    } else {
        texts.push(t)
    }
}

/// The names that declarations write, each once.
pub open spec fn written(decls: Seq<DeclV>, names: Seq<Seq<char>>) -> Seq<Seq<char>>
    decreases decls.len(),
{
    if decls.len() == 0 {
        Seq::empty()
    } else {
        with_text(
            written(decls.drop_last(), names),
            interner::name_text(names, ast::decl_name(decls.last())),
        )
    }
}

/// Whether an expression of declarations of service `svc` reads member `x` of service `s`: it names
/// the member, or, where that is one of the same service, the bare name.
pub open spec fn reads_member(decls: Seq<DeclV>, svc: Symbol, s: Symbol, x: Symbol) -> bool {
    exists|i: int|
        0 <= i < decls.len() && (ast::decl_val(#[trigger] decls[i]) matches Some(e) && (
        free_var::names_member(e, (s, x)) || (s == svc && free_var::occurs_free(e, x))))
}

/// The members of service `s` among the first `k` names that declarations of service `svc` read.
pub open spec fn members_read(
    decls: Seq<DeclV>,
    svc: Symbol,
    s: Symbol,
    names: Seq<Seq<char>>,
    k: int,
) -> Seq<Seq<char>>
    decreases k,
{
    if k <= 0 || k > names.len() {
        Seq::empty()
    } else {
        let before = members_read(decls, svc, s, names, k - 1);
        if reads_member(decls, svc, s, (k - 1) as Symbol) {
            before.push(names[k - 1])
        } else {
            before
        }
    }
}

/// The locks that an update of a service needs there: the service itself where something is new,
/// every member that is read, and every member that is written.
pub open spec fn group_of(m: ManagerV, svc: Symbol, decls: Seq<DeclV>) -> LockGroupV {
    LockGroupV {
        service_level_lock: introduces(m, svc, decls),
        reads: members_read(decls, svc, svc, m.names, m.names.len() as int),
        writes: written(decls, m.names),
    }
}

/// The locks that an update of service `svc` needs at service `s`: those of the members that it
/// reads there.
pub open spec fn reads_at(m: ManagerV, svc: Symbol, decls: Seq<DeclV>, s: Symbol) -> LockGroupV {
    LockGroupV {
        service_level_lock: false,
        reads: members_read(decls, svc, s, m.names, m.names.len() as int),
        writes: Seq::empty(),
    }
}

/// A list with texts appended, each where the list does not hold it.
pub open spec fn with_texts(texts: Seq<Seq<char>>, more: Seq<Seq<char>>) -> Seq<Seq<char>>
    decreases more.len(),
{
    if more.len() == 0 {
        texts
    } else {
        with_text(with_texts(texts, more.drop_last()), more.last())
    }
}

/// The locks of two groups of the same service.
pub open spec fn merged(a: LockGroupV, b: LockGroupV) -> LockGroupV {
    LockGroupV {
        service_level_lock: a.service_level_lock || b.service_level_lock,
        reads: with_texts(a.reads, b.reads),
        writes: with_texts(a.writes, b.writes),
    }
}

/// Where the group of a service stands, from the `i`th on.
pub open spec fn group_index(
    groups: Seq<(Seq<char>, LockGroupV)>,
    i: int,
    name: Seq<char>,
) -> Option<int>
    decreases groups.len() - i,
{
    if i < 0 || i >= groups.len() {
        None
    } else if groups[i].0 == name {
        Some(i)
    } else {
        group_index(groups, i + 1, name)
    }
}

/// Groups with one more, which is merged into an earlier one of the same service.
pub open spec fn with_group(
    groups: Seq<(Seq<char>, LockGroupV)>,
    name: Seq<char>,
    g: LockGroupV,
) -> Seq<(Seq<char>, LockGroupV)> {
    match group_index(groups, 0, name) {
        Some(k) => groups.update(k, (name, merged(groups[k].1, g))),
        None => groups.push((name, g)),
    }
}

/// Groups with those of what an update reads at other services, among the first `k` of them.
pub open spec fn with_reads(
    groups: Seq<(Seq<char>, LockGroupV)>,
    m: ManagerV,
    svc: Symbol,
    decls: Seq<DeclV>,
    k: int,
) -> Seq<(Seq<char>, LockGroupV)>
    decreases k,
{
    if k <= 0 || k > m.names.len() {
        groups
    } else {
        let before = with_reads(groups, m, svc, decls, k - 1);
        let s = (k - 1) as Symbol;
        if s == svc || reads_at(m, svc, decls, s).reads.len() == 0 {
            before
        } else {
            with_group(before, m.names[k - 1], reads_at(m, svc, decls, s))
        }
    }
}

/// Groups with those that an update of a service needs.
pub open spec fn with_update(
    groups: Seq<(Seq<char>, LockGroupV)>,
    m: ManagerV,
    svc: Symbol,
    decls: Seq<DeclV>,
) -> Seq<(Seq<char>, LockGroupV)> {
    with_reads(
        with_group(groups, interner::name_text(m.names, svc), group_of(m, svc, decls)),
        m,
        svc,
        decls,
        m.names.len() as int,
    )
}

/// The locks that updates need, by service.
pub open spec fn needed(m: ManagerV, updates: Seq<StmtV>) -> Seq<(Seq<char>, LockGroupV)>
    decreases updates.len(),
{
    if updates.len() == 0 {
        Seq::empty()
    } else {
        let before = needed(m, updates.drop_last());
        match patch::block_of(updates.last()) {
            Some((svc, decls)) => with_update(before, m, svc, decls),
            None => before,
        }
    }
}

/// Append a text to a list that does not hold it yet.
fn add_text(texts: &mut Vec<String>, t: String)
    ensures
        types::views(final(texts)@) == with_text(types::views(old(texts)@), t@),
{
    let ghost before = types::views(texts@);
    let mut i: usize = 0;
    while i < texts.len()
        invariant
            i <= texts@.len(),
            texts@ == old(texts)@,
            before == types::views(texts@),
            forall|k: int| 0 <= k < i ==> #[trigger] before[k] != t@,
        decreases texts@.len() - i,
    {
        assert(before[i as int] == texts@[i as int]@);
        if texts[i] == t {
            assert(before.contains(t@));
            return;
        }
        i += 1;
    }
    texts.push(t);
}

/// Append texts to a list, each where the list does not hold it.
fn add_texts(texts: &mut Vec<String>, more: Vec<String>)
    ensures
        types::views(final(texts)@) == with_texts(types::views(old(texts)@), types::views(more@)),
{
    let ghost before = types::views(texts@);
    let ghost ms = types::views(more@);
    assert(with_texts(before, ms.take(0)) == before);
    let mut i: usize = 0;
    while i < more.len()
        invariant
            i <= more@.len(),
            ms == types::views(more@),
            types::views(texts@) == with_texts(before, ms.take(i as int)),
        decreases more@.len() - i,
    {
        assert(ms.take(i + 1).drop_last() =~= ms.take(i as int));
        assert(ms.take(i + 1).last() == more@[i as int]@);
        add_text(texts, more[i].clone());
        i += 1;
    }
    assert(ms.take(i as int) =~= ms);
}

fn copy_texts(texts: &Vec<String>) -> (res: Vec<String>)
    ensures
        types::views(res@) == types::views(texts@),
{
    let mut res: Vec<String> = Vec::new();
    let mut i: usize = 0;
    while i < texts.len()
        invariant
            i <= texts@.len(),
            res@.len() == i,
            forall|k: int| 0 <= k < i ==> (#[trigger] res@[k])@ == texts@[k]@,
        decreases texts@.len() - i,
    {
        res.push(texts[i].clone());
        i += 1;
    }
    assert(types::views(res@) =~= types::views(texts@));
    res
}

/// Merge the group of a service into an earlier one, or put it at the end.
fn put_group(groups: &mut Vec<(String, LockGroup)>, name: String, g: LockGroup)
    ensures
        manager::groups_view(final(groups)@) == with_group(
            manager::groups_view(old(groups)@),
            name@,
            g@,
        ),
{
    let ghost before = manager::groups_view(groups@);
    let mut i: usize = 0;
    while i < groups.len()
        invariant
            i <= groups@.len(),
            groups@ == old(groups)@,
            before == manager::groups_view(groups@),
            group_index(before, 0, name@) == group_index(before, i as int, name@),
        decreases groups@.len() - i,
    {
        assert(before[i as int] == (groups@[i as int].0@, groups@[i as int].1@));
        if groups[i].0 == name {
            let mut group = LockGroup {
                service_level_lock: groups[i].1.service_level_lock || g.service_level_lock,
                reads: copy_texts(&groups[i].1.reads),
                writes: copy_texts(&groups[i].1.writes),
            };
            let ghost entry = (name@, merged(groups@[i as int].1@, g@));
            add_texts(&mut group.reads, g.reads);
            add_texts(&mut group.writes, g.writes);
            assert(group@ == entry.1);
            groups.set(i, (name, group));
            assert(manager::groups_view(groups@) =~= before.update(i as int, entry));
            return;
        }
        i += 1;
    }
    let ghost entry = (name@, g@);
    groups.push((name, g));
    assert(manager::groups_view(groups@) =~= before.push(entry));
}

/// The locks that an update of a service needs; nothing where it declares a table.
fn find_group(manager: &Manager, svc: Symbol, decls: &Vec<Decl>) -> (res: Option<LockGroup>)
    ensures
        match res {
            Some(g) => !has_table(types::views(decls@)) && g@ == group_of(
                manager@,
                svc,
                types::views(decls@),
            ),
            None => has_table(types::views(decls@)),
        },
{
    let ghost ds = types::views(decls@);
    let ghost m = manager@;
    let mut writes: Vec<String> = Vec::new();
    let service = manager.services.get(&svc);
    let mut introduced: bool = service.is_none();
    let mut i: usize = 0;
    assert(types::views(writes@) =~= written(ds.take(0), m.names));
    while i < decls.len()
        invariant
            i <= decls@.len(),
            ds == types::views(decls@),
            m == manager@,
            match service {
                Some(s) => m.services.dom().contains(svc) && m.services[svc] == s@,
                None => !m.services.dom().contains(svc),
            },
            types::views(writes@) == written(ds.take(i as int), m.names),
            introduced <==> introduces(m, svc, ds.take(i as int)),
            forall|k: int| 0 <= k < i ==> #[trigger] ds[k] !is TableDecl,
        decreases decls@.len() - i,
    {
        assert(ds.take(i + 1).drop_last() =~= ds.take(i as int));
        assert(ds.take(i + 1).last() == decls@[i as int]@);
        assert(ds[i as int] == decls@[i as int]@);
        let name: Symbol = match &decls[i] {
            Decl::VarDecl { name, .. } => *name,
            Decl::DefDecl { name, .. } => *name,
            Decl::TableDecl { .. } => {
                assert(has_table(ds));
                return None;
            },
        };
        proof {
            if introduces(m, svc, ds.take(i as int)) && m.services.dom().contains(svc) {
                let k = choose|k: int|
                    0 <= k < i && is_new(m, svc, #[trigger] ds.take(i as int)[k]);
                assert(ds.take(i + 1)[k] == ds.take(i as int)[k]);
            }
            assert(ds.take(i + 1)[i as int] == ds[i as int]);
            if is_new(m, svc, ds[i as int]) {
                assert(introduces(m, svc, ds.take(i + 1)));
            } else if introduces(m, svc, ds.take(i + 1)) && m.services.dom().contains(svc) {
                let k = choose|k: int|
                    0 <= k < i + 1 && is_new(m, svc, #[trigger] ds.take(i + 1)[k]);
                assert(k < i);
                assert(ds.take(i as int)[k] == ds.take(i + 1)[k]);
            }
        }
        if let Some(s) = service {
            if !s.vars.contains_key(&name) && !s.defs.contains_key(&name) {
                introduced = true;
            }
        }
        add_text(&mut writes, manager.interner.text(name).to_owned());
        i += 1;
    }
    assert(ds.take(i as int) =~= ds);
    let reads = list_members_read(manager, svc, decls, &find_members_read(svc, decls), svc);
    Some(LockGroup { service_level_lock: introduced, reads, writes })
}

/// The members that declarations of a service read.
fn find_members_read(svc: Symbol, decls: &Vec<Decl>) -> (res: Vec<Member>)
    ensures
        forall|s: Symbol, x: Symbol| #[trigger]
            res@.contains((s, x)) <==> reads_member(types::views(decls@), svc, s, x),
{
    let ghost ds = types::views(decls@);
    let mut res: Vec<Member> = Vec::new();
    let mut i: usize = 0;
    while i < decls.len()
        invariant
            i <= decls@.len(),
            ds == types::views(decls@),
            forall|s: Symbol, x: Symbol| #[trigger]
                res@.contains((s, x)) <==> reads_member(ds.take(i as int), svc, s, x),
        decreases decls@.len() - i,
    {
        assert(ds[i as int] == decls@[i as int]@);
        match &decls[i] {
            Decl::VarDecl { val, .. } => add_members_read(&mut res, svc, val),
            Decl::DefDecl { val, .. } => add_members_read(&mut res, svc, val),
            Decl::TableDecl { .. } => {},
        }
        proof {
            lemma_reads_next(ds, svc, i as int);
        }
        i += 1;
    }
    assert(ds.take(i as int) =~= ds);
    res
}

/// What one more declaration reads.
proof fn lemma_reads_next(ds: Seq<DeclV>, svc: Symbol, i: int)
    requires
        0 <= i < ds.len(),
    ensures
        forall|s: Symbol, x: Symbol| #[trigger]
            reads_member(ds.take(i + 1), svc, s, x) <==> reads_member(ds.take(i), svc, s, x) || (
            ast::decl_val(ds[i]) matches Some(e) && (free_var::names_member(e, (s, x)) || (s == svc
                && free_var::occurs_free(e, x)))),
{
    let a = ds.take(i);
    let b = ds.take(i + 1);
    assert forall|s: Symbol, x: Symbol| #[trigger] reads_member(b, svc, s, x) <==> reads_member(
        a,
        svc,
        s,
        x,
    ) || (ast::decl_val(ds[i]) matches Some(e) && (free_var::names_member(e, (s, x)) || (s == svc
        && free_var::occurs_free(e, x)))) by {
        if reads_member(a, svc, s, x) {
            let k = choose|k: int|
                0 <= k < a.len() && (ast::decl_val(#[trigger] a[k]) matches Some(e) && (
                free_var::names_member(e, (s, x)) || (s == svc && free_var::occurs_free(e, x))));
            assert(b[k] == a[k]);
        }
        if reads_member(b, svc, s, x) {
            let k = choose|k: int|
                0 <= k < b.len() && (ast::decl_val(#[trigger] b[k]) matches Some(e) && (
                free_var::names_member(e, (s, x)) || (s == svc && free_var::occurs_free(e, x))));
            if k < i {
                assert(a[k] == b[k]);
            }
        }
        assert(b[i] == ds[i]);
    }
}

/// Add the members that an expression of a service reads.
fn add_members_read(res: &mut Vec<Member>, svc: Symbol, e: &Expr)
    ensures
        forall|s: Symbol, x: Symbol| #[trigger]
            final(res)@.contains((s, x)) <==> old(res)@.contains((s, x)) || free_var::names_member(
                e@,
                (s, x),
            ) || (s == svc && free_var::occurs_free(e@, x)),
{
    let ghost start = res@;
    let named = cross_service_deps(e);
    proof {
        collections::lemma_merged(start, named@);
    }
    insert_members(res, &named);
    let bound: HashSet<Symbol> = HashSet::new();
    let free = graph_node_list(&free_var_graph(e, &bound));
    let ghost middle = res@;
    let mut k: usize = 0;
    while k < free.len()
        invariant
            k <= free@.len(),
            forall|s: Symbol, x: Symbol| #[trigger]
                res@.contains((s, x)) <==> middle.contains((s, x)) || (s == svc && free@.take(
                    k as int,
                ).contains(x)),
        decreases free@.len() - k,
    {
        proof {
            collections::lemma_take_contains(free@, k as int);
            collections::lemma_with_member(res@, (svc, free@[k as int]));
        }
        insert_member(res, (svc, free[k]));
        k += 1;
    }
    assert(free@.take(k as int) =~= free@);
    assert forall|s: Symbol, x: Symbol| #[trigger] res@.contains((s, x)) <==> start.contains((s, x))
        || free_var::names_member(e@, (s, x)) || (s == svc && free_var::occurs_free(e@, x)) by {
        assert(middle.contains((s, x)) <==> start.contains((s, x)) || named@.contains((s, x)));
        assert(free@.contains(x) <==> free@.to_set().contains(x));
    }
}

/// Whether one of the members is of a service.
fn has_service(members: &Vec<Member>, s: Symbol) -> (res: bool)
    ensures
        !res ==> forall|x: Symbol| !#[trigger] members@.contains((s, x)),
{
    let mut i: usize = 0;
    while i < members.len()
        invariant
            i <= members@.len(),
            forall|k: int| 0 <= k < i ==> (#[trigger] members@[k]).0 != s,
        decreases members@.len() - i,
    {
        if members[i].0 == s {
            return true;
        }
        i += 1;
    }
    false
}

/// The names of the members of service `s` among those that declarations of service `svc` read.
fn list_members_read(
    manager: &Manager,
    svc: Symbol,
    decls: &Vec<Decl>,
    members: &Vec<Member>,
    s: Symbol,
) -> (res: Vec<String>)
    requires
        forall|s: Symbol, x: Symbol| #[trigger]
            members@.contains((s, x)) <==> reads_member(types::views(decls@), svc, s, x),
    ensures
        types::views(res@) == members_read(
            types::views(decls@),
            svc,
            s,
            manager@.names,
            manager@.names.len() as int,
        ),
{
    let ghost ds = types::views(decls@);
    let ghost names = manager@.names;
    let mut res: Vec<String> = Vec::new();
    assert(types::views(res@) =~= members_read(ds, svc, s, names, 0));
    let n: usize = manager.interner.len();
    let mut k: usize = 0;
    while k < n
        invariant
            k <= n,
            n == names.len(),
            names == manager@.names,
            forall|s: Symbol, x: Symbol| #[trigger]
                members@.contains((s, x)) <==> reads_member(ds, svc, s, x),
            types::views(res@) == members_read(ds, svc, s, names, k as int),
        decreases n - k,
    {
        if has_member(members, (s, k)) {
            res.push(manager.interner.text(k).to_owned());
        }
        k += 1;
    }
    res
}

/// Where nothing of a service is read, no names are listed.
proof fn lemma_none_read(
    decls: Seq<DeclV>,
    svc: Symbol,
    s: Symbol,
    names: Seq<Seq<char>>,
    k: int,
)
    requires
        forall|x: Symbol| !#[trigger] reads_member(decls, svc, s, x),
    ensures
        members_read(decls, svc, s, names, k).len() == 0,
    decreases k,
{
    if 0 < k <= names.len() {
        lemma_none_read(decls, svc, s, names, k - 1);
    }
}

/// Add the groups of what an update of a service reads at other services.
fn put_read_groups(
    manager: &Manager,
    svc: Symbol,
    decls: &Vec<Decl>,
    groups: &mut Vec<(String, LockGroup)>,
)
    ensures
        manager::groups_view(final(groups)@) == with_reads(
            manager::groups_view(old(groups)@),
            manager@,
            svc,
            types::views(decls@),
            manager@.names.len() as int,
        ),
{
    let ghost start = manager::groups_view(groups@);
    let ghost ds = types::views(decls@);
    let ghost m = manager@;
    let members = find_members_read(svc, decls);
    let n: usize = manager.interner.len();
    let mut k: usize = 0;
    while k < n
        invariant
            k <= n,
            m == manager@,
            n == m.names.len(),
            ds == types::views(decls@),
            forall|s: Symbol, x: Symbol| #[trigger]
                members@.contains((s, x)) <==> reads_member(types::views(decls@), svc, s, x),
            manager::groups_view(groups@) == with_reads(start, m, svc, ds, k as int),
        decreases n - k,
    {
        if k != svc {
            if has_service(&members, k) {
                let reads = list_members_read(manager, svc, decls, &members, k);
                if reads.len() > 0 {
                    let writes: Vec<String> = Vec::new();
                    assert(types::views(writes@) =~= Seq::<Seq<char>>::empty());
                    let g = LockGroup { service_level_lock: false, reads, writes };
                    assert(g@ == reads_at(m, svc, ds, k));
                    put_group(groups, manager.interner.text(k).to_owned(), g);
                }
            } else {
                proof {
                    assert forall|x: Symbol| !#[trigger] reads_member(ds, svc, k, x) by {
                        assert(!members@.contains((k, x)));
                    }
                    lemma_none_read(ds, svc, k, m.names, m.names.len() as int);
                }
            }
        }
        k += 1;
    }
}

/// The locks that updates need, by service; nothing where one declares a table.
pub fn lock_needs(manager: &Manager, updates: &Vec<Stmt>) -> (res: Option<
    Vec<(String, LockGroup)>,
>)
    ensures
        match res {
            Some(groups) => !declares_table(types::views(updates@)) && manager::groups_view(
                groups@,
            ) == needed(manager@, types::views(updates@)),
            None => declares_table(types::views(updates@)),
        },
{
    let ghost us = types::views(updates@);
    let ghost m = manager@;
    let mut groups: Vec<(String, LockGroup)> = Vec::new();
    let mut i: usize = 0;
    assert(manager::groups_view(groups@) =~= needed(m, us.take(0)));
    while i < updates.len()
        invariant
            i <= updates@.len(),
            us == types::views(updates@),
            m == manager@,
            manager::groups_view(groups@) == needed(m, us.take(i as int)),
            forall|k: int|
                0 <= k < i ==> (patch::block_of(#[trigger] us[k]) matches Some((_, decls))
                    ==> !has_table(decls)),
        decreases updates@.len() - i,
    {
        assert(us.take(i + 1).drop_last() =~= us.take(i as int));
        assert(us.take(i + 1).last() == updates@[i as int]@);
        assert(us[i as int] == updates@[i as int]@);
        proof {
            ast::lemma_stmt_view(updates@[i as int]);
        }
        match &updates[i] {
            Stmt::Service { name, decls } => {
                match find_group(manager, *name, decls) {
                    Some(g) => {
                        put_group(&mut groups, manager.interner.text(*name).to_owned(), g);
                        put_read_groups(manager, *name, decls, &mut groups);
                    },
                    None => {
                        assert(declares_table(us));
                        return None;
                    },
                }
            },
            Stmt::Update { service_name, decls } => {
                match find_group(manager, *service_name, decls) {
                    Some(g) => {
                        let name = manager.interner.text(*service_name).to_owned();
                        put_group(&mut groups, name, g);
                        put_read_groups(manager, *service_name, decls, &mut groups);
                    },
                    None => {
                        assert(declares_table(us));
                        return None;
                    },
                }
            },
            _ => {},
        }
        i += 1;
    }
    assert(us.take(i as int) =~= us);
    Some(groups)
}

/// Whether the locks of a group are among those of the group of a service.
pub open spec fn covers(
    groups: Seq<(Seq<char>, LockGroupV)>,
    name: Seq<char>,
    g: LockGroupV,
) -> bool {
    exists|k: int|
        0 <= k < groups.len() && (#[trigger] groups[k]).0 == name && includes(groups[k].1, g)
}

/// Whether a group holds the locks of another.
pub open spec fn includes(a: LockGroupV, b: LockGroupV) -> bool {
    &&& b.service_level_lock ==> a.service_level_lock
    &&& forall|t: Seq<char>| #[trigger] b.reads.contains(t) ==> a.reads.contains(t)
    &&& forall|t: Seq<char>| #[trigger] b.writes.contains(t) ==> a.writes.contains(t)
}

/// A list with texts appended holds both.
proof fn lemma_with_texts(texts: Seq<Seq<char>>, more: Seq<Seq<char>>)
    ensures
        forall|t: Seq<char>| #[trigger]
            with_texts(texts, more).contains(t) <==> texts.contains(t) || more.contains(t),
    decreases more.len(),
{
    if more.len() > 0 {
        let r = more.drop_last();
        let a = with_texts(texts, r);
        lemma_with_texts(texts, r);
        collections::lemma_take_contains(more, more.len() - 1);
        assert(more.take(more.len() - 1) =~= r);
        assert(more.take(more.len() as int) =~= more);
        assert forall|t: Seq<char>| #[trigger] with_texts(texts, more).contains(t)
            <==> texts.contains(t) || more.contains(t) by {
            assert(a.contains(t) <==> texts.contains(t) || r.contains(t));
            if !a.contains(more.last()) {
                let b = a.push(more.last());
                if a.contains(t) {
                    let k = choose|k: int| 0 <= k < a.len() && a[k] == t;
                    assert(b[k] == t);
                }
                assert(b[a.len() as int] == more.last());
            }
        }
    }
}

/// Where the group of a service stands.
proof fn lemma_group_index(groups: Seq<(Seq<char>, LockGroupV)>, i: int, name: Seq<char>)
    requires
        0 <= i,
    ensures
        match group_index(groups, i, name) {
            Some(k) => i <= k < groups.len() && groups[k].0 == name,
            None => forall|k: int| i <= k < groups.len() ==> (#[trigger] groups[k]).0 != name,
        },
    decreases groups.len() - i,
{
    if i < groups.len() && groups[i].0 != name {
        lemma_group_index(groups, i + 1, name);
    }
}

/// One more group takes no locks away.
proof fn lemma_with_group(
    groups: Seq<(Seq<char>, LockGroupV)>,
    name: Seq<char>,
    g: LockGroupV,
    other: Seq<char>,
    h: LockGroupV,
)
    ensures
        covers(with_group(groups, name, g), name, g),
        covers(groups, other, h) ==> covers(with_group(groups, name, g), other, h),
{
    let after = with_group(groups, name, g);
    lemma_group_index(groups, 0, name);
    match group_index(groups, 0, name) {
        Some(k) => {
            lemma_with_texts(groups[k].1.reads, g.reads);
            lemma_with_texts(groups[k].1.writes, g.writes);
            assert(after[k].0 == name && includes(after[k].1, g));
            if covers(groups, other, h) {
                let j = choose|j: int|
                    0 <= j < groups.len() && (#[trigger] groups[j]).0 == other && includes(
                        groups[j].1,
                        h,
                    );
                assert(after[j].0 == other && includes(after[j].1, h));
            }
        },
        None => {
            assert(after[groups.len() as int].0 == name);
            if covers(groups, other, h) {
                let j = choose|j: int|
                    0 <= j < groups.len() && (#[trigger] groups[j]).0 == other && includes(
                        groups[j].1,
                        h,
                    );
                assert(after[j] == groups[j]);
            }
        },
    }
}

/// The groups of what is read at other services.
proof fn lemma_with_reads(
    groups: Seq<(Seq<char>, LockGroupV)>,
    m: ManagerV,
    svc: Symbol,
    decls: Seq<DeclV>,
    k: int,
    other: Seq<char>,
    h: LockGroupV,
)
    requires
        0 <= k <= m.names.len(),
    ensures
        covers(groups, other, h) ==> covers(with_reads(groups, m, svc, decls, k), other, h),
        forall|s: Symbol|
            s < k && s != svc && (#[trigger] reads_at(m, svc, decls, s)).reads.len() > 0 ==> covers(
                with_reads(groups, m, svc, decls, k),
                m.names[s as int],
                reads_at(m, svc, decls, s),
            ),
    decreases k,
{
    if k > 0 {
        let before = with_reads(groups, m, svc, decls, k - 1);
        let t = (k - 1) as Symbol;
        lemma_with_reads(groups, m, svc, decls, k - 1, other, h);
        lemma_with_group(before, m.names[k - 1], reads_at(m, svc, decls, t), other, h);
        assert forall|s: Symbol|
            s < k && s != svc && (#[trigger] reads_at(m, svc, decls, s)).reads.len()
                > 0 implies covers(
            with_reads(groups, m, svc, decls, k),
            m.names[s as int],
            reads_at(m, svc, decls, s),
        ) by {
            lemma_with_group(
                before,
                m.names[k - 1],
                reads_at(m, svc, decls, t),
                m.names[s as int],
                reads_at(m, svc, decls, s),
            );
        }
    }
}

/// The locks that updates need hold those of each of them: of what it writes and reads at its
/// service, of the service itself where it brings something new, and of what it reads at other
/// services. A later update of the same service takes none of them away.
pub proof fn every_update_is_covered(m: ManagerV, updates: Seq<StmtV>, i: int)
    requires
        0 <= i < updates.len(),
    ensures
        patch::block_of(updates[i]) matches Some((svc, decls)) ==> {
            &&& covers(
                needed(m, updates),
                interner::name_text(m.names, svc),
                group_of(m, svc, decls),
            )
            &&& forall|s: Symbol|
                s < m.names.len() && s != svc && (#[trigger] reads_at(m, svc, decls, s)).reads.len()
                    > 0 ==> covers(
                    needed(m, updates),
                    m.names[s as int],
                    reads_at(m, svc, decls, s),
                )
        },
    decreases updates.len(),
{
    if let Some((svc, decls)) = patch::block_of(updates[i]) {
        let shorter = updates.drop_last();
        let before = needed(m, shorter);
        let name = interner::name_text(m.names, svc);
        let g = group_of(m, svc, decls);
        let n = m.names.len() as int;
        if i == updates.len() - 1 {
            lemma_with_group(before, name, g, name, g);
            let own = with_group(before, name, g);
            lemma_with_reads(own, m, svc, decls, n, name, g);
        } else {
            assert(shorter[i] == updates[i]);
            every_update_is_covered(m, shorter, i);
            lemma_update_keeps(m, updates, name, g);
            assert forall|s: Symbol|
                s < m.names.len() && s != svc && (#[trigger] reads_at(m, svc, decls, s)).reads.len()
                    > 0 implies covers(
                needed(m, updates),
                m.names[s as int],
                reads_at(m, svc, decls, s),
            ) by {
                lemma_update_keeps(m, updates, m.names[s as int], reads_at(m, svc, decls, s));
            }
        }
    }
}

/// One more update takes no locks away.
proof fn lemma_update_keeps(m: ManagerV, updates: Seq<StmtV>, name: Seq<char>, g: LockGroupV)
    requires
        updates.len() > 0,
        covers(needed(m, updates.drop_last()), name, g),
    ensures
        covers(needed(m, updates), name, g),
{
    if let Some((svc, decls)) = patch::block_of(updates.last()) {
        let before = needed(m, updates.drop_last());
        let own = interner::name_text(m.names, svc);
        lemma_with_group(before, own, group_of(m, svc, decls), name, g);
        lemma_with_reads(
            with_group(before, own, group_of(m, svc, decls)),
            m,
            svc,
            decls,
            m.names.len() as int,
            name,
            g,
        );
    }
}

} // verus!
