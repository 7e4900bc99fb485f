//! What an update declares stands in the changed program, and nothing else changes there.

use vstd::prelude::*;

use crate::runtime::ast;
use crate::runtime::ast::{DeclV, StmtV};
use crate::runtime::interner::Symbol;
use crate::runtime::update::patch;

verus! {

/// Whether no two declarations have the same name.
pub open spec fn distinct(decls: Seq<DeclV>) -> bool {
    forall|i: int, j: int|
        0 <= i < j < decls.len() ==> ast::decl_name(#[trigger] decls[i]) != ast::decl_name(
            #[trigger] decls[j],
        )
}

/// Whether no two services of a program have the same name, and no two declarations of one do.
pub open spec fn distinct_program(prog: Seq<StmtV>) -> bool {
    &&& forall|k: int|
        0 <= k < prog.len() && (#[trigger] prog[k]) is Service ==> distinct(prog[k]->Service_decls)
    &&& forall|k: int, l: int|
        0 <= k < l < prog.len() && (#[trigger] prog[k]) is Service && (#[trigger] prog[l]) is Service
            ==> prog[k]->Service_name != prog[l]->Service_name
}

/// Whether statement `k` of a program is a service of a name that holds a declaration.
pub open spec fn holds(prog: Seq<StmtV>, k: int, svc: Symbol, d: DeclV) -> bool {
    0 <= k < prog.len() && prog[k] is Service && prog[k]->Service_name == svc
        && prog[k]->Service_decls.contains(d)
}

/// Whether a service of a program holds a declaration.
pub open spec fn declared_as(prog: Seq<StmtV>, svc: Symbol, d: DeclV) -> bool {
    exists|k: int| #[trigger] holds(prog, k, svc, d)
}

/// Whether a declaration is the last of its name.
pub open spec fn is_last(decls: Seq<DeclV>, d: DeclV) -> bool {
    exists|j: int|
        0 <= j < decls.len() && #[trigger] decls[j] == d && forall|i: int|
            j < i < decls.len() ==> ast::decl_name(#[trigger] decls[i]) != ast::decl_name(d)
}

/// Whether a statement declares a name in a service anew.
pub open spec fn changes(s: StmtV, svc: Symbol, x: Symbol) -> bool {
    (s is Service && s->Service_name == svc && patch::has_decl(s->Service_decls, x)) || (s is Update
        && s->Update_service_name == svc && patch::has_decl(s->Update_decls, x))
}

/// Whether a declaration is the last of its name in a statement about a service.
pub open spec fn sets(s: StmtV, svc: Symbol, d: DeclV) -> bool {
    (s is Service && s->Service_name == svc && is_last(s->Service_decls, d)) || (s is Update
        && s->Update_service_name == svc && is_last(s->Update_decls, d))
}

/// Whether a declaration is the last of its name in updates of a service.
pub open spec fn last_change(updates: Seq<StmtV>, svc: Symbol, d: DeclV) -> bool {
    exists|k: int|
        0 <= k < updates.len() && sets(#[trigger] updates[k], svc, d) && forall|l: int|
            k < l < updates.len() ==> !changes(#[trigger] updates[l], svc, ast::decl_name(d))
}

/// Whether no update declares a name in a service.
pub open spec fn no_change(updates: Seq<StmtV>, svc: Symbol, x: Symbol) -> bool {
    forall|k: int| 0 <= k < updates.len() ==> !changes(#[trigger] updates[k], svc, x)
}

/// What the search for a declaration finds.
proof fn lemma_index(decls: Seq<DeclV>, i: int, x: Symbol)
    requires
        0 <= i,
    ensures
        match patch::decl_index(decls, i, x) {
            Some(k) => i <= k < decls.len() && ast::decl_name(decls[k]) == x,
            None => forall|k: int| i <= k < decls.len() ==> ast::decl_name(#[trigger] decls[k]) != x,
        },
    decreases decls.len() - i,
{
    if i < decls.len() {
        lemma_index(decls, i + 1, x);
    }
}

/// What putting one declaration in gives.
proof fn lemma_with_decl(decls: Seq<DeclV>, d: DeclV)
    requires
        distinct(decls),
    ensures
        distinct(patch::with_decl(decls, d)),
        forall|d2: DeclV| #[trigger]
            patch::with_decl(decls, d).contains(d2) <==> d2 == d || (decls.contains(d2)
                && ast::decl_name(d2) != ast::decl_name(d)),
{
    let x = ast::decl_name(d);
    let after = patch::with_decl(decls, d);
    lemma_index(decls, 0, x);
    match patch::decl_index(decls, 0, x) {
        Some(k) => {
            assert(after[k] == d);
            assert forall|d2: DeclV| #[trigger] after.contains(d2) <==> d2 == d || (decls.contains(
                d2,
            ) && ast::decl_name(d2) != x) by {
                if after.contains(d2) && d2 != d {
                    let i = choose|i: int| 0 <= i < after.len() && after[i] == d2;
                    assert(decls[i] == d2);
                    assert(decls.contains(decls[i]));
                    if i < k {
                        assert(ast::decl_name(decls[i]) != ast::decl_name(decls[k]));
                    } else {
                        assert(ast::decl_name(decls[k]) != ast::decl_name(decls[i]));
                    }
                }
                if decls.contains(d2) && ast::decl_name(d2) != x {
                    let i = choose|i: int| 0 <= i < decls.len() && decls[i] == d2;
                    assert(after[i] == d2);
                }
            }
        },
        None => {
            assert(after[decls.len() as int] == d);
            assert forall|d2: DeclV| #[trigger] after.contains(d2) <==> d2 == d || (decls.contains(
                d2,
            ) && ast::decl_name(d2) != x) by {
                if after.contains(d2) && d2 != d {
                    let i = choose|i: int| 0 <= i < after.len() && after[i] == d2;
                    assert(decls[i] == d2);
                }
                if decls.contains(d2) {
                    let i = choose|i: int| 0 <= i < decls.len() && decls[i] == d2;
                    assert(after[i] == d2);
                    assert(ast::decl_name(decls[i]) != x);
                }
            }
        },
    }
}

/// What putting declarations in gives.
proof fn lemma_with_decls(decls: Seq<DeclV>, new: Seq<DeclV>)
    requires
        distinct(decls),
    ensures
        distinct(patch::with_decls(decls, new)),
        forall|d: DeclV| #[trigger]
            patch::with_decls(decls, new).contains(d) <==> is_last(new, d) || (decls.contains(d)
                && !patch::has_decl(new, ast::decl_name(d))),
    decreases new.len(),
{
    if new.len() > 0 {
        let rest = new.drop_last();
        let d0 = new.last();
        assert(d0 == new[new.len() - 1]);
        lemma_with_decls(decls, rest);
        let before = patch::with_decls(decls, rest);
        lemma_with_decl(before, d0);
        assert forall|d: DeclV| #[trigger] patch::with_decls(decls, new).contains(d) <==> is_last(
            new,
            d,
        ) || (decls.contains(d) && !patch::has_decl(new, ast::decl_name(d))) by {
            let x = ast::decl_name(d);
            assert(before.contains(d) <==> is_last(rest, d) || (decls.contains(d)
                && !patch::has_decl(rest, x)));
            if patch::has_decl(rest, x) {
                let i = choose|i: int| 0 <= i < rest.len() && ast::decl_name(#[trigger] rest[i]) == x;
                assert(ast::decl_name(new[i]) == x);
            }
            if patch::has_decl(new, x) && x != ast::decl_name(d0) {
                let i = choose|i: int| 0 <= i < new.len() && ast::decl_name(#[trigger] new[i]) == x;
                assert(ast::decl_name(rest[i]) == x);
            }
            if d == d0 {
                assert(new[new.len() - 1] == d);
                assert(is_last(new, d));
            } else {
                if is_last(new, d) {
                    let j = choose|j: int|
                        0 <= j < new.len() && #[trigger] new[j] == d && forall|i: int|
                            j < i < new.len() ==> ast::decl_name(#[trigger] new[i]) != x;
                    assert(ast::decl_name(new[new.len() - 1]) != x);
                    assert(rest[j] == d);
                    assert forall|i: int| j < i < rest.len() implies ast::decl_name(
                        #[trigger] rest[i],
                    ) != x by {
                        assert(rest[i] == new[i]);
                    }
                    assert(is_last(rest, d));
                }
                if is_last(rest, d) && x != ast::decl_name(d0) {
                    let j = choose|j: int|
                        0 <= j < rest.len() && #[trigger] rest[j] == d && forall|i: int|
                            j < i < rest.len() ==> ast::decl_name(#[trigger] rest[i]) != x;
                    assert(new[j] == d);
                    assert forall|i: int| j < i < new.len() implies ast::decl_name(
                        #[trigger] new[i],
                    ) != x by {
                        if i < rest.len() {
                            assert(rest[i] == new[i]);
                        }
                    }
                    assert(is_last(new, d));
                }
                if x == ast::decl_name(d0) {
                    assert(ast::decl_name(new[new.len() - 1]) == x);
                    assert(patch::has_decl(new, x));
                }
            }
        }
    } else {
        assert forall|d: DeclV| !is_last(new, d) by {}
        assert forall|x: Symbol| !patch::has_decl(new, x) by {}
    }
}

/// What the search for a service finds.
proof fn lemma_service(prog: Seq<StmtV>, i: int, svc: Symbol)
    requires
        0 <= i,
    ensures
        match patch::service_index(prog, i, svc) {
            Some(k) => i <= k < prog.len() && prog[k] is Service && prog[k]->Service_name == svc,
            None => forall|k: int|
                i <= k < prog.len() ==> !((#[trigger] prog[k]) is Service && prog[k]->Service_name
                    == svc),
        },
    decreases prog.len() - i,
{
    if i < prog.len() {
        lemma_service(prog, i + 1, svc);
    }
}

/// Declarations of which no two have the same name are each the last of theirs.
proof fn lemma_distinct_last(decls: Seq<DeclV>, d: DeclV)
    requires
        distinct(decls),
    ensures
        decls.contains(d) <==> is_last(decls, d),
{
    if decls.contains(d) {
        let j = choose|j: int| 0 <= j < decls.len() && decls[j] == d;
        assert(decls[j] == d);
    }
}

/// What putting one statement in gives.
#[verifier::rlimit(60)]
proof fn lemma_patched_one(prog: Seq<StmtV>, s: StmtV, svc: Symbol, d: DeclV)
    requires
        distinct_program(prog),
        patch::patched_one(prog, s) is Ok,
        s is Service ==> distinct(s->Service_decls),
    ensures
        distinct_program(patch::patched_one(prog, s)->Ok_0),
        declared_as(patch::patched_one(prog, s)->Ok_0, svc, d) <==> sets(s, svc, d) || (declared_as(
            prog,
            svc,
            d,
        ) && !changes(s, svc, ast::decl_name(d))),
{
    let after = patch::patched_one(prog, s)->Ok_0;
    match patch::block_of(s) {
        None => {},
        Some((target, new)) => {
            lemma_service(prog, 0, target);
            match patch::service_index(prog, 0, target) {
                Some(k) => {
                    let old_decls = prog[k]->Service_decls;
                    lemma_with_decls(old_decls, new);
                    assert(after[k]->Service_decls == patch::with_decls(old_decls, new));
                    assert forall|a: int, b: int|
                        0 <= a < b < after.len() && (#[trigger] after[a]) is Service && (
                        #[trigger] after[b]) is Service implies after[a]->Service_name
                        != after[b]->Service_name by {
                        assert(prog[a] is Service && prog[b] is Service);
                        assert(prog[a]->Service_name != prog[b]->Service_name);
                    }
                    assert forall|a: int|
                        0 <= a < after.len() && (#[trigger] after[a]) is Service implies distinct(
                        after[a]->Service_decls,
                    ) by {
                        if a != k {
                            assert(after[a] == prog[a]);
                        }
                    }
                    if target == svc {
                        assert(patch::with_decls(old_decls, new).contains(d) <==> is_last(new, d)
                            || (old_decls.contains(d) && !patch::has_decl(
                            new,
                            ast::decl_name(d),
                        )));
                        if declared_as(after, svc, d) {
                            let a = choose|a: int| #[trigger] holds(after, a, svc, d);
                            assert(a == k) by {
                                if a < k {
                                    assert(prog[a] is Service && prog[k] is Service);
                                } else if k < a {
                                    assert(prog[k] is Service && prog[a] is Service);
                                }
                            }
                            if old_decls.contains(d) {
                                assert(holds(prog, k, svc, d));
                            }
                        }
                        if declared_as(prog, svc, d) {
                            let a = choose|a: int| #[trigger] holds(prog, a, svc, d);
                            assert(a == k) by {
                                if a < k {
                                    assert(prog[a] is Service && prog[k] is Service);
                                } else if k < a {
                                    assert(prog[k] is Service && prog[a] is Service);
                                }
                            }
                        }
                        if patch::with_decls(old_decls, new).contains(d) {
                            assert(holds(after, k, svc, d));
                        }
                    } else {
                        if declared_as(after, svc, d) {
                            let a = choose|a: int| #[trigger] holds(after, a, svc, d);
                            assert(holds(prog, a, svc, d));
                        }
                        if declared_as(prog, svc, d) {
                            let a = choose|a: int| #[trigger] holds(prog, a, svc, d);
                            assert(holds(after, a, svc, d));
                        }
                    }
                },
                None => {
                    let n = prog.len() as int;
                    assert(after[n] == s);
                    lemma_distinct_last(new, d);
                    assert forall|a: int, b: int|
                        0 <= a < b < after.len() && (#[trigger] after[a]) is Service && (
                        #[trigger] after[b]) is Service implies after[a]->Service_name
                        != after[b]->Service_name by {
                        assert(after[a] == prog[a]);
                        if b < n {
                            assert(after[b] == prog[b]);
                        }
                    }
                    assert forall|a: int|
                        0 <= a < after.len() && (#[trigger] after[a]) is Service implies distinct(
                        after[a]->Service_decls,
                    ) by {
                        if a != n {
                            assert(after[a] == prog[a]);
                        }
                    }
                    if declared_as(after, svc, d) {
                        let a = choose|a: int| #[trigger] holds(after, a, svc, d);
                        if a < n {
                            assert(after[a] == prog[a]);
                            assert(holds(prog, a, svc, d));
                        }
                    }
                    if declared_as(prog, svc, d) {
                        let a = choose|a: int| #[trigger] holds(prog, a, svc, d);
                        assert(after[a] == prog[a]);
                        assert(holds(after, a, svc, d));
                    }
                    if target == svc && new.contains(d) {
                        assert(holds(after, n, svc, d));
                    }
                },
            }
        },
    }
}

/// An update puts into each service exactly the last declaration of every name that it declares
/// there, in the place of the one that stood there before, and leaves every other declaration as
/// it is.
pub proof fn updates_change_what_they_declare(
    prog: Seq<StmtV>,
    updates: Seq<StmtV>,
    svc: Symbol,
    d: DeclV,
)
    requires
        distinct_program(prog),
        forall|k: int|
            0 <= k < updates.len() && (#[trigger] updates[k]) is Service ==> distinct(
                updates[k]->Service_decls,
            ),
        patch::patched(prog, updates) is Ok,
    ensures
        distinct_program(patch::patched(prog, updates)->Ok_0),
        declared_as(patch::patched(prog, updates)->Ok_0, svc, d) <==> last_change(updates, svc, d)
            || (declared_as(prog, svc, d) && no_change(updates, svc, ast::decl_name(d))),
    decreases updates.len(),
{
    if updates.len() > 0 {
        let rest = updates.drop_last();
        let s = updates.last();
        let n = updates.len() - 1;
        let x = ast::decl_name(d);
        assert(s == updates[n]);
        assert forall|k: int| 0 <= k < rest.len() && (#[trigger] rest[k]) is Service implies distinct(
            rest[k]->Service_decls,
        ) by {
            assert(rest[k] == updates[k]);
        }
        updates_change_what_they_declare(prog, rest, svc, d);
        lemma_patched_one(patch::patched(prog, rest)->Ok_0, s, svc, d);
        if last_change(updates, svc, d) {
            let k = choose|k: int|
                0 <= k < updates.len() && sets(#[trigger] updates[k], svc, d) && forall|l: int|
                    k < l < updates.len() ==> !changes(#[trigger] updates[l], svc, x);
            if k < n {
                assert(!changes(updates[n], svc, x));
                assert(sets(rest[k], svc, d));
                assert forall|l: int| k < l < rest.len() implies !changes(
                    #[trigger] rest[l],
                    svc,
                    x,
                ) by {
                    assert(rest[l] == updates[l]);
                }
                assert(last_change(rest, svc, d));
            }
        }
        if sets(s, svc, d) {
            assert(sets(updates[n], svc, d));
            assert(last_change(updates, svc, d));
        }
        if last_change(rest, svc, d) && !changes(s, svc, x) {
            let k = choose|k: int|
                0 <= k < rest.len() && sets(#[trigger] rest[k], svc, d) && forall|l: int|
                    k < l < rest.len() ==> !changes(#[trigger] rest[l], svc, x);
            assert(sets(updates[k], svc, d));
            assert forall|l: int| k < l < updates.len() implies !changes(
                #[trigger] updates[l],
                svc,
                x,
            ) by {
                if l < n {
                    assert(rest[l] == updates[l]);
                }
            }
            assert(last_change(updates, svc, d));
        }
        if no_change(updates, svc, x) {
            assert(!changes(updates[n], svc, x));
            assert forall|k: int| 0 <= k < rest.len() implies !changes(
                #[trigger] rest[k],
                svc,
                x,
            ) by {
                assert(rest[k] == updates[k]);
            }
        }
        if no_change(rest, svc, x) && !changes(s, svc, x) {
            assert forall|k: int| 0 <= k < updates.len() implies !changes(
                #[trigger] updates[k],
                svc,
                x,
            ) by {
                if k < n {
                    assert(rest[k] == updates[k]);
                }
            }
        }
    }
}

} // verus!
