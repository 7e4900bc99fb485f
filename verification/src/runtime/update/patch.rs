//! Putting updates into a program.

use vstd::prelude::*;

use crate::runtime::ast;
use crate::runtime::ast::{clone_decls, clone_stmts, Decl, DeclV, Stmt, StmtV};
use crate::runtime::interner::Symbol;
use crate::runtime::tt::check::name_of_decl;
use crate::runtime::tt::types;

verus! {

broadcast use {types::views_push, ast::group_ast_views};

/// The service that a statement updates, and its new declarations.
pub open spec fn block_of(s: StmtV) -> Option<(Symbol, Seq<DeclV>)> {
    match s {
        StmtV::Service { name, decls } => Some((name, decls)),
        StmtV::Update { service_name, decls } => Some((service_name, decls)),
        _ => None,
    }
}

/// Where the first declaration of a name stands, from the `i`th on.
pub open spec fn decl_index(decls: Seq<DeclV>, i: int, x: Symbol) -> Option<int>
    decreases decls.len() - i,
{
    if i < 0 || i >= decls.len() {
        None
    } else if ast::decl_name(decls[i]) == x {
        Some(i)
    } else {
        decl_index(decls, i + 1, x)
    }
}

/// Declarations with one more, which takes the place of one with the same name.
pub open spec fn with_decl(decls: Seq<DeclV>, d: DeclV) -> Seq<DeclV> {
    match decl_index(decls, 0, ast::decl_name(d)) {
        Some(k) => decls.update(k, d),
        None => decls.push(d),
    }
}

/// Declarations with others put in, one after another.
pub open spec fn with_decls(decls: Seq<DeclV>, new: Seq<DeclV>) -> Seq<DeclV>
    decreases new.len(),
{
    if new.len() == 0 {
        decls
    } else {
        with_decl(with_decls(decls, new.drop_last()), new.last())
    }
}

/// Where the first service with a name stands, from the `i`th statement on.
pub open spec fn service_index(prog: Seq<StmtV>, i: int, svc: Symbol) -> Option<int>
    decreases prog.len() - i,
{
    if i < 0 || i >= prog.len() {
        None
    } else {
        match prog[i] {
            StmtV::Service { name, .. } if name == svc => Some(i),
            _ => service_index(prog, i + 1, svc),
        }
    }
}

/// A program with a statement put in: its declarations go to the service of that name. A service
/// that the program lacks is added; to update one is an error.
pub open spec fn patched_one(prog: Seq<StmtV>, s: StmtV) -> Result<Seq<StmtV>, Symbol> {
    match block_of(s) {
        None => Ok(prog),
        Some((svc, new)) => match service_index(prog, 0, svc) {
            Some(k) => Ok(
                prog.update(
                    k,
                    StmtV::Service { name: svc, decls: with_decls(prog[k]->Service_decls, new) },
                ),
            ),
            None => if s is Service {
                Ok(prog.push(s))
            } else {
                Err(svc)
            },
        },
    }
}

/// A program with updates put in, one after another.
pub open spec fn patched(prog: Seq<StmtV>, updates: Seq<StmtV>) -> Result<Seq<StmtV>, Symbol>
    decreases updates.len(),
{
    if updates.len() == 0 {
        Ok(prog)
    } else {
        match patched(prog, updates.drop_last()) {
            Err(s) => Err(s),
            Ok(p) => patched_one(p, updates.last()),
        }
    }
}

/// Whether declarations declare a name.
pub open spec fn has_decl(decls: Seq<DeclV>, x: Symbol) -> bool {
    exists|i: int| 0 <= i < decls.len() && ast::decl_name(#[trigger] decls[i]) == x
}

/// Whether a service of a program declares a name.
pub open spec fn has_member(prog: Seq<StmtV>, svc: Symbol, x: Symbol) -> bool {
    exists|i: int|
        0 <= i < prog.len() && (#[trigger] prog[i] matches StmtV::Service { name, decls } && name
            == svc && has_decl(decls, x))
}

/// What the search for a declaration finds.
proof fn lemma_decl_index(decls: Seq<DeclV>, i: int, x: Symbol)
    requires
        0 <= i,
    ensures
        decl_index(decls, i, x) matches Some(k) ==> i <= k < decls.len() && ast::decl_name(decls[k])
            == x,
    decreases decls.len() - i,
{
    if i < decls.len() {
        lemma_decl_index(decls, i + 1, x);
    }
}

/// What the search for a service finds.
proof fn lemma_service_index(prog: Seq<StmtV>, i: int, svc: Symbol)
    requires
        0 <= i,
    ensures
        service_index(prog, i, svc) matches Some(k) ==> i <= k < prog.len() && prog[k] is Service
            && prog[k]->Service_name == svc,
    decreases prog.len() - i,
{
    if i < prog.len() {
        lemma_service_index(prog, i + 1, svc);
    }
}

/// Putting declarations in keeps the names declared before, and declares the new ones.
proof fn lemma_with_decls(decls: Seq<DeclV>, new: Seq<DeclV>, x: Symbol)
    requires
        has_decl(decls, x) || has_decl(new, x),
    ensures
        has_decl(with_decls(decls, new), x),
    decreases new.len(),
{
    if new.len() > 0 {
        let before = with_decls(decls, new.drop_last());
        let d = new.last();
        lemma_decl_index(before, 0, ast::decl_name(d));
        let after = with_decl(before, d);
        if ast::decl_name(d) == x {
            match decl_index(before, 0, x) {
                Some(k) => {
                    assert(ast::decl_name(after[k]) == x);
                },
                None => {
                    assert(after[before.len() as int] == d);
                },
            }
        } else {
            if !has_decl(decls, x) {
                let i = choose|i: int|
                    0 <= i < new.len() && ast::decl_name(#[trigger] new[i]) == x;
                assert(new.drop_last()[i] == new[i]);
                assert(has_decl(new.drop_last(), x));
            }
            lemma_with_decls(decls, new.drop_last(), x);
            let i = choose|i: int|
                0 <= i < before.len() && ast::decl_name(#[trigger] before[i]) == x;
            assert(after[i] == before[i]);
        }
    }
}

/// Putting a statement in keeps every member of the program.
proof fn lemma_patched_one(prog: Seq<StmtV>, s: StmtV, svc: Symbol, x: Symbol)
    requires
        has_member(prog, svc, x),
        patched_one(prog, s) is Ok,
    ensures
        has_member(patched_one(prog, s)->Ok_0, svc, x),
{
    let i = choose|i: int|
        0 <= i < prog.len() && (#[trigger] prog[i] matches StmtV::Service { name, decls } && name
            == svc && has_decl(decls, x));
    let after = patched_one(prog, s)->Ok_0;
    if let Some((target, new)) = block_of(s) {
        lemma_service_index(prog, 0, target);
        match service_index(prog, 0, target) {
            Some(k) => {
                if i == k {
                    lemma_with_decls(prog[k]->Service_decls, new, x);
                }
                assert(after[i] is Service && after[i]->Service_name == svc && has_decl(
                    after[i]->Service_decls,
                    x,
                ));
            },
            None => {
                assert(after[i] == prog[i]);
            },
        }
    }
}

/// An update removes no member: what a program declares, it still declares once updates are put
/// in.
pub proof fn updates_keep_members(
    prog: Seq<StmtV>,
    updates: Seq<StmtV>,
    svc: Symbol,
    x: Symbol,
)
    requires
        has_member(prog, svc, x),
        patched(prog, updates) is Ok,
    ensures
        has_member(patched(prog, updates)->Ok_0, svc, x),
    decreases updates.len(),
{
    if updates.len() > 0 {
        updates_keep_members(prog, updates.drop_last(), svc, x);
        lemma_patched_one(patched(prog, updates.drop_last())->Ok_0, updates.last(), svc, x);
    }
}

/// What an update declares, the program declares once the update is put in.
pub proof fn updates_declare_members(
    prog: Seq<StmtV>,
    updates: Seq<StmtV>,
    i: int,
    svc: Symbol,
    x: Symbol,
)
    requires
        0 <= i < updates.len(),
        block_of(updates[i]) is Some,
        (block_of(updates[i])->0).0 == svc,
        has_decl((block_of(updates[i])->0).1, x),
        patched(prog, updates) is Ok,
    ensures
        has_member(patched(prog, updates)->Ok_0, svc, x),
    decreases updates.len(),
{
    let before = patched(prog, updates.drop_last())->Ok_0;
    if i < updates.len() - 1 {
        assert(updates.drop_last()[i] == updates[i]);
        updates_declare_members(prog, updates.drop_last(), i, svc, x);
        lemma_patched_one(before, updates.last(), svc, x);
    } else {
        let new = (block_of(updates[i])->0).1;
        let after = patched(prog, updates)->Ok_0;
        lemma_service_index(before, 0, svc);
        match service_index(before, 0, svc) {
            Some(k) => {
                lemma_with_decls(before[k]->Service_decls, new, x);
                assert(after[k] is Service && after[k]->Service_name == svc && has_decl(
                    after[k]->Service_decls,
                    x,
                ));
            },
            None => {
                assert(after[before.len() as int] == updates[i]);
            },
        }
    }
}

/// Put a declaration in the place of one with the same name, or at the end.
fn put_decl(decls: &mut Vec<Decl>, d: &Decl)
    ensures
        types::views(final(decls)@) == with_decl(types::views(old(decls)@), d@),
{
    let ghost before = types::views(decls@);
    let name = name_of_decl(d);
    let mut i: usize = 0;
    while i < decls.len()
        invariant
            i <= decls@.len(),
            before == types::views(old(decls)@),
            decls@ == old(decls)@,
            name == ast::decl_name(d@),
            decl_index(before, 0, name) == decl_index(before, i as int, name),
        decreases decls@.len() - i,
    {
        assert(before[i as int] == decls@[i as int]@);
        if name_of_decl(&decls[i]) == name {
            decls.set(i, d.clone());
            assert(types::views(decls@) =~= before.update(i as int, d@));
            return;
        }
        i += 1;
    }
    decls.push(d.clone());
}

/// Put declarations in, one after another.
fn put_decls(decls: &mut Vec<Decl>, new: &Vec<Decl>)
    ensures
        types::views(final(decls)@) == with_decls(
            types::views(old(decls)@),
            types::views(new@),
        ),
{
    let ghost ns = types::views(new@);
    let mut i: usize = 0;
    assert(ns.take(0) =~= Seq::<DeclV>::empty());
    while i < new.len()
        invariant
            i <= new@.len(),
            ns == types::views(new@),
            types::views(decls@) == with_decls(types::views(old(decls)@), ns.take(i as int)),
        decreases new@.len() - i,
    {
        assert(ns.take(i + 1).drop_last() =~= ns.take(i as int));
        assert(ns.take(i + 1).last() == new@[i as int]@);
        put_decl(decls, &new[i]);
        i += 1;
    }
    assert(ns.take(i as int) =~= ns);
}

/// Put declarations into the service with a name; `false` where there is none.
fn put_block(prog: &mut Vec<Stmt>, svc: Symbol, new: &Vec<Decl>) -> (res: bool)
    ensures
        match service_index(types::views(old(prog)@), 0, svc) {
            Some(k) => res && types::views(final(prog)@) == types::views(old(prog)@).update(
                k,
                StmtV::Service {
                    name: svc,
                    decls: with_decls(
                        types::views(old(prog)@)[k]->Service_decls,
                        types::views(new@),
                    ),
                },
            ),
            None => !res && final(prog)@ == old(prog)@,
        },
{
    let ghost before = types::views(prog@);
    let mut i: usize = 0;
    while i < prog.len()
        invariant
            i <= prog@.len(),
            before == types::views(old(prog)@),
            prog@ == old(prog)@,
            service_index(before, 0, svc) == service_index(before, i as int, svc),
        decreases prog@.len() - i,
    {
        assert(before[i as int] == prog@[i as int]@);
        proof {
            ast::lemma_stmt_view(prog@[i as int]);
        }
        let mut found: Option<Vec<Decl>> = None;
        if let Stmt::Service { name, decls } = &prog[i] {
            if *name == svc {
                found = Some(clone_decls(decls));
            }
        }
        if let Some(decls) = found {
            let mut decls = decls;
            put_decls(&mut decls, new);
            let s = Stmt::Service { name: svc, decls };
            proof {
                ast::lemma_stmt_view(s);
            }
            prog.set(i, s);
            assert(types::views(prog@) =~= before.update(i as int, s@));
            return true;
        }
        i += 1;
    }
    false
}

/// A program with updates put in; the name of a service that is to be updated and that the
/// program lacks otherwise.
pub fn apply_updates_to_ast(program: &Vec<Stmt>, updates: &Vec<Stmt>) -> (res: Result<
    Vec<Stmt>,
    Symbol,
>)
    ensures
        match res {
            Ok(p) => patched(types::views(program@), types::views(updates@)) == Ok::<
                Seq<StmtV>,
                Symbol,
            >(types::views(p@)),
            Err(s) => patched(types::views(program@), types::views(updates@)) == Err::<
                Seq<StmtV>,
                Symbol,
            >(s),
        },
{
    let ghost prog = types::views(program@);
    let ghost us = types::views(updates@);
    let mut res = clone_stmts(program);
    let mut i: usize = 0;
    assert(us.take(0) =~= Seq::<StmtV>::empty());
    while i < updates.len()
        invariant
            i <= updates@.len(),
            prog == types::views(program@),
            us == types::views(updates@),
            patched(prog, us.take(i as int)) == Ok::<Seq<StmtV>, Symbol>(types::views(res@)),
        decreases updates@.len() - i,
    {
        assert(us.take(i + 1).drop_last() =~= us.take(i as int));
        assert(us.take(i + 1).last() == updates@[i as int]@);
        proof {
            ast::lemma_stmt_view(updates@[i as int]);
        }
        match &updates[i] {
            Stmt::Service { name, decls } => {
                if !put_block(&mut res, *name, decls) {
                    res.push(updates[i].clone());
                }
            },
            Stmt::Update { service_name, decls } => {
                if !put_block(&mut res, *service_name, decls) {
                    proof {
                        lemma_patch_error(prog, us, i + 1);
                    }
                    return Err(*service_name);
                }
            },
            _ => {},
        }
        i += 1;
    }
    assert(us.take(i as int) =~= us);
    Ok(res)
}

/// An error among the first updates is the error of all of them.
proof fn lemma_patch_error(prog: Seq<StmtV>, updates: Seq<StmtV>, i: int)
    requires
        0 <= i <= updates.len(),
        patched(prog, updates.take(i)) is Err,
    ensures
        patched(prog, updates) == patched(prog, updates.take(i)),
    decreases updates.len() - i,
{
    if i < updates.len() {
        assert(updates.take(i + 1).drop_last() =~= updates.take(i));
        lemma_patch_error(prog, updates, i + 1);
    } else {
        assert(updates.take(i) =~= updates);
    }
}

} // verus!
