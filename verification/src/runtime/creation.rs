//! What a service holds once it came up, and where other services are found.

use vstd::prelude::*;

use crate::runtime::ast::{DeclV, ExprV, StmtV, ValueV};
use crate::runtime::graphs::listeners;
use crate::runtime::graphs::ServiceGraphs;
use crate::runtime::interner;
use crate::runtime::interner::Symbol;
use crate::runtime::interpreter::evaluator;
use crate::runtime::interpreter::evaluator::{ContextV, EvalErrorV};
use crate::runtime::manager;
use crate::runtime::manager::ManagerV;
use crate::runtime::startup;
use crate::runtime::startup::OriginV;
use crate::runtime::update::coverage;

verus! {

/// Whether a declaration makes a name a variable.
pub open spec fn is_var(d: DeclV, x: Symbol) -> bool {
    d is VarDecl && d->VarDecl_name == x
}

/// Whether a declaration makes a name a definition.
pub open spec fn is_def(d: DeclV, x: Symbol) -> bool {
    d is DefDecl && d->DefDecl_name == x
}

/// Whether one of the declarations from the `i`th on makes a name a variable.
pub open spec fn var_from(decls: Seq<DeclV>, i: int, x: Symbol) -> bool {
    exists|k: int| i <= k < decls.len() && is_var(#[trigger] decls[k], x)
}

/// Whether one of the declarations from the `i`th on makes a name a definition.
pub open spec fn def_from(decls: Seq<DeclV>, i: int, x: Symbol) -> bool {
    exists|k: int| i <= k < decls.len() && is_def(#[trigger] decls[k], x)
}

/// Whether creating members from the `i`th on leaves the node as it was, but for those members of
/// the service.
spec fn adds_only(m: ManagerV, m2: ManagerV, o: OriginV, decls: Seq<DeclV>, i: int) -> bool {
    let s = m.services[o.svc];
    let s2 = m2.services[o.svc];
    &&& m2.names == m.names
    &&& m2.remote == m.remote
    &&& m2.ast == m.ast
    &&& m2.services.contains_key(o.svc)
    &&& s2.net_id == s.net_id
    &&& s2.graphs == s.graphs
    &&& s2.service_lock == s.service_lock
    &&& forall|other: Symbol|
        other != o.svc ==> (#[trigger] m2.services.contains_key(other) <==> m.services.contains_key(
            other,
        ))
    &&& forall|other: Symbol|
        other != o.svc ==> #[trigger] m2.services[other] == m.services[other]
    &&& forall|x: Symbol|
        !var_from(decls, i, x) ==> (#[trigger] s2.vars.contains_key(x) <==> s.vars.contains_key(x))
            && s2.vars[x] == s.vars[x]
    &&& forall|x: Symbol|
        !def_from(decls, i, x) ==> (#[trigger] s2.defs.contains_key(x) <==> s.defs.contains_key(x))
            && s2.defs[x] == s.defs[x]
    &&& forall|x: Symbol| var_from(decls, i, x) ==> #[trigger] s2.vars.contains_key(x)
    &&& forall|x: Symbol| def_from(decls, i, x) ==> #[trigger] s2.defs.contains_key(x)
}

/// The names that declarations make variables and definitions, one declaration on.
proof fn lemma_from(decls: Seq<DeclV>, i: int, x: Symbol)
    requires
        0 <= i < decls.len(),
    ensures
        var_from(decls, i, x) <==> is_var(decls[i], x) || var_from(decls, i + 1, x),
        def_from(decls, i, x) <==> is_def(decls[i], x) || def_from(decls, i + 1, x),
{
    if var_from(decls, i + 1, x) {
        let k = choose|k: int| i + 1 <= k < decls.len() && is_var(#[trigger] decls[k], x);
        assert(is_var(decls[k], x));
    }
    if def_from(decls, i + 1, x) {
        let k = choose|k: int| i + 1 <= k < decls.len() && is_def(#[trigger] decls[k], x);
        assert(is_def(decls[k], x));
    }
}

/// Creating members adds them, and nothing else.
proof fn lemma_members(m: ManagerV, o: OriginV, decls: Seq<DeclV>, i: int)
    requires
        0 <= i,
        m.services.contains_key(o.svc),
        startup::members_created(m, o, decls, i).1 is None,
    ensures
        adds_only(m, startup::members_created(m, o, decls, i).0, o, decls, i),
    decreases decls.len() - i,
{
    if i < decls.len() {
        let r = startup::member_created(m, o, decls[i]);
        lemma_members(r.0, o, decls, i + 1);
        assert forall|x: Symbol| true implies (#[trigger] var_from(decls, i, x) <==> is_var(
            decls[i],
            x,
        ) || var_from(decls, i + 1, x)) by {
            lemma_from(decls, i, x);
        }
        assert forall|x: Symbol| true implies (#[trigger] def_from(decls, i, x) <==> is_def(
            decls[i],
            x,
        ) || def_from(decls, i + 1, x)) by {
            lemma_from(decls, i, x);
        }
    }
}

/// Creating members in two goes comes to creating them in one.
proof fn lemma_two_goes(m: ManagerV, o: OriginV, decls: Seq<DeclV>, i: int, k: int)
    requires
        0 <= i <= k <= decls.len(),
        startup::members_created(m, o, decls, i).1 is None,
    ensures
        startup::members_created(m, o, decls.take(k), i).1 is None,
        startup::members_created(m, o, decls, i) == startup::members_created(
            startup::members_created(m, o, decls.take(k), i).0,
            o,
            decls,
            k,
        ),
    decreases k - i,
{
    if i < k {
        let r = startup::member_created(m, o, decls[i]);
        assert(decls.take(k)[i] == decls[i]);
        lemma_two_goes(r.0, o, decls, i + 1, k);
    }
}

/// The node on which a service has no members yet.
spec fn base(m: ManagerV, o: OriginV, decls: Seq<DeclV>, graphs: ServiceGraphs) -> ManagerV {
    ManagerV {
        ast: m.ast.push(StmtV::Service { name: o.svc, decls }),
        ..manager::with_service(m, o.svc, startup::bare_service(o.net_id, graphs))
    }
}

/// The program of the node has no part in what members are created.
proof fn lemma_program_aside(m: ManagerV, o: OriginV, decls: Seq<DeclV>, i: int, prog: Seq<StmtV>)
    ensures
        startup::members_created(ManagerV { ast: prog, ..m }, o, decls, i) == (
            ManagerV { ast: prog, ..startup::members_created(m, o, decls, i).0 },
            startup::members_created(m, o, decls, i).1,
        ),
    decreases decls.len() - i,
{
    if 0 <= i < decls.len() {
        let m1 = ManagerV { ast: prog, ..m };
        let r = startup::member_created(m, o, decls[i]);
        let r1 = startup::member_created(m1, o, decls[i]);
        assert(startup::creation_context(m1, o) == startup::creation_context(m, o));
        assert(r1 == (ManagerV { ast: prog, ..r.0 }, r.1));
        lemma_program_aside(r.0, o, decls, i + 1, prog);
    }
}

/// A service that came up runs under its name on the network, belongs to the program of the node,
/// and has exactly the variables and definitions that it declares. Nobody holds it. What else runs
/// at the node, and where other services are found, stays as it was.
pub proof fn services_come_up_as_declared(
    m: ManagerV,
    o: OriginV,
    decls: Seq<DeclV>,
    graphs: ServiceGraphs,
    x: Symbol,
    other: Symbol,
)
    requires
        startup::created(m, o, decls, graphs).1 is None,
        other != o.svc,
    ensures
        ({
            let m2 = startup::created(m, o, decls, graphs).0;
            let s = m2.services[o.svc];
            &&& m2.services.contains_key(o.svc)
            &&& s.net_id == o.net_id
            &&& s.graphs == graphs
            &&& s.service_lock is None
            &&& s.vars.contains_key(x) <==> var_from(decls, 0, x)
            &&& s.defs.contains_key(x) <==> def_from(decls, 0, x)
            &&& m2.names == m.names
            &&& m2.remote == m.remote
            &&& m2.ast == m.ast.push(StmtV::Service { name: o.svc, decls })
            &&& m2.services.contains_key(other) <==> m.services.contains_key(other)
            &&& m2.services[other] == m.services[other]
        }),
{
    lemma_members(base(m, o, decls, graphs), o, decls, 0);
}

/// What a member of a new service is evaluated in: the service has what it declares before that
/// member.
pub open spec fn context_before(
    m: ManagerV,
    o: OriginV,
    decls: Seq<DeclV>,
    graphs: ServiceGraphs,
    i: int,
) -> ContextV {
    startup::creation_context(startup::created(m, o, decls.take(i), graphs).0, o)
}

/// Where a member stands when it is created.
proof fn lemma_before(m: ManagerV, o: OriginV, decls: Seq<DeclV>, graphs: ServiceGraphs, i: int)
    requires
        0 <= i <= decls.len(),
    ensures
        startup::created(m, o, decls.take(i), graphs).1 == startup::members_created(
            base(m, o, decls, graphs),
            o,
            decls.take(i),
            0,
        ).1,
        context_before(m, o, decls, graphs, i) == startup::creation_context(
            startup::members_created(base(m, o, decls, graphs), o, decls.take(i), 0).0,
            o,
        ),
{
    let full = base(m, o, decls, graphs);
    let part = base(m, o, decls.take(i), graphs);
    assert(part == ManagerV { ast: part.ast, ..full });
    lemma_program_aside(full, o, decls.take(i), 0, part.ast);
}

/// A variable of a service that came up has the value of its expression, nobody holds it, and no
/// transaction wrote it; a definition has its expression. Both are evaluated where the service has
/// what it declares before them. So it is where nothing behind has the same name.
pub proof fn members_come_up_in_order(
    m: ManagerV,
    o: OriginV,
    decls: Seq<DeclV>,
    graphs: ServiceGraphs,
    i: int,
    x: Symbol,
    e: ExprV,
)
    requires
        startup::created(m, o, decls, graphs).1 is None,
        0 <= i < decls.len(),
        listeners::introduces(decls[i], x),
        coverage::given(decls[i], e),
        forall|k: int| i < k < decls.len() ==> !listeners::introduces(#[trigger] decls[k], x),
    ensures
        ({
            let s = startup::created(m, o, decls, graphs).0.services[o.svc];
            let r = evaluator::evaluated(
                context_before(m, o, decls, graphs, i),
                Seq::empty(),
                e,
                o.fuel,
            );
            &&& decls[i] is VarDecl ==> r == Ok::<ValueV, EvalErrorV>(s.vars[x].value)
                && s.vars[x].lock is Unlocked && s.vars[x].latest_write_txn is None
            &&& decls[i] is DefDecl ==> s.defs[x] == e && (r is Ok || r->Err_0 is NeedLookup)
        }),
{
    let m0 = base(m, o, decls, graphs);
    lemma_before(m, o, decls, graphs, i);
    lemma_two_goes(m0, o, decls, 0, i);
    let at = startup::members_created(m0, o, decls.take(i), 0).0;
    assert forall|k: int| i < k < decls.len() implies !is_var(#[trigger] decls[k], x) && !is_def(
        decls[k],
        x,
    ) by {
        assert(!listeners::introduces(decls[k], x));
    }
    assert(!var_from(decls, i + 1, x));
    assert(!def_from(decls, i + 1, x));
    lemma_members(m0, o, decls.take(i), 0);
    let r = startup::member_created(at, o, decls[i]);
    lemma_members(r.0, o, decls, i + 1);
    let s = startup::created(m, o, decls, graphs).0.services[o.svc];
    assert(s.vars.contains_key(x) == r.0.services[o.svc].vars.contains_key(x));
    assert(s.defs.contains_key(x) == r.0.services[o.svc].defs.contains_key(x));
}

/// A service does not come up exactly where the expression of a member fails, in what the service
/// declares before it. A definition that only misses a value does not fail; a variable does. The
/// failure is that of the first such member.
pub proof fn services_fail_with_their_members(
    m: ManagerV,
    o: OriginV,
    decls: Seq<DeclV>,
    graphs: ServiceGraphs,
    failure: EvalErrorV,
)
    ensures
        startup::created(m, o, decls, graphs).1 == Some(failure) <==> exists|i: int|
            0 <= i < decls.len() && #[trigger] fails_at(m, o, decls, graphs, i, failure),
{
    lemma_failing(m, o, decls, graphs, 0, failure);
    assert(decls.take(0) =~= Seq::<DeclV>::empty());
    lemma_before(m, o, decls, graphs, 0);
}

/// Whether the members before the `i`th came up, and that one fails.
pub open spec fn fails_at(
    m: ManagerV,
    o: OriginV,
    decls: Seq<DeclV>,
    graphs: ServiceGraphs,
    i: int,
    failure: EvalErrorV,
) -> bool {
    &&& startup::created(m, o, decls.take(i), graphs).1 is None
    &&& exists|e: ExprV| #[trigger]
        coverage::given(decls[i], e) && evaluator::evaluated(
            context_before(m, o, decls, graphs, i),
            Seq::empty(),
            e,
            o.fuel,
        ) == Err::<ValueV, EvalErrorV>(failure)
    &&& decls[i] is DefDecl ==> failure !is NeedLookup
}

/// Creating members ends with the last of them.
proof fn lemma_last(m: ManagerV, o: OriginV, decls: Seq<DeclV>, j: int)
    requires
        0 <= j < decls.len(),
    ensures
        startup::members_created(m, o, decls, j) == {
            let r = startup::members_created(m, o, decls.drop_last(), j);
            if r.1 is Some {
                r
            } else {
                startup::member_created(r.0, o, decls.last())
            }
        },
    decreases decls.len() - j,
{
    let r = startup::member_created(m, o, decls[j]);
    if j < decls.len() - 1 {
        assert(decls.drop_last()[j] == decls[j]);
        if r.1 is None {
            lemma_last(r.0, o, decls, j + 1);
        }
    } else if r.1 is None {
        assert(startup::members_created(r.0, o, decls, j + 1) == (r.0, r.1));
    }
}

/// Failures from the `i`th member on.
proof fn lemma_failing(
    m: ManagerV,
    o: OriginV,
    decls: Seq<DeclV>,
    graphs: ServiceGraphs,
    i: int,
    failure: EvalErrorV,
)
    requires
        0 <= i <= decls.len(),
        startup::members_created(base(m, o, decls, graphs), o, decls.take(i), 0).1 is None,
    ensures
        startup::members_created(
            startup::members_created(base(m, o, decls, graphs), o, decls.take(i), 0).0,
            o,
            decls,
            i,
        ).1 == Some(failure) <==> exists|k: int|
            i <= k < decls.len() && #[trigger] fails_at(m, o, decls, graphs, k, failure),
    decreases decls.len() - i,
{
    if i < decls.len() {
        let m0 = base(m, o, decls, graphs);
        let at = startup::members_created(m0, o, decls.take(i), 0).0;
        let r = startup::member_created(at, o, decls[i]);
        let next = decls.take(i + 1);
        assert(next.drop_last() =~= decls.take(i));
        assert(next.last() == decls[i]);
        lemma_last(m0, o, next, 0);
        lemma_before(m, o, decls, graphs, i);
        lemma_this(m, o, decls, graphs, i, failure);
        if r.1 is Some {
            assert forall|k: int|
                i < k < decls.len() && #[trigger] fails_at(m, o, decls, graphs, k, failure) implies
                false by {
                lemma_before(m, o, decls, graphs, k);
                assert(decls.take(k).take(i + 1) =~= next);
                lemma_two_goes(m0, o, decls.take(k), 0, i + 1);
            }
        } else {
            lemma_failing(m, o, decls, graphs, i + 1, failure);
        }
    }
}

/// The failure of one member.
proof fn lemma_this(
    m: ManagerV,
    o: OriginV,
    decls: Seq<DeclV>,
    graphs: ServiceGraphs,
    i: int,
    failure: EvalErrorV,
)
    requires
        0 <= i < decls.len(),
        startup::members_created(base(m, o, decls, graphs), o, decls.take(i), 0).1 is None,
    ensures
        startup::member_created(
            startup::members_created(base(m, o, decls, graphs), o, decls.take(i), 0).0,
            o,
            decls[i],
        ).1 == Some(failure) <==> fails_at(m, o, decls, graphs, i, failure),
{
    lemma_before(m, o, decls, graphs, i);
    match decls[i] {
        DeclV::VarDecl { val, .. } => {
            assert(coverage::given(decls[i], val));
        },
        DeclV::DefDecl { val, .. } => {
            assert(coverage::given(decls[i], val));
        },
        DeclV::TableDecl { .. } => {},
    }
}

/// Whether the last address that is given for a name is this one.
pub open spec fn last_address(
    remotes: Seq<(Seq<char>, Seq<char>)>,
    k: int,
    name: Seq<char>,
) -> bool {
    &&& 0 <= k < remotes.len()
    &&& remotes[k].0 == name
    &&& forall|j: int| k < j < remotes.len() ==> (#[trigger] remotes[j]).0 != name
}

/// Names keep their symbols, and every name that an address is given for is known.
proof fn lemma_remote_names(
    m: ManagerV,
    remotes: Seq<(Seq<char>, Seq<char>)>,
    local: Set<Symbol>,
)
    requires
        interner::distinct_names(m.names),
    ensures
        interner::distinct_names(startup::remotes_known(m, remotes, local).names),
        m.names.len() <= startup::remotes_known(m, remotes, local).names.len(),
        forall|k: int|
            0 <= k < remotes.len() ==> startup::remotes_known(m, remotes, local).names.contains(
                (#[trigger] remotes[k]).0,
            ),
    decreases remotes.len(),
{
    if remotes.len() > 0 {
        let rest = remotes.drop_last();
        lemma_remote_names(m, rest, local);
        let names = startup::remotes_known(m, rest, local).names;
        let last = remotes.last().0;
        let after = interner::interned(names, last);
        if !names.contains(last) {
            assert(after[names.len() as int] == last);
        }
        assert forall|k: int| 0 <= k < remotes.len() implies after.contains(
            (#[trigger] remotes[k]).0,
        ) by {
            if k < rest.len() {
                assert(rest[k] == remotes[k]);
                let j = choose|j: int| 0 <= j < names.len() && names[j] == rest[k].0;
                assert(after[j] == remotes[k].0);
            }
        }
    }
}

/// A service that does not run here is looked for at the last address that was given for it.
pub proof fn services_are_found_at_their_last_address(
    m: ManagerV,
    remotes: Seq<(Seq<char>, Seq<char>)>,
    local: Set<Symbol>,
    k: int,
    svc: Symbol,
)
    requires
        interner::distinct_names(m.names),
        startup::remotes_known(m, remotes, local).names.len() <= Symbol::MAX,
        last_address(remotes, k, remotes[k].0),
        svc < startup::remotes_known(m, remotes, local).names.len(),
        startup::remotes_known(m, remotes, local).names[svc as int] == remotes[k].0,
        !local.contains(svc),
    ensures
        startup::remotes_known(m, remotes, local).remote.contains_key(svc),
        startup::remotes_known(m, remotes, local).remote[svc] == remotes[k].1,
    decreases remotes.len(),
{
    let rest = remotes.drop_last();
    let before = startup::remotes_known(m, rest, local);
    let after = startup::remotes_known(m, remotes, local);
    let last = remotes.last().0;
    lemma_remote_names(m, remotes, local);
    lemma_remote_names(m, rest, local);
    assert(after.names == interner::interned(before.names, last));
    let sym = interner::symbol_in(after.names, last);
    assert(remotes[remotes.len() - 1].0 == last);
    let at = after.names.index_of(last);
    assert(after.names.contains(last));
    assert(0 <= at < after.names.len() && after.names[at] == last);
    if k == remotes.len() - 1 {
        assert(at == svc) by {
            assert(after.names[svc as int] == after.names[at]);
        }
    } else {
        assert(remotes[remotes.len() - 1].0 != remotes[k].0);
        assert(rest[k] == remotes[k]);
        assert forall|j: int| k < j < rest.len() implies (#[trigger] rest[j]).0 != rest[k].0 by {
            assert(rest[j] == remotes[j]);
        }
        assert(before.names.contains(rest[k].0));
        let j = choose|j: int| 0 <= j < before.names.len() && before.names[j] == rest[k].0;
        assert(after.names[j] == remotes[k].0);
        assert(j == svc as int) by {
            assert(after.names[svc as int] == after.names[j]);
        }
        services_are_found_at_their_last_address(m, rest, local, k, svc);
        assert(at as Symbol == sym);
        assert(sym != svc);
    }
}

} // verus!
