//! What becomes of the definitions of running services when an update takes effect.

use vstd::prelude::*;

use crate::net::types::TxnId;
use crate::runtime::ast;
use crate::runtime::ast::{DeclV, ExprV, StmtV, ValueV};
use crate::runtime::graphs::ServiceGraphs;
use crate::runtime::interner::Symbol;
use crate::runtime::interpreter::evaluator;
use crate::runtime::interpreter::evaluator::ContextV;
use crate::runtime::manager::ManagerV;
use crate::runtime::tt::check::Known;
use crate::runtime::tt::types::Member;
use crate::runtime::update::commit;

verus! {

/// Whether a declaration is a definition of a name by an expression, public or not.
pub open spec fn is_definition(d: DeclV, x: Symbol, e: ExprV) -> bool {
    defines(d, x) && d->DefDecl_val == e
}

/// Whether a declaration defines a name at all.
pub open spec fn defines(d: DeclV, x: Symbol) -> bool {
    d is DefDecl && d->DefDecl_name == x
}

/// The declarations of a service that stand in statement `k` of a program.
pub open spec fn decls_at(prog: Seq<StmtV>, k: int, svc: Symbol) -> Seq<DeclV> {
    if 0 <= k < prog.len() && prog[k] is Service && prog[k]->Service_name == svc {
        prog[k]->Service_decls
    } else {
        Seq::empty()
    }
}

/// Whether the declarations behind position `j` do not define a name.
pub open spec fn none_behind(decls: Seq<DeclV>, j: int, x: Symbol) -> bool {
    forall|i: int| j < i < decls.len() ==> !defines(#[trigger] decls[i], x)
}

/// Whether declaration `j` of statement `k` is the last definition of a member in a program.
pub open spec fn last_definition(prog: Seq<StmtV>, svc: Symbol, x: Symbol, k: int, j: int) -> bool {
    &&& 0 <= k < prog.len()
    &&& 0 <= j < decls_at(prog, k, svc).len()
    &&& defines(decls_at(prog, k, svc)[j], x)
    &&& none_behind(decls_at(prog, k, svc), j, x)
    &&& forall|k2: int|
        k < k2 < prog.len() ==> none_behind(#[trigger] decls_at(prog, k2, svc), -1, x)
}

/// Whether a program does not define a member.
pub open spec fn no_definition(prog: Seq<StmtV>, svc: Symbol, x: Symbol) -> bool {
    forall|k: int| 0 <= k < prog.len() ==> none_behind(#[trigger] decls_at(prog, k, svc), -1, x)
}

/// What putting declarations in does to the expression of a name.
proof fn lemma_with_defs(defs: Map<Symbol, ExprV>, decls: Seq<DeclV>, x: Symbol)
    ensures
        none_behind(decls, -1, x) ==> {
            &&& commit::with_defs(defs, decls).dom().contains(x) == defs.dom().contains(x)
            &&& defs.dom().contains(x) ==> commit::with_defs(defs, decls)[x] == defs[x]
        },
        forall|j: int, e: ExprV|
            0 <= j < decls.len() && #[trigger] is_definition(decls[j], x, e) && none_behind(
                decls,
                j,
                x,
            ) ==> commit::with_defs(defs, decls).dom().contains(x) && commit::with_defs(
                defs,
                decls,
            )[x] == e,
    decreases decls.len(),
{
    if decls.len() > 0 {
        let rest = decls.drop_last();
        let d = decls.last();
        assert(d == decls[decls.len() - 1]);
        lemma_with_defs(defs, rest, x);
        if let DeclV::DefDecl { name, ty, val, is_pub } = d {
            assert(is_definition(d, name, val));
            assert(defines(d, name));
        }
        if none_behind(decls, -1, x) {
            assert(!defines(d, x));
            assert forall|i: int| -1 < i < rest.len() implies !defines(#[trigger] rest[i], x) by {
                assert(rest[i] == decls[i]);
            }
            assert(none_behind(rest, -1, x));
        }
        assert forall|j: int, e: ExprV|
            0 <= j < decls.len() && #[trigger] is_definition(decls[j], x, e) && none_behind(
                decls,
                j,
                x,
            ) implies commit::with_defs(defs, decls).dom().contains(x) && commit::with_defs(
            defs,
            decls,
        )[x] == e by {
            if j < rest.len() {
                assert(!defines(d, x));
                assert(rest[j] == decls[j]);
                assert(is_definition(rest[j], x, e));
                assert forall|i: int| j < i < rest.len() implies !defines(
                    #[trigger] rest[i],
                    x,
                ) by {
                    assert(rest[i] == decls[i]);
                }
                assert(none_behind(rest, j, x));
            }
        }
    }
}

/// What storing the definitions of a program does to the expression of a member.
proof fn lemma_program(m: ManagerV, prog: Seq<StmtV>, svc: Symbol, x: Symbol)
    requires
        m.services.dom().contains(svc),
    ensures
        commit::program_stored(m, prog).services.dom().contains(svc),
        ({
            let before = m.services[svc].defs;
            let after = commit::program_stored(m, prog).services[svc].defs;
            &&& no_definition(prog, svc, x) ==> {
                &&& after.dom().contains(x) == before.dom().contains(x)
                &&& before.dom().contains(x) ==> after[x] == before[x]
            }
            &&& forall|k: int, j: int, e: ExprV|
                last_definition(prog, svc, x, k, j) && #[trigger] is_definition(
                    decls_at(prog, k, svc)[j],
                    x,
                    e,
                ) ==> after.dom().contains(x) && after[x] == e
        }),
    decreases prog.len(),
{
    if prog.len() > 0 {
        let rest = prog.drop_last();
        let n = prog.len() - 1;
        lemma_program(m, rest, svc, x);
        let mid = commit::program_stored(m, rest).services[svc].defs;
        let last = decls_at(prog, n, svc);
        lemma_with_defs(mid, last, x);
        assert(prog.last() == prog[n]);
        let after = commit::program_stored(m, prog).services[svc].defs;
        assert(after == commit::with_defs(mid, last)) by {
            reveal_with_fuel(commit::with_defs, 1);
        }
        if no_definition(prog, svc, x) {
            assert(none_behind(decls_at(prog, n, svc), -1, x));
            assert forall|k: int| 0 <= k < rest.len() implies none_behind(
                #[trigger] decls_at(rest, k, svc),
                -1,
                x,
            ) by {
                assert(decls_at(rest, k, svc) == decls_at(prog, k, svc));
            }
        }
        assert forall|k: int, j: int, e: ExprV|
            last_definition(prog, svc, x, k, j) && #[trigger] is_definition(
                decls_at(prog, k, svc)[j],
                x,
                e,
            ) implies after.dom().contains(x) && after[x] == e by {
            if k < n {
                assert(none_behind(decls_at(prog, n, svc), -1, x));
                assert(decls_at(rest, k, svc) == decls_at(prog, k, svc));
                assert forall|k2: int| k < k2 < rest.len() implies none_behind(
                    #[trigger] decls_at(rest, k2, svc),
                    -1,
                    x,
                ) by {
                    assert(decls_at(rest, k2, svc) == decls_at(prog, k2, svc));
                }
                assert(last_definition(rest, svc, x, k, j));
                assert(is_definition(decls_at(rest, k, svc)[j], x, e));
            }
        }
    }
}

/// Storing values and graphs keeps the definitions.
proof fn lemma_others_keep(
    m: ManagerV,
    id: Option<TxnId>,
    values: Seq<(Member, ValueV)>,
    deps: Seq<(Symbol, ServiceGraphs)>,
    svc: Symbol,
)
    requires
        m.services.dom().contains(svc),
    ensures
        commit::values_stored(m, values, id).services.dom().contains(svc),
        commit::values_stored(m, values, id).services[svc].defs == m.services[svc].defs,
        commit::graphs_stored(m, deps, id).services.dom().contains(svc),
        commit::graphs_stored(m, deps, id).services[svc].defs == m.services[svc].defs,
    decreases values.len() + deps.len(),
{
    if values.len() > 0 {
        lemma_others_keep(m, id, values.drop_last(), deps, svc);
    }
    if deps.len() > 0 {
        lemma_others_keep(m, id, values, deps.drop_last(), svc);
    }
}

/// After an update took effect, a definition that the new program declares in a running service,
/// public or not, has the expression of its last declaration there; a name that the program does
/// not define there keeps its expression, or stays without one.
pub proof fn definitions_take_effect(
    m: ManagerV,
    id: Option<TxnId>,
    prog: Seq<StmtV>,
    known: Known,
    values: Seq<(Member, ValueV)>,
    deps: Seq<(Symbol, ServiceGraphs)>,
    svc: Symbol,
    x: Symbol,
)
    requires
        m.services.dom().contains(svc),
    ensures
        ({
            let before = m.services[svc].defs;
            let after = commit::committed(m, id, prog, known, values, deps).services[svc].defs;
            &&& no_definition(prog, svc, x) ==> {
                &&& after.dom().contains(x) == before.dom().contains(x)
                &&& before.dom().contains(x) ==> after[x] == before[x]
            }
            &&& forall|k: int, j: int, e: ExprV|
                last_definition(prog, svc, x, k, j) && #[trigger] is_definition(
                    decls_at(prog, k, svc)[j],
                    x,
                    e,
                ) ==> after.dom().contains(x) && after[x] == e
        }),
{
    let start = ManagerV { ast: prog, types: known, ..m };
    lemma_others_keep(start, id, values, Seq::empty(), svc);
    let mid = commit::values_stored(start, values, id);
    lemma_program(mid, prog, svc, x);
    lemma_others_keep(commit::program_stored(mid, prog), id, Seq::empty(), deps, svc);
}

/// After an update took effect, reading a definition that the new program declares in a running
/// service gives the value that the expression of its last declaration has there.
pub proof fn definitions_are_read_anew(
    m: ManagerV,
    id: Option<TxnId>,
    prog: Seq<StmtV>,
    known: Known,
    values: Seq<(Member, ValueV)>,
    deps: Seq<(Symbol, ServiceGraphs)>,
    svc: Symbol,
    x: Symbol,
    k: int,
    j: int,
    e: ExprV,
    cx: ContextV,
    env: Seq<(Symbol, ValueV)>,
    fuel: nat,
)
    requires
        m.services.dom().contains(svc),
        last_definition(prog, svc, x, k, j),
        is_definition(decls_at(prog, k, svc)[j], x, e),
        cx.services == commit::committed(m, id, prog, known, values, deps).services,
        !cx.services[svc].vars.dom().contains(x),
    ensures
        evaluator::evaluated(
            cx,
            env,
            ExprV::MemberAccess { service_name: svc, member_name: x },
            fuel + 1,
        ) == evaluator::evaluated(
            ContextV { svc, net_id: cx.services[svc].net_id, ..cx },
            Seq::empty(),
            e,
            fuel,
        ),
{
    definitions_take_effect(m, id, prog, known, values, deps, svc, x);
    commit::commit_changes_only_updated_members(m, id, prog, known, values, deps, svc, x);
    reveal_with_fuel(evaluator::evaluated, 2);
}

} // verus!
