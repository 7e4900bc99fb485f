//! Which sources are asked for from other nodes, and what becomes of the requests.

use vstd::prelude::*;

use crate::error::ErrorV;
use crate::net::types::MessageId;
use crate::runtime::ast::StmtV;
use crate::runtime::imports;
use crate::runtime::imports::{ImportCommandV, ImportsV, RequestV};
use crate::runtime::interner;
use crate::runtime::interner::Symbol;
use crate::runtime::limits::MAX_IMPORT_RETRIES;
use crate::runtime::parser;

verus! {

/// Whether two requests are for different services and have different numbers.
pub open spec fn apart(a: (MessageId, RequestV), b: (MessageId, RequestV)) -> bool {
    a.0 != b.0 && a.1.service_name != b.1.service_name
}

/// Whether a state of the machine is in order: no service is awaited twice, no number belongs to
/// two requests, and there is at most one request for each service.
pub open spec fn tidy(v: ImportsV) -> bool {
    &&& v.services.no_duplicates()
    &&& forall|i: int, j: int|
        0 <= i < j < v.pending.len() ==> #[trigger] apart(v.pending[i], v.pending[j])
}

/// Whether a state is one between two calls: where no local file is to be read, no import is left
/// to look at.
pub open spec fn settled(v: ImportsV) -> bool {
    v.reading is None ==> v.todo.len() == 0
}

/// Whether every import is resolved.
pub open spec fn done(v: ImportsV) -> bool {
    v.services.len() == 0 && v.reading is None
}

/// Whether a name is that of a service seen before.
pub open spec fn seen(visited: Set<Symbol>, names: Seq<Seq<char>>, name: Seq<char>) -> bool {
    exists|s: Symbol| #[trigger]
        visited.contains(s) && s < names.len() && names[s as int] == name
}

/// Whether the table knows the services of a state: the imports left to look at have their names
/// from it, and every service that is awaited was seen.
pub open spec fn named(v: ImportsV, names: Seq<Seq<char>>) -> bool {
    &&& forall|i: int|
        0 <= i < v.todo.len() ==> (#[trigger] v.todo[i]).0 < names.len() && v.todo[i].1
            == names[v.todo[i].0 as int]
    &&& forall|i: int|
        0 <= i < v.services.len() ==> seen(v.visited, names, #[trigger] v.services[i])
}

/// Whether one of the commands from a position on asks for a service.
pub open spec fn asked_for(cmds: Seq<ImportCommandV>, from: int, name: Seq<char>) -> bool {
    exists|k: int| from <= k < cmds.len() && (#[trigger] cmds[k]).1 == name
}

/// Whether the commands from a position on are the right ones for a state: each is a first request
/// for a service that was not seen before, at its address, and no two are for the same service.
pub open spec fn fresh_requests(
    v: ImportsV,
    cmds: Seq<ImportCommandV>,
    from: int,
    names: Seq<Seq<char>>,
) -> bool {
    &&& forall|k: int|
        from <= k < cmds.len() ==> {
            &&& !seen(v.visited, names, (#[trigger] cmds[k]).1)
            &&& imports::url_of(v.urls, cmds[k].1) == Some(cmds[k].2)
            &&& cmds[k].3 == 0
        }
    &&& forall|k: int, l: int|
        from <= k < l < cmds.len() ==> (#[trigger] cmds[k]).1 != (#[trigger] cmds[l]).1
}

/// What a look at the imports does to the state and the commands.
pub open spec fn looked_at(
    v: ImportsV,
    cmds: Seq<ImportCommandV>,
    w: ImportsV,
    out: Seq<ImportCommandV>,
    names: Seq<Seq<char>>,
) -> bool {
    &&& cmds.is_prefix_of(out)
    &&& fresh_requests(v, out, cmds.len() as int, names)
    &&& forall|k: int|
        cmds.len() <= k < out.len() ==> seen(w.visited, names, (#[trigger] out[k]).1)
    &&& forall|n: Seq<char>| #[trigger]
        w.services.contains(n) <==> v.services.contains(n) || asked_for(out, cmds.len() as int, n)
    &&& v.services.no_duplicates() ==> w.services.no_duplicates()
    &&& v.visited.subset_of(w.visited)
    &&& w.pending == v.pending
    &&& named(w, names)
    &&& v.addr.len() == 0 ==> out == cmds
    &&& settled(w)
}

/// What was seen stays seen.
proof fn lemma_seen_grows(a: Set<Symbol>, b: Set<Symbol>, names: Seq<Seq<char>>, name: Seq<char>)
    requires
        a.subset_of(b),
        seen(a, names, name),
    ensures
        seen(b, names, name),
{
    let s = choose|s: Symbol| #[trigger]
        a.contains(s) && s < names.len() && names[s as int] == name;
    assert(b.contains(s));
}

/// A look at the imports.
#[verifier::rlimit(60)]
proof fn lemma_advanced(v: ImportsV, cmds: Seq<ImportCommandV>, names: Seq<Seq<char>>)
    requires
        named(v, names),
        interner::distinct_names(names),
    ensures
        looked_at(
            v,
            cmds,
            imports::advanced(v, cmds).0,
            imports::advanced(v, cmds).1,
            names,
        ),
    decreases v.todo.len(),
{
    if v.todo.len() == 0 || v.reading is Some {
        assert forall|n: Seq<char>| !asked_for(cmds, cmds.len() as int, n) by {}
    } else {
        let sym = v.todo.last().0;
        let name = v.todo.last().1;
        assert(v.todo[v.todo.len() - 1] == (sym, name));
        let rest = ImportsV { todo: v.todo.drop_last(), ..v };
        assert forall|i: int| 0 <= i < rest.todo.len() implies (#[trigger] rest.todo[i]).0
            < names.len() && rest.todo[i].1 == names[rest.todo[i].0 as int] by {
            assert(rest.todo[i] == v.todo[i]);
        }
        if v.visited.contains(sym) {
            lemma_advanced(rest, cmds, names);
        } else {
            let visited = v.visited.insert(sym);
            assert(v.visited.subset_of(visited));
            assert(seen(visited, names, name)) by {
                assert(visited.contains(sym));
            }
            assert(!seen(v.visited, names, name)) by {
                if seen(v.visited, names, name) {
                    let s = choose|s: Symbol| #[trigger]
                        v.visited.contains(s) && s < names.len() && names[s as int] == name;
                    assert(s == sym);
                }
            }
            assert forall|i: int| 0 <= i < v.services.len() implies seen(
                visited,
                names,
                #[trigger] v.services[i],
            ) by {
                lemma_seen_grows(v.visited, visited, names, v.services[i]);
            }
            let url = imports::url_of(v.urls, name);
            if url is Some && v.addr.len() > 0 {
                let next = ImportsV {
                    visited,
                    services: imports::with_name(v.services, name),
                    counter: imports::next_id(v.counter),
                    ..rest
                };
                let c = imports::fetch(v, name, url->0, 0);
                let more = cmds.push(c);
                lemma_with_name(v.services, name);
                lemma_advanced(next, more, names);
                lemma_step(
                    v,
                    cmds,
                    next,
                    c,
                    imports::advanced(next, more).0,
                    imports::advanced(next, more).1,
                    names,
                );
            } else {
                assert forall|n: Seq<char>| !asked_for(cmds, cmds.len() as int, n) by {}
            }
        }
    }
}

/// A name is one of a list it was appended to.
proof fn lemma_with_name(services: Seq<Seq<char>>, name: Seq<char>)
    ensures
        forall|n: Seq<char>| #[trigger]
            imports::with_name(services, name).contains(n) <==> services.contains(n) || n == name,
        services.no_duplicates() ==> imports::with_name(services, name).no_duplicates(),
        forall|i: int|
            0 <= i < imports::with_name(services, name).len() ==> (#[trigger] imports::with_name(
                services,
                name,
            )[i] == name || services.contains(imports::with_name(services, name)[i])),
{
    if !services.contains(name) {
        let more = services.push(name);
        assert(more[services.len() as int] == name);
        assert forall|n: Seq<char>| #[trigger] more.contains(n) <==> services.contains(n) || n
            == name by {
            if services.contains(n) {
                let i = choose|i: int| 0 <= i < services.len() && services[i] == n;
                assert(more[i] == n);
            }
        }
    }
}

/// A first request and what comes behind it.
proof fn lemma_step(
    v: ImportsV,
    cmds: Seq<ImportCommandV>,
    next: ImportsV,
    c: ImportCommandV,
    w: ImportsV,
    out: Seq<ImportCommandV>,
    names: Seq<Seq<char>>,
)
    requires
        looked_at(next, cmds.push(c), w, out, names),
        v.visited.subset_of(next.visited),
        !seen(v.visited, names, c.1),
        seen(next.visited, names, c.1),
        imports::url_of(v.urls, c.1) == Some(c.2),
        c.3 == 0,
        next.urls == v.urls,
        next.pending == v.pending,
        v.addr.len() > 0,
        forall|n: Seq<char>| #[trigger]
            next.services.contains(n) <==> v.services.contains(n) || n == c.1,
        v.services.no_duplicates() ==> next.services.no_duplicates(),
    ensures
        looked_at(v, cmds, w, out, names),
{
    let from = cmds.len() as int;
    assert(out[from] == cmds.push(c)[from]);
    assert(cmds.is_prefix_of(out)) by {
        assert(cmds =~= out.subrange(0, from)) by {
            assert forall|i: int| 0 <= i < from implies cmds[i] == out.subrange(0, from)[i] by {
                assert(cmds.push(c)[i] == out.subrange(0, from + 1)[i]);
            }
        }
    }
    lemma_seen_grows(next.visited, w.visited, names, c.1);
    assert forall|k: int| from <= k < out.len() implies {
        &&& !seen(v.visited, names, (#[trigger] out[k]).1)
        &&& imports::url_of(v.urls, out[k].1) == Some(out[k].2)
        &&& out[k].3 == 0
    } by {
        if k > from && seen(v.visited, names, out[k].1) {
            lemma_seen_grows(v.visited, next.visited, names, out[k].1);
        }
    }
    assert forall|k: int, l: int| from <= k < l < out.len() implies (#[trigger] out[k]).1 != (
    #[trigger] out[l]).1 by {
        if k == from {
            assert(!seen(next.visited, names, out[l].1));
        }
    }
    assert forall|n: Seq<char>| #[trigger] w.services.contains(n) <==> v.services.contains(n)
        || asked_for(out, from, n) by {
        assert(next.services.contains(n) <==> v.services.contains(n) || n == c.1);
        if asked_for(out, from + 1, n) {
            let k = choose|k: int| from + 1 <= k < out.len() && (#[trigger] out[k]).1 == n;
            assert(out[k].1 == n);
        }
        if n == c.1 {
            assert(out[from].1 == n);
        }
        if asked_for(out, from, n) && n != c.1 {
            let k = choose|k: int| from <= k < out.len() && (#[trigger] out[k]).1 == n;
            assert(k != from);
            assert(out[k].1 == n);
        }
    }
}

/// What a filter leaves of requests that are apart is apart, and stood there before.
proof fn lemma_filter_requests(
    s: Seq<(MessageId, RequestV)>,
    keep: spec_fn((MessageId, RequestV)) -> bool,
)
    ensures
        forall|i: int|
            0 <= i < s.filter(keep).len() ==> s.contains(#[trigger] s.filter(keep)[i]) && keep(
                s.filter(keep)[i],
            ),
        forall|i: int|
            0 <= i < s.len() && keep(#[trigger] s[i]) ==> s.filter(keep).contains(s[i]),
        (forall|i: int, j: int| 0 <= i < j < s.len() ==> #[trigger] apart(s[i], s[j])) ==> forall|
            i: int,
            j: int,
        |
            0 <= i < j < s.filter(keep).len() ==> #[trigger] apart(
                s.filter(keep)[i],
                s.filter(keep)[j],
            ),
    decreases s.len(),
{
    reveal(Seq::filter);
    if s.len() > 0 {
        let r = s.drop_last();
        let f = r.filter(keep);
        let g = s.filter(keep);
        lemma_filter_requests(r, keep);
        assert(s.last() == s[s.len() - 1]);
        assert forall|i: int| 0 <= i < g.len() implies s.contains(#[trigger] g[i]) && keep(
            g[i],
        ) by {
            if i < f.len() {
                assert(r.contains(f[i]));
                let k = choose|k: int| 0 <= k < r.len() && r[k] == f[i];
                assert(s[k] == g[i]);
            }
        }
        assert forall|i: int| 0 <= i < s.len() && keep(#[trigger] s[i]) implies g.contains(
            s[i],
        ) by {
            if i < r.len() {
                assert(keep(r[i]));
                let k = choose|k: int| 0 <= k < f.len() && f[k] == r[i];
                assert(g[k] == s[i]);
            } else {
                assert(g[g.len() - 1] == s[i]);
            }
        }
        if forall|i: int, j: int| 0 <= i < j < s.len() ==> #[trigger] apart(s[i], s[j]) {
            assert forall|i: int, j: int| 0 <= i < j < r.len() implies #[trigger] apart(
                r[i],
                r[j],
            ) by {
                assert(apart(s[i], s[j]));
            }
            assert forall|i: int, j: int| 0 <= i < j < g.len() implies #[trigger] apart(
                g[i],
                g[j],
            ) by {
                if j < f.len() {
                    assert(apart(f[i], f[j]));
                } else {
                    assert(r.contains(f[i]));
                    let k = choose|k: int| 0 <= k < r.len() && r[k] == f[i];
                    assert(apart(s[k], s[s.len() - 1]));
                }
            }
        }
    }
}

/// What a filter leaves of names that stand in a list once stands there once.
proof fn lemma_filter_names(s: Seq<Seq<char>>, keep: spec_fn(Seq<char>) -> bool)
    ensures
        forall|n: Seq<char>| #[trigger]
            s.filter(keep).contains(n) <==> s.contains(n) && keep(n),
        s.no_duplicates() ==> s.filter(keep).no_duplicates(),
    decreases s.len(),
{
    reveal(Seq::filter);
    if s.len() > 0 {
        let r = s.drop_last();
        let f = r.filter(keep);
        let g = s.filter(keep);
        lemma_filter_names(r, keep);
        assert forall|n: Seq<char>| #[trigger] g.contains(n) <==> s.contains(n) && keep(n) by {
            assert(f.contains(n) <==> r.contains(n) && keep(n));
            if r.contains(n) {
                let k = choose|k: int| 0 <= k < r.len() && r[k] == n;
                assert(s[k] == n);
            }
            if f.contains(n) {
                let k = choose|k: int| 0 <= k < f.len() && f[k] == n;
                assert(g[k] == n);
            }
            if s.contains(n) && !r.contains(n) {
                let k = choose|k: int| 0 <= k < s.len() && s[k] == n;
                assert(k == s.len() - 1) by {
                    if k < r.len() {
                        assert(r[k] == n);
                    }
                }
                if keep(n) {
                    assert(g[g.len() - 1] == n);
                }
            }
            if g.contains(n) && !f.contains(n) {
                let k = choose|k: int| 0 <= k < g.len() && g[k] == n;
                assert(k == g.len() - 1) by {
                    if k < f.len() {
                        assert(f[k] == n);
                    }
                }
                assert(s[s.len() - 1] == n);
            }
        }
        if s.no_duplicates() {
            assert(r.no_duplicates());
            assert forall|i: int, j: int| 0 <= i < j < g.len() implies g[i] != g[j] by {
                if j == f.len() {
                    assert(f.contains(f[i]));
                    assert(r.contains(f[i]));
                    let k = choose|k: int| 0 <= k < r.len() && r[k] == f[i];
                    assert(s[k] != s[s.len() - 1]);
                }
            }
        }
    }
}

/// A state before the first import is looked at.
proof fn lemma_started(
    urls: Seq<(Seq<char>, Seq<char>)>,
    base: Seq<StmtV>,
    addr: Seq<char>,
    names: Seq<Seq<char>>,
)
    requires
        parser::grammar::imports_known(base, names),
    ensures
        tidy(imports::started(urls, base, addr, names)),
        named(imports::started(urls, base, addr, names), names),
{
    imports::lemma_imports_known(base, names);
}

/// What a program asks for first: one first request for each service that is awaited, at the
/// address that the map gives for it, none of them for a service that the program declares. Where
/// the node has no address, nothing is asked for.
pub proof fn first_requests(
    urls: Seq<(Seq<char>, Seq<char>)>,
    base: Seq<StmtV>,
    addr: Seq<char>,
    names: Seq<Seq<char>>,
)
    requires
        parser::grammar::imports_known(base, names),
        interner::distinct_names(names),
    ensures
        ({
            let start = imports::started(urls, base, addr, names);
            let (v, cmds) = imports::advanced(start, Seq::empty());
            &&& fresh_requests(start, cmds, 0, names)
            &&& forall|n: Seq<char>| #[trigger]
                v.services.contains(n) <==> asked_for(cmds, 0, n)
            &&& forall|i: int, k: int|
                0 <= i < imports::declared_in(base).len() && 0 <= k < cmds.len()
                    && imports::declared_in(base)[i] < names.len() ==> (#[trigger] cmds[k]).1
                    != names[#[trigger] imports::declared_in(base)[i] as int]
            &&& addr.len() == 0 ==> cmds.len() == 0
            &&& settled(v)
            &&& tidy(v)
            &&& named(v, names)
        }),
{
    let start = imports::started(urls, base, addr, names);
    let none = Seq::<ImportCommandV>::empty();
    lemma_started(urls, base, addr, names);
    lemma_advanced(start, none, names);
    let (v, cmds) = imports::advanced(start, none);
    assert forall|n: Seq<char>| #[trigger] v.services.contains(n) <==> asked_for(cmds, 0, n) by {
        assert(!start.services.contains(n));
    }
    assert forall|i: int, k: int|
        0 <= i < imports::declared_in(base).len() && 0 <= k < cmds.len() && imports::declared_in(
            base,
        )[i] < names.len() implies (#[trigger] cmds[k]).1
        != names[#[trigger] imports::declared_in(base)[i] as int] by {
        let s = imports::declared_in(base)[i];
        assert(start.visited.contains(s));
        assert(!seen(start.visited, names, cmds[k].1));
    }
}

/// What the source of a service changes. The service is awaited no longer, the services that are
/// asked for now are, and nothing else changes in that. No service is asked for that was seen
/// before. The requests for the service are forgotten, so that a failure of one of them leads to
/// nothing; the other requests stay.
pub proof fn sources_lead_to_fresh_requests(
    v: ImportsV,
    name: Seq<char>,
    stmts: Seq<StmtV>,
    names: Seq<Seq<char>>,
)
    requires
        tidy(v),
        named(v, names),
        parser::grammar::imports_known(stmts, names),
        interner::distinct_names(names),
    ensures
        ({
            let (w, cmds) = imports::advanced(
                imports::recorded(imports::answered(v, name), stmts, names),
                Seq::empty(),
            );
            &&& forall|n: Seq<char>| #[trigger]
                w.services.contains(n) <==> (v.services.contains(n) && n != name) || asked_for(
                    cmds,
                    0,
                    n,
                )
            &&& fresh_requests(v, cmds, 0, names)
            &&& forall|k: int|
                0 <= k < cmds.len() ==> !v.services.contains((#[trigger] cmds[k]).1)
            &&& forall|i: int|
                0 <= i < v.pending.len() && (#[trigger] v.pending[i]).1.service_name == name
                    ==> imports::failed(w, v.pending[i].0) == (
                    w,
                    Ok::<Option<ImportCommandV>, ErrorV>(None),
                )
            &&& forall|i: int|
                0 <= i < v.pending.len() && (#[trigger] v.pending[i]).1.service_name != name
                    ==> w.pending.contains(v.pending[i])
            &&& tidy(w)
            &&& named(w, names)
        }),
{
    let none = Seq::<ImportCommandV>::empty();
    let a = imports::answered(v, name);
    let b = imports::recorded(a, stmts, names);
    imports::lemma_imports_known(stmts, names);
    lemma_filter_names(v.services, imports::other_name(name));
    let keep = imports::other_service(name);
    lemma_filter_requests(v.pending, keep);
    assert(v.visited.subset_of(b.visited));
    assert forall|i: int| 0 <= i < b.services.len() implies seen(
        b.visited,
        names,
        #[trigger] b.services[i],
    ) by {
        assert(b.services.contains(b.services[i]));
        assert(v.services.contains(b.services[i]));
        let k = choose|k: int| 0 <= k < v.services.len() && v.services[k] == b.services[i];
        assert(seen(v.visited, names, v.services[k]));
        lemma_seen_grows(v.visited, b.visited, names, v.services[k]);
    }
    lemma_advanced(b, none, names);
    let (w, cmds) = imports::advanced(b, none);
    assert forall|k: int| 0 <= k < cmds.len() implies {
        &&& !seen(v.visited, names, (#[trigger] cmds[k]).1)
        &&& !v.services.contains(cmds[k].1)
    } by {
        assert(!seen(b.visited, names, cmds[k].1));
        if seen(v.visited, names, cmds[k].1) {
            lemma_seen_grows(v.visited, b.visited, names, cmds[k].1);
        }
        if v.services.contains(cmds[k].1) {
            let j = choose|j: int| 0 <= j < v.services.len() && v.services[j] == cmds[k].1;
            assert(seen(v.visited, names, v.services[j]));
        }
    }
    assert forall|n: Seq<char>| #[trigger] w.services.contains(n) <==> (v.services.contains(n) && n
        != name) || asked_for(cmds, 0, n) by {
        assert(a.services.contains(n) <==> v.services.contains(n) && n != name);
    }
    assert forall|i: int|
        0 <= i < v.pending.len() && (#[trigger] v.pending[i]).1.service_name == name implies
        imports::failed(w, v.pending[i].0) == (w, Ok::<Option<ImportCommandV>, ErrorV>(None)) by {
        let id = v.pending[i].0;
        assert forall|j: int| 0 <= j < w.pending.len() implies (#[trigger] w.pending[j]).0
            != id by {
            let p = v.pending.filter(keep)[j];
            assert(v.pending.contains(p) && keep(p));
            let k = choose|k: int| 0 <= k < v.pending.len() && v.pending[k] == p;
            if k < i {
                assert(apart(v.pending[k], v.pending[i]));
            } else if i < k {
                assert(apart(v.pending[i], v.pending[k]));
            }
        }
        imports::unknown_failures_change_nothing(w, id);
    }
    assert forall|i: int|
        0 <= i < v.pending.len() && (#[trigger] v.pending[i]).1.service_name
            != name implies w.pending.contains(v.pending[i]) by {
        assert(keep(v.pending[i]));
    }
}

/// A look at the imports stops only where a local file has to be read or none is left. Where the
/// node has no address, it asks for nothing.
pub proof fn looking_settles(v: ImportsV, cmds: Seq<ImportCommandV>)
    ensures
        settled(imports::advanced(v, cmds).0),
        imports::advanced(v, cmds).0.addr == v.addr,
        v.addr.len() == 0 ==> imports::advanced(v, cmds).0.services == v.services
            && imports::advanced(v, cmds).1 == cmds,
    decreases v.todo.len(),
{
    if v.todo.len() > 0 && v.reading is None {
        let sym = v.todo.last().0;
        let name = v.todo.last().1;
        let rest = ImportsV { todo: v.todo.drop_last(), ..v };
        if v.visited.contains(sym) {
            looking_settles(rest, cmds);
        } else if let Some(url) = imports::url_of(v.urls, name) {
            if v.addr.len() > 0 {
                looking_settles(
                    ImportsV {
                        visited: v.visited.insert(sym),
                        services: imports::with_name(v.services, name),
                        counter: imports::next_id(v.counter),
                        ..rest
                    },
                    cmds.push(imports::fetch(v, name, url, 0)),
                );
            }
        }
    }
}

/// Between two calls, once every local file is read, the machine is done exactly where no service
/// is awaited; and where it is done, no import is left to look at.
pub proof fn done_where_nothing_is_awaited(v: ImportsV)
    requires
        settled(v),
    ensures
        v.reading is None ==> (done(v) <==> v.services.len() == 0),
        done(v) ==> v.todo.len() == 0,
{
}

/// A node without an address asks for nothing: neither at the start nor for a source that comes is
/// there a command, no service is ever awaited, and the machine is done once every local file is
/// read.
pub proof fn without_an_address_nothing_is_awaited(
    urls: Seq<(Seq<char>, Seq<char>)>,
    base: Seq<StmtV>,
    v: ImportsV,
    name: Seq<char>,
    stmts: Seq<StmtV>,
    names: Seq<Seq<char>>,
)
    requires
        v.addr.len() == 0,
        v.services.len() == 0,
    ensures
        ({
            let (w, cmds) = imports::advanced(
                imports::started(urls, base, Seq::empty(), names),
                Seq::empty(),
            );
            &&& cmds.len() == 0
            &&& w.addr.len() == 0
            &&& w.services.len() == 0
            &&& done(w) <==> w.reading is None
        }),
        ({
            let (w, cmds) = imports::advanced(
                imports::recorded(imports::answered(v, name), stmts, names),
                Seq::empty(),
            );
            &&& cmds.len() == 0
            &&& w.addr.len() == 0
            &&& w.services.len() == 0
            &&& done(w) <==> w.reading is None
        }),
{
    let none = Seq::<ImportCommandV>::empty();
    looking_settles(imports::started(urls, base, Seq::empty(), names), none);
    assert(imports::answered(v, name).services.len() == 0) by {
        reveal(Seq::filter);
    }
    looking_settles(imports::recorded(imports::answered(v, name), stmts, names), none);
}

/// A source that is no program changes no more than that nothing waits for it any more.
pub proof fn answers_keep_order(v: ImportsV, name: Seq<char>)
    requires
        tidy(v),
    ensures
        tidy(imports::answered(v, name)),
{
    lemma_filter_names(v.services, imports::other_name(name));
    lemma_filter_requests(v.pending, imports::other_service(name));
}

/// What a failure leads to. Nothing, where its request is not known or its service is not awaited;
/// else a further request for the same service at the same address, or, where the retries are used
/// up, an error. The services awaited and the other requests stay, and a second failure of the same
/// request leads to nothing.
pub proof fn failures_are_retried_once(v: ImportsV, id: MessageId)
    requires
        tidy(v),
    ensures
        ({
            let (w, res) = imports::failed(v, id);
            let at = imports::request_index(v.pending, id);
            let awaited = at is Some && v.services.contains(v.pending[at->0].1.service_name);
            &&& res == Ok::<Option<ImportCommandV>, ErrorV>(None) <==> !awaited
            &&& res is Err <==> awaited && v.pending[at->0].1.retry_count >= MAX_IMPORT_RETRIES
            &&& res matches Ok(Some(c)) ==> {
                &&& c.1 == v.pending[at->0].1.service_name
                &&& c.2 == v.pending[at->0].1.target_url
                &&& c.3 == v.pending[at->0].1.retry_count + 1
            }
            &&& w.services == v.services
            &&& forall|i: int|
                0 <= i < v.pending.len() && (#[trigger] v.pending[i]).0 != id
                    ==> w.pending.contains(v.pending[i])
            &&& imports::failed(w, id) == (w, Ok::<Option<ImportCommandV>, ErrorV>(None))
            &&& tidy(w)
        }),
{
    imports::lemma_request_index(v.pending, id);
    let (w, res) = imports::failed(v, id);
    if let Some(at) = imports::request_index(v.pending, id) {
        assert(w.pending == v.pending.remove(at));
        assert forall|i: int| 0 <= i < v.pending.len() && (#[trigger] v.pending[i]).0
            != id implies w.pending.contains(v.pending[i]) by {
            if i < at {
                assert(w.pending[i] == v.pending[i]);
            } else {
                assert(w.pending[i - 1] == v.pending[i]);
            }
        }
        assert forall|i: int, j: int| 0 <= i < j < w.pending.len() implies #[trigger] apart(
            w.pending[i],
            w.pending[j],
        ) by {
            let k = if i < at {
                i
            } else {
                i + 1
            };
            let l = if j < at {
                j
            } else {
                j + 1
            };
            assert(apart(v.pending[k], v.pending[l]));
        }
        assert forall|j: int| 0 <= j < w.pending.len() implies (#[trigger] w.pending[j]).0
            != id by {
            if j < at {
                assert(apart(v.pending[j], v.pending[at]));
            } else {
                assert(apart(v.pending[at], v.pending[j + 1]));
            }
        }
    }
    imports::unknown_failures_change_nothing(w, id);
}

/// What a sent request changes. It is the one request for its service, and the one with its
/// number; a failure of an earlier request for that service leads to nothing. The services awaited
/// and the requests for other services stay, but for one that had the same number.
pub proof fn sent_requests_replace_earlier_ones(
    v: ImportsV,
    id: MessageId,
    name: Seq<char>,
    url: Seq<char>,
    retry: u8,
    now: u64,
)
    requires
        tidy(v),
    ensures
        ({
            let w = imports::registered(v, id, name, url, retry, now);
            &&& w.services == v.services
            &&& imports::request_index(w.pending, id) == Some(w.pending.len() - 1)
            &&& w.pending.last() == (
                id,
                RequestV {
                    service_name: name,
                    target_url: url,
                    start_time: now,
                    retry_count: retry,
                },
            )
            &&& forall|i: int|
                0 <= i < v.pending.len() && (#[trigger] v.pending[i]).1.service_name == name
                    && v.pending[i].0 != id ==> imports::failed(w, v.pending[i].0) == (
                    w,
                    Ok::<Option<ImportCommandV>, ErrorV>(None),
                )
            &&& forall|i: int|
                0 <= i < v.pending.len() && (#[trigger] v.pending[i]).1.service_name != name
                    && v.pending[i].0 != id ==> w.pending.contains(v.pending[i])
            &&& tidy(w)
        }),
{
    let keep = imports::unrelated(name, id);
    let rest = v.pending.filter(keep);
    let w = imports::registered(v, id, name, url, retry, now);
    lemma_filter_requests(v.pending, keep);
    assert forall|i: int, j: int| 0 <= i < j < w.pending.len() implies #[trigger] apart(
        w.pending[i],
        w.pending[j],
    ) by {
        if j < rest.len() {
            assert(apart(rest[i], rest[j]));
        } else {
            assert(keep(rest[i]));
        }
    }
    assert forall|i: int|
        0 <= i < v.pending.len() && (#[trigger] v.pending[i]).1.service_name != name
            && v.pending[i].0 != id implies w.pending.contains(v.pending[i]) by {
        assert(keep(v.pending[i]));
        let k = choose|k: int| 0 <= k < rest.len() && rest[k] == v.pending[i];
        assert(w.pending[k] == v.pending[i]);
    }
    assert forall|i: int|
        0 <= i < v.pending.len() && (#[trigger] v.pending[i]).1.service_name == name
            && v.pending[i].0 != id implies imports::failed(w, v.pending[i].0) == (
        w,
        Ok::<Option<ImportCommandV>, ErrorV>(None),
    ) by {
        assert forall|j: int| 0 <= j < w.pending.len() implies (#[trigger] w.pending[j]).0
            != v.pending[i].0 by {
            if j < rest.len() {
                assert(keep(rest[j]));
                assert(v.pending.contains(rest[j]));
                let k = choose|k: int| 0 <= k < v.pending.len() && v.pending[k] == rest[j];
                if k < i {
                    assert(apart(v.pending[k], v.pending[i]));
                } else if i < k {
                    assert(apart(v.pending[i], v.pending[k]));
                }
            }
        }
        imports::unknown_failures_change_nothing(w, v.pending[i].0);
    }
}

/// A table that grows still knows the services of a state.
pub proof fn names_stay_known(v: ImportsV, names: Seq<Seq<char>>, more: Seq<Seq<char>>)
    requires
        named(v, names),
        names.is_prefix_of(more),
    ensures
        named(v, more),
{
    assert forall|i: int| 0 <= i < names.len() implies #[trigger] names[i] == more[i] by {
        assert(more.subrange(0, names.len() as int)[i] == names[i]);
    }
    assert forall|i: int| 0 <= i < v.todo.len() implies (#[trigger] v.todo[i]).0 < more.len()
        && v.todo[i].1 == more[v.todo[i].0 as int] by {
        assert(names[v.todo[i].0 as int] == more[v.todo[i].0 as int]);
    }
    assert forall|i: int| 0 <= i < v.services.len() implies seen(
        v.visited,
        more,
        #[trigger] v.services[i],
    ) by {
        assert(seen(v.visited, names, v.services[i]));
        let s = choose|s: Symbol| #[trigger]
            v.visited.contains(s) && s < names.len() && names[s as int] == v.services[i];
        assert(v.visited.contains(s) && names[s as int] == more[s as int]);
    }
}

} // verus!
