//! What becomes of imports: none is forgotten.

use vstd::prelude::*;

use crate::net::types::{MeerkatMessageV, MessageId, NetworkCommandV};
use crate::runtime::ast::StmtV;
use crate::runtime::import_order;
use crate::runtime::imports;
use crate::runtime::imports::{ImportCommandV, ImportsV, ModuleV, RequestV};
use crate::runtime::interner::Symbol;
use crate::runtime::parser;

verus! {

/// Whether one of the statements declares a service.
pub open spec fn declares(stmts: Seq<StmtV>, s: Symbol) -> bool {
    exists|i: int|
        0 <= i < stmts.len() && (#[trigger] stmts[i]) is Service && stmts[i]->Service_name == s
}

/// Whether one of the statements imports a service.
pub open spec fn imports_it(stmts: Seq<StmtV>, s: Symbol) -> bool {
    exists|i: int|
        0 <= i < stmts.len() && (#[trigger] stmts[i]) is Import && stmts[i]->Import_service_name == s
}

/// Adding to the end of a list.
proof fn lemma_push<A>(s: Seq<A>, a: A, x: A)
    ensures
        s.push(a).contains(x) <==> s.contains(x) || x == a,
{
    let p = s.push(a);
    if s.contains(x) {
        let i = choose|i: int| 0 <= i < s.len() && s[i] == x;
        assert(p[i] == x);
    }
    assert(p[s.len() as int] == a);
}

/// The services that statements declare and import are listed, and no others.
pub proof fn lists_hold_what_statements_say(stmts: Seq<StmtV>, s: Symbol)
    ensures
        imports::declared_in(stmts).contains(s) <==> declares(stmts, s),
        imports::imported_in(stmts).contains(s) <==> imports_it(stmts, s),
    decreases stmts.len(),
{
    if stmts.len() > 0 {
        let rest = stmts.drop_last();
        let n = stmts.len() - 1;
        lists_hold_what_statements_say(rest, s);
        if declares(rest, s) {
            let i = choose|i: int|
                0 <= i < rest.len() && (#[trigger] rest[i]) is Service && rest[i]->Service_name == s;
            assert(stmts[i] is Service);
        }
        if imports_it(rest, s) {
            let i = choose|i: int|
                0 <= i < rest.len() && (#[trigger] rest[i]) is Import
                    && rest[i]->Import_service_name == s;
            assert(stmts[i] is Import);
        }
        assert forall|i: int| 0 <= i < n implies #[trigger] stmts[i] == rest[i] by {}
        match stmts[n] {
            StmtV::Service { name, .. } => {
                lemma_push(imports::declared_in(rest), name, s);
            },
            StmtV::Import { service_name, .. } => {
                lemma_push(imports::imported_in(rest), service_name, s);
            },
            _ => {},
        }
    }
}

/// Whether an entry is the first of a name.
pub open spec fn first_entry(
    urls: Seq<(Seq<char>, Seq<char>)>,
    k: int,
    name: Seq<char>,
) -> bool {
    &&& 0 <= k < urls.len()
    &&& urls[k].0 == name
    &&& forall|j: int| 0 <= j < k ==> (#[trigger] urls[j]).0 != name
}

/// A service is fetched from the first address that is given for it; without one it has none.
pub proof fn addresses_are_the_first_given(urls: Seq<(Seq<char>, Seq<char>)>, name: Seq<char>)
    ensures
        match imports::url_of(urls, name) {
            Some(url) => exists|k: int| #[trigger] first_entry(urls, k, name) && urls[k].1 == url,
            None => forall|k: int| 0 <= k < urls.len() ==> (#[trigger] urls[k]).0 != name,
        },
    decreases urls.len(),
{
    if urls.len() > 0 {
        if urls[0].0 == name {
            assert(first_entry(urls, 0, name));
        } else {
            let rest = urls.skip(1);
            addresses_are_the_first_given(rest, name);
            match imports::url_of(rest, name) {
                Some(url) => {
                    let k = choose|k: int| #[trigger]
                        first_entry(rest, k, name) && rest[k].1 == url;
                    assert forall|j: int| 0 <= j < k + 1 implies (#[trigger] urls[j]).0 != name by {
                        if j > 0 {
                            assert(rest[j - 1] == urls[j]);
                        }
                    }
                    assert(first_entry(urls, k + 1, name));
                },
                None => {
                    assert forall|k: int| 0 <= k < urls.len() implies (#[trigger] urls[k]).0
                        != name by {
                        if k > 0 {
                            assert(rest[k - 1] == urls[k]);
                        }
                    }
                },
            }
        }
    }
}

/// Whether a command asks for the source of a service at an address, for the first time, and for
/// the answer to come to `reply_to`.
pub open spec fn asks(
    c: ImportCommandV,
    name: Seq<char>,
    url: Seq<char>,
    reply_to: Seq<char>,
) -> bool {
    &&& c.1 == name
    &&& c.2 == url
    &&& c.3 == 0
    &&& c.0 matches NetworkCommandV::SendMessage { addr, msg } && addr == url && (
    msg matches MeerkatMessageV::ServiceCodeRequest { path, reply_to: back, .. } && path
        == parser::grammar::import_path(name) && back == reply_to)
}

/// Whether a service is asked for behind the first commands.
pub open spec fn is_asked_for(
    v: ImportsV,
    cmds: Seq<ImportCommandV>,
    from: int,
    name: Seq<char>,
) -> bool {
    exists|j: int|
        from <= j < cmds.len() && imports::url_of(v.urls, name) is Some && asks(
            #[trigger] cmds[j],
            name,
            imports::url_of(v.urls, name)->0,
            v.addr,
        )
}

/// Whether a file is read for a service: no address is known for it, or none of this node.
pub open spec fn is_read(v: ImportsV, w: ImportsV, name: Seq<char>) -> bool {
    w.reading == Some(name) && (imports::url_of(v.urls, name) is None || v.addr.len() == 0)
}

/// Looking at imports, the machine passes over those that it saw before, and asks for each other
/// one at its address, or has a file read for it. It stops at a file to be read, and keeps the
/// imports that it did not come to; else it looked at all of them.
pub proof fn no_import_is_forgotten(v: ImportsV, cmds: Seq<ImportCommandV>, k: int)
    requires
        v.reading is None,
        0 <= k < v.todo.len(),
    ensures
        ({
            let (w, more) = imports::advanced(v, cmds);
            let (sym, name) = v.todo[k];
            &&& v.visited.subset_of(w.visited)
            &&& w.reading is None ==> w.todo.len() == 0
            &&& (k < w.todo.len() && w.todo[k] == v.todo[k]) || w.visited.contains(sym)
            &&& w.visited.contains(sym) && !v.visited.contains(sym) ==> exists|l: int|
                0 <= l < v.todo.len() && (#[trigger] v.todo[l]).0 == sym && (is_asked_for(
                    v,
                    more,
                    cmds.len() as int,
                    v.todo[l].1,
                ) || is_read(v, w, v.todo[l].1))
        }),
{
    lemma_advanced(v, cmds);
}

/// What looking at imports does.
proof fn lemma_advanced(v: ImportsV, cmds: Seq<ImportCommandV>)
    requires
        v.reading is None,
    ensures
        ({
            let (w, more) = imports::advanced(v, cmds);
            &&& v.visited.subset_of(w.visited)
            &&& cmds.len() <= more.len()
            &&& more.take(cmds.len() as int) == cmds
            &&& w.reading is None ==> w.todo.len() == 0
            &&& w.todo.len() <= v.todo.len()
            &&& w.todo == v.todo.take(w.todo.len() as int)
            &&& forall|k: int|
                w.todo.len() <= k < v.todo.len() ==> w.visited.contains((#[trigger] v.todo[k]).0)
            &&& forall|s: Symbol| #[trigger]
                w.visited.contains(s) && !v.visited.contains(s) ==> exists|l: int|
                    0 <= l < v.todo.len() && (#[trigger] v.todo[l]).0 == s && (is_asked_for(
                        v,
                        more,
                        cmds.len() as int,
                        v.todo[l].1,
                    ) || is_read(v, w, v.todo[l].1))
        }),
    decreases v.todo.len(),
{
    let (w, more) = imports::advanced(v, cmds);
    let before = cmds.len() as int;
    if v.todo.len() == 0 {
        assert(more.take(before) =~= cmds);
        assert(w.todo =~= v.todo.take(w.todo.len() as int));
    } else {
        let n = v.todo.len() - 1;
        let (sym, name) = v.todo[n];
        assert(v.todo.last() == v.todo[n]);
        let rest = ImportsV { todo: v.todo.drop_last(), ..v };
        if v.visited.contains(sym) {
            lemma_advanced(rest, cmds);
            lemma_kept(v, rest, w);
            assert forall|s: Symbol| #[trigger]
                w.visited.contains(s) && !v.visited.contains(s) implies exists|l: int|
                0 <= l < v.todo.len() && (#[trigger] v.todo[l]).0 == s && (is_asked_for(
                    v,
                    more,
                    before,
                    v.todo[l].1,
                ) || is_read(v, w, v.todo[l].1)) by {
                let l = choose|l: int|
                    0 <= l < rest.todo.len() && (#[trigger] rest.todo[l]).0 == s && (is_asked_for(
                        rest,
                        more,
                        before,
                        rest.todo[l].1,
                    ) || is_read(rest, w, rest.todo[l].1));
                assert(v.todo[l] == rest.todo[l]);
            }
        } else {
            let seen = ImportsV { visited: v.visited.insert(sym), ..rest };
            match imports::url_of(v.urls, name) {
                Some(url) if v.addr.len() > 0 => {
                    let next = ImportsV {
                        services: imports::with_name(v.services, name),
                        counter: imports::next_id(v.counter),
                        ..seen
                    };
                    let c = imports::fetch(v, name, url, 0);
                    lemma_advanced(next, cmds.push(c));
                    lemma_kept(v, next, w);
                    assert(more.take(before) =~= more.take(before + 1).take(
                        before,
                    ));
                    assert(cmds.push(c).take(before) =~= cmds);
                    assert(more.take(before + 1)[before] == c);
                    assert(asks(more[before], name, url, v.addr));
                    assert(is_asked_for(v, more, before, name));
                    assert forall|s: Symbol| #[trigger]
                        w.visited.contains(s) && !v.visited.contains(s) implies exists|l: int|
                        0 <= l < v.todo.len() && (#[trigger] v.todo[l]).0 == s && (is_asked_for(
                            v,
                            more,
                            before,
                            v.todo[l].1,
                        ) || is_read(v, w, v.todo[l].1)) by {
                        if s == sym {
                            assert(v.todo[n].0 == s);
                        } else {
                            let l = choose|l: int|
                                0 <= l < next.todo.len() && (#[trigger] next.todo[l]).0 == s && (
                                is_asked_for(next, more, before + 1, next.todo[l].1) || is_read(
                                    next,
                                    w,
                                    next.todo[l].1,
                                ));
                            assert(v.todo[l] == next.todo[l]);
                            let it = v.todo[l].1;
                            if is_asked_for(next, more, before + 1, it) {
                                let j = choose|j: int|
                                    before + 1 <= j < more.len() && imports::url_of(
                                        next.urls,
                                        it,
                                    ) is Some && asks(
                                        #[trigger] more[j],
                                        it,
                                        imports::url_of(next.urls, it)->0,
                                        next.addr,
                                    );
                                assert(asks(
                                    more[j],
                                    it,
                                    imports::url_of(v.urls, it)->0,
                                    v.addr,
                                ));
                                assert(is_asked_for(v, more, before, it));
                            }
                        }
                    }
                },
                _ => {
                    assert(more.take(before) =~= cmds);
                    assert(w.todo =~= v.todo.take(n));
                    assert(is_read(v, w, name));
                    assert forall|s: Symbol| #[trigger]
                        w.visited.contains(s) && !v.visited.contains(s) implies exists|l: int|
                        0 <= l < v.todo.len() && (#[trigger] v.todo[l]).0 == s && (is_asked_for(
                            v,
                            more,
                            before,
                            v.todo[l].1,
                        ) || is_read(v, w, v.todo[l].1)) by {
                        assert(v.todo[n].0 == s);
                    }
                },
            }
        }
    }
}

/// What is left to be looked at is the first part of what there was.
proof fn lemma_kept(v: ImportsV, next: ImportsV, w: ImportsV)
    requires
        v.todo.len() > 0,
        next.todo == v.todo.drop_last(),
        w.todo.len() <= next.todo.len(),
        w.todo == next.todo.take(w.todo.len() as int),
        w.visited.contains(v.todo.last().0) || next.visited.contains(v.todo.last().0),
        next.visited.subset_of(w.visited),
        forall|k: int|
            w.todo.len() <= k < next.todo.len() ==> w.visited.contains((#[trigger] next.todo[k]).0),
    ensures
        w.todo == v.todo.take(w.todo.len() as int),
        forall|k: int|
            w.todo.len() <= k < v.todo.len() ==> w.visited.contains((#[trigger] v.todo[k]).0),
{
    assert(w.todo =~= v.todo.take(w.todo.len() as int));
    assert forall|k: int| w.todo.len() <= k < v.todo.len() implies w.visited.contains(
        (#[trigger] v.todo[k]).0,
    ) by {
        if k < next.todo.len() {
            assert(next.todo[k] == v.todo[k]);
        } else {
            assert(v.todo[k] == v.todo.last());
        }
    }
}

/// Whether one of the files holds a statement.
pub open spec fn stands_in(mods: Seq<ModuleV>, s: StmtV) -> bool {
    exists|i: int| 0 <= i < mods.len() && (#[trigger] mods[i]).stmts.contains(s)
}

/// The statements of files in an order.
proof fn lemma_in_order(mods: Seq<ModuleV>, order: Seq<int>, s: StmtV)
    ensures
        imports::stmts_in_order(mods, order).contains(s) <==> exists|j: int|
            0 <= j < order.len() && mods[#[trigger] order[j]].stmts.contains(s),
    decreases order.len(),
{
    if order.len() > 0 {
        let rest = order.drop_last();
        let n = order.len() - 1;
        lemma_in_order(mods, rest, s);
        let before = imports::stmts_in_order(mods, rest);
        let last = mods[order[n]].stmts;
        let all = before + last;
        assert(imports::stmts_in_order(mods, order) == all);
        if before.contains(s) {
            let i = choose|i: int| 0 <= i < before.len() && before[i] == s;
            assert(all[i] == s);
            let j = choose|j: int|
                0 <= j < rest.len() && mods[#[trigger] rest[j]].stmts.contains(s);
            assert(mods[order[j]].stmts.contains(s));
        }
        if last.contains(s) {
            let i = choose|i: int| 0 <= i < last.len() && last[i] == s;
            assert(all[before.len() + i] == s);
            assert(mods[order[n]].stmts.contains(s));
        }
        if exists|j: int| 0 <= j < order.len() && mods[#[trigger] order[j]].stmts.contains(s) {
            let j = choose|j: int|
                0 <= j < order.len() && mods[#[trigger] order[j]].stmts.contains(s);
            if j < n {
                assert(mods[rest[j]].stmts.contains(s));
            }
        }
    }
}

/// The program that imported files are put together to holds exactly their statements.
pub proof fn files_are_put_together_whole(v: ImportsV, s: StmtV)
    ensures
        imports::finalized(v).contains(s) <==> stands_in(v.modules, s),
{
    let order = imports::module_order(v.modules);
    lemma_in_order(v.modules, order, s);
    import_order::every_file_is_placed_once(v.modules);
    if stands_in(v.modules, s) {
        let i = choose|i: int|
            0 <= i < v.modules.len() && (#[trigger] v.modules[i]).stmts.contains(s);
        assert(order.contains(i));
        let j = choose|j: int| 0 <= j < order.len() && order[j] == i;
        assert(v.modules[order[j]].stmts.contains(s));
    }
    if exists|j: int| 0 <= j < order.len() && v.modules[#[trigger] order[j]].stmts.contains(s) {
        let j = choose|j: int|
            0 <= j < order.len() && v.modules[#[trigger] order[j]].stmts.contains(s);
        assert(order.contains(order[j]));
        assert(v.modules[order[j]].stmts.contains(s));
    }
}

/// The requests that are late are those that wait too long, each of them.
pub proof fn late_requests_are_found(
    pending: Seq<(MessageId, RequestV)>,
    n: int,
    now: u64,
    id: MessageId,
)
    requires
        0 <= n <= pending.len(),
    ensures
        imports::late(pending, n, now).contains(id) <==> exists|i: int|
            0 <= i < n && (#[trigger] pending[i]).0 == id && imports::timed_out(pending[i].1, now),
    decreases n,
{
    if n > 0 {
        late_requests_are_found(pending, n - 1, now, id);
        let before = imports::late(pending, n - 1, now);
        lemma_push(before, pending[n - 1].0, id);
    }
}

} // verus!
