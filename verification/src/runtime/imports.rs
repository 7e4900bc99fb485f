//! The imports state machine: which services a program needs, where their sources come from, and
//! in which order they are put together.
//!
//! The machine does no input or output itself. It hands out commands that ask other nodes for
//! sources, and the name of the local file to read next; the sources are handed back to it.

use std::collections::HashSet;
use vstd::prelude::*;

use crate::error::{Error, ErrorV};
use crate::net::types::{
    Address, MeerkatMessage, MeerkatMessageV, MessageId, NetworkCommand, NetworkCommandV,
};
use crate::runtime::ast;
use crate::runtime::ast::{clone_stmts, Stmt, StmtV};
use crate::runtime::import_requests;
use crate::runtime::interner::{Interner, Symbol};
use crate::runtime::limits::{
    INDIVIDUAL_IMPORT_TIMEOUT_SECS, MAX_IMPORTED_SERVICES, MAX_IMPORT_RETRIES,
};
use crate::runtime::parser;
use crate::runtime::parser::{parse_string};
use crate::runtime::text;
use crate::runtime::text::{joined_text, nat_to_string};
use crate::runtime::tt::types;

verus! {

broadcast use {vstd::std_specs::hash::group_hash_axioms, types::views_push};

/// A request that was sent and not answered yet.
#[derive(Debug, PartialEq, Eq)]
pub struct PendingRequest {
    /// Name of the service requested.
    pub service_name: String,
    /// Where the request was sent.
    pub target_url: String,
    /// When the request was sent, in milliseconds.
    pub start_time: u64,
    /// Number of retries made so far.
    pub retry_count: u8,
}

/// What a `PendingRequest` stands for.
pub struct RequestV {
    pub service_name: Seq<char>,
    pub target_url: Seq<char>,
    pub start_time: u64,
    pub retry_count: u8,
}

impl View for PendingRequest {
    type V = RequestV;

    open spec fn view(&self) -> RequestV {
        RequestV {
            service_name: self.service_name@,
            target_url: self.target_url@,
            start_time: self.start_time,
            retry_count: self.retry_count,
        }
    }
}

/// A command that fetches a service: the command, the service, the address, and the number of
/// retries so far.
pub type ImportCommand = (NetworkCommand, String, String, u8);

/// What an `ImportCommand` stands for.
pub type ImportCommandV = (NetworkCommandV, Seq<char>, Seq<char>, u8);

/// What an import command stands for.
pub open spec fn command_view(c: ImportCommand) -> ImportCommandV {
    (c.0@, c.1@, c.2@, c.3)
}

/// What import commands stand for.
pub open spec fn commands_view(cs: Seq<ImportCommand>) -> Seq<ImportCommandV> {
    cs.map_values(|c: ImportCommand| command_view(c))
}

/// A source file that was imported.
#[derive(Debug)]
pub struct ImportedModule {
    /// Services that the file declares.
    pub declares: Vec<Symbol>,
    /// Services that the file imports.
    pub imports: Vec<Symbol>,
    /// The statements of the file.
    pub stmts: Vec<Stmt>,
}

/// What an `ImportedModule` stands for.
pub struct ModuleV {
    pub declares: Seq<Symbol>,
    pub imports: Seq<Symbol>,
    pub stmts: Seq<StmtV>,
}

impl View for ImportedModule {
    type V = ModuleV;

    open spec fn view(&self) -> ModuleV {
        ModuleV {
            declares: self.declares@,
            imports: self.imports@,
            stmts: types::views(self.stmts@),
        }
    }
}

/// The state machine that resolves imports.
pub struct Imports {
    visited_services: HashSet<Symbol>,
    pending_network: Vec<(MessageId, PendingRequest)>,
    pending_services: Vec<String>,
    remote_url_map: Vec<(String, String)>,
    modules: Vec<ImportedModule>,
    request_counter: u64,
    my_addr: String,
    todo: Vec<(Symbol, String)>,
    reading: Option<String>,
}

/// What the state of the machine is.
pub struct ImportsV {
    /// Services that are declared, or whose source was asked for.
    pub visited: Set<Symbol>,
    /// Requests without an answer, in the order in which they were sent.
    pub pending: Seq<(MessageId, RequestV)>,
    /// Services whose source was asked for from other nodes.
    pub services: Seq<Seq<char>>,
    /// The addresses of services on other nodes.
    pub urls: Seq<(Seq<char>, Seq<char>)>,
    /// The files received, in the order in which they came.
    pub modules: Seq<ModuleV>,
    /// The number of the last request.
    pub counter: u64,
    /// The address of this node; empty where it has none.
    pub addr: Seq<char>,
    /// Imports not looked at yet; the last one comes next.
    pub todo: Seq<(Symbol, Seq<char>)>,
    /// The service whose local file is to be read.
    pub reading: Option<Seq<char>>,
}

pub open spec fn pending_view(ps: Seq<(MessageId, PendingRequest)>) -> Seq<(MessageId, RequestV)> {
    ps.map_values(|p: (MessageId, PendingRequest)| (p.0, p.1@))
}

pub open spec fn urls_view(us: Seq<(String, String)>) -> Seq<(Seq<char>, Seq<char>)> {
    us.map_values(|p: (String, String)| (p.0@, p.1@))
}

pub open spec fn todo_view(ts: Seq<(Symbol, String)>) -> Seq<(Symbol, Seq<char>)> {
    ts.map_values(|p: (Symbol, String)| (p.0, p.1@))
}

impl View for Imports {
    type V = ImportsV;

    closed spec fn view(&self) -> ImportsV {
        ImportsV {
            visited: self.visited_services@,
            pending: pending_view(self.pending_network@),
            services: types::views(self.pending_services@),
            urls: urls_view(self.remote_url_map@),
            modules: types::views(self.modules@),
            counter: self.request_counter,
            addr: self.my_addr@,
            todo: todo_view(self.todo@),
            reading: types::opt_view(self.reading),
        }
    }
}

/// The services that statements declare, in order.
pub open spec fn declared_in(stmts: Seq<StmtV>) -> Seq<Symbol>
    decreases stmts.len(),
{
    if stmts.len() == 0 {
        Seq::empty()
    } else {
        match stmts.last() {
            StmtV::Service { name, .. } => declared_in(stmts.drop_last()).push(name),
            _ => declared_in(stmts.drop_last()),
        }
    }
}

/// The services that statements import, in order.
pub open spec fn imported_in(stmts: Seq<StmtV>) -> Seq<Symbol>
    decreases stmts.len(),
{
    if stmts.len() == 0 {
        Seq::empty()
    } else {
        match stmts.last() {
            StmtV::Import { service_name, .. } => imported_in(stmts.drop_last()).push(service_name),
            _ => imported_in(stmts.drop_last()),
        }
    }
}

/// The address of a service on another node: the first entry of its name.
pub open spec fn url_of(urls: Seq<(Seq<char>, Seq<char>)>, name: Seq<char>) -> Option<Seq<char>>
    decreases urls.len(),
{
    if urls.len() == 0 {
        None
    } else if urls[0].0 == name {
        Some(urls[0].1)
    } else {
        url_of(urls.skip(1), name)
    }
}

/// The number behind a request number.
pub open spec fn next_id(c: u64) -> u64 {
    if c == u64::MAX {
        0
    } else {
        (c + 1) as u64
    }
}

/// The command that asks for the source of a service.
pub open spec fn fetch(v: ImportsV, name: Seq<char>, url: Seq<char>, retry: u8) -> ImportCommandV {
    (
        NetworkCommandV::SendMessage {
            addr: url,
            msg: MeerkatMessageV::ServiceCodeRequest {
                request_id: next_id(v.counter),
                path: parser::grammar::import_path(name),
                reply_to: v.addr,
            },
        },
        name,
        url,
        retry,
    )
}

/// A list of names with one appended that it did not hold.
pub open spec fn with_name(names: Seq<Seq<char>>, name: Seq<char>) -> Seq<Seq<char>> {
    if names.contains(name) {
        names
    } else {
        names.push(name)
    }
}

/// Look at the imports one after the other, until a local file has to be read or none is left. A
/// service seen before is passed over; one on another node is asked for there, where this node has
/// an address.
pub open spec fn advanced(v: ImportsV, cmds: Seq<ImportCommandV>) -> (ImportsV, Seq<ImportCommandV>)
    decreases v.todo.len(),
{
    if v.todo.len() == 0 || v.reading is Some {
        (v, cmds)
    } else {
        let sym = v.todo.last().0;
        let name = v.todo.last().1;
        let rest = ImportsV { todo: v.todo.drop_last(), ..v };
        if v.visited.contains(sym) {
            advanced(rest, cmds)
        } else {
            let seen = ImportsV { visited: v.visited.insert(sym), ..rest };
            match url_of(v.urls, name) {
                Some(url) => if v.addr.len() > 0 {
                    advanced(
                        ImportsV {
                            services: with_name(v.services, name),
                            counter: next_id(v.counter),
                            ..seen
                        },
                        cmds.push(fetch(v, name, url, 0)),
                    )
                } else {
                    (ImportsV { reading: Some(name), ..seen }, cmds)
                },
                None => (ImportsV { reading: Some(name), ..seen }, cmds),
            }
        }
    }
}

/// Imports put before those not looked at yet, the first of them next.
pub open spec fn queued(
    todo: Seq<(Symbol, Seq<char>)>,
    syms: Seq<Symbol>,
    names: Seq<Seq<char>>,
) -> Seq<(Symbol, Seq<char>)> {
    todo + Seq::new(
        syms.len(),
        |i: int|
            (syms[syms.len() - 1 - i], names[syms[syms.len() - 1 - i] as int]),
    )
}

/// The state before the first import is looked at.
pub open spec fn started(
    urls: Seq<(Seq<char>, Seq<char>)>,
    base: Seq<StmtV>,
    addr: Seq<char>,
    names: Seq<Seq<char>>,
) -> ImportsV {
    ImportsV {
        visited: declared_in(base).to_set(),
        pending: Seq::empty(),
        services: Seq::empty(),
        urls,
        modules: Seq::empty(),
        counter: 0,
        addr,
        todo: queued(Seq::empty(), imported_in(base), names),
        reading: None,
    }
}

/// Whether a request is for another service and has another number.
pub open spec fn unrelated(service_name: Seq<char>, id: MessageId) -> spec_fn(
    (MessageId, RequestV),
) -> bool {
    |p: (MessageId, RequestV)| p.1.service_name != service_name && p.0 != id
}

/// The state after a request was sent.
pub open spec fn registered(
    v: ImportsV,
    id: MessageId,
    service_name: Seq<char>,
    target_url: Seq<char>,
    retry_count: u8,
    now: u64,
) -> ImportsV {
    ImportsV {
        pending: v.pending.filter(unrelated(service_name, id)).push(
            (id, RequestV { service_name, target_url, start_time: now, retry_count }),
        ),
        ..v
    }
}

/// Whether a name is another one.
pub open spec fn other_name(name: Seq<char>) -> spec_fn(Seq<char>) -> bool {
    |s: Seq<char>| s != name
}

/// Whether a request is for another service.
pub open spec fn other_service(name: Seq<char>) -> spec_fn((MessageId, RequestV)) -> bool {
    |p: (MessageId, RequestV)| p.1.service_name != name
}

/// The state after a source came for a service, before the source is read: nothing waits for it
/// any more.
pub open spec fn answered(v: ImportsV, name: Seq<char>) -> ImportsV {
    ImportsV {
        services: v.services.filter(other_name(name)),
        pending: v.pending.filter(other_service(name)),
        reading: if v.reading == Some(name) {
            None
        } else {
            v.reading
        },
        ..v
    }
}

/// The state after a source could not be read: where no local file is to be read any more, the
/// imports left to look at are given up.
pub open spec fn abandoned(v: ImportsV) -> ImportsV {
    ImportsV {
        todo: if v.reading is None {
            Seq::empty()
        } else {
            v.todo
        },
        ..v
    }
}

/// The state after the statements of a source were recorded.
pub open spec fn recorded(v: ImportsV, stmts: Seq<StmtV>, names: Seq<Seq<char>>) -> ImportsV {
    ImportsV {
        visited: v.visited.union(declared_in(stmts).to_set()),
        modules: v.modules.push(
            ModuleV { declares: declared_in(stmts), imports: imported_in(stmts), stmts },
        ),
        todo: queued(v.todo, imported_in(stmts), names),
        ..v
    }
}

/// What is reported where too many services are imported.
pub open spec fn too_many_services() -> ErrorV {
    ErrorV::LimitExceeded(
        "imported service count exceeds maximum limit of "@ + text::nat_text(
            MAX_IMPORTED_SERVICES as nat,
        ),
    )
}

/// What is reported of a service that could not be fetched.
pub open spec fn gave_up(name: Seq<char>) -> ErrorV {
    ErrorV::Message(
        "Import fetch failed for service '"@ + name + "' after "@ + text::nat_text(
            MAX_IMPORT_RETRIES as nat,
        ) + " retries"@,
    )
}

/// The position of a request.
pub open spec fn request_index(pending: Seq<(MessageId, RequestV)>, id: MessageId) -> Option<int>
    decreases pending.len(),
{
    if pending.len() == 0 {
        None
    } else if pending.last().0 == id {
        Some(pending.len() - 1)
    } else {
        request_index(pending.drop_last(), id)
    }
}

/// The state and the command after a request failed, or why there is no further one.
pub open spec fn failed(v: ImportsV, id: MessageId) -> (
    ImportsV,
    Result<Option<ImportCommandV>, ErrorV>,
) {
    match request_index(v.pending, id) {
        None => (v, Ok(None)),
        Some(i) => {
            let req = v.pending[i].1;
            let w = ImportsV { pending: v.pending.remove(i), ..v };
            if !v.services.contains(req.service_name) {
                (w, Ok(None))
            } else if req.retry_count >= MAX_IMPORT_RETRIES {
                (w, Err(gave_up(req.service_name)))
            } else {
                (
                    ImportsV { counter: next_id(v.counter), ..w },
                    Ok(
                        Some(
                            fetch(
                                v,
                                req.service_name,
                                req.target_url,
                                (req.retry_count + 1) as u8,
                            ),
                        ),
                    ),
                )
            }
        },
    }
}

/// Whether a request has waited too long.
pub open spec fn timed_out(req: RequestV, now: u64) -> bool {
    now >= req.start_time + INDIVIDUAL_IMPORT_TIMEOUT_SECS * 1000
}

/// The first request from position `i` on that has waited too long and has no retry left.
pub open spec fn exhausted(pending: Seq<(MessageId, RequestV)>, i: int, now: u64) -> Option<
    Seq<char>,
>
    decreases pending.len() - i,
{
    if i < 0 || i >= pending.len() {
        None
    } else if timed_out(pending[i].1, now) && pending[i].1.retry_count >= MAX_IMPORT_RETRIES {
        Some(pending[i].1.service_name)
    } else {
        exhausted(pending, i + 1, now)
    }
}

/// The requests before position `i` that have waited too long.
pub open spec fn late(pending: Seq<(MessageId, RequestV)>, i: int, now: u64) -> Seq<MessageId>
    decreases i,
{
    if i <= 0 || i > pending.len() {
        Seq::empty()
    } else if timed_out(pending[i - 1].1, now) {
        late(pending, i - 1, now).push(pending[i - 1].0)
    } else {
        late(pending, i - 1, now)
    }
}

/// The state, and the commands behind those given before, after requests failed one by one.
pub open spec fn retried(
    v: ImportsV,
    ids: Seq<MessageId>,
    i: int,
    cmds: Seq<ImportCommandV>,
) -> (ImportsV, Result<Seq<ImportCommandV>, ErrorV>)
    decreases ids.len() - i,
{
    if i < 0 || i >= ids.len() {
        (v, Ok(cmds))
    } else {
        let step = failed(v, ids[i]);
        match step.1 {
            Err(e) => (step.0, Err(e)),
            Ok(Some(c)) => retried(step.0, ids, i + 1, cmds.push(c)),
            Ok(None) => retried(step.0, ids, i + 1, cmds),
        }
    }
}

/// The state and the commands after a look at the clock.
pub open spec fn polled(v: ImportsV, now: u64) -> (ImportsV, Result<Seq<ImportCommandV>, ErrorV>) {
    match exhausted(v.pending, 0, now) {
        Some(name) => (v, Err(gave_up(name))),
        None => retried(v, late(v.pending, v.pending.len() as int, now), 0, Seq::empty()),
    }
}

/// The first module from position `i` on that declares a service.
pub open spec fn owner_from(mods: Seq<ModuleV>, i: int, s: Symbol) -> Option<int>
    decreases mods.len() - i,
{
    if i < 0 || i >= mods.len() {
        None
    } else if mods[i].declares.contains(s) {
        Some(i)
    } else {
        owner_from(mods, i + 1, s)
    }
}

/// The module that declares a service: the first one wins.
pub open spec fn owner(mods: Seq<ModuleV>, s: Symbol) -> Option<int> {
    owner_from(mods, 0, s)
}

/// The modules placed once module `i` and what it imports are placed, behind those placed before.
/// `path` holds the modules under way.
pub open spec fn place(mods: Seq<ModuleV>, i: int, placed: Seq<int>, path: Seq<int>) -> Seq<int>
    decreases mods.len() - path.len(), 1int, 0int,
{
    if i < 0 || i >= mods.len() || placed.contains(i) || path.contains(i) || path.len()
        >= mods.len() {
        placed
    } else {
        place_imports(mods, mods[i].imports, 0, placed, path.push(i)).push(i)
    }
}

/// The modules placed once those that declare the services from position `k` on are placed.
pub open spec fn place_imports(
    mods: Seq<ModuleV>,
    imports: Seq<Symbol>,
    k: int,
    placed: Seq<int>,
    path: Seq<int>,
) -> Seq<int>
    decreases mods.len() - path.len(), 2int, imports.len() - k,
{
    if k < 0 || k >= imports.len() {
        placed
    } else {
        let more = match owner(mods, imports[k]) {
            Some(j) => place(mods, j, placed, path),
            None => placed,
        };
        place_imports(mods, imports, k + 1, more, path)
    }
}

/// The modules placed once the first `i` modules and what they import are placed.
pub open spec fn placed_upto(mods: Seq<ModuleV>, i: int) -> Seq<int>
    decreases i,
{
    if i <= 0 {
        Seq::empty()
    } else {
        place(mods, i - 1, placed_upto(mods, i - 1), Seq::empty())
    }
}

/// The order of modules in which each comes behind those it imports.
pub open spec fn module_order(mods: Seq<ModuleV>) -> Seq<int> {
    placed_upto(mods, mods.len() as int)
}

/// The statements of modules in an order.
pub open spec fn stmts_in_order(mods: Seq<ModuleV>, order: Seq<int>) -> Seq<StmtV>
    decreases order.len(),
{
    if order.len() == 0 {
        Seq::empty()
    } else {
        stmts_in_order(mods, order.drop_last()) + mods[order.last()].stmts
    }
}

/// The statements of all imported modules, each module behind those it imports.
pub open spec fn finalized(v: ImportsV) -> Seq<StmtV> {
    stmts_in_order(v.modules, module_order(v.modules))
}

/// The services that statements declare, in order.
pub fn declared_services(stmts: &[Stmt]) -> (res: Vec<Symbol>)
    ensures
        res@ == declared_in(types::views(stmts@)),
{
    let ghost ss = types::views(stmts@);
    let mut res: Vec<Symbol> = Vec::new();
    assert(res@ =~= declared_in(ss.take(0)));
    let mut i: usize = 0;
    while i < stmts.len()
        invariant
            i <= stmts@.len(),
            ss == types::views(stmts@),
            res@ == declared_in(ss.take(i as int)),
        decreases stmts@.len() - i,
    {
        assert(ss.take(i + 1).drop_last() =~= ss.take(i as int));
        assert(ss.take(i + 1).last() == stmts@[i as int]@);
        proof {
            ast::lemma_stmt_view(stmts@[i as int]);
        }
        if let Stmt::Service { name, .. } = &stmts[i] {
            res.push(*name);
        }
        i += 1;
    }
    assert(ss.take(i as int) =~= ss);
    res
}

/// The services that statements import, in order.
pub fn imported_services(stmts: &[Stmt]) -> (res: Vec<Symbol>)
    ensures
        res@ == imported_in(types::views(stmts@)),
{
    let ghost ss = types::views(stmts@);
    let mut res: Vec<Symbol> = Vec::new();
    assert(res@ =~= imported_in(ss.take(0)));
    let mut i: usize = 0;
    while i < stmts.len()
        invariant
            i <= stmts@.len(),
            ss == types::views(stmts@),
            res@ == imported_in(ss.take(i as int)),
        decreases stmts@.len() - i,
    {
        assert(ss.take(i + 1).drop_last() =~= ss.take(i as int));
        assert(ss.take(i + 1).last() == stmts@[i as int]@);
        proof {
            ast::lemma_stmt_view(stmts@[i as int]);
        }
        if let Stmt::Import { service_name, .. } = &stmts[i] {
            res.push(*service_name);
        }
        i += 1;
    }
    assert(ss.take(i as int) =~= ss);
    res
}

/// The table knows the imported services.
pub proof fn lemma_imports_known(stmts: Seq<StmtV>, names: Seq<Seq<char>>)
    requires
        parser::grammar::imports_known(stmts, names),
    ensures
        forall|i: int|
            0 <= i < imported_in(stmts).len() ==> #[trigger] imported_in(stmts)[i] < names.len(),
    decreases stmts.len(),
{
    if stmts.len() > 0 {
        let shorter = stmts.drop_last();
        assert forall|i: int| 0 <= i < shorter.len() implies ((#[trigger] shorter[i]) matches StmtV::Import {
            service_name,
            ..
        } ==> service_name < names.len()) by {
            assert(shorter[i] == stmts[i]);
        }
        lemma_imports_known(shorter, names);
        assert(stmts.last() == stmts[stmts.len() - 1]);
        assert forall|i: int| 0 <= i < imported_in(stmts).len() implies #[trigger] imported_in(
            stmts,
        )[i] < names.len() by {
            if i < imported_in(shorter).len() {
                assert(imported_in(shorter)[i] < names.len());
            }
        }
    }
}

fn same_text(a: &String, b: &str) -> (res: bool)
    ensures
        res == (a@ == b@),
{
    let c = b.to_owned();
    *a == c
}

fn has_name(names: &Vec<String>, name: &str) -> (res: bool)
    ensures
        res == types::views(names@).contains(name@),
{
    let ghost ns = types::views(names@);
    let mut i: usize = 0;
    while i < names.len()
        invariant
            i <= names@.len(),
            ns == types::views(names@),
            forall|k: int| 0 <= k < i ==> ns[k] != name@,
        decreases names@.len() - i,
    {
        assert(ns[i as int] == names@[i as int]@);
        if same_text(&names[i], name) {
            assert(ns[i as int] == name@);
            return true;
        }
        i += 1;
    }
    false
}

fn without_name(names: &Vec<String>, name: &str) -> (res: Vec<String>)
    ensures
        types::views(res@) == types::views(names@).filter(other_name(name@)),
{
    let ghost ns = types::views(names@);
    let ghost keep = other_name(name@);
    let mut res: Vec<String> = Vec::new();
    assert(types::views(res@) =~= ns.take(0).filter(keep)) by {
        reveal(Seq::filter);
    }
    let mut i: usize = 0;
    while i < names.len()
        invariant
            i <= names@.len(),
            ns == types::views(names@),
            keep == other_name(name@),
            types::views(res@) == ns.take(i as int).filter(keep),
        decreases names@.len() - i,
    {
        assert(ns[i as int] == names@[i as int]@);
        proof {
            lemma_filter_next(ns, keep, i as int);
        }
        if !same_text(&names[i], name) {
            res.push(names[i].clone());
        }
        i += 1;
    }
    assert(ns.take(i as int) =~= ns);
    res
}

/// A filtered sequence with one more item.
proof fn lemma_filter_next<A>(s: Seq<A>, keep: spec_fn(A) -> bool, i: int)
    requires
        0 <= i < s.len(),
    ensures
        s.take(i + 1).filter(keep) == if keep(s[i]) {
            s.take(i).filter(keep).push(s[i])
        } else {
            s.take(i).filter(keep)
        },
{
    reveal(Seq::filter);
    assert(s.take(i + 1).drop_last() =~= s.take(i));
    assert(s.take(i + 1).last() == s[i]);
}

fn find_url(urls: &Vec<(String, String)>, name: &str) -> (res: Option<String>)
    ensures
        types::opt_view(res) == url_of(urls_view(urls@), name@),
{
    let ghost us = urls_view(urls@);
    let mut i: usize = 0;
    assert(us.skip(0) =~= us);
    while i < urls.len()
        invariant
            i <= urls@.len(),
            us == urls_view(urls@),
            url_of(us, name@) == url_of(us.skip(i as int), name@),
        decreases urls@.len() - i,
    {
        assert(us.skip(i as int)[0] == us[i as int]);
        assert(us.skip(i as int).skip(1) =~= us.skip(i + 1));
        if same_text(&urls[i].0, name) {
            return Some(urls[i].1.clone());
        }
        i += 1;
    }
    None
}

fn import_file(name: &str) -> (res: String)
    ensures
        res@ == parser::grammar::import_path(name@),
{
    joined_text(name, ".mkt")
}

fn gave_up_error(name: &str) -> (res: Error)
    ensures
        res@ == gave_up(name@),
{
    let mut msg = "Import fetch failed for service '".to_owned();
    msg.append(name);
    msg.append("' after ");
    msg.append(nat_to_string(MAX_IMPORT_RETRIES as u64).as_str());
    msg.append(" retries");
    Error::Message(msg)
}

impl Imports {
    /// Start with the imports of a program. Gives the first commands; where a local file has to
    /// be read first, `next_read` names it.
    pub fn new(
        interner: &Interner,
        remote_url_map: Vec<(String, String)>,
        base_ast: &[Stmt],
        my_addr: &str,
    ) -> (res: (Imports, Vec<ImportCommand>))
        requires
            parser::grammar::imports_known(types::views(base_ast@), interner@),
        ensures
            (res.0@, commands_view(res.1@)) == advanced(
                started(
                    urls_view(remote_url_map@),
                    types::views(base_ast@),
                    my_addr@,
                    interner@,
                ),
                Seq::empty(),
            ),
            import_requests::tidy(res.0@),
            import_requests::named(res.0@, interner@),
            import_requests::settled(res.0@),
    {
        interner.check_distinct();
        let declared = declared_services(base_ast);
        let mut imports = Imports {
            visited_services: crate::runtime::collections::set_of(&declared),
            pending_network: Vec::new(),
            pending_services: Vec::new(),
            remote_url_map,
            modules: Vec::new(),
            request_counter: 0,
            my_addr: my_addr.to_owned(),
            todo: Vec::new(),
            reading: None,
        };
        assert(imports@.pending =~= Seq::<(MessageId, RequestV)>::empty());
        assert(imports@.services =~= Seq::<Seq<char>>::empty());
        assert(imports@.modules =~= Seq::<ModuleV>::empty());
        assert(imports@.todo =~= Seq::<(Symbol, Seq<char>)>::empty());
        proof {
            lemma_imports_known(types::views(base_ast@), interner@);
            import_requests::first_requests(
                urls_view(remote_url_map@),
                types::views(base_ast@),
                my_addr@,
                interner@,
            );
        }
        let imported = imported_services(base_ast);
        imports.queue(&imported, interner);
        let cmds = imports.advance();
        (imports, cmds)
    }

    /// Put imports before those not looked at yet.
    fn queue(&mut self, syms: &Vec<Symbol>, interner: &Interner)
        requires
            forall|i: int| 0 <= i < syms@.len() ==> #[trigger] syms@[i] < interner@.len(),
        ensures
            final(self)@ == (ImportsV {
                todo: queued(old(self)@.todo, syms@, interner@),
                ..old(self)@
            }),
    {
        let ghost before = self@;
        let mut i: usize = syms.len();
        assert(queued(before.todo, syms@, interner@).take(before.todo.len() as int)
            =~= before.todo);
        while i > 0
            invariant
                i <= syms@.len(),
                before == old(self)@,
                forall|k: int| 0 <= k < syms@.len() ==> #[trigger] syms@[k] < interner@.len(),
                self@ == (ImportsV {
                    todo: queued(before.todo, syms@, interner@).take(
                        before.todo.len() + (syms@.len() - i),
                    ),
                    ..before
                }),
            decreases i,
        {
            let sym = syms[i - 1];
            let ghost todo_before = self.todo@;
            self.todo.push((sym, interner.get(sym).to_owned()));
            i -= 1;
            assert(todo_view(self.todo@) =~= todo_view(todo_before).push(
                (sym, interner@[sym as int]),
            ));
            assert(self@.todo =~= queued(before.todo, syms@, interner@).take(
                before.todo.len() + (syms@.len() - i),
            ));
        }
        assert(self@.todo =~= queued(before.todo, syms@, interner@));
    }

    /// Look at the imports one after the other, until a local file has to be read or none is left.
    #[verifier::rlimit(30)]
    fn advance(&mut self) -> (cmds: Vec<ImportCommand>)
        ensures
            (final(self)@, commands_view(cmds@)) == advanced(old(self)@, Seq::empty()),
    {
        let ghost start = self@;
        let mut cmds: Vec<ImportCommand> = Vec::new();
        assert(commands_view(cmds@) =~= Seq::<ImportCommandV>::empty());
        while self.todo.len() > 0 && self.reading.is_none()
            invariant
                start == old(self)@,
                advanced(start, Seq::empty()) == advanced(self@, commands_view(cmds@)),
            decreases self.todo@.len(),
        {
            let ghost before = self@;
            match self.todo.pop() {
                None => {},
                Some((sym, name)) => {
                    assert(before.todo.last() == (sym, name@));
                    assert(todo_view(self.todo@) =~= before.todo.drop_last());
                    if !self.visited_services.contains(&sym) {
                        self.visited_services.insert(sym);
                        let url = if self.my_addr.as_str().unicode_len() == 0 {
                            None
                        } else {
                            find_url(&self.remote_url_map, name.as_str())
                        };
                        match url {
                            None => {
                                self.reading = Some(name);
                                assert(self@ == ImportsV {
                                    visited: before.visited.insert(sym),
                                    todo: before.todo.drop_last(),
                                    reading: Some(name@),
                                    ..before
                                });
                                return cmds;
                            },
                            Some(target_url) => {
                                let cmd = self.request(name.as_str(), target_url.as_str(), 0);
                                let ghost cmds_before = cmds@;
                                if !has_name(&self.pending_services, name.as_str()) {
                                    self.pending_services.push(name);
                                }
                                cmds.push(cmd);
                                assert(commands_view(cmds@) =~= commands_view(cmds_before).push(
                                    command_view(cmd),
                                ));
                                assert(self@ == ImportsV {
                                    visited: before.visited.insert(sym),
                                    todo: before.todo.drop_last(),
                                    services: with_name(before.services, name@),
                                    counter: next_id(before.counter),
                                    ..before
                                });
                            },
                        }
                    }
                },
            }
        }
        cmds
    }

    /// The next command that asks for the source of a service.
    fn request(&mut self, name: &str, url: &str, retry: u8) -> (res: ImportCommand)
        ensures
            command_view(res) == fetch(old(self)@, name@, url@, retry),
            final(self)@ == (ImportsV { counter: next_id(old(self)@.counter), ..old(self)@ }),
            final(self).todo == old(self).todo,
            final(self).visited_services == old(self).visited_services,
            final(self).pending_services == old(self).pending_services,
    {
        if self.request_counter == u64::MAX {
            self.request_counter = 0;
        } else {
            self.request_counter = self.request_counter + 1;
        }
        let msg = MeerkatMessage::ServiceCodeRequest {
            request_id: self.request_counter,
            path: import_file(name),
            reply_to: self.my_addr.clone(),
        };
        (
            NetworkCommand::SendMessage { addr: Address::new(url), msg },
            name.to_owned(),
            url.to_owned(),
            retry,
        )
    }

    /// The service whose local file is to be read next.
    pub fn next_read(&self) -> (res: Option<String>)
        ensures
            types::opt_view(res) == self@.reading,
    {
        match &self.reading {
            Some(name) => Some(name.clone()),
            None => None,
        }
    }

    /// Remember a request that was sent, so that it can be retried. An earlier request for the
    /// same service is forgotten.
    pub fn register_sent_command(
        &mut self,
        msg_id: MessageId,
        service_name: String,
        target_url: String,
        retry_count: u8,
        now: u64,
    )
        ensures
            final(self)@ == registered(
                old(self)@,
                msg_id,
                service_name@,
                target_url@,
                retry_count,
                now,
            ),
            import_requests::tidy(old(self)@) ==> import_requests::tidy(final(self)@),
            import_requests::settled(old(self)@) ==> import_requests::settled(final(self)@),
    {
        proof {
            if import_requests::tidy(self@) {
                import_requests::sent_requests_replace_earlier_ones(
                    self@,
                    msg_id,
                    service_name@,
                    target_url@,
                    retry_count,
                    now,
                );
            }
        }
        let ghost wanted = service_name@;
        let ghost keep = unrelated(wanted, msg_id);
        let ghost ps = pending_view(self.pending_network@);
        let mut kept: Vec<(MessageId, PendingRequest)> = Vec::new();
        assert(pending_view(kept@) =~= ps.take(0).filter(keep)) by {
            reveal(Seq::filter);
        }
        let mut i: usize = 0;
        while i < self.pending_network.len()
            invariant
                i <= self.pending_network@.len(),
                ps == pending_view(self.pending_network@),
                wanted == service_name@,
                keep == unrelated(wanted, msg_id),
                pending_view(kept@) == ps.take(i as int).filter(keep),
            decreases self.pending_network@.len() - i,
        {
            let entry = &self.pending_network[i];
            assert(ps[i as int] == (entry.0, entry.1@));
            proof {
                lemma_filter_next(ps, keep, i as int);
            }
            if !same_text(&entry.1.service_name, service_name.as_str()) && entry.0 != msg_id {
                let ghost kept_before = kept@;
                let copy = copy_request(&entry.1);
                kept.push((entry.0, copy));
                assert(pending_view(kept@) =~= pending_view(kept_before).push(
                    (entry.0, entry.1@),
                ));
            }
            i += 1;
        }
        assert(ps.take(i as int) =~= ps);
        let ghost kept_before = kept@;
        let req = PendingRequest { service_name, target_url, start_time: now, retry_count };
        kept.push((msg_id, req));
        assert(pending_view(kept@) =~= pending_view(kept_before).push((msg_id, req@)));
        self.pending_network = kept;
        assert(self@.pending =~= registered(
            old(self)@,
            msg_id,
            wanted,
            req@.target_url,
            retry_count,
            now,
        ).pending);
    }

    /// Forget all requests for a service.
    fn forget_requests(&mut self, service_name: &str)
        ensures
            final(self)@ == (ImportsV {
                pending: old(self)@.pending.filter(other_service(service_name@)),
                ..old(self)@
            }),
    {
        let ghost keep = other_service(service_name@);
        let ghost ps = pending_view(self.pending_network@);
        let mut kept: Vec<(MessageId, PendingRequest)> = Vec::new();
        assert(pending_view(kept@) =~= ps.take(0).filter(keep)) by {
            reveal(Seq::filter);
        }
        let mut i: usize = 0;
        while i < self.pending_network.len()
            invariant
                i <= self.pending_network@.len(),
                ps == pending_view(self.pending_network@),
                keep == other_service(service_name@),
                pending_view(kept@) == ps.take(i as int).filter(keep),
            decreases self.pending_network@.len() - i,
        {
            let entry = &self.pending_network[i];
            assert(ps[i as int] == (entry.0, entry.1@));
            proof {
                lemma_filter_next(ps, keep, i as int);
            }
            if !same_text(&entry.1.service_name, service_name) {
                let ghost kept_before = kept@;
                let copy = copy_request(&entry.1);
                kept.push((entry.0, copy));
                assert(pending_view(kept@) =~= pending_view(kept_before).push(
                    (entry.0, entry.1@),
                ));
            }
            i += 1;
        }
        assert(ps.take(i as int) =~= ps);
        self.pending_network = kept;
    }

    /// Take in the source of a service. Gives the commands that its own imports need; where a
    /// local file has to be read first, `next_read` names it.
    pub fn on_recv_source(
        &mut self,
        source: &str,
        service_name: &str,
        interner: &mut Interner,
    ) -> (res: Result<Vec<ImportCommand>, Error>)
        ensures
            old(self)@.visited.len() >= MAX_IMPORTED_SERVICES ==> {
                &&& res matches Err(e) && e@ == too_many_services()
                &&& final(self)@ == old(self)@
                &&& final(interner)@ == old(interner)@
            },
            old(self)@.visited.len() < MAX_IMPORTED_SERVICES ==> {
                &&& final(interner)@ == parser::lex::lexed(source@, old(interner)@).names
                &&& match parser::parsed(source@, old(interner)@) {
                    Err(msg) => {
                        &&& res matches Err(e) && e@ == ErrorV::Message(msg)
                        &&& final(self)@ == abandoned(answered(old(self)@, service_name@))
                    },
                    Ok(stmts) => {
                        &&& res matches Ok(cmds) && (final(self)@, commands_view(cmds@))
                            == advanced(
                            recorded(answered(old(self)@, service_name@), stmts, final(interner)@),
                            Seq::empty(),
                        )
                    },
                }
            },
            import_requests::tidy(old(self)@) && import_requests::named(
                old(self)@,
                old(interner)@,
            ) ==> import_requests::tidy(final(self)@) && (res is Ok ==> import_requests::named(
                final(self)@,
                final(interner)@,
            )),
            res is Ok ==> import_requests::settled(final(self)@),
            import_requests::settled(old(self)@) ==> import_requests::settled(final(self)@),
    {
        if self.visited_services.len() >= MAX_IMPORTED_SERVICES {
            let mut msg = "imported service count exceeds maximum limit of ".to_owned();
            msg.append(nat_to_string(MAX_IMPORTED_SERVICES as u64).as_str());
            return Err(Error::LimitExceeded(msg));
        }
        let ghost before = self@;
        self.forget_requests(service_name);
        self.pending_services = without_name(&self.pending_services, service_name);
        let read_now = match &self.reading {
            Some(name) => same_text(name, service_name),
            None => false,
        };
        if read_now {
            self.reading = None;
        }
        assert(self@ == answered(before, service_name@));
        proof {
            if import_requests::tidy(before) {
                import_requests::answers_keep_order(before, service_name@);
            }
        }
        match parse_string(source, interner) {
            Err(msg) => {
                if self.reading.is_none() {
                    self.todo = Vec::new();
                    assert(self@.todo =~= Seq::<(Symbol, Seq<char>)>::empty());
                }
                Err(Error::Message(msg))
            },
            Ok(stmts) => {
                let ghost ss = types::views(stmts@);
                let declares = declared_services(stmts.as_slice());
                let imports = imported_services(stmts.as_slice());
                let mut i: usize = 0;
                let ghost at = self@;
                assert(at.visited.union(declares@.take(0).to_set()) =~= at.visited);
                while i < declares.len()
                    invariant
                        i <= declares@.len(),
                        self@ == (ImportsV {
                            visited: at.visited.union(declares@.take(i as int).to_set()),
                            ..at
                        }),
                    decreases declares@.len() - i,
                {
                    proof {
                        crate::runtime::collections::lemma_take_contains(declares@, i as int);
                    }
                    self.visited_services.insert(declares[i]);
                    i += 1;
                    assert(self@.visited =~= at.visited.union(
                        declares@.take(i as int).to_set(),
                    ));
                }
                assert(declares@.take(i as int) =~= declares@);
                proof {
                    lemma_imports_known(ss, interner@);
                }
                interner.check_distinct();
                proof {
                    if import_requests::tidy(before) && import_requests::named(
                        before,
                        old(interner)@,
                    ) {
                        parser::lex::lexing_keeps_symbols(source@, 0, old(interner)@, Seq::empty());
                        import_requests::names_stay_known(before, old(interner)@, interner@);
                        import_requests::sources_lead_to_fresh_requests(
                            before,
                            service_name@,
                            ss,
                            interner@,
                        );
                    }
                }
                self.queue(&imports, interner);
                self.modules.push(ImportedModule { declares, imports, stmts });
                assert(self@ == recorded(at, ss, interner@));
                proof {
                    import_requests::looking_settles(self@, Seq::empty());
                }
                Ok(self.advance())
            },
        }
    }

    /// Take note that a request could not be sent. Gives the command that retries it, unless the
    /// service came meanwhile or the retries are used up.
    pub fn on_send_failure(&mut self, failed_msg_id: MessageId) -> (res: Result<
        Option<ImportCommand>,
        Error,
    >)
        ensures
            final(self)@ == failed(old(self)@, failed_msg_id).0,
            match res {
                Ok(None) => failed(old(self)@, failed_msg_id).1 == Ok::<
                    Option<ImportCommandV>,
                    ErrorV,
                >(None),
                Ok(Some(c)) => failed(old(self)@, failed_msg_id).1 == Ok::<
                    Option<ImportCommandV>,
                    ErrorV,
                >(Some(command_view(c))),
                Err(e) => failed(old(self)@, failed_msg_id).1 == Err::<
                    Option<ImportCommandV>,
                    ErrorV,
                >(e@),
            },
            import_requests::tidy(old(self)@) ==> import_requests::tidy(final(self)@),
            import_requests::settled(old(self)@) ==> import_requests::settled(final(self)@),
    {
        let ghost before = self@;
        proof {
            if import_requests::tidy(before) {
                import_requests::failures_are_retried_once(before, failed_msg_id);
            }
        }
        match self.find_request(failed_msg_id) {
            None => Ok(None),
            Some(i) => {
                let ghost entry = self.pending_network@[i as int];
                let (_, req) = self.pending_network.remove(i);
                assert(req == entry.1);
                assert(pending_view(self.pending_network@) =~= before.pending.remove(i as int));
                if !has_name(&self.pending_services, req.service_name.as_str()) {
                    return Ok(None);
                }
                if req.retry_count >= MAX_IMPORT_RETRIES {
                    return Err(gave_up_error(req.service_name.as_str()));
                }
                let cmd = self.request(
                    req.service_name.as_str(),
                    req.target_url.as_str(),
                    req.retry_count + 1,
                );
                Ok(Some(cmd))
            },
        }
    }

    fn find_request(&self, id: MessageId) -> (res: Option<usize>)
        ensures
            match res {
                Some(i) => request_index(self@.pending, id) == Some(i as int)
                    && i < self.pending_network@.len() && self.pending_network@[i as int].0 == id,
                None => request_index(self@.pending, id) is None,
            },
    {
        let ghost ps = self@.pending;
        let mut i: usize = self.pending_network.len();
        assert(ps.take(i as int) =~= ps);
        while i > 0
            invariant
                i <= self.pending_network@.len(),
                ps == pending_view(self.pending_network@),
                request_index(ps, id) == request_index(ps.take(i as int), id),
            decreases i,
        {
            assert(ps.take(i as int).last() == ps[i - 1]);
            assert(ps.take(i as int).drop_last() =~= ps.take(i - 1));
            if self.pending_network[i - 1].0 == id {
                return Some(i - 1);
            }
            i -= 1;
        }
        None
    }

    /// Retry the requests that have waited too long. Where one of them has no retry left nothing
    /// changes, and its service is reported.
    pub fn poll_timeouts(&mut self, now: u64) -> (res: Result<Vec<ImportCommand>, Error>)
        ensures
            final(self)@ == polled(old(self)@, now).0,
            match res {
                Ok(cmds) => polled(old(self)@, now).1 == Ok::<Seq<ImportCommandV>, ErrorV>(
                    commands_view(cmds@),
                ),
                Err(e) => polled(old(self)@, now).1 == Err::<Seq<ImportCommandV>, ErrorV>(e@),
            },
            import_requests::tidy(old(self)@) ==> import_requests::tidy(final(self)@),
            import_requests::settled(old(self)@) ==> import_requests::settled(final(self)@),
    {
        let ghost start = self@;
        let ghost ps = self@.pending;
        let mut to_retry: Vec<MessageId> = Vec::new();
        assert(to_retry@ =~= late(ps, 0, now));
        let mut i: usize = 0;
        while i < self.pending_network.len()
            invariant
                i <= self.pending_network@.len(),
                start == self@,
                ps == pending_view(self.pending_network@),
                ps == start.pending,
                exhausted(ps, 0, now) == exhausted(ps, i as int, now),
                to_retry@ == late(ps, i as int, now),
            decreases self.pending_network@.len() - i,
        {
            let entry = &self.pending_network[i];
            assert(ps[i as int] == (entry.0, entry.1@));
            let waited: u64 = if now >= entry.1.start_time {
                now - entry.1.start_time
            } else {
                0
            };
            if waited >= INDIVIDUAL_IMPORT_TIMEOUT_SECS * 1000 {
                if entry.1.retry_count >= MAX_IMPORT_RETRIES {
                    return Err(gave_up_error(entry.1.service_name.as_str()));
                }
                to_retry.push(entry.0);
            }
            i += 1;
        }
        let mut cmds: Vec<ImportCommand> = Vec::new();
        assert(commands_view(cmds@) =~= Seq::<ImportCommandV>::empty());
        let mut k: usize = 0;
        while k < to_retry.len()
            invariant
                k <= to_retry@.len(),
                start == old(self)@,
                polled(start, now) == retried(self@, to_retry@, k as int, commands_view(cmds@)),
                import_requests::tidy(start) ==> import_requests::tidy(self@),
                import_requests::settled(start) ==> import_requests::settled(self@),
            decreases to_retry@.len() - k,
        {
            match self.on_send_failure(to_retry[k]) {
                Err(e) => {
                    return Err(e);
                },
                Ok(Some(cmd)) => {
                    let ghost cmds_before = cmds@;
                    cmds.push(cmd);
                    assert(commands_view(cmds@) =~= commands_view(cmds_before).push(
                        command_view(cmd),
                    ));
                },
                Ok(None) => {},
            }
            k += 1;
        }
        Ok(cmds)
    }

    /// Whether every import is resolved: no source is awaited, and no local file is to be read. No
    /// import is left to look at then.
    pub fn is_done(&self) -> (res: bool)
        ensures
            res == import_requests::done(self@),
            res && import_requests::settled(self@) ==> self@.todo.len() == 0,
    {
        self.pending_services.len() == 0 && self.reading.is_none()
    }

    /// The services whose source was asked for from other nodes and did not come yet. Each stands
    /// there once.
    pub fn get_pending_services(&self) -> (res: Vec<String>)
        ensures
            types::views(res@) == self@.services,
            import_requests::tidy(self@) ==> types::views(res@).no_duplicates(),
    {
        let mut res: Vec<String> = Vec::new();
        let mut i: usize = 0;
        while i < self.pending_services.len()
            invariant
                i <= self.pending_services@.len(),
                res@.len() == i,
                forall|k: int| 0 <= k < i ==> (#[trigger] res@[k])@ == self.pending_services@[k]@,
            decreases self.pending_services@.len() - i,
        {
            res.push(self.pending_services[i].clone());
            i += 1;
        }
        assert(types::views(res@) =~= self@.services);
        res
    }

    /// The statements of all imported modules, each module behind those it imports.
    pub fn finalize(self) -> (res: Vec<Stmt>)
        ensures
            types::views(res@) == finalized(self@),
    {
        let ghost mods = self@.modules;
        let mut order: Vec<usize> = Vec::new();
        assert(indices(order@) =~= placed_upto(mods, 0));
        let mut i: usize = 0;
        while i < self.modules.len()
            invariant
                i <= self.modules@.len(),
                mods == types::views(self.modules@),
                indices(order@) == placed_upto(mods, i as int),
            decreases self.modules@.len() - i,
        {
            let mut path: Vec<usize> = Vec::new();
            assert(indices(path@) =~= Seq::<int>::empty());
            place_module(&self.modules, i, &mut order, &mut path);
            i += 1;
        }
        let mut res: Vec<Stmt> = Vec::new();
        assert(types::views(res@) =~= Seq::<StmtV>::empty());
        assert(indices(order@).take(0) =~= Seq::<int>::empty());
        proof {
            lemma_order_in_range(mods, mods.len() as int);
        }
        let mut k: usize = 0;
        while k < order.len()
            invariant
                k <= order@.len(),
                mods == types::views(self.modules@),
                forall|j: int|
                    0 <= j < indices(order@).len() ==> 0 <= #[trigger] indices(order@)[j]
                        < mods.len(),
                types::views(res@) == stmts_in_order(mods, indices(order@).take(k as int)),
            decreases order@.len() - k,
        {
            let ghost is = indices(order@);
            assert(is.take(k + 1).drop_last() =~= is.take(k as int));
            assert(is.take(k + 1).last() == is[k as int]);
            assert(mods[is[k as int]] == self.modules@[is[k as int]]@);
            let mut copy = clone_stmts(&self.modules[order[k]].stmts);
            let ghost a = res@;
            let ghost b = copy@;
            res.append(&mut copy);
            assert(types::views(a + b) =~= types::views(a) + types::views(b));
            k += 1;
        }
        assert(indices(order@).take(k as int) =~= indices(order@));
        res
    }
}

fn copy_request(r: &PendingRequest) -> (res: PendingRequest)
    ensures
        res@ == r@,
{
    PendingRequest {
        service_name: r.service_name.clone(),
        target_url: r.target_url.clone(),
        start_time: r.start_time,
        retry_count: r.retry_count,
    }
}

/// Indices as integers.
pub open spec fn indices(v: Seq<usize>) -> Seq<int> {
    v.map_values(|i: usize| i as int)
}

fn has_index(xs: &Vec<usize>, x: usize) -> (res: bool)
    ensures
        res == indices(xs@).contains(x as int),
{
    let mut i: usize = 0;
    while i < xs.len()
        invariant
            i <= xs@.len(),
            forall|k: int| 0 <= k < i ==> indices(xs@)[k] != x as int,
        decreases xs@.len() - i,
    {
        if xs[i] == x {
            assert(indices(xs@)[i as int] == x as int);
            return true;
        }
        i += 1;
    }
    false
}

fn find_owner(mods: &Vec<ImportedModule>, s: Symbol) -> (res: Option<usize>)
    ensures
        match res {
            Some(i) => owner(types::views(mods@), s) == Some(i as int) && i < mods@.len(),
            None => owner(types::views(mods@), s) is None,
        },
{
    let ghost ms = types::views(mods@);
    let mut i: usize = 0;
    while i < mods.len()
        invariant
            i <= mods@.len(),
            ms == types::views(mods@),
            owner(ms, s) == owner_from(ms, i as int, s),
        decreases mods@.len() - i,
    {
        assert(ms[i as int] == mods@[i as int]@);
        if crate::runtime::nameres::has_symbol(&mods[i].declares, s) {
            return Some(i);
        }
        i += 1;
    }
    None
}

/// Place a module behind those it imports.
fn place_module(
    mods: &Vec<ImportedModule>,
    i: usize,
    placed: &mut Vec<usize>,
    path: &mut Vec<usize>,
)
    ensures
        indices(final(placed)@) == place(
            types::views(mods@),
            i as int,
            indices(old(placed)@),
            indices(old(path)@),
        ),
        final(path)@ == old(path)@,
    decreases mods@.len() - old(path)@.len(),
{
    let ghost ms = types::views(mods@);
    let ghost path_before = path@;
    let ghost placed_before = indices(placed@);
    if i >= mods.len() || has_index(placed, i) || has_index(path, i) || path.len() >= mods.len() {
        return ;
    }
    path.push(i);
    assert(indices(path@) =~= indices(path_before).push(i as int));
    assert(ms[i as int] == mods@[i as int]@);
    let imports = &mods[i].imports;
    let mut k: usize = 0;
    while k < imports.len()
        invariant
            k <= imports@.len(),
            ms == types::views(mods@),
            imports@ == ms[i as int].imports,
            path_before == old(path)@,
            path_before.len() < mods@.len(),
            i < mods@.len(),
            path@ == path_before.push(i),
            indices(path@) == indices(path_before).push(i as int),
            place_imports(ms, imports@, 0, placed_before, indices(path_before).push(i as int))
                == place_imports(
                ms,
                imports@,
                k as int,
                indices(placed@),
                indices(path_before).push(i as int),
            ),
        decreases imports@.len() - k,
    {
        if let Some(j) = find_owner(mods, imports[k]) {
            place_module(mods, j, placed, path);
        }
        k += 1;
    }
    path.pop();
    assert(path@ =~= path_before);
    let ghost inner = placed@;
    placed.push(i);
    assert(indices(placed@) =~= indices(inner).push(i as int));
}

/// Every placed module is one of the modules.
proof fn lemma_place_in_range(mods: Seq<ModuleV>, i: int, placed: Seq<int>, path: Seq<int>)
    requires
        forall|k: int| 0 <= k < placed.len() ==> 0 <= #[trigger] placed[k] < mods.len(),
    ensures
        forall|k: int|
            0 <= k < place(mods, i, placed, path).len() ==> 0 <= #[trigger] place(
                mods,
                i,
                placed,
                path,
            )[k] < mods.len(),
    decreases mods.len() - path.len(), 1int, 0int,
{
    if !(i < 0 || i >= mods.len() || placed.contains(i) || path.contains(i) || path.len()
        >= mods.len()) {
        lemma_place_imports_in_range(mods, mods[i].imports, 0, placed, path.push(i));
        let inner = place_imports(mods, mods[i].imports, 0, placed, path.push(i));
        assert(place(mods, i, placed, path) == inner.push(i));
        assert forall|k: int| 0 <= k < inner.push(i).len() implies 0 <= #[trigger] inner.push(i)[k]
            < mods.len() by {
            if k < inner.len() {
                assert(0 <= inner[k] < mods.len());
            }
        }
    }
}

proof fn lemma_place_imports_in_range(
    mods: Seq<ModuleV>,
    imports: Seq<Symbol>,
    k: int,
    placed: Seq<int>,
    path: Seq<int>,
)
    requires
        forall|j: int| 0 <= j < placed.len() ==> 0 <= #[trigger] placed[j] < mods.len(),
    ensures
        forall|j: int|
            0 <= j < place_imports(mods, imports, k, placed, path).len() ==> 0
                <= #[trigger] place_imports(mods, imports, k, placed, path)[j] < mods.len(),
    decreases mods.len() - path.len(), 2int, imports.len() - k,
{
    if !(k < 0 || k >= imports.len()) {
        let more = match owner(mods, imports[k]) {
            Some(j) => place(mods, j, placed, path),
            None => placed,
        };
        if let Some(j) = owner(mods, imports[k]) {
            lemma_place_in_range(mods, j, placed, path);
        }
        lemma_place_imports_in_range(mods, imports, k + 1, more, path);
        assert(place_imports(mods, imports, k, placed, path) == place_imports(
            mods,
            imports,
            k + 1,
            more,
            path,
        ));
    }
}

proof fn lemma_order_in_range(mods: Seq<ModuleV>, i: int)
    ensures
        forall|k: int|
            0 <= k < placed_upto(mods, i).len() ==> 0 <= #[trigger] placed_upto(mods, i)[k]
                < mods.len(),
    decreases i,
{
    if i > 0 {
        lemma_order_in_range(mods, i - 1);
        lemma_place_in_range(mods, i - 1, placed_upto(mods, i - 1), Seq::empty());
    }
}

/// Importing in a circle comes to an end: where every import left to look at was seen before,
/// nothing is asked for and nothing is read.
pub proof fn seen_imports_are_passed_over(v: ImportsV, cmds: Seq<ImportCommandV>)
    requires
        v.reading is None,
        forall|i: int| 0 <= i < v.todo.len() ==> v.visited.contains((#[trigger] v.todo[i]).0),
    ensures
        advanced(v, cmds) == (ImportsV { todo: Seq::empty(), ..v }, cmds),
    decreases v.todo.len(),
{
    if v.todo.len() == 0 {
        assert(v.todo =~= Seq::empty());
    } else {
        let rest = ImportsV { todo: v.todo.drop_last(), ..v };
        assert(v.todo[v.todo.len() - 1] == v.todo.last());
        assert forall|i: int| 0 <= i < rest.todo.len() implies rest.visited.contains(
            (#[trigger] rest.todo[i]).0,
        ) by {
            assert(rest.todo[i] == v.todo[i]);
        }
        seen_imports_are_passed_over(rest, cmds);
    }
}

/// What stands at the position of a request.
pub proof fn lemma_request_index(pending: Seq<(MessageId, RequestV)>, id: MessageId)
    ensures
        request_index(pending, id) matches Some(i) ==> 0 <= i < pending.len() && pending[i].0 == id,
        request_index(pending, id) is None ==> forall|i: int|
            0 <= i < pending.len() ==> (#[trigger] pending[i]).0 != id,
    decreases pending.len(),
{
    if pending.len() > 0 && pending.last().0 != id {
        lemma_request_index(pending.drop_last(), id);
        if request_index(pending.drop_last(), id) is None {
            assert forall|i: int| 0 <= i < pending.len() implies (#[trigger] pending[i]).0 != id by {
                if i < pending.len() - 1 {
                    assert(pending.drop_last()[i] == pending[i]);
                }
            }
        }
    }
}

/// Retries are counted, and there is an end to them: each retry is one more than the last, and
/// none is more than the most that are allowed.
pub proof fn retries_are_bounded(v: ImportsV, id: MessageId)
    ensures
        failed(v, id).1 matches Ok(Some(c)) ==> 1 <= c.3 <= MAX_IMPORT_RETRIES,
        failed(v, id).0.pending.len() <= v.pending.len(),
{
    lemma_request_index(v.pending, id);
}

/// What is left of a filtered sequence passed the filter.
pub proof fn lemma_filter_holds<A>(s: Seq<A>, keep: spec_fn(A) -> bool)
    ensures
        forall|i: int| 0 <= i < s.filter(keep).len() ==> keep(#[trigger] s.filter(keep)[i]),
        s.filter(keep).len() <= s.len(),
    decreases s.len(),
{
    reveal(Seq::filter);
    if s.len() > 0 {
        lemma_filter_holds(s.drop_last(), keep);
    }
}

/// A service whose source came is not asked for again: a request for it that fails later leads to
/// no retry.
pub proof fn answered_services_are_not_retried(v: ImportsV, name: Seq<char>, id: MessageId)
    ensures
        failed(answered(v, name), id).1 matches Ok(Some(c)) ==> c.1 != name,
{
    let w = answered(v, name);
    lemma_request_index(w.pending, id);
    lemma_filter_holds(v.pending, other_service(name));
    if let Some(i) = request_index(w.pending, id) {
        assert(w.pending[i].1.service_name != name);
    }
}

/// A failure of a request that nothing waits for changes nothing.
pub proof fn unknown_failures_change_nothing(v: ImportsV, id: MessageId)
    requires
        forall|i: int| 0 <= i < v.pending.len() ==> (#[trigger] v.pending[i]).0 != id,
    ensures
        failed(v, id) == (v, Ok::<Option<ImportCommandV>, ErrorV>(None)),
{
    lemma_request_index(v.pending, id);
}

/// After a request for a service was sent, it is the one request for that service.
pub proof fn one_request_per_service(
    v: ImportsV,
    id: MessageId,
    name: Seq<char>,
    url: Seq<char>,
    retry: u8,
    now: u64,
    i: int,
)
    requires
        0 <= i < registered(v, id, name, url, retry, now).pending.len(),
        registered(v, id, name, url, retry, now).pending[i].1.service_name == name || registered(
            v,
            id,
            name,
            url,
            retry,
            now,
        ).pending[i].0 == id,
    ensures
        i == registered(v, id, name, url, retry, now).pending.len() - 1,
{
    lemma_filter_holds(v.pending, unrelated(name, id));
    let rest = v.pending.filter(unrelated(name, id));
    if i < rest.len() {
        assert(registered(v, id, name, url, retry, now).pending[i] == rest[i]);
    }
}

} // verus!
