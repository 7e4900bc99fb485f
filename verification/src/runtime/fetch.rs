//! Fetching imports from other nodes: what each thing that happens on the network leads to.

use vstd::prelude::*;

use crate::error::{Error, ErrorV};
use crate::net::codec;
use crate::net::codec::decode_source_response;
use crate::net::messages::{NetworkEvent, NetworkEventV};
use crate::net::types::{MeerkatMessage, MeerkatMessageV};
use crate::runtime::import_requests;
use crate::runtime::imports;
use crate::runtime::imports::{ImportCommand, ImportCommandV, Imports, ImportsV};
use crate::runtime::interner::Interner;
use crate::runtime::limits::{
    IMPORT_POLL_INTERVAL_MS, IMPORT_RETRY_DELAY_MS, MAX_IMPORTED_SERVICES,
};
use crate::runtime::parser;

verus! {

/// What is to be done next while imports are fetched.
#[allow(inconsistent_fields)]
pub enum FetchAction {
    /// Wait, send commands and register them, then wait again.
    Send { before_ms: u64, commands: Vec<ImportCommand>, after_ms: u64 },
    /// Answer a request for a source.
    Serve { request_id: u64, path: String, reply_to: String },
    /// Keep an event until the node runs.
    Keep(NetworkEvent),
}

/// What a `FetchAction` stands for.
#[allow(inconsistent_fields)]
pub enum FetchActionV {
    Send { before_ms: u64, commands: Seq<ImportCommandV>, after_ms: u64 },
    Serve { request_id: u64, path: Seq<char>, reply_to: Seq<char> },
    Keep(NetworkEventV),
}

impl View for FetchAction {
    type V = FetchActionV;

    open spec fn view(&self) -> FetchActionV {
        match *self {
            FetchAction::Send { before_ms, commands, after_ms } => FetchActionV::Send {
                before_ms,
                commands: imports::commands_view(commands@),
                after_ms,
            },
            FetchAction::Serve { request_id, path, reply_to } => FetchActionV::Serve {
                request_id,
                path: path@,
                reply_to: reply_to@,
            },
            FetchAction::Keep(e) => FetchActionV::Keep(e@),
        }
    }
}

/// The state of the imports, the names of the node, and what is to be done next.
pub type FetchStep = (ImportsV, Seq<Seq<char>>, Result<FetchActionV, ErrorV>);

/// Commands that are sent at once.
pub open spec fn send_now(cmds: Seq<ImportCommandV>) -> FetchActionV {
    FetchActionV::Send { before_ms: 0, commands: cmds, after_ms: 0 }
}

/// A source came for a service.
pub open spec fn received(
    v: ImportsV,
    names: Seq<Seq<char>>,
    source: Seq<char>,
    name: Seq<char>,
) -> FetchStep {
    if v.visited.len() >= MAX_IMPORTED_SERVICES {
        (v, names, Err(imports::too_many_services()))
    } else {
        let more = parser::lex::lexed(source, names).names;
        let waiting = imports::answered(v, name);
        match parser::parsed(source, names) {
            Err(msg) => (imports::abandoned(waiting), more, Err(ErrorV::Message(msg))),
            Ok(stmts) => {
                let next = imports::advanced(
                    imports::recorded(waiting, stmts, more),
                    Seq::empty(),
                );
                (next.0, more, Ok(send_now(next.1)))
            },
        }
    }
}

/// A message came.
pub open spec fn heard(
    v: ImportsV,
    names: Seq<Seq<char>>,
    peer: Seq<char>,
    msg: MeerkatMessageV,
) -> FetchStep {
    match msg {
        MeerkatMessageV::ServiceCodeResponse { path, source, .. } => match codec::response_error(
            path,
            source,
        ) {
            Some(e) => (v, names, Err(e)),
            None => received(v, names, source, codec::base_name(path)),
        },
        MeerkatMessageV::ServiceCodeRequest { request_id, path, reply_to } => (
            v,
            names,
            Ok(FetchActionV::Serve { request_id, path, reply_to }),
        ),
        MeerkatMessageV::ServiceCodeError { error, .. } => (
            v,
            names,
            Err(ErrorV::Message("Remote peer returned service error: "@ + error)),
        ),
        _ => (v, names, Ok(FetchActionV::Keep(NetworkEventV::MessageReceived { peer, msg }))),
    }
}

/// What something that happened on the network leads to; or that nothing happened.
pub open spec fn stepped(
    v: ImportsV,
    names: Seq<Seq<char>>,
    event: Option<NetworkEventV>,
    now: u64,
) -> FetchStep {
    match event {
        Some(NetworkEventV::MessageReceived { peer, msg }) => heard(v, names, peer, msg),
        Some(NetworkEventV::SendFailed { msg_id, .. }) => {
            let r = imports::failed(v, msg_id);
            match r.1 {
                Err(e) => (r.0, names, Err(e)),
                Ok(None) => (r.0, names, Ok(send_now(Seq::empty()))),
                Ok(Some(c)) => (
                    r.0,
                    names,
                    Ok(
                        FetchActionV::Send {
                            before_ms: IMPORT_RETRY_DELAY_MS,
                            commands: seq![c],
                            after_ms: 0,
                        },
                    ),
                ),
            }
        },
        Some(e) => (v, names, Ok(FetchActionV::Keep(e))),
        None => {
            let r = imports::polled(v, now);
            match r.1 {
                Err(e) => (r.0, names, Err(e)),
                Ok(cmds) => (
                    r.0,
                    names,
                    Ok(
                        FetchActionV::Send {
                            before_ms: 0,
                            commands: cmds,
                            after_ms: IMPORT_POLL_INTERVAL_MS,
                        },
                    ),
                ),
            }
        },
    }
}

/// Whether an outcome is as it should be.
pub open spec fn outcome(res: Result<FetchAction, Error>) -> Result<FetchActionV, ErrorV> {
    match res {
        Ok(a) => Ok(a@),
        Err(e) => Err(e@),
    }
}

fn send_at_once(commands: Vec<ImportCommand>) -> (res: FetchAction)
    ensures
        res@ == send_now(imports::commands_view(commands@)),
{
    FetchAction::Send { before_ms: 0, commands, after_ms: 0 }
}

impl Imports {
    /// Take in a message.
    fn on_message(&mut self, interner: &mut Interner, peer: String, msg: MeerkatMessage) -> (res:
        Result<FetchAction, Error>)
        ensures
            (final(self)@, final(interner)@, outcome(res)) == heard(
                old(self)@,
                old(interner)@,
                peer@,
                msg@,
            ),
            import_requests::settled(old(self)@) ==> import_requests::settled(final(self)@),
            import_requests::tidy(old(self)@) && import_requests::named(
                old(self)@,
                old(interner)@,
            ) ==> import_requests::tidy(final(self)@),
    {
        match msg {
            MeerkatMessage::ServiceCodeResponse { source, path, .. } => {
                match decode_source_response(path.as_str(), source.as_str()) {
                    Err(e) => Err(e),
                    Ok(name) => match self.on_recv_source(
                        source.as_str(),
                        name.as_str(),
                        interner,
                    ) {
                        Err(e) => Err(e),
                        Ok(cmds) => Ok(send_at_once(cmds)),
                    },
                }
            },
            MeerkatMessage::ServiceCodeRequest { request_id, path, reply_to } => Ok(
                FetchAction::Serve { request_id, path, reply_to },
            ),
            MeerkatMessage::ServiceCodeError { error, .. } => {
                let mut text = "Remote peer returned service error: ".to_owned();
                text.append(error.as_str());
                Err(Error::Message(text))
            },
            _ => Ok(FetchAction::Keep(NetworkEvent::MessageReceived { peer, msg })),
        }
    }

    /// Take in what happened on the network, or that nothing did.
    pub fn step(&mut self, interner: &mut Interner, event: Option<NetworkEvent>, now: u64) -> (res:
        Result<FetchAction, Error>)
        ensures
            (final(self)@, final(interner)@, outcome(res)) == stepped(
                old(self)@,
                old(interner)@,
                match event {
                    Some(e) => Some(e@),
                    None => None,
                },
                now,
            ),
            import_requests::settled(old(self)@) ==> import_requests::settled(final(self)@),
            import_requests::tidy(old(self)@) && import_requests::named(
                old(self)@,
                old(interner)@,
            ) ==> import_requests::tidy(final(self)@),
    {
        match event {
            Some(NetworkEvent::MessageReceived { peer, msg }) => self.on_message(
                interner,
                peer,
                msg,
            ),
            Some(NetworkEvent::SendFailed { msg_id, .. }) => match self.on_send_failure(msg_id) {
                Err(e) => Err(e),
                Ok(None) => {
                    let none: Vec<ImportCommand> = Vec::new();
                    assert(imports::commands_view(none@) =~= Seq::<ImportCommandV>::empty());
                    Ok(send_at_once(none))
                },
                Ok(Some(cmd)) => {
                    let mut commands: Vec<ImportCommand> = Vec::new();
                    commands.push(cmd);
                    assert(imports::commands_view(commands@) =~= seq![
                        imports::command_view(cmd),
                    ]);
                    Ok(
                        FetchAction::Send {
                            before_ms: IMPORT_RETRY_DELAY_MS,
                            commands,
                            after_ms: 0,
                        },
                    )
                },
            },
            Some(e) => Ok(FetchAction::Keep(e)),
            None => match self.poll_timeouts(now) {
                Err(e) => Err(e),
                Ok(commands) => Ok(
                    FetchAction::Send {
                        before_ms: 0,
                        commands,
                        after_ms: IMPORT_POLL_INTERVAL_MS,
                    },
                ),
            },
        }
    }
}

} // verus!
