//! What the network layer reports.

use vstd::prelude::*;

use crate::error::{Error, ErrorV};
use crate::net::types::{
    Address, MeerkatMessage, MeerkatMessageV, MessageId, NetworkCommand, NetworkCommandV,
};
use crate::runtime::tt::types;

verus! {

/// Something that happened on the network.
#[derive(Debug, PartialEq, Eq)]
#[allow(inconsistent_fields)]
pub enum NetworkEvent {
    /// A message came.
    MessageReceived { peer: String, msg: MeerkatMessage },
    /// A message could not be sent.
    SendFailed { msg_id: MessageId, error: String },
    /// A node connected.
    PeerConnected { peer: String },
    /// A node disconnected.
    PeerDisconnected { peer: String },
}

/// What a `NetworkEvent` stands for.
#[allow(inconsistent_fields)]
pub enum NetworkEventV {
    MessageReceived { peer: Seq<char>, msg: MeerkatMessageV },
    SendFailed { msg_id: MessageId, error: Seq<char> },
    PeerConnected { peer: Seq<char> },
    PeerDisconnected { peer: Seq<char> },
}

impl View for NetworkEvent {
    type V = NetworkEventV;

    open spec fn view(&self) -> NetworkEventV {
        match *self {
            NetworkEvent::MessageReceived { peer, msg } => NetworkEventV::MessageReceived {
                peer: peer@,
                msg: msg@,
            },
            NetworkEvent::SendFailed { msg_id, error } => NetworkEventV::SendFailed {
                msg_id,
                error: error@,
            },
            NetworkEvent::PeerConnected { peer } => NetworkEventV::PeerConnected { peer: peer@ },
            NetworkEvent::PeerDisconnected { peer } => NetworkEventV::PeerDisconnected {
                peer: peer@,
            },
        }
    }
}

/// What the network layer answers to a command.
#[derive(Debug, PartialEq, Eq)]
pub enum NetworkReply {
    /// The message was sent.
    MessageSent { msg_id: MessageId },
    /// The node listens at an address.
    ListenSuccess { addr: Address },
    /// The addresses of the node.
    LocalAddresses { addrs: Vec<Address> },
    /// The command failed.
    Failure(String),
}

/// What a `NetworkReply` stands for.
pub enum NetworkReplyV {
    MessageSent { msg_id: MessageId },
    ListenSuccess { addr: Seq<char> },
    LocalAddresses { addrs: Seq<Seq<char>> },
    Failure(Seq<char>),
}

impl View for NetworkReply {
    type V = NetworkReplyV;

    open spec fn view(&self) -> NetworkReplyV {
        match *self {
            NetworkReply::MessageSent { msg_id } => NetworkReplyV::MessageSent { msg_id },
            NetworkReply::ListenSuccess { addr } => NetworkReplyV::ListenSuccess { addr: addr@ },
            NetworkReply::LocalAddresses { addrs } => NetworkReplyV::LocalAddresses {
                addrs: types::views(addrs@),
            },
            NetworkReply::Failure(e) => NetworkReplyV::Failure(e@),
        }
    }
}

/// The number of a message that was sent, or why it was not.
pub open spec fn sent(reply: NetworkReplyV) -> Result<MessageId, ErrorV> {
    match reply {
        NetworkReplyV::MessageSent { msg_id } => Ok(msg_id),
        NetworkReplyV::Failure(e) => Err(ErrorV::Message("Send failed: "@ + e)),
        _ => Err(ErrorV::Message("Unexpected reply from SendMessage command"@)),
    }
}

/// The address under which others reach a node that listens, or why it does not.
pub open spec fn listening(reply: NetworkReplyV, peer_id: Seq<char>) -> Result<Seq<char>, ErrorV> {
    match reply {
        NetworkReplyV::ListenSuccess { addr } => Ok(addr + "/p2p/"@ + peer_id),
        NetworkReplyV::Failure(e) => Err(ErrorV::Message("Failed to listen: "@ + e)),
        _ => Err(ErrorV::Message("Unexpected reply from Listen command"@)),
    }
}

/// The number of a message that was sent, or why it was not.
pub fn sent_message(reply: NetworkReply) -> (res: Result<MessageId, Error>)
    ensures
        match res {
            Ok(id) => sent(reply@) == Ok::<MessageId, ErrorV>(id),
            Err(e) => sent(reply@) == Err::<MessageId, ErrorV>(e@),
        },
{
    match reply {
        NetworkReply::MessageSent { msg_id } => Ok(msg_id),
        NetworkReply::Failure(e) => {
            let mut msg = "Send failed: ".to_owned();
            msg.append(e.as_str());
            Err(Error::Message(msg))
        },
        _ => Err(Error::Message("Unexpected reply from SendMessage command".to_owned())),
    }
}

/// The address under which others reach a node that listens, or why it does not.
pub fn listen_address(reply: NetworkReply, peer_id: &str) -> (res: Result<String, Error>)
    ensures
        match res {
            Ok(addr) => listening(reply@, peer_id@) == Ok::<Seq<char>, ErrorV>(addr@),
            Err(e) => listening(reply@, peer_id@) == Err::<Seq<char>, ErrorV>(e@),
        },
{
    match reply {
        NetworkReply::ListenSuccess { addr } => {
            let mut res = addr.0;
            res.append("/p2p/");
            res.append(peer_id);
            Ok(res)
        },
        NetworkReply::Failure(e) => {
            let mut msg = "Failed to listen: ".to_owned();
            msg.append(e.as_str());
            Err(Error::Message(msg))
        },
        _ => Err(Error::Message("Unexpected reply from Listen command".to_owned())),
    }
}

/// The message that a command sends, and where; an error where it sends none.
pub fn import_message(cmd: NetworkCommand) -> (res: Result<(Address, MeerkatMessage), Error>)
    ensures
        match res {
            Ok((addr, msg)) => cmd@ == (NetworkCommandV::SendMessage { addr: addr@, msg: msg@ }),
            Err(e) => !(cmd@ is SendMessage) && e@ == ErrorV::Message(
                "Unexpected non-SendMessage command for import registration"@,
            ),
        },
{
    match cmd {
        NetworkCommand::SendMessage { addr, msg } => Ok((addr, msg)),
        _ => Err(
            Error::Message(
                "Unexpected non-SendMessage command for import registration".to_owned(),
            ),
        ),
    }
}

} // verus!
