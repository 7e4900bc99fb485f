//! Messages between nodes.

use vstd::prelude::*;

verus! {

/// The number of a sent message.
#[derive(Debug, Clone, Copy, PartialEq, Eq, Structural)]
pub struct MessageId(pub u64);

/// Where a node can be reached.
#[derive(Debug, PartialEq, Eq)]
pub struct Address(pub String);

impl View for Address {
    type V = Seq<char>;

    open spec fn view(&self) -> Seq<char> {
        self.0@
    }
}

impl Address {
    /// The address that a text writes.
    pub fn new(s: &str) -> (res: Address)
        ensures
            res@ == s@,
    {
        Address(s.to_owned())
    }
}

impl Clone for Address {
    fn clone(&self) -> (res: Address)
        ensures
            res@ == self@,
    {
        Address(self.0.clone())
    }
}

/// The number of a transaction.
#[derive(Debug, Clone, Copy, PartialEq, Eq, Structural)]
pub struct TxnId {
    /// When it began, in the order of its node.
    pub timestamp: u64,
    /// The node where it began.
    pub node_id: u64,
}

/// A message to another node.
#[derive(Debug, PartialEq, Eq)]
#[allow(inconsistent_fields)]
pub enum MeerkatMessage {
    /// Asks for the source of a service.
    ServiceCodeRequest { request_id: u64, path: String, reply_to: String },
    /// Brings the source of a service.
    ServiceCodeResponse { request_id: u64, path: String, source: String },
    /// Reports that a source cannot be had.
    ServiceCodeError { request_id: u64, error: String },
    /// Asks to update a service.
    UpdateServiceRequest {
        request_id: u64,
        txn_id: Option<TxnId>,
        service_name: String,
        source: String,
        reply_to: String,
    },
}

/// What a `MeerkatMessage` stands for.
#[allow(inconsistent_fields)]
pub enum MeerkatMessageV {
    ServiceCodeRequest { request_id: u64, path: Seq<char>, reply_to: Seq<char> },
    ServiceCodeResponse { request_id: u64, path: Seq<char>, source: Seq<char> },
    ServiceCodeError { request_id: u64, error: Seq<char> },
    UpdateServiceRequest {
        request_id: u64,
        txn_id: Option<TxnId>,
        service_name: Seq<char>,
        source: Seq<char>,
        reply_to: Seq<char>,
    },
}

impl View for MeerkatMessage {
    type V = MeerkatMessageV;

    open spec fn view(&self) -> MeerkatMessageV {
        match *self {
            MeerkatMessage::ServiceCodeRequest {
                request_id,
                path,
                reply_to,
            } => MeerkatMessageV::ServiceCodeRequest {
                request_id,
                path: path@,
                reply_to: reply_to@,
            },
            MeerkatMessage::ServiceCodeResponse {
                request_id,
                path,
                source,
            } => MeerkatMessageV::ServiceCodeResponse {
                request_id,
                path: path@,
                source: source@,
            },
            MeerkatMessage::ServiceCodeError { request_id, error } => MeerkatMessageV::ServiceCodeError {
                request_id,
                error: error@,
            },
            MeerkatMessage::UpdateServiceRequest {
                request_id,
                txn_id,
                service_name,
                source,
                reply_to,
            } => MeerkatMessageV::UpdateServiceRequest {
                request_id,
                txn_id,
                service_name: service_name@,
                source: source@,
                reply_to: reply_to@,
            },
        }
    }
}

/// What the network layer is asked to do.
#[derive(Debug, PartialEq, Eq)]
#[allow(inconsistent_fields)]
pub enum NetworkCommand {
    SendMessage { addr: Address, msg: MeerkatMessage },
    Listen { addr: Address },
}

/// What a `NetworkCommand` stands for.
#[allow(inconsistent_fields)]
pub enum NetworkCommandV {
    SendMessage { addr: Seq<char>, msg: MeerkatMessageV },
    Listen { addr: Seq<char> },
}

impl View for NetworkCommand {
    type V = NetworkCommandV;

    open spec fn view(&self) -> NetworkCommandV {
        match *self {
            NetworkCommand::SendMessage { addr, msg } => NetworkCommandV::SendMessage {
                addr: addr@,
                msg: msg@,
            },
            NetworkCommand::Listen { addr } => NetworkCommandV::Listen { addr: addr@ },
        }
    }
}

} // verus!
