//! The typed messages of the protocol: what a client or a coordinator asks of
//! a peer, and what the peer answers.

use crate::horcrust_msg_message::MessageType;
use crate::horcrust_msg_request::Request;
use crate::horcrust_msg_response::Response;
use vstd::prelude::*;

verus! {

/// What a request asks for, as a mathematical value.
pub enum RequestModel {
    PutShare { key: u32, share: u64 },
    GetShare { key: u32 },
    Refresh { keys: Seq<u32>, mask: u64 },
}

/// What a response says, as a mathematical value.
pub enum ResponseModel {
    Error { flag: bool, message: Seq<char> },
    Share { share: u64 },
}

/// A request or a response, as a mathematical value.
pub enum MessageModel {
    Request(Option<RequestModel>),
    Response(Option<ResponseModel>),
}

/// Either kind of message, for a channel that carries both.
#[derive(Clone, PartialEq, Debug)]
pub struct HorcrustMsgMessage {
    pub message_type: Option<MessageType>,
}

/// A request to a peer. An empty one asks for nothing.
#[derive(Clone, PartialEq, Debug)]
pub struct HorcrustMsgRequest {
    pub request: Option<Request>,
}

/// A peer's answer. An empty one says nothing.
#[derive(Clone, PartialEq, Debug)]
pub struct HorcrustMsgResponse {
    pub response: Option<Response>,
}

/// Outcome of a request that returns no value: `error` tells whether it
/// failed, and `error_string` why.
#[derive(Clone, PartialEq, Debug)]
pub struct HorcrustMsgError {
    pub error: bool,
    pub error_string: String,
}

/// Store `share` under `key`, in place of whatever is there.
#[derive(Clone, PartialEq, Debug)]
pub struct PutShareRequest {
    pub key: u32,
    pub share: u64,
}

/// Return the share under `key`.
#[derive(Clone, PartialEq, Debug)]
pub struct GetShareRequest {
    pub key: u32,
}

/// Apply the mask `random` to the share under each of the keys in `key`.
#[derive(Clone, PartialEq, Debug)]
pub struct RefreshShareRequest {
    pub key: Vec<u32>,
    pub random: u64,
}

/// The share that was asked for.
#[derive(Clone, PartialEq, Debug)]
pub struct ShareResponse {
    pub share: u64,
}

impl View for HorcrustMsgRequest {
    type V = Option<RequestModel>;

    open spec fn view(&self) -> Option<RequestModel> {
        match self.request {
            Some(request) => Some(request@),
            None => None,
        }
    }
}

impl View for HorcrustMsgResponse {
    type V = Option<ResponseModel>;

    open spec fn view(&self) -> Option<ResponseModel> {
        match self.response {
            Some(response) => Some(response@),
            None => None,
        }
    }
}

impl View for HorcrustMsgMessage {
    type V = Option<MessageModel>;

    open spec fn view(&self) -> Option<MessageModel> {
        match self.message_type {
            Some(message) => Some(message@),
            None => None,
        }
    }
}

} // verus!
