//! The two kinds of message.

use crate::messages::{HorcrustMsgRequest, HorcrustMsgResponse, MessageModel};
use vstd::prelude::*;

verus! {

/// A request or a response.
#[derive(Clone, PartialEq, Debug)]
pub enum MessageType {
    Request(HorcrustMsgRequest),
    Response(HorcrustMsgResponse),
}

impl View for MessageType {
    type V = MessageModel;

    open spec fn view(&self) -> MessageModel {
        match self {
            MessageType::Request(request) => MessageModel::Request(request@),
            MessageType::Response(response) => MessageModel::Response(response@),
        }
    }
}

} // verus!
