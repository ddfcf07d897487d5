//! The answers that a peer gives.

use crate::messages::{HorcrustMsgError, ResponseModel, ShareResponse};
use vstd::prelude::*;

verus! {

/// What a peer answers.
#[derive(Clone, PartialEq, Debug)]
pub enum Response {
    Error(HorcrustMsgError),
    ShareResponse(ShareResponse),
}

impl View for Response {
    type V = ResponseModel;

    open spec fn view(&self) -> ResponseModel {
        match self {
            Response::Error(outcome) => ResponseModel::Error {
                flag: outcome.error,
                message: outcome.error_string@,
            },
            Response::ShareResponse(found) => ResponseModel::Share { share: found.share },
        }
    }
}

} // verus!
