//! The requests that a peer serves.

use crate::messages::{GetShareRequest, PutShareRequest, RefreshShareRequest, RequestModel};
use vstd::prelude::*;

verus! {

/// What is asked of a peer.
#[derive(Clone, PartialEq, Debug)]
pub enum Request {
    PutShare(PutShareRequest),
    GetShare(GetShareRequest),
    Refresh(RefreshShareRequest),
}

impl View for Request {
    type V = RequestModel;

    open spec fn view(&self) -> RequestModel {
        match self {
            Request::PutShare(put) => RequestModel::PutShare { key: put.key, share: put.share },
            Request::GetShare(get) => RequestModel::GetShare { key: get.key },
            Request::Refresh(refresh) => RequestModel::Refresh {
                keys: refresh.key@,
                mask: refresh.random,
            },
        }
    }
}

} // verus!
