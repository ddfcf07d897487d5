//! Builders for the messages of the protocol.

use crate::horcrust_msg_request::Request;
use crate::horcrust_msg_response::Response;
use crate::messages::{
    GetShareRequest, HorcrustMsgError, HorcrustMsgRequest, HorcrustMsgResponse, PutShareRequest,
    RefreshShareRequest, RequestModel, ResponseModel, ShareResponse,
};
use crate::{HorcrustShare, HorcrustStoreKey};
use vstd::prelude::*;

verus! {

/// The response to a request that succeeded and returns no value.
pub fn msg_success_response() -> (response: HorcrustMsgResponse)
    ensures
        response@ == Some(ResponseModel::Error { flag: false, message: Seq::<char>::empty() }),
{
    HorcrustMsgResponse {
        response: Some(
            Response::Error(HorcrustMsgError { error: false, error_string: String::new() }),
        ),
    }
}

/// The response that carries `share`.
pub fn msg_share_response(share: HorcrustShare) -> (response: HorcrustMsgResponse)
    ensures
        response@ == Some(ResponseModel::Share { share }),
{
    HorcrustMsgResponse { response: Some(Response::ShareResponse(ShareResponse { share })) }
}

/// The request to store `share` under `key`.
pub fn msg_store_share_request(key: HorcrustStoreKey, share: HorcrustShare) -> (request:
    HorcrustMsgRequest)
    ensures
        request@ == Some(RequestModel::PutShare { key, share }),
{
    HorcrustMsgRequest { request: Some(Request::PutShare(PutShareRequest { key, share })) }
}

/// The request for the share under `key`.
pub fn msg_retrieve_secret_request(key: HorcrustStoreKey) -> (request: HorcrustMsgRequest)
    ensures
        request@ == Some(RequestModel::GetShare { key }),
{
    HorcrustMsgRequest { request: Some(Request::GetShare(GetShareRequest { key })) }
}

/// The request to store `share` under `key`.
pub fn msg_put_share_request(key: HorcrustStoreKey, share: HorcrustShare) -> (request:
    HorcrustMsgRequest)
    ensures
        request@ == Some(RequestModel::PutShare { key, share }),
{
    HorcrustMsgRequest { request: Some(Request::PutShare(PutShareRequest { key, share })) }
}

/// The request to apply the mask `random` to the share under each of `key`.
pub fn msg_refresh_share_request(key: Vec<HorcrustStoreKey>, random: HorcrustShare) -> (request:
    HorcrustMsgRequest)
    ensures
        request@ == Some(RequestModel::Refresh { keys: key@, mask: random }),
{
    HorcrustMsgRequest { request: Some(Request::Refresh(RefreshShareRequest { key, random })) }
}

/// The response to a request that failed, with the reason.
pub fn msg_error_response(msg: &str) -> (response: HorcrustMsgResponse)
    ensures
        response@ == Some(ResponseModel::Error { flag: true, message: msg@ }),
{
    HorcrustMsgResponse {
        response: Some(
            Response::Error(HorcrustMsgError { error: true, error_string: msg.to_string() }),
        ),
    }
}

} // verus!
