//! Additive secret sharing over a small public modulus, the per-connection
//! secure channel that carries the shares, and the store and coordinator that
//! keep them fresh.
//!
//! A client splits a secret into one share for each peer, so that no peer
//! ever holds the whole secret. Each peer keeps its share in a store, and a
//! coordinator re-randomises the stored shares from time to time with masks
//! that sum to zero, so that the shares of one moment are of no use together
//! with the shares of another.

use vstd::prelude::*;

pub mod client;
pub mod codec;
pub mod connection;
pub mod dispatcher;
pub mod horcrust_msg_message;
pub mod horcrust_msg_request;
pub mod horcrust_msg_response;
pub mod messages;
pub mod messages_utils;
pub mod outside;
pub mod refresher;
pub mod secret_sharing;
pub mod shares_db;
pub mod wire;

pub use crate::client::{retrieve_secret, store_secret};
pub use crate::connection::{
    decrypt_payload, encrypt_payload, generate_pk, generate_session_key, modpow,
    ConnectionHandler,
};
pub use crate::messages::{
    GetShareRequest, HorcrustMsgError, HorcrustMsgMessage, HorcrustMsgRequest,
    HorcrustMsgResponse, PutShareRequest, RefreshShareRequest, ShareResponse,
};
pub use crate::messages_utils::{
    msg_error_response, msg_put_share_request, msg_refresh_share_request,
    msg_retrieve_secret_request, msg_share_response, msg_store_share_request,
    msg_success_response,
};
pub use crate::refresher::initiate_refresh;
pub use crate::secret_sharing::AdditiveSecretSharing;
pub use crate::secret_sharing::SecretSharing;
pub use crate::shares_db::{SharesDatabase, REFRESH_THRESHOLD};

verus! {

/// The value to protect. Callers keep it below the sharing modulus.
pub type HorcrustSecret = u64;

/// Identifier under which a client stores a secret.
pub type HorcrustStoreKey = u32;

/// One peer's additive piece of a secret.
pub type HorcrustShare = u64;

/// Sum of two sizes.
pub fn add(left: usize, right: usize) -> (total: usize)
    requires
        left + right <= usize::MAX,
    ensures
        total == left + right,
{
    left + right
}

} // verus!
