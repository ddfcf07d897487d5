//! What a client does around the exchange with its peers: the requests that
//! store a secret, and the reading of the responses that give it back.

use crate::horcrust_msg_response::Response;
use crate::messages::{HorcrustMsgRequest, HorcrustMsgResponse, RequestModel, ResponseModel};
use crate::messages_utils::msg_put_share_request;
use crate::secret_sharing::{all_below, combined, AdditiveSecretSharing, SecretSharing};
use crate::{HorcrustSecret, HorcrustShare, HorcrustStoreKey};
use vstd::prelude::*;

verus! {

/// What is wrong with the response of one peer.
#[derive(Clone, Copy, PartialEq, Eq, Debug)]
pub enum PeerFault {
    /// The peer reports that the request failed.
    Rejected,
    /// The peer answered something that the request does not call for.
    Unexpected,
    /// The response says nothing.
    Empty,
}

/// The first peer whose response is at fault, and the fault.
#[derive(Clone, Copy, PartialEq, Eq, Debug)]
pub struct ClientError {
    pub peer: usize,
    pub fault: PeerFault,
}

/// How a peer's response to a put is to be read: only a report of success
/// will do.
pub open spec fn put_outcome(response: Option<ResponseModel>) -> Result<(), PeerFault> {
    match response {
        Some(ResponseModel::Error { flag, message }) => if flag {
            Err(PeerFault::Rejected)
        } else {
            Ok(())
        },
        Some(ResponseModel::Share { share }) => Err(PeerFault::Unexpected),
        None => Err(PeerFault::Empty),
    }
}

/// How a peer's response to a get is to be read: only a share will do.
pub open spec fn get_outcome(response: Option<ResponseModel>) -> Result<HorcrustShare, PeerFault> {
    match response {
        Some(ResponseModel::Share { share }) => Ok(share),
        Some(ResponseModel::Error { flag, message }) => Err(PeerFault::Rejected),
        None => Err(PeerFault::Empty),
    }
}

/// The views of a run of responses.
pub open spec fn response_views(responses: Seq<HorcrustMsgResponse>) -> Seq<Option<ResponseModel>> {
    responses.map_values(|r: HorcrustMsgResponse| r@)
}

/// The views of a run of requests.
pub open spec fn request_views(requests: Seq<HorcrustMsgRequest>) -> Seq<Option<RequestModel>> {
    requests.map_values(|r: HorcrustMsgRequest| r@)
}

/// The first response to a get that gives no share, with its position.
pub open spec fn first_fault(responses: Seq<Option<ResponseModel>>) -> Option<(int, PeerFault)>
    decreases responses.len(),
{
    if responses.len() == 0 {
        None
    } else {
        match first_fault(responses.drop_last()) {
            Some(found) => Some(found),
            None => match get_outcome(responses.last()) {
                Ok(share) => None,
                Err(fault) => Some((responses.len() - 1, fault)),
            },
        }
    }
}

/// The shares that a run of responses to a get carries; a response without
/// one counts as zero.
pub open spec fn shares_in(responses: Seq<Option<ResponseModel>>) -> Seq<HorcrustShare> {
    responses.map_values(
        |r: Option<ResponseModel>|
            match get_outcome(r) {
                Ok(share) => share,
                Err(fault) => 0,
            },
    )
}

/// The requests that put each of `shares` under `key`, one for each peer.
pub open spec fn put_requests(key: HorcrustStoreKey, shares: Seq<HorcrustShare>) -> Seq<
    Option<RequestModel>,
> {
    shares.map_values(|share: HorcrustShare| Some(RequestModel::PutShare { key, share }))
}

/// The shares that a run of put requests carries; a request of another kind
/// counts as zero.
pub open spec fn shares_put(requests: Seq<Option<RequestModel>>) -> Seq<HorcrustShare> {
    requests.map_values(
        |r: Option<RequestModel>|
            match r {
                Some(RequestModel::PutShare { key, share }) => share,
                _ => 0,
            },
    )
}

/// Reads a peer's response to a put.
pub fn check_put_response(response: &HorcrustMsgResponse) -> (outcome: Result<(), PeerFault>)
    ensures
        outcome == put_outcome(response@),
{
    match &response.response {
        Some(Response::Error(report)) => {
            if report.error {
                Err(PeerFault::Rejected)
            } else {
                Ok(())
            }
        },
        Some(Response::ShareResponse(_)) => Err(PeerFault::Unexpected),
        None => Err(PeerFault::Empty),
    }
}

/// Reads a peer's response to a get.
pub fn share_from_response(response: &HorcrustMsgResponse) -> (outcome: Result<
    HorcrustShare,
    PeerFault,
>)
    ensures
        outcome == get_outcome(response@),
{
    match &response.response {
        Some(Response::ShareResponse(found)) => Ok(found.share),
        Some(Response::Error(_)) => Err(PeerFault::Rejected),
        None => Err(PeerFault::Empty),
    }
}

/// The requests that put each of `shares` under `key`, one for each peer and
/// in the order of the shares.
pub fn put_share_requests(key: HorcrustStoreKey, shares: &Vec<HorcrustShare>) -> (requests: Vec<
    HorcrustMsgRequest,
>)
    ensures
        request_views(requests@) == put_requests(key, shares@),
{
    let mut requests: Vec<HorcrustMsgRequest> = Vec::new();
    let mut i: usize = 0;
    while i < shares.len()
        invariant
            0 <= i <= shares@.len(),
            requests@.len() == i,
            request_views(requests@) == put_requests(key, shares@.take(i as int)),
        decreases shares@.len() - i,
    {
        let request = msg_put_share_request(key, shares[i]);
        proof {
            let before = request_views(requests@);
            let after = request_views(requests@.push(request));
            let wanted = put_requests(key, shares@.take(i + 1));
            assert forall|j: int| 0 <= j < after.len() implies after[j] == wanted[j] by {
                if j < i {
                    assert(requests@.push(request)[j] == requests@[j]);
                    assert(before[j] == put_requests(key, shares@.take(i as int))[j]);
                }
            }
            assert(after =~= wanted);
        }
        requests.push(request);
        i = i + 1;
    }
    proof {
        assert(shares@.take(shares@.len() as int) =~= shares@);
    }
    requests
}

/// Splits `secret` into one share for each of `servers` peers and gives the
/// requests that put them under `key`. The shares that the requests carry
/// lie below the modulus and reconstruct to the secret, reduced.
pub fn store_secret(
    sharing: &AdditiveSecretSharing,
    servers: usize,
    secret: HorcrustSecret,
    key: HorcrustStoreKey,
) -> (requests: Vec<HorcrustMsgRequest>)
    requires
        servers >= 1,
    ensures
        requests@.len() == servers,
        request_views(requests@) == put_requests(key, shares_put(request_views(requests@))),
        all_below(sharing.modulus(), shares_put(request_views(requests@))),
        combined(sharing.modulus(), shares_put(request_views(requests@))) == secret as int
            % sharing.modulus(),
{
    let shares = sharing.split(servers, secret);
    let requests = put_share_requests(key, &shares);
    proof {
        assert(shares_put(put_requests(key, shares@)) =~= shares@);
    }
    requests
}

/// Reads the responses of all peers to a get and reconstructs the secret
/// from the shares that they carry. Where a response carries none, the first
/// such response is reported and nothing is reconstructed.
pub fn retrieve_secret(sharing: &AdditiveSecretSharing, responses: &Vec<HorcrustMsgResponse>) -> (out:
    Result<HorcrustSecret, ClientError>)
    ensures
        match out {
            Ok(secret) => first_fault(response_views(responses@)) is None && secret == combined(
                sharing.modulus(),
                shares_in(response_views(responses@)),
            ),
            Err(e) => first_fault(response_views(responses@)) == Some((e.peer as int, e.fault)),
        },
{
    let ghost views = response_views(responses@);
    let mut shares: Vec<HorcrustShare> = Vec::new();
    let mut i: usize = 0;
    while i < responses.len()
        invariant
            0 <= i <= responses@.len(),
            views == response_views(responses@),
            first_fault(views.take(i as int)) is None,
            shares@ == shares_in(views.take(i as int)),
        decreases responses@.len() - i,
    {
        proof {
            assert(views.take(i + 1).drop_last() =~= views.take(i as int));
            assert(views.take(i + 1).last() == responses@[i as int]@);
        }
        match share_from_response(&responses[i]) {
            Ok(share) => {
                proof {
                    assert(shares@.push(share) =~= shares_in(views.take(i + 1)));
                }
                shares.push(share);
            },
            Err(fault) => {
                proof {
                    lemma_first_fault_stays(views, i + 1);
                }
                return Err(ClientError { peer: i, fault });
            },
        }
        i = i + 1;
    }
    proof {
        assert(views.take(responses@.len() as int) =~= views);
    }
    Ok(sharing.combine(shares))
}

/// A fault among the first `n` responses is the first fault of all.
proof fn lemma_first_fault_stays(responses: Seq<Option<ResponseModel>>, n: int)
    requires
        0 <= n <= responses.len(),
        first_fault(responses.take(n)) is Some,
    ensures
        first_fault(responses) == first_fault(responses.take(n)),
    decreases responses.len() - n,
{
    if n < responses.len() {
        assert(responses.take(n + 1).drop_last() =~= responses.take(n));
        lemma_first_fault_stays(responses, n + 1);
    } else {
        assert(responses.take(n) =~= responses);
    }
}

} // verus!
