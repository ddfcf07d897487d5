//! The decisions of the refresh coordinator: in which order to contact the
//! peers, what to ask of each, and how to read what each answers.

use crate::client::{put_outcome, request_views};
use crate::horcrust_msg_response::Response;
use crate::messages::{HorcrustMsgRequest, HorcrustMsgResponse, RequestModel, ResponseModel};
use crate::messages_utils::msg_refresh_share_request;
use crate::dispatcher::{lemma_refreshed_records_once, refreshed_records};
use crate::secret_sharing::{
    all_below, combined, lemma_refreshed_sum, refreshed_shares, share_sum, AdditiveSecretSharing,
    SecretSharing,
};
use crate::shares_db::{ShareRecord, Timestamp};
use crate::{HorcrustShare, HorcrustStoreKey};
use vstd::prelude::*;

verus! {

/// What became of a refresh at one peer.
#[derive(Clone, Copy, PartialEq, Eq, Debug)]
pub enum RefreshOutcome {
    /// The peer applied its mask.
    Applied,
    /// The peer reports that it could not.
    Failed,
    /// The peer answered something that a refresh does not call for.
    Unknown,
}

/// How a peer's response to a refresh is to be read.
pub open spec fn refresh_outcome_of(response: Option<ResponseModel>) -> RefreshOutcome {
    match response {
        Some(ResponseModel::Error { flag, message }) => if flag {
            RefreshOutcome::Failed
        } else {
            RefreshOutcome::Applied
        },
        Some(ResponseModel::Share { share }) => RefreshOutcome::Unknown,
        None => RefreshOutcome::Unknown,
    }
}

/// The requests that ask to apply each of `masks` to the shares under
/// `keys`, one for each peer.
pub open spec fn refresh_requests(keys: Seq<HorcrustStoreKey>, masks: Seq<HorcrustShare>) -> Seq<
    Option<RequestModel>,
> {
    masks.map_values(|mask: HorcrustShare| Some(RequestModel::Refresh { keys, mask }))
}

/// The masks that a run of refresh requests carries; a request of another
/// kind counts as zero.
pub open spec fn masks_sent(requests: Seq<Option<RequestModel>>) -> Seq<HorcrustShare> {
    requests.map_values(
        |r: Option<RequestModel>|
            match r {
                Some(RequestModel::Refresh { keys, mask }) => mask,
                _ => 0,
            },
    )
}

/// `a` comes no later than `b` in the order of text: at the first place
/// where they differ `a` has the smaller character, or `a` ends first.
pub open spec fn text_le(a: Seq<char>, b: Seq<char>) -> bool
    decreases a.len(),
{
    if a.len() == 0 {
        true
    } else if b.len() == 0 {
        false
    } else if a[0] != b[0] {
        (a[0] as u32) < (b[0] as u32)
    } else {
        text_le(a.skip(1), b.skip(1))
    }
}

/// The texts of a run of addresses.
pub open spec fn texts(addresses: Seq<String>) -> Seq<Seq<char>> {
    addresses.map_values(|a: String| a@)
}

/// Each text comes no later than the next.
pub open spec fn ascending(addresses: Seq<Seq<char>>) -> bool {
    forall|i: int, j: int|
        0 <= i <= j < addresses.len() ==> text_le(#[trigger] addresses[i], #[trigger] addresses[j])
}

/// The shares that the peers hold under `key`, in the order of the peers.
pub open spec fn held_shares(
    stores: Seq<Map<HorcrustStoreKey, ShareRecord>>,
    key: HorcrustStoreKey,
) -> Seq<HorcrustShare> {
    Seq::new(stores.len(), |i: int| stores[i][key].share)
}

/// The stores of the peers after each has served its refresh request of one
/// round: the same keys for all, and for each peer its own mask and its own
/// time.
pub open spec fn stores_after_round(
    stores: Seq<Map<HorcrustStoreKey, ShareRecord>>,
    keys: Seq<HorcrustStoreKey>,
    masks: Seq<HorcrustShare>,
    q: int,
    times: Seq<Timestamp>,
) -> Seq<Map<HorcrustStoreKey, ShareRecord>> {
    Seq::new(stores.len(), |i: int| refreshed_records(stores[i], keys, masks[i], q, times[i]))
}

/// A round that every peer completes leaves the secret under each refreshed
/// key as it was: where the masks, one for each peer, sum to zero modulo
/// `q`, and every peer holds a share under `key`, the shares under `key`
/// reconstruct to the same value after the round as before it.
pub proof fn lemma_round_preserves_secret(
    stores: Seq<Map<HorcrustStoreKey, ShareRecord>>,
    keys: Seq<HorcrustStoreKey>,
    masks: Seq<HorcrustShare>,
    q: int,
    times: Seq<Timestamp>,
    key: HorcrustStoreKey,
)
    requires
        0 < q <= u64::MAX,
        masks.len() == stores.len(),
        times.len() == stores.len(),
        combined(q, masks) == 0,
        keys.no_duplicates(),
        keys.contains(key),
        forall|i: int| 0 <= i < stores.len() ==> (#[trigger] stores[i]).contains_key(key),
    ensures
        combined(q, held_shares(stores_after_round(stores, keys, masks, q, times), key))
            == combined(q, held_shares(stores, key)),
{
    let before = held_shares(stores, key);
    let after = held_shares(stores_after_round(stores, keys, masks, q, times), key);
    assert forall|i: int| 0 <= i < stores.len() implies after[i] == refreshed_shares(
        q,
        masks,
        before,
    )[i] by {
        assert(stores[i].contains_key(key));
        lemma_refreshed_records_once(stores[i], keys, masks[i], q, times[i], key);
    }
    assert(after =~= refreshed_shares(q, masks, before));
    lemma_refreshed_sum(q, masks, before);
    vstd::arithmetic::div_mod::lemma_add_mod_noop(share_sum(masks), share_sum(before), q);
    vstd::arithmetic::div_mod::lemma_small_mod((share_sum(before) % q) as nat, q as nat);
}

/// Reads a peer's response to a refresh.
pub fn refresh_outcome(response: &HorcrustMsgResponse) -> (outcome: RefreshOutcome)
    ensures
        outcome == refresh_outcome_of(response@),
{
    match &response.response {
        Some(Response::Error(report)) => {
            if report.error {
                RefreshOutcome::Failed
            } else {
                RefreshOutcome::Applied
            }
        },
        Some(Response::ShareResponse(_)) => RefreshOutcome::Unknown,
        None => RefreshOutcome::Unknown,
    }
}

/// The peers in the order in which every coordinator contacts them: the
/// same addresses, in ascending order of text. This makes coordinators that
/// run at the same time tend to meet at the first peer; it does not keep
/// them apart.
pub fn order_peers(servers: Vec<String>) -> (ordered: Vec<String>)
    ensures
        texts(ordered@).to_multiset() == texts(servers@).to_multiset(),
        ascending(texts(ordered@)),
{
    let mut ordered = servers;
    sort_addresses(&mut ordered);
    ordered
}

/// The requests that ask to apply each of `masks` to the shares under
/// `keys`, one for each peer and in the order of the masks.
pub fn refresh_share_requests(keys: &Vec<HorcrustStoreKey>, masks: &Vec<HorcrustShare>) -> (requests:
    Vec<HorcrustMsgRequest>)
    ensures
        request_views(requests@) == refresh_requests(keys@, masks@),
{
    let mut requests: Vec<HorcrustMsgRequest> = Vec::new();
    let mut i: usize = 0;
    while i < masks.len()
        invariant
            0 <= i <= masks@.len(),
            requests@.len() == i,
            request_views(requests@) == refresh_requests(keys@, masks@.take(i as int)),
        decreases masks@.len() - i,
    {
        let request = msg_refresh_share_request(keys.clone(), masks[i]);
        proof {
            let before = request_views(requests@);
            let after = request_views(requests@.push(request));
            let wanted = refresh_requests(keys@, masks@.take(i + 1));
            assert forall|j: int| 0 <= j < after.len() implies after[j] == wanted[j] by {
                if j < i {
                    assert(requests@.push(request)[j] == requests@[j]);
                    assert(before[j] == refresh_requests(keys@, masks@.take(i as int))[j]);
                }
            }
            assert(after =~= wanted);
        }
        requests.push(request);
        i = i + 1;
    }
    proof {
        assert(masks@.take(masks@.len() as int) =~= masks@);
    }
    requests
}

/// Plans one refresh round for `servers` peers. Where no key is stale there
/// is nothing to do and no request is made. Otherwise one mask is drawn for
/// each peer, and each peer is asked to apply its mask to the shares under
/// all of `stale_keys`; the masks lie below the modulus and sum to zero
/// modulo it, so that a round which every peer completes leaves each
/// reconstructed secret as it was.
pub fn initiate_refresh(
    sharing: &AdditiveSecretSharing,
    servers: usize,
    stale_keys: &Vec<HorcrustStoreKey>,
) -> (requests: Vec<HorcrustMsgRequest>)
    requires
        servers > 1,
    ensures
        stale_keys@.len() == 0 ==> requests@.len() == 0,
        stale_keys@.len() > 0 ==> requests@.len() == servers && request_views(requests@)
            == refresh_requests(stale_keys@, masks_sent(request_views(requests@))) && all_below(
            sharing.modulus(),
            masks_sent(request_views(requests@)),
        ) && combined(sharing.modulus(), masks_sent(request_views(requests@))) == 0,
{
    if stale_keys.len() == 0 {
        return Vec::new();
    }
    let masks = sharing.generate_refreshers(servers);
    let requests = refresh_share_requests(stale_keys, &masks);
    proof {
        assert(masks_sent(refresh_requests(stale_keys@, masks@)) =~= masks@);
    }
    requests
}

/// `slice::sort` on addresses: the same addresses come back, each as often
/// as it went in, in ascending order. Text is ordered by its bytes, which is
/// the order of its characters.
#[verifier::external_body]
fn sort_addresses(addresses: &mut Vec<String>)
    ensures
        texts(final(addresses)@).to_multiset() == texts(old(addresses)@).to_multiset(),
        ascending(texts(final(addresses)@)),
{
    addresses.sort()
}

} // verus!
