//! What a peer does with one request: the change to its store, and the
//! response.

use crate::messages::{HorcrustMsgRequest, HorcrustMsgResponse, RequestModel, ResponseModel};
use crate::horcrust_msg_request::Request;
use crate::messages_utils::{msg_error_response, msg_share_response, msg_success_response};
use crate::secret_sharing::{refreshed, AdditiveSecretSharing, SecretSharing};
use crate::shares_db::{inserted, lookup, modified, ShareRecord, SharesDatabase, Timestamp};
use crate::{HorcrustShare, HorcrustStoreKey};
use vstd::prelude::*;

verus! {

/// What a peer answers when asked for a key that it does not hold.
pub const KEY_NOT_FOUND: &'static str = "Key not found. Use store-key to store a key first.";

/// `records` after the mask was applied, at `now`, to the share under each
/// of `keys` in turn. A key that occurs twice has the mask applied twice; a
/// key that the store does not hold is passed over.
pub open spec fn refreshed_records(
    records: Map<HorcrustStoreKey, ShareRecord>,
    keys: Seq<HorcrustStoreKey>,
    mask: HorcrustShare,
    q: int,
    now: Timestamp,
) -> Map<HorcrustStoreKey, ShareRecord>
    decreases keys.len(),
{
    if keys.len() == 0 {
        records
    } else {
        let before = refreshed_records(records, keys.drop_last(), mask, q, now);
        let key = keys.last();
        modified(before, key, refreshed(q, mask, before[key].share) as HorcrustShare, now)
    }
}

/// The store after `request` was served at `now`.
pub open spec fn served_records(
    records: Map<HorcrustStoreKey, ShareRecord>,
    q: int,
    request: Option<RequestModel>,
    now: Timestamp,
) -> Map<HorcrustStoreKey, ShareRecord> {
    match request {
        Some(RequestModel::PutShare { key, share }) => inserted(records, key, share, now),
        Some(RequestModel::Refresh { keys, mask }) => refreshed_records(
            records,
            keys,
            mask,
            q,
            now,
        ),
        Some(RequestModel::GetShare { key }) => records,
        None => records,
    }
}

/// The response to `request`, served from `records`. A request that asks for
/// nothing gets none.
pub open spec fn served_response(
    records: Map<HorcrustStoreKey, ShareRecord>,
    request: Option<RequestModel>,
) -> Option<ResponseModel> {
    match request {
        Some(RequestModel::PutShare { key, share }) => Some(
            ResponseModel::Error { flag: false, message: Seq::empty() },
        ),
        Some(RequestModel::Refresh { keys, mask }) => Some(
            ResponseModel::Error { flag: false, message: Seq::empty() },
        ),
        Some(RequestModel::GetShare { key }) => match lookup(records, key) {
            Some(share) => Some(ResponseModel::Share { share }),
            None => Some(ResponseModel::Error { flag: true, message: KEY_NOT_FOUND@ }),
        },
        None => None,
    }
}

/// The response to a key that is not held says why.
pub proof fn lemma_key_not_found_says_why()
    ensures
        KEY_NOT_FOUND@.len() > 0,
{
    reveal_strlit("Key not found. Use store-key to store a key first.");
}

/// A refresh leaves the set of keys as it was, moves no share out of the
/// range below the modulus, and changes nothing under a key that it does not
/// name.
pub proof fn lemma_refreshed_records_keys(
    records: Map<HorcrustStoreKey, ShareRecord>,
    keys: Seq<HorcrustStoreKey>,
    mask: HorcrustShare,
    q: int,
    now: Timestamp,
)
    ensures
        refreshed_records(records, keys, mask, q, now).dom() == records.dom(),
        forall|k: HorcrustStoreKey|
            records.contains_key(k) && !keys.contains(k) ==> #[trigger] refreshed_records(
                records,
                keys,
                mask,
                q,
                now,
            )[k] == records[k],
    decreases keys.len(),
{
    if keys.len() > 0 {
        let before = refreshed_records(records, keys.drop_last(), mask, q, now);
        lemma_refreshed_records_keys(records, keys.drop_last(), mask, q, now);
        let after = refreshed_records(records, keys, mask, q, now);
        assert(after.dom() =~= records.dom());
        assert forall|k: HorcrustStoreKey|
            records.contains_key(k) && !keys.contains(k) implies #[trigger] after[k]
            == records[k] by {
            assert(keys.last() == keys[keys.len() - 1]);
            assert forall|i: int| 0 <= i < keys.drop_last().len() implies keys.drop_last()[i]
                != k by {
                assert(keys[i] != k);
            }
        }
    }
}

/// A refresh that names a held key once applies the mask to its share once,
/// and stamps it.
pub proof fn lemma_refreshed_records_once(
    records: Map<HorcrustStoreKey, ShareRecord>,
    keys: Seq<HorcrustStoreKey>,
    mask: HorcrustShare,
    q: int,
    now: Timestamp,
    key: HorcrustStoreKey,
)
    requires
        keys.no_duplicates(),
        keys.contains(key),
        records.contains_key(key),
    ensures
        refreshed_records(records, keys, mask, q, now)[key] == (ShareRecord {
            share: refreshed(q, mask, records[key].share) as HorcrustShare,
            last_refreshed: now,
        }),
    decreases keys.len(),
{
    let rest = keys.drop_last();
    let before = refreshed_records(records, rest, mask, q, now);
    lemma_refreshed_records_keys(records, rest, mask, q, now);
    if keys.last() == key {
        assert forall|i: int| 0 <= i < rest.len() implies rest[i] != key by {
            assert(keys[i] != keys[keys.len() - 1]);
        }
        assert(!rest.contains(key));
    } else {
        let i = choose|i: int| 0 <= i < keys.len() && keys[i] == key;
        assert(rest[i] == key);
        assert(rest.contains(key));
        lemma_refreshed_records_once(records, rest, mask, q, now, key);
    }
}

/// Serves one request at time `now`: a put overwrites the share under its
/// key, a get reads it, a refresh applies its mask to the share under each
/// key that it names. A request that asks for nothing changes nothing and
/// gets no response.
pub fn handle_request_at(
    db: &mut SharesDatabase,
    sharing: &AdditiveSecretSharing,
    request: HorcrustMsgRequest,
    now: Timestamp,
) -> (response: Option<HorcrustMsgResponse>)
    ensures
        final(db)@ == served_records(old(db)@, sharing.modulus(), request@, now),
        response matches Some(r) ==> r@ == served_response(old(db)@, request@),
        response is None ==> served_response(old(db)@, request@) is None,
{
    match request.request {
        Some(Request::PutShare(put_share)) => {
            db.insert_at(put_share.key, put_share.share, now);
            Some(msg_success_response())
        },
        Some(Request::GetShare(get_share)) => {
            match db.get(get_share.key) {
                Some(share) => Some(msg_share_response(share)),
                None => Some(msg_error_response(KEY_NOT_FOUND)),
            }
        },
        Some(Request::Refresh(refresh)) => {
            let mask = refresh.random;
            let mut i: usize = 0;
            while i < refresh.key.len()
                invariant
                    0 <= i <= refresh.key@.len(),
                    db@ == refreshed_records(
                        old(db)@,
                        refresh.key@.take(i as int),
                        mask,
                        sharing.modulus(),
                        now,
                    ),
                decreases refresh.key@.len() - i,
            {
                let key = refresh.key[i];
                let ghost before = db@;
                let apply = |share: HorcrustShare| -> (out: HorcrustShare)
                    ensures
                        out == refreshed(sharing.modulus(), mask, share),
                    { sharing.refresh_share(mask, share) };
                db.modify_at(key, apply, now);
                proof {
                    let prefix = refresh.key@.take(i + 1);
                    assert(prefix.drop_last() =~= refresh.key@.take(i as int));
                    assert(prefix.last() == key);
                }
                i = i + 1;
            }
            proof {
                assert(refresh.key@.take(refresh.key@.len() as int) =~= refresh.key@);
            }
            Some(msg_success_response())
        },
        None => None,
    }
}

/// Serves one request, stamped with the store's clock.
pub fn handle_request(
    db: &mut SharesDatabase,
    sharing: &AdditiveSecretSharing,
    request: HorcrustMsgRequest,
) -> (response: Option<HorcrustMsgResponse>)
    ensures
        exists|now: Timestamp|
            final(db)@ == served_records(old(db)@, sharing.modulus(), request@, now),
        response matches Some(r) ==> r@ == served_response(old(db)@, request@),
        response is None ==> served_response(old(db)@, request@) is None,
{
    let now = db.now();
    handle_request_at(db, sharing, request, now)
}

} // verus!
