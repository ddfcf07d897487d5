//! The in-memory store of one peer: for each key the share it holds and the
//! time at which that share was last written.

use crate::{HorcrustShare, HorcrustStoreKey};
use std::collections::HashMap;
use std::time::Instant;
use vstd::std_specs::iter::IteratorSpec;
use vstd::prelude::*;

verus! {

/// A point in time, in nanoseconds on the store's own monotonic clock.
pub type Timestamp = u128;

/// Age, in nanoseconds, beyond which a share is a candidate for refreshing:
/// five seconds.
pub const REFRESH_THRESHOLD: u128 = 5_000_000_000;

/// What the store holds for one key.
#[derive(Clone, Copy, Debug)]
pub struct ShareRecord {
    pub share: HorcrustShare,
    pub last_refreshed: Timestamp,
}

/// A record written at `last_refreshed` is stale at `now` when more than the
/// threshold has passed since.
pub open spec fn is_stale(last_refreshed: Timestamp, now: Timestamp) -> bool {
    now - last_refreshed > REFRESH_THRESHOLD
}

/// The keys of `records` that are stale at `now`.
pub open spec fn stale_set(records: Map<HorcrustStoreKey, ShareRecord>, now: Timestamp) -> Set<
    HorcrustStoreKey,
> {
    Set::new(|k: HorcrustStoreKey| records.contains_key(k) && is_stale(records[k].last_refreshed, now))
}

/// `records` after `share` was put under `key` at `now`.
pub open spec fn inserted(
    records: Map<HorcrustStoreKey, ShareRecord>,
    key: HorcrustStoreKey,
    share: HorcrustShare,
    now: Timestamp,
) -> Map<HorcrustStoreKey, ShareRecord> {
    records.insert(key, ShareRecord { share, last_refreshed: now })
}

/// `records` after the share under `key`, if there is one, was replaced by
/// `share` at `now`.
pub open spec fn modified(
    records: Map<HorcrustStoreKey, ShareRecord>,
    key: HorcrustStoreKey,
    share: HorcrustShare,
    now: Timestamp,
) -> Map<HorcrustStoreKey, ShareRecord> {
    if records.contains_key(key) {
        records.insert(key, ShareRecord { share, last_refreshed: now })
    } else {
        records
    }
}

/// The share that a lookup of `key` gives.
pub open spec fn lookup(records: Map<HorcrustStoreKey, ShareRecord>, key: HorcrustStoreKey) -> Option<
    HorcrustShare,
> {
    if records.contains_key(key) {
        Some(records[key].share)
    } else {
        None
    }
}

/// A share that was put under a key is the one that a lookup of that key
/// gives, and other keys are as they were.
pub proof fn lemma_insert_then_get(
    records: Map<HorcrustStoreKey, ShareRecord>,
    key: HorcrustStoreKey,
    share: HorcrustShare,
    now: Timestamp,
    other: HorcrustStoreKey,
)
    ensures
        lookup(inserted(records, key, share, now), key) == Some(share),
        other != key ==> lookup(inserted(records, key, share, now), other) == lookup(
            records,
            other,
        ),
{
}

/// After a share was put under a key and then modified to `f(share)`, a
/// lookup gives `f(share)`; modifying a key that the store does not hold
/// changes nothing.
pub proof fn lemma_insert_modify_get(
    records: Map<HorcrustStoreKey, ShareRecord>,
    key: HorcrustStoreKey,
    share: HorcrustShare,
    f: spec_fn(HorcrustShare) -> HorcrustShare,
    put_at: Timestamp,
    modified_at: Timestamp,
    absent: HorcrustStoreKey,
)
    requires
        !records.contains_key(absent),
    ensures
        lookup(
            modified(inserted(records, key, share, put_at), key, f(share), modified_at),
            key,
        ) == Some(f(share)),
        forall|any: HorcrustShare| modified(records, absent, any, modified_at) == records,
{
}

/// A key written at `written` is not stale up to and including the moment
/// `written + REFRESH_THRESHOLD`, and stale at every later moment.
pub proof fn lemma_staleness(
    records: Map<HorcrustStoreKey, ShareRecord>,
    key: HorcrustStoreKey,
    share: HorcrustShare,
    written: Timestamp,
    now: Timestamp,
)
    ensures
        now <= written + REFRESH_THRESHOLD ==> !stale_set(
            inserted(records, key, share, written),
            now,
        ).contains(key),
        now > written + REFRESH_THRESHOLD ==> stale_set(
            inserted(records, key, share, written),
            now,
        ).contains(key),
{
}

/// A write at a time no earlier than any earlier write moves no time stamp
/// back: under every key that was held, the share is stamped no earlier
/// after a put or a modification than before it.
pub proof fn lemma_stamps_move_forward(
    records: Map<HorcrustStoreKey, ShareRecord>,
    key: HorcrustStoreKey,
    share: HorcrustShare,
    now: Timestamp,
    held: HorcrustStoreKey,
)
    requires
        records.contains_key(held),
        records.contains_key(key) ==> records[key].last_refreshed <= now,
    ensures
        inserted(records, key, share, now)[held].last_refreshed >= records[held].last_refreshed,
        modified(records, key, share, now)[held].last_refreshed >= records[held].last_refreshed,
{
}

/// What a filter keeps satisfies the predicate.
proof fn lemma_filter_keeps_only<A>(s: Seq<A>, pred: spec_fn(A) -> bool, elem: A)
    requires
        s.filter(pred).contains(elem),
    ensures
        pred(elem),
    decreases s.len(),
{
    reveal(Seq::filter);
    if s.len() > 0 {
        let rest = s.drop_last();
        if !(pred(s.last()) && s.last() == elem) {
            if pred(s.last()) {
                let i = choose|i: int| 0 <= i < s.filter(pred).len() && s.filter(pred)[i] == elem;
                assert(rest.filter(pred)[i] == elem);
            }
            lemma_filter_keeps_only(rest, pred, elem);
        }
    }
}

/// A filter of a sequence without duplicates has none either.
proof fn lemma_filter_no_duplicates<A>(s: Seq<A>, pred: spec_fn(A) -> bool)
    requires
        s.no_duplicates(),
    ensures
        s.filter(pred).no_duplicates(),
    decreases s.len(),
{
    reveal(Seq::filter);
    if s.len() > 0 {
        let rest = s.drop_last();
        lemma_filter_no_duplicates(rest, pred);
        if pred(s.last()) {
            if rest.filter(pred).contains(s.last()) {
                rest.lemma_filter_contains_rev(pred, s.last());
                let i = choose|i: int| 0 <= i < rest.len() && rest[i] == s.last();
                assert(s[i] == s[s.len() - 1]);
            }
        }
    }
}

/// The stale ones among all keys of the store, each taken once, are the
/// store's stale set.
proof fn lemma_stale_keys_found(
    records: Map<HorcrustStoreKey, ShareRecord>,
    now: Timestamp,
    all: Seq<HorcrustStoreKey>,
    stale: spec_fn(HorcrustStoreKey) -> bool,
    keys: Seq<HorcrustStoreKey>,
)
    requires
        all.no_duplicates(),
        all.to_set() == records.dom(),
        stale == |k: HorcrustStoreKey| is_stale(records[k].last_refreshed, now),
        keys == all.filter(stale),
    ensures
        keys.no_duplicates(),
        keys.to_set() == stale_set(records, now),
{
    lemma_filter_no_duplicates(all, stale);
    assert forall|k: HorcrustStoreKey|
        keys.to_set().contains(k) == stale_set(records, now).contains(k) by {
        if keys.contains(k) {
            all.lemma_filter_contains_rev(stale, k);
            lemma_filter_keeps_only(all, stale, k);
            assert(all.to_set().contains(k));
        }
        if stale_set(records, now).contains(k) {
            assert(all.to_set().contains(k));
            let i = choose|i: int| 0 <= i < all.len() && all[i] == k;
            all.lemma_filter_contains(stale, i);
        }
    }
    assert(keys.to_set() =~= stale_set(records, now));
}

/// The shares that one peer holds, each with the time of its last write.
pub struct SharesDatabase {
    records: HashMap<HorcrustStoreKey, ShareRecord>,
    started: Instant,
}

impl View for SharesDatabase {
    type V = Map<HorcrustStoreKey, ShareRecord>;

    closed spec fn view(&self) -> Map<HorcrustStoreKey, ShareRecord> {
        self.records@
    }
}

impl Default for SharesDatabase {
    fn default() -> (db: Self)
        ensures
            db@ == Map::<HorcrustStoreKey, ShareRecord>::empty(),
    {
        SharesDatabase::new()
    }
}

impl SharesDatabase {
    /// An empty store, whose clock starts now.
    pub fn new() -> (db: Self)
        ensures
            db@ == Map::<HorcrustStoreKey, ShareRecord>::empty(),
    {
        Self { records: HashMap::new(), started: Instant::now() }
    }

    /// The time that has passed on the store's clock.
    pub(crate) fn now(&self) -> (now: Timestamp) {
        self.started.elapsed().as_nanos()
    }

    /// The keys whose shares are stale at `now`, each once, in no particular
    /// order.
    pub fn stale_keys_at(&self, now: Timestamp) -> (keys: Vec<HorcrustStoreKey>)
        ensures
            keys@.no_duplicates(),
            keys@.to_set() == stale_set(self@, now),
    {
        let ghost stale = |k: HorcrustStoreKey| is_stale(self.records@[k].last_refreshed, now);
        let mut keys: Vec<HorcrustStoreKey> = Vec::new();
        proof {
            broadcast use vstd::std_specs::hash::axiom_spec_keys_iter;

            assert(Seq::<HorcrustStoreKey>::empty().filter(stale) =~= Seq::empty()) by {
                reveal(Seq::filter);
            }
            assert(self.records.keys().remaining().unref().take(0) =~= Seq::empty());
            assert(self.records.keys().remaining().len() == 0 ==> keys@.to_set() == stale_set(
                self@,
                now,
            )) by {
                let all = self.records.keys().remaining().unref();
                if all.len() == 0 {
                    assert(all =~= Seq::empty());
                    lemma_stale_keys_found(self@, now, all, stale, keys@);
                }
            }
        }
        for key in it: self.records.keys()
            invariant
                stale == |k: HorcrustStoreKey| is_stale(self.records@[k].last_refreshed, now),
                it.seq().no_duplicates(),
                it.seq().unref().to_set() == self.records@.dom(),
                keys@ == it.seq().unref().take(it.index()).filter(stale),
                it.index() == it.seq().len() ==> keys@.no_duplicates() && keys@.to_set()
                    == stale_set(self@, now),
        {
            proof {
                assert(it.seq().unref()[it.index()] == *key);
                assert(self.records@.dom().contains(*key)) by {
                    let all = it.seq().unref();
                    assert(all.contains(all[it.index()]));
                }
                it.seq().unref().lemma_take_succ_push(it.index());
                it.seq().unref().take(it.index()).lemma_filter_push(*key, stale);
                assert(it.index() + 1 == it.seq().len() ==> {
                    let found = it.seq().unref().take(it.index() + 1).filter(stale);
                    found.no_duplicates() && found.to_set() == stale_set(self@, now)
                }) by {
                    let all = it.seq().unref();
                    if it.index() + 1 == all.len() {
                        assert(all.take(it.index() + 1) =~= all);
                        assert forall|i: int, j: int|
                            0 <= i < all.len() && 0 <= j < all.len() && i != j implies all[i]
                            != all[j] by {
                            assert(it.seq()[i] != it.seq()[j]);
                        }
                        lemma_stale_keys_found(self@, now, all, stale, all.filter(stale));
                    }
                }
            }
            match self.records.get(key) {
                Some(record) => {
                    if now > record.last_refreshed && now - record.last_refreshed
                        > REFRESH_THRESHOLD {
                        keys.push(*key);
                    }
                },
                None => {},
            }
        }
        keys
    }

    /// The keys whose shares are stale by the store's clock.
    pub fn stale_keys(&self) -> (keys: Vec<HorcrustStoreKey>)
        ensures
            keys@.no_duplicates(),
            exists|now: Timestamp| keys@.to_set() == stale_set(self@, now),
    {
        let now = self.now();
        self.stale_keys_at(now)
    }

    /// Puts `share` under `key` at time `now`, in place of whatever was
    /// there.
    pub fn insert_at(&mut self, key: HorcrustStoreKey, share: HorcrustShare, now: Timestamp)
        ensures
            final(self)@ == inserted(old(self)@, key, share, now),
    {
        self.records.insert(key, ShareRecord { share, last_refreshed: now });
    }

    /// Puts `share` under `key`, in place of whatever was there, and stamps
    /// it with the store's clock.
    pub fn insert(&mut self, key: HorcrustStoreKey, share: HorcrustShare)
        ensures
            exists|now: Timestamp| final(self)@ == inserted(old(self)@, key, share, now),
    {
        let now = self.now();
        self.insert_at(key, share, now);
    }

    /// A copy of the share under `key`, if the store holds one.
    pub fn get(&self, key: HorcrustStoreKey) -> (share: Option<HorcrustShare>)
        ensures
            share == lookup(self@, key),
    {
        match self.records.get(&key) {
            Some(record) => Some(record.share),
            None => None,
        }
    }

    /// Replaces the share under `key` by what `f` makes of it and stamps it
    /// with `now`. A key that the store does not hold is left alone, and `f`
    /// is not called.
    pub fn modify_at<F>(&mut self, key: HorcrustStoreKey, f: F, now: Timestamp) where
        F: Fn(HorcrustShare) -> HorcrustShare,

        requires
            old(self)@.contains_key(key) ==> call_requires(f, (old(self)@[key].share,)),
        ensures
            !old(self)@.contains_key(key) ==> final(self)@ == old(self)@,
            old(self)@.contains_key(key) ==> final(self)@.contains_key(key) && call_ensures(
                f,
                (old(self)@[key].share,),
                final(self)@[key].share,
            ) && final(self)@ == modified(old(self)@, key, final(self)@[key].share, now),
    {
        let current = match self.records.get(&key) {
            Some(record) => record.share,
            None => {
                return ;
            },
        };
        let share = f(current);
        self.records.insert(key, ShareRecord { share, last_refreshed: now });
    }

    /// Replaces the share under `key` by what `f` makes of it and stamps it
    /// with the store's clock. A key that the store does not hold is left
    /// alone.
    pub fn modify<F>(&mut self, key: HorcrustStoreKey, f: F) where
        F: Fn(HorcrustShare) -> HorcrustShare,

        requires
            old(self)@.contains_key(key) ==> call_requires(f, (old(self)@[key].share,)),
        ensures
            !old(self)@.contains_key(key) ==> final(self)@ == old(self)@,
            old(self)@.contains_key(key) ==> final(self)@.contains_key(key) && call_ensures(
                f,
                (old(self)@[key].share,),
                final(self)@[key].share,
            ) && exists|now: Timestamp|
                final(self)@ == modified(old(self)@, key, final(self)@[key].share, now),
    {
        let now = self.now();
        self.modify_at(key, f, now);
    }
}

} // verus!
