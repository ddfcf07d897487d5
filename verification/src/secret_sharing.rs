//! Modular additive secret sharing: a secret is split into shares that sum to
//! it modulo a public modulus, and shares are re-randomised by masks that sum
//! to zero.

use crate::{HorcrustSecret, HorcrustShare};
use rand::rngs::ThreadRng;
use rand::Rng;
use vstd::arithmetic::div_mod::{
    lemma_add_mod_noop, lemma_mod_add_multiples_vanish, lemma_small_mod, lemma_sub_mod_noop,
};
use vstd::prelude::*;

verus! {

/// The modulus of the reference configuration.
pub const Q: u64 = 431;

/// Sum of a sequence of shares, as a mathematical integer.
pub open spec fn share_sum(shares: Seq<HorcrustShare>) -> int
    decreases shares.len(),
{
    if shares.len() == 0 {
        0
    } else {
        share_sum(shares.drop_last()) + shares.last() as int
    }
}

/// The secret that `shares` reconstruct under modulus `q`.
pub open spec fn combined(q: int, shares: Seq<HorcrustShare>) -> int {
    share_sum(shares) % q
}

/// A share after mask `r` has been applied to it under modulus `q`.
pub open spec fn refreshed(q: int, r: HorcrustShare, share: HorcrustShare) -> int {
    (r + share) % q
}

/// The share that brings `drawn` up to `total` under modulus `q`.
pub open spec fn closing_share(q: int, drawn: Seq<HorcrustShare>, total: HorcrustSecret) -> int {
    (total - share_sum(drawn)) % q
}

/// `shares` is closed on `total`: its last share is the closing share of the
/// others.
pub open spec fn closes(q: int, shares: Seq<HorcrustShare>, total: HorcrustSecret) -> bool {
    shares.len() >= 1 && shares.last() as int == closing_share(q, shares.drop_last(), total)
}

/// Every share lies in `[0, q)`.
pub open spec fn all_below(q: int, shares: Seq<HorcrustShare>) -> bool {
    forall|i: int| 0 <= i < shares.len() ==> (#[trigger] shares[i]) < q
}

/// `shares` with the mask at the same position applied to each.
pub open spec fn refreshed_shares(
    q: int,
    masks: Seq<HorcrustShare>,
    shares: Seq<HorcrustShare>,
) -> Seq<HorcrustShare>
    recommends
        masks.len() == shares.len(),
{
    Seq::new(shares.len(), |i: int| refreshed(q, masks[i], shares[i]) as HorcrustShare)
}

/// Appending one share adds it to the sum.
pub proof fn lemma_share_sum_push(shares: Seq<HorcrustShare>, share: HorcrustShare)
    ensures
        share_sum(shares.push(share)) == share_sum(shares) + share as int,
{
    assert(shares.push(share).drop_last() =~= shares);
}

/// Taking one share out takes it out of the sum.
pub proof fn lemma_share_sum_remove(shares: Seq<HorcrustShare>, i: int)
    requires
        0 <= i < shares.len(),
    ensures
        share_sum(shares) == share_sum(shares.remove(i)) + shares[i] as int,
    decreases shares.len(),
{
    if i == shares.len() - 1 {
        assert(shares.remove(i) =~= shares.drop_last());
    } else {
        lemma_share_sum_remove(shares.drop_last(), i);
        assert(shares.remove(i).drop_last() =~= shares.drop_last().remove(i));
        assert(shares.remove(i).last() == shares.last());
    }
}

/// The reconstructed secret does not depend on the order of the shares:
/// two runs that hold the same shares, each as often as the other,
/// reconstruct to the same value.
pub proof fn lemma_combine_order_independent(
    q: int,
    left: Seq<HorcrustShare>,
    right: Seq<HorcrustShare>,
)
    requires
        left.to_multiset() == right.to_multiset(),
    ensures
        share_sum(left) == share_sum(right),
        combined(q, left) == combined(q, right),
    decreases left.len(),
{
    left.to_multiset_ensures();
    right.to_multiset_ensures();
    if left.len() > 0 {
        let last = left.last();
        assert(left[left.len() - 1] == last);
        assert(left.contains(last));
        assert(left.to_multiset().count(last) > 0);
        assert(right.to_multiset().count(last) > 0);
        assert(right.contains(last));
        let i = choose|i: int| 0 <= i < right.len() && right[i] == last;
        assert(left.remove(left.len() - 1) =~= left.drop_last());
        assert(left.drop_last().to_multiset() =~= right.remove(i).to_multiset());
        lemma_combine_order_independent(q, left.drop_last(), right.remove(i));
        lemma_share_sum_remove(right, i);
    } else {
        assert(right.len() == 0);
    }
}

/// Closing a sequence of shares with its closing share makes it reconstruct
/// to the total, reduced.
pub proof fn lemma_closing_share_combines(
    q: int,
    drawn: Seq<HorcrustShare>,
    total: HorcrustSecret,
)
    requires
        0 < q <= u64::MAX,
    ensures
        0 <= closing_share(q, drawn, total) < q,
        combined(q, drawn.push(closing_share(q, drawn, total) as HorcrustShare)) == total as int
            % q,
{
    let s = share_sum(drawn);
    let last = closing_share(q, drawn, total);
    lemma_share_sum_push(drawn, last as HorcrustShare);
    lemma_add_mod_noop(s, total - s, q);
    lemma_add_mod_noop(s, (total - s) % q, q);
    lemma_small_mod(last as nat, q as nat);
}

/// Shares that are closed on a secret reconstruct to it: to the secret itself
/// where it lies below `q`, and to its remainder modulo `q` where it does
/// not.
pub proof fn lemma_split_then_combine(q: int, secret: HorcrustSecret, shares: Seq<HorcrustShare>)
    requires
        0 < q <= u64::MAX,
        closes(q, shares, secret),
    ensures
        combined(q, shares) == secret as int % q,
        secret < q ==> combined(q, shares) == secret,
{
    lemma_closing_share_combines(q, shares.drop_last(), secret);
    assert(shares =~= shares.drop_last().push(shares.last()));
    if secret < q {
        lemma_small_mod(secret as nat, q as nat);
    }
}

/// Masks that are closed on zero reconstruct to zero.
pub proof fn lemma_refreshers_cancel(q: int, masks: Seq<HorcrustShare>)
    requires
        0 < q <= u64::MAX,
        closes(q, masks, 0),
    ensures
        combined(q, masks) == 0,
{
    lemma_split_then_combine(q, 0, masks);
}

/// Refreshing every share with its mask adds the masks to the sum, modulo `q`.
pub proof fn lemma_refreshed_sum(q: int, masks: Seq<HorcrustShare>, shares: Seq<HorcrustShare>)
    requires
        0 < q <= u64::MAX,
        masks.len() == shares.len(),
    ensures
        combined(q, refreshed_shares(q, masks, shares)) == (share_sum(masks) + share_sum(shares))
            % q,
    decreases shares.len(),
{
    let out = refreshed_shares(q, masks, shares);
    if shares.len() > 0 {
        let m = masks.drop_last();
        let s = shares.drop_last();
        lemma_refreshed_sum(q, m, s);
        assert(out.drop_last() =~= refreshed_shares(q, m, s));
        let head = share_sum(m) + share_sum(s);
        let tail = masks.last() + shares.last();
        assert(out.last() as int == tail % q);
        lemma_add_mod_noop(head, tail, q);
        lemma_add_mod_noop(share_sum(out.drop_last()), tail % q, q);
        lemma_small_mod((tail % q) as nat, q as nat);
    }
}

/// Refresh preserves the reconstructed secret: where `shares` reconstruct to
/// `secret` (reduced modulo `q`) and `masks`, one for each share, reconstruct
/// to zero, the shares refreshed by those masks reconstruct to the same value.
/// A secret below `q` is therefore recovered unchanged.
pub proof fn lemma_refresh_preserves_secret(
    q: int,
    secret: HorcrustSecret,
    masks: Seq<HorcrustShare>,
    shares: Seq<HorcrustShare>,
)
    requires
        0 < q <= u64::MAX,
        masks.len() == shares.len(),
        combined(q, shares) == secret as int % q,
        combined(q, masks) == 0,
    ensures
        combined(q, refreshed_shares(q, masks, shares)) == secret as int % q,
        secret < q ==> combined(q, refreshed_shares(q, masks, shares)) == secret,
{
    lemma_refreshed_sum(q, masks, shares);
    lemma_add_mod_noop(share_sum(masks), share_sum(shares), q);
    lemma_small_mod((share_sum(shares) % q) as nat, q as nat);
    if secret < q {
        lemma_small_mod(secret as nat, q as nat);
    }
}

/// A scheme that splits a secret into shares, of which all are needed to
/// recover it, and that can re-randomise the shares in place.
pub trait SecretSharing {
    /// The secret that `shares` reconstruct.
    spec fn spec_combine(&self, shares: Seq<HorcrustShare>) -> int;

    /// The value as which the scheme shares `secret`.
    spec fn spec_shared(&self, secret: HorcrustSecret) -> int;

    /// `share` after mask `r` has been applied.
    spec fn spec_refresh_share(&self, r: HorcrustShare, share: HorcrustShare) -> int;

    /// The bound below which secrets must stay, where the scheme has one.
    spec fn spec_limit(&self) -> Option<u64>;

    /// Splits `secret` into `shares` shares that reconstruct to it.
    fn split(&self, shares: usize, secret: HorcrustSecret) -> (out: Vec<HorcrustShare>)
        requires
            shares >= 1,
        ensures
            out@.len() == shares,
            self.spec_combine(out@) == self.spec_shared(secret),
    ;

    /// Reconstructs the secret from all of its shares.
    fn combine(&self, shares: Vec<HorcrustShare>) -> (secret: HorcrustSecret)
        ensures
            secret == self.spec_combine(shares@),
    ;

    /// Applies mask `r` to `share`.
    fn refresh_share(&self, r: HorcrustShare, share: HorcrustShare) -> (out: HorcrustShare)
        ensures
            out == self.spec_refresh_share(r, share),
    ;

    /// Draws one mask for each of `shares` peers; together the masks leave
    /// every reconstructed secret as it was.
    fn generate_refreshers(&self, shares: usize) -> (out: Vec<HorcrustShare>)
        requires
            shares > 1,
        ensures
            out@.len() == shares,
            self.spec_combine(out@) == self.spec_shared(0),
    ;

    /// The bound below which secrets must stay.
    fn limit(&self) -> (bound: Option<u64>)
        ensures
            bound == self.spec_limit(),
    ;
}

/// Additive sharing modulo a fixed public modulus. Secrets are assumed to lie
/// below the modulus; larger ones are shared as their remainder.
pub struct AdditiveSecretSharing {
    q: u64,
}

impl Default for AdditiveSecretSharing {
    fn default() -> (scheme: Self)
        ensures
            scheme.modulus() == Q,
    {
        Self { q: Q }
    }
}

impl AdditiveSecretSharing {
    #[verifier::type_invariant]
    spec fn positive_modulus(self) -> bool {
        self.q > 0
    }

    /// The modulus of this scheme.
    pub closed spec fn modulus(&self) -> int {
        self.q as int
    }

    /// Appends to `drawn` the one share that makes the whole reconstruct to
    /// `total`: the Euclidean remainder of `total` less the sum of `drawn`.
    pub fn complete_shares(&self, drawn: Vec<HorcrustShare>, total: HorcrustSecret) -> (out: Vec<
        HorcrustShare,
    >)
        ensures
            0 < self.modulus() <= u64::MAX,
            out@ == drawn@.push(closing_share(self.modulus(), drawn@, total) as HorcrustShare),
            0 <= closing_share(self.modulus(), drawn@, total) < self.modulus(),
            combined(self.modulus(), out@) == total as int % self.modulus(),
    {
        proof {
            use_type_invariant(self);
        }
        let q = self.q;
        let acc = self.reduce(&drawn);
        let reduced = total % q;
        let last = if reduced >= acc {
            reduced - acc
        } else {
            q - acc + reduced
        };
        proof {
            let s = share_sum(drawn@);
            lemma_sub_mod_noop(total as int, s, q as int);
            if reduced >= acc {
                lemma_small_mod(last as nat, q as nat);
            } else {
                lemma_mod_add_multiples_vanish(reduced - acc, q as int);
                lemma_small_mod(last as nat, q as nat);
            }
            assert(last as int == closing_share(q as int, drawn@, total));
            lemma_closing_share_combines(q as int, drawn@, total);
        }
        let mut out = drawn;
        out.push(last);
        out
    }

    /// The sum of `shares`, reduced modulo the modulus.
    fn reduce(&self, shares: &Vec<HorcrustShare>) -> (acc: u64)
        ensures
            acc as int == share_sum(shares@) % self.modulus(),
            acc < self.modulus(),
    {
        proof {
            use_type_invariant(self);
            lemma_small_mod(0, self.q as nat);
        }
        let mut acc: u64 = 0;
        let mut i: usize = 0;
        while i < shares.len()
            invariant
                self.q > 0,
                0 <= i <= shares.len(),
                acc < self.q,
                acc as int == share_sum(shares@.take(i as int)) % (self.q as int),
            decreases shares.len() - i,
        {
            let share = shares[i];
            proof {
                let prefix = shares@.take(i as int);
                assert(shares@.take(i + 1) =~= prefix.push(share));
                lemma_share_sum_push(prefix, share);
                lemma_add_mod_noop(share_sum(prefix), share as int, self.q as int);
                lemma_add_mod_noop(acc as int, share as int, self.q as int);
                lemma_small_mod(acc as nat, self.q as nat);
            }
            acc = self.add_mod(acc, share);
            i = i + 1;
        }
        proof {
            assert(shares@.take(shares.len() as int) =~= shares@);
        }
        acc
    }

    /// `(a + b) mod q`, without overflow for any pair of 64-bit values.
    fn add_mod(&self, a: u64, b: u64) -> (out: u64)
        ensures
            out as int == (a + b) % self.modulus(),
            out < self.modulus(),
    {
        proof {
            use_type_invariant(self);
        }
        let wide: u128 = a as u128 + b as u128;
        let out: u128 = wide % (self.q as u128);
        out as u64
    }

    /// Draws `count` values below the modulus.
    fn draw(&self, count: usize) -> (out: Vec<HorcrustShare>)
        ensures
            out@.len() == count,
            all_below(self.modulus(), out@),
    {
        proof {
            use_type_invariant(self);
        }
        let mut rng = rand::thread_rng();
        let mut out: Vec<HorcrustShare> = Vec::new();
        let mut i: usize = 0;
        while i < count
            invariant
                self.q > 0,
                0 <= i <= count,
                out@.len() == i,
                all_below(self.q as int, out@),
            decreases count - i,
        {
            let share = gen_below(&mut rng, self.q);
            out.push(share);
            i = i + 1;
        }
        out
    }
}

impl SecretSharing for AdditiveSecretSharing {
    open spec fn spec_combine(&self, shares: Seq<HorcrustShare>) -> int {
        combined(self.modulus(), shares)
    }

    open spec fn spec_shared(&self, secret: HorcrustSecret) -> int {
        secret as int % self.modulus()
    }

    open spec fn spec_refresh_share(&self, r: HorcrustShare, share: HorcrustShare) -> int {
        refreshed(self.modulus(), r, share)
    }

    open spec fn spec_limit(&self) -> Option<u64> {
        Some(self.modulus() as u64)
    }

    /// Draws all shares but the last uniformly below the modulus and closes
    /// them with the share that makes the sum equal to the secret. A secret
    /// below the modulus is reconstructed unchanged, a larger one as its
    /// remainder.
    fn split(&self, shares: usize, secret: HorcrustSecret) -> (out: Vec<HorcrustShare>)
        ensures
            0 < self.modulus() <= u64::MAX,
            all_below(self.modulus(), out@),
            closes(self.modulus(), out@, secret),
            combined(self.modulus(), out@) == secret as int % self.modulus(),
            secret < self.modulus() ==> combined(self.modulus(), out@) == secret,
            shares == 1 ==> out@[0] as int == secret as int % self.modulus(),
    {
        let drawn = self.draw(shares - 1);
        let out = self.complete_shares(drawn, secret);
        proof {
            assert(out@.drop_last() =~= drawn@);
            lemma_split_then_combine(self.modulus(), secret, out@);
            if shares == 1 {
                assert(drawn@ =~= Seq::<HorcrustShare>::empty());
            }
        }
        out
    }

    /// Folds the shares with addition modulo the modulus.
    fn combine(&self, shares: Vec<HorcrustShare>) -> (secret: HorcrustSecret)
        ensures
            0 < self.modulus() <= u64::MAX,
            secret as int == share_sum(shares@) % self.modulus(),
            secret < self.modulus(),
    {
        proof {
            use_type_invariant(self);
        }
        self.reduce(&shares)
    }

    /// `(r + share) mod q`.
    fn refresh_share(&self, r: HorcrustShare, share: HorcrustShare) -> (out: HorcrustShare)
        ensures
            out < self.modulus(),
    {
        self.add_mod(r, share)
    }

    /// Draws all masks but the last uniformly below the modulus and closes
    /// them with the additive inverse of their sum.
    fn generate_refreshers(&self, shares: usize) -> (out: Vec<HorcrustShare>)
        ensures
            0 < self.modulus() <= u64::MAX,
            all_below(self.modulus(), out@),
            closes(self.modulus(), out@, 0),
            combined(self.modulus(), out@) == 0,
    {
        let drawn = self.draw(shares - 1);
        let out = self.complete_shares(drawn, 0);
        proof {
            assert(out@.drop_last() =~= drawn@);
            lemma_refreshers_cancel(self.modulus(), out@);
        }
        out
    }

    fn limit(&self) -> (bound: Option<u64>)
        ensures
            bound == Some(self.modulus() as u64),
    {
        Some(self.q)
    }
}

/// `rand::Rng::gen_range` on the half-open range from zero to `q`: some value
/// of that range comes back. Which one is left open.
#[verifier::external_body]
fn gen_below(rng: &mut ThreadRng, q: u64) -> (out: u64)
    requires
        q > 0,
    ensures
        out < q,
{
    rng.gen_range(0..q)
}

} // verus!
