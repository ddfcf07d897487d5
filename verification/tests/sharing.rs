use horcrust::secret_sharing::Q;
use horcrust::{AdditiveSecretSharing, HorcrustShare, SecretSharing};

#[test]
fn test_additive_secret_sharing() {
    let secret_sharing = AdditiveSecretSharing::default();
    let shares = secret_sharing.split(3, 10);
    let combined_secret = secret_sharing.combine(shares);
    assert_eq!(combined_secret, 10);
    let shares = secret_sharing.split(3, 0);
    let combined_secret = secret_sharing.combine(shares);
    assert_eq!(combined_secret, 0);
    let shares = secret_sharing.split(3, Q + 1);
    let combined_secret = secret_sharing.combine(shares);
    assert_eq!(combined_secret, 1);
    let shares = secret_sharing.split(3, Q - 1);
    let combined_secret = secret_sharing.combine(shares);
    assert_eq!(combined_secret, Q - 1);

    let shares_count = 3;
    let shares: Vec<u64> = secret_sharing.split(shares_count, 10);

    // generate random refreshers:
    let refreshes = secret_sharing.generate_refreshers(shares_count);
    // apply them to the shares
    let shares: Vec<HorcrustShare> = shares
        .into_iter()
        .zip(refreshes.clone())
        .map(|(share, r)| secret_sharing.refresh_share(r, share))
        .collect();
    // try to recombine
    let combined_secret = secret_sharing.combine(shares);
    assert_eq!(combined_secret, 10);
}

#[test]
fn modulus_is_431() {
    assert_eq!(Q, 431);
    assert_eq!(AdditiveSecretSharing::default().limit(), Some(431));
}

#[test]
fn split_gives_the_asked_number_of_shares_below_the_modulus() {
    let sharing = AdditiveSecretSharing::default();
    for n in 1..20usize {
        for secret in [0u64, 1, 10, 430, 431, 432, 1000, u64::MAX] {
            let shares = sharing.split(n, secret);
            assert_eq!(shares.len(), n);
            assert!(shares.iter().all(|s| *s < Q));
            assert_eq!(sharing.combine(shares), secret % Q);
        }
    }
}

#[test]
fn split_into_one_share_is_the_secret() {
    let sharing = AdditiveSecretSharing::default();
    assert_eq!(sharing.split(1, 10), vec![10]);
    assert_eq!(sharing.split(1, 0), vec![0]);
    assert_eq!(sharing.split(1, 430), vec![430]);
    assert_eq!(sharing.split(1, 432), vec![1]);
}

#[test]
fn secret_below_modulus_is_recovered_unchanged() {
    let sharing = AdditiveSecretSharing::default();
    for secret in 0..Q {
        assert_eq!(sharing.combine(sharing.split(4, secret)), secret);
    }
}

#[test]
fn secret_outside_range_wraps_around() {
    let sharing = AdditiveSecretSharing::default();
    assert_eq!(sharing.combine(sharing.split(3, 431)), 0);
    assert_eq!(sharing.combine(sharing.split(3, 862)), 0);
    assert_eq!(sharing.combine(sharing.split(3, 1000)), 138);
    assert_eq!(sharing.combine(sharing.split(2, u64::MAX)), u64::MAX % 431);
}

#[test]
fn refreshers_sum_to_zero() {
    let sharing = AdditiveSecretSharing::default();
    for n in 2..30usize {
        let masks = sharing.generate_refreshers(n);
        assert_eq!(masks.len(), n);
        assert!(masks.iter().all(|m| *m < Q));
        assert_eq!(masks.iter().sum::<u64>() % Q, 0);
        assert_eq!(sharing.combine(masks), 0);
    }
}

#[test]
fn refresh_preserves_the_secret() {
    let sharing = AdditiveSecretSharing::default();
    for n in 2..10usize {
        for secret in [0u64, 10, 430] {
            let shares = sharing.split(n, secret);
            let masks = sharing.generate_refreshers(n);
            let refreshed: Vec<u64> = shares
                .iter()
                .zip(masks.iter())
                .map(|(share, mask)| sharing.refresh_share(*mask, *share))
                .collect();
            assert_eq!(sharing.combine(refreshed), secret);
        }
    }
}

#[test]
fn split_three_ways_then_refresh_keeps_ten() {
    let sharing = AdditiveSecretSharing::default();
    let shares = sharing.split(3, 10);
    assert_eq!(shares.len(), 3);
    assert_eq!(shares.iter().sum::<u64>() % 431, 10);
    let masks = sharing.generate_refreshers(3);
    let refreshed: Vec<u64> = shares
        .into_iter()
        .zip(masks)
        .map(|(share, mask)| sharing.refresh_share(mask, share))
        .collect();
    assert_eq!(sharing.combine(refreshed), 10);
}

#[test]
fn complete_shares_closes_with_the_euclidean_remainder() {
    let sharing = AdditiveSecretSharing::default();
    // 10 - (5 + 7) = -2, and -2 mod 431 = 429
    assert_eq!(sharing.complete_shares(vec![5, 7], 10), vec![5, 7, 429]);
    assert_eq!(sharing.complete_shares(vec![], 10), vec![10]);
    assert_eq!(sharing.complete_shares(vec![], 431), vec![0]);
    assert_eq!(sharing.complete_shares(vec![430, 430], 0), vec![430, 430, 2]);
    assert_eq!(sharing.complete_shares(vec![3, 4], 7), vec![3, 4, 0]);
    // values at the edge of the type do not overflow
    let closed = sharing.complete_shares(vec![u64::MAX, u64::MAX], u64::MAX);
    let last = closed[2];
    assert!(last < Q);
    assert_eq!((2 * (u64::MAX % Q) + last) % Q, u64::MAX % Q);
}

#[test]
fn combine_sums_modulo_q() {
    let sharing = AdditiveSecretSharing::default();
    assert_eq!(sharing.combine(vec![]), 0);
    assert_eq!(sharing.combine(vec![430]), 430);
    assert_eq!(sharing.combine(vec![430, 1]), 0);
    assert_eq!(sharing.combine(vec![200, 200, 200]), 169);
    assert_eq!(sharing.combine(vec![1, 2, 3]), sharing.combine(vec![3, 1, 2]));
    assert_eq!(
        sharing.combine(vec![u64::MAX, u64::MAX]),
        ((u64::MAX % 431) * 2) % 431
    );
}

#[test]
fn refresh_share_adds_modulo_q() {
    let sharing = AdditiveSecretSharing::default();
    assert_eq!(sharing.refresh_share(2, 1), 3);
    assert_eq!(sharing.refresh_share(430, 1), 0);
    assert_eq!(sharing.refresh_share(430, 430), 429);
    assert_eq!(sharing.refresh_share(0, 7), 7);
    assert_eq!(sharing.refresh_share(u64::MAX, u64::MAX), ((u64::MAX % 431) * 2) % 431);
}

#[test]
fn splits_differ_from_run_to_run() {
    let sharing = AdditiveSecretSharing::default();
    let first = sharing.split(16, 10);
    let differs = (0..20).any(|_| sharing.split(16, 10) != first);
    assert!(differs);
}
