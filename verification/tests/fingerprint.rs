use std::collections::HashSet;

use qpackt::fingerprint::{create_from_init, loopback_octets, multiply, DailySeed, VisitorHash};
use rand::{thread_rng, Rng, RngCore};

#[test]
fn test_conflicts() {
    let count: usize = 1_000_000;
    let mut hashes: HashSet<VisitorHash> = HashSet::with_capacity(count);
    let init = thread_rng().next_u64();
    for _ in 0..count {
        let hash = create_from_init(&random_ip(), &random_ident(), init);
        hashes.insert(hash);
    }
    let conflicts = count - hashes.len();
    // Make sure conflicts happen less often than 1:100k. So in other words, less than 1 in 100k (0.001%) visits will
    // be recognized as a continuation of some other visit.
    let ratio = if conflicts == 0 { usize::MAX } else { count / conflicts };
    assert!(ratio > 100_000);
}

fn random_ip() -> Vec<u8> {
    vec![random_byte(), random_byte(), random_byte(), random_byte()]
}

fn random_ident() -> Vec<u8> {
    let len = thread_rng().gen_range(0..128);
    (0..len).map(|_| random_byte()).collect()
}

fn random_byte() -> u8 {
    thread_rng().gen_range(0..=255)
}

#[test]
fn multiply_commits_only_nonzero_steps() {
    // One step: 5 * C + (b & 0x3F), all small enough not to wrap.
    let mut h: u64 = 1;
    multiply(&mut h, &[0x41]);
    assert_eq!(h, 67280421310721u64.wrapping_add(1));
    // A zero accumulator stays zero only until a step produces something
    // else; bytes whose low six bits are zero leave it at zero.
    let mut z: u64 = 0;
    multiply(&mut z, &[0x40, 0x80, 0xC0]);
    assert_eq!(z, 0);
    let mut z2: u64 = 0;
    multiply(&mut z2, &[0x01]);
    assert_eq!(z2, 1);
}

#[test]
fn hash_depends_on_all_inputs() {
    let a = create_from_init(&vec![1, 2, 3, 4], &vec![7, 7], 42);
    let b = create_from_init(&vec![1, 2, 3, 5], &vec![7, 7], 42);
    let c = create_from_init(&vec![1, 2, 3, 4], &vec![7, 8], 42);
    let d = create_from_init(&vec![1, 2, 3, 4], &vec![7, 7], 43);
    assert_ne!(a, b);
    assert_ne!(a, c);
    assert_ne!(a, d);
}

#[test]
fn loopback_stands_in_for_missing_peer() {
    assert_eq!(loopback_octets(), vec![127, 0, 0, 1]);
}

#[test]
fn fresh_seed_is_nonzero_and_lasts_a_day() {
    let now: u64 = 1_700_000_000;
    let seed = DailySeed::fresh(now);
    assert!(seed.init >= 1);
    assert_eq!(seed.expiration, now + 24 * 60 * 60);
    assert_eq!(seed.refresh_delay(now), 24 * 60 * 60);
    assert_eq!(seed.refresh_delay(seed.expiration + 5), 0);
}

#[test]
fn seed_rotation_produces_new_seed() {
    // An expired seed is replaced by a fresh one: non-zero and a full day
    // of validity from the rotation moment.
    let now: u64 = 1_700_000_000;
    let stale = DailySeed { init: 99, expiration: now - 1 };
    assert_eq!(stale.refresh_delay(now), 0);
    let fresh = DailySeed::fresh(now);
    assert!(fresh.init != 0);
    assert!(fresh.expiration > now);
}
