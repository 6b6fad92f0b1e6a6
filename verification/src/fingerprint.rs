//! Visitor fingerprinting: a 64-bit hash of client address and User-Agent
//! bytes, seeded by a value that rotates once a day.

use vstd::prelude::*;
use vstd::wrapping::u64_specs;

use crate::rng::random_u64_in;

verus! {

/// The multiplier folded in for every input byte.
pub const HASH_MULTIPLIER: u64 = 67280421310721;

/// How long a daily seed stays valid, in seconds.
pub const SEED_REFRESH_SECONDS: u64 = 24 * 60 * 60;

/// A visitor's pseudonymous identity: derived from the daily seed, the
/// client's address bytes and its User-Agent bytes.
#[derive(Copy, Clone, Debug, PartialEq, Eq, Structural, Hash)]
pub struct VisitorHash(pub u64);

/// The rolling seed that visitor hashes start from. `init` is never zero
/// once a seed exists; `expiration` is a unix timestamp in seconds.
#[derive(Copy, Clone, Debug, PartialEq, Eq, Structural)]
pub struct DailySeed {
    pub init: u64,
    pub expiration: u64,
}

/// One step of the fingerprint: multiply the accumulator (wrapping) and add
/// the low six bits of the next byte (wrapping).
pub open spec fn hash_step(h: u64, b: u8) -> u64 {
    u64_specs::wrapping_add(u64_specs::wrapping_mul(h, HASH_MULTIPLIER), (b & 0x3f) as u64)
}

/// Folding a whole byte string into the accumulator, committing each step
/// only when it does not produce zero, so the accumulator can never latch
/// at zero.
pub open spec fn fold_bytes(h: u64, bytes: Seq<u8>) -> u64
    decreases bytes.len(),
{
    if bytes.len() == 0 {
        h
    } else {
        let n = hash_step(h, bytes[0]);
        fold_bytes(if n != 0 { n } else { h }, bytes.drop_first())
    }
}

/// Extending the input on the right is one more committed step.
pub proof fn lemma_fold_bytes_snoc(h: u64, bytes: Seq<u8>, b: u8)
    ensures
        fold_bytes(h, bytes.push(b)) == ({
            let n = hash_step(fold_bytes(h, bytes), b);
            if n != 0 {
                n
            } else {
                fold_bytes(h, bytes)
            }
        }),
    decreases bytes.len(),
{
    if bytes.len() == 0 {
        let n = hash_step(h, b);
        let c = if n != 0 { n } else { h };
        assert(bytes.push(b)[0] == b);
        assert(bytes.push(b).drop_first() =~= Seq::<u8>::empty());
        assert(fold_bytes(h, bytes.push(b)) == fold_bytes(c, Seq::<u8>::empty()));
        assert(fold_bytes(c, Seq::<u8>::empty()) == c);
        assert(fold_bytes(h, bytes) == h);
    } else {
        let n0 = hash_step(h, bytes[0]);
        let h2 = if n0 != 0 { n0 } else { h };
        assert(bytes.push(b)[0] == bytes[0]);
        assert(bytes.push(b).drop_first() =~= bytes.drop_first().push(b));
        lemma_fold_bytes_snoc(h2, bytes.drop_first(), b);
    }
}

/// Folds `bytes` into the accumulator behind `hash`, committing a step only
/// when its result is not zero.
pub fn multiply(hash: &mut u64, bytes: &[u8])
    ensures
        *final(hash) == fold_bytes(*old(hash), bytes@),
{
    let h0: Ghost<u64> = Ghost(*hash);
    let mut i: usize = 0;
    while i < bytes.len()
        invariant
            i <= bytes@.len(),
            *hash == fold_bytes(h0@, bytes@.subrange(0, i as int)),
        decreases bytes@.len() - i,
    {
        let b = bytes[i];
        let n = hash.wrapping_mul(HASH_MULTIPLIER).wrapping_add((b & 0x3f) as u64);
        proof {
            lemma_fold_bytes_snoc(h0@, bytes@.subrange(0, i as int), b);
            assert(bytes@.subrange(0, i as int).push(b) =~= bytes@.subrange(0, i + 1));
        }
        if n != 0 {
            *hash = n;
        }
        i += 1;
    }
    proof {
        assert(bytes@.subrange(0, bytes@.len() as int) =~= bytes@);
    }
}

/// What a visitor hash is, as a function of the seed and the two inputs:
/// the address bytes folded in first, then the identifying bytes.
pub open spec fn visitor_hash_of(init: u64, ip: Seq<u8>, ident: Seq<u8>) -> u64 {
    fold_bytes(fold_bytes(init, ip), ident)
}

/// Computes the visitor hash for one request from the current seed value,
/// the client's address bytes and its identifying (User-Agent) bytes.
pub fn create_from_init(ip: &Vec<u8>, ident: &Vec<u8>, init: u64) -> (h: VisitorHash)
    ensures
        h.0 == visitor_hash_of(init, ip@, ident@),
{
    let mut hash: u64 = init;
    multiply(&mut hash, ip.as_slice());
    multiply(&mut hash, ident.as_slice());
    VisitorHash(hash)
}

/// The address substituted when a request carries no resolvable peer
/// address, so the hash stays well-defined: the loopback address.
pub fn loopback_octets() -> (r: Vec<u8>)
    ensures
        r@ =~= seq![127u8, 0u8, 0u8, 1u8],
{
    let mut v: Vec<u8> = Vec::new();
    v.push(127);
    v.push(0);
    v.push(0);
    v.push(1);
    v
}

impl DailySeed {
    /// A freshly drawn seed: a non-zero `init` and a full day of validity
    /// from `now`.
    pub fn fresh(now: u64) -> (seed: DailySeed)
        requires
            now + SEED_REFRESH_SECONDS <= u64::MAX,
        ensures
            1 <= seed.init,
            seed.expiration == now + SEED_REFRESH_SECONDS,
    {
        let init = random_u64_in(1, u64::MAX);
        DailySeed { init, expiration: now + SEED_REFRESH_SECONDS }
    }

    /// How long to sleep before this seed must be replaced: until
    /// `expiration`, or not at all if that moment has passed.
    pub fn refresh_delay(&self, now: u64) -> (delay: u64)
        ensures
            delay == if self.expiration > now {
                (self.expiration - now) as int
            } else {
                0int
            },
    {
        if self.expiration > now {
            self.expiration - now
        } else {
            0
        }
    }
}

} // verus!
