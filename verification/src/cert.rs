//! The compute side of the certificate lifecycle: whether a cached
//! certificate is still good, and the length-prefixed framing that turns
//! raw DER bytes into the form the TLS stack reads certificates from.
//! Driving the ACME order itself is I/O and lives with the embedding
//! binary.

use vstd::prelude::*;

verus! {

/// A cached certificate is used only while more than one day of validity
/// remains; otherwise a new order is begun.
pub fn use_cached_certificate(valid_days_left: i64) -> (r: bool)
    ensures
        r <==> valid_days_left > 1,
{
    valid_days_left > 1
}

/// DER bytes under a three-byte big-endian length prefix, the framing the
/// TLS stack's certificate reader expects.
pub open spec fn framed_der(der: Seq<u8>) -> Seq<u8> {
    seq![
        (der.len() / 0x10000) as u8,
        ((der.len() / 0x100) % 0x100) as u8,
        (der.len() % 0x100) as u8,
    ] + der
}

/// Frames DER bytes under their three-byte big-endian length. Fails
/// exactly when the length does not fit in three bytes.
pub fn frame_der(der: &Vec<u8>) -> (r: Option<Vec<u8>>)
    ensures
        match r {
            Some(v) => der@.len() < 0x1000000 && v@ == framed_der(der@),
            None => der@.len() >= 0x1000000,
        },
{
    let len = der.len();
    if len >= 0x1000000 {
        return None;
    }
    proof {
        assert(len / 0x10000 < 0x100) by (nonlinear_arith)
            requires
                len < 0x1000000,
        ;
    }
    let b0: u8 = (len / 0x10000) as u8;
    let b1: u8 = ((len / 0x100) % 0x100) as u8;
    let b2: u8 = (len % 0x100) as u8;
    let mut out: Vec<u8> = Vec::new();
    out.push(b0);
    out.push(b1);
    out.push(b2);
    let mut i: usize = 0;
    while i < len
        invariant
            len == der@.len(),
            i <= len,
            out@.len() == 3 + i,
            out@[0] == (der@.len() / 0x10000) as u8,
            out@[1] == ((der@.len() / 0x100) % 0x100) as u8,
            out@[2] == (der@.len() % 0x100) as u8,
            forall|k: int| 0 <= k < i ==> out@[3 + k] == der@[k],
        decreases len - i,
    {
        out.push(der[i]);
        i += 1;
    }
    proof {
        assert(out@ =~= framed_der(der@));
    }
    Some(out)
}

} // verus!
