use vstd::prelude::*;

verus! {

/// Half of the 32-bit serial-number space.
pub const TSN_HALF: u32 = 0x8000_0000;

/// Serial-number maximum (RFC 1982) of two 32-bit TSNs: `a` wins over `b` when `a`
/// lies less than half the number space ahead of `b`, counting modulo 2^32.
pub open spec fn spec_max_tsn(a: u32, b: u32) -> u32 {
    if a > b {
        if a - b < TSN_HALF { a } else { b }
    } else {
        if b - a < TSN_HALF { b } else { a }
    }
}

/// Adds `k` to a TSN modulo 2^32.
pub open spec fn tsn_add(a: u32, k: int) -> u32 {
    ((a as int + k) % 0x1_0000_0000) as u32
}

/// The later of two TSNs in serial-number order.
pub fn max_tsn(a: u32, b: u32) -> (r: u32)
    ensures
        r == spec_max_tsn(a, b),
{
    if a > b {
        if a - b < TSN_HALF { a } else { b }
    } else {
        if b - a < TSN_HALF { b } else { a }
    }
}

/// `max_tsn` does not depend on the order of its arguments.
pub proof fn lemma_max_tsn_commutative(a: u32, b: u32)
    ensures
        spec_max_tsn(a, b) == spec_max_tsn(b, a),
{
}

/// `max_tsn` of a TSN with itself is that TSN.
pub proof fn lemma_max_tsn_idempotent(a: u32)
    ensures
        spec_max_tsn(a, a) == a,
{
}

/// A TSN that lies `k` steps ahead of `a`, with `k` under half the number space, is
/// the maximum of the two.
pub proof fn lemma_max_tsn_ahead(a: u32, k: int)
    requires
        0 <= k < TSN_HALF,
    ensures
        spec_max_tsn(a, tsn_add(a, k)) == tsn_add(a, k),
{
    let b = tsn_add(a, k);
    if a as int + k < 0x1_0000_0000 {
        assert(b == a as int + k);
    } else {
        assert(b == a as int + k - 0x1_0000_0000);
    }
}

} // verus!
