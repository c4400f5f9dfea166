//! The identity type: the unit of ownership and addressing.

use vstd::prelude::*;

verus! {

/// An opaque, globally unique, fixed-width public key.
///
/// An identity is 32 bytes wide, held here as two 128-bit words.  No
/// internal structure is assumed beyond equality and the raw byte form
/// used for deterministic addressing.
#[derive(Clone, Copy, Debug, PartialEq, Eq, Structural, Hash)]
pub struct Identity {
    /// The low-order 16 bytes of the key.
    pub lo: u128,
    /// The high-order 16 bytes of the key.
    pub hi: u128,
}

/// Byte `k` of the 16-byte little-endian encoding of `x`.
pub open spec fn u128_le_byte(x: u128, k: int) -> u8 {
    ((x >> ((8 * k) as u128)) & 0xff) as u8
}

/// The 16-byte little-endian encoding of `x`.
pub open spec fn u128_le_bytes(x: u128) -> Seq<u8> {
    Seq::new(16, |k: int| u128_le_byte(x, k))
}

impl Identity {
    /// The raw 32-byte form of the key: `lo` first, then `hi`, each
    /// little-endian.
    pub open spec fn byte_seq(self) -> Seq<u8> {
        u128_le_bytes(self.lo) + u128_le_bytes(self.hi)
    }

    /// Produce the raw 32-byte form of the key.
    pub fn to_le_bytes(&self) -> (r: Vec<u8>)
        ensures
            r@ == self.byte_seq(),
            r@.len() == 32,
    {
        let mut v: Vec<u8> = Vec::new();
        push_u128_le(&mut v, self.lo);
        push_u128_le(&mut v, self.hi);
        proof {
            assert(v@ =~= self.byte_seq());
        }
        v
    }
}

/// True when no identity occurs twice in `s`.
pub open spec fn distinct_seq(s: Seq<Identity>) -> bool {
    forall|i: int, j: int| 0 <= i < j < s.len() ==> s[i] != s[j]
}

/// Linear scan for `x` among the identities of `v`.
pub fn contains_identity(v: &Vec<Identity>, x: Identity) -> (r: bool)
    ensures
        r == v@.contains(x),
{
    let mut i: usize = 0;
    while i < v.len()
        invariant
            i <= v@.len(),
            forall|j: int| 0 <= j < i ==> v@[j] != x,
        decreases v@.len() - i,
    {
        if v[i] == x {
            assert(v@[i as int] == x);
            return true;
        }
        i = i + 1;
    }
    assert(!v@.contains(x));
    false
}

/// Append the 16-byte little-endian encoding of `x` to `v`.
fn push_u128_le(v: &mut Vec<u8>, x: u128)
    ensures
        final(v)@ == old(v)@ + u128_le_bytes(x),
{
    let ghost orig = v@;
    let mut k: usize = 0;
    while k < 16
        invariant
            k <= 16,
            v@.len() == orig.len() + k,
            v@.subrange(0, orig.len() as int) == orig,
            forall|j: int| 0 <= j < k ==> v@[orig.len() + j] == u128_le_byte(x, j),
        decreases 16 - k,
    {
        let b: u8 = ((x >> ((8 * k) as u128)) & 0xff) as u8;
        v.push(b);
        k = k + 1;
    }
    proof {
        assert(v@ =~= orig + u128_le_bytes(x));
    }
}

} // verus!
