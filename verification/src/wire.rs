//! Big-endian integer encodings, built on the little-endian codecs of vstd.
//!
//! The frame header is little-endian, but the application-message payload
//! and the control payloads store their integers big-endian, so both byte
//! orders are needed.

use vstd::prelude::*;
use vstd::bytes::*;

verus! {

/// The big-endian bytes of a value are its little-endian bytes reversed.
pub open spec fn spec_u32_to_be_bytes(x: u32) -> Seq<u8> {
    spec_u32_to_le_bytes(x).reverse()
}

pub open spec fn spec_u32_from_be_bytes(s: Seq<u8>) -> u32 {
    spec_u32_from_le_bytes(s.reverse())
}

pub open spec fn spec_u64_to_be_bytes(x: u64) -> Seq<u8> {
    spec_u64_to_le_bytes(x).reverse()
}

pub open spec fn spec_u64_from_be_bytes(s: Seq<u8>) -> u64 {
    spec_u64_from_le_bytes(s.reverse())
}

/// Round-trip and length facts for the 32-bit big-endian codec.
pub proof fn lemma_u32_be_bytes()
    ensures
        forall|x: u32|
            {
                &&& (#[trigger] spec_u32_to_be_bytes(x)).len() == 4
                &&& spec_u32_from_be_bytes(spec_u32_to_be_bytes(x)) == x
            },
        forall|s: Seq<u8>|
            s.len() == 4 ==> #[trigger] spec_u32_to_be_bytes(spec_u32_from_be_bytes(s)) == s,
{
    lemma_auto_spec_u32_to_from_le_bytes();
    assert forall|x: u32|
        {
            &&& (#[trigger] spec_u32_to_be_bytes(x)).len() == 4
            &&& spec_u32_from_be_bytes(spec_u32_to_be_bytes(x)) == x
        } by {
        assert(spec_u32_to_le_bytes(x).reverse().reverse() =~= spec_u32_to_le_bytes(x));
    }
    assert forall|s: Seq<u8>| s.len() == 4 implies #[trigger] spec_u32_to_be_bytes(
        spec_u32_from_be_bytes(s),
    ) == s by {
        assert(spec_u32_to_le_bytes(spec_u32_from_le_bytes(s.reverse())).reverse() =~= s);
    }
}

/// Round-trip and length facts for the 64-bit big-endian codec.
pub proof fn lemma_u64_be_bytes()
    ensures
        forall|x: u64|
            {
                &&& (#[trigger] spec_u64_to_be_bytes(x)).len() == 8
                &&& spec_u64_from_be_bytes(spec_u64_to_be_bytes(x)) == x
            },
        forall|s: Seq<u8>|
            s.len() == 8 ==> #[trigger] spec_u64_to_be_bytes(spec_u64_from_be_bytes(s)) == s,
{
    lemma_auto_spec_u64_to_from_le_bytes();
    assert forall|x: u64|
        {
            &&& (#[trigger] spec_u64_to_be_bytes(x)).len() == 8
            &&& spec_u64_from_be_bytes(spec_u64_to_be_bytes(x)) == x
        } by {
        assert(spec_u64_to_le_bytes(x).reverse().reverse() =~= spec_u64_to_le_bytes(x));
    }
    assert forall|s: Seq<u8>| s.len() == 8 implies #[trigger] spec_u64_to_be_bytes(
        spec_u64_from_be_bytes(s),
    ) == s by {
        assert(spec_u64_to_le_bytes(spec_u64_from_le_bytes(s.reverse())).reverse() =~= s);
    }
}

/// Copies a slice into a fresh vector in reverse order.
fn reversed(s: &[u8]) -> (r: Vec<u8>)
    ensures
        r@ == s@.reverse(),
{
    let n = s.len();
    let mut out: Vec<u8> = Vec::new();
    let mut i: usize = 0;
    while i < n
        invariant
            n == s@.len(),
            i <= n,
            out@.len() == i,
            forall|j: int| 0 <= j < i ==> out@[j] == s@[n - 1 - j],
        decreases n - i,
    {
        out.push(s[n - 1 - i]);
        i = i + 1;
    }
    assert(out@ =~= s@.reverse());
    out
}

pub fn u32_to_be_bytes(x: u32) -> (r: Vec<u8>)
    ensures
        r@ == spec_u32_to_be_bytes(x),
        r@.len() == 4,
{
    proof {
        lemma_auto_spec_u32_to_from_le_bytes();
    }
    let le = u32_to_le_bytes(x);
    reversed(le.as_slice())
}

pub fn u32_from_be_bytes(s: &[u8]) -> (x: u32)
    requires
        s@.len() == 4,
    ensures
        x == spec_u32_from_be_bytes(s@),
{
    let rev = reversed(s);
    u32_from_le_bytes(rev.as_slice())
}

pub fn u64_to_be_bytes(x: u64) -> (r: Vec<u8>)
    ensures
        r@ == spec_u64_to_be_bytes(x),
        r@.len() == 8,
{
    proof {
        lemma_auto_spec_u64_to_from_le_bytes();
    }
    let le = u64_to_le_bytes(x);
    reversed(le.as_slice())
}

pub fn u64_from_be_bytes(s: &[u8]) -> (x: u64)
    requires
        s@.len() == 8,
    ensures
        x == spec_u64_from_be_bytes(s@),
{
    let rev = reversed(s);
    u64_from_le_bytes(rev.as_slice())
}

/// The big-endian encoding of distinct 64-bit values differs: the codec is
/// injective, which makes counter-derived nonces unique per counter value.
pub proof fn lemma_u64_be_bytes_injective(a: u64, b: u64)
    requires
        a != b,
    ensures
        spec_u64_to_be_bytes(a) != spec_u64_to_be_bytes(b),
{
    lemma_u64_be_bytes();
    if spec_u64_to_be_bytes(a) == spec_u64_to_be_bytes(b) {
        assert(spec_u64_from_be_bytes(spec_u64_to_be_bytes(a)) == a);
        assert(spec_u64_from_be_bytes(spec_u64_to_be_bytes(b)) == b);
    }
}

/// Appends `count` zero bytes to a vector.
pub fn push_zero_bytes(out: &mut Vec<u8>, count: usize)
    ensures
        final(out)@ == old(out)@ + Seq::new(count as nat, |i: int| 0u8),
{
    let mut i: usize = 0;
    while i < count
        invariant
            i <= count,
            out@ == old(out)@ + Seq::new(i as nat, |j: int| 0u8),
        decreases count - i,
    {
        out.push(0u8);
        assert(out@ =~= old(out)@ + Seq::new((i + 1) as nat, |j: int| 0u8));
        i = i + 1;
    }
}

} // verus!
