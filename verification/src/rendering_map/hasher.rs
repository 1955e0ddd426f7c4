//! A hasher for maps keyed by `u64` ids that are already well spread: the
//! hash of an id is the id itself.
use vstd::prelude::*;
use vstd::bytes::spec_u64_from_le_bytes;

verus! {

/// Calls `u64::from_ne_bytes`, which reads the eight bytes in the target's
/// byte order. Claimed: the result is the bytes read least significant
/// first, or most significant first; which one depends on the target and is
/// left unsaid.
#[verifier::external_body]
fn u64_from_native_bytes(bytes: [u8; 8]) -> (r: u64)
    ensures
        r == spec_u64_from_le_bytes(bytes@) || r == spec_u64_from_le_bytes(bytes@.reverse()),
{
    u64::from_ne_bytes(bytes)
}

pub struct RenderingMapHasher {
    state: u64,
}

impl RenderingMapHasher {
    /// The hash computed so far.
    pub closed spec fn state_spec(&self) -> u64 {
        self.state
    }

    /// Take the first eight bytes, the memory of one `u64`, read in the
    /// target's byte order (little-endian or big-endian).
    pub fn write(&mut self, bytes: &[u8])
        requires
            bytes@.len() >= 8,
        ensures
            final(self).state_spec() == spec_u64_from_le_bytes(bytes@.subrange(0, 8))
                || final(self).state_spec() == spec_u64_from_le_bytes(
                bytes@.subrange(0, 8).reverse(),
            ),
    {
        let word: [u8; 8] = [
            bytes[0],
            bytes[1],
            bytes[2],
            bytes[3],
            bytes[4],
            bytes[5],
            bytes[6],
            bytes[7],
        ];
        assert(word@ =~= bytes@.subrange(0, 8));
        self.state = u64_from_native_bytes(word);
    }

    /// Take a `u64` directly: its hash is the value itself.
    pub fn write_u64(&mut self, value: u64)
        ensures
            final(self).state_spec() == value,
    {
        self.state = value;
    }

    pub fn finish(&self) -> (r: u64)
        ensures
            r == self.state_spec(),
    {
        self.state
    }
}

impl Default for RenderingMapHasher {
    fn default() -> (r: Self)
        ensures
            r.state_spec() == 0,
    {
        RenderingMapHasher { state: 0 }
    }
}

} // verus!
