//! Byte encodings that feed the block digest, and the SHA-256 call itself.
use vstd::prelude::*;
use sha2::Digest;

verus! {

/// What SHA-256 yields for a byte string.
pub uninterp spec fn sha256_of(bytes: Seq<u8>) -> Seq<u8>;

/// Relies on sha2's `Sha256::digest`: the digest of the bytes, 32 bytes long.
#[verifier::external_body]
pub(crate) fn sha256(bytes: &[u8]) -> (r: Vec<u8>)
    ensures
        r@ == sha256_of(bytes@),
        r@.len() == 32,
{
    sha2::Sha256::digest(bytes).to_vec()
}

/// The `width` low-order bytes of `v`, least significant first.
pub open spec fn le_bytes(v: nat, width: nat) -> Seq<u8>
    decreases width,
{
    if width == 0 {
        Seq::empty()
    } else {
        seq![(v % 256) as u8] + le_bytes(v / 256, (width - 1) as nat)
    }
}

/// Appends `v` to `out` as a `width`-byte little-endian integer.
pub fn push_le(out: &mut Vec<u8>, v: u128, width: usize)
    ensures
        final(out)@ == old(out)@ + le_bytes(v as nat, width as nat),
{
    let ghost start = out@;
    let mut x: u128 = v;
    let mut i: usize = 0;
    while i < width
        invariant
            i <= width,
            out@ + le_bytes(x as nat, (width - i) as nat) == start + le_bytes(v as nat, width as nat),
        decreases width - i,
    {
        let ghost before = out@;
        out.push((x % 256) as u8);
        proof {
            assert(le_bytes(x as nat, (width - i) as nat) == seq![(x % 256) as u8] + le_bytes(
                (x / 256) as nat,
                (width - i - 1) as nat,
            ));
            assert(out@ + le_bytes((x / 256) as nat, (width - i - 1) as nat) =~= before + (seq![(x % 256) as u8] + le_bytes(
                (x / 256) as nat,
                (width - i - 1) as nat,
            )));
        }
        x = x / 256;
        i = i + 1;
    }
    assert(out@ =~= out@ + le_bytes(x as nat, 0));
}

} // verus!
