use vstd::prelude::*;
use crate::field::MODULUS;
use crate::seed::Seed;
use rand::RngCore;
use rand::SeedableRng;

verus! {

/// Number of PRG output bytes one expansion consumes: two child seeds, one
/// control byte per child, four field-sample bytes per child, children in
/// fixed 0-then-1 order.
pub const PRG_OUT_LEN: usize = 74;

/// The first `PRG_OUT_LEN` bytes of the PRG keyed by `seed`.  The PRG is a
/// deterministic expander, so its output stream is a function of the seed
/// alone; nothing further is assumed of its value.
pub uninterp spec fn prg_stream(seed: Seq<u8>) -> Seq<u8>;

/// The child seed carved out of an expansion stream: bytes `[0, 32)` for
/// child 0, bytes `[32, 64)` for child 1.
pub open spec fn stream_seed(stm: Seq<u8>, idx: bool) -> Seq<u8> {
    if idx {
        stm.subrange(32, 64)
    } else {
        stm.subrange(0, 32)
    }
}

/// The child control bit: the low bit of byte 64 (child 0) or 65 (child 1).
pub open spec fn stream_bit(stm: Seq<u8>, idx: bool) -> bool {
    if idx {
        stm[65] % 2 == 1
    } else {
        stm[64] % 2 == 1
    }
}

/// Four stream bytes read little-endian.
pub open spec fn le4(stm: Seq<u8>, off: int) -> int {
    stm[off] + 256 * stm[off + 1] + 65536 * stm[off + 2] + 16777216 * stm[off + 3]
}

/// The child field sample: four little-endian bytes at 66 (child 0) or 70
/// (child 1), reduced into the field.
pub open spec fn stream_elem(stm: Seq<u8>, idx: bool) -> int {
    if idx {
        le4(stm, 70) % (MODULUS as int)
    } else {
        le4(stm, 66) % (MODULUS as int)
    }
}

/// Relies on `rand::rngs::StdRng` (the ChaCha12 block cipher in rand 0.8):
/// `from_seed` keys the cipher with the 32-byte seed and `fill_bytes` emits
/// its key stream, so the bytes returned are a deterministic function of the
/// seed alone and the buffer is filled completely.
#[verifier::external_body]
pub(crate) fn prg_expand(seed: &Seed) -> (r: Vec<u8>)
    requires
        seed.wf(),
    ensures
        r@ == prg_stream(seed@),
        r@.len() == PRG_OUT_LEN,
{
    let mut key = [0u8; 32];
    key.copy_from_slice(&seed.bytes);
    let mut prg = rand::rngs::StdRng::from_seed(key);
    let mut out = vec![0u8; 74];
    prg.fill_bytes(&mut out);
    out
}

} // verus!
