use vstd::prelude::*;
use std::rc::Rc;
use crate::field::{Fp, MODULUS, f_add};
use crate::pair::Pair;
use crate::seed::{Seed, SEED_LEN, xor_seq};
use crate::prg::{prg_expand, prg_stream, stream_seed, stream_bit, stream_elem, le4, PRG_OUT_LEN};

verus! {

/// A node in the DIF tree: the seed, control bit and field element for each
/// of the two children of the current position.
#[derive(Clone)]
pub struct Node {
    pub seeds: Pair<Seed>,
    pub control_bits: Pair<bool>,
    pub elems: Pair<Fp>,
}

/// `CodeWord`s have the same shape as a `Node` but hold the dealer's
/// correction values, not live tree state, so that correcting is always a
/// component-wise XOR (seed, control bit) plus a field addition (element).
pub type CodeWord = Node;

impl Node {
    /// Both seeds are full-length and both field elements reduced.
    pub open spec fn wf(&self) -> bool {
        &&& self.seeds.fst.wf()
        &&& self.seeds.snd.wf()
        &&& self.elems.fst.wf()
        &&& self.elems.snd.wf()
    }
}

/// A succinct representation of a function which outputs additive shares of
/// an interval-function evaluation: the tree depth, the per-party root node,
/// and one pair of correction words per tree level, shared read-only across
/// all evaluations of the key.
pub struct Key {
    pub log_domain: usize,
    pub root: Node,
    pub codewords: Rc<Vec<Pair<CodeWord>>>,
}

/// The raw pseudo-random expansion of a seed into both candidate children,
/// before any correction is applied.
pub struct MaskedNode {
    pub masked_seeds: Pair<Seed>,
    pub masked_control_bits: Pair<bool>,
    pub masked_elems: Pair<Fp>,
}

impl MaskedNode {
    pub open spec fn wf(&self) -> bool {
        &&& self.masked_seeds.fst.wf()
        &&& self.masked_seeds.snd.wf()
        &&& self.masked_elems.fst.wf()
        &&& self.masked_elems.snd.wf()
    }
}

/// `m` holds exactly the values that the PRG stream of `seed` prescribes:
/// both child seeds, then both control bits, then both field samples, in the
/// fixed 0-then-1 order.
pub open spec fn is_expansion_of(m: MaskedNode, seed: Seq<u8>) -> bool {
    let stm = prg_stream(seed);
    &&& m.masked_seeds.fst@ == stream_seed(stm, false)
    &&& m.masked_seeds.snd@ == stream_seed(stm, true)
    &&& m.masked_control_bits.fst == stream_bit(stm, false)
    &&& m.masked_control_bits.snd == stream_bit(stm, true)
    &&& m.masked_elems.fst.val == stream_elem(stm, false)
    &&& m.masked_elems.snd.val == stream_elem(stm, true)
    &&& m.wf()
}

/// Carve a seed out of an expansion stream.
fn seed_from_stream(src: &Vec<u8>, start: usize) -> (r: Seed)
    requires
        src@.len() == PRG_OUT_LEN,
        start + SEED_LEN <= PRG_OUT_LEN,
    ensures
        r@ == src@.subrange(start as int, start as int + SEED_LEN),
        r.wf(),
{
    let mut bytes: Vec<u8> = Vec::new();
    let mut i: usize = 0;
    while i < SEED_LEN
        invariant
            i <= SEED_LEN,
            src@.len() == PRG_OUT_LEN,
            start + SEED_LEN <= PRG_OUT_LEN,
            bytes@.len() == i,
            forall|k: int| 0 <= k < i ==> bytes@[k] == src@[start + k],
        decreases SEED_LEN - i,
    {
        bytes.push(src[start + i]);
        i = i + 1;
    }
    let r = Seed { bytes };
    assert(r@ =~= src@.subrange(start as int, start as int + SEED_LEN));
    r
}

/// Read four little-endian stream bytes and reduce them into the field.
fn elem_from_stream(src: &Vec<u8>, off: usize) -> (r: Fp)
    requires
        src@.len() == PRG_OUT_LEN,
        off + 4 <= PRG_OUT_LEN,
    ensures
        r.val == le4(src@, off as int) % (MODULUS as int),
        r.wf(),
{
    let v: u64 = src[off] as u64 + 256 * (src[off + 1] as u64) + 65536 * (src[off + 2] as u64)
        + 16777216 * (src[off + 3] as u64);
    Fp::from_u64(v)
}

impl MaskedNode {
    /// Given an `IntermediateNode`, expand its seed through the PRG into the
    /// `MaskedNode` holding both candidate children of the next level.  The
    /// node's control bit is not consumed here; the result is a pure function
    /// of the seed.
    pub fn sample_masked_node(node: &IntermediateNode) -> (r: MaskedNode)
        requires
            node.seed.wf(),
        ensures
            is_expansion_of(r, node.seed@),
    {
        let stream = prg_expand(&node.seed);

        // Sample masked seeds.
        let seed0 = seed_from_stream(&stream, 0);
        let seed1 = seed_from_stream(&stream, 32);

        // Sample masked control bits.
        let bit0 = stream[64] % 2 == 1;
        let bit1 = stream[65] % 2 == 1;

        // Sample masked field elements.
        let elem0 = elem_from_stream(&stream, 66);
        let elem1 = elem_from_stream(&stream, 70);

        MaskedNode {
            masked_seeds: Pair { fst: seed0, snd: seed1 },
            masked_control_bits: Pair { fst: bit0, snd: bit1 },
            masked_elems: Pair { fst: elem0, snd: elem1 },
        }
    }
}

/// An intermediate node of the evaluation walk: the single selected child's
/// seed and control bit, consumed as the PRG seed of the next level.
pub struct IntermediateNode {
    pub seed: Seed,
    pub control_bit: bool,
}

impl IntermediateNode {
    /// Project the child at boolean index `bit` out of a `Node`.  Pure
    /// selection; no PRG is involved.  Used to seed the first level of the
    /// walk from the key's root.
    pub fn new(bit: bool, node: &Node) -> (r: IntermediateNode)
        requires
            node.wf(),
        ensures
            r.seed@ == node.seeds.sel(bit)@,
            r.control_bit == node.control_bits.sel(bit),
            r.seed.wf(),
    {
        IntermediateNode {
            seed: node.seeds.get(bit).dup(),
            control_bit: *node.control_bits.get(bit),
        }
    }

    /// Unmask the provided `MaskedNode` at `bit` using `codeword`, folding
    /// the selected field contribution into `accumulator`: the selected
    /// masked seed and control bit are XOR-corrected by the codeword's, and
    /// the masked element plus the codeword's element is added to the
    /// accumulator.
    pub fn unmask_node(bit: bool, masked_node: MaskedNode, codeword: &CodeWord, accumulator: &mut Fp)
        -> (r: IntermediateNode)
        requires
            masked_node.wf(),
            codeword.wf(),
            old(accumulator).wf(),
        ensures
            r.seed@ == xor_seq(masked_node.masked_seeds.sel(bit)@, codeword.seeds.sel(bit)@),
            r.control_bit == (masked_node.masked_control_bits.sel(bit)
                != codeword.control_bits.sel(bit)),
            r.seed.wf(),
            final(accumulator).val == f_add(
                old(accumulator).val as int,
                f_add(
                    masked_node.masked_elems.sel(bit).val as int,
                    codeword.elems.sel(bit).val as int,
                ),
            ),
            final(accumulator).wf(),
    {
        let seed = masked_node.masked_seeds.get(bit).xor(codeword.seeds.get(bit));
        let control_bit = *masked_node.masked_control_bits.get(bit)
            != *codeword.control_bits.get(bit);
        let fold_elem = masked_node.masked_elems.get(bit).add(codeword.elems.get(bit));
        let updated = accumulator.add(&fold_elem);
        *accumulator = updated;
        IntermediateNode { seed, control_bit }
    }
}

} // verus!
