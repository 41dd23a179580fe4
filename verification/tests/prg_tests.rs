use interval_fss::{IntermediateNode, MaskedNode, Seed, MODULUS, SEED_LEN};

fn node_with(fill: u8) -> IntermediateNode {
    IntermediateNode { seed: Seed { bytes: vec![fill; SEED_LEN] }, control_bit: false }
}

#[test]
fn expansion_actually_expands() {
    // The PRG expansion must not hand the input seed back: both child seeds
    // differ from the parent and from each other.
    let m = MaskedNode::sample_masked_node(&node_with(1));
    assert_eq!(m.masked_seeds.fst.bytes.len(), SEED_LEN);
    assert_eq!(m.masked_seeds.snd.bytes.len(), SEED_LEN);
    assert_ne!(m.masked_seeds.fst.bytes, vec![1u8; SEED_LEN]);
    assert_ne!(m.masked_seeds.snd.bytes, vec![1u8; SEED_LEN]);
    assert_ne!(m.masked_seeds.fst.bytes, m.masked_seeds.snd.bytes);
    assert!(m.masked_elems.fst.val < MODULUS);
    assert!(m.masked_elems.snd.val < MODULUS);
}

#[test]
fn expansion_is_a_function_of_the_seed() {
    let a = MaskedNode::sample_masked_node(&node_with(2));
    let b = MaskedNode::sample_masked_node(&node_with(2));
    assert_eq!(a.masked_seeds.fst.bytes, b.masked_seeds.fst.bytes);
    assert_eq!(a.masked_seeds.snd.bytes, b.masked_seeds.snd.bytes);
    assert_eq!(a.masked_control_bits.fst, b.masked_control_bits.fst);
    assert_eq!(a.masked_control_bits.snd, b.masked_control_bits.snd);
    assert_eq!(a.masked_elems.fst.val, b.masked_elems.fst.val);
    assert_eq!(a.masked_elems.snd.val, b.masked_elems.snd.val);

    // The control bit is not consumed: only the seed keys the PRG.
    let mut other = node_with(2);
    other.control_bit = true;
    let c = MaskedNode::sample_masked_node(&other);
    assert_eq!(a.masked_seeds.fst.bytes, c.masked_seeds.fst.bytes);

    // A different seed gives a different expansion.
    let d = MaskedNode::sample_masked_node(&node_with(3));
    assert_ne!(a.masked_seeds.fst.bytes, d.masked_seeds.fst.bytes);
}
