use interval_fss::eval::{evaluate, EvalError};
use interval_fss::gen::gen_point;
use interval_fss::{Fp, Key, Node, Pair, Seed, MODULUS, SEED_LEN};
use std::rc::Rc;

fn mk_seed(fill: u8) -> Seed {
    Seed { bytes: vec![fill; SEED_LEN] }
}

fn zero_node() -> Node {
    Node {
        seeds: Pair { fst: mk_seed(0), snd: mk_seed(0) },
        control_bits: Pair { fst: false, snd: false },
        elems: Pair { fst: Fp { val: 0 }, snd: Fp { val: 0 } },
    }
}

fn share(key: &Key, party: bool, x: u64) -> u64 {
    match evaluate(key, party, x) {
        Ok(s) => s.val,
        Err(e) => panic!("evaluation refused: {:?}", e),
    }
}

fn recon(k0: &Key, k1: &Key, x: u64) -> u64 {
    (share(k0, false, x) + share(k1, true, x)) % MODULUS
}

#[test]
fn point_function_reconstructs_everywhere() {
    // One-point interval {a}: the reconstruction is the multiplicative
    // identity at x == a and the additive identity elsewhere, for every a in
    // a small domain.
    let log_domain = 3usize;
    for a in 0u64..8 {
        let entropy = mk_seed(a as u8 + 1);
        let (k0, k1) = gen_point(log_domain, a, &Fp::one(), &entropy);
        for x in 0u64..8 {
            let expect = if x == a { 1 } else { 0 };
            assert_eq!(recon(&k0, &k1, x), expect);
        }
    }
}

#[test]
fn point_function_with_larger_payload() {
    let (k0, k1) = gen_point(4, 11, &Fp { val: 12345 }, &mk_seed(7));
    for x in 0u64..16 {
        let expect = if x == 11 { 12345 } else { 0 };
        assert_eq!(recon(&k0, &k1, x), expect);
    }
}

#[test]
fn always_zero_function_hand_built_key() {
    // Hand-generate keys for the trivial "always zero" function on a
    // depth-2 domain: both parties start from the same root state, so the
    // walks stay identical and the negated shares cancel at all 4 points.
    let cws = Rc::new(vec![
        Pair { fst: zero_node(), snd: zero_node() },
        Pair { fst: zero_node(), snd: zero_node() },
    ]);
    let mut root0 = zero_node();
    root0.seeds.fst = mk_seed(42);
    let mut root1 = zero_node();
    root1.seeds.snd = mk_seed(42);
    let k0 = Key { log_domain: 2, root: root0, codewords: Rc::clone(&cws) };
    let k1 = Key { log_domain: 2, root: root1, codewords: cws };
    for x in 0u64..4 {
        assert_eq!(recon(&k0, &k1, x), 0);
    }
}

#[test]
fn evaluation_is_deterministic() {
    let (k0, k1) = gen_point(5, 19, &Fp { val: 77 }, &mk_seed(9));
    for x in [0u64, 1, 13, 19, 31] {
        assert_eq!(share(&k0, false, x), share(&k0, false, x));
        assert_eq!(share(&k1, true, x), share(&k1, true, x));
    }
}

#[test]
fn generation_is_deterministic_in_the_entropy() {
    let (a0, a1) = gen_point(4, 6, &Fp { val: 5 }, &mk_seed(3));
    let (b0, b1) = gen_point(4, 6, &Fp { val: 5 }, &mk_seed(3));
    for x in 0u64..16 {
        assert_eq!(share(&a0, false, x), share(&b0, false, x));
        assert_eq!(share(&a1, true, x), share(&b1, true, x));
    }
}

#[test]
fn both_keys_share_one_codeword_list() {
    let (k0, k1) = gen_point(3, 2, &Fp { val: 1 }, &mk_seed(5));
    assert_eq!(k0.codewords.len(), 3);
    assert_eq!(k1.codewords.len(), 3);
    for (p0, p1) in k0.codewords.iter().zip(k1.codewords.iter()) {
        assert_eq!(p0.fst.seeds.fst.bytes, p1.fst.seeds.fst.bytes);
        assert_eq!(p0.snd.seeds.snd.bytes, p1.snd.seeds.snd.bytes);
        assert_eq!(p0.fst.elems.fst.val, p1.fst.elems.fst.val);
        assert_eq!(p0.snd.elems.snd.val, p1.snd.elems.snd.val);
    }
}

#[test]
fn swapping_codeword_slots_changes_the_output() {
    // Slot identity inside a Pair is load-bearing: swapping the two
    // codewords of one level changes the reconstruction at some input.
    let log_domain = 3usize;
    let a = 5u64;
    let (k0, k1) = gen_point(log_domain, a, &Fp { val: 1 }, &mk_seed(21));

    let mut swapped: Vec<Pair<Node>> = Vec::new();
    for (idx, pair) in k0.codewords.iter().enumerate() {
        if idx == 1 {
            swapped.push(Pair { fst: pair.snd.clone(), snd: pair.fst.clone() });
        } else {
            swapped.push(pair.clone());
        }
    }
    let corrupt = Rc::new(swapped);
    let c0 = Key { log_domain, root: k0.root.clone(), codewords: Rc::clone(&corrupt) };
    let c1 = Key { log_domain, root: k1.root.clone(), codewords: corrupt };

    let mut changed = false;
    for x in 0u64..8 {
        let expect = if x == a { 1 } else { 0 };
        if recon(&c0, &c1, x) != expect {
            changed = true;
        }
    }
    assert!(changed);
}

#[test]
fn malformed_key_wrong_codeword_count() {
    // A key whose codeword list disagrees with its depth is rejected before
    // any PRG work.
    let cws = Rc::new(vec![Pair { fst: zero_node(), snd: zero_node() }]);
    let key = Key { log_domain: 2, root: zero_node(), codewords: cws };
    assert_eq!(evaluate(&key, false, 0), Err(EvalError::MalformedKey));
}

#[test]
fn malformed_key_bad_seed_size() {
    let cws = Rc::new(vec![Pair { fst: zero_node(), snd: zero_node() }]);
    let mut root = zero_node();
    root.seeds.fst = Seed { bytes: vec![0u8; 5] };
    let key = Key { log_domain: 1, root, codewords: cws };
    assert_eq!(evaluate(&key, false, 0), Err(EvalError::MalformedKey));
}

#[test]
fn malformed_key_unsupported_depth() {
    let mut cws: Vec<Pair<Node>> = Vec::new();
    for _ in 0..64 {
        cws.push(Pair { fst: zero_node(), snd: zero_node() });
    }
    let key = Key { log_domain: 64, root: zero_node(), codewords: Rc::new(cws) };
    assert_eq!(evaluate(&key, false, 0), Err(EvalError::MalformedKey));
}

#[test]
fn out_of_domain_input_is_rejected() {
    let (k0, _k1) = gen_point(3, 2, &Fp { val: 1 }, &mk_seed(11));
    assert_eq!(evaluate(&k0, false, 8), Err(EvalError::InvalidInput));
    assert_eq!(evaluate(&k0, false, u64::MAX), Err(EvalError::InvalidInput));
    assert!(evaluate(&k0, false, 7).is_ok());
}
