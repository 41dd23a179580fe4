use vstd::prelude::*;
use std::rc::Rc;
use vstd::arithmetic::power2::{pow2, lemma_pow2_pos, lemma_pow2_unfold, lemma2_to64};
use vstd::arithmetic::div_mod::lemma_div_denominator;
use crate::field::{Fp, MODULUS, f_add, f_neg, f_sub, lemma_f_cancel, lemma_f_solve_target,
    lemma_f_split, lemma_f_self_cancel, lemma_f_zero_add, lemma_f_range};
use crate::node::{CodeWord, IntermediateNode, Key, MaskedNode, Node};
use crate::pair::Pair;
use crate::seed::{Seed, xor_seq, lemma_xor_rejoin};
use crate::eval::{PathState, step_state, step_delta, walk_from, xbit, xbits_of, key_wf,
    init_state, share_of, recon_of, lemma_xbits_inj};
use crate::prg::{prg_stream, stream_seed, stream_elem};

verus! {

/// The dealer's guarantee at one tree level, for states `st0` and `st1` of
/// the two parties at the same on-path position: the control bits disagree;
/// stepping off the secret path (`!abit`) merges the two parties' states and
/// their contributions cancel; stepping along the path keeps the control
/// bits in disagreement and makes the contributions differ by exactly `tgt`.
pub open spec fn level_ok(
    st0: PathState,
    st1: PathState,
    cwp: Pair<CodeWord>,
    abit: bool,
    tgt: int,
) -> bool {
    &&& st0.cbit != st1.cbit
    &&& step_state(st0, cwp, !abit) == step_state(st1, cwp, !abit)
    &&& f_sub(step_delta(st0, cwp, !abit), step_delta(st1, cwp, !abit)) == 0
    &&& step_state(st0, cwp, abit).cbit != step_state(st1, cwp, abit).cbit
    &&& f_sub(step_delta(st0, cwp, abit), step_delta(st1, cwp, abit)) == tgt
}

/// Level `k` of the dealer's chain is sound: the level obeys `level_ok`
/// (with target `beta` at the final level `last` and zero elsewhere) and the
/// recorded states advance by an on-path step.
pub open spec fn chain_ok_at(
    ss0: Seq<PathState>,
    ss1: Seq<PathState>,
    cws: Seq<Pair<CodeWord>>,
    abits: Seq<bool>,
    beta: int,
    last: int,
    k: int,
) -> bool {
    &&& level_ok(ss0[k], ss1[k], cws[k], abits[k], if k == last { beta } else { 0 })
    &&& ss0[k + 1] == step_state(ss0[k], cws[k], abits[k])
    &&& ss1[k + 1] == step_state(ss1[k], cws[k], abits[k])
}

/// The heart of reconstruction correctness.  If the dealer's chain is sound
/// from level `i` on, then the two parties' remaining walk sums along any
/// path `xbits` differ by `beta` exactly when the remaining path bits all
/// follow the secret point, and by zero otherwise.
pub proof fn lemma_walk_diff(
    ss0: Seq<PathState>,
    ss1: Seq<PathState>,
    cws: Seq<Pair<CodeWord>>,
    abits: Seq<bool>,
    xbits: Seq<bool>,
    beta: int,
    last: int,
    i: int,
)
    requires
        cws.len() == abits.len(),
        cws.len() == xbits.len(),
        ss0.len() == cws.len() + 1,
        ss1.len() == cws.len() + 1,
        0 <= beta < MODULUS,
        last == cws.len() - 1,
        0 <= i <= cws.len(),
        forall|k: int|
            i <= k < cws.len() ==> #[trigger] chain_ok_at(ss0, ss1, cws, abits, beta, last, k),
    ensures
        f_sub(walk_from(ss0[i], cws, xbits, i), walk_from(ss1[i], cws, xbits, i)) == if i
            < cws.len() && (forall|k: int| i <= k < cws.len() ==> xbits[k] == abits[k]) {
            beta
        } else {
            0
        },
    decreases cws.len() - i,
{
    let ln = cws.len() as int;
    let w0 = walk_from(ss0[i], cws, xbits, i);
    let w1 = walk_from(ss1[i], cws, xbits, i);
    if i == ln {
        lemma_f_self_cancel(0);
    } else {
        assert(chain_ok_at(ss0, ss1, cws, abits, beta, last, i));
        let st0 = ss0[i];
        let st1 = ss1[i];
        let c0 = step_delta(st0, cws[i], xbits[i]);
        let c1 = step_delta(st1, cws[i], xbits[i]);
        let n0 = step_state(st0, cws[i], xbits[i]);
        let n1 = step_state(st1, cws[i], xbits[i]);
        let r0 = walk_from(n0, cws, xbits, i + 1);
        let r1 = walk_from(n1, cws, xbits, i + 1);
        assert(w0 == f_add(c0, r0));
        assert(w1 == f_add(c1, r1));
        lemma_f_split(c0, r0, c1, r1);
        if xbits[i] == abits[i] {
            assert(n0 == ss0[i + 1]);
            assert(n1 == ss1[i + 1]);
            lemma_walk_diff(ss0, ss1, cws, abits, xbits, beta, last, i + 1);
            let rd = f_sub(r0, r1);
            if i == last {
                assert(i + 1 == ln);
                assert(rd == 0);
                assert(f_sub(c0, c1) == beta);
                lemma_f_zero_add(beta);
                assert(f_sub(w0, w1) == beta);
                assert(forall|k: int| i <= k < ln ==> xbits[k] == abits[k]);
            } else {
                assert(f_sub(c0, c1) == 0);
                if forall|k: int| i + 1 <= k < ln ==> xbits[k] == abits[k] {
                    assert(rd == beta);
                    lemma_f_zero_add(beta);
                    assert(f_sub(w0, w1) == beta);
                    assert(forall|k: int| i <= k < ln ==> xbits[k] == abits[k]);
                } else {
                    assert(rd == 0);
                    lemma_f_zero_add(0);
                    assert(f_sub(w0, w1) == 0);
                    let kw = choose|k: int| i + 1 <= k < ln && xbits[k] != abits[k];
                    assert(!(forall|k: int| i <= k < ln ==> xbits[k] == abits[k])) by {
                        assert(i <= kw < ln && xbits[kw] != abits[kw]);
                    }
                }
            }
        } else {
            assert(xbits[i] == !abits[i]);
            assert(n0 == n1);
            assert(r0 == r1);
            lemma_f_self_cancel(r0);
            assert(f_sub(c0, c1) == 0);
            lemma_f_zero_add(0);
            assert(f_sub(w0, w1) == 0);
            assert(!(forall|k: int| i <= k < ln ==> xbits[k] == abits[k])) by {
                assert(i <= i < ln && xbits[i] != abits[i]);
            }
        }
    }
}

} // verus!

verus! {

/// Relies on std's `Rc::clone`: the clone is a second handle onto the same
/// immutable allocation, so its value equals the original's.
#[verifier::external_body]
fn share_codewords(c: &Rc<Vec<Pair<CodeWord>>>) -> (r: Rc<Vec<Pair<CodeWord>>>)
    ensures
        r == *c,
{
    c.clone()
}

/// Generate the two parties' keys for the one-point interval `{point}` with
/// payload `beta`: evaluating both keys at `x` and adding the shares yields
/// `beta` when `x == point` and zero elsewhere.  All of the dealer's random
/// choices are drawn from the PRG chain keyed by `entropy`, so key
/// generation is deterministic for a fixed entropy seed.
pub fn gen_point(log_domain: usize, point: u64, beta: &Fp, entropy: &Seed) -> (keys: (Key, Key))
    requires
        1 <= log_domain <= 63,
        point < pow2(log_domain as nat),
        beta.wf(),
        entropy.wf(),
    ensures
        key_wf(keys.0),
        key_wf(keys.1),
        keys.0.log_domain == log_domain,
        keys.1.log_domain == log_domain,
        forall|x: u64|
            x < pow2(log_domain as nat) ==> recon_of(keys.0, keys.1, x) == if x == point {
                beta.val as int
            } else {
                0
            },
{
    let l = log_domain;
    let ghost betav = beta.val as int;
    let ghost lastg = l - 1 as int;

    // Derive the two root seeds and the head of the dealer's randomness
    // chain from the entropy seed.
    let boot = MaskedNode::sample_masked_node(
        &IntermediateNode { seed: entropy.dup(), control_bit: false },
    );
    let s0 = boot.masked_seeds.fst;
    let aux = MaskedNode::sample_masked_node(
        &IntermediateNode { seed: boot.masked_seeds.snd, control_bit: false },
    );
    let s1 = aux.masked_seeds.fst;
    let mut dealer = aux.masked_seeds.snd;

    let mut cur0 = IntermediateNode { seed: s0.dup(), control_bit: false };
    let mut cur1 = IntermediateNode { seed: s1.dup(), control_bit: true };
    let mut cws: Vec<Pair<CodeWord>> = Vec::new();
    let mut ya = point;

    let ghost abits = xbits_of(point, l as nat);
    let ghost init0 = PathState { seed: s0@, cbit: false };
    let ghost init1 = PathState { seed: s1@, cbit: true };
    let ghost mut ss0: Seq<PathState> = seq![init0];
    let ghost mut ss1: Seq<PathState> = seq![init1];

    proof {
        lemma2_to64();
    }
    let mut i: usize = 0;
    while i < l
        invariant
            i <= l,
            1 <= l <= 63,
            beta.wf(),
            betav == beta.val as int,
            lastg == l - 1,
            abits == xbits_of(point, l as nat),
            cws@.len() == i,
            ss0.len() == i + 1,
            ss1.len() == i + 1,
            ss0[0] == init0,
            ss1[0] == init1,
            cur0.seed.wf(),
            cur1.seed.wf(),
            dealer.wf(),
            cur0.control_bit != cur1.control_bit,
            ss0[i as int] == (PathState { seed: cur0.seed@, cbit: cur0.control_bit }),
            ss1[i as int] == (PathState { seed: cur1.seed@, cbit: cur1.control_bit }),
            ya as nat == (point as nat) / pow2(i as nat),
            forall|k: int|
                0 <= k < i ==> (#[trigger] cws@[k]).fst.wf() && cws@[k].snd.wf(),
            forall|k: int|
                0 <= k < i ==> #[trigger] chain_ok_at(ss0, ss1, cws@, abits, betav, lastg, k),
        decreases l - i,
    {
        let ghost st0 = PathState { seed: cur0.seed@, cbit: cur0.control_bit };
        let ghost st1 = PathState { seed: cur1.seed@, cbit: cur1.control_bit };
        let ghost ss0_old = ss0;
        let ghost ss1_old = ss1;
        let ghost cws_old = cws@;

        let abit = ya % 2 == 1;
        proof {
            assert(abit == xbit(point, i as nat));
            assert(abits[i as int] == abit);
        }
        let offb = !abit;

        let m0 = MaskedNode::sample_masked_node(&cur0);
        let m1 = MaskedNode::sample_masked_node(&cur1);
        let rnd = MaskedNode::sample_masked_node(
            &IntermediateNode { seed: dealer, control_bit: false },
        );
        let ghost m0v = m0;
        let ghost m1v = m1;
        let r_off = rnd.masked_seeds.fst;
        let dealer_next = rnd.masked_seeds.snd;
        let t_next = rnd.masked_control_bits.fst;
        let re_off = rnd.masked_elems.fst;
        let re_on = rnd.masked_elems.snd;

        let tgt = if i + 1 == l {
            beta.dup()
        } else {
            Fp::zero()
        };
        let ghost tgtv = tgt.val as int;

        // The codeword applied by the party whose control bit equals
        // `cur0`'s, and the one applied by the other party.
        let cw_a = Node {
            seeds: Pair::place(offb, r_off.dup(), Seed::zero()),
            control_bits: Pair::place(
                offb,
                *m0.masked_control_bits.get(offb),
                *m0.masked_control_bits.get(abit) != t_next,
            ),
            elems: Pair::place(offb, re_off.dup(), re_on.dup()),
        };
        let cw_b = Node {
            seeds: Pair::place(
                offb,
                m1.masked_seeds.get(offb).xor(m0.masked_seeds.get(offb)).xor(&r_off),
                Seed::zero(),
            ),
            control_bits: Pair::place(
                offb,
                *m1.masked_control_bits.get(offb),
                *m1.masked_control_bits.get(abit) != !t_next,
            ),
            elems: Pair::place(
                offb,
                m0.masked_elems.get(offb).add(&re_off).sub(m1.masked_elems.get(offb)),
                m0.masked_elems.get(abit).add(&re_on).sub(m1.masked_elems.get(abit)).sub(&tgt),
            ),
        };
        let ghost cwav = cw_a;
        let ghost cwbv = cw_b;
        let cwp = Pair::place(cur0.control_bit, cw_a, cw_b);
        let ghost cwpv = cwp;

        let mut scratch0 = Fp::zero();
        let mut scratch1 = Fp::zero();
        let next0 = IntermediateNode::unmask_node(abit, m0, cwp.get(cur0.control_bit), &mut scratch0);
        let next1 = IntermediateNode::unmask_node(abit, m1, cwp.get(cur1.control_bit), &mut scratch1);

        proof {
            let stm0 = prg_stream(st0.seed);
            let stm1 = prg_stream(st1.seed);
            assert(cwpv.sel(st0.cbit) == cwav);
            assert(cwpv.sel(st1.cbit) == cwbv);

            // Both parties' next states are the on-path spec step.
            assert((PathState { seed: next0.seed@, cbit: next0.control_bit }) == step_state(
                st0,
                cwpv,
                abit,
            ));
            assert((PathState { seed: next1.seed@, cbit: next1.control_bit }) == step_state(
                st1,
                cwpv,
                abit,
            ));

            // Off-path child: states merge.
            let s0c = stream_seed(stm0, offb);
            let s1c = stream_seed(stm1, offb);
            assert(m0v.masked_seeds.sel(offb)@ == s0c);
            assert(m1v.masked_seeds.sel(offb)@ == s1c);
            assert(s0c.len() == 32 && s1c.len() == 32 && r_off@.len() == 32);
            lemma_xor_rejoin(s0c, s1c, r_off@);
            assert(cwav.seeds.sel(offb)@ == r_off@);
            assert(cwbv.seeds.sel(offb)@ == xor_seq(xor_seq(s1c, s0c), r_off@));
            assert(step_state(st0, cwpv, offb).seed == xor_seq(s0c, r_off@));
            assert(step_state(st1, cwpv, offb).seed == xor_seq(s0c, r_off@));
            assert(step_state(st0, cwpv, offb).cbit == false);
            assert(step_state(st1, cwpv, offb).cbit == false);
            assert(step_state(st0, cwpv, offb) == step_state(st1, cwpv, offb));

            // Off-path child: contributions cancel.
            let e0c = stream_elem(stm0, offb);
            let e1c = stream_elem(stm1, offb);
            assert(step_delta(st0, cwpv, offb) == f_add(e0c, re_off.val as int));
            assert(cwbv.elems.sel(offb).val as int == f_sub(f_add(e0c, re_off.val as int), e1c));
            lemma_f_range(e0c, re_off.val as int);
            lemma_f_cancel(f_add(e0c, re_off.val as int), e1c);
            assert(step_delta(st1, cwpv, offb) == f_add(e0c, re_off.val as int));
            lemma_f_self_cancel(f_add(e0c, re_off.val as int));
            assert(f_sub(step_delta(st0, cwpv, offb), step_delta(st1, cwpv, offb)) == 0);

            // On-path child: control bits keep disagreeing.
            assert(step_state(st0, cwpv, abit).cbit == t_next);
            assert(step_state(st1, cwpv, abit).cbit == !t_next);

            // On-path child: contributions differ by exactly the target.
            let e0a = stream_elem(stm0, abit);
            let e1a = stream_elem(stm1, abit);
            assert(step_delta(st0, cwpv, abit) == f_add(e0a, re_on.val as int));
            assert(cwbv.elems.sel(abit).val as int == f_sub(
                f_sub(f_add(e0a, re_on.val as int), e1a),
                tgtv,
            ));
            lemma_f_range(e0a, re_on.val as int);
            lemma_f_solve_target(f_add(e0a, re_on.val as int), e1a, tgtv);
            assert(f_sub(step_delta(st0, cwpv, abit), step_delta(st1, cwpv, abit)) == tgtv);

            assert(level_ok(st0, st1, cwpv, abit, tgtv));
        }

        cws.push(cwp);
        cur0 = next0;
        cur1 = next1;
        dealer = dealer_next;

        proof {
            ss0 = ss0.push(step_state(st0, cwpv, abit));
            ss1 = ss1.push(step_state(st1, cwpv, abit));
            assert(tgtv == if i as int == lastg {
                betav
            } else {
                0
            });
            assert forall|k: int| 0 <= k < i + 1 implies #[trigger] chain_ok_at(
                ss0,
                ss1,
                cws@,
                abits,
                betav,
                lastg,
                k,
            ) by {
                if k < i {
                    assert(chain_ok_at(ss0_old, ss1_old, cws_old, abits, betav, lastg, k));
                    assert(ss0[k] == ss0_old[k] && ss0[k + 1] == ss0_old[k + 1]);
                    assert(ss1[k] == ss1_old[k] && ss1[k + 1] == ss1_old[k + 1]);
                    assert(cws@[k] == cws_old[k]);
                } else {
                    assert(ss0[k] == st0 && ss1[k] == st1);
                    assert(cws@[k] == cwpv);
                    assert(level_ok(st0, st1, cwpv, abits[k], if k == lastg {
                        betav
                    } else {
                        0
                    }));
                }
            }
            // The next input half.
            lemma_pow2_pos(i as nat);
            lemma_pow2_unfold((i + 1) as nat);
            lemma_div_denominator(point as int, pow2(i as nat) as int, 2);
        }
        ya = ya / 2;
        i = i + 1;
    }

    let rc_cws = Rc::new(cws);
    let rc_cws2 = share_codewords(&rc_cws);
    let root0 = Node {
        seeds: Pair { fst: s0, snd: Seed::zero() },
        control_bits: Pair { fst: false, snd: false },
        elems: Pair { fst: Fp::zero(), snd: Fp::zero() },
    };
    let root1 = Node {
        seeds: Pair { fst: Seed::zero(), snd: s1 },
        control_bits: Pair { fst: false, snd: true },
        elems: Pair { fst: Fp::zero(), snd: Fp::zero() },
    };
    let k0 = Key { log_domain: l, root: root0, codewords: rc_cws };
    let k1 = Key { log_domain: l, root: root1, codewords: rc_cws2 };

    proof {
        assert(key_wf(k0));
        assert(key_wf(k1));
        assert(init_state(k0, false) == ss0[0]);
        assert(init_state(k1, true) == ss1[0]);
        assert forall|x: u64| x < pow2(l as nat) implies recon_of(k0, k1, x) == (if x == point {
            betav
        } else {
            0
        }) by {
            let xb = xbits_of(x, l as nat);
            lemma_walk_diff(ss0, ss1, k0.codewords@, abits, xb, betav, lastg, 0);
            let w0 = walk_from(ss0[0], k0.codewords@, xb, 0);
            let w1 = walk_from(ss1[0], k0.codewords@, xb, 0);
            assert(share_of(k0, false, x) == w0);
            assert(share_of(k1, true, x) == f_neg(w1));
            assert(recon_of(k0, k1, x) == f_sub(w0, w1));
            if x == point {
                assert(xb == abits);
                assert(forall|k: int| 0 <= k < l ==> xb[k] == abits[k]);
                assert(recon_of(k0, k1, x) == betav);
            } else {
                if forall|k: int| 0 <= k < l ==> xb[k] == abits[k] {
                    assert(xb =~= abits);
                    lemma_xbits_inj(x, point, l as nat);
                    assert(false);
                }
                assert(recon_of(k0, k1, x) == 0);
            }
        }
    }
    (k0, k1)
}

} // verus!
