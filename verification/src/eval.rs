use vstd::prelude::*;
use vstd::arithmetic::power2::{pow2, lemma_pow2_pos, lemma_pow2_strictly_increases, lemma_pow2_unfold, lemma2_to64, lemma2_to64_rest};
use vstd::arithmetic::div_mod::{lemma_div_basics, lemma_div_denominator, lemma_fundamental_div_mod, lemma_multiply_divide_lt};
use crate::field::{Fp, MODULUS, f_add, f_neg, lemma_f_add_assoc, lemma_f_zero_add};
use crate::node::{CodeWord, IntermediateNode, Key, MaskedNode, Node};
use crate::pair::Pair;
use crate::seed::{SEED_LEN, xor_seq};
use crate::prg::{prg_stream, stream_seed, stream_bit, stream_elem};

verus! {

/// The state carried along an evaluation path: the current seed and the
/// current control bit.
pub ghost struct PathState {
    pub seed: Seq<u8>,
    pub cbit: bool,
}

/// One level of the walk: expand the seed, pick the codeword indexed by the
/// *current control bit* (not by the path bit), and XOR-correct the child at
/// the path bit `b`.
pub open spec fn step_state(st: PathState, cwp: Pair<CodeWord>, b: bool) -> PathState {
    let stm = prg_stream(st.seed);
    let cw = cwp.sel(st.cbit);
    PathState {
        seed: xor_seq(stream_seed(stm, b), cw.seeds.sel(b)@),
        cbit: stream_bit(stm, b) != cw.control_bits.sel(b),
    }
}

/// The field contribution the same level folds into the accumulator: the
/// masked element at the path bit plus the selected codeword's element.
pub open spec fn step_delta(st: PathState, cwp: Pair<CodeWord>, b: bool) -> int {
    let stm = prg_stream(st.seed);
    let cw = cwp.sel(st.cbit);
    f_add(stream_elem(stm, b), cw.elems.sel(b).val as int)
}

/// The sum of the contributions of levels `i..` of the walk that starts at
/// `st` and follows the path bits `xbits` through the codewords `cws`.
pub open spec fn walk_from(st: PathState, cws: Seq<Pair<CodeWord>>, xbits: Seq<bool>, i: int) -> int
    decreases xbits.len() - i,
{
    if i < 0 || i >= xbits.len() {
        0
    } else {
        f_add(
            step_delta(st, cws[i], xbits[i]),
            walk_from(step_state(st, cws[i], xbits[i]), cws, xbits, i + 1),
        )
    }
}

/// Bit `i` of the evaluation point, least-significant bit first: level `i` of
/// the tree walk consumes bit `i` of `x`.
pub open spec fn xbit(x: u64, i: nat) -> bool {
    ((x as nat) / pow2(i)) % 2 == 1
}

/// All `l` path bits of `x`.
pub open spec fn xbits_of(x: u64, l: nat) -> Seq<bool> {
    Seq::new(l, |i: int| xbit(x, i as nat))
}

/// A structurally valid key: one codeword pair per level, a supported depth,
/// and every seed and element of the right size.
pub open spec fn key_wf(k: Key) -> bool {
    &&& k.codewords@.len() == k.log_domain
    &&& k.log_domain <= 63
    &&& k.root.wf()
    &&& forall|i: int|
        0 <= i < k.codewords@.len() ==> (#[trigger] k.codewords@[i]).fst.wf()
            && k.codewords@[i].snd.wf()
}

/// The walk's starting state: the root child selected by the party index.
pub open spec fn init_state(k: Key, party: bool) -> PathState {
    PathState { seed: k.root.seeds.sel(party)@, cbit: k.root.control_bits.sel(party) }
}

/// The additive share that evaluating `k` on `x` yields for the given party:
/// the accumulated walk, negated for party 1 so that the two parties' shares
/// combine by field addition.
pub open spec fn share_of(k: Key, party: bool, x: u64) -> int {
    let w = walk_from(init_state(k, party), k.codewords@, xbits_of(x, k.log_domain as nat), 0);
    if party {
        f_neg(w)
    } else {
        w
    }
}

/// What the two parties together reconstruct at `x`.
pub open spec fn recon_of(k0: Key, k1: Key, x: u64) -> int {
    f_add(share_of(k0, false, x), share_of(k1, true, x))
}

/// Why an evaluation was refused.
#[derive(Clone, Copy, Debug, PartialEq, Eq)]
pub enum EvalError {
    /// The key's shape is inconsistent: wrong number of codeword pairs, an
    /// unsupported depth, or a seed or element of the wrong size.
    MalformedKey,
    /// The input does not fit in `log_domain` bits.
    InvalidInput,
}

fn node_ok(n: &Node) -> (b: bool)
    ensures
        b == n.wf(),
{
    n.seeds.fst.bytes.len() == SEED_LEN && n.seeds.snd.bytes.len() == SEED_LEN
        && n.elems.fst.val < MODULUS && n.elems.snd.val < MODULUS
}

/// Validate a key's shape; `true` exactly when the key is well formed.
pub fn check_key(key: &Key) -> (b: bool)
    ensures
        b == key_wf(*key),
{
    let cws: &Vec<Pair<CodeWord>> = &*key.codewords;
    if key.log_domain > 63 {
        return false;
    }
    if cws.len() != key.log_domain {
        return false;
    }
    if !node_ok(&key.root) {
        return false;
    }
    let n = cws.len();
    let mut i: usize = 0;
    while i < n
        invariant
            i <= n,
            cws@ == key.codewords@,
            n == cws@.len(),
            forall|k: int|
                0 <= k < i ==> (#[trigger] key.codewords@[k]).fst.wf()
                    && key.codewords@[k].snd.wf(),
        decreases n - i,
    {
        let cwp = &cws[i];
        if !node_ok(&cwp.fst) || !node_ok(&cwp.snd) {
            return false;
        }
        i = i + 1;
    }
    true
}

/// `2^e` as a machine integer.
pub fn pow2_u64(e: usize) -> (r: u64)
    requires
        e <= 63,
    ensures
        r == pow2(e as nat),
{
    let mut p: u64 = 1;
    let mut i: usize = 0;
    proof {
        lemma2_to64();
        lemma2_to64_rest();
    }
    while i < e
        invariant
            i <= e,
            e <= 63,
            p == pow2(i as nat),
        decreases e - i,
    {
        proof {
            if (i as nat) < 63 {
                lemma_pow2_strictly_increases(i as nat, 63);
            }
            lemma_pow2_unfold((i + 1) as nat);
            lemma2_to64_rest();
        }
        p = p * 2;
        i = i + 1;
    }
    p
}

/// Evaluate the party's additive share of the secret function at `x`.
///
/// The walk starts at the root child selected by `party`, runs exactly
/// `log_domain` levels — one PRG expansion per level, independent of the
/// value of `x` — and folds one corrected field element per level into the
/// accumulator; party 1 finally negates, so that the two shares reconstruct
/// by addition.  A malformed key is rejected before any PRG call; an input
/// outside the domain is rejected rather than truncated.
pub fn evaluate(key: &Key, party: bool, x: u64) -> (r: Result<Fp, EvalError>)
    ensures
        !key_wf(*key) ==> r == Err::<Fp, EvalError>(EvalError::MalformedKey),
        key_wf(*key) && x >= pow2(key.log_domain as nat) ==> r == Err::<Fp, EvalError>(
            EvalError::InvalidInput,
        ),
        key_wf(*key) && x < pow2(key.log_domain as nat) ==> (r matches Ok(s) && s.val
            == share_of(*key, party, x) && s.wf()),
{
    if !check_key(key) {
        return Err(EvalError::MalformedKey);
    }
    let l = key.log_domain;
    let bound = pow2_u64(l);
    if x >= bound {
        return Err(EvalError::InvalidInput);
    }
    let ghost xb = xbits_of(x, l as nat);
    let ghost cws_seq = key.codewords@;
    let mut cur = IntermediateNode::new(party, &key.root);
    let mut acc = Fp::zero();
    let mut y = x;
    let ghost start = init_state(*key, party);
    let ghost total = walk_from(start, cws_seq, xb, 0);
    proof {
        assert(PathState { seed: cur.seed@, cbit: cur.control_bit } == start);
        lemma_f_zero_add(0);
        lemma2_to64();
    }
    let mut i: usize = 0;
    while i < l
        invariant
            i <= l,
            key_wf(*key),
            l == key.log_domain,
            cws_seq == key.codewords@,
            xb == xbits_of(x, l as nat),
            total == walk_from(start, cws_seq, xb, 0),
            cur.seed.wf(),
            acc.wf(),
            y as nat == (x as nat) / pow2(i as nat),
            total == f_add(
                acc.val as int,
                walk_from(
                    (PathState { seed: cur.seed@, cbit: cur.control_bit }),
                    cws_seq,
                    xb,
                    i as int,
                ),
            ),
        decreases l - i,
    {
        let ghost st = PathState { seed: cur.seed@, cbit: cur.control_bit };
        let b = y % 2 == 1;
        proof {
            assert(b == xbit(x, i as nat));
            assert(xb[i as int] == xbit(x, i as nat));
        }
        let masked = MaskedNode::sample_masked_node(&cur);
        let cws: &Vec<Pair<CodeWord>> = &*key.codewords;
        let cwp = &cws[i];
        let cw = cwp.get(cur.control_bit);
        proof {
            assert(cws_seq[i as int] == *cwp);
            assert(*cw == cwp.sel(st.cbit));
        }
        let ghost acc_before = acc.val as int;
        cur = IntermediateNode::unmask_node(b, masked, cw, &mut acc);
        proof {
            let stm = prg_stream(st.seed);
            assert(PathState { seed: cur.seed@, cbit: cur.control_bit } == step_state(
                st,
                cws_seq[i as int],
                b,
            ));
            assert(acc.val as int == f_add(acc_before, step_delta(st, cws_seq[i as int], b)));
            lemma_f_add_assoc(
                acc_before,
                step_delta(st, cws_seq[i as int], b),
                walk_from(step_state(st, cws_seq[i as int], b), cws_seq, xb, i + 1),
            );
            // y' == x / pow2(i + 1)
            lemma_pow2_pos(i as nat);
            lemma_pow2_unfold((i + 1) as nat);
            lemma_div_denominator(x as int, pow2(i as nat) as int, 2);
        }
        y = y / 2;
        i = i + 1;
    }
    proof {
        assert(walk_from(
            PathState { seed: cur.seed@, cbit: cur.control_bit },
            cws_seq,
            xb,
            l as int,
        ) == 0);
        lemma_f_zero_add(acc.val as int);
        assert(acc.val as int == total);
    }
    if party {
        Ok(acc.neg())
    } else {
        Ok(acc)
    }
}

/// Bit `i` of a nonnegative integer.
pub open spec fn nbit(x: int, i: nat) -> bool {
    (x / (pow2(i) as int)) % 2 == 1
}

proof fn lemma_bits_inj_int(x: int, y: int, l: nat)
    requires
        0 <= x < pow2(l),
        0 <= y < pow2(l),
        forall|i: nat| i < l ==> (#[trigger] nbit(x, i)) == nbit(y, i),
    ensures
        x == y,
    decreases l,
{
    lemma2_to64();
    if l == 0 {
        assert(pow2(0) == 1);
    } else {
        assert(nbit(x, 0) == nbit(y, 0));
        lemma_div_basics(x);
        lemma_div_basics(y);
        assert(x % 2 == y % 2);
        let x2 = x / 2;
        let y2 = y / 2;
        lemma_pow2_unfold(l);
        lemma_multiply_divide_lt(x, 2, pow2((l - 1) as nat) as int);
        lemma_multiply_divide_lt(y, 2, pow2((l - 1) as nat) as int);
        assert forall|i: nat| i < (l - 1) as nat implies (#[trigger] nbit(x2, i)) == nbit(y2, i) by {
            lemma_pow2_pos(i);
            lemma_div_denominator(x, 2, pow2(i) as int);
            lemma_div_denominator(y, 2, pow2(i) as int);
            lemma_pow2_unfold((i + 1) as nat);
            assert(nbit(x2, i) == nbit(x, (i + 1) as nat));
            assert(nbit(y2, i) == nbit(y, (i + 1) as nat));
            assert(nbit(x, (i + 1) as nat) == nbit(y, (i + 1) as nat));
        }
        lemma_bits_inj_int(x2, y2, (l - 1) as nat);
        lemma_fundamental_div_mod(x, 2);
        lemma_fundamental_div_mod(y, 2);
    }
}

/// A value in the domain is determined by its `l` path bits: two inputs with
/// the same bit decomposition are the same input.
pub proof fn lemma_xbits_inj(x: u64, y: u64, l: nat)
    requires
        x < pow2(l),
        y < pow2(l),
        xbits_of(x, l) == xbits_of(y, l),
    ensures
        x == y,
{
    assert forall|i: nat| i < l implies (#[trigger] nbit(x as int, i)) == nbit(y as int, i) by {
        assert(xbits_of(x, l)[i as int] == xbits_of(y, l)[i as int]);
        assert(xbits_of(x, l)[i as int] == xbit(x, i));
        assert(xbits_of(y, l)[i as int] == xbit(y, i));
    }
    lemma_bits_inj_int(x as int, y as int, l);
}

/// The number of PRG expansions the walk performs from level `i` on.
pub open spec fn walk_calls(st: PathState, cws: Seq<Pair<CodeWord>>, xbits: Seq<bool>, i: int) -> int
    decreases xbits.len() - i,
{
    if i < 0 || i >= xbits.len() {
        0
    } else {
        1 + walk_calls(step_state(st, cws[i], xbits[i]), cws, xbits, i + 1)
    }
}

/// Uniform work: the evaluation walk performs exactly one PRG expansion per
/// level — `log_domain` in total — whatever the starting state, the codewords
/// and the path bits, so the work done is independent of the value of `x`.
pub proof fn lemma_uniform_work(st: PathState, cws: Seq<Pair<CodeWord>>, xbits: Seq<bool>, i: int)
    requires
        0 <= i <= xbits.len(),
    ensures
        walk_calls(st, cws, xbits, i) == xbits.len() - i,
    decreases xbits.len() - i,
{
    if i < xbits.len() {
        lemma_uniform_work(step_state(st, cws[i], xbits[i]), cws, xbits, i + 1);
    }
}

/// Determinism: the share is a function of the key, the party index and the
/// input alone — two evaluations of equal keys on the same input agree.
pub proof fn lemma_evaluate_deterministic(k1: Key, k2: Key, party: bool, x: u64)
    requires
        k1 == k2,
    ensures
        share_of(k1, party, x) == share_of(k2, party, x),
{
}

} // verus!
