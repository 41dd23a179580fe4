use vstd::prelude::*;

verus! {

/// The byte length of every PRG seed.
pub const SEED_LEN: usize = 32;

/// Byte-wise XOR of two equal-length byte sequences.
pub open spec fn xor_seq(a: Seq<u8>, b: Seq<u8>) -> Seq<u8> {
    Seq::new(a.len(), |i: int| a[i] ^ b[i])
}

/// Re-joining: XOR-ing `b` with the offset `(b XOR a) XOR r` lands on the
/// same value as XOR-ing `a` with `r`.  This is the seed-correction equation
/// the dealer relies on to make the two parties' corrected seeds collide.
pub proof fn lemma_xor_rejoin(a: Seq<u8>, b: Seq<u8>, r: Seq<u8>)
    requires
        a.len() == b.len(),
        b.len() == r.len(),
    ensures
        xor_seq(b, xor_seq(xor_seq(b, a), r)) == xor_seq(a, r),
{
    let lhs = xor_seq(b, xor_seq(xor_seq(b, a), r));
    let rhs = xor_seq(a, r);
    assert forall|i: int| 0 <= i < a.len() implies lhs[i] == rhs[i] by {
        let x: u8 = b[i];
        let y: u8 = a[i];
        let z: u8 = r[i];
        assert(x ^ ((x ^ y) ^ z) == y ^ z) by (bit_vector);
    }
    assert(lhs =~= rhs);
}

/// A fixed-length cryptographic seed: the input and output unit of the PRG
/// and the XOR-corrected component of every tree node.
#[derive(Clone)]
pub struct Seed {
    pub bytes: Vec<u8>,
}

impl View for Seed {
    type V = Seq<u8>;

    open spec fn view(&self) -> Seq<u8> {
        self.bytes@
    }
}

impl Seed {
    /// A seed always holds exactly `SEED_LEN` bytes.
    pub open spec fn wf(&self) -> bool {
        self@.len() == SEED_LEN
    }

    /// The all-zero seed.
    pub fn zero() -> (r: Seed)
        ensures
            r.wf(),
            forall|i: int| 0 <= i < SEED_LEN ==> r@[i] == 0u8,
    {
        let mut bytes: Vec<u8> = Vec::new();
        let mut i: usize = 0;
        while i < SEED_LEN
            invariant
                i <= SEED_LEN,
                bytes@.len() == i,
                forall|k: int| 0 <= k < i ==> bytes@[k] == 0u8,
            decreases SEED_LEN - i,
        {
            bytes.push(0u8);
            i = i + 1;
        }
        Seed { bytes }
    }

    /// An explicit byte-wise copy.
    pub fn dup(&self) -> (r: Seed)
        ensures
            r@ == self@,
    {
        let mut bytes: Vec<u8> = Vec::new();
        let n = self.bytes.len();
        let mut i: usize = 0;
        while i < n
            invariant
                i <= n,
                n == self@.len(),
                bytes@.len() == i,
                forall|k: int| 0 <= k < i ==> bytes@[k] == self@[k],
            decreases n - i,
        {
            bytes.push(self.bytes[i]);
            i = i + 1;
        }
        let r = Seed { bytes };
        assert(r@ =~= self@);
        r
    }

    /// Byte-wise XOR with another seed.
    pub fn xor(&self, other: &Seed) -> (r: Seed)
        requires
            self.wf(),
            other.wf(),
        ensures
            r@ == xor_seq(self@, other@),
            r.wf(),
    {
        let mut bytes: Vec<u8> = Vec::new();
        let mut i: usize = 0;
        while i < SEED_LEN
            invariant
                i <= SEED_LEN,
                self.wf(),
                other.wf(),
                bytes@.len() == i,
                forall|k: int| 0 <= k < i ==> bytes@[k] == (self@[k] ^ other@[k]),
            decreases SEED_LEN - i,
        {
            bytes.push(self.bytes[i] ^ other.bytes[i]);
            i = i + 1;
        }
        let r = Seed { bytes };
        assert(r@ =~= xor_seq(self@, other@));
        r
    }
}

} // verus!
