use vstd::prelude::*;
use vstd::arithmetic::div_mod::*;

verus! {

/// The order of the output field: a prime small enough that a sum of two
/// elements fits in a `u64` without overflow.
pub const MODULUS: u64 = 2147483647;

/// Addition in the field, over mathematical integers.
pub open spec fn f_add(a: int, b: int) -> int {
    (a + b) % (MODULUS as int)
}

/// Additive inverse in the field.
pub open spec fn f_neg(a: int) -> int {
    ((MODULUS as int) - a) % (MODULUS as int)
}

/// Subtraction in the field.
pub open spec fn f_sub(a: int, b: int) -> int {
    f_add(a, f_neg(b))
}

/// Subtraction in the field is the remainder of the integer difference.
pub proof fn lemma_f_sub_char(a: int, b: int)
    ensures
        f_sub(a, b) == (a - b) % (MODULUS as int),
{
    let m = MODULUS as int;
    lemma_mod_add_multiples_vanish(-b, m);
    assert(f_neg(b) == (-b) % m);
    lemma_add_mod_noop_right(a, -b, m);
}

/// Every field operation lands in `[0, MODULUS)`.
pub proof fn lemma_f_range(a: int, b: int)
    ensures
        0 <= f_add(a, b) < MODULUS,
        0 <= f_sub(a, b) < MODULUS,
        0 <= f_neg(a) < MODULUS,
{
    let m = MODULUS as int;
    lemma_mod_division_less_than_divisor(a + b, m);
    lemma_mod_division_less_than_divisor(m - a, m);
    lemma_mod_division_less_than_divisor(a + f_neg(b), m);
}

/// Adding an element back onto a difference restores the minuend.
pub proof fn lemma_f_cancel(x: int, y: int)
    requires
        0 <= x < MODULUS,
    ensures
        f_add(y, f_sub(x, y)) == x,
{
    let m = MODULUS as int;
    lemma_f_sub_char(x, y);
    lemma_add_mod_noop_right(y, x - y, m);
    lemma_small_mod(x as nat, MODULUS as nat);
}

/// The correction-word equation: offsetting `y` by the difference to `x`
/// shifted by `t` makes the two corrected contributions differ by exactly `t`.
pub proof fn lemma_f_solve_target(x: int, y: int, t: int)
    requires
        0 <= t < MODULUS,
    ensures
        f_sub(x, f_add(y, f_sub(f_sub(x, y), t))) == t,
{
    let m = MODULUS as int;
    lemma_f_sub_char(x, y);
    lemma_f_sub_char((x - y) % m, t);
    lemma_sub_mod_noop(x - y, t, m);
    lemma_small_mod(t as nat, MODULUS as nat);
    assert(f_sub(f_sub(x, y), t) == (x - y - t) % m);
    lemma_add_mod_noop_right(y, x - y - t, m);
    assert(f_add(y, f_sub(f_sub(x, y), t)) == (x - t) % m);
    lemma_f_sub_char(x, (x - t) % m);
    lemma_sub_mod_noop_right(x, x - t, m);
}

/// A difference of sums splits into a sum of differences.
pub proof fn lemma_f_split(c0: int, r0: int, c1: int, r1: int)
    ensures
        f_sub(f_add(c0, r0), f_add(c1, r1)) == f_add(f_sub(c0, c1), f_sub(r0, r1)),
{
    let m = MODULUS as int;
    lemma_f_sub_char(f_add(c0, r0), f_add(c1, r1));
    lemma_sub_mod_noop(c0 + r0, c1 + r1, m);
    lemma_f_sub_char(c0, c1);
    lemma_f_sub_char(r0, r1);
    lemma_add_mod_noop(c0 - c1, r0 - r1, m);
}

/// An element subtracted from itself vanishes.
pub proof fn lemma_f_self_cancel(w: int)
    ensures
        f_sub(w, w) == 0,
{
    let m = MODULUS as int;
    lemma_f_sub_char(w, w);
    lemma_small_mod(0, MODULUS as nat);
}

/// Zero is the additive identity.
pub proof fn lemma_f_zero_add(w: int)
    requires
        0 <= w < MODULUS,
    ensures
        f_add(0, w) == w,
        f_add(w, 0) == w,
    {
    lemma_small_mod(w as nat, MODULUS as nat);
}

/// An element of the prime field of order `MODULUS`: the scalar type in which
/// the two parties' additive output shares live.
#[derive(Clone, Debug, PartialEq, Eq)]
pub struct Fp {
    pub val: u64,
}

impl Fp {
    /// A value is a field element when it is fully reduced.
    pub open spec fn wf(&self) -> bool {
        self.val < MODULUS
    }

    /// The additive identity.
    pub fn zero() -> (r: Fp)
        ensures
            r.val == 0,
            r.wf(),
    {
        Fp { val: 0 }
    }

    /// The multiplicative identity.
    pub fn one() -> (r: Fp)
        ensures
            r.val == 1,
            r.wf(),
    {
        Fp { val: 1 }
    }

    /// Reduce an arbitrary machine integer into the field.
    pub fn from_u64(x: u64) -> (r: Fp)
        ensures
            r.val == (x as int) % (MODULUS as int),
            r.wf(),
    {
        Fp { val: x % MODULUS }
    }

    /// Field addition.
    pub fn add(&self, other: &Fp) -> (r: Fp)
        requires
            self.wf(),
            other.wf(),
        ensures
            r.val == f_add(self.val as int, other.val as int),
            r.wf(),
    {
        Fp { val: (self.val + other.val) % MODULUS }
    }

    /// Additive inverse.
    pub fn neg(&self) -> (r: Fp)
        requires
            self.wf(),
        ensures
            r.val == f_neg(self.val as int),
            r.wf(),
    {
        Fp { val: (MODULUS - self.val) % MODULUS }
    }

    /// Field subtraction.
    pub fn sub(&self, other: &Fp) -> (r: Fp)
        requires
            self.wf(),
            other.wf(),
        ensures
            r.val == f_sub(self.val as int, other.val as int),
            r.wf(),
    {
        self.add(&other.neg())
    }

    /// An explicit copy, so that a share can be retained across folds.
    pub fn dup(&self) -> (r: Fp)
        ensures
            r == *self,
    {
        Fp { val: self.val }
    }
}

} // verus!

verus! {

/// Field addition is associative.
pub proof fn lemma_f_add_assoc(a: int, b: int, c: int)
    ensures
        f_add(f_add(a, b), c) == f_add(a, f_add(b, c)),
{
    let m = MODULUS as int;
    lemma_add_mod_noop_right(c, a + b, m);
    assert(f_add(f_add(a, b), c) == (a + b + c) % m);
    lemma_add_mod_noop_right(a, b + c, m);
}

} // verus!
