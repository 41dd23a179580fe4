use vstd::prelude::*;

verus! {

/// A fixed two-slot container addressed by a boolean index.  Slot `false`
/// holds the value associated with child/selector 0 and slot `true` the value
/// for child/selector 1; the two slots are never reordered.
#[derive(Clone)]
pub struct Pair<T> {
    pub fst: T,
    pub snd: T,
}

impl<T> Pair<T> {
    /// The value stored at boolean index `idx`.
    pub open spec fn sel(&self, idx: bool) -> T {
        if idx {
            self.snd
        } else {
            self.fst
        }
    }

    /// Borrow the slot at boolean index `idx`.
    pub fn get(&self, idx: bool) -> (r: &T)
        ensures
            *r == self.sel(idx),
    {
        if idx {
            &self.snd
        } else {
            &self.fst
        }
    }

    /// Build a pair by placing `at_idx` in the slot `idx` and `at_other` in
    /// the opposite slot.
    pub fn place(idx: bool, at_idx: T, at_other: T) -> (r: Pair<T>)
        ensures
            r.sel(idx) == at_idx,
            r.sel(!idx) == at_other,
    {
        if idx {
            Pair { fst: at_other, snd: at_idx }
        } else {
            Pair { fst: at_idx, snd: at_other }
        }
    }
}

} // verus!
