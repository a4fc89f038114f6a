use super::Vec2d;
use vstd::prelude::*;
use vstd::std_specs::cmp::PartialEqSpec;

verus! {

impl<T: PartialEq> Vec2d<T> {
    /// Whether some cell holds a value equal to `value`.
    pub fn contains(&self, value: T) -> (found: bool)
        requires
            self.wf(),
        ensures
            T::obeys_eq_spec() ==> found == exists|i: int|
                0 <= i < self.entries().len() && (#[trigger] self.entries()[i]).eq_spec(&value),
    {
        proof {
            self.lemma_entries();
        }
        let n = self.flattened.len();
        let mut i: usize = 0;
        while i < n
            invariant
                n == self.flattened@.len(),
                self.entries() == self.flattened@,
                i <= n,
                T::obeys_eq_spec() ==> forall|j: int|
                    0 <= j < i ==> !(#[trigger] self.flattened@[j]).eq_spec(&value),
            decreases n - i,
        {
            if self.flattened[i] == value {
                proof {
                    if T::obeys_eq_spec() {
                        assert(self.entries()[i as int].eq_spec(&value));
                    }
                }
                return true;
            }
            i += 1;
        }
        false
    }
}

} // verus!
