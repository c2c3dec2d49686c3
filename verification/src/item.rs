use vstd::prelude::*;

verus! {

/// The code-generator capability: an item yields, for each slot index, an
/// address that selects a bit of a sketch. `code_spec` is the address as a
/// mathematical value and `slot_ok` says which slots may be queried;
/// `get_code` must return the same address for the same slot every time, so
/// that an item toggled into a sketch can be checked later against identical
/// addresses.
pub trait Item {
    spec fn code_spec(&self, i: u64) -> usize;

    spec fn slot_ok(&self, i: u64) -> bool;

    fn get_code(&self, i: u64) -> (r: usize)
        requires
            self.slot_ok(i),
        ensures
            r == self.code_spec(i),
    ;
}

/// Relies on rand::random: draws a uniformly distributed 64-bit value and
/// truncates it to `usize`. Nothing is promised of the value; callers must
/// hold for every outcome.
#[verifier::external_body]
pub(crate) fn random_usize() -> usize {
    rand::random::<u64>() as usize
}

/// An item whose addresses are a stored list of codes, one per slot. `new`
/// draws the codes at random; `from_codes` takes them from the caller, for
/// deterministic use.
#[derive(Clone, PartialEq, Eq, Hash)]
pub struct TestItem {
    pub points: Vec<usize>,
}

impl TestItem {
    /// An item with 15 randomly drawn codes.
    pub fn new() -> (r: Self)
        ensures
            r.points@.len() == 15,
    {
        let mut codes: Vec<usize> = Vec::new();
        let mut i: usize = 0;
        while i < 15
            invariant
                codes@.len() == i,
                i <= 15,
            decreases 15 - i,
        {
            codes.push(random_usize());
            i = i + 1;
        }
        TestItem { points: codes }
    }

    /// An item with the given codes.
    pub fn from_codes(points: Vec<usize>) -> (r: Self)
        ensures
            r.points@ == points@,
    {
        TestItem { points }
    }
}

impl Item for TestItem {
    open spec fn code_spec(&self, i: u64) -> usize {
        self.points@[i as int]
    }

    open spec fn slot_ok(&self, i: u64) -> bool {
        (i as int) < self.points@.len()
    }

    fn get_code(&self, i: u64) -> (r: usize) {
        let n = self.points.len();
        proof {
            assert((i as int) < (n as int));
        }
        self.points[i as usize]
    }
}

} // verus!
