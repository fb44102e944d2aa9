use std::ops::Add;
use vstd::prelude::*;

verus! {

/// A 32-bit integer whose `+` is defined where the sum fits.
#[derive(PartialEq, Eq, Debug, Structural)]
pub struct Integer {
    pub value: i32,
}

impl Integer {
    pub fn new(value: i32) -> (r: Self)
        ensures
            r.value == value,
    {
        Self { value }
    }
}

impl Default for Integer {
    fn default() -> (r: Self)
        ensures
            r.value == 0,
    {
        Self { value: 0 }
    }
}

impl Add<Integer> for Integer {
    type Output = Integer;

    fn add(self, rhs: Integer) -> (r: Integer) {
        Self::new(self.value + rhs.value)
    }
}

impl vstd::std_specs::ops::AddSpecImpl<Integer> for Integer {
    open spec fn obeys_add_spec() -> bool {
        true
    }

    open spec fn add_req(self, rhs: Integer) -> bool {
        i32::MIN <= self.value + rhs.value <= i32::MAX
    }

    open spec fn add_spec(self, rhs: Integer) -> Integer {
        Integer { value: (self.value + rhs.value) as i32 }
    }
}

} // verus!
