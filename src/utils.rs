use vstd::prelude::*;

verus! {

/// A test of whether a vector holds at least `length` values.
pub fn min_length<T>(length: usize) -> (r: impl Fn(&Vec<T>) -> bool)
    ensures
        forall|values: &Vec<T>| #[trigger] r.requires((values,)),
        forall|values: &Vec<T>, b: bool| r.ensures((values,), b) ==> b == (values@.len() >= length),
{
    move |values: &Vec<T>| -> (b: bool)
        ensures
            b == (values@.len() >= length),
        { values.len() >= length }
}

/// Whether the vector holds a value.
pub fn is_not_empty<T>(values: &Vec<T>) -> (r: bool)
    ensures
        r == (values@.len() > 0),
{
    !values.is_empty()
}

} // verus!
