//! Laws of order: comparing numbers, finding the largest, sorting.
use vstd::prelude::*;

use crate::ieee::Double;
use crate::order::{last_max_index, law_last_max, precedes, stable_order_of};

verus! {

/// Numbers compare by their exact values, and a NaN with nothing.
pub proof fn law_comparisons(
    a: Double,
    b: Double,
    less: bool,
    at_most: bool,
    largest: Double,
    size: Double,
)
    requires
        call_ensures(Double::lt, (&a, &b), less),
        call_ensures(Double::le, (&a, &b), at_most),
        call_ensures(Double::max, (a, b), largest),
        call_ensures(Double::abs, (&a,), size),
    ensures
        less <==> !a.nan() && !b.nan() && a.units() < b.units(),
        at_most <==> !a.nan() && !b.nan() && a.units() <= b.units(),
        a.nan() ==> largest == b,
        b.nan() && !a.nan() ==> largest == a,
        !a.nan() && !b.nan() ==> {
            &&& largest == a || largest == b
            &&& largest.units() >= a.units() && largest.units() >= b.units()
        },
        crate::laws::files::is_size_of(size, a),
{
    crate::laws::files::lemma_absolute(a);
}

/// The position of the largest key: none is larger, and none behind it as large.
pub proof fn law_largest_key(keys: Vec<Double>, r: usize)
    requires
        call_ensures(last_max_index, (&keys,), r),
        keys@.len() > 0,
    ensures
        r < keys@.len(),
        forall|i: int|
            0 <= i < keys@.len() ==> (#[trigger] keys@[i]).units() <= keys@[r as int].units(),
        forall|i: int|
            r < i < keys@.len() ==> (#[trigger] keys@[i]).units() < keys@[r as int].units(),
{
    law_last_max(keys@);
}

/// Sorting gives every position once, in ascending order of the keys, equal keys as they
/// stand.
pub proof fn law_sorting(keys: Vec<Double>, r: Vec<usize>)
    requires
        call_ensures(stable_order_of, (&keys,), r),
    ensures
        r@.len() == keys@.len(),
        forall|x: usize| x < keys@.len() ==> r@.contains(x),
        forall|i: int| 0 <= i < r@.len() ==> (#[trigger] r@[i]) < keys@.len(),
        forall|i: int, j: int|
            #![trigger r@[i], r@[j]]
            0 <= i < j < r@.len() ==> {
                let a = r@[i] as int;
                let b = r@[j] as int;
                &&& a != b
                &&& keys@[a].units() <= keys@[b].units()
                &&& keys@[a].units() == keys@[b].units() ==> a < b
            },
{
    assert forall|i: int, j: int|
        #![trigger r@[i], r@[j]]
        0 <= i < j < r@.len() implies {
        let a = r@[i] as int;
        let b = r@[j] as int;
        &&& a != b
        &&& keys@[a].units() <= keys@[b].units()
        &&& keys@[a].units() == keys@[b].units() ==> a < b
    } by {
        assert(precedes(keys@, r@[i] as int, r@[j] as int));
    }
}

} // verus!
