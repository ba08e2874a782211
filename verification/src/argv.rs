//! Turning one raw line of user input into argument words.

pub mod error;
pub mod expand;
pub mod split;

use vstd::prelude::*;

verus! {

/// A find that also consults the element before each candidate: hands
/// back the first element for which `current` holds while `previous`
/// holds of the element one earlier — or of nothing, for the first
/// element. The scanners of this crate spell this pattern out as indexed
/// loops instead; this helper serves callers that want it ready-made.
pub fn find_with_previous<F: Fn(Option<i64>) -> bool, G: Fn(i64) -> bool>(
    items: &Vec<i64>,
    previous: F,
    current: G,
) -> (r: Option<i64>)
    requires
        forall|x: Option<i64>| #[trigger] call_requires(previous, (x,)),
        forall|x: i64| #[trigger] call_requires(current, (x,)),
    ensures
        (match r {
            Some(v) => (exists|i: int| 0 <= i < items@.len() && items@[i] == v) && call_ensures(
                current,
                (v,),
                true,
            ),
            None => true,
        }),
{
    if items.len() == 0 {
        return None;
    }
    let p0 = previous(None);
    let c0 = current(items[0]);
    if p0 && c0 {
        return Some(items[0]);
    }
    let mut j: usize = 1;
    while j < items.len()
        invariant
            1 <= j,
            forall|x: Option<i64>| #[trigger] call_requires(previous, (x,)),
            forall|x: i64| #[trigger] call_requires(current, (x,)),
        decreases items@.len() - j,
    {
        let p = previous(Some(items[j - 1]));
        let c = current(items[j]);
        if p && c {
            return Some(items[j]);
        }
        j = j + 1;
    }
    None
}

} // verus!
