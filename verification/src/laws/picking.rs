//! Some of a list, in its order.

use vstd::prelude::*;

verus! {

/// Whether `at` are the places that are marked, all of them, in order.
pub open spec fn picks(at: Seq<int>, marks: Seq<bool>) -> bool {
    &&& forall|k: int| 0 <= k < at.len() ==> 0 <= #[trigger] at[k] < marks.len() && marks[at[k]]
    &&& forall|j: int, k: int| 0 <= j < k < at.len() ==> #[trigger] at[j] < #[trigger] at[k]
    &&& forall|i: int| #[trigger] at.contains(i) <==> 0 <= i < marks.len() && marks[i]
}

/// The places with one more mark.
pub open spec fn picked(at: Seq<int>, marks: Seq<bool>, mark: bool) -> Seq<int> {
    if mark {
        at.push(marks.len() as int)
    } else {
        at
    }
}

pub(crate) proof fn lemma_picked(at: Seq<int>, marks: Seq<bool>, mark: bool)
    requires
        picks(at, marks),
    ensures
        picks(picked(at, marks, mark), marks.push(mark)),
{
    let more = marks.push(mark);
    let places = picked(at, marks, mark);
    let n = marks.len() as int;
    assert forall|k: int| 0 <= k < places.len() implies 0 <= #[trigger] places[k] < more.len()
        && more[places[k]] by {
        if k < at.len() {
            assert(places[k] == at[k]);
        }
    }
    assert forall|j: int, k: int| 0 <= j < k < places.len() implies #[trigger] places[j]
        < #[trigger] places[k] by {
        assert(places[j] == at[j]);
        if k < at.len() {
            assert(at[j] < at[k]);
        }
    }
    assert forall|i: int| #[trigger]
        places.contains(i) <==> 0 <= i < more.len() && more[i] by {
        if places.contains(i) {
            let k = choose|k: int| 0 <= k < places.len() && places[k] == i;
            if k < at.len() {
                assert(at[k] == i);
                assert(at.contains(i));
            }
        }
        if at.contains(i) {
            let k = choose|k: int| 0 <= k < at.len() && at[k] == i;
            assert(places[k] == i);
        }
        if i == n && mark {
            assert(places[places.len() - 1] == i);
        }
        if 0 <= i < n && more[i] {
            assert(marks[i]);
            assert(at.contains(i));
        }
    }
}

} // verus!
