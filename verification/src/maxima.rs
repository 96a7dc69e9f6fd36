//! The first greatest value of a sequence, by which strategies choose.
use vstd::prelude::*;

verus! {

/// Whether `at` is the place of the first greatest value of `values`.
pub open spec fn is_first_max(values: Seq<int>, at: int) -> bool {
    &&& 0 <= at < values.len()
    &&& forall|k: int| 0 <= k < values.len() ==> values[k] <= values[at]
    &&& forall|k: int| 0 <= k < at ==> values[k] < values[at]
}

/// The place of the first greatest value of a sequence that is not empty.
pub open spec fn first_max(values: Seq<int>) -> int {
    choose|at: int| is_first_max(values, at)
}

/// A sequence that is not empty has exactly one first greatest value.
pub proof fn lemma_first_max(values: Seq<int>)
    requires
        values.len() > 0,
    ensures
        is_first_max(values, first_max(values)),
        forall|at: int| is_first_max(values, at) ==> at == first_max(values),
    decreases values.len(),
{
    if values.len() == 1 {
        assert(is_first_max(values, 0));
    } else {
        let front = values.drop_last();
        lemma_first_max(front);
        let before = first_max(front);
        let at = if values.last() > front[before] {
            values.len() - 1
        } else {
            before
        };
        assert forall|k: int| 0 <= k < values.len() implies #[trigger] values[k] <= values[at] by {
            if k < front.len() {
                assert(front[k] <= front[before]);
            }
        }
        assert forall|k: int| 0 <= k < at implies #[trigger] values[k] < values[at] by {
            assert(front[k] <= front[before]);
            if at == before {
                assert(front[k] < front[before]);
            }
        }
        assert(is_first_max(values, at));
    }
    let chosen = first_max(values);
    assert forall|at: int| is_first_max(values, at) implies at == chosen by {
        if at < chosen {
            assert(values[at] < values[chosen]);
        } else if chosen < at {
            assert(values[chosen] < values[at]);
        }
    }
}

/// With one more value, the first greatest value moves to the new one only
/// if the new one is greater.
proof fn lemma_first_max_push(values: Seq<int>, value: int)
    requires
        values.len() > 0,
    ensures
        first_max(values.push(value)) == if value > values[first_max(values)] {
            values.len() as int
        } else {
            first_max(values)
        },
{
    lemma_first_max(values);
    lemma_first_max(values.push(value));
    let before = first_max(values);
    if value > values[before] {
        assert(is_first_max(values.push(value), values.len() as int));
    } else {
        assert(is_first_max(values.push(value), before));
    }
}

/// The values as integers without bound.
pub open spec fn as_ints(values: Seq<i128>) -> Seq<int> {
    Seq::new(values.len(), |i: int| values[i] as int)
}

/// The place of the first greatest of the values.
pub fn first_greatest(values: &Vec<i128>) -> (at: usize)
    requires
        values@.len() > 0,
    ensures
        at < values@.len(),
        at == first_max(as_ints(values@)),
{
    let ghost all = as_ints(values@);
    let mut best: usize = 0;
    let mut i: usize = 1;
    proof {
        lemma_first_max(all.take(1));
        assert(is_first_max(all.take(1), 0));
    }
    while i < values.len()
        invariant
            1 <= i <= values.len(),
            all == as_ints(values@),
            best < i,
            best == first_max(all.take(i as int)),
        decreases values.len() - i,
    {
        proof {
            assert(all.take(i + 1) =~= all.take(i as int).push(all[i as int]));
            lemma_first_max_push(all.take(i as int), all[i as int]);
            assert(all.take(i as int)[best as int] == values@[best as int]);
        }
        if values[i] > values[best] {
            best = i;
        }
        i += 1;
    }
    proof {
        assert(all.take(values.len() as int) =~= all);
    }
    best
}

} // verus!
