//! Facts about flattened and filtered sequences.
use vstd::prelude::*;

verus! {

/// Flattening one more sequence appends it.
pub(crate) proof fn lemma_flatten_step<A>(all: Seq<Seq<A>>, s: int)
    requires
        0 <= s < all.len(),
    ensures
        all.take(s + 1).flatten() == all.take(s).flatten() + all[s],
{
    all.lemma_take_succ_push(s);
    all.take(s).lemma_flatten_push(all[s]);
}

/// The flattened sequence, split around the part `s`.
pub(crate) proof fn lemma_flatten_split<A>(all: Seq<Seq<A>>, s: int)
    requires
        0 <= s < all.len(),
    ensures
        all.flatten() == all.take(s).flatten() + all[s] + all.skip(s + 1).flatten(),
{
    lemma_flatten_step(all, s);
    assert(all =~= all.take(s + 1) + all.skip(s + 1));
    vstd::seq_lib::lemma_flatten_concat(all.take(s + 1), all.skip(s + 1));
}

/// An element of a flattened mapping comes from one of the mapped elements.
pub(crate) proof fn lemma_flat_map_contains<A, B>(s: Seq<A>, f: spec_fn(A) -> Seq<B>, b: B)
    requires
        s.flat_map(f).contains(b),
    ensures
        exists|i: int| 0 <= i < s.len() && (#[trigger] f(s[i])).contains(b),
    decreases s.len(),
{
    if s.len() == 0 {
        assert(s.map_values(f) =~= Seq::<Seq<B>>::empty());
    } else {
        let front = s.drop_last();
        assert(s =~= front.push(s.last()));
        front.lemma_flat_map_push(f, s.last());
        let whole = front.flat_map(f) + f(s.last());
        let k = choose|k: int| 0 <= k < whole.len() && whole[k] == b;
        if k < front.flat_map(f).len() {
            assert(front.flat_map(f)[k] == b);
            lemma_flat_map_contains(front, f, b);
            let i = choose|i: int| 0 <= i < front.len() && (#[trigger] f(front[i])).contains(b);
            assert(f(s[i]).contains(b));
        } else {
            assert(f(s.last())[k - front.flat_map(f).len()] == b);
            assert(f(s[s.len() - 1]).contains(b));
        }
    }
}

/// Every element of a mapped element is in the flattened mapping.
pub(crate) proof fn lemma_flat_map_covers<A, B>(s: Seq<A>, f: spec_fn(A) -> Seq<B>, i: int, b: B)
    requires
        0 <= i < s.len(),
        f(s[i]).contains(b),
    ensures
        s.flat_map(f).contains(b),
    decreases s.len(),
{
    let front = s.drop_last();
    assert(s =~= front.push(s.last()));
    front.lemma_flat_map_push(f, s.last());
    let whole = front.flat_map(f) + f(s.last());
    if i == s.len() - 1 {
        let last = f(s[i]);
        let k = choose|k: int| 0 <= k < last.len() && last[k] == b;
        assert(whole[front.flat_map(f).len() + k] == b);
    } else {
        lemma_flat_map_covers(front, f, i, b);
        let head = front.flat_map(f);
        let k = choose|k: int| 0 <= k < head.len() && head[k] == b;
        assert(whole[k] == b);
    }
}

/// An element that a partial mapping keeps is in the filtered mapping.
pub(crate) proof fn lemma_filter_map_covers<A, B>(
    s: Seq<A>,
    f: spec_fn(A) -> Option<B>,
    i: int,
    b: B,
)
    requires
        0 <= i < s.len(),
        f(s[i]) == Some(b),
    ensures
        s.filter_map(f).contains(b),
    decreases s.len(),
{
    let front = s.drop_last();
    let kept = front.filter_map(f);
    if i == s.len() - 1 {
        assert((kept + seq![b])[kept.len() as int] == b);
    } else {
        lemma_filter_map_covers(front, f, i, b);
        let k = choose|k: int| 0 <= k < kept.len() && kept[k] == b;
        match f(s.last()) {
            Some(last) => {
                assert((kept + seq![last])[k] == b);
            },
            None => {},
        }
    }
}

} // verus!
