//! Facts about filtering a sequence after an insertion, used to show that
//! the insertion sorts keep equal items in their original order.
use vstd::prelude::*;

verus! {

/// Inserting an item the predicate rejects leaves the filtered sequence as it was.
pub proof fn lemma_filter_insert_rejected<T>(s: Seq<T>, j: int, item: T, p: spec_fn(T) -> bool)
    requires
        0 <= j <= s.len(),
        !p(item),
    ensures
        s.insert(j, item).filter(p) == s.filter(p),
    decreases s.len(),
{
    reveal_with_fuel(Seq::filter, 1);
    let t = s.insert(j, item);
    if j == s.len() {
        assert(t.drop_last() =~= s);
    } else {
        assert(t.drop_last() =~= s.drop_last().insert(j, item));
        assert(t.last() == s.last());
        lemma_filter_insert_rejected(s.drop_last(), j, item, p);
    }
}

/// Inserting an accepted item behind every accepted element appends it to
/// the filtered sequence.
pub proof fn lemma_filter_insert_after<T>(s: Seq<T>, j: int, item: T, p: spec_fn(T) -> bool)
    requires
        0 <= j <= s.len(),
        p(item),
        forall|q: int| j <= q < s.len() ==> !p(#[trigger] s[q]),
    ensures
        s.insert(j, item).filter(p) == s.filter(p).push(item),
    decreases s.len(),
{
    reveal_with_fuel(Seq::filter, 1);
    let t = s.insert(j, item);
    if j == s.len() {
        assert(t.drop_last() =~= s);
    } else {
        assert(t.drop_last() =~= s.drop_last().insert(j, item));
        assert(t.last() == s.last());
        assert(!p(s[s.len() - 1]));
        lemma_filter_insert_after(s.drop_last(), j, item, p);
    }
}

/// Filtering a sequence with one more item at its end.
pub proof fn lemma_filter_push<T>(s: Seq<T>, item: T, p: spec_fn(T) -> bool)
    ensures
        s.push(item).filter(p) == if p(item) { s.filter(p).push(item) } else { s.filter(p) },
{
    reveal_with_fuel(Seq::filter, 1);
    assert(s.push(item).drop_last() =~= s);
}

} // verus!
