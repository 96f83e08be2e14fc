//! Facts about sequences.

use vstd::prelude::*;

verus! {

/// What a sequence holds is its first element, or one of the rest.
pub(crate) proof fn lemma_first_or_rest<A>(sequence: Seq<A>)
    requires
        sequence.len() > 0,
    ensures
        forall|item: A|
            #![trigger sequence.contains(item)]
            #![trigger sequence.drop_first().contains(item)]
            sequence.contains(item) <==> item == sequence[0] || sequence.drop_first().contains(
                item,
            ),
{
    assert forall|item: A|
        #![trigger sequence.contains(item)]
        #![trigger sequence.drop_first().contains(item)]
        sequence.contains(item) <==> item == sequence[0] || sequence.drop_first().contains(
            item,
        ) by {
        if sequence.contains(item) && item != sequence[0] {
            let i = choose|i: int| 0 <= i < sequence.len() && sequence[i] == item;
            assert(sequence.drop_first()[i - 1] == item);
        }
        if sequence.drop_first().contains(item) {
            let i = choose|i: int|
                0 <= i < sequence.drop_first().len() && sequence.drop_first()[i] == item;
            assert(sequence[i + 1] == item);
        }
    }
}

/// A filter keeps what it should, and nothing else.
pub(crate) proof fn lemma_filter_keeps<A>(sequence: Seq<A>, pred: spec_fn(A) -> bool)
    ensures
        forall|item: A| #[trigger]
            sequence.filter(pred).contains(item) <==> sequence.contains(item) && pred(item),
{
    assert forall|item: A| #[trigger]
        sequence.filter(pred).contains(item) <==> sequence.contains(item) && pred(item) by {
        let kept = sequence.filter(pred);
        if kept.contains(item) {
            sequence.lemma_filter_contains_rev(pred, item);
            let i = choose|i: int| 0 <= i < kept.len() && kept[i] == item;
            sequence.lemma_filter_pred(pred, i);
        }
        if sequence.contains(item) && pred(item) {
            let i = choose|i: int| 0 <= i < sequence.len() && sequence[i] == item;
            sequence.lemma_filter_contains(pred, i);
        }
    }
}

/// A filter repeats nothing that the sequence does not.
pub(crate) proof fn lemma_filter_once<A>(sequence: Seq<A>, pred: spec_fn(A) -> bool)
    requires
        sequence.no_duplicates(),
    ensures
        sequence.filter(pred).no_duplicates(),
    decreases sequence.len(),
{
    reveal(Seq::filter);
    if sequence.len() > 0 {
        let fore = sequence.drop_last();
        let last = sequence.last();
        lemma_filter_once(fore, pred);
        lemma_filter_keeps(fore, pred);
        assert(!fore.contains(last));
        assert(!fore.filter(pred).contains(last));
    }
}

} // verus!
