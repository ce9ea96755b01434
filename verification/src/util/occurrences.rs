//! How often a value occurs in a sequence.

use vstd::prelude::*;

verus! {

/// How often `value` occurs in `values`.
pub open spec fn times<A>(values: Seq<A>, value: A) -> nat {
    values.filter(|x: A| x == value).len()
}

/// One more value occurs once more.
pub proof fn lemma_times_push<A>(values: Seq<A>, last: A, value: A)
    ensures
        times(values.push(last), value) == times(values, value) + (if last == value {
            1nat
        } else {
            0nat
        }),
{
    reveal(Seq::filter);
    assert(values.push(last).drop_last() =~= values);
}

/// In two sequences after one another a value occurs as often as in both.
pub proof fn lemma_times_add<A>(first: Seq<A>, second: Seq<A>, value: A)
    ensures
        times(first + second, value) == times(first, value) + times(second, value),
    decreases second.len(),
{
    if second.len() == 0 {
        assert(first + second =~= first);
        lemma_times_empty::<A>(value);
        assert(second =~= Seq::empty());
    } else {
        let less = second.drop_last();
        lemma_times_add(first, less, value);
        assert(first + second =~= (first + less).push(second.last()));
        assert(second =~= less.push(second.last()));
        lemma_times_push(first + less, second.last(), value);
        lemma_times_push(less, second.last(), value);
    }
}

/// Nothing occurs in an empty sequence.
pub proof fn lemma_times_empty<A>(value: A)
    ensures
        times(Seq::<A>::empty(), value) == 0,
{
    reveal(Seq::filter);
}

/// A value occurs at all iff the sequence contains it.
pub proof fn lemma_times_positive<A>(values: Seq<A>, value: A)
    ensures
        times(values, value) > 0 <==> values.contains(value),
    decreases values.len(),
{
    if values.len() == 0 {
        assert(values =~= Seq::empty());
        lemma_times_empty::<A>(value);
    } else {
        let less = values.drop_last();
        lemma_times_positive(less, value);
        assert(values =~= less.push(values.last()));
        lemma_times_push(less, values.last(), value);
        if less.contains(value) {
            let k = choose|k: int| 0 <= k < less.len() && less[k] == value;
            assert(values[k] == value);
        }
        if values.contains(value) && values.last() != value {
            let k = choose|k: int| 0 <= k < values.len() && values[k] == value;
            assert(less[k] == value);
        }
    }
}

/// One more packet adds what it holds.
pub proof fn lemma_times_flatten_push<A>(packets: Seq<Seq<A>>, packet: Seq<A>, value: A)
    ensures
        packets.push(packet).flatten() == packets.flatten() + packet,
        times(packets.push(packet).flatten(), value) == times(packets.flatten(), value) + times(
            packet,
            value,
        ),
{
    packets.lemma_flatten_push(packet);
    lemma_times_add(packets.flatten(), packet, value);
}

} // verus!
