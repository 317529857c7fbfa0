use crate::record::Record;
use vstd::prelude::*;
use vstd::seq_lib::*;

verus! {

/// Records in ascending order of their distance key.
pub open spec fn sorted_by_distance(s: Seq<Record>) -> bool {
    forall|i: int, j: int|
        0 <= i < j < s.len() ==> (#[trigger] s[i]).distance_key <= (#[trigger] s[j]).distance_key
}

/// The records whose distance key is `k`.
pub open spec fn with_key(k: u64) -> spec_fn(Record) -> bool {
    |r: Record| r.distance_key == k
}

proof fn lemma_filter_singleton(r: Record, pred: spec_fn(Record) -> bool)
    ensures
        pred(r) ==> seq![r].filter(pred) == seq![r],
        !pred(r) ==> seq![r].filter(pred) == Seq::<Record>::empty(),
{
    reveal_with_fuel(Seq::filter, 2);
    assert(seq![r].drop_last() =~= Seq::<Record>::empty());
    assert(Seq::<Record>::empty().filter(pred) =~= Seq::<Record>::empty());
    if pred(r) {
        assert(seq![r].filter(pred) =~= seq![r]);
    }
}

proof fn lemma_filter_none(s: Seq<Record>, pred: spec_fn(Record) -> bool)
    requires
        forall|i: int| 0 <= i < s.len() ==> !pred(#[trigger] s[i]),
    ensures
        s.filter(pred) == Seq::<Record>::empty(),
    decreases s.len(),
{
    reveal(Seq::filter);
    if s.len() == 0 {
        assert(s.filter(pred) =~= Seq::<Record>::empty());
    } else {
        assert forall|i: int| 0 <= i < s.drop_last().len() implies !pred(
            #[trigger] s.drop_last()[i],
        ) by {
            assert(s.drop_last()[i] == s[i]);
        }
        lemma_filter_none(s.drop_last(), pred);
        assert(!pred(s.last()));
    }
}

/// Sorts the records in place, ascending by distance key.  The result is a
/// permutation of the input, and records with equal keys keep their
/// relative order.
pub fn sort_by_distance(records: &mut Vec<Record>)
    ensures
        sorted_by_distance(final(records)@),
        final(records)@.to_multiset() == old(records)@.to_multiset(),
        forall|k: u64| #[trigger] final(records)@.filter(with_key(k)) == old(
            records,
        )@.filter(with_key(k)),
{
    let ghost orig = records@;
    let mut sorted: Vec<Record> = Vec::new();
    let ghost mut done: Seq<Record> = Seq::<Record>::empty();
    proof {
        assert(done + records@ =~= orig);
        assert(sorted@.to_multiset() =~= done.to_multiset());
        assert forall|k: u64| #[trigger] sorted@.filter(with_key(k)) == done.filter(
            with_key(k),
        ) by {
            reveal(Seq::filter);
            assert(sorted@.filter(with_key(k)) =~= Seq::<Record>::empty());
        }
    }
    while records.len() > 0
        invariant
            orig == done + records@,
            sorted_by_distance(sorted@),
            sorted@.to_multiset() == done.to_multiset(),
            forall|k: u64| #[trigger] sorted@.filter(with_key(k)) == done.filter(with_key(k)),
        decreases records@.len(),
    {
        let ghost prev_records = records@;
        let rec = records.remove(0);
        let key = rec.distance_key;
        proof {
            assert(prev_records.remove(0) =~= prev_records.drop_first());
        }
        let ghost prev_sorted = sorted@;
        let ghost prev_done = done;
        let mut p: usize = 0;
        while p < sorted.len() && sorted[p].distance_key <= key
            invariant
                0 <= p <= sorted@.len(),
                sorted@ == prev_sorted,
                forall|m: int| 0 <= m < p ==> (#[trigger] sorted@[m]).distance_key <= key,
            decreases sorted@.len() - p,
        {
            p += 1;
        }
        sorted.insert(p, rec);
        proof {
            let pi = p as int;
            let inserted = prev_sorted.insert(pi, rec);
            assert(sorted@ == inserted);
            prev_sorted.insert_ensures(pi, rec);
            // every element at or after the insert position has a larger key
            assert forall|m: int| pi <= m < prev_sorted.len() implies (#[trigger] prev_sorted[m]).distance_key
                > key by {
                if pi < prev_sorted.len() {
                    assert(prev_sorted[pi].distance_key > key);
                }
            }
            assert(sorted_by_distance(sorted@));
            // permutation
            to_multiset_insert::<Record>(prev_sorted, pi, rec);
            prev_done.to_multiset_ensures();
            assert(prev_done.push(rec).to_multiset() =~= prev_done.to_multiset().insert(rec));
            assert(sorted@.to_multiset() == prev_done.push(rec).to_multiset());
            // stability
            assert(prev_sorted.take(pi) + prev_sorted.skip(pi) =~= prev_sorted);
            assert((prev_sorted.take(pi) + seq![rec]) + prev_sorted.skip(pi) =~= inserted);
            assert(prev_done.push(rec) =~= prev_done + seq![rec]);
            assert forall|k: u64| #[trigger] sorted@.filter(with_key(k)) == prev_done.push(
                rec,
            ).filter(with_key(k)) by {
                let pred = with_key(k);
                Seq::<Record>::filter_distributes_over_add(
                    prev_sorted.take(pi) + seq![rec],
                    prev_sorted.skip(pi),
                    pred,
                );
                Seq::<Record>::filter_distributes_over_add(prev_sorted.take(pi), seq![rec], pred);
                Seq::<Record>::filter_distributes_over_add(
                    prev_sorted.take(pi),
                    prev_sorted.skip(pi),
                    pred,
                );
                Seq::<Record>::filter_distributes_over_add(prev_done, seq![rec], pred);
                lemma_filter_singleton(rec, pred);
                if k == key {
                    assert forall|m: int| 0 <= m < prev_sorted.skip(pi).len() implies !pred(
                        #[trigger] prev_sorted.skip(pi)[m],
                    ) by {
                        assert(prev_sorted.skip(pi)[m] == prev_sorted[pi + m]);
                    }
                    lemma_filter_none(prev_sorted.skip(pi), pred);
                    assert(sorted@.filter(pred) =~= prev_sorted.take(pi).filter(pred)
                        + seq![rec].filter(pred));
                    assert(prev_sorted.filter(pred) =~= prev_sorted.take(pi).filter(pred));
                    assert((prev_done + seq![rec]).filter(pred) =~= prev_done.filter(pred)
                        + seq![rec].filter(pred));
                } else {
                    assert(!pred(rec));
                    assert(sorted@.filter(pred) =~= prev_sorted.take(pi).filter(pred)
                        + prev_sorted.skip(pi).filter(pred));
                    assert((prev_done + seq![rec]).filter(pred) =~= prev_done.filter(pred));
                }
            }
            done = prev_done.push(rec);
            assert(done + records@ =~= orig);
        }
    }
    proof {
        assert(done =~= orig);
    }
    *records = sorted;
}

} // verus!
