//! The number of distinct items in a comma-separated list.

use crate::text::{chars_of, same_chars, split, split_chars, views};
use vstd::prelude::*;

verus! {

/// The number of distinct items of the comma-separated list `s`. An empty list holds one
/// item, the empty one.
pub open spec fn distinct_count(s: Seq<char>) -> nat {
    split(s, ',').to_set().len()
}

/// Whether `item` is among the first `count` of `items`.
fn is_among_first(items: &Vec<Vec<char>>, count: usize, item: &Vec<char>) -> (r: bool)
    requires
        count <= items.len(),
    ensures
        r == views(items@).take(count as int).contains(item@),
{
    let ghost first = views(items@).take(count as int);
    let mut i: usize = 0;
    while i < count
        invariant
            i <= count <= items.len(),
            first == views(items@).take(count as int),
            forall|j: int| 0 <= j < i ==> first[j] != item@,
        decreases count - i,
    {
        if same_chars(&items[i], item) {
            assert(first[i as int] == item@);
            return true;
        }
        i = i + 1;
    }
    false
}

/// The number of distinct items in the comma-separated list `input_str`.
pub fn new_count_distinct(input_str: &str) -> (count: usize)
    ensures
        count == distinct_count(input_str@),
{
    let chars = chars_of(input_str);
    let items = split_chars(&chars, ',');
    let ghost all = views(items@);
    let ghost mut distinct: Seq<Seq<char>> = Seq::empty();
    let mut count: usize = 0;
    let mut i: usize = 0;
    assert(all.take(0) =~= Seq::<Seq<char>>::empty());
    while i < items.len()
        invariant
            i <= items.len(),
            all == views(items@),
            count == distinct.len(),
            count <= i,
            distinct.no_duplicates(),
            distinct.to_set() == all.take(i as int).to_set(),
        decreases items.len() - i,
    {
        let ghost seen = all.take(i as int);
        proof {
            assert(all.take(i + 1) =~= seen.push(all[i as int]));
            seen.lemma_push_to_set_commute(all[i as int]);
        }
        if !is_among_first(&items, i, &items[i]) {
            proof {
                assert(!seen.to_set().contains(all[i as int]));
                assert(!distinct.contains(all[i as int])) by {
                    if distinct.contains(all[i as int]) {
                        assert(distinct.to_set().contains(all[i as int]));
                    }
                }
                distinct.lemma_push_to_set_commute(all[i as int]);
                distinct = distinct.push(all[i as int]);
            }
            count = count + 1;
        } else {
            proof {
                assert(seen.to_set().contains(all[i as int]));
                assert(seen.to_set().insert(all[i as int]) =~= seen.to_set());
            }
        }
        i = i + 1;
    }
    proof {
        assert(all.take(items.len() as int) =~= all);
        distinct.unique_seq_to_set();
    }
    count
}

} // verus!
