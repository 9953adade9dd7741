//! The levels of a column of classes: its distinct values, in byte order.

use crate::data::strings;
use crate::proc::Record;
use crate::text::{
    below, below_is_strict, below_is_transitive, bytes_of, order_text, same_text, Order,
};
use vstd::prelude::*;

verus! {

/// Whether texts stand in ascending byte order, none of them twice.
pub open spec fn ascending(levels: Seq<Seq<char>>) -> bool {
    forall|i: int, j: int|
        0 <= i < j < levels.len() ==>
            below(bytes_of(#[trigger] levels[i]), bytes_of(#[trigger] levels[j]))
}

/// Whether `levels` are the levels of a column of classes: the values of
/// the column that are data, each of them once, in ascending byte order.
pub open spec fn is_levels(levels: Seq<Seq<char>>, values: Seq<Seq<char>>, no_data: Seq<char>) ->
    bool {
    &&& ascending(levels)
    &&& forall|i: int|
        0 <= i < levels.len() ==> (#[trigger] levels[i]) != no_data && values.contains(levels[i])
    &&& forall|k: int|
        0 <= k < values.len() && (#[trigger] values[k]) != no_data ==> levels.contains(values[k])
}

/// The cells of one column of a list of records.
pub open spec fn column_texts(records: Seq<Record>, column: int) -> Seq<Seq<char>> {
    Seq::new(records.len(), |r: int| records[r].cells[column]@)
}

/// Puts a value in its place among values in ascending byte order, unless
/// it stands there already.
pub fn insert_level(levels: &mut Vec<String>, value: &str)
    requires
        ascending(strings(old(levels)@)),
    ensures
        ascending(strings(final(levels)@)),
        strings(final(levels)@).contains(value@),
        forall|i: int|
            0 <= i < old(levels).len() ==> strings(final(levels)@).contains(
                #[trigger] strings(old(levels)@)[i],
            ),
        forall|i: int|
            0 <= i < final(levels).len() ==> (#[trigger] strings(final(levels)@)[i]) == value@
                || strings(old(levels)@).contains(strings(final(levels)@)[i]),
{
    let ghost before = strings(levels@);
    let mut p: usize = 0;
    let mut found = false;
    while p < levels.len() && !found
        invariant
            p <= levels.len(),
            levels@ == old(levels)@,
            before == strings(levels@),
            ascending(before),
            forall|k: int| 0 <= k < p ==> below(bytes_of(#[trigger] before[k]), bytes_of(value@)),
            found ==> p < levels.len() && below(bytes_of(value@), bytes_of(before[p as int])),
        decreases levels.len() - p + if found { 0int } else { 1int },
    {
        assert(before[p as int] == levels[p as int]@);
        match order_text(levels[p].as_str(), value) {
            Order::Before => {
                p += 1;
            },
            Order::Same => {
                return ;
            },
            Order::After => {
                found = true;
            },
        }
    }
    levels.insert(p, value.to_owned());
    proof {
        let after = strings(levels@);
        assert(after =~= before.insert(p as int, value@));
        assert(after[p as int] == value@);
        assert forall|i: int, j: int| 0 <= i < j < after.len() implies below(
            bytes_of(#[trigger] after[i]),
            bytes_of(#[trigger] after[j]),
        ) by {
            if j < p {
            } else if j == p {
            } else if i == p {
                if j - 1 > p {
                    below_is_transitive(
                        bytes_of(value@),
                        bytes_of(before[p as int]),
                        bytes_of(before[j - 1]),
                    );
                }
            } else if i < p {
                assert(after[j] == before[j - 1]);
            } else {
                assert(after[i] == before[i - 1]);
                assert(after[j] == before[j - 1]);
            }
        }
        assert forall|i: int| 0 <= i < before.len() implies
            after.contains(#[trigger] before[i]) by {
            if i < p {
                assert(after[i] == before[i]);
            } else {
                assert(after[i + 1] == before[i]);
            }
        }
        assert forall|i: int| 0 <= i < after.len() implies (#[trigger] after[i]) == value@
            || before.contains(after[i]) by {
            if i < p {
                assert(before[i] == after[i]);
            } else if i > p {
                assert(before[i - 1] == after[i]);
            }
        }
    }
}

/// Collects the levels of a column of classes: the values of the column
/// that are data, each of them once, in ascending byte order.
pub fn collect_levels(records: &[Record], column: usize, no_data: &str) -> (levels: Vec<String>)
    requires
        forall|r: int| 0 <= r < records.len() ==> column < (#[trigger] records[r]).cells.len(),
    ensures
        is_levels(strings(levels@), column_texts(records@, column as int), no_data@),
{
    let ghost values = column_texts(records@, column as int);
    let mut levels: Vec<String> = Vec::new();
    let mut r: usize = 0;
    while r < records.len()
        invariant
            r <= records.len(),
            values == column_texts(records@, column as int),
            forall|k: int| 0 <= k < records.len() ==> column < (#[trigger] records[k]).cells.len(),
            is_levels(strings(levels@), values.take(r as int), no_data@),
        decreases records.len() - r,
    {
        let v = records[r].cells[column].as_str();
        let ghost before = strings(levels@);
        let ghost seen = values.take(r as int);
        let ghost next = values.take(r + 1);
        proof {
            assert(next[r as int] == v@);
            assert(forall|k: int| 0 <= k < r ==> next[k] == seen[k]);
        }
        if !same_text(v, no_data) {
            insert_level(&mut levels, v);
            proof {
                let after = strings(levels@);
                assert forall|i: int| 0 <= i < after.len() implies (#[trigger] after[i]) != no_data@
                    && next.contains(after[i]) by {
                    if after[i] == v@ {
                        assert(next[r as int] == v@);
                    } else {
                        assert(before.contains(after[i]));
                        let j = choose|j: int| 0 <= j < before.len() && before[j] == after[i];
                        assert(seen.contains(before[j]));
                        let k = choose|k: int| 0 <= k < seen.len() && seen[k] == before[j];
                        assert(next[k] == after[i]);
                    }
                }
                assert forall|k: int| 0 <= k < next.len() && (#[trigger] next[k])
                    != no_data@ implies after.contains(next[k]) by {
                    if k < r {
                        assert(seen[k] == next[k]);
                        assert(before.contains(seen[k]));
                        let j = choose|j: int| 0 <= j < before.len() && before[j] == seen[k];
                        assert(after.contains(before[j]));
                    }
                }
            }
        } else {
            proof {
                assert forall|i: int| 0 <= i < before.len() implies next.contains(
                    #[trigger] before[i],
                ) by {
                    assert(seen.contains(before[i]));
                    let k = choose|k: int| 0 <= k < seen.len() && seen[k] == before[i];
                    assert(next[k] == before[i]);
                }
                assert forall|k: int| 0 <= k < next.len() && (#[trigger] next[k])
                    != no_data@ implies before.contains(next[k]) by {
                    assert(k < r);
                    assert(seen[k] == next[k]);
                }
            }
        }
        r += 1;
    }
    assert(values.take(records.len() as int) =~= values);
    levels
}

/// Two lists in ascending order that hold the same texts are one list.
pub proof fn ascending_lists_agree(first: Seq<Seq<char>>, second: Seq<Seq<char>>)
    requires
        ascending(first),
        ascending(second),
        forall|i: int| 0 <= i < first.len() ==> second.contains(#[trigger] first[i]),
        forall|i: int| 0 <= i < second.len() ==> first.contains(#[trigger] second[i]),
    ensures
        first == second,
    decreases first.len(),
{
    if first.len() == 0 {
        if second.len() > 0 {
            assert(first.contains(second[0]));
        }
        assert(first =~= second);
    } else {
        let a = first.last();
        assert(second.contains(first[first.len() - 1]));
        let ia = choose|i: int| 0 <= i < second.len() && second[i] == a;
        let b = second.last();
        assert(first.contains(second[second.len() - 1]));
        let ib = choose|i: int| 0 <= i < first.len() && first[i] == b;
        below_is_strict(bytes_of(a), bytes_of(b));
        if ia < second.len() - 1 {
            assert(below(bytes_of(second[ia]), bytes_of(second[second.len() - 1])));
        }
        if ib < first.len() - 1 {
            assert(below(bytes_of(first[ib]), bytes_of(first[first.len() - 1])));
        }
        assert(a == b);
        let f = first.drop_last();
        let s = second.drop_last();
        assert forall|i: int| 0 <= i < f.len() implies s.contains(#[trigger] f[i]) by {
            assert(f[i] == first[i]);
            assert(second.contains(first[i]));
            let j = choose|j: int| 0 <= j < second.len() && second[j] == first[i];
            below_is_strict(bytes_of(first[i]), bytes_of(a));
            assert(below(bytes_of(first[i]), bytes_of(first[first.len() - 1])));
            assert(s[j] == f[i]);
        }
        assert forall|i: int| 0 <= i < s.len() implies f.contains(#[trigger] s[i]) by {
            assert(s[i] == second[i]);
            assert(first.contains(second[i]));
            let j = choose|j: int| 0 <= j < first.len() && first[j] == second[i];
            below_is_strict(bytes_of(second[i]), bytes_of(b));
            assert(below(bytes_of(second[i]), bytes_of(second[second.len() - 1])));
            assert(f[j] == s[i]);
        }
        ascending_lists_agree(f, s);
        assert(first =~= f.push(a));
        assert(second =~= s.push(b));
    }
}

/// A column has one list of levels.
pub proof fn levels_are_unique(
    first: Seq<Seq<char>>,
    second: Seq<Seq<char>>,
    values: Seq<Seq<char>>,
    no_data: Seq<char>,
)
    requires
        is_levels(first, values, no_data),
        is_levels(second, values, no_data),
    ensures
        first == second,
{
    assert forall|i: int| 0 <= i < first.len() implies second.contains(#[trigger] first[i]) by {
        assert(values.contains(first[i]));
        let k = choose|k: int| 0 <= k < values.len() && values[k] == first[i];
        assert(second.contains(values[k]));
    }
    assert forall|i: int| 0 <= i < second.len() implies first.contains(#[trigger] second[i]) by {
        assert(values.contains(second[i]));
        let k = choose|k: int| 0 <= k < values.len() && values[k] == second[i];
        assert(first.contains(values[k]));
    }
    ascending_lists_agree(first, second);
}

} // verus!
