//! The ascending listing of a finite set of dates: the one sequence that
//! holds each date of the set once, earlier dates first.

use crate::date::{lemma_before_is_strict_total_order, Date};
use vstd::prelude::*;

verus! {

/// Whether each date of the sequence is strictly earlier than those after it.
pub open spec fn is_ascending(list: Seq<Date>) -> bool {
    forall|i: int, j: int| 0 <= i < j < list.len() ==> (#[trigger] list[i]).before(#[trigger] list[j])
}

/// Whether `list` is ascending and holds exactly the dates of `set`.
pub open spec fn lists(list: Seq<Date>, set: Set<Date>) -> bool {
    &&& is_ascending(list)
    &&& forall|date: Date| set.contains(date) <==> #[trigger] list.contains(date)
}

/// The ascending listing of a finite set of dates.
pub open spec fn ascending(set: Set<Date>) -> Seq<Date> {
    choose|list: Seq<Date>| lists(list, set)
}

/// No date occurs twice in an ascending sequence.
pub proof fn lemma_ascending_no_duplicates(list: Seq<Date>)
    requires
        is_ascending(list),
    ensures
        list.no_duplicates(),
{
    assert forall|i: int, j: int| 0 <= i < list.len() && 0 <= j < list.len() && i != j implies list[i]
        != list[j] by {
        lemma_before_is_strict_total_order(list[i], list[j], list[j]);
    }
}

/// A set of dates has at most one ascending listing.
pub proof fn lemma_listing_unique(a: Seq<Date>, b: Seq<Date>, set: Set<Date>)
    requires
        lists(a, set),
        lists(b, set),
    ensures
        a == b,
    decreases a.len(),
{
    if a.len() == 0 {
        if b.len() > 0 {
            assert(b.contains(b[0]));
            assert(a.contains(b[0]));
        }
        assert(a =~= b);
    } else if b.len() == 0 {
        assert(a.contains(a[0]));
        assert(b.contains(a[0]));
    } else {
        let a_last = a.last();
        let b_last = b.last();
        assert(a.contains(a_last));
        assert(b.contains(b_last));
        assert(b.contains(a_last));
        assert(a.contains(b_last));
        let k = choose|k: int| 0 <= k < b.len() && b[k] == a_last;
        let m = choose|m: int| 0 <= m < a.len() && a[m] == b_last;
        lemma_before_is_strict_total_order(a_last, b_last, a_last);
        assert(a_last == b_last) by {
            if k < b.len() - 1 {
                assert(b[k].before(b[b.len() - 1]));
                if m < a.len() - 1 {
                    assert(a[m].before(a[a.len() - 1]));
                }
            }
        }
        let rest = set.remove(a_last);
        lemma_drop_last_lists(a, set);
        lemma_drop_last_lists(b, set);
        lemma_listing_unique(a.drop_last(), b.drop_last(), rest);
        assert(a =~= a.drop_last().push(a_last));
        assert(b =~= b.drop_last().push(b_last));
    }
}

/// Without its last date, an ascending listing lists the set without it.
proof fn lemma_drop_last_lists(list: Seq<Date>, set: Set<Date>)
    requires
        lists(list, set),
        list.len() > 0,
    ensures
        lists(list.drop_last(), set.remove(list.last())),
{
    let shorter = list.drop_last();
    let rest = set.remove(list.last());
    assert(is_ascending(shorter));
    assert forall|date: Date| rest.contains(date) <==> #[trigger] shorter.contains(date) by {
        if rest.contains(date) {
            assert(list.contains(date));
            let i = choose|i: int| 0 <= i < list.len() && list[i] == date;
            assert(shorter[i] == date);
        }
        if shorter.contains(date) {
            let i = choose|i: int| 0 <= i < shorter.len() && shorter[i] == date;
            assert(list[i] == date);
            assert(list.contains(date));
            assert(list[i].before(list[list.len() - 1]));
            lemma_before_is_strict_total_order(date, list.last(), date);
        }
    }
}

/// The ascending listing of a set is the sequence that lists it.
pub proof fn lemma_ascending_is(list: Seq<Date>, set: Set<Date>)
    requires
        lists(list, set),
    ensures
        ascending(set) == list,
{
    lemma_listing_unique(ascending(set), list, set);
}

/// A finite set of dates that is not empty has a latest date.
proof fn lemma_latest_exists(set: Set<Date>) -> (latest: Date)
    requires
        set.finite(),
        set.len() > 0,
    ensures
        set.contains(latest),
        forall|date: Date| set.contains(date) ==> #[trigger] date.not_after(latest),
    decreases set.len(),
{
    let picked = set.choose();
    let rest = set.remove(picked);
    if rest.len() == 0 {
        assert forall|date: Date| set.contains(date) implies #[trigger] date.not_after(picked) by {
            if date != picked {
                assert(rest.contains(date));
            }
            lemma_before_is_strict_total_order(date, picked, date);
        }
        picked
    } else {
        let other = lemma_latest_exists(rest);
        let latest = if other.before(picked) {
            picked
        } else {
            other
        };
        assert forall|date: Date| set.contains(date) implies #[trigger] date.not_after(latest) by {
            lemma_before_is_strict_total_order(date, other, picked);
            lemma_before_is_strict_total_order(picked, date, other);
            lemma_before_is_strict_total_order(other, picked, date);
            if date != picked {
                assert(rest.contains(date));
                assert(date.not_after(other));
            }
        }
        latest
    }
}

/// Every finite set of dates has an ascending listing.
pub proof fn lemma_ascending_lists(set: Set<Date>)
    requires
        set.finite(),
    ensures
        lists(ascending(set), set),
    decreases set.len(),
{
    if set.len() == 0 {
        let empty = Seq::<Date>::empty();
        assert forall|date: Date| set.contains(date) <==> #[trigger] empty.contains(date) by {
            if set.contains(date) {
                assert(set.len() > 0);
            }
        }
        assert(lists(empty, set));
    } else {
        let latest = lemma_latest_exists(set);
        let rest = set.remove(latest);
        lemma_ascending_lists(rest);
        let shorter = ascending(rest);
        let list = shorter.push(latest);
        assert forall|i: int, j: int| 0 <= i < j < list.len() implies (#[trigger] list[i]).before(
            #[trigger] list[j],
        ) by {
            if j == list.len() - 1 {
                assert(shorter.contains(shorter[i]));
                assert(rest.contains(list[i]));
                assert(list[i].not_after(latest));
                lemma_before_is_strict_total_order(list[i], latest, latest);
            } else {
                assert(shorter[i].before(shorter[j]));
            }
        }
        assert forall|date: Date| set.contains(date) <==> #[trigger] list.contains(date) by {
            if set.contains(date) {
                if date == latest {
                    assert(list[list.len() - 1] == date);
                } else {
                    assert(rest.contains(date));
                    assert(shorter.contains(date));
                    let i = choose|i: int| 0 <= i < shorter.len() && shorter[i] == date;
                    assert(list[i] == date);
                }
            }
            if list.contains(date) {
                let i = choose|i: int| 0 <= i < list.len() && list[i] == date;
                if i < shorter.len() {
                    assert(shorter[i] == date);
                    assert(shorter.contains(date));
                }
            }
        }
        assert(lists(list, set));
    }
}

} // verus!
