//! The member list of a satellite group: adding members without
//! repeating one, and removing every occurrence of members.
use vstd::prelude::*;

verus! {

/// `items` after each of `values`, in order, is appended unless it is
/// already there.
pub open spec fn with_added(items: Seq<Seq<char>>, values: Seq<Seq<char>>) -> Seq<Seq<char>>
    decreases values.len(),
{
    if values.len() == 0 {
        items
    } else {
        let before = with_added(items, values.drop_last());
        let v = values.last();
        if before.contains(v) {
            before
        } else {
            before.push(v)
        }
    }
}

/// `items` without any element that occurs in `values`, order kept.
pub open spec fn without(items: Seq<Seq<char>>, values: Seq<Seq<char>>) -> Seq<Seq<char>>
    decreases items.len(),
{
    if items.len() == 0 {
        items
    } else {
        let rest = without(items.drop_last(), values);
        if values.contains(items.last()) {
            rest
        } else {
            rest.push(items.last())
        }
    }
}

/// No element occurs twice.
pub open spec fn distinct(items: Seq<Seq<char>>) -> bool {
    forall|i: int, j: int| 0 <= i < j < items.len() ==> items[i] != items[j]
}

/// Whether `value` is an element of `items`.
pub fn is_member(items: &Vec<String>, value: &String) -> (b: bool)
    ensures
        b == items.deep_view().contains(value@),
{
    let mut i: usize = 0;
    while i < items.len()
        invariant
            i <= items.len(),
            forall|k: int| 0 <= k < i ==> items.deep_view()[k] != value@,
        decreases items.len() - i,
    {
        if items[i] == *value {
            assert(items.deep_view()[i as int] == value@);
            return true;
        }
        i = i + 1;
    }
    assert forall|k: int| 0 <= k < items.deep_view().len() implies items.deep_view()[k]
        != value@ by {
        assert(k < i);
    }
    false
}

/// Appends each of `values`, in order, to `items` unless it is already
/// there.
pub fn add_members(items: &mut Vec<String>, values: &Vec<String>)
    ensures
        final(items).deep_view() == with_added(old(items).deep_view(), values.deep_view()),
{
    let ghost start = items.deep_view();
    let mut i: usize = 0;
    assert(values.deep_view().take(0) =~= Seq::<Seq<char>>::empty());
    while i < values.len()
        invariant
            i <= values.len(),
            items.deep_view() == with_added(start, values.deep_view().take(i as int)),
        decreases values.len() - i,
    {
        let v = &values[i];
        assert(values.deep_view().take(i + 1).drop_last() =~= values.deep_view().take(i as int));
        if !is_member(items, v) {
            let ghost before = items.deep_view();
            items.push(v.clone());
            assert(items.deep_view() =~= before.push(v@));
        }
        i = i + 1;
    }
    assert(values.deep_view().take(i as int) =~= values.deep_view());
}

/// The elements of `items` that are not among `values`, order kept.
pub fn remove_members(items: &Vec<String>, values: &Vec<String>) -> (kept: Vec<String>)
    ensures
        kept.deep_view() == without(items.deep_view(), values.deep_view()),
{
    let mut kept: Vec<String> = Vec::new();
    let mut i: usize = 0;
    assert(items.deep_view().take(0) =~= Seq::<Seq<char>>::empty());
    while i < items.len()
        invariant
            i <= items.len(),
            kept.deep_view() == without(items.deep_view().take(i as int), values.deep_view()),
        decreases items.len() - i,
    {
        let x = &items[i];
        assert(items.deep_view().take(i + 1).drop_last() =~= items.deep_view().take(i as int));
        if !is_member(values, x) {
            let ghost before = kept.deep_view();
            kept.push(x.clone());
            assert(kept.deep_view() =~= before.push(x@));
        }
        i = i + 1;
    }
    assert(items.deep_view().take(i as int) =~= items.deep_view());
    kept
}

/// Adding members keeps the old list as it was, in front, makes every
/// added value a member, and brings in nothing else.
pub proof fn law_add_keeps_and_includes(items: Seq<Seq<char>>, values: Seq<Seq<char>>)
    ensures
        with_added(items, values).len() >= items.len(),
        with_added(items, values).take(items.len() as int) == items,
        forall|v: Seq<char>| values.contains(v) ==> with_added(items, values).contains(v),
        forall|x: Seq<char>| #[trigger]
            with_added(items, values).contains(x) ==> items.contains(x) || values.contains(x),
    decreases values.len(),
{
    if values.len() > 0 {
        let rest = values.drop_last();
        law_add_keeps_and_includes(items, rest);
        let before = with_added(items, rest);
        let after = with_added(items, values);
        if !before.contains(values.last()) {
            assert(after.take(items.len() as int) =~= before.take(items.len() as int));
            assert(after[after.len() - 1] == values.last());
        }
        assert forall|v: Seq<char>| values.contains(v) implies after.contains(v) by {
            let k = choose|k: int| 0 <= k < values.len() && values[k] == v;
            if k < values.len() - 1 {
                assert(rest[k] == v);
                assert(rest.contains(v));
                let j = choose|j: int| 0 <= j < before.len() && before[j] == v;
                assert(after[j] == v);
            }
        }
        assert forall|x: Seq<char>| after.contains(x) implies items.contains(x) || values.contains(
            x,
        ) by {
            let j = choose|j: int| 0 <= j < after.len() && after[j] == x;
            if j < before.len() {
                assert(before[j] == x);
                assert(before.contains(x));
                if rest.contains(x) {
                    let k = choose|k: int| 0 <= k < rest.len() && rest[k] == x;
                    assert(values[k] == x);
                }
            } else {
                assert(values[values.len() - 1] == x);
            }
        }
    } else {
        assert(items.take(items.len() as int) =~= items);
    }
}

proof fn lemma_add_present(items: Seq<Seq<char>>, values: Seq<Seq<char>>)
    requires
        forall|v: Seq<char>| values.contains(v) ==> items.contains(v),
    ensures
        with_added(items, values) == items,
    decreases values.len(),
{
    if values.len() > 0 {
        let rest = values.drop_last();
        assert forall|v: Seq<char>| rest.contains(v) implies items.contains(v) by {
            let k = choose|k: int| 0 <= k < rest.len() && rest[k] == v;
            assert(values[k] == v);
        }
        lemma_add_present(items, rest);
        assert(values.contains(values.last())) by {
            assert(values[values.len() - 1] == values.last());
        }
    }
}

/// Adding the same members a second time changes nothing.
pub proof fn law_add_idempotent(items: Seq<Seq<char>>, values: Seq<Seq<char>>)
    ensures
        with_added(with_added(items, values), values) == with_added(items, values),
{
    law_add_keeps_and_includes(items, values);
    lemma_add_present(with_added(items, values), values);
}

/// Adding members to a list without repeats gives a list without repeats.
pub proof fn law_add_distinct(items: Seq<Seq<char>>, values: Seq<Seq<char>>)
    requires
        distinct(items),
    ensures
        distinct(with_added(items, values)),
    decreases values.len(),
{
    if values.len() > 0 {
        law_add_distinct(items, values.drop_last());
        let before = with_added(items, values.drop_last());
        let after = with_added(items, values);
        if !before.contains(values.last()) {
            assert forall|i: int, j: int| 0 <= i < j < after.len() implies after[i] != after[j] by {
                if j == after.len() - 1 {
                    assert(before[i] == after[i]);
                    if after[i] == after[j] {
                        assert(before.contains(values.last()));
                    }
                } else {
                    assert(before[i] == after[i] && before[j] == after[j]);
                }
            }
        }
    }
}

/// Removing members leaves none of them, keeps every other member, and
/// brings in nothing new.
pub proof fn law_remove_excludes(items: Seq<Seq<char>>, values: Seq<Seq<char>>)
    ensures
        forall|v: Seq<char>| values.contains(v) ==> !without(items, values).contains(v),
        forall|x: Seq<char>|
            items.contains(x) && !values.contains(x) ==> without(items, values).contains(x),
        forall|x: Seq<char>| #[trigger] without(items, values).contains(x) ==> items.contains(x),
    decreases items.len(),
{
    if items.len() > 0 {
        let init = items.drop_last();
        law_remove_excludes(init, values);
        let rest = without(init, values);
        let r = without(items, values);
        assert forall|v: Seq<char>| values.contains(v) implies !r.contains(v) by {
            if r.contains(v) {
                let j = choose|j: int| 0 <= j < r.len() && r[j] == v;
                if j < rest.len() {
                    assert(rest[j] == v);
                }
            }
        }
        assert forall|x: Seq<char>| items.contains(x) && !values.contains(x) implies r.contains(
            x,
        ) by {
            let k = choose|k: int| 0 <= k < items.len() && items[k] == x;
            if k < items.len() - 1 {
                assert(init[k] == x);
                let j = choose|j: int| 0 <= j < rest.len() && rest[j] == x;
                assert(r[j] == x);
            } else {
                assert(r[r.len() - 1] == x);
            }
        }
        assert forall|x: Seq<char>| r.contains(x) implies items.contains(x) by {
            let j = choose|j: int| 0 <= j < r.len() && r[j] == x;
            if j < rest.len() {
                assert(rest[j] == x);
                assert(rest.contains(x));
                let k = choose|k: int| 0 <= k < init.len() && init[k] == x;
                assert(items[k] == x);
            } else {
                assert(items[items.len() - 1] == x);
            }
        }
    }
}

proof fn lemma_without_concat(a: Seq<Seq<char>>, b: Seq<Seq<char>>, values: Seq<Seq<char>>)
    ensures
        without(a + b, values) == without(a, values) + without(b, values),
    decreases b.len(),
{
    if b.len() == 0 {
        assert(a + b =~= a);
        assert(without(a, values) + without(b, values) =~= without(a, values));
    } else {
        lemma_without_concat(a, b.drop_last(), values);
        assert((a + b).drop_last() =~= a + b.drop_last());
        assert((a + b).last() == b.last());
        if !values.contains(b.last()) {
            assert(without(a, values) + without(b.drop_last(), values).push(b.last())
                =~= (without(a, values) + without(b.drop_last(), values)).push(b.last()));
        }
    }
}

proof fn lemma_without_all_removed(b: Seq<Seq<char>>, values: Seq<Seq<char>>)
    requires
        forall|x: Seq<char>| b.contains(x) ==> values.contains(x),
    ensures
        without(b, values) == Seq::<Seq<char>>::empty(),
    decreases b.len(),
{
    if b.len() > 0 {
        assert forall|x: Seq<char>| b.drop_last().contains(x) implies values.contains(x) by {
            let k = choose|k: int| 0 <= k < b.drop_last().len() && b.drop_last()[k] == x;
            assert(b[k] == x);
        }
        lemma_without_all_removed(b.drop_last(), values);
        assert(b.contains(b.last())) by {
            assert(b[b.len() - 1] == b.last());
        }
    }
}

proof fn lemma_without_none_removed(b: Seq<Seq<char>>, values: Seq<Seq<char>>)
    requires
        forall|x: Seq<char>| b.contains(x) ==> !values.contains(x),
    ensures
        without(b, values) == b,
    decreases b.len(),
{
    if b.len() > 0 {
        assert forall|x: Seq<char>| b.drop_last().contains(x) implies !values.contains(x) by {
            let k = choose|k: int| 0 <= k < b.drop_last().len() && b.drop_last()[k] == x;
            assert(b[k] == x);
        }
        lemma_without_none_removed(b.drop_last(), values);
        assert(b.contains(b.last())) by {
            assert(b[b.len() - 1] == b.last());
        }
        assert(b.drop_last().push(b.last()) =~= b);
    }
}

/// Removing members that were just added gives what removing them from
/// the old list gives.
pub proof fn law_remove_after_add(items: Seq<Seq<char>>, values: Seq<Seq<char>>)
    ensures
        without(with_added(items, values), values) == without(items, values),
{
    law_add_keeps_and_includes(items, values);
    let all = with_added(items, values);
    let extra = all.skip(items.len() as int);
    assert(all =~= items + extra);
    assert forall|x: Seq<char>| extra.contains(x) implies values.contains(x) by {
        let k = choose|k: int| 0 <= k < extra.len() && extra[k] == x;
        assert(all[items.len() + k] == x);
        assert(all.contains(x));
        if items.contains(x) {
            // the members that are added are exactly those not yet present
            lemma_extra_not_in_items(items, values, k);
        }
    }
    lemma_without_concat(items, extra, values);
    lemma_without_all_removed(extra, values);
    assert(without(items, values) + Seq::<Seq<char>>::empty() =~= without(items, values));
}

proof fn lemma_extra_not_in_items(items: Seq<Seq<char>>, values: Seq<Seq<char>>, k: int)
    requires
        0 <= k < with_added(items, values).len() - items.len(),
    ensures
        values.contains(with_added(items, values)[items.len() + k]),
    decreases values.len(),
{
    if values.len() > 0 {
        let rest = values.drop_last();
        let before = with_added(items, rest);
        law_add_keeps_and_includes(items, rest);
        if k < before.len() - items.len() {
            lemma_extra_not_in_items(items, rest, k);
            let x = before[items.len() + k];
            let j = choose|j: int| 0 <= j < rest.len() && rest[j] == x;
            assert(values[j] == x);
        } else {
            assert(values[values.len() - 1] == values.last());
        }
    }
}

/// Removing the same members a second time changes nothing.
pub proof fn law_remove_idempotent(items: Seq<Seq<char>>, values: Seq<Seq<char>>)
    ensures
        without(without(items, values), values) == without(items, values),
{
    law_remove_excludes(items, values);
    lemma_without_none_removed(without(items, values), values);
}


/// Adding members to a list without repeats gives the union of the old
/// members and the values, and grows the list by the number of distinct
/// values that were not yet members.
pub proof fn law_add_count(items: Seq<Seq<char>>, values: Seq<Seq<char>>)
    requires
        distinct(items),
    ensures
        with_added(items, values).to_set() == items.to_set().union(values.to_set()),
        with_added(items, values).len() == items.len() + values.to_set().difference(
            items.to_set(),
        ).len(),
    decreases values.len(),
{
    broadcast use vstd::set::group_set_axioms, vstd::seq_lib::seq_to_set_is_finite;

    if values.len() == 0 {
        assert(values.to_set() =~= Set::<Seq<char>>::empty());
        assert(items.to_set().union(values.to_set()) =~= items.to_set());
        assert(values.to_set().difference(items.to_set()) =~= Set::<Seq<char>>::empty());
    } else {
        let rest = values.drop_last();
        let v = values.last();
        law_add_count(items, rest);
        let before = with_added(items, rest);
        let after = with_added(items, values);
        assert(values =~= rest.push(v));
        assert(values.to_set() =~= rest.to_set().insert(v)) by {
            assert forall|x: Seq<char>| values.to_set().contains(x) implies rest.to_set().insert(
                v,
            ).contains(x) by {
                let k = choose|k: int| 0 <= k < values.len() && values[k] == x;
                if k < rest.len() {
                    assert(rest[k] == x);
                }
            }
            assert forall|x: Seq<char>| rest.to_set().insert(v).contains(x) implies values.to_set().contains(
                x,
            ) by {
                if x == v {
                    assert(values[values.len() - 1] == v);
                } else {
                    let k = choose|k: int| 0 <= k < rest.len() && rest[k] == x;
                    assert(values[k] == x);
                }
            }
        }
        let d = rest.to_set().difference(items.to_set());
        if before.contains(v) {
            assert(before.to_set().contains(v));
            assert(after.to_set() =~= items.to_set().union(values.to_set()));
            assert(values.to_set().difference(items.to_set()) =~= d);
        } else {
            assert(!before.to_set().contains(v));
            assert(after =~= before.push(v));
            assert(after.to_set() =~= before.to_set().insert(v)) by {
                assert forall|x: Seq<char>| after.to_set().contains(x) implies before.to_set().insert(
                    v,
                ).contains(x) by {
                    let k = choose|k: int| 0 <= k < after.len() && after[k] == x;
                    if k < before.len() {
                        assert(before[k] == x);
                    }
                }
                assert forall|x: Seq<char>| before.to_set().insert(v).contains(x) implies after.to_set().contains(
                    x,
                ) by {
                    if x == v {
                        assert(after[after.len() - 1] == v);
                    } else {
                        let k = choose|k: int| 0 <= k < before.len() && before[k] == x;
                        assert(after[k] == x);
                    }
                }
            }
            assert(after.to_set() =~= items.to_set().union(values.to_set()));
            assert(values.to_set().difference(items.to_set()) =~= d.insert(v));
            assert(!d.contains(v));
        }
    }
}

} // verus!
