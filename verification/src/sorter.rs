//! Putting entries in reverse chronological order.

use crate::date::YearMonthDay;
use crate::entry::{EntryView, WorkHistoryEntry};
use vstd::prelude::*;
use vstd::seq_lib::{to_multiset_build, to_multiset_insert};

verus! {

/// Where an entry goes in an arrangement that is chronological already:
/// behind every entry that ends on the same day or on a later one.
pub open spec fn insertion_point(sorted: Seq<EntryView>, entry: EntryView) -> int
    decreases sorted.len(),
{
    if sorted.len() > 0 && !entry.end_date.is_after(sorted[0].end_date) {
        1 + insertion_point(sorted.drop_first(), entry)
    } else {
        0
    }
}

/// The entries arranged by end date, the most recent first; entries that end
/// on the same day stay in the order in which they came.
pub open spec fn chronological(entries: Seq<EntryView>) -> Seq<EntryView>
    decreases entries.len(),
{
    if entries.len() == 0 {
        Seq::<EntryView>::empty()
    } else {
        let earlier = chronological(entries.drop_last());
        earlier.insert(insertion_point(earlier, entries.last()), entries.last())
    }
}

/// No entry comes before one that ends on a later day.
pub open spec fn is_descending(entries: Seq<EntryView>) -> bool {
    forall|i: int, j: int|
        0 <= i < j < entries.len() ==> !(#[trigger] entries[j]).end_date.is_after(
            (#[trigger] entries[i]).end_date,
        )
}

/// The entries that end on a given day.
pub open spec fn ends_on(day: YearMonthDay) -> spec_fn(EntryView) -> bool {
    |entry: EntryView| entry.end_date == day
}

/// The insertion point lies within the arrangement; no entry in front of it
/// ends before the new entry does, and the entry at it, if there is one,
/// ends on an earlier day.
proof fn lemma_insertion_point(sorted: Seq<EntryView>, entry: EntryView)
    ensures
        0 <= insertion_point(sorted, entry) <= sorted.len(),
        forall|k: int|
            0 <= k < insertion_point(sorted, entry) ==> !entry.end_date.is_after(
                (#[trigger] sorted[k]).end_date,
            ),
        insertion_point(sorted, entry) < sorted.len() ==> entry.end_date.is_after(
            sorted[insertion_point(sorted, entry)].end_date,
        ),
    decreases sorted.len(),
{
    if sorted.len() > 0 && !entry.end_date.is_after(sorted[0].end_date) {
        let rest = sorted.drop_first();
        lemma_insertion_point(rest, entry);
        let p = insertion_point(sorted, entry);
        assert forall|k: int| 0 <= k < p implies !entry.end_date.is_after(
            (#[trigger] sorted[k]).end_date,
        ) by {
            if k > 0 {
                assert(sorted[k] == rest[k - 1]);
            }
        }
        if p < sorted.len() {
            assert(sorted[p] == rest[p - 1]);
        }
    }
}

/// Putting an entry at its insertion point keeps an arrangement in order.
proof fn lemma_insert_keeps_descending(sorted: Seq<EntryView>, entry: EntryView)
    requires
        is_descending(sorted),
    ensures
        is_descending(sorted.insert(insertion_point(sorted, entry), entry)),
{
    let p = insertion_point(sorted, entry);
    let next = sorted.insert(p, entry);
    lemma_insertion_point(sorted, entry);
    assert forall|i: int, j: int| 0 <= i < j < next.len() implies !(#[trigger] next[j]).end_date.is_after(
        (#[trigger] next[i]).end_date,
    ) by {
        if j < p {
            assert(next[i] == sorted[i] && next[j] == sorted[j]);
        } else if j == p {
            assert(next[i] == sorted[i] && next[j] == entry);
        } else if i < p {
            assert(next[i] == sorted[i] && next[j] == sorted[j - 1]);
        } else if i == p {
            assert(next[i] == entry && next[j] == sorted[j - 1]);
            assert(entry.end_date.is_after(sorted[p].end_date));
            if j - 1 > p {
                assert(!sorted[j - 1].end_date.is_after(sorted[p].end_date));
            }
        } else {
            assert(next[i] == sorted[i - 1] && next[j] == sorted[j - 1]);
        }
    }
}

/// The arrangement runs from the most recent end date to the earliest.
pub proof fn lemma_chronological_is_descending(entries: Seq<EntryView>)
    ensures
        is_descending(chronological(entries)),
    decreases entries.len(),
{
    if entries.len() > 0 {
        lemma_chronological_is_descending(entries.drop_last());
        lemma_insert_keeps_descending(chronological(entries.drop_last()), entries.last());
    }
}

/// The arrangement holds the same entries as the source, each as often as
/// the source does.
pub proof fn lemma_chronological_is_permutation(entries: Seq<EntryView>)
    ensures
        chronological(entries).len() == entries.len(),
        chronological(entries).to_multiset() == entries.to_multiset(),
    decreases entries.len(),
{
    if entries.len() > 0 {
        let earlier = chronological(entries.drop_last());
        lemma_chronological_is_permutation(entries.drop_last());
        lemma_insertion_point(earlier, entries.last());
        to_multiset_insert(earlier, insertion_point(earlier, entries.last()), entries.last());
        to_multiset_build(entries.drop_last(), entries.last());
        assert(entries.drop_last().push(entries.last()) =~= entries);
    } else {
        assert(chronological(entries) =~= entries);
    }
}

/// Entries that end on the same day stand in the arrangement in the order
/// in which they stand in the source: picking out the entries of any one
/// day gives the same sequence before and after.
pub proof fn lemma_chronological_is_stable(entries: Seq<EntryView>, day: YearMonthDay)
    ensures
        chronological(entries).filter(ends_on(day)) == entries.filter(ends_on(day)),
    decreases entries.len(),
{
    let on_day = ends_on(day);
    if entries.len() == 0 {
        assert(chronological(entries) =~= entries);
    } else {
        let source = entries.drop_last();
        let entry = entries.last();
        let earlier = chronological(source);
        let p = insertion_point(earlier, entry);
        lemma_chronological_is_stable(source, day);
        lemma_chronological_is_descending(source);
        lemma_insertion_point(earlier, entry);
        let front = earlier.subrange(0, p);
        let back = earlier.subrange(p, earlier.len() as int);
        assert(earlier =~= front + back);
        assert(earlier.insert(p, entry) =~= front.push(entry) + back);
        Seq::filter_distributes_over_add(front, back, on_day);
        Seq::filter_distributes_over_add(front.push(entry), back, on_day);
        front.lemma_filter_push(entry, on_day);
        assert(entries =~= source.push(entry));
        source.lemma_filter_push(entry, on_day);
        if on_day(entry) {
            assert forall|k: int| 0 <= k < back.len() implies !on_day(#[trigger] back[k]) by {
                assert(back[k] == earlier[p + k]);
                assert(entry.end_date.is_after(earlier[p].end_date));
                if k > 0 {
                    assert(!earlier[p + k].end_date.is_after(earlier[p].end_date));
                }
            }
            assert(back.all(|x: EntryView| !on_day(x)));
            back.lemma_all_neg_filter_empty(on_day);
            assert(back.filter(on_day) =~= Seq::<EntryView>::empty());
            assert(front.filter(on_day).push(entry) + back.filter(on_day) =~= (front.filter(on_day)
                + back.filter(on_day)).push(entry));
        }
    }
}

/// The entries of the day on which the first entry ends start with that
/// entry.
proof fn lemma_first_entry_leads_its_day(entries: Seq<EntryView>)
    requires
        entries.len() > 0,
    ensures
        entries.filter(ends_on(entries[0].end_date)).len() > 0,
        entries.filter(ends_on(entries[0].end_date))[0] == entries[0],
{
    let on_day = ends_on(entries[0].end_date);
    assert(entries =~= seq![entries[0]] + entries.drop_first());
    entries.drop_first().lemma_filter_prepend(entries[0], on_day);
    assert(on_day(entries[0]));
}

/// Where some entry of a day is picked out, an entry ends on that day.
proof fn lemma_day_has_an_entry(entries: Seq<EntryView>, day: YearMonthDay) -> (i: int)
    requires
        entries.filter(ends_on(day)).len() > 0,
    ensures
        0 <= i < entries.len(),
        entries[i].end_date == day,
{
    let on_day = ends_on(day);
    let picked = entries.filter(on_day);
    entries.lemma_filter_pred(on_day, 0);
    assert(picked.contains(picked[0]));
    entries.lemma_filter_contains_rev(on_day, picked[0]);
    let i = choose|i: int| 0 <= i < entries.len() && entries[i] == picked[0];
    assert(on_day(picked[0]));
    i
}

/// Without its first entry, an arrangement picks out of every day what it
/// picked out before, less that entry.
proof fn lemma_rest_of_day(entries: Seq<EntryView>, day: YearMonthDay)
    requires
        entries.len() > 0,
    ensures
        entries.drop_first().filter(ends_on(day)) == if entries[0].end_date == day {
            entries.filter(ends_on(day)).drop_first()
        } else {
            entries.filter(ends_on(day))
        },
{
    let on_day = ends_on(day);
    let rest = entries.drop_first();
    assert(entries =~= seq![entries[0]] + rest);
    rest.lemma_filter_prepend(entries[0], on_day);
    if on_day(entries[0]) {
        assert((seq![entries[0]] + rest.filter(on_day)).drop_first() =~= rest.filter(on_day));
    } else {
        assert(Seq::<EntryView>::empty() + rest.filter(on_day) =~= rest.filter(on_day));
    }
}

/// Two arrangements that run from the most recent end date to the earliest
/// and pick the same entries, in the same order, out of every day are one
/// and the same.
pub proof fn lemma_arrangement_is_unique(a: Seq<EntryView>, b: Seq<EntryView>)
    requires
        is_descending(a),
        is_descending(b),
        forall|day: YearMonthDay| #[trigger] a.filter(ends_on(day)) == b.filter(ends_on(day)),
    ensures
        a == b,
    decreases a.len(),
{
    if a.len() == 0 {
        if b.len() > 0 {
            lemma_first_entry_leads_its_day(b);
            assert(a.filter(ends_on(b[0].end_date)) == b.filter(ends_on(b[0].end_date)));
            a.lemma_filter_len(ends_on(b[0].end_date));
        }
        assert(a =~= b);
    } else {
        let day_a = a[0].end_date;
        lemma_first_entry_leads_its_day(a);
        assert(a.filter(ends_on(day_a)) == b.filter(ends_on(day_a)));
        b.lemma_filter_len(ends_on(day_a));
        let j = lemma_day_has_an_entry(b, day_a);
        let day_b = b[0].end_date;
        lemma_first_entry_leads_its_day(b);
        assert(a.filter(ends_on(day_b)) == b.filter(ends_on(day_b)));
        let i = lemma_day_has_an_entry(a, day_b);
        assert(!day_b.is_after(day_a)) by {
            if i > 0 {
                assert(!a[i].end_date.is_after(a[0].end_date));
            }
        }
        assert(!day_a.is_after(day_b)) by {
            if j > 0 {
                assert(!b[j].end_date.is_after(b[0].end_date));
            }
        }
        assert(day_a == day_b);
        assert(a[0] == b[0]);
        let rest_a = a.drop_first();
        let rest_b = b.drop_first();
        assert(is_descending(rest_a)) by {
            assert forall|i: int, j: int| 0 <= i < j < rest_a.len() implies !(
            #[trigger] rest_a[j]).end_date.is_after((#[trigger] rest_a[i]).end_date) by {
                assert(rest_a[i] == a[i + 1] && rest_a[j] == a[j + 1]);
            }
        }
        assert(is_descending(rest_b)) by {
            assert forall|i: int, j: int| 0 <= i < j < rest_b.len() implies !(
            #[trigger] rest_b[j]).end_date.is_after((#[trigger] rest_b[i]).end_date) by {
                assert(rest_b[i] == b[i + 1] && rest_b[j] == b[j + 1]);
            }
        }
        assert forall|day: YearMonthDay| #[trigger]
            rest_a.filter(ends_on(day)) == rest_b.filter(ends_on(day)) by {
            lemma_rest_of_day(a, day);
            lemma_rest_of_day(b, day);
            assert(a.filter(ends_on(day)) == b.filter(ends_on(day)));
        }
        lemma_arrangement_is_unique(rest_a, rest_b);
        assert(a =~= seq![a[0]] + rest_a);
        assert(b =~= seq![b[0]] + rest_b);
    }
}

/// The chronological arrangement is the only one that runs from the most
/// recent end date to the earliest and keeps the entries of every day in
/// their source order.
pub proof fn lemma_chronological_is_the_only_arrangement(
    entries: Seq<EntryView>,
    arrangement: Seq<EntryView>,
)
    requires
        is_descending(arrangement),
        forall|day: YearMonthDay| #[trigger]
            arrangement.filter(ends_on(day)) == entries.filter(ends_on(day)),
    ensures
        arrangement == chronological(entries),
{
    lemma_chronological_is_descending(entries);
    assert forall|day: YearMonthDay| #[trigger]
        arrangement.filter(ends_on(day)) == chronological(entries).filter(ends_on(day)) by {
        lemma_chronological_is_stable(entries, day);
        assert(arrangement.filter(ends_on(day)) == entries.filter(ends_on(day)));
    }
    lemma_arrangement_is_unique(arrangement, chronological(entries));
}

/// Finds the place of an entry among entries that are in order already.
fn find_insertion_point(sorted: &Vec<WorkHistoryEntry>, entry: &WorkHistoryEntry) -> (k: usize)
    ensures
        k <= sorted@.len(),
        k == insertion_point(sorted.deep_view(), entry@),
{
    let ghost model = sorted.deep_view();
    let mut k: usize = 0;
    proof {
        assert(model.skip(0) =~= model);
    }
    while k < sorted.len() && !entry.end_date().is_after(&sorted[k].end_date())
        invariant
            k <= sorted@.len(),
            model == sorted.deep_view(),
            insertion_point(model, entry@) == k + insertion_point(model.skip(k as int), entry@),
        decreases sorted@.len() - k,
    {
        proof {
            assert(model.skip(k as int).drop_first() =~= model.skip(k + 1));
            assert(model.skip(k as int)[0] == sorted@[k as int]@);
        }
        k = k + 1;
    }
    proof {
        if k < sorted@.len() {
            assert(model.skip(k as int)[0] == sorted@[k as int]@);
        }
    }
    k
}

/// Arranges the entries by end date, the most recent first. Entries that
/// end on the same day stay in the order in which they came.
pub fn sort_by_end_date(entries: Vec<WorkHistoryEntry>) -> (sorted: Vec<WorkHistoryEntry>)
    ensures
        sorted.deep_view() == chronological(entries.deep_view()),
        sorted@.len() == entries@.len(),
        sorted.deep_view().to_multiset() == entries.deep_view().to_multiset(),
        is_descending(sorted.deep_view()),
        forall|day: YearMonthDay| #[trigger]
            sorted.deep_view().filter(ends_on(day)) == entries.deep_view().filter(ends_on(day)),
{
    let ghost source = entries@;
    let ghost model = entries.deep_view();
    let mut sorted: Vec<WorkHistoryEntry> = Vec::new();
    proof {
        assert(sorted.deep_view() =~= Seq::<EntryView>::empty());
        assert(model.take(0) =~= Seq::<EntryView>::empty());
    }
    for entry in it: entries
        invariant
            it.seq() == source,
            model.len() == source.len(),
            forall|i: int| 0 <= i < source.len() ==> model[i] == (#[trigger] source[i])@,
            sorted.deep_view() == chronological(model.take(it.index() as int)),
    {
        let ghost before = sorted.deep_view();
        let ghost n = it.index() as int;
        let k: usize = find_insertion_point(&sorted, &entry);
        sorted.insert(k, entry);
        proof {
            assert(model.take(n + 1).drop_last() =~= model.take(n));
            assert(model.take(n + 1).last() == entry@);
            assert(sorted.deep_view() =~= before.insert(k as int, entry@));
        }
    }
    proof {
        assert(model.take(model.len() as int) =~= model);
        lemma_chronological_is_descending(model);
        lemma_chronological_is_permutation(model);
        assert forall|day: YearMonthDay| #[trigger]
            sorted.deep_view().filter(ends_on(day)) == model.filter(ends_on(day)) by {
            lemma_chronological_is_stable(model, day);
        }
    }
    sorted
}

} // verus!
