//! The listing of the store: what its files hold, newest first.

use crate::dashboard::{DashboardListItem, ListItemView};
use crate::store::{FileRead, FileReadView};
use crate::text::{
    comes_before, lemma_lex_asymmetric, lemma_lex_irreflexive, lemma_lex_total,
    lemma_lex_transitive, lex_lt,
};
use vstd::prelude::*;
use vstd::seq_lib::{
    to_multiset_build, to_multiset_contains, to_multiset_insert, to_multiset_len,
    to_multiset_remove,
};

verus! {

/// The values that stand for the items of `s`, in the same order.
pub open spec fn views<T: View>(s: Seq<T>) -> Seq<T::V> {
    s.map_values(|item: T| item@)
}

/// What a listing shows of the files that hold a dashboard, in the order of
/// the files; a file that could not be read or parsed shows nothing.
pub open spec fn parsed_items(files: Seq<FileReadView>) -> Seq<ListItemView>
    decreases files.len(),
{
    if files.len() == 0 {
        Seq::empty()
    } else {
        let before = parsed_items(files.drop_last());
        match files.last() {
            FileReadView::Parsed(dashboard) => before.push(dashboard.list_item()),
            _ => before,
        }
    }
}

/// Where an item created at `stamp` goes among `items`: behind the items in
/// front that are not older than it.
pub open spec fn place_of(items: Seq<ListItemView>, stamp: Seq<char>) -> int
    decreases items.len(),
{
    if items.len() == 0 || lex_lt(items[0].created_at, stamp) {
        0
    } else {
        1 + place_of(items.drop_first(), stamp)
    }
}

/// `items` ordered by their time of creation, the newest first; items of the
/// same time keep the order they came in.
pub open spec fn newest_first(items: Seq<ListItemView>) -> Seq<ListItemView>
    decreases items.len(),
{
    if items.len() == 0 {
        Seq::empty()
    } else {
        let before = newest_first(items.drop_last());
        before.insert(place_of(before, items.last().created_at), items.last())
    }
}

/// The listing for the files that were read.
pub open spec fn listing(files: Seq<FileReadView>) -> Seq<ListItemView> {
    newest_first(parsed_items(files))
}

/// No item of `items` is older than one before it.
pub open spec fn is_newest_first(items: Seq<ListItemView>) -> bool {
    forall|i: int, j: int|
        0 <= i < j < items.len() ==> !lex_lt(
            #[trigger] items[i].created_at,
            #[trigger] items[j].created_at,
        )
}

/// No two items of `items` were created at the same time.
pub open spec fn has_distinct_times(items: Seq<ListItemView>) -> bool {
    forall|i: int, j: int|
        0 <= i < j < items.len() ==> #[trigger] items[i].created_at
            != #[trigger] items[j].created_at
}

/// Every item of `items` is older than each one before it.
pub open spec fn is_strictly_newest_first(items: Seq<ListItemView>) -> bool {
    forall|i: int, j: int|
        0 <= i < j < items.len() ==> lex_lt(
            #[trigger] items[j].created_at,
            #[trigger] items[i].created_at,
        )
}

/// The place of an item lies behind items that are not older than it, and in
/// front of an older one, if any item follows.
pub proof fn lemma_place_of(items: Seq<ListItemView>, stamp: Seq<char>)
    ensures
        0 <= place_of(items, stamp) <= items.len(),
        forall|i: int|
            0 <= i < place_of(items, stamp) ==> !lex_lt(#[trigger] items[i].created_at, stamp),
        place_of(items, stamp) < items.len() ==> lex_lt(
            items[place_of(items, stamp)].created_at,
            stamp,
        ),
    decreases items.len(),
{
    if items.len() > 0 && !lex_lt(items[0].created_at, stamp) {
        let rest = items.drop_first();
        lemma_place_of(rest, stamp);
        let at = place_of(items, stamp);
        assert forall|i: int| 0 <= i < at implies !lex_lt(
            #[trigger] items[i].created_at,
            stamp,
        ) by {
            if i > 0 {
                assert(items[i] == rest[i - 1]);
            }
        }
        if at < items.len() {
            assert(items[at] == rest[at - 1]);
        }
    }
}

/// An item put at its place leaves a list in order that was in order.
pub proof fn lemma_place_keeps_order(items: Seq<ListItemView>, item: ListItemView)
    requires
        is_newest_first(items),
    ensures
        is_newest_first(items.insert(place_of(items, item.created_at), item)),
{
    let at = place_of(items, item.created_at);
    let grown = items.insert(at, item);
    lemma_place_of(items, item.created_at);
    assert forall|i: int, j: int| 0 <= i < j < grown.len() implies !lex_lt(
        #[trigger] grown[i].created_at,
        #[trigger] grown[j].created_at,
    ) by {
        if i < at {
            assert(grown[i] == items[i]);
            if j > at {
                assert(grown[j] == items[j - 1]);
            }
        } else if i == at {
            assert(grown[j] == items[j - 1]);
            if lex_lt(item.created_at, items[j - 1].created_at) {
                lemma_lex_transitive(
                    items[at].created_at,
                    item.created_at,
                    items[j - 1].created_at,
                );
                if j - 1 == at {
                    lemma_lex_irreflexive(items[at].created_at);
                }
            }
        } else {
            assert(grown[i] == items[i - 1]);
            assert(grown[j] == items[j - 1]);
        }
    }
}

/// A listing is in order: no item is older than one before it.
pub proof fn lemma_newest_first_in_order(items: Seq<ListItemView>)
    ensures
        is_newest_first(newest_first(items)),
    decreases items.len(),
{
    if items.len() > 0 {
        lemma_newest_first_in_order(items.drop_last());
        lemma_place_keeps_order(newest_first(items.drop_last()), items.last());
    }
}

/// A listing holds the items it was made from, each as often as it came.
pub proof fn lemma_newest_first_permutes(items: Seq<ListItemView>)
    ensures
        newest_first(items).to_multiset() == items.to_multiset(),
        newest_first(items).len() == items.len(),
    decreases items.len(),
{
    if items.len() > 0 {
        let before = newest_first(items.drop_last());
        lemma_newest_first_permutes(items.drop_last());
        lemma_place_of(before, items.last().created_at);
        to_multiset_insert(before, place_of(before, items.last().created_at), items.last());
        to_multiset_build(items.drop_last(), items.last());
        assert(items.drop_last().push(items.last()) =~= items);
    } else {
        assert(newest_first(items) =~= items);
    }
}

/// Items that were created at distinct times stay so in whatever order they come.
pub proof fn lemma_reordering_keeps_times_distinct(a: Seq<ListItemView>, b: Seq<ListItemView>)
    requires
        a.to_multiset() == b.to_multiset(),
        has_distinct_times(a),
    ensures
        has_distinct_times(b),
{
    assert(a.no_duplicates()) by {
        assert forall|i: int, j: int| 0 <= i < a.len() && 0 <= j < a.len() && i != j implies a[i]
            != a[j] by {
            if i < j {
                assert(a[i].created_at != a[j].created_at);
            } else {
                assert(a[j].created_at != a[i].created_at);
            }
        }
    }
    a.lemma_multiset_has_no_duplicates();
    b.lemma_multiset_has_no_duplicates_conv();
    assert forall|i: int, j: int| 0 <= i < j < b.len() implies #[trigger] b[i].created_at
        != #[trigger] b[j].created_at by {
        to_multiset_contains(a, b[i]);
        to_multiset_contains(b, b[i]);
        to_multiset_contains(a, b[j]);
        to_multiset_contains(b, b[j]);
        assert(b.contains(b[i]));
        assert(b.contains(b[j]));
        let p = choose|p: int| 0 <= p < a.len() && a[p] == b[i];
        let q = choose|q: int| 0 <= q < a.len() && a[q] == b[j];
        assert(b[i] != b[j]);
        if p < q {
            assert(a[p].created_at != a[q].created_at);
        } else {
            assert(a[q].created_at != a[p].created_at);
        }
    }
}

/// Dashboards that were created at distinct times are listed strictly from
/// the newest to the oldest.
pub proof fn lemma_distinct_times_strictly_ordered(items: Seq<ListItemView>)
    requires
        has_distinct_times(items),
    ensures
        is_strictly_newest_first(newest_first(items)),
{
    let listed = newest_first(items);
    lemma_newest_first_in_order(items);
    lemma_newest_first_permutes(items);
    lemma_reordering_keeps_times_distinct(items, listed);
    assert forall|i: int, j: int| 0 <= i < j < listed.len() implies lex_lt(
        #[trigger] listed[j].created_at,
        #[trigger] listed[i].created_at,
    ) by {
        assert(listed[i].created_at != listed[j].created_at);
        lemma_lex_total(listed[i].created_at, listed[j].created_at);
    }
}

/// Two lists of the same items, each strictly from the newest to the oldest,
/// are one list.
pub proof fn lemma_strict_order_is_unique(a: Seq<ListItemView>, b: Seq<ListItemView>)
    requires
        a.to_multiset() == b.to_multiset(),
        is_strictly_newest_first(a),
        is_strictly_newest_first(b),
    ensures
        a == b,
    decreases a.len(),
{
    to_multiset_len(a);
    to_multiset_len(b);
    if a.len() == 0 {
        assert(a =~= b);
    } else {
        to_multiset_contains(a, a[0]);
        to_multiset_contains(b, a[0]);
        to_multiset_contains(a, b[0]);
        to_multiset_contains(b, b[0]);
        assert(a.contains(a[0]));
        assert(b.contains(b[0]));
        let j = choose|j: int| 0 <= j < b.len() && b[j] == a[0];
        let i = choose|i: int| 0 <= i < a.len() && a[i] == b[0];
        if j > 0 {
            assert(lex_lt(b[j].created_at, b[0].created_at));
            if i > 0 {
                assert(lex_lt(a[i].created_at, a[0].created_at));
                lemma_lex_asymmetric(a[i].created_at, a[0].created_at);
            } else {
                lemma_lex_irreflexive(a[0].created_at);
            }
        }
        assert(a[0] == b[0]);
        to_multiset_remove(a, 0);
        to_multiset_remove(b, 0);
        assert(a.remove(0) =~= a.drop_first());
        assert(b.remove(0) =~= b.drop_first());
        assert(is_strictly_newest_first(a.drop_first())) by {
            assert forall|i: int, j: int| 0 <= i < j < a.drop_first().len() implies lex_lt(
                #[trigger] a.drop_first()[j].created_at,
                #[trigger] a.drop_first()[i].created_at,
            ) by {
                assert(lex_lt(a[j + 1].created_at, a[i + 1].created_at));
            }
        }
        assert(is_strictly_newest_first(b.drop_first())) by {
            assert forall|i: int, j: int| 0 <= i < j < b.drop_first().len() implies lex_lt(
                #[trigger] b.drop_first()[j].created_at,
                #[trigger] b.drop_first()[i].created_at,
            ) by {
                assert(lex_lt(b[j + 1].created_at, b[i + 1].created_at));
            }
        }
        lemma_strict_order_is_unique(a.drop_first(), b.drop_first());
        assert(a =~= seq![a[0]] + a.drop_first());
        assert(b =~= seq![b[0]] + b.drop_first());
    }
}

/// Items that were created at distinct times are listed in one order, in
/// whatever order they come.
pub proof fn lemma_newest_first_ignores_order(a: Seq<ListItemView>, b: Seq<ListItemView>)
    requires
        a.to_multiset() == b.to_multiset(),
        has_distinct_times(a),
    ensures
        newest_first(a) == newest_first(b),
{
    lemma_reordering_keeps_times_distinct(a, b);
    lemma_distinct_times_strictly_ordered(a);
    lemma_distinct_times_strictly_ordered(b);
    lemma_newest_first_permutes(a);
    lemma_newest_first_permutes(b);
    lemma_strict_order_is_unique(newest_first(a), newest_first(b));
}

/// Without one of the files, a listing lacks what that file shows and
/// nothing else.
pub proof fn lemma_parsed_items_without(files: Seq<FileReadView>, j: int)
    requires
        0 <= j < files.len(),
    ensures
        parsed_items(files).to_multiset() == match files[j] {
            FileReadView::Parsed(dashboard) => parsed_items(files.remove(j)).to_multiset().insert(
                dashboard.list_item(),
            ),
            _ => parsed_items(files.remove(j)).to_multiset(),
        },
    decreases files.len(),
{
    let rest = files.drop_last();
    if j == files.len() - 1 {
        assert(files.remove(j) =~= rest);
        if let FileReadView::Parsed(dashboard) = files[j] {
            to_multiset_build(parsed_items(rest), dashboard.list_item());
        }
    } else {
        lemma_parsed_items_without(rest, j);
        assert(files.remove(j).drop_last() =~= rest.remove(j));
        assert(files.remove(j).last() == files.last());
        if let FileReadView::Parsed(dashboard) = files.last() {
            to_multiset_build(parsed_items(rest), dashboard.list_item());
            to_multiset_build(parsed_items(rest.remove(j)), dashboard.list_item());
        }
        assert(parsed_items(files).to_multiset() =~= match files[j] {
            FileReadView::Parsed(dashboard) => parsed_items(files.remove(j)).to_multiset().insert(
                dashboard.list_item(),
            ),
            _ => parsed_items(files.remove(j)).to_multiset(),
        });
    }
}

/// The same files, read in another order, show the same items.
pub proof fn lemma_parsed_items_of_reordering(a: Seq<FileReadView>, b: Seq<FileReadView>)
    requires
        a.to_multiset() == b.to_multiset(),
    ensures
        parsed_items(a).to_multiset() == parsed_items(b).to_multiset(),
    decreases a.len(),
{
    to_multiset_len(a);
    to_multiset_len(b);
    if a.len() > 0 {
        let last = a.len() - 1;
        to_multiset_contains(a, a[last]);
        to_multiset_contains(b, a[last]);
        assert(a.contains(a[last]));
        let j = choose|j: int| 0 <= j < b.len() && b[j] == a[last];
        to_multiset_remove(a, last);
        to_multiset_remove(b, j);
        lemma_parsed_items_of_reordering(a.remove(last), b.remove(j));
        lemma_parsed_items_without(a, last);
        lemma_parsed_items_without(b, j);
    }
}

/// Dashboards that were created at distinct times are listed in one order,
/// in whatever order their files are read.
pub proof fn lemma_listing_ignores_order_of_files(a: Seq<FileReadView>, b: Seq<FileReadView>)
    requires
        a.to_multiset() == b.to_multiset(),
        has_distinct_times(parsed_items(a)),
    ensures
        listing(a) == listing(b),
        is_strictly_newest_first(listing(a)),
{
    lemma_parsed_items_of_reordering(a, b);
    lemma_newest_first_ignores_order(parsed_items(a), parsed_items(b));
    lemma_distinct_times_strictly_ordered(parsed_items(a));
}

/// A file that could not be read, or that holds no dashboard, leaves the
/// listing as it is without that file.
pub proof fn lemma_unparsed_file_shows_nothing(files: Seq<FileReadView>, i: int)
    requires
        0 <= i < files.len(),
        !(files[i] is Parsed),
    ensures
        parsed_items(files) == parsed_items(files.remove(i)),
        listing(files) == listing(files.remove(i)),
    decreases files.len(),
{
    if i == files.len() - 1 {
        assert(files.remove(i) =~= files.drop_last());
    } else {
        lemma_unparsed_file_shows_nothing(files.drop_last(), i);
        assert(files.remove(i).drop_last() =~= files.drop_last().remove(i));
        assert(files.remove(i).last() == files.last());
    }
}

/// The items of `items` that were created at the time `stamp`, in their order.
pub open spec fn created_at_time(items: Seq<ListItemView>, stamp: Seq<char>) -> Seq<ListItemView> {
    items.filter(|item: ListItemView| item.created_at == stamp)
}

/// A listing keeps dashboards of one time of creation in the order in which
/// their files were read.
pub proof fn lemma_same_time_keeps_order(items: Seq<ListItemView>, stamp: Seq<char>)
    ensures
        created_at_time(newest_first(items), stamp) == created_at_time(items, stamp),
    decreases items.len(),
{
    let of_time = |item: ListItemView| item.created_at == stamp;
    if items.len() == 0 {
        assert(newest_first(items) =~= items);
    } else {
        let rest = items.drop_last();
        let last = items.last();
        let before = newest_first(rest);
        let at = place_of(before, last.created_at);
        let front = before.take(at);
        let back = before.skip(at);
        lemma_same_time_keeps_order(rest, stamp);
        lemma_newest_first_in_order(rest);
        lemma_place_of(before, last.created_at);
        assert(rest.push(last) =~= items);
        rest.lemma_filter_push(last, of_time);
        assert(before =~= front + back);
        assert(before.insert(at, last) =~= front.push(last) + back);
        Seq::filter_distributes_over_add(front, back, of_time);
        Seq::filter_distributes_over_add(front.push(last), back, of_time);
        front.lemma_filter_push(last, of_time);
        if of_time(last) {
            assert(back.all(|item: ListItemView| !of_time(item))) by {
                assert forall|j: int| 0 <= j < back.len() implies !of_time(#[trigger] back[j]) by {
                    assert(back[j] == before[at + j]);
                    assert(lex_lt(before[at].created_at, stamp));
                    if j == 0 {
                        lemma_lex_irreflexive(stamp);
                    }
                }
            }
            back.lemma_all_neg_filter_empty(of_time);
            assert(back.filter(of_time) =~= Seq::empty());
            assert(front.filter(of_time).push(last) + back.filter(of_time) =~= (front.filter(
                of_time,
            ) + back.filter(of_time)).push(last));
        }
    }
}

/// Puts `item` into `items` at its place.
fn place(items: &mut Vec<DashboardListItem>, item: DashboardListItem)
    ensures
        views(final(items)@) == views(old(items)@).insert(
            place_of(views(old(items)@), item@.created_at),
            item@,
        ),
{
    let ghost before = views(items@);
    let n: usize = items.len();
    let mut at: usize = 0;
    assert(before.skip(0) =~= before);
    while at < n && !comes_before(items[at].created_at.as_str(), item.created_at.as_str())
        invariant
            n == items.len(),
            at <= n,
            before == views(items@),
            place_of(before, item@.created_at) == at + place_of(
                before.skip(at as int),
                item@.created_at,
            ),
        decreases n - at,
    {
        assert(before.skip(at as int).drop_first() =~= before.skip(at + 1));
        at += 1;
    }
    items.insert(at, item);
    assert(views(items@) =~= before.insert(at as int, item@));
}

/// The listing of the store, given what came of reading each of its files:
/// one item for each file that holds a dashboard, the newest first. A file
/// that could not be read, or whose content is no dashboard, is passed over.
pub fn list_dashboards(files: Vec<FileRead>) -> (items: Vec<DashboardListItem>)
    ensures
        views(items@) == listing(views(files@)),
        is_newest_first(views(items@)),
        views(items@).to_multiset() == parsed_items(views(files@)).to_multiset(),
{
    let mut items: Vec<DashboardListItem> = Vec::new();
    let n: usize = files.len();
    let mut k: usize = 0;
    assert(views(files@).take(0) =~= Seq::empty());
    while k < n
        invariant
            n == files.len(),
            k <= n,
            views(items@) == listing(views(files@).take(k as int)),
        decreases n - k,
    {
        proof {
            let seen = views(files@).take(k + 1);
            assert(seen.drop_last() =~= views(files@).take(k as int));
            assert(seen.last() == files@[k as int]@);
        }
        match &files[k] {
            FileRead::Parsed(dashboard) => {
                let item = dashboard.list_item();
                proof {
                    let shown = parsed_items(views(files@).take(k as int));
                    assert(shown.push(item@).drop_last() =~= shown);
                }
                place(&mut items, item);
            },
            _ => {},
        }
        k += 1;
    }
    proof {
        assert(views(files@).take(n as int) =~= views(files@));
        lemma_newest_first_in_order(parsed_items(views(files@)));
        lemma_newest_first_permutes(parsed_items(views(files@)));
    }
    items
}

} // verus!
