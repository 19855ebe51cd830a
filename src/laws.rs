use vstd::prelude::*;
use crate::item::ItemView;
use crate::query::{
    deleted, field_value, first_key, has_key, is_first_key, is_read_of, matches_opt, rejected,
    same_key, satisfies, selected, sort_field, updated, written, FilterView,
};
use crate::text::text_le;
use vstd::seq_lib::lemma_seq_contains_after_push;

verus! {

broadcast use vstd::seq_lib::group_to_multiset_ensures;

/// An item is selected exactly when it is in the collection and satisfies the filter.
proof fn lemma_selected_contains(c: Seq<ItemView>, f: Option<FilterView>, x: ItemView)
    ensures
        selected(c, f).contains(x) <==> (c.contains(x) && matches_opt(f, x)),
    decreases c.len(),
{
    if c.len() > 0 {
        let init = c.drop_last();
        lemma_selected_contains(init, f, x);
        assert(c =~= init.push(c.last()));
        lemma_seq_contains_after_push(init, c.last(), x);
        lemma_seq_contains_after_push(selected(init, f), c.last(), x);
    }
}

/// With no filter every item is selected.
proof fn lemma_selected_all(c: Seq<ItemView>)
    ensures
        selected(c, None) == c,
    decreases c.len(),
{
    if c.len() > 0 {
        lemma_selected_all(c.drop_last());
        assert(c.drop_last().push(c.last()) =~= c);
    }
}

/// After the items that satisfy `f` are removed, none is selected by `f`.
proof fn lemma_selected_rejected(c: Seq<ItemView>, f: FilterView)
    ensures
        selected(rejected(c, f), Some(f)).len() == 0,
    decreases c.len(),
{
    if c.len() > 0 {
        lemma_selected_rejected(c.drop_last(), f);
        let r = rejected(c.drop_last(), f);
        if !satisfies(f, c.last()) {
            assert(r.push(c.last()).drop_last() =~= r);
            assert(r.push(c.last()).last() == c.last());
        }
    }
}

/// A read of the items a read returns holds every item it selects, as often.
proof fn lemma_read_contains(
    c: Seq<ItemView>,
    f: Option<FilterView>,
    field: Seq<char>,
    r: Seq<ItemView>,
    x: ItemView,
)
    requires
        is_read_of(c, f, field, r),
    ensures
        r.contains(x) <==> (c.contains(x) && matches_opt(f, x)),
{
    lemma_selected_contains(c, f, x);
    r.to_multiset_ensures();
    selected(c, f).to_multiset_ensures();
    assert(r.contains(x) <==> r.to_multiset().count(x) > 0);
    assert(selected(c, f).contains(x) <==> selected(c, f).to_multiset().count(x) > 0);
}

/// Every item written by a bulk insert is returned by a later read without a
/// filter, whatever the collection held before.
pub proof fn lemma_write_then_read_all(
    before: Seq<ItemView>,
    items: Seq<ItemView>,
    r: Seq<ItemView>,
)
    requires
        is_read_of(written(before, items), None, sort_field(None), r),
    ensures
        forall|x: ItemView| items.contains(x) ==> r.contains(x),
{
    assert forall|x: ItemView| items.contains(x) implies r.contains(x) by {
        let i = choose|i: int| 0 <= i < items.len() && items[i] == x;
        assert(written(before, items)[before.len() + i] == x);
        lemma_read_contains(written(before, items), None, sort_field(None), r, x);
    }
}

/// A read with neither filter nor sort field returns the items in ascending
/// order of category.
pub proof fn lemma_default_read_sorted_by_category(c: Seq<ItemView>, r: Seq<ItemView>)
    requires
        is_read_of(c, None, sort_field(None), r),
    ensures
        forall|i: int| 0 <= i < r.len() - 1 ==> text_le(#[trigger] r[i].category, r[i + 1].category),
{
    reveal_strlit("category");
    reveal_strlit("title");
    assert("category"@.len() != "title"@.len());
    assert forall|i: int| 0 <= i < r.len() - 1 implies text_le(#[trigger] r[i].category, r[i + 1].category) by {
        assert(text_le(field_value(r[i], sort_field(None)), field_value(r[i + 1], sort_field(None))));
        assert(field_value(r[i], "category"@) == r[i].category);
        assert(field_value(r[i + 1], "category"@) == r[i + 1].category);
    }
}

/// A read with filter `f` sorted by `title` returns exactly the items of the
/// collection that satisfy `f`, in ascending order of title.
pub proof fn lemma_filtered_read_by_title(c: Seq<ItemView>, f: FilterView, r: Seq<ItemView>)
    requires
        is_read_of(c, Some(f), "title"@, r),
    ensures
        forall|x: ItemView| r.contains(x) <==> c.contains(x) && satisfies(f, x),
        forall|i: int| 0 <= i < r.len() - 1 ==> text_le(#[trigger] r[i].title, r[i + 1].title),
{
    assert forall|x: ItemView| r.contains(x) <==> c.contains(x) && satisfies(f, x) by {
        lemma_read_contains(c, Some(f), "title"@, r, x);
    }
    assert forall|i: int| 0 <= i < r.len() - 1 implies text_le(#[trigger] r[i].title, r[i + 1].title) by {
        assert(text_le(field_value(r[i], "title"@), field_value(r[i + 1], "title"@)));
    }
}

/// After a bulk delete by `f`, a read with the same filter returns nothing.
pub proof fn lemma_delete_then_read_empty(
    before: Seq<ItemView>,
    f: FilterView,
    field: Seq<char>,
    r: Seq<ItemView>,
)
    requires
        is_read_of(deleted(before, f), Some(f), field, r),
    ensures
        r.len() == 0,
{
    lemma_selected_rejected(before, f);
    let s = selected(rejected(before, f), Some(f));
    assert(s =~= Seq::<ItemView>::empty());
    s.to_multiset_ensures();
    r.to_multiset_ensures();
    assert(r.len() == r.to_multiset().len());
}

/// Where an item with the natural key of `x` exists, an update puts `x` in
/// place of the first such item and leaves the others as they were; a later
/// read that `x` satisfies returns `x`.
pub proof fn lemma_update_replaces(
    before: Seq<ItemView>,
    x: ItemView,
    f: Option<FilterView>,
    field: Seq<char>,
    r: Seq<ItemView>,
)
    requires
        has_key(before, x),
        matches_opt(f, x),
        is_read_of(updated(before, x), f, field, r),
    ensures
        0 <= first_key(before, x) < before.len(),
        same_key(before[first_key(before, x)], x),
        updated(before, x).len() == before.len(),
        updated(before, x)[first_key(before, x)] == x,
        forall|j: int|
            0 <= j < before.len() && j != first_key(before, x) ==> #[trigger] updated(before, x)[j]
                == before[j],
        updated(before, x).to_multiset() == before.to_multiset().remove(
            before[first_key(before, x)],
        ).insert(x),
        r.contains(x),
{
    let k = first_key(before, x);
    let i = choose|i: int| 0 <= i < before.len() && same_key(before[i], x);
    lemma_first_key_exists(before, x, i);
    assert(is_first_key(before, x, k));
    let after = updated(before, x);
    assert(after.remove(k) =~= before.remove(k));
    assert(after[k] == x);
    assert(after.contains(x));
    assert(after.to_multiset().remove(x).insert(x) =~= after.to_multiset());
    lemma_read_contains(after, f, field, r, x);
}

/// Where some item has the natural key of `x`, a first one does.
proof fn lemma_first_key_exists(c: Seq<ItemView>, x: ItemView, i: int)
    requires
        0 <= i < c.len(),
        same_key(c[i], x),
    ensures
        exists|k: int| is_first_key(c, x, k),
    decreases i,
{
    if exists|j: int| 0 <= j < i && #[trigger] same_key(c[j], x) {
        let j = choose|j: int| 0 <= j < i && #[trigger] same_key(c[j], x);
        lemma_first_key_exists(c, x, j);
    } else {
        assert(is_first_key(c, x, i));
    }
}

/// Where no item has the natural key of `x`, an update leaves the collection
/// as it was, so a read returns as many items after it as before.
pub proof fn lemma_update_without_match(
    before: Seq<ItemView>,
    x: ItemView,
    f: Option<FilterView>,
    field: Seq<char>,
    r_before: Seq<ItemView>,
    r_after: Seq<ItemView>,
)
    requires
        !has_key(before, x),
        is_read_of(before, f, field, r_before),
        is_read_of(updated(before, x), f, field, r_after),
    ensures
        updated(before, x) == before,
        r_after.len() == r_before.len(),
{
    r_before.to_multiset_ensures();
    r_after.to_multiset_ensures();
    assert(r_before.len() == r_before.to_multiset().len());
    assert(r_after.len() == r_after.to_multiset().len());
}

/// A bulk insert of no items leaves the collection as it was.
pub proof fn lemma_write_nothing(before: Seq<ItemView>, items: Seq<ItemView>)
    requires
        items.len() == 0,
    ensures
        written(before, items) == before,
{
    assert(before + items =~= before);
}

} // verus!
