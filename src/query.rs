use vstd::prelude::*;
use crate::item::{items_view, BacklogItem, ItemView};
use crate::store::StoreError;
use crate::text::{same_text, text_le};

verus! {

/// A conjunction of equality conditions on an item's fields; a field left
/// `None` places no condition.
pub struct Filter {
    pub title: Option<String>,
    pub category: Option<String>,
    pub description: Option<String>,
}

/// The mathematical value of a filter.
pub struct FilterView {
    pub title: Option<Seq<char>>,
    pub category: Option<Seq<char>>,
    pub description: Option<Seq<char>>,
}

/// The value of an optional text.
pub open spec fn opt_text(o: Option<String>) -> Option<Seq<char>> {
    match o {
        Some(s) => Some(s@),
        None => None,
    }
}

impl View for Filter {
    type V = FilterView;

    open spec fn view(&self) -> FilterView {
        FilterView {
            title: opt_text(self.title),
            category: opt_text(self.category),
            description: opt_text(self.description),
        }
    }
}

/// Whether a field value meets an optional equality condition.
pub open spec fn meets(cond: Option<Seq<char>>, value: Seq<char>) -> bool {
    match cond {
        Some(c) => c == value,
        None => true,
    }
}

/// Whether an item satisfies a filter.
pub open spec fn satisfies(f: FilterView, x: ItemView) -> bool {
    meets(f.title, x.title) && meets(f.category, x.category) && meets(
        f.description,
        x.description,
    )
}

/// Whether an item satisfies an optional filter; an absent filter matches everything.
pub open spec fn matches_opt(f: Option<FilterView>, x: ItemView) -> bool {
    match f {
        Some(f) => satisfies(f, x),
        None => true,
    }
}

/// The value of an optional filter.
pub open spec fn opt_filter(f: Option<Filter>) -> Option<FilterView> {
    match f {
        Some(f) => Some(f@),
        None => None,
    }
}

/// Whether two items share the natural key (`title`, `category`).
pub open spec fn same_key(a: ItemView, b: ItemView) -> bool {
    a.title == b.title && a.category == b.category
}

/// The filter that selects exactly the items with the natural key of `x`.
pub open spec fn key_filter(x: ItemView) -> FilterView {
    FilterView { title: Some(x.title), category: Some(x.category), description: None }
}

/// The field that a read sorts by: the one asked for, else `category`.
pub open spec fn sort_field(sort_by: Option<Seq<char>>) -> Seq<char> {
    match sort_by {
        Some(s) => s,
        None => "category"@,
    }
}

/// The value of an optional text slice.
pub open spec fn opt_str(o: Option<&str>) -> Option<Seq<char>> {
    match o {
        Some(s) => Some(s@),
        None => None,
    }
}

/// The value of the field named `field`; a field the item does not have
/// reads as empty text, so that all items tie on it.
pub open spec fn field_value(x: ItemView, field: Seq<char>) -> Seq<char> {
    if field == "title"@ {
        x.title
    } else if field == "category"@ {
        x.category
    } else if field == "description"@ {
        x.description
    } else {
        Seq::empty()
    }
}

/// `s` is in ascending order of the field named `field`.
pub open spec fn sorted_by(s: Seq<ItemView>, field: Seq<char>) -> bool {
    forall|i: int|
        0 <= i < s.len() - 1 ==> #[trigger] text_le(
            field_value(s[i], field),
            field_value(s[i + 1], field),
        )
}

/// The items of `c` that satisfy `f`, in the order of `c`.
pub open spec fn selected(c: Seq<ItemView>, f: Option<FilterView>) -> Seq<ItemView>
    decreases c.len(),
{
    if c.len() == 0 {
        Seq::empty()
    } else if matches_opt(f, c.last()) {
        selected(c.drop_last(), f).push(c.last())
    } else {
        selected(c.drop_last(), f)
    }
}

/// The items of `c` that do not satisfy `f`, in the order of `c`.
pub open spec fn rejected(c: Seq<ItemView>, f: FilterView) -> Seq<ItemView>
    decreases c.len(),
{
    if c.len() == 0 {
        Seq::empty()
    } else if satisfies(f, c.last()) {
        rejected(c.drop_last(), f)
    } else {
        rejected(c.drop_last(), f).push(c.last())
    }
}

/// `r` is what a read of collection `c` with filter `f`, sorted by `field`,
/// returns: the matching items, each as often as in `c`, in ascending order.
pub open spec fn is_read_of(
    c: Seq<ItemView>,
    f: Option<FilterView>,
    field: Seq<char>,
    r: Seq<ItemView>,
) -> bool {
    &&& r.to_multiset() == selected(c, f).to_multiset()
    &&& sorted_by(r, field)
}

/// The collection after a bulk insert of `items`.
pub open spec fn written(c: Seq<ItemView>, items: Seq<ItemView>) -> Seq<ItemView> {
    c + items
}

/// The collection after a bulk delete by `f`.
pub open spec fn deleted(c: Seq<ItemView>, f: FilterView) -> Seq<ItemView> {
    rejected(c, f)
}

/// Whether some item of `c` has the natural key of `x`.
pub open spec fn has_key(c: Seq<ItemView>, x: ItemView) -> bool {
    exists|i: int| 0 <= i < c.len() && #[trigger] same_key(c[i], x)
}

/// Whether `i` is the position of the first item of `c` with the natural key of `x`.
pub open spec fn is_first_key(c: Seq<ItemView>, x: ItemView, i: int) -> bool {
    &&& 0 <= i < c.len()
    &&& same_key(c[i], x)
    &&& forall|j: int| 0 <= j < i ==> !#[trigger] same_key(c[j], x)
}

/// The position of the first item of `c` with the natural key of `x`.
pub open spec fn first_key(c: Seq<ItemView>, x: ItemView) -> int {
    choose|i: int| is_first_key(c, x, i)
}

/// The collection after replacing the first item with the natural key of `x`
/// by `x`; unchanged where no item has that key.
pub open spec fn updated(c: Seq<ItemView>, x: ItemView) -> Seq<ItemView> {
    if has_key(c, x) {
        c.update(first_key(c, x), x)
    } else {
        c
    }
}

/// What a cursor yields for one record: an item, a record that does not
/// decode into an item, or a failure of the backend with its cause.
pub enum CursorRecord {
    Decoded(BacklogItem),
    Undecodable,
    Failed(StoreError),
}

/// The outcome of draining a cursor that yielded `records`: the cause of the
/// first failure if there is one, else the decoded items in order.
pub open spec fn drained(records: Seq<CursorRecord>) -> Result<Seq<ItemView>, Seq<char>>
    decreases records.len(),
{
    if records.len() == 0 {
        Ok(Seq::empty())
    } else {
        match drained(records.drop_last()) {
            Err(cause) => Err(cause),
            Ok(items) => match records.last() {
                CursorRecord::Decoded(x) => Ok(items.push(x@)),
                CursorRecord::Undecodable => Ok(items),
                CursorRecord::Failed(e) => Err(e.cause@),
            },
        }
    }
}

impl Filter {
    /// The filter that matches every item.
    pub fn all() -> (r: Filter)
        ensures
            r@.title is None,
            r@.category is None,
            r@.description is None,
    {
        Filter { title: None, category: None, description: None }
    }

    /// The filter that matches the items with this title.
    pub fn by_title(title: String) -> (r: Filter)
        ensures
            r@.title == Some(title@),
            r@.category is None,
            r@.description is None,
    {
        Filter { title: Some(title), category: None, description: None }
    }

    /// The filter that matches the items of this category.
    pub fn by_category(category: String) -> (r: Filter)
        ensures
            r@.title is None,
            r@.category == Some(category@),
            r@.description is None,
    {
        Filter { title: None, category: Some(category), description: None }
    }

    /// The filter that matches the items sharing the natural key of `item`.
    pub fn natural_key(item: &BacklogItem) -> (r: Filter)
        ensures
            r@ == key_filter(item@),
    {
        Filter {
            title: Some(item.title.clone()),
            category: Some(item.category.clone()),
            description: None,
        }
    }

    /// Whether `item` satisfies this filter.
    pub fn accepts(&self, item: &BacklogItem) -> (r: bool)
        ensures
            r == satisfies(self@, item@),
    {
        let t = match &self.title {
            Some(t) => same_text(t.as_str(), item.title.as_str()),
            None => true,
        };
        let c = match &self.category {
            Some(c) => same_text(c.as_str(), item.category.as_str()),
            None => true,
        };
        let d = match &self.description {
            Some(d) => same_text(d.as_str(), item.description.as_str()),
            None => true,
        };
        t && c && d
    }
}

/// The name of the field a read sorts by: `sort_by` where given, else `category`.
pub fn sort_field_name<'a>(sort_by: Option<&'a str>) -> (r: &'a str)
    ensures
        r@ == sort_field(opt_str(sort_by)),
{
    match sort_by {
        Some(s) => s,
        None => "category",
    }
}

/// The text of the field named `field` of `item`, as `field_value` gives it.
pub fn field_text<'a>(item: &'a BacklogItem, field: &str) -> (r: &'a str)
    ensures
        r@ == field_value(item@, field@),
{
    if same_text(field, "title") {
        item.title.as_str()
    } else if same_text(field, "category") {
        item.category.as_str()
    } else if same_text(field, "description") {
        item.description.as_str()
    } else {
        proof {
            reveal_strlit("");
        }
        ""
    }
}

/// Once a prefix of the records has failed, the whole drain fails with the same cause.
proof fn lemma_drained_keeps_failure(records: Seq<CursorRecord>, k: int)
    requires
        0 <= k <= records.len(),
        drained(records.take(k)) is Err,
    ensures
        drained(records) == drained(records.take(k)),
    decreases records.len() - k,
{
    if records.len() == k {
        assert(records.take(k) =~= records);
    } else {
        let init = records.drop_last();
        assert(init.take(k) =~= records.take(k));
        lemma_drained_keeps_failure(init, k);
    }
}

/// Drains a cursor's records into a list: each record that decoded is kept,
/// in order, and each that did not is skipped; a failure of the backend fails
/// the whole read with its cause.
pub fn keep_decoded(records: &Vec<CursorRecord>) -> (r: Result<Vec<BacklogItem>, StoreError>)
    ensures
        match r {
            Ok(items) => drained(records@) == Ok::<Seq<ItemView>, Seq<char>>(items_view(items@)),
            Err(e) => drained(records@) == Err::<Seq<ItemView>, Seq<char>>(e.cause@),
        },
{
    let mut out: Vec<BacklogItem> = Vec::new();
    let n = records.len();
    let mut i: usize = 0;
    assert(records@.take(0) =~= Seq::<CursorRecord>::empty());
    assert(items_view(out@) =~= Seq::<ItemView>::empty());
    while i < n
        invariant
            n == records@.len(),
            i <= n,
            drained(records@.take(i as int)) == Ok::<Seq<ItemView>, Seq<char>>(items_view(out@)),
        decreases n - i,
    {
        proof {
            assert(records@.take(i + 1).drop_last() =~= records@.take(i as int));
            assert(records@.take(i + 1).last() == records@[i as int]);
        }
        match &records[i] {
            CursorRecord::Decoded(x) => {
                let ghost before = items_view(out@);
                out.push(x.duplicate());
                assert(items_view(out@) =~= before.push(x@));
            },
            CursorRecord::Undecodable => {},
            CursorRecord::Failed(e) => {
                proof {
                    lemma_drained_keeps_failure(records@, i + 1);
                }
                return Err(StoreError::new(e.cause.clone()));
            },
        }
        i = i + 1;
    }
    assert(records@.take(n as int) =~= records@);
    Ok(out)
}

} // verus!
