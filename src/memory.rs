use vstd::prelude::*;
use crate::item::{items_view, BacklogItem, ItemView};
use crate::query::{
    field_text, field_value, has_key, is_first_key, opt_filter, opt_str, rejected, same_key,
    selected, sort_field, sort_field_name, sorted_by, updated, Filter,
};
use crate::store::{BacklogStore, StoreError};
use crate::text::{lemma_text_le_total, text_le, text_precedes};

verus! {

broadcast use vstd::seq_lib::group_to_multiset_ensures;

/// A backlog store that keeps its collection in memory, in insertion order.
pub struct MemoryBacklogStore {
    items: Vec<BacklogItem>,
}

/// Inserting into a sequence adds one occurrence to its multiset.
proof fn lemma_insert_multiset(s: Seq<ItemView>, p: int, v: ItemView)
    requires
        0 <= p <= s.len(),
    ensures
        s.insert(p, v).to_multiset() == s.to_multiset().insert(v),
{
    let t = s.insert(p, v);
    assert(t.remove(p) =~= s);
    assert(t[p] == v);
    assert(t.contains(v));
    assert(t.to_multiset().remove(v).insert(v) =~= t.to_multiset());
}

/// Inserting `v` between a neighbour that is not after it and one that is
/// not before it keeps a sequence sorted.
proof fn lemma_insert_sorted(s: Seq<ItemView>, p: int, v: ItemView, field: Seq<char>)
    requires
        0 <= p <= s.len(),
        sorted_by(s, field),
        p > 0 ==> text_le(field_value(s[p - 1], field), field_value(v, field)),
        p < s.len() ==> text_le(field_value(v, field), field_value(s[p], field)),
    ensures
        sorted_by(s.insert(p, v), field),
{
    let t = s.insert(p, v);
    assert forall|i: int| 0 <= i < t.len() - 1 implies #[trigger] text_le(
        field_value(t[i], field),
        field_value(t[i + 1], field),
    ) by {
        if i < p - 1 {
            assert(text_le(field_value(s[i], field), field_value(s[i + 1], field)));
        } else if i > p {
            let k = i - 1;
            assert(text_le(field_value(s[k], field), field_value(s[k + 1], field)));
        }
    }
}

impl MemoryBacklogStore {
    /// An empty store.
    pub fn new() -> (r: MemoryBacklogStore)
        ensures
            r.contents() == Seq::<ItemView>::empty(),
    {
        MemoryBacklogStore { items: Vec::new() }
    }

    /// A store whose collection holds `items`, in that order.
    pub fn from_items(items: Vec<BacklogItem>) -> (r: MemoryBacklogStore)
        ensures
            r.contents() == items_view(items@),
    {
        MemoryBacklogStore { items }
    }

    /// The number of items the collection holds.
    pub fn len(&self) -> (r: usize)
        ensures
            r == self.contents().len(),
    {
        self.items.len()
    }
}

impl BacklogStore for MemoryBacklogStore {
    closed spec fn contents(&self) -> Seq<ItemView> {
        items_view(self.items@)
    }

    fn write_items(&mut self, new_items: Vec<BacklogItem>) -> (r: bool)
        ensures
            r,
    {
        let mut incoming = new_items;
        self.items.append(&mut incoming);
        assert(items_view(self.items@) =~= items_view(old(self).items@) + items_view(new_items@));
        true
    }

    fn get_items(&self, filter: Option<Filter>, sort_by: Option<&str>) -> (r: Result<
        Vec<BacklogItem>,
        StoreError,
    >)
        ensures
            r is Ok,
    {
        let field = sort_field_name(sort_by);
        let ghost c = self.contents();
        let ghost f = opt_filter(filter);
        let mut out: Vec<BacklogItem> = Vec::new();
        let n = self.items.len();
        let mut i: usize = 0;
        while i < n
            invariant
                n == self.items@.len(),
                c == items_view(self.items@),
                f == opt_filter(filter),
                field@ == sort_field(opt_str(sort_by)),
                i <= n,
                items_view(out@).to_multiset() == selected(c.take(i as int), f).to_multiset(),
                sorted_by(items_view(out@), field@),
            decreases n - i,
        {
            let x = &self.items[i];
            proof {
                assert(c.take(i + 1).drop_last() =~= c.take(i as int));
                assert(c.take(i + 1).last() == x@);
            }
            let keep = match &filter {
                Some(g) => g.accepts(x),
                None => true,
            };
            if keep {
                let key = field_text(x, field);
                let ghost before = items_view(out@);
                let mut p: usize = 0;
                while p < out.len() && text_precedes(field_text(&out[p], field), key)
                    invariant
                        p <= out@.len(),
                        before == items_view(out@),
                        key@ == field_value(x@, field@),
                        p > 0 ==> text_le(field_value(before[p - 1], field@), key@),
                    decreases out@.len() - p,
                {
                    p = p + 1;
                }
                proof {
                    if p < out@.len() {
                        lemma_text_le_total(field_value(before[p as int], field@), key@);
                    }
                    lemma_insert_sorted(before, p as int, x@, field@);
                    lemma_insert_multiset(before, p as int, x@);
                }
                out.insert(p, x.duplicate());
                assert(items_view(out@) =~= before.insert(p as int, x@));
            }
            i = i + 1;
        }
        assert(c.take(n as int) =~= c);
        Ok(out)
    }

    fn delete_items(&mut self, filter: Filter) -> (r: bool)
        ensures
            r,
    {
        let ghost c = self.contents();
        let mut kept: Vec<BacklogItem> = Vec::new();
        let n = self.items.len();
        let mut i: usize = 0;
        while i < n
            invariant
                n == self.items@.len(),
                c == items_view(self.items@),
                i <= n,
                items_view(kept@) == rejected(c.take(i as int), filter@),
            decreases n - i,
        {
            let x = &self.items[i];
            proof {
                assert(c.take(i + 1).drop_last() =~= c.take(i as int));
                assert(c.take(i + 1).last() == x@);
            }
            if !filter.accepts(x) {
                kept.push(x.duplicate());
            }
            assert(items_view(kept@) =~= rejected(c.take(i + 1), filter@));
            i = i + 1;
        }
        assert(c.take(n as int) =~= c);
        self.items = kept;
        true
    }

    fn update_item(&mut self, item: &BacklogItem) -> (r: bool)
        ensures
            r,
    {
        let ghost c = self.contents();
        let n = self.items.len();
        let mut i: usize = 0;
        while i < n
            invariant
                n == self.items@.len(),
                c == items_view(self.items@),
                c == old(self).contents(),
                i <= n,
                forall|j: int| 0 <= j < i ==> !#[trigger] same_key(c[j], item@),
            decreases n - i,
        {
            if self.items[i].same_key(item) {
                proof {
                    assert(is_first_key(c, item@, i as int));
                    assert(has_key(c, item@));
                    let k = crate::query::first_key(c, item@);
                    assert(is_first_key(c, item@, k));
                    assert(k == i);
                }
                self.items.remove(i);
                self.items.insert(i, item.duplicate());
                assert(items_view(self.items@) =~= updated(c, item@));
                return true;
            }
            i = i + 1;
        }
        true
    }
}

} // verus!
