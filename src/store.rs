use vstd::prelude::*;
use crate::item::{items_view, BacklogItem, ItemView};
use crate::query::{
    deleted, is_read_of, opt_filter, opt_str, same_key, satisfies, sort_field, updated, written,
    Filter,
};

verus! {

/// Why a read failed, with the backend's own account of the cause.
pub struct StoreError {
    pub cause: String,
}

impl StoreError {
    pub fn new(cause: String) -> (r: StoreError)
        ensures
            r.cause@ == cause@,
    {
        StoreError { cause }
    }
}

/// The capabilities of a backlog store: bulk write, filtered and sorted read,
/// bulk delete by filter, and replace by natural key. Mutating operations
/// report success as a flag; a read reports its failure with a cause.
pub trait BacklogStore {
    /// The documents of the store's collection, in their natural order.
    spec fn contents(&self) -> Seq<ItemView>;

    /// Inserts every item of `new_items` in one batch; on success the
    /// collection holds them after what it held before. An empty batch
    /// succeeds. A failed batch may have stored some of its items, and
    /// nothing else changes.
    fn write_items(&mut self, new_items: Vec<BacklogItem>) -> (r: bool)
        ensures
            new_items@.len() == 0 ==> r,
            r ==> final(self).contents() == written(old(self).contents(), items_view(new_items@)),
            !r ==> old(self).contents().to_multiset().subset_of(final(self).contents().to_multiset()),
            !r ==> final(self).contents().to_multiset().subset_of(
                old(self).contents().to_multiset().add(items_view(new_items@).to_multiset()),
            ),
    ;

    /// The items that satisfy `filter` (all items where it is `None`), sorted
    /// ascending by the field `sort_by` names, `category` where it is `None`.
    fn get_items(&self, filter: Option<Filter>, sort_by: Option<&str>) -> (r: Result<
        Vec<BacklogItem>,
        StoreError,
    >)
        ensures
            r is Ok ==> is_read_of(
                self.contents(),
                opt_filter(filter),
                sort_field(opt_str(sort_by)),
                items_view(r->Ok_0@),
            ),
    ;

    /// Removes every item that satisfies `filter`. A failed delete may have
    /// removed some of those items, and no other.
    fn delete_items(&mut self, filter: Filter) -> (r: bool)
        ensures
            r ==> final(self).contents() == deleted(old(self).contents(), filter@),
            !r ==> final(self).contents().to_multiset().subset_of(old(self).contents().to_multiset()),
            !r ==> forall|d: ItemView|
                #[trigger] final(self).contents().to_multiset().count(d) < old(
                    self,
                ).contents().to_multiset().count(d) ==> satisfies(filter@, d),
    ;

    /// Replaces the first item with the natural key of `item` by `item`; where
    /// no item has that key the collection stays as it was, which is not a
    /// failure. A failed update leaves every item with another natural key in
    /// place and replaces at most one document.
    fn update_item(&mut self, item: &BacklogItem) -> (r: bool)
        ensures
            r ==> final(self).contents() == updated(old(self).contents(), item@),
            !r ==> final(self).contents().len() == old(self).contents().len(),
            !r ==> forall|d: ItemView|
                !same_key(d, item@) ==> #[trigger] final(self).contents().to_multiset().count(d)
                    == old(self).contents().to_multiset().count(d),
            !r ==> old(self).contents().to_multiset().difference_with(
                final(self).contents().to_multiset(),
            ).len() <= 1,
    ;
}

} // verus!
