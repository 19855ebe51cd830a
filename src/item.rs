use vstd::prelude::*;

verus! {

/// A backlog item as the store sees it.
pub struct BacklogItem {
    /// Human-readable name of the item; with `category` it forms the natural key.
    pub title: String,
    /// Classification of the item; the default sort key.
    pub category: String,
    /// Descriptive text owned by the caller's domain, opaque to the store.
    pub description: String,
}

/// The mathematical value of a backlog item.
pub struct ItemView {
    pub title: Seq<char>,
    pub category: Seq<char>,
    pub description: Seq<char>,
}

impl View for BacklogItem {
    type V = ItemView;

    open spec fn view(&self) -> ItemView {
        ItemView { title: self.title@, category: self.category@, description: self.description@ }
    }
}

/// The values of a sequence of items.
pub open spec fn items_view(items: Seq<BacklogItem>) -> Seq<ItemView> {
    items.map_values(|i: BacklogItem| i@)
}

impl BacklogItem {
    pub fn new(title: String, category: String, description: String) -> (r: BacklogItem)
        ensures
            r.title@ == title@,
            r.category@ == category@,
            r.description@ == description@,
    {
        BacklogItem { title, category, description }
    }

    /// A copy of this item with the same value.
    pub fn duplicate(&self) -> (r: BacklogItem)
        ensures
            r@ == self@,
    {
        BacklogItem {
            title: self.title.clone(),
            category: self.category.clone(),
            description: self.description.clone(),
        }
    }

    /// Whether `other` has the same natural key (`title`, `category`).
    pub fn same_key(&self, other: &BacklogItem) -> (r: bool)
        ensures
            r == (self@.title == other@.title && self@.category == other@.category),
    {
        self.title == other.title && self.category == other.category
    }
}

} // verus!
