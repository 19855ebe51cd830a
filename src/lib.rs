//! Storage layer for a per-user backlog of items: a store interface with
//! write, filtered and sorted read, delete and update by natural key, an
//! in-memory store that meets it, and the decisions a document-database
//! backed store makes around each backend call.

mod item;
mod laws;
mod memory;
mod query;
mod store;
mod text;

pub use item::{items_view, BacklogItem, ItemView};
pub use laws::{
    lemma_default_read_sorted_by_category, lemma_delete_then_read_empty,
    lemma_filtered_read_by_title, lemma_update_replaces, lemma_update_without_match,
    lemma_write_nothing, lemma_write_then_read_all,
};
pub use memory::MemoryBacklogStore;
pub use query::{
    deleted, drained, field_text, field_value, first_key, has_key, is_first_key, is_read_of,
    keep_decoded, key_filter, matches_opt, meets, opt_filter, opt_str, opt_text, rejected,
    same_key, satisfies, selected, sort_field, sort_field_name, sorted_by, updated, written,
    CursorRecord, Filter, FilterView,
};
pub use store::{BacklogStore, StoreError};
pub use text::{lemma_text_le_total, same_text, text_le, text_precedes};
