//! A declarative, ordered schema-migration engine.
//!
//! A fixed sequence of named [`revision::Revision`]s is compared against the
//! ledger of a storage backend, and the engine drives the backend toward full
//! application (`upgrade`), partial or full rollback (`downgrade`), or a
//! destructive rebuild (`reset`).  The backend is reached through two narrow
//! ports, so the orchestration logic is independent of any concrete database.

pub mod applied_revision;
pub mod config;
pub mod errors;
pub mod memory_storage;
pub mod memory_store;
pub mod migrate_store;
pub mod migration;
pub mod model;
pub mod news;
pub mod page_metadata;
pub mod postgres_revision_storage;
pub mod revision;
pub mod revision_list;
pub mod statement;
pub mod text;
pub mod user;

pub use applied_revision::AppliedRevision;
pub use config::Config;
pub use errors::MigrationError;
pub use migrate_store::{
    ExecutionPolicy, RevisionDatabase, RevisionStorage, RevisionStore, StorageRow,
};
pub use memory_storage::{MemoryRow, MemoryStorage};
pub use memory_store::MemoryStore;
pub use migration::Migration;
pub use news::{NewsForm, NewsItem};
pub use page_metadata::PageMetadata;
pub use revision::Revision;
pub use revision_list::{RevisionList, RevisionStatus};
pub use statement::{Bookkeeping, Statement};
pub use user::User;
