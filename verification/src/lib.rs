//! Finding duplicate and divergent files by the fingerprint of their content.
//!
//! The crate decides; it touches no file. A caller walks a tree, feeds each
//! file's bytes to a [`ContentHasher`], and hands the resulting
//! [`FileRecord`]s to [`find_and_delete_duplicates`] or [`diff_directories`],
//! which say what is to be deleted or reported.

pub mod hasher;
pub mod record;
pub mod path;
pub mod grouping;
pub mod policy;
pub mod differ;
pub mod reaper;
mod seq_facts;

pub use hasher::{fingerprint, hash_file, ContentHasher, FINGERPRINT_SEED, UNREADABLE_FINGERPRINT};
pub use record::{FileRecord, FileRecordView};
pub use path::parent_dir_is_date;
pub use grouping::{group_duplicates, DuplicateGroup, DuplicateGroupView};
pub use policy::{delete_duplicates, find_and_delete_duplicates};
pub use differ::{diff_directories, FingerprintSet};
pub use reaper::{find_empty_dirs, is_empty_dir, TreeEntry, TreeEntryView};
