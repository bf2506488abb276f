//! A file and the fingerprint of its content.

use std::cmp::Ordering;
use vstd::prelude::*;

verus! {

/// The mathematical value of a [`FileRecord`].
pub struct FileRecordView {
    pub path: Seq<char>,
    pub fingerprint: u64,
}

/// A file found under a root, paired with the fingerprint of its content.
///
/// Two records with the same fingerprint stand for the same content, whatever
/// their paths are.
#[derive(Debug)]
pub struct FileRecord {
    pub path: String,
    pub fingerprint: u64,
}

impl View for FileRecord {
    type V = FileRecordView;

    open spec fn view(&self) -> FileRecordView {
        FileRecordView { path: self.path@, fingerprint: self.fingerprint }
    }
}

/// The values of a sequence of records, in the same order.
pub open spec fn record_views(files: Seq<FileRecord>) -> Seq<FileRecordView> {
    files.map_values(|file: FileRecord| file@)
}

/// The values of a sequence of paths, in the same order.
pub open spec fn path_views(paths: Seq<String>) -> Seq<Seq<char>> {
    paths.map_values(|path: String| path@)
}

impl FileRecord {
    /// Pairs a path with the fingerprint of the content found there.
    pub fn new(path: String, fingerprint: u64) -> (file: FileRecord)
        ensures
            file.path@ == path@,
            file.fingerprint == fingerprint,
    {
        FileRecord { path, fingerprint }
    }
}

impl Clone for FileRecord {
    fn clone(&self) -> (copy: FileRecord)
        ensures
            copy@ == self@,
    {
        FileRecord { path: self.path.clone(), fingerprint: self.fingerprint }
    }
}

/// Records are equal when their fingerprints are: the path is no part of
/// what a record is compared by.
impl PartialEq for FileRecord {
    fn eq(&self, other: &FileRecord) -> (equal: bool) {
        self.fingerprint == other.fingerprint
    }
}

impl vstd::std_specs::cmp::PartialEqSpecImpl for FileRecord {
    open spec fn obeys_eq_spec() -> bool {
        true
    }

    open spec fn eq_spec(&self, other: &FileRecord) -> bool {
        self.fingerprint == other.fingerprint
    }
}

impl Eq for FileRecord {

}

/// Records are ordered by fingerprint alone, and any two can be compared.
impl PartialOrd for FileRecord {
    fn partial_cmp(&self, other: &FileRecord) -> (order: Option<Ordering>) {
        if self.fingerprint < other.fingerprint {
            Some(Ordering::Less)
        } else if self.fingerprint == other.fingerprint {
            Some(Ordering::Equal)
        } else {
            Some(Ordering::Greater)
        }
    }
}

impl vstd::std_specs::cmp::PartialOrdSpecImpl for FileRecord {
    open spec fn obeys_partial_cmp_spec() -> bool {
        true
    }

    open spec fn partial_cmp_spec(&self, other: &FileRecord) -> Option<Ordering> {
        if self.fingerprint < other.fingerprint {
            Some(Ordering::Less)
        } else if self.fingerprint == other.fingerprint {
            Some(Ordering::Equal)
        } else {
            Some(Ordering::Greater)
        }
    }
}

} // verus!
