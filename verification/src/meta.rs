//! What is known of an sst file.

use vstd::prelude::*;

use crate::time::TimeRange;

verus! {

/// Id of a space, the namespace of a table's files.
pub type SpaceId = u32;

/// Id of a table.
pub type TableId = u64;

/// Id of an sst file, unique in its table.
pub type FileId = u64;

/// Sequence number of a write.
pub type SequenceNumber = u64;

/// How the rows of an sst file are laid out.
#[derive(Debug, Copy, Clone, PartialEq, Eq, Structural)]
pub enum StorageFormat {
    /// Column by column.
    Columnar,
    /// Column by column, the rows of one series collapsed into one.
    Hybrid,
}

/// Meta of a sst file, immutable once created
#[derive(Debug, PartialEq, Eq)]
pub struct FileMeta {
    /// Id of the sst file
    pub id: FileId,
    /// File size in bytes
    pub size: u64,
    /// Total row number
    pub row_num: u64,
    /// The time range of the file.
    pub time_range: TimeRange,
    /// The max sequence number of the file.
    pub max_seq: u64,
    /// The format of the file.
    pub storage_format: StorageFormat,
    /// Associated files, such as: meta_path
    pub associated_files: Vec<String>,
}

/// A file's meta as a mathematical value.
#[verifier::ext_equal]
pub struct FileMetaView {
    pub id: FileId,
    pub size: u64,
    pub row_num: u64,
    pub time_range: TimeRange,
    pub max_seq: u64,
    pub storage_format: StorageFormat,
    pub associated_files: Seq<String>,
}

impl View for FileMeta {
    type V = FileMetaView;

    open spec fn view(&self) -> FileMetaView {
        FileMetaView {
            id: self.id,
            size: self.size,
            row_num: self.row_num,
            time_range: self.time_range,
            max_seq: self.max_seq,
            storage_format: self.storage_format,
            associated_files: self.associated_files@,
        }
    }
}

impl Clone for FileMeta {
    fn clone(&self) -> (r: Self)
        ensures
            r@ == self@,
            r.id == self.id,
            r.size == self.size,
            r.row_num == self.row_num,
            r.time_range == self.time_range,
            r.max_seq == self.max_seq,
            r.storage_format == self.storage_format,
            r.associated_files@ == self.associated_files@,
    {
        let associated_files = self.associated_files.clone();
        assert(associated_files@ =~= self.associated_files@);
        FileMeta {
            id: self.id,
            size: self.size,
            row_num: self.row_num,
            time_range: self.time_range,
            max_seq: self.max_seq,
            storage_format: self.storage_format,
            associated_files,
        }
    }
}

impl FileMeta {
    pub fn intersect_with_time_range(&self, time_range: TimeRange) -> (r: bool)
        ensures
            r == self.time_range.intersects(time_range),
            r == (self.time_range.start().0 < time_range.end().0 && time_range.start().0
                < self.time_range.end().0),
    {
        self.time_range.intersect_with(time_range)
    }
}

} // verus!
