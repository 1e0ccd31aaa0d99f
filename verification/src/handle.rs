//! Shared handles to sst files.

use std::hash::{Hash, Hasher};
use std::sync::Arc;
use std::sync::atomic::Ordering;
use vstd::prelude::*;
use vstd::std_specs::cmp::PartialEqSpec;

use crate::flag;
use crate::flag::{FlagReading, FlagStore, SharedFlag};
use crate::meta::{FileId, FileMeta, SequenceNumber, StorageFormat};
use crate::purge::{FilePurgeQueue, PushOutcome};
use crate::time::TimeRange;

verus! {

/// `u64::hash`: feeds the bare id to the hasher. What that does to the hasher is
/// up to the hasher, so nothing is promised of it; contracts say that a hasher
/// was changed by this call on an id.
#[verifier::external_body]
pub fn hash_id<S: Hasher>(id: FileId, state: &mut S) {
    id.hash(state);
}

/// Counters of an sst file. `M` is the meter of the reads from the file.
struct SstMetrics<M> {
    read_meter: Arc<M>,
    key_num: usize,
}

impl<M> SstMetrics<M> {
    pub closed spec fn meter(self) -> M {
        *self.read_meter
    }

    pub closed spec fn keys(self) -> usize {
        self.key_num
    }
}

impl<M: Default> Default for SstMetrics<M> {
    /// A new meter, and no keys.
    fn default() -> (r: Self)
        ensures
            M::default.ensures((), r.meter()),
            r.keys() == 0,
    {
        SstMetrics { read_meter: Arc::new(M::default()), key_num: 0 }
    }
}

struct FileHandleInner<M> {
    meta: FileMeta,
    purge_queue: FilePurgeQueue,
    /// The file is being compacting.
    being_compacted: SharedFlag,
    metrics: SstMetrics<M>,
}

impl<M> FileHandleInner<M> {
    pub closed spec fn queue(self) -> FilePurgeQueue {
        self.purge_queue
    }

    pub closed spec fn file_meta(self) -> FileMeta {
        self.meta
    }
}

impl<M> Drop for FileHandleInner<M> {
    /// The last handle to the file has gone: the file is pushed to its queue.
    fn drop(&mut self)
        ensures
            exists|r: PushOutcome|
                call_ensures(
                    FilePurgeQueue::push_file,
                    (&old(self).queue(), &old(self).file_meta()),
                    r,
                ),
        opens_invariants none
        no_unwind
    {
        // Push file cannot block or be async because we are in drop().
        let _ = self.purge_queue.push_file(&self.meta);
    }
}

/// A handle to an sst file. Clones refer to the same file; when the last of
/// them is dropped, the file is pushed to its purge queue.
pub struct FileHandle<M> {
    inner: Arc<FileHandleInner<M>>,
}

impl<M> Clone for FileHandle<M> {
    fn clone(&self) -> (r: Self)
        ensures
            r == *self,
    {
        FileHandle { inner: self.inner.clone() }
    }
}

impl<M> FileHandle<M> {
    pub closed spec fn file_meta(self) -> FileMeta {
        self.inner.meta
    }

    /// The queue that the file is pushed to in the end.
    pub closed spec fn purge_queue(self) -> FilePurgeQueue {
        self.inner.purge_queue
    }

    /// The queue and the meta that the file is pushed with when the last handle
    /// to it goes.
    pub closed spec fn pushed_in_the_end(self) -> (FilePurgeQueue, FileMeta) {
        (self.inner.queue(), self.inner.file_meta())
    }

    /// The flag that is set while the file is being compacted.
    pub closed spec fn compaction_flag(self) -> SharedFlag {
        self.inner.being_compacted
    }

    pub closed spec fn meter(self) -> M {
        self.inner.metrics.meter()
    }

    /// A handle to a file that is not being compacted, with a new meter.
    pub fn new(meta: FileMeta, purge_queue: FilePurgeQueue) -> (r: Self) where M: Default
        ensures
            r.file_meta() == meta,
            r.purge_queue() == purge_queue,
            M::default.ensures((), r.meter()),
            !r.compaction_flag().made_with(),
    {
        FileHandle {
            inner: Arc::new(
                FileHandleInner {
                    meta,
                    purge_queue,
                    being_compacted: flag::new_flag(false),
                    metrics: SstMetrics::default(),
                },
            ),
        }
    }

    pub fn read_meter(&self) -> (r: Arc<M>)
        ensures
            *r == self.meter(),
    {
        self.inner.metrics.read_meter.clone()
    }

    pub fn row_num(&self) -> (r: u64)
        ensures
            r == self.file_meta().row_num,
    {
        self.inner.meta.row_num
    }

    pub fn id(&self) -> (r: FileId)
        ensures
            r == self.file_meta().id,
    {
        self.inner.meta.id
    }

    pub fn id_ref(&self) -> (r: &FileId)
        ensures
            *r == self.file_meta().id,
    {
        &self.inner.meta.id
    }

    pub fn intersect_with_time_range(&self, time_range: TimeRange) -> (r: bool)
        ensures
            r == self.file_meta().time_range.intersects(time_range),
            r == (self.file_meta().time_range.start().0 < time_range.end().0
                && time_range.start().0 < self.file_meta().time_range.end().0),
    {
        self.inner.meta.intersect_with_time_range(time_range)
    }

    pub fn time_range(&self) -> (r: TimeRange)
        ensures
            r == self.file_meta().time_range,
    {
        self.inner.meta.time_range
    }

    pub fn time_range_ref(&self) -> (r: &TimeRange)
        ensures
            *r == self.file_meta().time_range,
    {
        &self.inner.meta.time_range
    }

    pub fn max_sequence(&self) -> (r: SequenceNumber)
        ensures
            r == self.file_meta().max_seq,
    {
        self.inner.meta.max_seq
    }

    /// Reads whether the file is being compacted. The flag is shared by all
    /// handles to the file, and what is found is what some holder last said.
    pub fn being_compacted(&self) -> (r: FlagReading)
        ensures
            r.flag() == self.compaction_flag(),
            !r.seq_cst(),
    {
        flag::load_flag(&self.inner.being_compacted, Ordering::Relaxed)
    }

    pub fn size(&self) -> (r: u64)
        ensures
            r == self.file_meta().size,
    {
        self.inner.meta.size
    }

    /// Marks the file as being compacted or not, for all handles to it.
    pub fn set_being_compacted(&self, value: bool) -> (r: FlagStore)
        ensures
            r.flag() == self.compaction_flag(),
            r.value() == value,
            !r.seq_cst(),
    {
        flag::store_flag(&self.inner.being_compacted, value, Ordering::Relaxed)
    }

    pub fn storage_format(&self) -> (r: StorageFormat)
        ensures
            r == self.file_meta().storage_format,
    {
        self.inner.meta.storage_format
    }

    pub fn meta(&self) -> (r: FileMeta)
        ensures
            r@ == self.file_meta()@,
            r.id == self.file_meta().id,
            r.size == self.file_meta().size,
            r.row_num == self.file_meta().row_num,
            r.time_range == self.file_meta().time_range,
            r.max_seq == self.file_meta().max_seq,
            r.storage_format == self.file_meta().storage_format,
            r.associated_files@ == self.file_meta().associated_files@,
    {
        self.inner.meta.clone()
    }
}

impl<M> PartialEq for FileHandle<M> {
    /// Handles are equal where they refer to files of the same id.
    fn eq(&self, other: &Self) -> (r: bool) {
        self.id() == other.id()
    }
}

impl<M> vstd::std_specs::cmp::PartialEqSpecImpl for FileHandle<M> {
    open spec fn obeys_eq_spec() -> bool {
        true
    }

    open spec fn eq_spec(&self, other: &Self) -> bool {
        self.file_meta().id == other.file_meta().id
    }
}

impl<M> Eq for FileHandle<M> {

}

impl<M> Hash for FileHandle<M> {
    /// Hashes the id, by which handles are compared: the hasher is changed as
    /// hashing the bare id changes it.
    fn hash<S: Hasher>(&self, state: &mut S)
        ensures
            exists|s: &mut S|
                *s == *old(state) && *final(s) == *final(state) && #[trigger] call_ensures(
                    hash_id::<S>,
                    (self.file_meta().id, s),
                    (),
                ),
    {
        hash_id(self.id(), state);
    }
}

/// Handles are equal exactly if their files have the same id.
pub proof fn handles_are_equal_by_id<M>(a: FileHandle<M>, b: FileHandle<M>)
    ensures
        a.eq_spec(&b) <==> a.file_meta().id == b.file_meta().id,
{
}

/// A file is pushed in the end to the queue that it was made with, with its own
/// meta.
pub proof fn file_is_pushed_with_its_own_meta<M>(file: FileHandle<M>)
    ensures
        file.pushed_in_the_end().0 == file.purge_queue(),
        file.pushed_in_the_end().1 == file.file_meta(),
{
}

/// Handles that are equal hash alike: what hashing the bare id of one can do to
/// a hasher, hashing the bare id of the other can, and nothing else.
pub proof fn equal_handles_hash_alike<M, S: Hasher>(a: FileHandle<M>, b: FileHandle<M>)
    requires
        a.eq_spec(&b),
    ensures
        forall|s: &mut S| #[trigger]
            call_ensures(hash_id::<S>, (a.file_meta().id, s), ()) <==> call_ensures(
                hash_id::<S>,
                (b.file_meta().id, s),
                (),
            ),
{
}

/// Whoever reads what was stored last to a file's flag, or what it was made with
/// where nothing was stored, finds the last value that a handle to the file was
/// marked with; on a new file without a mark, that it is not being compacted.
pub proof fn reading_of_the_last_store_is_the_last_mark<M>(
    file: FileHandle<M>,
    marks: Seq<bool>,
    stores: Seq<FlagStore>,
    reading: FlagReading,
)
    requires
        stores.len() == marks.len(),
        forall|i: int|
            0 <= i < stores.len() ==> call_ensures(
                FileHandle::<M>::set_being_compacted,
                (&file, marks[i]),
                #[trigger] stores[i],
            ),
        call_ensures(FileHandle::<M>::being_compacted, (&file,), reading),
        reading.set() == flag::held_after(file.compaction_flag(), stores),
    ensures
        marks.len() > 0 ==> reading.set() == marks.last(),
        marks.len() == 0 && !file.compaction_flag().made_with() ==> !reading.set(),
{
    if marks.len() > 0 {
        assert(stores[stores.len() - 1].value() == marks[marks.len() - 1]);
    }
}

} // verus!
