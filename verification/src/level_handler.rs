//! The files of a single level.

use vstd::prelude::*;

use crate::file_set;
use crate::file_set::FileHandleSet;
use crate::handle::FileHandle;
use crate::level::Level;
use crate::meta::FileId;
use crate::time::{TimeRange, Timestamp};

verus! {

/// Manage files of single level
pub struct LevelHandler<M> {
    pub level: Level,
    /// All files in current level.
    files: FileHandleSet<M>,
}

impl<M> LevelHandler<M> {
    pub closed spec fn at_level(self) -> Level {
        self.level
    }

    /// The files, in ascending order of end time, start time and id.
    pub closed spec fn ssts(self) -> Seq<FileHandle<M>> {
        self.files.files()
    }

    /// The files by id.
    pub closed spec fn by_id(self) -> Map<FileId, FileHandle<M>> {
        self.files.index()
    }

    /// What holds of every handler that code can hold.
    pub open spec fn wf(self) -> bool {
        file_set::set_wf(self.ssts(), self.by_id())
    }

    pub fn new(level: Level) -> (r: Self)
        ensures
            r.wf(),
            r.at_level() == level,
            r.ssts() == Seq::<FileHandle<M>>::empty(),
            r.by_id() == Map::<FileId, FileHandle<M>>::empty(),
    {
        LevelHandler { level, files: FileHandleSet::new() }
    }

    /// Adds a file. One with the same time range and id gives way to it.
    pub fn insert(&mut self, file: FileHandle<M>)
        ensures
            final(self).wf(),
            final(self).at_level() == old(self).at_level(),
            final(self).ssts() == file_set::files_with(old(self).ssts(), file),
            final(self).by_id() == file_set::index_with(old(self).by_id(), file),
    {
        self.files.insert(file);
    }

    /// The file with the greatest end time; of several, the one with the
    /// greatest start time, then id.
    pub fn latest_sst(&self) -> (r: Option<FileHandle<M>>)
        ensures
            self.wf(),
            r == if self.ssts().len() == 0 {
                None
            } else {
                Some(self.ssts().last())
            },
            r matches Some(latest) ==> forall|i: int|
                0 <= i < self.ssts().len() ==> {
                    let a = (#[trigger] self.ssts()[i]).file_meta();
                    let b = latest.file_meta();
                    &&& a.time_range.end().0 <= b.time_range.end().0
                    &&& a.time_range.end().0 == b.time_range.end().0 ==> a.time_range.start().0
                        <= b.time_range.start().0
                    &&& a.time_range.end().0 == b.time_range.end().0 && a.time_range.start().0
                        == b.time_range.start().0 ==> a.id <= b.id
                },
    {
        self.files.latest()
    }

    /// The files whose time range intersects with `time_range`, in order.
    pub fn pick_ssts(&self, time_range: TimeRange) -> (r: Vec<FileHandle<M>>)
        ensures
            self.wf(),
            r@ == file_set::files_in(self.ssts(), time_range),
            forall|f: FileHandle<M>| #[trigger]
                r@.contains(f) <==> self.ssts().contains(f) && f.file_meta().time_range.start().0
                    < time_range.end().0 && time_range.start().0
                    < f.file_meta().time_range.end().0,
            forall|i: int, j: int|
                0 <= i < j < r.len() ==> #[trigger] r@[i] != #[trigger] r@[j],
            file_set::in_order(r@),
    {
        self.files.files_by_time_range(time_range)
    }

    /// Removes the files that are known under one of the ids.
    pub fn remove_ssts(&mut self, file_ids: &[FileId])
        ensures
            final(self).wf(),
            final(self).at_level() == old(self).at_level(),
            final(self).ssts() == file_set::files_without(
                old(self).ssts(),
                old(self).by_id(),
                file_ids@,
            ),
            final(self).by_id() == file_set::index_without(old(self).by_id(), file_ids@),
    {
        self.files.remove_by_ids(file_ids);
    }

    /// Hands out all files, in order.
    pub fn iter_ssts(&self) -> (r: Iter<'_, M>)
        ensures
            self.wf(),
            r.remaining() == self.ssts(),
    {
        let files = self.files.ordered();
        assert(files@.skip(0) =~= files@);
        Iter { files, pos: 0 }
    }

    /// Appends the files whose time range has expired, in order.
    pub fn collect_expired(
        &self,
        expire_time: Option<Timestamp>,
        expired_files: &mut Vec<FileHandle<M>>,
    )
        ensures
            self.wf(),
            final(expired_files)@ == old(expired_files)@ + file_set::expired_files(
                self.ssts(),
                expire_time,
            ),
    {
        self.files.collect_expired(expire_time, expired_files);
    }

    /// Whether the time range of some file has expired.
    pub fn has_expired_sst(&self, expire_time: Option<Timestamp>) -> (r: bool)
        ensures
            self.wf(),
            r == exists|i: int|
                0 <= i < self.ssts().len() && (
                #[trigger] self.ssts()[i]).file_meta().time_range.expired(expire_time),
            r ==> expire_time is Some,
            expire_time matches Some(t) ==> (r <==> !(forall|i: int|
                0 <= i < self.ssts().len() ==> t.0 < (
                #[trigger] self.ssts()[i]).file_meta().time_range.end().0)),
    {
        self.files.has_expired_sst(expire_time)
    }
}

/// Hands out the files of a level one by one.
pub struct Iter<'a, M> {
    files: &'a Vec<FileHandle<M>>,
    pos: usize,
}

impl<'a, M> Iter<'a, M> {
    #[verifier::type_invariant]
    spec fn inv(self) -> bool {
        self.pos <= self.files.len()
    }

    /// The files still to come.
    pub closed spec fn remaining(self) -> Seq<FileHandle<M>> {
        self.files@.skip(self.pos as int)
    }

    pub fn next(&mut self) -> (r: Option<&'a FileHandle<M>>)
        ensures
            r is None <==> old(self).remaining().len() == 0,
            r matches Some(file) ==> *file == old(self).remaining()[0] && final(self).remaining()
                == old(self).remaining().skip(1),
            r is None ==> final(self).remaining() == old(self).remaining(),
    {
        proof {
            use_type_invariant(&*self);
        }
        if self.pos < self.files.len() {
            let file = &self.files[self.pos];
            self.pos = self.pos + 1;
            assert(self.remaining() =~= old(self).remaining().skip(1));
            Some(file)
        } else {
            None
        }
    }
}

} // verus!
