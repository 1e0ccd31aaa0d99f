//! The files of one level, ordered by time range and indexed by id.

use std::collections::HashMap;
use vstd::prelude::*;

use crate::filter;
use crate::handle::FileHandle;
use crate::laws;
use crate::meta::FileId;
use crate::time::{TimeRange, Timestamp};

verus! {

/// Used to order [FileHandle] by (end_time, start_time, file_id)
#[derive(Debug, Copy, Clone, PartialEq, Eq, Structural)]
pub struct FileOrdKey {
    pub exclusive_end: Timestamp,
    pub inclusive_start: Timestamp,
    pub file_id: FileId,
}

impl FileOrdKey {
    /// The key of a file.
    pub open spec fn of<M>(file: FileHandle<M>) -> FileOrdKey {
        FileOrdKey {
            exclusive_end: file.file_meta().time_range.end(),
            inclusive_start: file.file_meta().time_range.start(),
            file_id: file.file_meta().id,
        }
    }

    /// Keys are compared by end, then by start, then by id.
    pub open spec fn lt(self, other: FileOrdKey) -> bool {
        ||| self.exclusive_end.0 < other.exclusive_end.0
        ||| {
            &&& self.exclusive_end.0 == other.exclusive_end.0
            &&& {
                ||| self.inclusive_start.0 < other.inclusive_start.0
                ||| {
                    &&& self.inclusive_start.0 == other.inclusive_start.0
                    &&& self.file_id < other.file_id
                }
            }
        }
    }

    /// The least key with the given end.
    pub fn for_seek(exclusive_end: Timestamp) -> (r: Self)
        ensures
            r.exclusive_end == exclusive_end,
            r.inclusive_start.0 == i64::MIN,
            r.file_id == 0,
            forall|key: FileOrdKey| #[trigger]
                key.lt(r) <==> key.exclusive_end.0 < exclusive_end.0,
    {
        FileOrdKey { exclusive_end, inclusive_start: Timestamp(Timestamp::MIN), file_id: 0 }
    }

    pub fn key_of<M>(file: &FileHandle<M>) -> (r: Self)
        ensures
            r == FileOrdKey::of(*file),
            r.exclusive_end == file.file_meta().time_range.end(),
            r.inclusive_start == file.file_meta().time_range.start(),
            r.file_id == file.file_meta().id,
    {
        FileOrdKey {
            exclusive_end: file.time_range().exclusive_end(),
            inclusive_start: file.time_range().inclusive_start(),
            file_id: file.id(),
        }
    }

    pub fn less(&self, other: &FileOrdKey) -> (r: bool)
        ensures
            r == self.lt(*other),
            self.exclusive_end.0 < other.exclusive_end.0 ==> r,
            self.exclusive_end.0 > other.exclusive_end.0 ==> !r,
            self.exclusive_end.0 == other.exclusive_end.0 && self.inclusive_start.0
                < other.inclusive_start.0 ==> r,
            self.exclusive_end.0 == other.exclusive_end.0 && self.inclusive_start.0
                > other.inclusive_start.0 ==> !r,
            self.exclusive_end.0 == other.exclusive_end.0 && self.inclusive_start.0
                == other.inclusive_start.0 ==> r == (self.file_id < other.file_id),
    {
        if self.exclusive_end.0 != other.exclusive_end.0 {
            self.exclusive_end.0 < other.exclusive_end.0
        } else if self.inclusive_start.0 != other.inclusive_start.0 {
            self.inclusive_start.0 < other.inclusive_start.0
        } else {
            self.file_id < other.file_id
        }
    }
}

/// Whether the files stand in strictly ascending order of their keys.
pub open spec fn in_order<M>(files: Seq<FileHandle<M>>) -> bool {
    forall|i: int, j: int|
        0 <= i < j < files.len() ==> FileOrdKey::of(#[trigger] files[i]).lt(
            FileOrdKey::of(#[trigger] files[j]),
        )
}

/// Whether one of the files has the given key.
pub open spec fn has_key<M>(files: Seq<FileHandle<M>>, key: FileOrdKey) -> bool {
    exists|i: int| 0 <= i < files.len() && FileOrdKey::of(#[trigger] files[i]) == key
}

/// Whether the index leads from an id to a file of that id, whose key is one of
/// those of the files.
pub open spec fn index_agrees<M>(
    files: Seq<FileHandle<M>>,
    index: Map<FileId, FileHandle<M>>,
) -> bool {
    forall|id: FileId| #[trigger]
        index.contains_key(id) ==> index[id].file_meta().id == id && has_key(
            files,
            FileOrdKey::of(index[id]),
        )
}

/// What holds of the files and the index of every set.
pub open spec fn set_wf<M>(
    files: Seq<FileHandle<M>>,
    index: Map<FileId, FileHandle<M>>,
) -> bool {
    in_order(files) && index_agrees(files, index)
}

/// The files with one more, at the place that its key gives it. It takes the
/// place of the file with the same key, if there is one.
pub open spec fn files_with<M>(files: Seq<FileHandle<M>>, file: FileHandle<M>) -> Seq<
    FileHandle<M>,
> {
    files.filter(|f: FileHandle<M>| FileOrdKey::of(f).lt(FileOrdKey::of(file))).push(file)
        + files.filter(|f: FileHandle<M>| FileOrdKey::of(file).lt(FileOrdKey::of(f)))
}

/// The index with one more file. An id that is indexed already keeps its file.
pub open spec fn index_with<M>(
    index: Map<FileId, FileHandle<M>>,
    file: FileHandle<M>,
) -> Map<FileId, FileHandle<M>> {
    if index.contains_key(file.file_meta().id) {
        index
    } else {
        index.insert(file.file_meta().id, file)
    }
}

/// Whether the index leads from the file's id to the file's key.
pub open spec fn indexed<M>(index: Map<FileId, FileHandle<M>>, file: FileHandle<M>) -> bool {
    index.contains_key(file.file_meta().id) && FileOrdKey::of(index[file.file_meta().id])
        == FileOrdKey::of(file)
}

/// The files without those that the index finds under one of the ids.
pub open spec fn files_without<M>(
    files: Seq<FileHandle<M>>,
    index: Map<FileId, FileHandle<M>>,
    ids: Seq<FileId>,
) -> Seq<FileHandle<M>> {
    files.filter(|f: FileHandle<M>| !(ids.contains(f.file_meta().id) && indexed(index, f)))
}

/// The index without the ids.
pub open spec fn index_without<M>(
    index: Map<FileId, FileHandle<M>>,
    ids: Seq<FileId>,
) -> Map<FileId, FileHandle<M>> {
    index.remove_keys(ids.to_set())
}

/// The files whose time range intersects with `time_range`.
pub open spec fn files_in<M>(files: Seq<FileHandle<M>>, time_range: TimeRange) -> Seq<
    FileHandle<M>,
> {
    files.filter(|f: FileHandle<M>| f.file_meta().time_range.intersects(time_range))
}

/// The files whose time range has expired.
pub open spec fn expired_files<M>(
    files: Seq<FileHandle<M>>,
    expire_time: Option<Timestamp>,
) -> Seq<FileHandle<M>> {
    files.filter(|f: FileHandle<M>| f.file_meta().time_range.expired(expire_time))
}

/// The place of the first file whose key is not less than `key`.
fn lower_bound<M>(files: &Vec<FileHandle<M>>, key: &FileOrdKey) -> (r: usize)
    requires
        in_order(files@),
    ensures
        r <= files.len(),
        forall|i: int| 0 <= i < r ==> FileOrdKey::of(#[trigger] files@[i]).lt(*key),
        forall|i: int| r <= i < files.len() ==> !FileOrdKey::of(#[trigger] files@[i]).lt(*key),
{
    let mut low: usize = 0;
    let mut high: usize = files.len();
    while low < high
        invariant
            low <= high <= files.len(),
            in_order(files@),
            forall|i: int| 0 <= i < low ==> FileOrdKey::of(#[trigger] files@[i]).lt(*key),
            forall|i: int|
                high <= i < files.len() ==> !FileOrdKey::of(#[trigger] files@[i]).lt(*key),
        decreases high - low,
    {
        let mid: usize = low + (high - low) / 2;
        if FileOrdKey::key_of(&files[mid]).less(key) {
            low = mid + 1;
        } else {
            high = mid;
        }
    }
    low
}

/// Files of one level, found by time range and by id.
pub struct FileHandleSet<M> {
    /// Files ordered by time range and id.
    file_map: Vec<FileHandle<M>>,
    /// Files indexed by file id, used to speed up removal.
    id_to_files: HashMap<FileId, FileHandle<M>>,
}

impl<M> FileHandleSet<M> {
    #[verifier::type_invariant]
    spec fn inv(self) -> bool {
        set_wf(self.file_map@, self.id_to_files@)
    }

    /// The files, in order.
    pub closed spec fn files(self) -> Seq<FileHandle<M>> {
        self.file_map@
    }

    /// The files by id.
    pub closed spec fn index(self) -> Map<FileId, FileHandle<M>> {
        self.id_to_files@
    }

    pub open spec fn wf(self) -> bool {
        set_wf(self.files(), self.index())
    }

    pub fn new() -> (r: Self)
        ensures
            r.wf(),
            r.files() == Seq::<FileHandle<M>>::empty(),
            r.index() == Map::<FileId, FileHandle<M>>::empty(),
    {
        FileHandleSet { file_map: Vec::new(), id_to_files: HashMap::new() }
    }

    /// The files, in order.
    pub fn ordered(&self) -> (r: &Vec<FileHandle<M>>)
        ensures
            self.wf(),
            r@ == self.files(),
    {
        proof {
            use_type_invariant(self);
        }
        &self.file_map
    }

    /// The file with the greatest key.
    pub fn latest(&self) -> (r: Option<FileHandle<M>>)
        ensures
            self.wf(),
            r == if self.files().len() == 0 {
                None
            } else {
                Some(self.files().last())
            },
            r matches Some(latest) ==> forall|i: int|
                0 <= i < self.files().len() ==> {
                    let a = (#[trigger] self.files()[i]).file_meta();
                    let b = latest.file_meta();
                    &&& a.time_range.end().0 <= b.time_range.end().0
                    &&& a.time_range.end().0 == b.time_range.end().0 ==> a.time_range.start().0
                        <= b.time_range.start().0
                    &&& a.time_range.end().0 == b.time_range.end().0 && a.time_range.start().0
                        == b.time_range.start().0 ==> a.id <= b.id
                },
    {
        proof {
            use_type_invariant(self);
        }
        let n: usize = self.file_map.len();
        if n > 0 {
            return Some(self.file_map[n - 1].clone());
        }
        None
    }

    /// The files that intersect with `time_range`, in order.
    pub fn files_by_time_range(&self, time_range: TimeRange) -> (r: Vec<FileHandle<M>>)
        ensures
            self.wf(),
            r@ == files_in(self.files(), time_range),
            forall|f: FileHandle<M>| #[trigger]
                r@.contains(f) <==> self.files().contains(f) && f.file_meta().time_range.start().0
                    < time_range.end().0 && time_range.start().0
                    < f.file_meta().time_range.end().0,
            forall|i: int, j: int|
                0 <= i < j < r.len() ==> #[trigger] r@[i] != #[trigger] r@[j],
            in_order(r@),
    {
        proof {
            use_type_invariant(self);
        }
        // Seek to first sst whose end time >= time_range.inclusive_start().
        let seek_key = FileOrdKey::for_seek(time_range.inclusive_start());
        let first: usize = lower_bound(&self.file_map, &seek_key);
        let ghost p = |f: FileHandle<M>| f.file_meta().time_range.intersects(time_range);
        let mut picked: Vec<FileHandle<M>> = Vec::new();
        let mut i: usize = first;
        proof {
            filter::lemma_filter_none(self.file_map@.take(first as int), p);
        }
        while i < self.file_map.len()
            invariant
                i <= self.file_map.len(),
                p == (|f: FileHandle<M>| f.file_meta().time_range.intersects(time_range)),
                picked@ == self.file_map@.take(i as int).filter(p),
            decreases self.file_map.len() - i,
        {
            let file = &self.file_map[i];
            proof {
                filter::lemma_filter_push(self.file_map@.take(i as int), *file, p);
                assert(self.file_map@.take(i as int).push(*file) =~= self.file_map@.take(i + 1));
            }
            if file.intersect_with_time_range(time_range) {
                picked.push(file.clone());
            }
            i += 1;
        }
        assert(self.file_map@.take(i as int) =~= self.file_map@);
        proof {
            laws::query_picks_each_matching_file_once_in_order(self.file_map@, time_range);
        }
        picked
    }

    /// Adds a file. One with the same key gives way to it.
    pub fn insert(&mut self, file: FileHandle<M>)
        ensures
            final(self).wf(),
            final(self).files() == files_with(old(self).files(), file),
            final(self).index() == index_with(old(self).index(), file),
    {
        proof {
            use_type_invariant(&*self);
        }
        let mut taken = FileHandleSet::new();
        std::mem::swap(&mut taken, self);
        let FileHandleSet { file_map: mut files, id_to_files: mut index } = taken;
        let ghost old_files = files@;
        let ghost old_index = index@;

        let key = FileOrdKey::key_of(&file);
        let at: usize = lower_bound(&files, &key);
        let id: FileId = file.id();
        if at < files.len() && FileOrdKey::key_of(&files[at]) == key {
            files[at] = file.clone();
        } else {
            files.insert(at, file.clone());
        }
        proof {
            lemma_place_of_insertion(old_files, file, at as int);
            assert(files@ =~= files_with(old_files, file));
        }
        if !index.contains_key(&id) {
            index.insert(id, file);
        }
        proof {
            insert_keeps_set_wf(old_files, old_index, file);
        }
        *self = FileHandleSet { file_map: files, id_to_files: index };
    }

    /// Removes the files that are indexed under one of the ids, and forgets the
    /// ids. An id that is not indexed changes nothing.
    pub fn remove_by_ids(&mut self, file_ids: &[FileId])
        ensures
            final(self).wf(),
            final(self).files() == files_without(old(self).files(), old(self).index(), file_ids@),
            final(self).index() == index_without(old(self).index(), file_ids@),
    {
        proof {
            use_type_invariant(&*self);
        }
        let mut taken = FileHandleSet::new();
        std::mem::swap(&mut taken, self);
        let FileHandleSet { file_map: mut files, id_to_files: mut index } = taken;
        let ghost old_files = files@;
        let ghost old_index = index@;

        let mut n: usize = 0;
        proof {
            let none = file_ids@.take(0);
            filter::lemma_filter_all(
                old_files,
                |f: FileHandle<M>|
                    !(none.contains(f.file_meta().id) && indexed(old_index, f)),
            );
            assert(index_without(old_index, none) =~= old_index);
        }
        while n < file_ids.len()
            invariant
                n <= file_ids.len(),
                set_wf(old_files, old_index),
                set_wf(files@, index@),
                files@ == files_without(old_files, old_index, file_ids@.take(n as int)),
                index@ == index_without(old_index, file_ids@.take(n as int)),
            decreases file_ids.len() - n,
        {
            let file_id: FileId = file_ids[n];
            let ghost before = files@;
            if let Some(file) = index.remove(&file_id) {
                let key = FileOrdKey::key_of(&file);
                let at: usize = lower_bound(&files, &key);
                if at < files.len() && FileOrdKey::key_of(&files[at]) == key {
                    let _ = files.remove(at);
                }
                proof {
                    lemma_take_out(before, file, at as int);
                }
            }
            proof {
                lemma_remove_one_more(old_files, old_index, file_ids@.take(n as int), file_id);
                assert(file_ids@.take(n as int).push(file_id) =~= file_ids@.take(n + 1));
                remove_keeps_set_wf(old_files, old_index, file_ids@.take(n + 1));
            }
            n += 1;
        }
        assert(file_ids@.take(n as int) =~= file_ids@);
        *self = FileHandleSet { file_map: files, id_to_files: index };
    }

    /// Collect ssts with time range is expired.
    pub fn collect_expired(
        &self,
        expire_time: Option<Timestamp>,
        expired_files: &mut Vec<FileHandle<M>>,
    )
        ensures
            self.wf(),
            final(expired_files)@ == old(expired_files)@ + self::expired_files(
                self.files(),
                expire_time,
            ),
    {
        proof {
            use_type_invariant(self);
        }
        let ghost before = expired_files@;
        let mut i: usize = 0;
        assert(before + self.file_map@.take(0) =~= before);
        while i < self.file_map.len()
            invariant
                i <= self.file_map.len(),
                forall|j: int|
                    0 <= j < i ==> (#[trigger] self.file_map@[j]).file_meta().time_range.expired(
                        expire_time,
                    ),
                expired_files@ == before + self.file_map@.take(i as int),
            ensures
                i <= self.file_map.len(),
                forall|j: int|
                    0 <= j < i ==> (#[trigger] self.file_map@[j]).file_meta().time_range.expired(
                        expire_time,
                    ),
                i < self.file_map.len() ==> !self.file_map@[i as int].file_meta().time_range.expired(
                    expire_time,
                ),
                expired_files@ == before + self.file_map@.take(i as int),
            decreases self.file_map.len() - i,
        {
            let file = &self.file_map[i];
            if !file.time_range().is_expired(expire_time) {
                // Files are sorted by end time first, so there is no more file whose end time
                // is less than `expire_time`.
                break;
            }
            expired_files.push(file.clone());
            i += 1;
            assert(before + self.file_map@.take(i as int) =~= (before + self.file_map@.take(
                i - 1,
            )).push(*file));
        }
        proof {
            lemma_expired_come_first(self.file_map@, expire_time, i as int);
        }
    }

    pub fn has_expired_sst(&self, expire_time: Option<Timestamp>) -> (r: bool)
        ensures
            self.wf(),
            r == exists|i: int|
                0 <= i < self.files().len() && (
                #[trigger] self.files()[i]).file_meta().time_range.expired(expire_time),
            r ==> expire_time is Some,
            expire_time matches Some(t) ==> (r <==> !(forall|i: int|
                0 <= i < self.files().len() ==> t.0 < (
                #[trigger] self.files()[i]).file_meta().time_range.end().0)),
    {
        proof {
            use_type_invariant(self);
        }
        // Files are sorted by end time first, so check first file is enough.
        if self.file_map.len() > 0 {
            return self.file_map[0].time_range().is_expired(expire_time);
        }
        false
    }
}

/// Files that are in order are expired up to a place and not from there on.
pub proof fn lemma_expired_come_first<M>(
    files: Seq<FileHandle<M>>,
    expire_time: Option<Timestamp>,
    n: int,
)
    requires
        in_order(files),
        0 <= n <= files.len(),
        forall|i: int|
            0 <= i < n ==> (#[trigger] files[i]).file_meta().time_range.expired(expire_time),
        n < files.len() ==> !files[n].file_meta().time_range.expired(expire_time),
    ensures
        expired_files(files, expire_time) == files.take(n),
{
    let p = |f: FileHandle<M>| f.file_meta().time_range.expired(expire_time);
    assert forall|i: int| n <= i < files.len() implies !p(#[trigger] files[i]) by {
        let first = files[n];
    }
    filter::lemma_filter_prefix(files, p, n);
}

/// Taking out the file with a key, among files that are in order.
proof fn lemma_take_out<M>(files: Seq<FileHandle<M>>, file: FileHandle<M>, at: int)
    requires
        in_order(files),
        0 <= at <= files.len(),
        forall|i: int|
            0 <= i < at ==> FileOrdKey::of(#[trigger] files[i]).lt(FileOrdKey::of(file)),
        forall|i: int|
            at <= i < files.len() ==> !FileOrdKey::of(#[trigger] files[i]).lt(
                FileOrdKey::of(file),
            ),
    ensures
        files.filter(|f: FileHandle<M>| FileOrdKey::of(f) != FileOrdKey::of(file)) == if at
            < files.len() && FileOrdKey::of(files[at]) == FileOrdKey::of(file) {
            files.remove(at)
        } else {
            files
        },
{
    let p = |f: FileHandle<M>| FileOrdKey::of(f) != FileOrdKey::of(file);
    if at < files.len() && FileOrdKey::of(files[at]) == FileOrdKey::of(file) {
        filter::lemma_filter_all_but(files, p, at);
    } else {
        assert forall|i: int| 0 <= i < files.len() implies p(#[trigger] files[i]) by {
            if at < files.len() {
                let first = files[at];
            }
        }
        filter::lemma_filter_all(files, p);
    }
}

/// Removing one id more, after the ids have been removed.
proof fn lemma_remove_one_more<M>(
    files: Seq<FileHandle<M>>,
    index: Map<FileId, FileHandle<M>>,
    ids: Seq<FileId>,
    id: FileId,
)
    requires
        set_wf(files, index),
    ensures
        index_without(index, ids.push(id)) == index_without(index, ids).remove(id),
        files_without(files, index, ids.push(id)) == if index_without(index, ids).contains_key(
            id,
        ) {
            files_without(files, index, ids).filter(
                |f: FileHandle<M>|
                    FileOrdKey::of(f) != FileOrdKey::of(index_without(index, ids)[id]),
            )
        } else {
            files_without(files, index, ids)
        },
{
    let more = ids.push(id);
    assert forall|x: FileId| #[trigger] more.contains(x) <==> ids.contains(x) || x == id by {
        if ids.contains(x) {
            let i = choose|i: int| 0 <= i < ids.len() && ids[i] == x;
            assert(more[i] == x);
        }
        assert(more[ids.len() as int] == id);
    }
    assert(index_without(index, more) =~= index_without(index, ids).remove(id));
    let p = |f: FileHandle<M>| !(ids.contains(f.file_meta().id) && indexed(index, f));
    let p_more = |f: FileHandle<M>| !(more.contains(f.file_meta().id) && indexed(index, f));
    if index_without(index, ids).contains_key(id) {
        let q = |f: FileHandle<M>|
            FileOrdKey::of(f) != FileOrdKey::of(index_without(index, ids)[id]);
        filter::lemma_filter_twice(files, p, q);
        filter::lemma_filter_ext(files, p_more, |f: FileHandle<M>| p(f) && q(f));
    } else {
        filter::lemma_filter_ext(files, p_more, p);
    }
}

/// Removing files keeps a set well formed.
pub proof fn remove_keeps_set_wf<M>(
    files: Seq<FileHandle<M>>,
    index: Map<FileId, FileHandle<M>>,
    ids: Seq<FileId>,
)
    requires
        set_wf(files, index),
    ensures
        set_wf(files_without(files, index, ids), index_without(index, ids)),
{
    let p = |f: FileHandle<M>| !(ids.contains(f.file_meta().id) && indexed(index, f));
    let left = files_without(files, index, ids);
    let places = filter::lemma_filter_places(files, p);
    assert forall|i: int, j: int| 0 <= i < j < left.len() implies FileOrdKey::of(
        #[trigger] left[i],
    ).lt(FileOrdKey::of(#[trigger] left[j])) by {
        assert(left[i] == files[places[i]] && left[j] == files[places[j]]);
    }
    assert forall|id: FileId| #[trigger] index_without(index, ids).contains_key(id) implies has_key(
        left,
        FileOrdKey::of(index_without(index, ids)[id]),
    ) by {
        assert(index.contains_key(id));
        let i = choose|i: int|
            0 <= i < files.len() && FileOrdKey::of(#[trigger] files[i]) == FileOrdKey::of(
                index[id],
            );
        assert(p(files[i]));
        filter::lemma_filter_contains(files, p, files[i]);
        let j = choose|j: int| 0 <= j < left.len() && left[j] == files[i];
        assert(FileOrdKey::of(left[j]) == FileOrdKey::of(index[id]));
    }
}

/// Where the file goes among files that are in order: behind those with lesser
/// keys, in the place of the one with the same key if there is one.
proof fn lemma_place_of_insertion<M>(files: Seq<FileHandle<M>>, file: FileHandle<M>, at: int)
    requires
        in_order(files),
        0 <= at <= files.len(),
        forall|i: int|
            0 <= i < at ==> FileOrdKey::of(#[trigger] files[i]).lt(FileOrdKey::of(file)),
        forall|i: int|
            at <= i < files.len() ==> !FileOrdKey::of(#[trigger] files[i]).lt(
                FileOrdKey::of(file),
            ),
    ensures
        files_with(files, file) == if at < files.len() && FileOrdKey::of(files[at])
            == FileOrdKey::of(file) {
            files.update(at, file)
        } else {
            files.insert(at, file)
        },
{
    let below = |f: FileHandle<M>| FileOrdKey::of(f).lt(FileOrdKey::of(file));
    let above = |f: FileHandle<M>| FileOrdKey::of(file).lt(FileOrdKey::of(f));
    filter::lemma_filter_prefix(files, below, at);
    if at < files.len() && FileOrdKey::of(files[at]) == FileOrdKey::of(file) {
        filter::lemma_filter_suffix(files, above, at + 1);
        assert(files_with(files, file) =~= files.update(at, file));
    } else {
        assert forall|i: int| at <= i < files.len() implies above(#[trigger] files[i]) by {
            let first = files[at];
        }
        filter::lemma_filter_suffix(files, above, at);
        assert(files_with(files, file) =~= files.insert(at, file));
    }
}

/// Where files that are in order divide into those with a lesser key and the rest.
proof fn lemma_split<M>(files: Seq<FileHandle<M>>, key: FileOrdKey) -> (at: int)
    requires
        in_order(files),
    ensures
        0 <= at <= files.len(),
        forall|i: int| 0 <= i < at ==> FileOrdKey::of(#[trigger] files[i]).lt(key),
        forall|i: int| at <= i < files.len() ==> !FileOrdKey::of(#[trigger] files[i]).lt(key),
    decreases files.len(),
{
    if files.len() == 0 {
        0
    } else {
        let last = files[files.len() - 1];
        if FileOrdKey::of(last).lt(key) {
            files.len() as int
        } else {
            let front = files.drop_last();
            assert(forall|i: int| 0 <= i < front.len() ==> front[i] == files[i]);
            let at = lemma_split(front, key);
            assert forall|i: int| 0 <= i < at implies FileOrdKey::of(#[trigger] files[i]).lt(
                key,
            ) by {
                assert(front[i] == files[i]);
            }
            assert forall|i: int| at <= i < files.len() implies !FileOrdKey::of(
                #[trigger] files[i],
            ).lt(key) by {
                if i < front.len() {
                    assert(front[i] == files[i]);
                }
            }
            at
        }
    }
}

/// Adding a file keeps a set well formed, and the file is then one of the set.
pub proof fn insert_keeps_set_wf<M>(
    files: Seq<FileHandle<M>>,
    index: Map<FileId, FileHandle<M>>,
    file: FileHandle<M>,
)
    requires
        set_wf(files, index),
    ensures
        set_wf(files_with(files, file), index_with(index, file)),
        files_with(files, file).contains(file),
{
    let key = FileOrdKey::of(file);
    let at = lemma_split(files, key);
    lemma_place_of_insertion(files, file, at);
    let with = files_with(files, file);
    assert(with[at] == file);
    let replaces = at < files.len() && FileOrdKey::of(files[at]) == key;
    assert(in_order(with)) by {
        if !replaces && at < files.len() {
            assert(key.lt(FileOrdKey::of(files[at])));
        }
        assert forall|i: int, j: int| 0 <= i < j < with.len() implies FileOrdKey::of(
            #[trigger] with[i],
        ).lt(FileOrdKey::of(#[trigger] with[j])) by {
            if !replaces {
                let a = if i < at { files[i] } else { files[i - 1] };
                let b = if j < at { files[j] } else { files[j - 1] };
            }
        }
    }
    assert forall|id: FileId| #[trigger] index_with(index, file).contains_key(id) implies has_key(
        with,
        FileOrdKey::of(index_with(index, file)[id]),
    ) by {
        if index.contains_key(id) {
            let i = choose|i: int|
                0 <= i < files.len() && FileOrdKey::of(#[trigger] files[i]) == FileOrdKey::of(
                    index[id],
                );
            if replaces || i < at {
                assert(FileOrdKey::of(with[i]) == FileOrdKey::of(index[id]));
            } else {
                assert(with[i + 1] == files[i]);
            }
        }
    }
}

} // verus!
