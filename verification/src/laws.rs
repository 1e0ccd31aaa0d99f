//! What holds of the files of a level over several operations.

use vstd::prelude::*;

use crate::file_set;
use crate::file_set::FileOrdKey;
use crate::filter;
use crate::handle::FileHandle;
use crate::meta::FileId;
use crate::time::{TimeRange, Timestamp};

verus! {

/// Files are in order exactly if each one comes before all those that follow it
/// by end time, of the same end time by start time, and of the same time range
/// by id.
pub proof fn files_stand_by_end_then_start_then_id<M>(files: Seq<FileHandle<M>>)
    ensures
        file_set::in_order(files) <==> forall|i: int, j: int|
            0 <= i < j < files.len() ==> {
                let a = (#[trigger] files[i]).file_meta();
                let b = (#[trigger] files[j]).file_meta();
                &&& a.time_range.end().0 <= b.time_range.end().0
                &&& a.time_range.end().0 == b.time_range.end().0 ==> a.time_range.start().0
                    <= b.time_range.start().0
                &&& a.time_range.end().0 == b.time_range.end().0 && a.time_range.start().0
                    == b.time_range.start().0 ==> a.id < b.id
            },
{
    if forall|i: int, j: int|
        0 <= i < j < files.len() ==> {
            let a = (#[trigger] files[i]).file_meta();
            let b = (#[trigger] files[j]).file_meta();
            &&& a.time_range.end().0 <= b.time_range.end().0
            &&& a.time_range.end().0 == b.time_range.end().0 ==> a.time_range.start().0
                <= b.time_range.start().0
            &&& a.time_range.end().0 == b.time_range.end().0 && a.time_range.start().0
                == b.time_range.start().0 ==> a.id < b.id
        } {
        assert forall|i: int, j: int| 0 <= i < j < files.len() implies FileOrdKey::of(
            #[trigger] files[i],
        ).lt(FileOrdKey::of(#[trigger] files[j])) by {
            let a = files[i].file_meta();
            let b = files[j].file_meta();
        }
    }
}

/// Files are told apart by their time range and their id, and by nothing else.
pub proof fn key_is_the_time_range_and_the_id<M>(a: FileHandle<M>, b: FileHandle<M>)
    ensures
        FileOrdKey::of(a) == FileOrdKey::of(b) <==> {
            &&& a.file_meta().time_range.end().0 == b.file_meta().time_range.end().0
            &&& a.file_meta().time_range.start().0 == b.file_meta().time_range.start().0
            &&& a.file_meta().id == b.file_meta().id
        },
{
}

/// Of files in order, none stands in two places.
pub proof fn no_file_stands_twice<M>(files: Seq<FileHandle<M>>)
    requires
        file_set::in_order(files),
    ensures
        forall|i: int, j: int|
            0 <= i < j < files.len() ==> #[trigger] files[i] != #[trigger] files[j],
{
}

/// The last file has the greatest key, so no file ends later.
pub proof fn last_file_is_the_latest<M>(files: Seq<FileHandle<M>>, i: int)
    requires
        file_set::in_order(files),
        0 <= i < files.len(),
    ensures
        i < files.len() - 1 ==> FileOrdKey::of(files[i]).lt(FileOrdKey::of(files.last())),
        files[i].file_meta().time_range.end().0 <= files.last().file_meta().time_range.end().0,
        files[i].file_meta().time_range.end().0 == files.last().file_meta().time_range.end().0
            ==> files[i].file_meta().time_range.start().0
            <= files.last().file_meta().time_range.start().0,
        files[i].file_meta().time_range.end().0 == files.last().file_meta().time_range.end().0
            && files[i].file_meta().time_range.start().0
            == files.last().file_meta().time_range.start().0 ==> files[i].file_meta().id
            <= files.last().file_meta().id,
{
}

/// Which files there are decides in which order they stand.
pub proof fn order_is_decided_by_the_files<M>(a: Seq<FileHandle<M>>, b: Seq<FileHandle<M>>)
    requires
        file_set::in_order(a),
        file_set::in_order(b),
        forall|f: FileHandle<M>| a.contains(f) <==> b.contains(f),
    ensures
        a == b,
    decreases a.len(),
{
    if a.len() == 0 {
        if b.len() > 0 {
            assert(b.contains(b[0]));
        }
        assert(a =~= b);
    } else {
        assert(a.contains(a.last()));
        assert(b.contains(a.last()));
        let i = choose|i: int| 0 <= i < b.len() && b[i] == a.last();
        assert(b.contains(b.last()));
        assert(a.contains(b.last()));
        let j = choose|j: int| 0 <= j < a.len() && a[j] == b.last();
        assert(a.last() == b.last());
        let a_front = a.drop_last();
        let b_front = b.drop_last();
        assert(file_set::in_order(a_front)) by {
            assert(forall|k: int| 0 <= k < a_front.len() ==> a_front[k] == a[k]);
        }
        assert(file_set::in_order(b_front)) by {
            assert(forall|k: int| 0 <= k < b_front.len() ==> b_front[k] == b[k]);
        }
        assert forall|f: FileHandle<M>| a_front.contains(f) <==> b_front.contains(f) by {
            if a_front.contains(f) {
                let k = choose|k: int| 0 <= k < a_front.len() && a_front[k] == f;
                assert(a[k] == f);
                assert(a.contains(f) && b.contains(f));
                let l = choose|l: int| 0 <= l < b.len() && b[l] == f;
                assert(l < b.len() - 1);
                assert(b_front[l] == f);
            }
            if b_front.contains(f) {
                let k = choose|k: int| 0 <= k < b_front.len() && b_front[k] == f;
                assert(b[k] == f);
                assert(b.contains(f) && a.contains(f));
                let l = choose|l: int| 0 <= l < a.len() && a[l] == f;
                assert(l < a.len() - 1);
                assert(a_front[l] == f);
            }
        }
        order_is_decided_by_the_files(a_front, b_front);
        assert(a =~= a_front.push(a.last()));
        assert(b =~= b_front.push(b.last()));
    }
}

/// After adding a file, the files are that one and those that were there with
/// another key.
pub proof fn insert_adds_one_file<M>(
    files: Seq<FileHandle<M>>,
    file: FileHandle<M>,
    any: FileHandle<M>,
)
    ensures
        file_set::files_with(files, file).contains(any) <==> any == file || (files.contains(any)
            && FileOrdKey::of(any) != FileOrdKey::of(file)),
{
    let key = FileOrdKey::of(file);
    let below = |f: FileHandle<M>| FileOrdKey::of(f).lt(key);
    let above = |f: FileHandle<M>| key.lt(FileOrdKey::of(f));
    filter::lemma_filter_contains(files, below, any);
    filter::lemma_filter_contains(files, above, any);
    let front = files.filter(below);
    let back = files.filter(above);
    let with = file_set::files_with(files, file);
    assert(with == front.push(file) + back);
    assert(with[front.len() as int] == file);
    if files.contains(any) && FileOrdKey::of(any) != key {
        if front.contains(any) {
            let i = choose|i: int| 0 <= i < front.len() && front[i] == any;
            assert(with[i] == any);
        } else {
            let i = choose|i: int| 0 <= i < back.len() && back[i] == any;
            assert(with[front.len() + 1 + i] == any);
        }
    }
    if with.contains(any) && any != file {
        let i = choose|i: int| 0 <= i < with.len() && with[i] == any;
        if i < front.len() {
            assert(front[i] == any);
        } else {
            assert(back[i - front.len() - 1] == any);
        }
    }
}

/// Adding a file a second time changes nothing.
pub proof fn insert_is_idempotent<M>(
    files: Seq<FileHandle<M>>,
    index: Map<FileId, FileHandle<M>>,
    file: FileHandle<M>,
)
    ensures
        file_set::files_with(file_set::files_with(files, file), file) == file_set::files_with(
            files,
            file,
        ),
        file_set::index_with(file_set::index_with(index, file), file) == file_set::index_with(
            index,
            file,
        ),
{
    let known = file_set::index_with(index, file);
    assert(known.contains_key(file.file_meta().id));
    assert(file_set::index_with(known, file) == known);
    let once = file_set::files_with(files, file);
    let at = lemma_added_file_divides(files, file);
    let key = FileOrdKey::of(file);
    filter::lemma_filter_prefix(once, |f: FileHandle<M>| FileOrdKey::of(f).lt(key), at);
    filter::lemma_filter_suffix(once, |f: FileHandle<M>| key.lt(FileOrdKey::of(f)), at + 1);
    assert(once.take(at).push(file) + once.skip(at + 1) =~= once);
}

/// An added file stands between those with lesser and those with greater keys.
proof fn lemma_added_file_divides<M>(files: Seq<FileHandle<M>>, file: FileHandle<M>) -> (at: int)
    ensures
        0 <= at < file_set::files_with(files, file).len(),
        file_set::files_with(files, file)[at] == file,
        forall|i: int|
            0 <= i < at ==> FileOrdKey::of(#[trigger] file_set::files_with(files, file)[i]).lt(
                FileOrdKey::of(file),
            ),
        forall|i: int|
            at < i < file_set::files_with(files, file).len() ==> FileOrdKey::of(file).lt(
                FileOrdKey::of(#[trigger] file_set::files_with(files, file)[i]),
            ),
{
    let key = FileOrdKey::of(file);
    let below = |f: FileHandle<M>| FileOrdKey::of(f).lt(key);
    let above = |f: FileHandle<M>| key.lt(FileOrdKey::of(f));
    let front = files.filter(below);
    let back = files.filter(above);
    let with = file_set::files_with(files, file);
    assert(with == front.push(file) + back);
    let front_places = filter::lemma_filter_places(files, below);
    let back_places = filter::lemma_filter_places(files, above);
    let at = front.len() as int;
    assert forall|i: int| 0 <= i < at implies FileOrdKey::of(#[trigger] with[i]).lt(key) by {
        assert(with[i] == files[front_places[i]]);
    }
    assert forall|i: int| at < i < with.len() implies key.lt(
        FileOrdKey::of(#[trigger] with[i]),
    ) by {
        assert(with[i] == files[back_places[i - at - 1]]);
    }
    at
}

/// Files with different keys can be added in either order, and so can their
/// ids where they differ.
pub proof fn inserts_commute<M>(
    files: Seq<FileHandle<M>>,
    index: Map<FileId, FileHandle<M>>,
    a: FileHandle<M>,
    b: FileHandle<M>,
)
    requires
        file_set::set_wf(files, index),
        FileOrdKey::of(a) != FileOrdKey::of(b),
    ensures
        file_set::files_with(file_set::files_with(files, a), b) == file_set::files_with(
            file_set::files_with(files, b),
            a,
        ),
        a.file_meta().id != b.file_meta().id ==> file_set::index_with(
            file_set::index_with(index, a),
            b,
        ) == file_set::index_with(file_set::index_with(index, b), a),
{
    let with_a = file_set::files_with(files, a);
    let with_b = file_set::files_with(files, b);
    let ab = file_set::files_with(with_a, b);
    let ba = file_set::files_with(with_b, a);
    assert(file_set::in_order(ab) && file_set::in_order(ba)) by {
        file_set::insert_keeps_set_wf(files, index, a);
        file_set::insert_keeps_set_wf(files, index, b);
        file_set::insert_keeps_set_wf(with_a, file_set::index_with(index, a), b);
        file_set::insert_keeps_set_wf(with_b, file_set::index_with(index, b), a);
    }
    assert forall|f: FileHandle<M>| ab.contains(f) <==> ba.contains(f) by {
        insert_adds_one_file(files, a, f);
        insert_adds_one_file(files, b, f);
        insert_adds_one_file(with_a, b, f);
        insert_adds_one_file(with_b, a, f);
    }
    order_is_decided_by_the_files(ab, ba);
    if a.file_meta().id != b.file_meta().id {
        assert(file_set::index_with(file_set::index_with(index, a), b) =~= file_set::index_with(
            file_set::index_with(index, b),
            a,
        ));
    }
}

/// Removing a file by its id undoes adding it, where neither the id nor the key
/// was known before.
pub proof fn remove_undoes_insert<M>(
    files: Seq<FileHandle<M>>,
    index: Map<FileId, FileHandle<M>>,
    file: FileHandle<M>,
)
    requires
        file_set::set_wf(files, index),
        !index.contains_key(file.file_meta().id),
        !file_set::has_key(files, FileOrdKey::of(file)),
    ensures
        file_set::files_without(
            file_set::files_with(files, file),
            file_set::index_with(index, file),
            seq![file.file_meta().id],
        ) == files,
        file_set::index_without(file_set::index_with(index, file), seq![file.file_meta().id])
            == index,
{
    let id = file.file_meta().id;
    let ids = seq![id];
    let with = file_set::files_with(files, file);
    let index_with = file_set::index_with(index, file);
    assert(ids[0] == id);
    assert(file_set::index_without(index_with, ids) =~= index);
    file_set::insert_keeps_set_wf(files, index, file);
    file_set::remove_keeps_set_wf(with, index_with, ids);
    let p = |f: FileHandle<M>|
        !(ids.contains(f.file_meta().id) && file_set::indexed(index_with, f));
    let left = file_set::files_without(with, index_with, ids);
    assert forall|f: FileHandle<M>| left.contains(f) <==> files.contains(f) by {
        insert_adds_one_file(files, file, f);
        filter::lemma_filter_contains(with, p, f);
        if files.contains(f) {
            let i = choose|i: int| 0 <= i < files.len() && files[i] == f;
            assert(FileOrdKey::of(files[i]) != FileOrdKey::of(file));
        }
    }
    order_is_decided_by_the_files(left, files);
}

/// Removing ids in two batches is removing them all at once.
pub proof fn removals_add_up<M>(
    files: Seq<FileHandle<M>>,
    index: Map<FileId, FileHandle<M>>,
    a: Seq<FileId>,
    b: Seq<FileId>,
)
    ensures
        file_set::files_without(
            file_set::files_without(files, index, a),
            file_set::index_without(index, a),
            b,
        ) == file_set::files_without(files, index, a + b),
        file_set::index_without(file_set::index_without(index, a), b) == file_set::index_without(
            index,
            a + b,
        ),
{
    assert forall|id: FileId| #[trigger]
        (a + b).contains(id) <==> a.contains(id) || b.contains(id) by {
        if a.contains(id) {
            let i = choose|i: int| 0 <= i < a.len() && a[i] == id;
            assert((a + b)[i] == id);
        }
        if b.contains(id) {
            let i = choose|i: int| 0 <= i < b.len() && b[i] == id;
            assert((a + b)[a.len() + i] == id);
        }
    }
    let rest = file_set::index_without(index, a);
    assert(file_set::index_without(rest, b) =~= file_set::index_without(index, a + b));
    let p = |f: FileHandle<M>| !(a.contains(f.file_meta().id) && file_set::indexed(index, f));
    let q = |f: FileHandle<M>| !(b.contains(f.file_meta().id) && file_set::indexed(rest, f));
    filter::lemma_filter_twice(files, p, q);
    filter::lemma_filter_ext(
        files,
        |f: FileHandle<M>| p(f) && q(f),
        |f: FileHandle<M>|
            !((a + b).contains(f.file_meta().id) && file_set::indexed(index, f)),
    );
}

/// Removing ids a second time changes nothing.
pub proof fn remove_is_idempotent<M>(
    files: Seq<FileHandle<M>>,
    index: Map<FileId, FileHandle<M>>,
    ids: Seq<FileId>,
)
    ensures
        file_set::files_without(
            file_set::files_without(files, index, ids),
            file_set::index_without(index, ids),
            ids,
        ) == file_set::files_without(files, index, ids),
        file_set::index_without(file_set::index_without(index, ids), ids)
            == file_set::index_without(index, ids),
{
    let rest = file_set::index_without(index, ids);
    assert(file_set::index_without(rest, ids) =~= rest);
    filter::lemma_filter_all(
        file_set::files_without(files, index, ids),
        |f: FileHandle<M>| !(ids.contains(f.file_meta().id) && file_set::indexed(rest, f)),
    );
}

/// Whether every file is found under its id.
pub open spec fn all_indexed<M>(
    files: Seq<FileHandle<M>>,
    index: Map<FileId, FileHandle<M>>,
) -> bool {
    forall|i: int| 0 <= i < files.len() ==> file_set::indexed(index, #[trigger] files[i])
}

/// Every file is found under its id as long as no id is added with a second key:
/// no file is there at first, and neither adding a file with a new id, or with
/// the key that its id has already, nor removing files changes it.
pub proof fn operations_keep_all_indexed<M>(
    files: Seq<FileHandle<M>>,
    index: Map<FileId, FileHandle<M>>,
    file: FileHandle<M>,
    ids: Seq<FileId>,
)
    requires
        file_set::set_wf(files, index),
        all_indexed(files, index),
    ensures
        all_indexed(Seq::<FileHandle<M>>::empty(), Map::<FileId, FileHandle<M>>::empty()),
        !index.contains_key(file.file_meta().id) || file_set::indexed(index, file) ==> all_indexed(
            file_set::files_with(files, file),
            file_set::index_with(index, file),
        ),
        all_indexed(
            file_set::files_without(files, index, ids),
            file_set::index_without(index, ids),
        ),
{
    if !index.contains_key(file.file_meta().id) || file_set::indexed(index, file) {
        let with = file_set::files_with(files, file);
        assert forall|i: int| 0 <= i < with.len() implies file_set::indexed(
            file_set::index_with(index, file),
            #[trigger] with[i],
        ) by {
            assert(with.contains(with[i]));
            insert_adds_one_file(files, file, with[i]);
            if with[i] != file {
                let j = choose|j: int| 0 <= j < files.len() && files[j] == with[i];
                assert(file_set::indexed(index, files[j]));
            }
        }
    }
    let p = |f: FileHandle<M>| !(ids.contains(f.file_meta().id) && file_set::indexed(index, f));
    let left = file_set::files_without(files, index, ids);
    let places = filter::lemma_filter_places(files, p);
    assert forall|i: int| 0 <= i < left.len() implies file_set::indexed(
        file_set::index_without(index, ids),
        #[trigger] left[i],
    ) by {
        assert(left[i] == files[places[i]]);
        assert(file_set::indexed(index, files[places[i]]));
        assert(p(files[places[i]]));
    }
}

/// Where every file is found under its id, no two files have the same id, and
/// removing ids removes exactly the files that have them.
pub proof fn remove_takes_out_the_ids<M>(
    files: Seq<FileHandle<M>>,
    index: Map<FileId, FileHandle<M>>,
    ids: Seq<FileId>,
)
    requires
        file_set::set_wf(files, index),
        all_indexed(files, index),
    ensures
        forall|i: int, j: int|
            0 <= i < files.len() && 0 <= j < files.len() && (
            #[trigger] files[i]).file_meta().id == (#[trigger] files[j]).file_meta().id ==> i == j,
        file_set::files_without(files, index, ids) == files.filter(
            |f: FileHandle<M>| !ids.contains(f.file_meta().id),
        ),
{
    assert forall|i: int, j: int|
        0 <= i < files.len() && 0 <= j < files.len() && (
        #[trigger] files[i]).file_meta().id == (
        #[trigger] files[j]).file_meta().id implies i == j by {
        assert(file_set::indexed(index, files[i]) && file_set::indexed(index, files[j]));
        assert(FileOrdKey::of(files[i]) == FileOrdKey::of(files[j]));
        if i < j {
            assert(FileOrdKey::of(files[i]).lt(FileOrdKey::of(files[j])));
        } else if j < i {
            assert(FileOrdKey::of(files[j]).lt(FileOrdKey::of(files[i])));
        }
    }
    filter::lemma_filter_ext(
        files,
        |f: FileHandle<M>| !(ids.contains(f.file_meta().id) && file_set::indexed(index, f)),
        |f: FileHandle<M>| !ids.contains(f.file_meta().id),
    );
}

/// A query finds a file that was added exactly if the time ranges intersect.
pub proof fn added_file_is_picked<M>(
    files: Seq<FileHandle<M>>,
    index: Map<FileId, FileHandle<M>>,
    file: FileHandle<M>,
    time_range: TimeRange,
)
    requires
        file_set::set_wf(files, index),
    ensures
        file_set::files_in(file_set::files_with(files, file), time_range).contains(file)
            <==> file.file_meta().time_range.intersects(time_range),
{
    file_set::insert_keeps_set_wf(files, index, file);
    filter::lemma_filter_contains(
        file_set::files_with(files, file),
        |f: FileHandle<M>| f.file_meta().time_range.intersects(time_range),
        file,
    );
}

/// Which files a query picks is decided by their time ranges alone, whatever
/// else is known of them, such as whether they are being compacted: of two lists
/// of files with the same time ranges, those at the same places are picked.
pub proof fn picking_looks_at_time_ranges_only<M>(
    a: Seq<FileHandle<M>>,
    b: Seq<FileHandle<M>>,
    time_range: TimeRange,
) -> (places: Seq<int>)
    requires
        a.len() == b.len(),
        forall|i: int|
            0 <= i < a.len() ==> (#[trigger] a[i]).file_meta().time_range
                == b[i].file_meta().time_range,
    ensures
        places.len() == file_set::files_in(a, time_range).len(),
        places.len() == file_set::files_in(b, time_range).len(),
        forall|k: int|
            0 <= k < places.len() ==> 0 <= #[trigger] places[k] < a.len() && file_set::files_in(
                a,
                time_range,
            )[k] == a[places[k]] && file_set::files_in(b, time_range)[k] == b[places[k]],
    decreases a.len(),
{
    let p = |f: FileHandle<M>| f.file_meta().time_range.intersects(time_range);
    reveal(Seq::filter);
    if a.len() == 0 {
        Seq::empty()
    } else {
        assert forall|i: int| 0 <= i < a.drop_last().len() implies (
        #[trigger] a.drop_last()[i]).file_meta().time_range
            == b.drop_last()[i].file_meta().time_range by {
            assert(a.drop_last()[i] == a[i] && b.drop_last()[i] == b[i]);
        }
        let front = picking_looks_at_time_ranges_only(a.drop_last(), b.drop_last(), time_range);
        assert(a[a.len() - 1].file_meta().time_range == b[b.len() - 1].file_meta().time_range);
        if p(a.last()) {
            front.push(a.len() - 1)
        } else {
            front
        }
    }
}

/// A query within a wider one finds its files among those of the wider one.
pub proof fn wider_range_picks_more<M>(
    files: Seq<FileHandle<M>>,
    narrow: TimeRange,
    wide: TimeRange,
)
    requires
        wide.start().0 <= narrow.start().0,
        narrow.end().0 <= wide.end().0,
    ensures
        file_set::files_in(file_set::files_in(files, wide), narrow) == file_set::files_in(
            files,
            narrow,
        ),
{
    let in_wide = |f: FileHandle<M>| f.file_meta().time_range.intersects(wide);
    let in_narrow = |f: FileHandle<M>| f.file_meta().time_range.intersects(narrow);
    filter::lemma_filter_twice(files, in_wide, in_narrow);
    filter::lemma_filter_ext(files, |f: FileHandle<M>| in_wide(f) && in_narrow(f), in_narrow);
}

/// A query from the expire time on finds no expired file.
pub proof fn expired_file_is_not_picked<M>(
    files: Seq<FileHandle<M>>,
    time_range: TimeRange,
    expire_time: Timestamp,
    file: FileHandle<M>,
)
    requires
        expire_time.0 <= time_range.start().0,
        file_set::files_in(files, time_range).contains(file),
    ensures
        !file.file_meta().time_range.expired(Some(expire_time)),
{
    filter::lemma_filter_contains(
        files,
        |f: FileHandle<M>| f.file_meta().time_range.intersects(time_range),
        file,
    );
}

/// Some file has expired exactly if there are expired files to collect.
pub proof fn expired_sst_is_collected<M>(
    files: Seq<FileHandle<M>>,
    expire_time: Option<Timestamp>,
)
    ensures
        (exists|i: int|
            0 <= i < files.len() && (#[trigger] files[i]).file_meta().time_range.expired(
                expire_time,
            )) <==> file_set::expired_files(files, expire_time).len() > 0,
{
    let p = |f: FileHandle<M>| f.file_meta().time_range.expired(expire_time);
    let places = filter::lemma_filter_places(files, p);
    if file_set::expired_files(files, expire_time).len() > 0 {
        assert(p(files[places[0]]));
    }
    if exists|i: int| 0 <= i < files.len() && p(#[trigger] files[i]) {
        let i = choose|i: int| 0 <= i < files.len() && p(#[trigger] files[i]);
        filter::lemma_filter_contains(files, p, files[i]);
        assert(files.contains(files[i]));
    }
}

/// The expired files are the first ones of the level.
pub proof fn expired_files_come_first<M>(
    files: Seq<FileHandle<M>>,
    expire_time: Option<Timestamp>,
)
    requires
        file_set::in_order(files),
    ensures
        file_set::expired_files(files, expire_time).is_prefix_of(files),
{
    let n = lemma_count_expired(files, expire_time);
    file_set::lemma_expired_come_first(files, expire_time, n);
}

/// How many files of a level have expired.
proof fn lemma_count_expired<M>(
    files: Seq<FileHandle<M>>,
    expire_time: Option<Timestamp>,
) -> (n: int)
    requires
        file_set::in_order(files),
    ensures
        0 <= n <= files.len(),
        forall|i: int|
            0 <= i < n ==> (#[trigger] files[i]).file_meta().time_range.expired(expire_time),
        n < files.len() ==> !files[n].file_meta().time_range.expired(expire_time),
    decreases files.len(),
{
    if files.len() == 0 {
        0
    } else if files.last().file_meta().time_range.expired(expire_time) {
        files.len() as int
    } else {
        let front = files.drop_last();
        assert(forall|i: int| 0 <= i < front.len() ==> front[i] == files[i]);
        let n = lemma_count_expired(front, expire_time);
        assert forall|i: int| 0 <= i < n implies (
        #[trigger] files[i]).file_meta().time_range.expired(expire_time) by {
            assert(front[i] == files[i]);
        }
        if n < front.len() {
            assert(front[n] == files[n]);
        }
        n
    }
}

/// A later expire time collects the same files and perhaps more behind them.
pub proof fn later_expire_time_collects_more<M>(
    files: Seq<FileHandle<M>>,
    earlier: Timestamp,
    later: Timestamp,
)
    requires
        file_set::in_order(files),
        earlier.0 <= later.0,
    ensures
        file_set::expired_files(files, Some(earlier)).is_prefix_of(
            file_set::expired_files(files, Some(later)),
        ),
{
    let m = lemma_count_expired(files, Some(earlier));
    file_set::lemma_expired_come_first(files, Some(earlier), m);
    let n = lemma_count_expired(files, Some(later));
    file_set::lemma_expired_come_first(files, Some(later), n);
    if n < m {
        assert(files[n].file_meta().time_range.expired(Some(earlier)));
    }
}

/// Removing the expired files by their ids leaves the files that have not
/// expired, and then no file has expired.
pub proof fn removing_expired_leaves_the_rest<M>(
    files: Seq<FileHandle<M>>,
    index: Map<FileId, FileHandle<M>>,
    expire_time: Option<Timestamp>,
)
    requires
        file_set::set_wf(files, index),
        all_indexed(files, index),
    ensures
        ({
            let ids = file_set::expired_files(files, expire_time).map_values(
                |f: FileHandle<M>| f.file_meta().id,
            );
            let left = file_set::files_without(files, index, ids);
            &&& left == files.filter(
                |f: FileHandle<M>| !f.file_meta().time_range.expired(expire_time),
            )
            &&& file_set::expired_files(left, expire_time).len() == 0
        }),
{
    let expired = |f: FileHandle<M>| f.file_meta().time_range.expired(expire_time);
    let kept = |f: FileHandle<M>| !f.file_meta().time_range.expired(expire_time);
    let out = file_set::expired_files(files, expire_time);
    let ids = out.map_values(|f: FileHandle<M>| f.file_meta().id);
    remove_takes_out_the_ids(files, index, ids);
    let places = filter::lemma_filter_places(files, expired);
    assert forall|i: int| 0 <= i < files.len() implies !ids.contains(
        (#[trigger] files[i]).file_meta().id,
    ) == kept(files[i]) by {
        if expired(files[i]) {
            assert(files.contains(files[i]));
            filter::lemma_filter_contains(files, expired, files[i]);
            let j = choose|j: int| 0 <= j < out.len() && out[j] == files[i];
            assert(ids[j] == files[i].file_meta().id);
        }
        if ids.contains(files[i].file_meta().id) {
            let j = choose|j: int| 0 <= j < ids.len() && ids[j] == files[i].file_meta().id;
            assert(out[j] == files[places[j]]);
        }
    }
    filter::lemma_filter_ext(
        files,
        |f: FileHandle<M>| !ids.contains(f.file_meta().id),
        kept,
    );
    let left = file_set::files_without(files, index, ids);
    filter::lemma_filter_twice(files, kept, expired);
    filter::lemma_filter_none(files, |f: FileHandle<M>| kept(f) && expired(f));
    assert(file_set::expired_files(left, expire_time).len() == 0);
}

/// A query picks every file that starts before the query ends and ends after the
/// query starts, and no other one. It picks each once, and in the order of end
/// time, start time and id.
pub proof fn query_picks_each_matching_file_once_in_order<M>(
    files: Seq<FileHandle<M>>,
    time_range: TimeRange,
)
    requires
        file_set::in_order(files),
    ensures
        forall|f: FileHandle<M>| #[trigger]
            file_set::files_in(files, time_range).contains(f) <==> files.contains(f)
                && f.file_meta().time_range.start().0 < time_range.end().0
                && time_range.start().0 < f.file_meta().time_range.end().0,
        file_set::in_order(file_set::files_in(files, time_range)),
        forall|i: int, j: int|
            #![trigger file_set::files_in(files, time_range)[i], file_set::files_in(files, time_range)[j]]
            0 <= i < j < file_set::files_in(files, time_range).len() ==> {
                let a = file_set::files_in(files, time_range)[i];
                let b = file_set::files_in(files, time_range)[j];
                &&& a != b
                &&& a.file_meta().time_range.end().0 <= b.file_meta().time_range.end().0
            },
{
    let p = |f: FileHandle<M>| f.file_meta().time_range.intersects(time_range);
    let picked = file_set::files_in(files, time_range);
    assert forall|f: FileHandle<M>| #[trigger] picked.contains(f) <==> files.contains(f)
        && f.file_meta().time_range.start().0 < time_range.end().0 && time_range.start().0
        < f.file_meta().time_range.end().0 by {
        filter::lemma_filter_contains(files, p, f);
    }
    lemma_filter_keeps_order(files, p);
    no_file_stands_twice(picked);
}

/// Filtering keeps the order of files.
proof fn lemma_filter_keeps_order<M>(
    files: Seq<FileHandle<M>>,
    p: spec_fn(FileHandle<M>) -> bool,
)
    requires
        file_set::in_order(files),
    ensures
        file_set::in_order(files.filter(p)),
{
    let left = files.filter(p);
    let places = filter::lemma_filter_places(files, p);
    assert forall|i: int, j: int| 0 <= i < j < left.len() implies FileOrdKey::of(
        #[trigger] left[i],
    ).lt(FileOrdKey::of(#[trigger] left[j])) by {
        assert(left[i] == files[places[i]] && left[j] == files[places[j]]);
    }
}

/// The files of two queries that follow each other without a gap are those of
/// the query over both, as long as neither is empty: what one query over the
/// whole picks, one of the two picks, and what they pick the whole picks.
pub proof fn adjoining_queries_pick_what_the_whole_picks<M>(
    files: Seq<FileHandle<M>>,
    first: TimeRange,
    second: TimeRange,
    whole: TimeRange,
    file: FileHandle<M>,
)
    requires
        first.start().0 < first.end().0,
        second.start().0 < second.end().0,
        first.end() == second.start(),
        whole.start() == first.start(),
        whole.end() == second.end(),
        file.file_meta().time_range.start().0 < file.file_meta().time_range.end().0,
    ensures
        file_set::files_in(files, whole).contains(file) <==> file_set::files_in(
            files,
            first,
        ).contains(file) || file_set::files_in(files, second).contains(file),
{
    filter::lemma_filter_contains(
        files,
        |f: FileHandle<M>| f.file_meta().time_range.intersects(whole),
        file,
    );
    filter::lemma_filter_contains(
        files,
        |f: FileHandle<M>| f.file_meta().time_range.intersects(first),
        file,
    );
    filter::lemma_filter_contains(
        files,
        |f: FileHandle<M>| f.file_meta().time_range.intersects(second),
        file,
    );
}

/// After adding a file the level holds it, and every file it held before that
/// has another end time, another start time or another id, and no other one; all
/// of them in order.
pub proof fn insert_adds_the_file_by_time_range_and_id<M>(
    files: Seq<FileHandle<M>>,
    index: Map<FileId, FileHandle<M>>,
    file: FileHandle<M>,
)
    requires
        file_set::set_wf(files, index),
    ensures
        file_set::in_order(file_set::files_with(files, file)),
        forall|f: FileHandle<M>| #[trigger]
            file_set::files_with(files, file).contains(f) <==> f == file || (files.contains(f)
                && !(f.file_meta().id == file.file_meta().id
                && f.file_meta().time_range.start().0 == file.file_meta().time_range.start().0
                && f.file_meta().time_range.end().0 == file.file_meta().time_range.end().0)),
{
    file_set::insert_keeps_set_wf(files, index, file);
    assert forall|f: FileHandle<M>| #[trigger]
        file_set::files_with(files, file).contains(f) <==> f == file || (files.contains(f) && !(
        f.file_meta().id == file.file_meta().id && f.file_meta().time_range.start().0
            == file.file_meta().time_range.start().0 && f.file_meta().time_range.end().0
            == file.file_meta().time_range.end().0)) by {
        insert_adds_one_file(files, file, f);
        key_is_the_time_range_and_the_id(f, file);
    }
}

/// Adding a file makes its id known, where it was not, as this file, and leaves
/// what is known of all ids that were.
pub proof fn insert_makes_an_unknown_id_known<M>(
    index: Map<FileId, FileHandle<M>>,
    file: FileHandle<M>,
    id: FileId,
)
    ensures
        file_set::index_with(index, file).contains_key(id) <==> index.contains_key(id) || id
            == file.file_meta().id,
        index.contains_key(id) ==> file_set::index_with(index, file)[id] == index[id],
        !index.contains_key(id) && id == file.file_meta().id ==> file_set::index_with(
            index,
            file,
        )[id] == file,
{
}

/// What is known under an id is a file of that id, and the level holds a file of
/// that id with the same time range.
pub proof fn known_id_leads_to_a_file_of_the_level<M>(
    files: Seq<FileHandle<M>>,
    index: Map<FileId, FileHandle<M>>,
    id: FileId,
)
    requires
        file_set::set_wf(files, index),
        index.contains_key(id),
    ensures
        index[id].file_meta().id == id,
        exists|i: int|
            0 <= i < files.len() && (#[trigger] files[i]).file_meta().id == id
                && files[i].file_meta().time_range.start().0
                == index[id].file_meta().time_range.start().0
                && files[i].file_meta().time_range.end().0
                == index[id].file_meta().time_range.end().0,
{
    let i = choose|i: int|
        0 <= i < files.len() && FileOrdKey::of(#[trigger] files[i]) == FileOrdKey::of(index[id]);
    key_is_the_time_range_and_the_id(files[i], index[id]);
}

/// Removing ids leaves exactly the files that do not have one of them, and those
/// that do have one but with another time range than what is known under it; in
/// order. The ids are then unknown, and what is known of others stays.
pub proof fn remove_leaves_the_other_files_in_order<M>(
    files: Seq<FileHandle<M>>,
    index: Map<FileId, FileHandle<M>>,
    ids: Seq<FileId>,
)
    requires
        file_set::set_wf(files, index),
    ensures
        file_set::in_order(file_set::files_without(files, index, ids)),
        forall|f: FileHandle<M>| #[trigger]
            file_set::files_without(files, index, ids).contains(f) <==> files.contains(f) && !(
            ids.contains(f.file_meta().id) && index.contains_key(f.file_meta().id)
                && index[f.file_meta().id].file_meta().time_range.start().0
                == f.file_meta().time_range.start().0
                && index[f.file_meta().id].file_meta().time_range.end().0
                == f.file_meta().time_range.end().0),
        forall|id: FileId| #[trigger]
            file_set::index_without(index, ids).contains_key(id) <==> index.contains_key(id)
                && !ids.contains(id),
        forall|id: FileId| #[trigger]
            file_set::index_without(index, ids).contains_key(id) ==> file_set::index_without(
                index,
                ids,
            )[id] == index[id],
{
    let p = |f: FileHandle<M>| !(ids.contains(f.file_meta().id) && file_set::indexed(index, f));
    lemma_filter_keeps_order(files, p);
    assert forall|f: FileHandle<M>| #[trigger]
        file_set::files_without(files, index, ids).contains(f) <==> files.contains(f) && !(
        ids.contains(f.file_meta().id) && index.contains_key(f.file_meta().id)
            && index[f.file_meta().id].file_meta().time_range.start().0
            == f.file_meta().time_range.start().0
            && index[f.file_meta().id].file_meta().time_range.end().0
            == f.file_meta().time_range.end().0) by {
        filter::lemma_filter_contains(files, p, f);
        if index.contains_key(f.file_meta().id) {
            assert(index[f.file_meta().id].file_meta().id == f.file_meta().id);
            key_is_the_time_range_and_the_id(index[f.file_meta().id], f);
        }
    }
}

/// The files that are collected are those that end no later than the expire
/// time, each once and in order; without an expire time there are none.
pub proof fn collected_files_end_by_the_expire_time<M>(
    files: Seq<FileHandle<M>>,
    expire_time: Timestamp,
)
    requires
        file_set::in_order(files),
    ensures
        file_set::in_order(file_set::expired_files(files, Some(expire_time))),
        forall|f: FileHandle<M>| #[trigger]
            file_set::expired_files(files, Some(expire_time)).contains(f) <==> files.contains(f)
                && f.file_meta().time_range.end().0 <= expire_time.0,
        file_set::expired_files(files, None).len() == 0,
{
    let p = |f: FileHandle<M>| f.file_meta().time_range.expired(Some(expire_time));
    lemma_filter_keeps_order(files, p);
    assert forall|f: FileHandle<M>| #[trigger]
        file_set::expired_files(files, Some(expire_time)).contains(f) <==> files.contains(f)
            && f.file_meta().time_range.end().0 <= expire_time.0 by {
        filter::lemma_filter_contains(files, p, f);
    }
    filter::lemma_filter_none(
        files,
        |f: FileHandle<M>| f.file_meta().time_range.expired(None),
    );
}

} // verus!
