use sst_file::file_set::FileHandleSet;
use sst_file::handle::FileHandle;
use sst_file::level::Level;
use sst_file::level_handler::LevelHandler;
use sst_file::meta::{FileMeta, StorageFormat};
use sst_file::purge::{FilePurgeQueue, Request};
use sst_file::time::{TimeRange, Timestamp};
use tokio::sync::mpsc;
use tokio::sync::mpsc::UnboundedReceiver;

struct Fixture {
    queue: FilePurgeQueue,
    receiver: UnboundedReceiver<Request>,
}

impl Fixture {
    fn new() -> Self {
        let (sender, receiver) = mpsc::unbounded_channel();
        Fixture { queue: FilePurgeQueue::new(1, 2, sender), receiver }
    }

    fn file(&self, id: u64, start: i64, end: i64) -> FileHandle<u32> {
        let meta = FileMeta {
            id,
            size: 10 * id,
            row_num: 100 * id,
            time_range: range(start, end),
            max_seq: id,
            storage_format: StorageFormat::Columnar,
            associated_files: vec![],
        };
        FileHandle::new(meta, self.queue.clone())
    }

    fn purged(&mut self) -> Vec<u64> {
        let mut ids = vec![];
        while let Ok(Request::Purge(request)) = self.receiver.try_recv() {
            ids.push(request.file_id());
        }
        ids
    }
}

fn range(start: i64, end: i64) -> TimeRange {
    TimeRange::new(Timestamp::new(start), Timestamp::new(end)).unwrap()
}

fn ids(handler: &LevelHandler<u32>) -> Vec<u64> {
    let mut iter = handler.iter_ssts();
    let mut ids = vec![];
    while let Some(file) = iter.next() {
        ids.push(file.id());
    }
    assert!(iter.next().is_none());
    ids
}

fn ids_of(files: &[FileHandle<u32>]) -> Vec<u64> {
    files.iter().map(|f| f.id()).collect()
}

fn expired(handler: &LevelHandler<u32>, at: i64) -> Vec<u64> {
    let mut files = vec![];
    handler.collect_expired(Some(Timestamp::new(at)), &mut files);
    ids_of(&files)
}

#[test]
fn new_handler_is_empty() {
    let handler: LevelHandler<u32> = LevelHandler::new(Level::from(1));
    assert_eq!(handler.level, Level::from(1));
    assert!(handler.latest_sst().is_none());
    assert!(ids(&handler).is_empty());
    assert!(handler.pick_ssts(range(i64::MIN, i64::MAX)).is_empty());
    assert!(!handler.has_expired_sst(Some(Timestamp::new(i64::MAX))));
}

#[test]
fn files_are_ordered_by_end_then_start_then_id() {
    let fixture = Fixture::new();
    let mut handler = LevelHandler::new(Level::default());
    handler.insert(fixture.file(5, 0, 20));
    handler.insert(fixture.file(4, 0, 20));
    handler.insert(fixture.file(3, 5, 20));
    handler.insert(fixture.file(2, 8, 10));
    handler.insert(fixture.file(1, 0, 30));
    handler.insert(fixture.file(6, -10, -5));
    assert_eq!(ids(&handler), vec![6, 2, 4, 5, 3, 1]);
    assert_eq!(handler.latest_sst().unwrap().id(), 1);
}

#[test]
fn order_of_insertion_does_not_matter() {
    let fixture = Fixture::new();
    let files = [fixture.file(1, 0, 10), fixture.file(2, 0, 5), fixture.file(3, 2, 10)];
    for order in [[0, 1, 2], [0, 2, 1], [1, 0, 2], [1, 2, 0], [2, 0, 1], [2, 1, 0]] {
        let mut handler = LevelHandler::new(Level::default());
        for i in order {
            handler.insert(files[i].clone());
        }
        assert_eq!(ids(&handler), vec![2, 1, 3]);
    }
}

#[test]
fn pick_finds_exactly_the_intersecting_files() {
    let fixture = Fixture::new();
    let mut handler = LevelHandler::new(Level::default());
    handler.insert(fixture.file(1, 0, 10));
    handler.insert(fixture.file(2, 10, 20));
    handler.insert(fixture.file(3, 20, 30));
    handler.insert(fixture.file(4, 0, 100));
    assert_eq!(ids_of(&handler.pick_ssts(range(0, 1))), vec![1, 4]);
    assert_eq!(ids_of(&handler.pick_ssts(range(10, 20))), vec![2, 4]);
    assert_eq!(ids_of(&handler.pick_ssts(range(9, 21))), vec![1, 2, 3, 4]);
    assert_eq!(ids_of(&handler.pick_ssts(range(30, 31))), vec![4]);
    assert_eq!(ids_of(&handler.pick_ssts(range(100, 200))), Vec::<u64>::new());
    assert_eq!(ids_of(&handler.pick_ssts(range(-5, 0))), Vec::<u64>::new());
    assert_eq!(ids_of(&handler.pick_ssts(range(i64::MIN, i64::MAX))), vec![1, 2, 3, 4]);
}

#[test]
fn files_under_compaction_are_picked_like_others() {
    let fixture = Fixture::new();
    let mut handler = LevelHandler::new(Level::default());
    handler.insert(fixture.file(1, 0, 10));
    handler.insert(fixture.file(2, 0, 20));
    let before = ids_of(&handler.pick_ssts(range(0, 5)));
    handler.latest_sst().unwrap().set_being_compacted(true);
    let picked = handler.pick_ssts(range(0, 5));
    assert_eq!(ids_of(&picked), before);
    assert!(!picked[0].being_compacted().is_set());
    assert!(picked[1].being_compacted().is_set());
    assert_eq!(ids(&handler), vec![1, 2]);
}

#[test]
fn insert_replaces_the_file_with_the_same_key() {
    let mut fixture = Fixture::new();
    let mut handler = LevelHandler::new(Level::default());
    handler.insert(fixture.file(1, 0, 10));
    let second = fixture.file(1, 0, 10);
    second.set_being_compacted(true);
    handler.insert(second);
    assert_eq!(ids(&handler), vec![1]);
    assert!(handler.latest_sst().unwrap().being_compacted().is_set());
    // The first file stays indexed until the id is removed.
    assert!(fixture.purged().is_empty());
    handler.remove_ssts(&[1]);
    assert!(ids(&handler).is_empty());
    assert_eq!(fixture.purged().len(), 2);
}

#[test]
fn adding_a_file_twice_is_adding_it_once() {
    let fixture = Fixture::new();
    let file = fixture.file(1, 0, 10);
    let mut handler = LevelHandler::new(Level::default());
    handler.insert(fixture.file(2, 0, 20));
    handler.insert(file.clone());
    handler.insert(file.clone());
    assert_eq!(ids(&handler), vec![1, 2]);
}

#[test]
fn id_that_comes_back_with_another_range_keeps_its_first_entry() {
    let fixture = Fixture::new();
    let mut handler = LevelHandler::new(Level::default());
    handler.insert(fixture.file(1, 0, 10));
    handler.insert(fixture.file(1, 0, 20));
    assert_eq!(ids(&handler), vec![1, 1]);
    handler.remove_ssts(&[1]);
    assert_eq!(ids(&handler), vec![1]);
    assert_eq!(handler.latest_sst().unwrap().time_range(), range(0, 20));
    handler.remove_ssts(&[1]);
    assert_eq!(ids(&handler), vec![1]);
    handler.insert(fixture.file(1, 5, 20));
    handler.remove_ssts(&[1]);
    assert_eq!(handler.latest_sst().unwrap().time_range(), range(0, 20));
}

#[test]
fn remove_takes_out_the_given_ids_only() {
    let mut fixture = Fixture::new();
    let mut handler = LevelHandler::new(Level::from(1));
    for id in 1..=5 {
        handler.insert(fixture.file(id, id as i64, id as i64 + 10));
    }
    handler.remove_ssts(&[]);
    assert_eq!(ids(&handler), vec![1, 2, 3, 4, 5]);
    handler.remove_ssts(&[4, 9, 2, 4]);
    assert_eq!(ids(&handler), vec![1, 3, 5]);
    assert_eq!(fixture.purged(), vec![4, 2]);
    handler.remove_ssts(&[4, 2]);
    assert_eq!(ids(&handler), vec![1, 3, 5]);
    assert_eq!(handler.level, Level::from(1));
}

#[test]
fn remove_undoes_insert() {
    let fixture = Fixture::new();
    let mut handler = LevelHandler::new(Level::default());
    handler.insert(fixture.file(1, 0, 10));
    handler.insert(fixture.file(3, 0, 30));
    handler.insert(fixture.file(2, 0, 20));
    handler.remove_ssts(&[2]);
    assert_eq!(ids(&handler), vec![1, 3]);
}

#[test]
fn batches_of_removals_add_up() {
    let fixture = Fixture::new();
    let mut one = LevelHandler::new(Level::default());
    let mut two = LevelHandler::new(Level::default());
    for id in 1..=6 {
        one.insert(fixture.file(id, 0, 10));
        two.insert(fixture.file(id, 0, 10));
    }
    one.remove_ssts(&[1, 5, 2]);
    two.remove_ssts(&[1]);
    two.remove_ssts(&[5, 2]);
    assert_eq!(ids(&one), ids(&two));
    assert_eq!(ids(&one), vec![3, 4, 6]);
}

#[test]
fn expired_files_are_collected_from_the_front() {
    let fixture = Fixture::new();
    let mut handler = LevelHandler::new(Level::default());
    handler.insert(fixture.file(1, 0, 10));
    handler.insert(fixture.file(2, 5, 20));
    handler.insert(fixture.file(3, 0, 30));
    assert!(!handler.has_expired_sst(None));
    assert!(!handler.has_expired_sst(Some(Timestamp::new(9))));
    assert!(handler.has_expired_sst(Some(Timestamp::new(10))));
    assert_eq!(expired(&handler, 9), Vec::<u64>::new());
    assert_eq!(expired(&handler, 10), vec![1]);
    assert_eq!(expired(&handler, 29), vec![1, 2]);
    assert_eq!(expired(&handler, 30), vec![1, 2, 3]);

    let mut files = vec![fixture.file(9, 0, 1)];
    handler.collect_expired(Some(Timestamp::new(20)), &mut files);
    assert_eq!(ids_of(&files), vec![9, 1, 2]);
    handler.collect_expired(None, &mut files);
    assert_eq!(ids_of(&files), vec![9, 1, 2]);
}

#[test]
fn removing_the_expired_files_leaves_the_rest() {
    let fixture = Fixture::new();
    let mut handler = LevelHandler::new(Level::default());
    for id in 1..=4 {
        handler.insert(fixture.file(id, 0, 10 * id as i64));
    }
    let gone = expired(&handler, 20);
    handler.remove_ssts(&gone);
    assert_eq!(ids(&handler), vec![3, 4]);
    assert!(!handler.has_expired_sst(Some(Timestamp::new(20))));
    // What has expired is not found by a query from the expire time on.
    assert_eq!(ids_of(&handler.pick_ssts(range(20, 25))), vec![3, 4]);
}

#[test]
fn set_agrees_with_its_ordered_files() {
    let fixture = Fixture::new();
    let mut set: FileHandleSet<u32> = FileHandleSet::new();
    assert!(set.latest().is_none());
    set.insert(fixture.file(2, 0, 20));
    set.insert(fixture.file(1, 0, 10));
    assert_eq!(ids_of(set.ordered()), vec![1, 2]);
    assert_eq!(set.latest().unwrap().id(), 2);
    assert_eq!(ids_of(&set.files_by_time_range(range(15, 16))), vec![2]);
    set.remove_by_ids(&[2]);
    assert_eq!(ids_of(set.ordered()), vec![1]);
}
