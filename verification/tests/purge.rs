use std::collections::hash_map::DefaultHasher;
use std::collections::HashSet;
use std::hash::{Hash, Hasher};
use std::sync::Arc;

use sst_file::handle::{hash_id, FileHandle};
use sst_file::meta::{FileMeta, StorageFormat};
use sst_file::purge::{purge_request_unless, FilePurgeQueue, PushOutcome, Request};
use sst_file::purger::{object_paths, AfterDelete, FilePurger, PurgeJob};
use sst_file::time::{TimeRange, Timestamp};
use tokio::sync::mpsc;

fn meta(id: u64, associated_files: &[&str]) -> FileMeta {
    FileMeta {
        id,
        size: 11,
        row_num: 22,
        time_range: TimeRange::new(Timestamp::new(5), Timestamp::new(6)).unwrap(),
        max_seq: 33,
        storage_format: StorageFormat::Hybrid,
        associated_files: associated_files.iter().map(|s| s.to_string()).collect(),
    }
}

fn strings(names: &[&str]) -> Vec<String> {
    names.iter().map(|s| s.to_string()).collect()
}

#[test]
fn handle_gives_back_its_meta() {
    let (sender, _receiver) = mpsc::unbounded_channel();
    let queue = FilePurgeQueue::new(1, 2, sender);
    let file: FileHandle<u32> = FileHandle::new(meta(4, &["m"]), queue);
    assert_eq!(file.id(), 4);
    assert_eq!(*file.id_ref(), 4);
    assert_eq!(file.size(), 11);
    assert_eq!(file.row_num(), 22);
    assert_eq!(file.max_sequence(), 33);
    assert_eq!(file.storage_format(), StorageFormat::Hybrid);
    assert_eq!(file.time_range(), file.meta().time_range);
    assert_eq!(*file.time_range_ref(), file.time_range());
    assert_eq!(file.meta(), meta(4, &["m"]));
    assert_ne!(file.meta(), meta(4, &["n"]));
    assert_eq!(*file.read_meter(), 0);
    assert!(Arc::ptr_eq(&file.read_meter(), &file.clone().read_meter()));
    let five = TimeRange::new(Timestamp::new(5), Timestamp::new(7)).unwrap();
    let six = TimeRange::new(Timestamp::new(6), Timestamp::new(7)).unwrap();
    assert!(file.intersect_with_time_range(five));
    assert!(!file.intersect_with_time_range(six));
    assert!(file.meta().intersect_with_time_range(five));
    assert!(!file.meta().intersect_with_time_range(six));
}

#[test]
fn clones_share_the_compaction_flag() {
    let (sender, _receiver) = mpsc::unbounded_channel();
    let queue = FilePurgeQueue::new(1, 2, sender);
    let file = FileHandle::<()>::new(meta(4, &[]), queue.clone());
    let other = FileHandle::<()>::new(meta(4, &[]), queue);
    let clone = file.clone();
    assert!(!clone.being_compacted().is_set());
    file.set_being_compacted(true);
    assert!(clone.being_compacted().is_set());
    assert!(!other.being_compacted().is_set());
    clone.set_being_compacted(false);
    assert!(!file.being_compacted().is_set());
}

#[test]
fn handles_are_compared_and_hashed_by_id() {
    let (sender, _receiver) = mpsc::unbounded_channel();
    let queue = FilePurgeQueue::new(1, 2, sender);
    let a = FileHandle::<()>::new(meta(1, &["x"]), queue.clone());
    let b = FileHandle::<()>::new(meta(1, &["y"]), queue.clone());
    let c = FileHandle::<()>::new(meta(2, &["x"]), queue);
    assert!(a == b);
    assert!(a != c);
    let mut set = HashSet::new();
    assert!(set.insert(a.clone()));
    assert!(!set.insert(b.clone()));
    assert!(set.insert(c.clone()));
    assert!(set.contains(&b));
}

#[test]
fn handle_hashes_as_its_bare_id() {
    let (sender, _receiver) = mpsc::unbounded_channel();
    let queue = FilePurgeQueue::new(1, 2, sender);
    let file = FileHandle::<()>::new(meta(42, &["x"]), queue);
    let mut of_file = DefaultHasher::new();
    file.hash(&mut of_file);
    let mut of_id = DefaultHasher::new();
    hash_id(42, &mut of_id);
    let mut of_number = DefaultHasher::new();
    42u64.hash(&mut of_number);
    let mut of_size = DefaultHasher::new();
    file.size().hash(&mut of_size);
    assert_eq!(of_file.finish(), of_id.finish());
    assert_eq!(of_id.finish(), of_number.finish());
    assert_ne!(of_file.finish(), of_size.finish());
}

#[test]
fn last_handle_pushes_the_file() {
    let (sender, mut receiver) = mpsc::unbounded_channel();
    let queue = FilePurgeQueue::new(7, 8, sender);
    let file = FileHandle::<()>::new(meta(9, &["a", "b"]), queue);
    let clone = file.clone();
    drop(file);
    assert!(receiver.try_recv().is_err());
    drop(clone);
    match receiver.try_recv() {
        Ok(Request::Purge(request)) => {
            assert_eq!(request.space_id(), 7);
            assert_eq!(request.table_id(), 8);
            assert_eq!(request.file_id(), 9);
            assert_eq!(request.associated_files(), &strings(&["a", "b"]));
        }
        _ => panic!("no purge request"),
    }
    assert!(receiver.try_recv().is_err());
}

#[test]
fn closed_queue_ignores_files() {
    let (sender, mut receiver) = mpsc::unbounded_channel();
    let purger = FilePurger::new(sender);
    let queue = purger.create_purge_queue(7, 8);
    let other = purger.create_purge_queue(7, 9);
    let file = FileHandle::<()>::new(meta(9, &[]), queue.clone());
    assert!(matches!(queue.push_file(&meta(1, &[])), PushOutcome::Sent(_, _)));
    assert!(receiver.try_recv().is_ok());
    queue.close();
    assert!(matches!(queue.push_file(&meta(2, &[])), PushOutcome::Ignored(_)));
    match queue.clone().push_file(&meta(2, &[])) {
        PushOutcome::Ignored(found) => assert!(found.is_set()),
        _ => panic!("file not ignored"),
    }
    drop(file);
    assert!(receiver.try_recv().is_err());
    // Another queue to the same purger is not affected.
    match other.push_file(&meta(3, &[])) {
        PushOutcome::Sent(found, _) => assert!(!found.is_set()),
        _ => panic!("file not sent"),
    }
    match receiver.try_recv() {
        Ok(Request::Purge(request)) => {
            assert_eq!(request.table_id(), 9);
            assert_eq!(request.file_id(), 3);
        }
        _ => panic!("no purge request"),
    }
}

#[test]
fn only_what_is_pushed_before_the_close_is_sent() {
    let (sender, mut receiver) = mpsc::unbounded_channel();
    let queue = FilePurgeQueue::new(1, 2, sender.clone());
    let twin = FilePurgeQueue::new(1, 2, sender);
    assert!(receiver.try_recv().is_err());
    assert!(matches!(queue.push_file(&meta(3, &["x", "y"])), PushOutcome::Sent(_, _)));
    queue.clone().close();
    assert!(matches!(queue.push_file(&meta(4, &[])), PushOutcome::Ignored(_)));
    match receiver.try_recv() {
        Ok(Request::Purge(request)) => {
            assert_eq!(request.space_id(), 1);
            assert_eq!(request.table_id(), 2);
            assert_eq!(request.file_id(), 3);
            assert_eq!(request.associated_files(), &strings(&["x", "y"]));
        }
        _ => panic!("no purge request"),
    }
    assert!(receiver.try_recv().is_err());
    // A queue made from the same ids and sender is closed on its own.
    assert!(matches!(twin.push_file(&meta(5, &[])), PushOutcome::Sent(_, _)));
}

#[test]
fn message_comes_back_when_the_purger_has_gone() {
    let (sender, receiver) = mpsc::unbounded_channel();
    let purger = FilePurger::new(sender);
    let queue = purger.create_purge_queue(3, 4);
    drop(receiver);
    match queue.push_file(&meta(5, &["x"])) {
        PushOutcome::Unsent(found, refusal) => {
            assert!(!found.is_set());
            match refusal.into_request() {
                Request::Purge(request) => {
                    assert_eq!(request.space_id(), 3);
                    assert_eq!(request.table_id(), 4);
                    assert_eq!(request.file_id(), 5);
                    assert_eq!(request.associated_files(), &strings(&["x"]));
                }
                Request::Exit => panic!("another request handed back"),
            }
        }
        _ => panic!("request not handed back"),
    }
    let refusal = purger.request_exit().err().unwrap();
    assert!(matches!(refusal.into_request(), Request::Exit));
}

#[test]
fn request_depends_on_the_flag_that_was_read() {
    assert!(purge_request_unless(true, 1, 2, &meta(3, &["x"])).is_none());
    let request = purge_request_unless(false, 1, 2, &meta(3, &["x"])).unwrap();
    assert_eq!(request.space_id(), 1);
    assert_eq!(request.table_id(), 2);
    assert_eq!(request.file_id(), 3);
    assert_eq!(request.associated_files(), &strings(&["x"]));
}

#[test]
fn purger_works_until_it_is_told_to_exit() {
    let (sender, mut receiver) = mpsc::unbounded_channel();
    let purger = FilePurger::new(sender);
    let queue = purger.create_purge_queue(3, 4);
    assert!(matches!(queue.push_file(&meta(5, &[])), PushOutcome::Sent(_, _)));
    assert!(purger.request_exit().is_ok());
    let first = FilePurger::next_work(receiver.try_recv().ok());
    assert_eq!(first.unwrap().file_id(), 5);
    let second = receiver.try_recv().ok();
    assert!(matches!(second, Some(Request::Exit)));
    assert!(FilePurger::next_work(second).is_none());
    assert!(FilePurger::next_work(None).is_none());
}

#[test]
fn names_become_object_paths() {
    let names = strings(&["a/b.sst", "/a//b/", "50%/x", "..", "", "a b"]);
    let paths = strings(&["a/b.sst", "a/b", "50%25/x", "%2E%2E", "", "a b"]);
    assert_eq!(object_paths(&names), paths);
    assert!(object_paths(&vec![]).is_empty());
}

#[test]
fn job_deletes_associated_files_then_the_sst_file() {
    let request = purge_request_unless(false, 1, 2, &meta(3, &["/meta//3", "x"])).unwrap();
    let mut job = FilePurger::purge_job(&request, "1/2/3.sst".to_string());
    let mut deleted = vec![];
    while let Some(path) = job.current() {
        deleted.push(path.clone());
        assert_eq!(job.record(true), AfterDelete::Deleted);
    }
    assert_eq!(deleted, strings(&["meta/3", "x", "1/2/3.sst"]));
}

#[test]
fn failed_delete_is_retried_then_passed_over() {
    let request = purge_request_unless(false, 1, 2, &meta(3, &["x"])).unwrap();
    let mut job = FilePurger::purge_job(&request, "s".to_string());
    for _ in 0..3 {
        assert_eq!(job.current().unwrap(), "x");
        assert_eq!(job.record(false), AfterDelete::Retry { wait_ms: 500 });
    }
    assert_eq!(job.current().unwrap(), "x");
    assert_eq!(job.record(false), AfterDelete::GaveUp);
    // The retries start anew for the next file.
    assert_eq!(job.current().unwrap(), "s");
    assert_eq!(job.record(false), AfterDelete::Retry { wait_ms: 500 });
    assert_eq!(job.record(true), AfterDelete::Deleted);
    assert!(job.current().is_none());
}

#[test]
fn job_ends_within_its_tries() {
    // All outcomes of two targets with one retry each.
    for outcomes in 0u32..16 {
        let mut job = PurgeJob::new(strings(&["a"]), "b".to_string(), 1, 9);
        let mut tried = vec![];
        let mut n = 0;
        while let Some(path) = job.current() {
            tried.push(path.clone());
            job.record(outcomes & (1 << n) != 0);
            n += 1;
        }
        assert!(n >= 2 && n <= 4);
        assert_eq!(tried[0], "a");
        assert_eq!(tried[n - 1], "b");
        assert!(tried.iter().filter(|p| p.as_str() == "a").count() <= 2);
        assert!(tried.iter().filter(|p| p.as_str() == "b").count() <= 2);
        let mut sorted = tried.clone();
        sorted.sort();
        assert_eq!(tried, sorted);
    }
}
