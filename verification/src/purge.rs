//! Handing files that are no longer referenced to the background purger.

use std::sync::Arc;
use tokio::sync::mpsc::UnboundedSender;
use vstd::prelude::*;

use crate::channel::{Inlet, SendReceipt, SendRefusal};
use crate::flag;
use crate::flag::{FlagReading, FlagStore, SharedFlag};
use crate::meta::{FileId, FileMeta, FileMetaView, SpaceId, TableId};

verus! {

/// `Vec::clone` on strings: the same strings in the same order. It only
/// allocates, and does not unwind, which dropping a file relies on and the
/// specification in vstd leaves open.
#[verifier::external_body]
fn clone_paths(paths: &Vec<String>) -> (r: Vec<String>)
    ensures
        r@ == paths@,
    opens_invariants none
    no_unwind
{
    paths.clone()
}

/// The request to delete one sst file and the files associated with it.
#[derive(Debug)]
pub struct FilePurgeRequest {
    space_id: SpaceId,
    table_id: TableId,
    file_id: FileId,
    associated_files: Vec<String>,
}

/// A purge request as a mathematical value.
#[verifier::ext_equal]
pub struct PurgeRequestView {
    pub space_id: SpaceId,
    pub table_id: TableId,
    pub file_id: FileId,
    pub associated_files: Seq<String>,
}

impl View for FilePurgeRequest {
    type V = PurgeRequestView;

    closed spec fn view(&self) -> PurgeRequestView {
        PurgeRequestView {
            space_id: self.space_id,
            table_id: self.table_id,
            file_id: self.file_id,
            associated_files: self.associated_files@,
        }
    }
}

impl FilePurgeRequest {
    pub fn space_id(&self) -> (r: SpaceId)
        ensures
            r == self@.space_id,
    {
        self.space_id
    }

    pub fn table_id(&self) -> (r: TableId)
        ensures
            r == self@.table_id,
    {
        self.table_id
    }

    pub fn file_id(&self) -> (r: FileId)
        ensures
            r == self@.file_id,
    {
        self.file_id
    }

    pub fn associated_files(&self) -> (r: &Vec<String>)
        ensures
            r@ == self@.associated_files,
    {
        &self.associated_files
    }
}

/// A message to the background purger.
#[derive(Debug)]
pub enum Request {
    Purge(FilePurgeRequest),
    Exit,
}

/// What became of a file that was pushed to a purge queue, and what the push
/// found in the queue's flag.
pub enum PushOutcome {
    /// The queue is closed, nothing was sent.
    Ignored(FlagReading),
    /// The request was queued for the purger.
    Sent(FlagReading, SendReceipt),
    /// The purger has gone; the request was refused.
    Unsent(FlagReading, SendRefusal),
}

impl PushOutcome {
    /// What the push found in the queue's flag.
    pub open spec fn found(self) -> FlagReading {
        match self {
            PushOutcome::Ignored(found) => found,
            PushOutcome::Sent(found, _) => found,
            PushOutcome::Unsent(found, _) => found,
        }
    }
}

// Queue to store files to be deleted for a table.
pub struct FilePurgeQueue {
    // Wrap a inner struct to avoid storing space/table ids for each file.
    inner: Arc<FilePurgeQueueInner>,
}

struct FilePurgeQueueInner {
    space_id: SpaceId,
    table_id: TableId,
    inlet: Inlet,
}

impl Clone for FilePurgeQueue {
    /// Another handle to the same queue: closing one closes both.
    fn clone(&self) -> (r: Self)
        ensures
            r == *self,
    {
        FilePurgeQueue { inner: self.inner.clone() }
    }
}

impl FilePurgeQueue {
    pub closed spec fn space_id(self) -> SpaceId {
        self.inner.space_id
    }

    pub closed spec fn table_id(self) -> TableId {
        self.inner.table_id
    }

    /// Where the queue sends its requests.
    pub closed spec fn sender(self) -> UnboundedSender<Request> {
        self.inner.inlet.sender()
    }

    /// The flag that is set when the queue is closed.
    pub closed spec fn closed_flag(self) -> SharedFlag {
        self.inner.inlet.flag()
    }

    /// An open queue for the files of a table.
    pub fn new(space_id: SpaceId, table_id: TableId, sender: UnboundedSender<Request>) -> (r: Self)
        ensures
            r.space_id() == space_id,
            r.table_id() == table_id,
            r.sender() == sender,
            !r.closed_flag().made_with(),
    {
        FilePurgeQueue {
            inner: Arc::new(
                FilePurgeQueueInner { space_id, table_id, inlet: Inlet::new(sender) },
            ),
        }
    }

    /// Close the purge queue, then all request pushed to this queue will be
    /// ignored. This is mainly used to avoid files being deleted after the
    /// db is closed.
    ///
    /// The flag is shared with every clone of the queue. What a push does that
    /// finds it set is the contract of [`FilePurgeQueue::push_file`].
    pub fn close(&self) -> (r: FlagStore)
        ensures
            r.flag() == self.closed_flag(),
            r.value(),
            r.seq_cst(),
    {
        self.inner.inlet.close()
    }

    /// Reads the queue's flag and, unless it is set, sends the purge request of
    /// a file to the purger. What the flag holds and whether the purger is still
    /// there is up to other threads, so which of the outcomes comes is left
    /// open; a file is ignored only where the flag was found set, and where it
    /// was not, the request goes to the channel, which takes or refuses it. The
    /// reading allows one request, and is used up where and only where that was
    /// sent.
    pub fn push_file(&self, file_meta: &FileMeta) -> (r: PushOutcome)
        ensures
            match r {
                PushOutcome::Ignored(found) => {
                    &&& found.flag() == self.closed_flag()
                    &&& found.seq_cst()
                    &&& found.set()
                    &&& !found.used()
                },
                PushOutcome::Sent(found, receipt) => {
                    &&& found.flag() == self.closed_flag()
                    &&& found.seq_cst()
                    &&& !found.set()
                    &&& found.used()
                    &&& receipt.sender() == self.sender()
                    &&& is_purge_of(
                        receipt.message(),
                        purge_request(self.space_id(), self.table_id(), file_meta@),
                    )
                    &&& receipt.message() matches Request::Purge(request)
                    &&& request@.space_id == self.space_id()
                    &&& request@.table_id == self.table_id()
                    &&& request@.file_id == file_meta.id
                    &&& request@.associated_files == file_meta.associated_files@
                },
                PushOutcome::Unsent(found, refusal) => {
                    &&& found.flag() == self.closed_flag()
                    &&& found.seq_cst()
                    &&& !found.set()
                    &&& found.used()
                    &&& refusal.sender() == self.sender()
                    &&& is_purge_of(
                        refusal.message(),
                        purge_request(self.space_id(), self.table_id(), file_meta@),
                    )
                    &&& refusal.message() matches Request::Purge(request)
                    &&& request@.space_id == self.space_id()
                    &&& request@.table_id == self.table_id()
                    &&& request@.file_id == file_meta.id
                    &&& request@.associated_files == file_meta.associated_files@
                },
            },
        opens_invariants none
        no_unwind
    {
        let found = self.inner.inlet.look();
        match purge_request_unless(
            found.is_set(),
            self.inner.space_id,
            self.inner.table_id,
            file_meta,
        ) {
            None => PushOutcome::Ignored(found),
            Some(request) => {
                let (found, sent) = self.inner.inlet.pass(found, request);
                match sent {
                    Ok(receipt) => PushOutcome::Sent(found, receipt),
                    Err(refusal) => PushOutcome::Unsent(found, refusal),
                }
            },
        }
    }
}

/// The request that asks for the removal of a file and its associated files.
pub open spec fn purge_request(
    space_id: SpaceId,
    table_id: TableId,
    meta: FileMetaView,
) -> PurgeRequestView {
    PurgeRequestView {
        space_id,
        table_id,
        file_id: meta.id,
        associated_files: meta.associated_files,
    }
}

/// Whether a message is the purge request `request`.
pub open spec fn is_purge_of(message: Request, request: PurgeRequestView) -> bool {
    message matches Request::Purge(r) && r@ == request
}

/// The purge request that a push sends for a file, where `closed` is what it
/// finds in the queue's flag: a closed queue sends nothing.
pub fn purge_request_unless(
    closed: bool,
    space_id: SpaceId,
    table_id: TableId,
    file_meta: &FileMeta,
) -> (r: Option<FilePurgeRequest>)
    ensures
        r is None <==> closed,
        r matches Some(request) ==> {
            &&& request@ == purge_request(space_id, table_id, file_meta@)
            &&& request@.space_id == space_id
            &&& request@.table_id == table_id
            &&& request@.file_id == file_meta.id
            &&& request@.associated_files == file_meta.associated_files@
        },
    opens_invariants none
    no_unwind
{
    if closed {
        return None;
    }
    Some(
        FilePurgeRequest {
            space_id,
            table_id,
            file_id: file_meta.id,
            associated_files: clone_paths(&file_meta.associated_files),
        },
    )
}

/// Closing is for good: where a queue or a clone of it has been closed, however
/// often, a push that reads what was stored last to the queue's flag is ignored.
/// Where it has not, a push to a new queue that reads what the flag was made with
/// is not ignored.
pub proof fn push_that_reads_the_last_store_is_ignored_once_closed(
    queue: FilePurgeQueue,
    closes: Seq<FlagStore>,
    file_meta: FileMeta,
    outcome: PushOutcome,
)
    requires
        forall|i: int|
            0 <= i < closes.len() ==> call_ensures(
                FilePurgeQueue::close,
                (&queue,),
                #[trigger] closes[i],
            ),
        call_ensures(FilePurgeQueue::push_file, (&queue, &file_meta), outcome),
        outcome.found().set() == flag::held_after(queue.closed_flag(), closes),
    ensures
        closes.len() > 0 ==> outcome is Ignored,
        closes.len() == 0 && !queue.closed_flag().made_with() ==> !(outcome is Ignored),
{
    if closes.len() > 0 {
        assert(closes[closes.len() - 1].value());
    }
}

/// A message that asks for the removal of a file names that file and no other:
/// its id and its associated files, under the space and the table of the queue.
/// So two files whose requests are the same have the same id and the same
/// associated files, and neither the size, the rows, the time range, the
/// sequence number nor the format of a file makes a difference.
pub proof fn purge_request_names_the_file(
    space_id: SpaceId,
    table_id: TableId,
    a: FileMeta,
    b: FileMeta,
    message: Request,
)
    requires
        is_purge_of(message, purge_request(space_id, table_id, a@)),
    ensures
        message matches Request::Purge(request) && request@.space_id == space_id
            && request@.table_id == table_id && request@.file_id == a.id
            && request@.associated_files == a.associated_files@,
        is_purge_of(message, purge_request(space_id, table_id, b@)) <==> a.id == b.id
            && a.associated_files@ == b.associated_files@,
{
    assert(purge_request(space_id, table_id, b@) == purge_request(space_id, table_id, a@)
        <==> a.id == b.id && a.associated_files@ == b.associated_files@);
}

} // verus!
