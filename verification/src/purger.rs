//! What the background purger does with the requests it receives.
//!
//! The purger deletes, for each purge request, the associated files and then
//! the sst file itself. A delete that fails is retried a few times; a file that
//! still cannot be deleted is passed over. Receiving, deleting and waiting is up
//! to the caller, who reports the outcome of each delete to the job.

use object_store::path::Path;
use tokio::sync::mpsc::UnboundedSender;
use vstd::prelude::*;

use crate::channel;
use crate::channel::{SendReceipt, SendRefusal};
use crate::meta::{SpaceId, TableId};
use crate::purge::{FilePurgeQueue, FilePurgeRequest, Request};

verus! {

/// The location in the object store of a file with the given name, which
/// `Path::from` computes from it.
pub uninterp spec fn object_path(name: Seq<char>) -> Seq<char>;

/// `Path::from` on a string, and the text of the path: the name without empty
/// parts, and with the characters encoded that a location cannot hold.
#[verifier::external_body]
fn to_object_path(name: String) -> (r: String)
    ensures
        r@ == object_path(name@),
{
    String::from(Path::from(name))
}

/// Background file purger.
pub struct FilePurger {
    sender: UnboundedSender<Request>,
}

impl FilePurger {
    /// How often a failed delete is retried.
    pub const MAX_RETRIES: usize = 3;

    /// How long to wait before a retry, in milliseconds.
    pub const RETRY_INTERVAL_MS: u64 = 500;

    /// Where requests to the purger are sent.
    pub closed spec fn sender(self) -> UnboundedSender<Request> {
        self.sender
    }

    /// The purger that receives what `sender` sends.
    pub fn new(sender: UnboundedSender<Request>) -> (r: Self)
        ensures
            r.sender() == sender,
    {
        FilePurger { sender }
    }

    /// An open queue that hands the files of a table to this purger.
    pub fn create_purge_queue(&self, space_id: SpaceId, table_id: TableId) -> (r: FilePurgeQueue)
        ensures
            r.space_id() == space_id,
            r.table_id() == table_id,
            r.sender() == self.sender(),
            !r.closed_flag().made_with(),
    {
        FilePurgeQueue::new(space_id, table_id, self.sender.clone())
    }

    /// Asks the purger to exit. Where it has exited already, the message is
    /// refused.
    pub fn request_exit(&self) -> (r: Result<SendReceipt, SendRefusal>)
        ensures
            match r {
                Ok(receipt) => receipt.sender() == self.sender() && receipt.message()
                    == Request::Exit,
                Err(refusal) => refusal.sender() == self.sender() && refusal.message()
                    == Request::Exit,
            },
    {
        channel::send_exit(&self.sender)
    }

    /// What to do with what was received: the request to work on, or nothing
    /// where the purger is to exit, because it was told to or because nobody is
    /// left to send requests.
    pub fn next_work(received: Option<Request>) -> (r: Option<FilePurgeRequest>)
        ensures
            r == work_in(received),
            r is Some <==> received is Some && received->0 is Purge,
            received matches Some(Request::Purge(request)) ==> r == Some(request),
    {
        match received {
            Some(Request::Purge(request)) => Some(request),
            Some(Request::Exit) => None,
            None => None,
        }
    }

    /// The deletes that a purge request asks for, where `sst_file_path` is the
    /// location of the request's sst file.
    pub fn purge_job(request: &FilePurgeRequest, sst_file_path: String) -> (r: PurgeJob)
        ensures
            r.targets().len() == request@.associated_files.len() + 1,
            forall|i: int|
                0 <= i < request@.associated_files.len() ==> (#[trigger] r.targets()[i])@
                    == object_path(request@.associated_files[i]@),
            r.targets().last() == sst_file_path,
            r.progress() == JobProgress::start(),
            r.max_retries() == Self::MAX_RETRIES,
            r.interval_ms() == Self::RETRY_INTERVAL_MS,
    {
        let paths = object_paths(request.associated_files());
        PurgeJob::new(paths, sst_file_path, Self::MAX_RETRIES, Self::RETRY_INTERVAL_MS)
    }
}

/// The request to work on in what was received, if the purger is to go on.
pub open spec fn work_in(received: Option<Request>) -> Option<FilePurgeRequest> {
    match received {
        Some(Request::Purge(request)) => Some(request),
        Some(Request::Exit) => None,
        None => None,
    }
}

/// The requests that are worked on where `messages` are received one after the
/// other and the purger goes on as long as there is work in what it receives.
pub open spec fn worked_on(messages: Seq<Request>) -> Seq<FilePurgeRequest>
    decreases messages.len(),
{
    if messages.len() == 0 {
        Seq::empty()
    } else {
        match work_in(Some(messages[0])) {
            Some(request) => seq![request] + worked_on(messages.skip(1)),
            None => Seq::empty(),
        }
    }
}

/// All purge requests that come before an exit message are worked on, in the
/// order in which they come, and nothing that comes after it.
pub proof fn work_goes_on_until_exit(requests: Seq<FilePurgeRequest>, later: Seq<Request>)
    ensures
        worked_on(requests.map_values(|r: FilePurgeRequest| Request::Purge(r))) == requests,
        worked_on(
            requests.map_values(|r: FilePurgeRequest| Request::Purge(r)).push(Request::Exit)
                + later,
        ) == requests,
    decreases requests.len(),
{
    let purge = |r: FilePurgeRequest| Request::Purge(r);
    let messages = requests.map_values(purge);
    let all = messages.push(Request::Exit) + later;
    if requests.len() > 0 {
        let rest = requests.skip(1);
        work_goes_on_until_exit(rest, later);
        assert(messages.skip(1) =~= rest.map_values(purge));
        assert(all.skip(1) =~= rest.map_values(purge).push(Request::Exit) + later);
        assert(messages[0] == Request::Purge(requests[0]));
        assert(all[0] == Request::Purge(requests[0]));
        assert(seq![requests[0]] + rest =~= requests);
    } else {
        assert(all[0] == Request::Exit);
        assert(worked_on(all) =~= requests);
        assert(worked_on(messages) =~= requests);
    }
}

/// The locations in the object store of files with the given names.
pub fn object_paths(names: &Vec<String>) -> (r: Vec<String>)
    ensures
        r.len() == names.len(),
        forall|i: int|
            0 <= i < names.len() ==> (#[trigger] r@[i])@ == object_path(names@[i]@),
{
    let mut paths: Vec<String> = Vec::new();
    let mut i: usize = 0;
    while i < names.len()
        invariant
            i <= names.len(),
            paths.len() == i,
            forall|j: int| 0 <= j < i ==> (#[trigger] paths@[j])@ == object_path(names@[j]@),
        decreases names.len() - i,
    {
        paths.push(to_object_path(names[i].clone()));
        i += 1;
    }
    paths
}

/// How far a job has come: `position` targets are settled, and the delete of
/// the next one has been retried `retries` times.
pub struct JobProgress {
    pub position: nat,
    pub retries: nat,
}

impl JobProgress {
    pub open spec fn start() -> JobProgress {
        JobProgress { position: 0, retries: 0 }
    }

    /// The progress after one more delete: a target is settled when it is
    /// deleted, or when no retry is left.
    pub open spec fn after(self, max_retries: nat, deleted: bool) -> JobProgress {
        if deleted || self.retries >= max_retries {
            JobProgress { position: self.position + 1, retries: 0 }
        } else {
            JobProgress { position: self.position, retries: self.retries + 1 }
        }
    }
}

/// What follows a delete.
#[derive(Debug, Copy, Clone, PartialEq, Eq, Structural)]
pub enum AfterDelete {
    /// The target is deleted; on to the next one.
    Deleted,
    /// Delete the target again, after a pause.
    Retry { wait_ms: u64 },
    /// No retry is left; the target is passed over.
    GaveUp,
}

/// The deletes of one purge request, in order.
pub struct PurgeJob {
    targets: Vec<String>,
    position: usize,
    retries: usize,
    max_retries: usize,
    interval_ms: u64,
}

impl PurgeJob {
    #[verifier::type_invariant]
    spec fn inv(self) -> bool {
        self.position <= self.targets.len() && self.retries <= self.max_retries
    }

    /// The locations to delete, in order.
    pub closed spec fn targets(self) -> Seq<String> {
        self.targets@
    }

    pub closed spec fn progress(self) -> JobProgress {
        JobProgress { position: self.position as nat, retries: self.retries as nat }
    }

    pub closed spec fn max_retries(self) -> nat {
        self.max_retries as nat
    }

    pub closed spec fn interval_ms(self) -> u64 {
        self.interval_ms
    }

    /// Whether all targets are settled.
    pub open spec fn done(self) -> bool {
        self.progress().position >= self.targets().len()
    }

    /// The job that deletes the associated files and then the sst file.
    pub fn new(
        associated_paths: Vec<String>,
        sst_file_path: String,
        max_retries: usize,
        interval_ms: u64,
    ) -> (r: Self)
        ensures
            r.targets() == associated_paths@.push(sst_file_path),
            r.progress() == JobProgress::start(),
            r.max_retries() == max_retries,
            r.interval_ms() == interval_ms,
    {
        let mut targets = associated_paths;
        targets.push(sst_file_path);
        PurgeJob { targets, position: 0, retries: 0, max_retries, interval_ms }
    }

    /// The location to delete now, if any is left.
    pub fn current(&self) -> (r: Option<&String>)
        ensures
            r is None <==> self.done(),
            r is None <==> self.progress().position >= self.targets().len(),
            r matches Some(target) ==> *target == self.targets()[self.progress().position as int],
    {
        if self.position < self.targets.len() {
            Some(&self.targets[self.position])
        } else {
            None
        }
    }

    /// Takes note of the outcome of deleting the current location.
    pub fn record(&mut self, deleted: bool) -> (r: AfterDelete)
        requires
            !old(self).done(),
        ensures
            final(self).targets() == old(self).targets(),
            final(self).max_retries() == old(self).max_retries(),
            final(self).interval_ms() == old(self).interval_ms(),
            final(self).progress() == old(self).progress().after(old(self).max_retries(), deleted),
            r == if deleted {
                AfterDelete::Deleted
            } else if old(self).progress().retries < old(self).max_retries() {
                AfterDelete::Retry { wait_ms: old(self).interval_ms() }
            } else {
                AfterDelete::GaveUp
            },
    {
        proof {
            use_type_invariant(&*self);
        }
        if !deleted && self.retries < self.max_retries {
            self.retries = self.retries + 1;
            return AfterDelete::Retry { wait_ms: self.interval_ms };
        }
        self.position = self.position + 1;
        self.retries = 0;
        if deleted {
            AfterDelete::Deleted
        } else {
            AfterDelete::GaveUp
        }
    }
}

/// The progress of a job after the first `n` outcomes.
pub open spec fn progress_after(max_retries: nat, outcomes: Seq<bool>, n: nat) -> JobProgress
    decreases n,
{
    if n == 0 {
        JobProgress::start()
    } else {
        progress_after(max_retries, outcomes, (n - 1) as nat).after(
            max_retries,
            outcomes[n - 1],
        )
    }
}

/// A job goes through its targets in order: it never goes back, and skips none.
pub proof fn job_goes_in_order(max_retries: nat, outcomes: Seq<bool>, m: nat, n: nat)
    requires
        m <= n <= outcomes.len(),
    ensures
        progress_after(max_retries, outcomes, m).position <= progress_after(
            max_retries,
            outcomes,
            n,
        ).position,
        progress_after(max_retries, outcomes, n).position <= progress_after(
            max_retries,
            outcomes,
            m,
        ).position + (n - m),
        progress_after(max_retries, outcomes, n).retries <= max_retries,
    decreases n,
{
    if m < n {
        job_goes_in_order(max_retries, outcomes, m, (n - 1) as nat);
    } else if n > 0 {
        job_goes_in_order(max_retries, outcomes, (n - 1) as nat, (n - 1) as nat);
    }
}

/// A job starts with its first target, and nothing that is still to be tried
/// counts as done: a job is done exactly if as many targets are settled as it
/// has.
pub proof fn job_is_done_when_all_targets_are_settled(job: PurgeJob)
    ensures
        JobProgress::start().position == 0,
        JobProgress::start().retries == 0,
        job.done() <==> !(job.progress().position < job.targets().len()),
{
}

/// The delete of every target that a job has settled was tried.
pub proof fn every_settled_target_was_tried(
    max_retries: nat,
    outcomes: Seq<bool>,
    n: nat,
    target: nat,
)
    requires
        n <= outcomes.len(),
        target < progress_after(max_retries, outcomes, n).position,
    ensures
        exists|m: nat|
            m < n && #[trigger] progress_after(max_retries, outcomes, m).position == target,
    decreases n,
{
    let before = progress_after(max_retries, outcomes, (n - 1) as nat);
    if target < before.position {
        every_settled_target_was_tried(max_retries, outcomes, (n - 1) as nat, target);
        let m = choose|m: nat|
            m < n - 1 && #[trigger] progress_after(max_retries, outcomes, m).position == target;
        assert(m < n);
    } else {
        assert(progress_after(max_retries, outcomes, (n - 1) as nat).position == target);
    }
}

/// The delete of a target is tried at most once more than there are retries.
pub proof fn tries_are_bounded(max_retries: nat, outcomes: Seq<bool>, m: nat, n: nat)
    requires
        m <= n <= outcomes.len(),
        progress_after(max_retries, outcomes, m).position == progress_after(
            max_retries,
            outcomes,
            n,
        ).position,
    ensures
        n - m <= max_retries,
        progress_after(max_retries, outcomes, n).retries == progress_after(
            max_retries,
            outcomes,
            m,
        ).retries + (n - m),
    decreases n,
{
    job_goes_in_order(max_retries, outcomes, m, n);
    if m < n {
        job_goes_in_order(max_retries, outcomes, m, (n - 1) as nat);
        job_goes_in_order(max_retries, outcomes, (n - 1) as nat, n);
        tries_are_bounded(max_retries, outcomes, m, (n - 1) as nat);
    }
}

/// A target that was deleted is not tried again.
pub proof fn deleted_target_is_not_tried_again(
    max_retries: nat,
    outcomes: Seq<bool>,
    m: nat,
    n: nat,
)
    requires
        m < n <= outcomes.len(),
        outcomes[m as int],
    ensures
        progress_after(max_retries, outcomes, m).position < progress_after(
            max_retries,
            outcomes,
            n,
        ).position,
{
    job_goes_in_order(max_retries, outcomes, m + 1, n);
}

/// A target is passed over, without being deleted, only when as many deletes of
/// it as are allowed have failed: the `n`-th one, and each `k`-th one of the
/// `max_retries` before it.
pub proof fn target_is_passed_over_after_all_retries(
    max_retries: nat,
    outcomes: Seq<bool>,
    n: nat,
    k: nat,
)
    requires
        n < outcomes.len(),
        n - max_retries <= k <= n,
        !outcomes[n as int],
        progress_after(max_retries, outcomes, n + 1).position > progress_after(
            max_retries,
            outcomes,
            n,
        ).position,
    ensures
        max_retries <= n,
        !outcomes[k as int],
        progress_after(max_retries, outcomes, k).position == progress_after(
            max_retries,
            outcomes,
            n,
        ).position,
{
    job_goes_in_order(max_retries, outcomes, n, n);
    assert(progress_after(max_retries, outcomes, n + 1) == progress_after(
        max_retries,
        outcomes,
        n,
    ).after(max_retries, outcomes[n as int]));
    assert(progress_after(max_retries, outcomes, n).retries == max_retries);
    lemma_no_more_retries_than_deletes(max_retries, outcomes, n);
    if k < n {
        lemma_retries_follow_failures(max_retries, outcomes, n, k);
    }
}

/// There are no more retries than deletes.
proof fn lemma_no_more_retries_than_deletes(max_retries: nat, outcomes: Seq<bool>, n: nat)
    requires
        n <= outcomes.len(),
    ensures
        progress_after(max_retries, outcomes, n).retries <= n,
    decreases n,
{
    if n > 0 {
        lemma_no_more_retries_than_deletes(max_retries, outcomes, (n - 1) as nat);
    }
}

/// A number of retries means that many failures before, on the same target.
proof fn lemma_retries_follow_failures(max_retries: nat, outcomes: Seq<bool>, n: nat, k: nat)
    requires
        n <= outcomes.len(),
        n - progress_after(max_retries, outcomes, n).retries <= k < n,
    ensures
        !outcomes[k as int],
        progress_after(max_retries, outcomes, k).position == progress_after(
            max_retries,
            outcomes,
            n,
        ).position,
    decreases n,
{
    if k < n - 1 {
        lemma_retries_follow_failures(max_retries, outcomes, (n - 1) as nat, k);
    }
}

/// Whatever the outcomes are, all of `targets` targets are settled after as
/// many deletes as there are tries for them.
pub proof fn job_comes_to_an_end(
    max_retries: nat,
    outcomes: Seq<bool>,
    targets: nat,
    n: nat,
)
    requires
        targets * (max_retries + 1) <= n <= outcomes.len(),
    ensures
        progress_after(max_retries, outcomes, n).position >= targets,
{
    lemma_tries_used(max_retries, outcomes, n);
    job_goes_in_order(max_retries, outcomes, n, n);
    let progress = progress_after(max_retries, outcomes, n);
    assert(progress.position >= targets) by (nonlinear_arith)
        requires
            n >= targets * (max_retries + 1),
            progress.position * (max_retries + 1) + progress.retries >= n,
            progress.retries <= max_retries,
    ;
}

/// No more deletes have been done than the tries that are used up.
proof fn lemma_tries_used(max_retries: nat, outcomes: Seq<bool>, n: nat)
    requires
        n <= outcomes.len(),
    ensures
        progress_after(max_retries, outcomes, n).position * (max_retries + 1) + progress_after(
            max_retries,
            outcomes,
            n,
        ).retries >= n,
    decreases n,
{
    if n > 0 {
        lemma_tries_used(max_retries, outcomes, (n - 1) as nat);
        job_goes_in_order(max_retries, outcomes, (n - 1) as nat, (n - 1) as nat);
        let before = progress_after(max_retries, outcomes, (n - 1) as nat);
        assert((before.position + 1) * (max_retries + 1) == before.position * (max_retries + 1)
            + max_retries + 1) by (nonlinear_arith);
    } else {
        assert(0 * (max_retries + 1) == 0) by (nonlinear_arith);
    }
}

} // verus!
