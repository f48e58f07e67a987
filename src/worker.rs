use vstd::prelude::*;
use crate::backoff::{backoff_delay, backoff_spec};
use crate::batch::batch_view;
use crate::publisher::RetryPolicy;
use crate::record::{Record, RecordView};

verus! {

/// Where an ingest worker stands in its loop.
#[derive(Debug, Clone, Copy, PartialEq, Eq, Structural)]
pub enum WorkerState {
    Idle,
    Fetching,
    Applying,
    Committing,
    Stopped,
}

/// What the outside world reports to a worker.
#[derive(Debug, Clone, Copy, PartialEq, Eq, Structural)]
pub enum WorkerEvent {
    /// The top of a new round of the loop.
    Tick,
    /// Cancellation was asked for.
    Cancel,
    /// A fetch came back: the highest offset of the batch, or nothing before
    /// the poll timeout.
    Fetched(Option<u64>),
    /// The bus failed beyond repair.
    BusFailed,
    /// Every record of the batch was applied, skipped or dead-lettered.
    BatchDone,
    /// A store write failed: the batch is not committed and comes again.
    StoreFailed,
    CommitOk,
    CommitTransient,
    CommitFatal,
}

/// What a worker asks the outside world to do next.
#[derive(Debug, Clone, Copy, PartialEq, Eq, Structural)]
pub enum WorkerAction {
    Fetch,
    Apply,
    /// Commit this offset now.
    Commit(u64),
    /// Commit this offset again after this many ms.
    RetryCommit(u64, u64),
    Wait,
    Stop,
}

#[derive(Debug, Clone, Copy, PartialEq, Eq, Structural)]
pub struct Worker {
    pub state: WorkerState,
    pub cancelled: bool,
    /// The highest offset of the batch in hand.
    pub pending: u64,
    /// The offset last committed, if any.
    pub committed: Option<u64>,
    pub commit_attempts: u32,
    pub policy: RetryPolicy,
}

pub open spec fn max_offset(a: Option<u64>, b: u64) -> u64 {
    match a {
        Some(x) => if x > b {
            x
        } else {
            b
        },
        None => b,
    }
}

/// One move of the worker's state machine.
pub open spec fn next_spec(w: Worker, e: WorkerEvent) -> (Worker, WorkerAction) {
    if w.state == WorkerState::Stopped {
        (w, WorkerAction::Stop)
    } else if e == WorkerEvent::Cancel {
        (Worker { cancelled: true, ..w }, WorkerAction::Wait)
    } else {
        match (w.state, e) {
            (WorkerState::Idle, WorkerEvent::Tick) => if w.cancelled {
                (Worker { state: WorkerState::Stopped, ..w }, WorkerAction::Stop)
            } else {
                (Worker { state: WorkerState::Fetching, ..w }, WorkerAction::Fetch)
            },
            (WorkerState::Fetching, WorkerEvent::Fetched(Some(h))) => (
                Worker { state: WorkerState::Applying, pending: h, ..w },
                WorkerAction::Apply,
            ),
            (WorkerState::Fetching, WorkerEvent::Fetched(None)) => (
                Worker { state: WorkerState::Idle, ..w },
                WorkerAction::Wait,
            ),
            (WorkerState::Fetching, WorkerEvent::BusFailed) => (
                Worker { state: WorkerState::Stopped, ..w },
                WorkerAction::Stop,
            ),
            (WorkerState::Applying, WorkerEvent::BatchDone) => (
                Worker { state: WorkerState::Committing, commit_attempts: 0, ..w },
                WorkerAction::Commit(w.pending),
            ),
            (WorkerState::Applying, WorkerEvent::StoreFailed) => (
                Worker { state: WorkerState::Idle, ..w },
                WorkerAction::Wait,
            ),
            (WorkerState::Committing, WorkerEvent::CommitOk) => (
                Worker {
                    state: WorkerState::Idle,
                    committed: Some(max_offset(w.committed, w.pending)),
                    ..w
                },
                WorkerAction::Wait,
            ),
            (WorkerState::Committing, WorkerEvent::CommitTransient) => if w.commit_attempts as int
                + 1 < w.policy.max_attempts {
                (
                    Worker { commit_attempts: (w.commit_attempts + 1) as u32, ..w },
                    WorkerAction::RetryCommit(
                        w.pending,
                        backoff_spec(w.policy.base_ms, w.commit_attempts, w.policy.cap_ms),
                    ),
                )
            } else {
                (Worker { state: WorkerState::Stopped, ..w }, WorkerAction::Stop)
            },
            (WorkerState::Committing, WorkerEvent::CommitFatal) => (
                Worker { state: WorkerState::Stopped, ..w },
                WorkerAction::Stop,
            ),
            _ => (w, WorkerAction::Wait),
        }
    }
}

impl Worker {
    pub fn new(policy: RetryPolicy) -> (w: Worker)
        ensures
            w.state == WorkerState::Idle,
            !w.cancelled,
            w.committed is None,
            w.commit_attempts == 0,
            w.policy == policy,
    {
        Worker {
            state: WorkerState::Idle,
            cancelled: false,
            pending: 0,
            committed: None,
            commit_attempts: 0,
            policy,
        }
    }

    /// Takes one event and moves the worker on. A commit is only ever asked
    /// for once the batch has been applied, and the committed offset never
    /// goes back.
    pub fn handle(&mut self, e: WorkerEvent) -> (a: WorkerAction)
        ensures
            (*final(self), a) == next_spec(*old(self), e),
            a matches WorkerAction::Commit(_) ==> old(self).state == WorkerState::Applying && e
                == WorkerEvent::BatchDone,
            a matches WorkerAction::RetryCommit(_, _) ==> old(self).state
                == WorkerState::Committing,
            old(self).committed matches Some(c) ==> (final(self).committed matches Some(c2) && c
                <= c2),
    {
        if self.state == WorkerState::Stopped {
            return WorkerAction::Stop;
        }
        if e == WorkerEvent::Cancel {
            self.cancelled = true;
            return WorkerAction::Wait;
        }
        match (self.state, e) {
            (WorkerState::Idle, WorkerEvent::Tick) => {
                if self.cancelled {
                    self.state = WorkerState::Stopped;
                    WorkerAction::Stop
                } else {
                    self.state = WorkerState::Fetching;
                    WorkerAction::Fetch
                }
            },
            (WorkerState::Fetching, WorkerEvent::Fetched(Some(h))) => {
                self.state = WorkerState::Applying;
                self.pending = h;
                WorkerAction::Apply
            },
            (WorkerState::Fetching, WorkerEvent::Fetched(None)) => {
                self.state = WorkerState::Idle;
                WorkerAction::Wait
            },
            (WorkerState::Fetching, WorkerEvent::BusFailed) => {
                self.state = WorkerState::Stopped;
                WorkerAction::Stop
            },
            (WorkerState::Applying, WorkerEvent::BatchDone) => {
                self.state = WorkerState::Committing;
                self.commit_attempts = 0;
                WorkerAction::Commit(self.pending)
            },
            (WorkerState::Applying, WorkerEvent::StoreFailed) => {
                self.state = WorkerState::Idle;
                WorkerAction::Wait
            },
            (WorkerState::Committing, WorkerEvent::CommitOk) => {
                let c = match self.committed {
                    Some(x) => if x > self.pending {
                        x
                    } else {
                        self.pending
                    },
                    None => self.pending,
                };
                self.state = WorkerState::Idle;
                self.committed = Some(c);
                WorkerAction::Wait
            },
            (WorkerState::Committing, WorkerEvent::CommitTransient) => {
                if self.commit_attempts < self.policy.max_attempts && self.commit_attempts + 1
                    < self.policy.max_attempts {
                    let d = backoff_delay(
                        self.policy.base_ms,
                        self.commit_attempts,
                        self.policy.cap_ms,
                    );
                    self.commit_attempts = self.commit_attempts + 1;
                    WorkerAction::RetryCommit(self.pending, d)
                } else {
                    self.state = WorkerState::Stopped;
                    WorkerAction::Stop
                }
            },
            (WorkerState::Committing, WorkerEvent::CommitFatal) => {
                self.state = WorkerState::Stopped;
                WorkerAction::Stop
            },
            _ => WorkerAction::Wait,
        }
    }
}

/// The highest bus position among the records of a batch, if any has one.
pub open spec fn high_spec(rs: Seq<RecordView>) -> Option<u64>
    decreases rs.len(),
{
    if rs.len() == 0 {
        None
    } else {
        let h = high_spec(rs.drop_last());
        match rs.last().origin_offset {
            Some(o) => Some(max_offset(h, o)),
            None => h,
        }
    }
}

pub fn high_offset(batch: &Vec<Record>) -> (r: Option<u64>)
    ensures
        r == high_spec(batch_view(batch@)),
{
    let ghost bv = batch_view(batch@);
    let mut h: Option<u64> = None;
    let mut i: usize = 0;
    assert(bv.take(0) =~= Seq::<RecordView>::empty());
    while i < batch.len()
        invariant
            bv == batch_view(batch@),
            i <= batch@.len(),
            h == high_spec(bv.take(i as int)),
        decreases batch@.len() - i,
    {
        assert(bv.take(i + 1).drop_last() =~= bv.take(i as int));
        match batch[i].origin_offset {
            Some(o) => {
                h = match h {
                    Some(x) => if x > o {
                        Some(x)
                    } else {
                        Some(o)
                    },
                    None => Some(o),
                };
            },
            None => {},
        }
        i = i + 1;
    }
    assert(bv.take(batch@.len() as int) =~= bv);
    h
}

/// The durable read position of a consumer group on one partition.
#[derive(Debug)]
pub struct CommitMarker {
    pub group_id: String,
    pub partition: u32,
    pub offset: Option<u64>,
}

impl CommitMarker {
    pub fn new(group_id: String, partition: u32) -> (m: CommitMarker)
        ensures
            m.group_id@ == group_id@,
            m.partition == partition,
            m.offset is None,
    {
        CommitMarker { group_id, partition, offset: None }
    }

    /// Moves the position to `offset`, or keeps it where it is if it is
    /// already further on: a position never goes back.
    pub fn advance(&mut self, offset: u64)
        ensures
            final(self).group_id@ == old(self).group_id@,
            final(self).partition == old(self).partition,
            final(self).offset == Some(max_offset(old(self).offset, offset)),
    {
        let o = match self.offset {
            Some(x) => if x > offset {
                x
            } else {
                offset
            },
            None => offset,
        };
        self.offset = Some(o);
    }
}

} // verus!
