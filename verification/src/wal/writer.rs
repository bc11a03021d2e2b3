//! The log writer: which bytes it writes when, when it syncs, and what it answers.
//!
//! The writer is driven from outside: each step takes what happened (a command, an empty queue,
//! the outcome of an operation) and says what to do next.
use vstd::prelude::*;

use crate::text::concat;
use crate::wal::record::{frame, frame_bytes, id_fits, payload, Rec};

verus! {

/// When the log is synced.
#[derive(Clone, Copy, Debug, PartialEq, Eq, Structural)]
pub enum FsyncPolicy {
    /// Replies go out only after their batch is synced.
    Always,
    /// The log is synced about once a second.
    Everysec,
    /// The log is never synced explicitly.
    No,
}

/// What a transaction is answered that the log could not record.
pub const NOT_DURABLE: &'static str =
    "unavailable: the write-ahead log could not durably record this transaction; it may be visible to readers until the server is restarted, but it is not durable — treat it as lost and retry once the disk is healthy";

/// A checkpoint that was asked for.
#[derive(Debug, PartialEq)]
pub struct CkptRequest {
    pub version: u64,
    pub tx_counter: u64,
    pub format: String,
}

/// A checkpoint whose log segment has been started, ready to be installed.
#[derive(Debug, PartialEq)]
pub struct CkptJob {
    pub version: u64,
    pub tx_counter: u64,
    pub format: String,
    /// Replay starts here once the checkpoint is installed.
    pub first_segment: u64,
}

pub ghost struct RequestView {
    pub version: u64,
    pub tx_counter: u64,
    pub format: Seq<char>,
}

impl CkptRequest {
    pub open spec fn view(&self) -> RequestView {
        RequestView { version: self.version, tx_counter: self.tx_counter, format: self.format@ }
    }
}

/// What happened. An acknowledgement is named by a number.
pub enum Event {
    Append { frame: Vec<u8>, ack: Option<u64> },
    Checkpoint(CkptRequest),
    /// The queue holds nothing more, or the sync deadline has passed.
    Empty,
    /// The queue is closed and drained.
    Closed,
    /// The operation asked for succeeded.
    Done,
    /// The operation asked for failed.
    Failed(String),
}

pub ghost enum EventView {
    Append { frame: Seq<u8>, ack: Option<u64> },
    Checkpoint(RequestView),
    Empty,
    Closed,
    Done,
    Failed(Seq<char>),
}

impl Event {
    pub open spec fn view(&self) -> EventView {
        match self {
            Event::Append { frame, ack } => EventView::Append { frame: frame@, ack: *ack },
            Event::Checkpoint(req) => EventView::Checkpoint(req@),
            Event::Empty => EventView::Empty,
            Event::Closed => EventView::Closed,
            Event::Done => EventView::Done,
            Event::Failed(e) => EventView::Failed(e@),
        }
    }
}

/// What to do next.
#[derive(Debug, PartialEq)]
pub enum Action {
    /// Wait for a command; with a deadline, no longer than until the log is due for a sync.
    Wait { deadline: bool },
    /// Take a command if one is queued.
    Poll,
    Write(Vec<u8>),
    Sync,
    CreateSegment(u64),
    Stop,
}

pub ghost enum ActionView {
    Wait { deadline: bool },
    Poll,
    Write(Seq<u8>),
    Sync,
    CreateSegment(u64),
    Stop,
}

impl Action {
    pub open spec fn view(&self) -> ActionView {
        match self {
            Action::Wait { deadline } => ActionView::Wait { deadline: *deadline },
            Action::Poll => ActionView::Poll,
            Action::Write(b) => ActionView::Write(b@),
            Action::Sync => ActionView::Sync,
            Action::CreateSegment(n) => ActionView::CreateSegment(*n),
            Action::Stop => ActionView::Stop,
        }
    }
}

/// An answer: success, or the text of the failure.
#[derive(Debug, PartialEq)]
pub struct Reply {
    pub ack: u64,
    pub error: Option<String>,
}

pub ghost struct ReplyView {
    pub ack: u64,
    pub error: Option<Seq<char>>,
}

impl Reply {
    pub open spec fn view(&self) -> ReplyView {
        ReplyView {
            ack: self.ack,
            error: match self.error {
                Some(e) => Some(e@),
                None => None,
            },
        }
    }
}

pub open spec fn replies_view(rs: Seq<Reply>) -> Seq<ReplyView> {
    rs.map_values(|r: Reply| r@)
}

/// The outcome of a step: answers to send, whether the next checkpoint may start, a checkpoint
/// to install, and what to do next.
#[derive(Debug, PartialEq)]
pub struct Outcome {
    pub replies: Vec<Reply>,
    pub clear_busy: bool,
    pub job: Option<CkptJob>,
    pub next: Action,
}

pub ghost struct OutcomeView {
    pub replies: Seq<ReplyView>,
    pub clear_busy: bool,
    pub job: Option<(RequestView, u64)>,
    pub next: ActionView,
}

impl Outcome {
    pub open spec fn view(&self) -> OutcomeView {
        OutcomeView {
            replies: replies_view(self.replies@),
            clear_busy: self.clear_busy,
            job: match self.job {
                Some(j) => Some(
                    (
                        RequestView {
                            version: j.version,
                            tx_counter: j.tx_counter,
                            format: j.format@,
                        },
                        j.first_segment,
                    ),
                ),
                None => None,
            },
            next: self.next@,
        }
    }
}

/// Where the writer stands.
pub enum Stage {
    /// Waiting for a command, with nothing pending.
    Parked,
    /// Taking what is queued.
    Draining,
    /// A checkpoint was asked for: the batch is being written,
    RotateWrite(CkptRequest),
    /// the segment is being synced,
    RotateSync(CkptRequest),
    /// the next segment is being created.
    RotateCreate(CkptRequest),
    /// The batch is being written.
    FlushWrite,
    /// The log is being synced.
    FlushSync,
    /// The queue is closed; the log is being synced a last time.
    LastSync,
    Stopped,
}

pub ghost enum StageView {
    Parked,
    Draining,
    RotateWrite(RequestView),
    RotateSync(RequestView),
    RotateCreate(RequestView),
    FlushWrite,
    FlushSync,
    LastSync,
    Stopped,
}

impl Stage {
    pub open spec fn view(&self) -> StageView {
        match self {
            Stage::Parked => StageView::Parked,
            Stage::Draining => StageView::Draining,
            Stage::RotateWrite(r) => StageView::RotateWrite(r@),
            Stage::RotateSync(r) => StageView::RotateSync(r@),
            Stage::RotateCreate(r) => StageView::RotateCreate(r@),
            Stage::FlushWrite => StageView::FlushWrite,
            Stage::FlushSync => StageView::FlushSync,
            Stage::LastSync => StageView::LastSync,
            Stage::Stopped => StageView::Stopped,
        }
    }
}

/// The writer's state.
pub struct Writer {
    pub policy: FsyncPolicy,
    /// The segment that is appended to.
    pub seq: u64,
    /// Whether bytes were written since the last sync.
    pub dirty: bool,
    /// A write or a sync failed; nothing can be promised any more.
    pub poisoned: bool,
    /// Frames that are taken and not written.
    pub batch: Vec<u8>,
    /// Acknowledgements that are owed.
    pub acks: Vec<u64>,
    pub stage: Stage,
}

pub ghost struct WriterView {
    pub policy: FsyncPolicy,
    pub seq: u64,
    pub dirty: bool,
    pub poisoned: bool,
    pub batch: Seq<u8>,
    pub acks: Seq<u64>,
    pub stage: StageView,
}

impl Writer {
    pub open spec fn view(&self) -> WriterView {
        WriterView {
            policy: self.policy,
            seq: self.seq,
            dirty: self.dirty,
            poisoned: self.poisoned,
            batch: self.batch@,
            acks: self.acks@,
            stage: self.stage@,
        }
    }
}

/// What holds of a writer between steps.
pub open spec fn writer_inv(w: WriterView) -> bool {
    &&& w.poisoned ==> w.acks.len() == 0 && w.batch.len() == 0 && !rotating(w.stage)
    &&& match w.stage {
        StageView::Parked => w.batch.len() == 0 && w.acks.len() == 0,
        StageView::Draining => true,
        StageView::RotateWrite(_) => w.batch.len() > 0,
        StageView::RotateSync(_) => w.batch.len() == 0 && w.dirty,
        StageView::RotateCreate(_) => w.batch.len() == 0 && !w.dirty,
        StageView::FlushWrite => w.batch.len() > 0,
        StageView::FlushSync => w.batch.len() == 0 && w.dirty && (w.policy != FsyncPolicy::Always
            ==> w.acks.len() == 0),
        StageView::LastSync => w.batch.len() == 0 && w.acks.len() == 0,
        StageView::Stopped => w.batch.len() == 0 && w.acks.len() == 0,
    }
}

/// Whether an event can follow what the writer asked for.
pub open spec fn expects(stage: StageView, e: EventView) -> bool {
    match stage {
        StageView::Parked => e is Append || e is Checkpoint || e is Empty || e is Closed,
        StageView::Draining => e is Append || e is Checkpoint || e is Empty,
        StageView::Stopped => false,
        _ => e is Done || e is Failed,
    }
}

pub open spec fn ok_replies(acks: Seq<u64>) -> Seq<ReplyView> {
    acks.map_values(|a: u64| ReplyView { ack: a, error: None })
}

pub open spec fn failed_replies(acks: Seq<u64>, text: Seq<char>) -> Seq<ReplyView> {
    acks.map_values(|a: u64| ReplyView { ack: a, error: Some(text) })
}

pub open spec fn quiet(next: ActionView) -> OutcomeView {
    OutcomeView { replies: seq![], clear_busy: false, job: None, next }
}

pub open spec fn wait_action(w: WriterView) -> ActionView {
    ActionView::Wait { deadline: w.policy == FsyncPolicy::Everysec && w.dirty }
}

pub open spec fn not_durable(e: Seq<char>) -> Seq<char> {
    NOT_DURABLE@ + ": "@ + e
}

/// A write or sync failed: the log is poisoned, every owed acknowledgement fails, the batch is
/// given up.
pub open spec fn poison_spec(w: WriterView, e: Seq<char>, clear_busy: bool) -> (
    WriterView,
    OutcomeView,
) {
    let n = WriterView {
        poisoned: true,
        batch: seq![],
        acks: seq![],
        stage: StageView::Parked,
        ..w
    };
    (
        n,
        OutcomeView {
            replies: failed_replies(w.acks, not_durable(e)),
            clear_busy,
            job: None,
            next: wait_action(n),
        },
    )
}

/// All that was taken is written: answer and sync as the policy says.
pub open spec fn settle_spec(w: WriterView, due: bool) -> (WriterView, OutcomeView) {
    if w.policy == FsyncPolicy::Always && w.dirty {
        (WriterView { stage: StageView::FlushSync, ..w }, quiet(ActionView::Sync))
    } else {
        let answered = WriterView { acks: seq![], ..w };
        let replies = ok_replies(w.acks);
        if w.policy == FsyncPolicy::Everysec && w.dirty && due {
            (
                WriterView { stage: StageView::FlushSync, ..answered },
                OutcomeView { replies, ..quiet(ActionView::Sync) },
            )
        } else {
            (
                WriterView { stage: StageView::Parked, ..answered },
                OutcomeView { replies, ..quiet(wait_action(w)) },
            )
        }
    }
}

/// A command is taken from the queue.
pub open spec fn take_spec(w: WriterView, e: EventView) -> (WriterView, OutcomeView) {
    let n = WriterView { stage: StageView::Draining, ..w };
    match e {
        EventView::Append { frame, ack } => if w.poisoned {
            (
                n,
                OutcomeView {
                    replies: match ack {
                        Some(a) => seq![ReplyView { ack: a, error: Some(NOT_DURABLE@) }],
                        None => seq![],
                    },
                    ..quiet(ActionView::Poll)
                },
            )
        } else {
            (
                WriterView {
                    batch: w.batch + frame,
                    acks: match ack {
                        Some(a) => w.acks.push(a),
                        None => w.acks,
                    },
                    ..n
                },
                quiet(ActionView::Poll),
            )
        },
        EventView::Checkpoint(req) => if w.poisoned {
            (n, OutcomeView { clear_busy: true, ..quiet(ActionView::Poll) })
        } else if w.batch.len() > 0 {
            (
                WriterView { stage: StageView::RotateWrite(req), ..w },
                quiet(ActionView::Write(w.batch)),
            )
        } else if w.dirty {
            (WriterView { stage: StageView::RotateSync(req), ..w }, quiet(ActionView::Sync))
        } else {
            (
                WriterView { stage: StageView::RotateCreate(req), ..w },
                quiet(ActionView::CreateSegment((w.seq + 1) as u64)),
            )
        },
        _ => (n, quiet(ActionView::Poll)),
    }
}

/// The operation that a stage asked for has ended.
pub open spec fn finish_spec(w: WriterView, e: EventView, due: bool) -> (WriterView, OutcomeView) {
    match w.stage {
        StageView::RotateWrite(req) => match e {
            EventView::Failed(t) => poison_spec(w, t, true),
            _ => (
                WriterView {
                    batch: seq![],
                    dirty: true,
                    stage: StageView::RotateSync(req),
                    ..w
                },
                quiet(ActionView::Sync),
            ),
        },
        StageView::RotateSync(req) => match e {
            EventView::Failed(t) => poison_spec(w, t, true),
            _ => (
                WriterView { dirty: false, stage: StageView::RotateCreate(req), ..w },
                quiet(ActionView::CreateSegment((w.seq + 1) as u64)),
            ),
        },
        StageView::RotateCreate(req) => match e {
            EventView::Failed(_) => (
                WriterView { stage: StageView::Draining, ..w },
                OutcomeView { clear_busy: true, ..quiet(ActionView::Poll) },
            ),
            _ => {
                let seq = (w.seq + 1) as u64;
                (
                    WriterView { seq, stage: StageView::Draining, ..w },
                    OutcomeView { job: Some((req, seq)), ..quiet(ActionView::Poll) },
                )
            },
        },
        StageView::FlushWrite => match e {
            EventView::Failed(t) => poison_spec(w, t, false),
            _ => settle_spec(WriterView { batch: seq![], dirty: true, ..w }, due),
        },
        StageView::FlushSync => match e {
            EventView::Failed(t) => poison_spec(w, t, false),
            _ => {
                let n = WriterView {
                    dirty: false,
                    acks: seq![],
                    stage: StageView::Parked,
                    ..w
                };
                (n, OutcomeView { replies: ok_replies(w.acks), ..quiet(wait_action(n)) })
            },
        },
        _ => (WriterView { stage: StageView::Stopped, ..w }, quiet(ActionView::Stop)),
    }
}

/// The step of the writer. `due` says whether the last sync is a sync interval ago.
pub open spec fn step_spec(w: WriterView, e: EventView, due: bool) -> (WriterView, OutcomeView) {
    match w.stage {
        StageView::Parked => match e {
            EventView::Closed => if w.dirty {
                (WriterView { stage: StageView::LastSync, ..w }, quiet(ActionView::Sync))
            } else {
                (WriterView { stage: StageView::Stopped, ..w }, quiet(ActionView::Stop))
            },
            _ => take_spec(w, e),
        },
        StageView::Draining => match e {
            EventView::Empty => if w.batch.len() > 0 {
                (
                    WriterView { stage: StageView::FlushWrite, ..w },
                    quiet(ActionView::Write(w.batch)),
                )
            } else {
                settle_spec(w, due)
            },
            _ => take_spec(w, e),
        },
        _ => finish_spec(w, e, due),
    }
}

fn no_replies() -> (r: Vec<Reply>)
    ensures
        replies_view(r@) == Seq::<ReplyView>::empty(),
{
    let r: Vec<Reply> = Vec::new();
    assert(replies_view(r@) =~= Seq::<ReplyView>::empty());
    r
}

fn proceed(next: Action) -> (r: Outcome)
    ensures
        r@ == quiet(next@),
{
    Outcome { replies: no_replies(), clear_busy: false, job: None, next }
}

/// A copy of a batch.
fn copy_bytes(b: &Vec<u8>) -> (r: Vec<u8>)
    ensures
        r@ == b@,
{
    vstd::slice::slice_to_vec(b.as_slice())
}

impl Writer {
    /// A writer that appends to a segment, with the first thing to do.
    pub fn start(policy: FsyncPolicy, seq: u64) -> (r: (Writer, Action))
        ensures
            r.0@ == (WriterView {
                policy,
                seq,
                dirty: false,
                poisoned: false,
                batch: seq![],
                acks: seq![],
                stage: StageView::Parked,
            }),
            writer_inv(r.0@),
            r.1@ == (ActionView::Wait { deadline: false }),
    {
        let w = Writer {
            policy,
            seq,
            dirty: false,
            poisoned: false,
            batch: Vec::new(),
            acks: Vec::new(),
            stage: Stage::Parked,
        };
        assert(w@.batch =~= seq![]);
        assert(w@.acks =~= seq![]);
        (w, Action::Wait { deadline: false })
    }

    fn wait(&self) -> (r: Action)
        ensures
            r@ == wait_action(self@),
    {
        Action::Wait {
            deadline: match self.policy {
                FsyncPolicy::Everysec => self.dirty,
                _ => false,
            },
        }
    }

    /// Answers every owed acknowledgement.
    fn answer(&mut self, error: Option<&String>) -> (r: Vec<Reply>)
        ensures
            final(self)@ == (WriterView { acks: seq![], ..old(self)@ }),
            replies_view(r@) == (match error {
                Some(e) => failed_replies(old(self)@.acks, e@),
                None => ok_replies(old(self)@.acks),
            }),
    {
        let mut r: Vec<Reply> = Vec::new();
        let mut i: usize = 0;
        let ghost want = match error {
            Some(e) => failed_replies(self@.acks, e@),
            None => ok_replies(self@.acks),
        };
        while i < self.acks.len()
            invariant
                0 <= i <= self.acks@.len(),
                *self == *old(self),
                want == (match error {
                    Some(e) => failed_replies(self@.acks, e@),
                    None => ok_replies(self@.acks),
                }),
                replies_view(r@) == want.take(i as int),
            decreases self.acks@.len() - i,
        {
            let ghost before = r@;
            let text = match error {
                Some(e) => Some(e.clone()),
                None => None,
            };
            r.push(Reply { ack: self.acks[i], error: text });
            i = i + 1;
            assert(replies_view(r@) =~= replies_view(before).push(want[i - 1]));
            assert(replies_view(r@) =~= want.take(i as int));
        }
        assert(want.take(i as int) =~= want);
        self.acks = Vec::new();
        assert(self@.acks =~= seq![]);
        r
    }

    fn poison(&mut self, e: &String, clear_busy: bool) -> (r: Outcome)
        ensures
            (final(self)@, r@) == poison_spec(old(self)@, e@, clear_busy),
    {
        self.poisoned = true;
        self.batch = Vec::new();
        assert(self@.batch =~= seq![]);
        let mut text = concat(NOT_DURABLE, ": ");
        text.append(e.as_str());
        let replies = self.answer(Some(&text));
        self.stage = Stage::Parked;
        let next = self.wait();
        Outcome { replies, clear_busy, job: None, next }
    }

    fn settle(&mut self, sync_due: bool) -> (r: Outcome)
        ensures
            (final(self)@, r@) == settle_spec(old(self)@, sync_due),
    {
        match self.policy {
            FsyncPolicy::Always => {
                if self.dirty {
                    self.stage = Stage::FlushSync;
                    return proceed(Action::Sync);
                }
                let replies = self.answer(None);
                self.stage = Stage::Parked;
                let next = self.wait();
                Outcome { replies, clear_busy: false, job: None, next }
            },
            FsyncPolicy::Everysec => {
                let replies = self.answer(None);
                if self.dirty && sync_due {
                    self.stage = Stage::FlushSync;
                    return Outcome { replies, clear_busy: false, job: None, next: Action::Sync };
                }
                self.stage = Stage::Parked;
                let next = self.wait();
                Outcome { replies, clear_busy: false, job: None, next }
            },
            FsyncPolicy::No => {
                let replies = self.answer(None);
                self.stage = Stage::Parked;
                let next = self.wait();
                Outcome { replies, clear_busy: false, job: None, next }
            },
        }
    }

    fn take(&mut self, event: Event) -> (r: Outcome)
        requires
            old(self).seq < u64::MAX,
        ensures
            (final(self)@, r@) == take_spec(old(self)@, event@),
    {
        match event {
            Event::Append { frame, ack } => {
                self.stage = Stage::Draining;
                if self.poisoned {
                    let mut replies = no_replies();
                    if let Some(a) = ack {
                        replies.push(Reply { ack: a, error: Some(NOT_DURABLE.to_owned()) });
                        assert(replies_view(replies@) =~= seq![
                            ReplyView { ack: a, error: Some(NOT_DURABLE@) },
                        ]);
                    }
                    return Outcome { replies, clear_busy: false, job: None, next: Action::Poll };
                }
                self.batch.extend_from_slice(frame.as_slice());
                assert(self@.batch =~= old(self)@.batch + frame@);
                if let Some(a) = ack {
                    self.acks.push(a);
                }
                proceed(Action::Poll)
            },
            Event::Checkpoint(req) => {
                if self.poisoned {
                    self.stage = Stage::Draining;
                    return Outcome {
                        replies: no_replies(),
                        clear_busy: true,
                        job: None,
                        next: Action::Poll,
                    };
                }
                if self.batch.len() > 0 {
                    self.stage = Stage::RotateWrite(req);
                    proceed(Action::Write(copy_bytes(&self.batch)))
                } else if self.dirty {
                    self.stage = Stage::RotateSync(req);
                    proceed(Action::Sync)
                } else {
                    self.stage = Stage::RotateCreate(req);
                    proceed(Action::CreateSegment(self.seq + 1))
                }
            },
            _ => {
                self.stage = Stage::Draining;
                proceed(Action::Poll)
            },
        }
    }

    fn finish(&mut self, event: Event, sync_due: bool) -> (r: Outcome)
        requires
            old(self).seq < u64::MAX,
            expects(old(self)@.stage, event@),
            !(old(self)@.stage is Parked),
            !(old(self)@.stage is Draining),
        ensures
            (final(self)@, r@) == finish_spec(old(self)@, event@, sync_due),
    {
        let mut stage = Stage::Stopped;
        std::mem::swap(&mut stage, &mut self.stage);
        match stage {
            Stage::RotateWrite(req) => match event {
                Event::Failed(e) => self.poison(&e, true),
                _ => {
                    self.batch = Vec::new();
                    assert(self@.batch =~= seq![]);
                    self.dirty = true;
                    self.stage = Stage::RotateSync(req);
                    proceed(Action::Sync)
                },
            },
            Stage::RotateSync(req) => match event {
                Event::Failed(e) => self.poison(&e, true),
                _ => {
                    self.dirty = false;
                    self.stage = Stage::RotateCreate(req);
                    proceed(Action::CreateSegment(self.seq + 1))
                },
            },
            Stage::RotateCreate(req) => {
                self.stage = Stage::Draining;
                match event {
                    Event::Failed(_) => Outcome {
                        replies: no_replies(),
                        clear_busy: true,
                        job: None,
                        next: Action::Poll,
                    },
                    _ => {
                        self.seq = self.seq + 1;
                        let job = CkptJob {
                            version: req.version,
                            tx_counter: req.tx_counter,
                            format: req.format,
                            first_segment: self.seq,
                        };
                        Outcome {
                            replies: no_replies(),
                            clear_busy: false,
                            job: Some(job),
                            next: Action::Poll,
                        }
                    },
                }
            },
            Stage::FlushWrite => match event {
                Event::Failed(e) => self.poison(&e, false),
                _ => {
                    self.batch = Vec::new();
                    assert(self@.batch =~= seq![]);
                    self.dirty = true;
                    self.stage = Stage::FlushWrite;
                    self.settle(sync_due)
                },
            },
            Stage::FlushSync => match event {
                Event::Failed(e) => self.poison(&e, false),
                _ => {
                    self.dirty = false;
                    let replies = self.answer(None);
                    self.stage = Stage::Parked;
                    let next = self.wait();
                    Outcome { replies, clear_busy: false, job: None, next }
                },
            },
            _ => {
                self.stage = Stage::Stopped;
                proceed(Action::Stop)
            },
        }
    }

    /// Takes one step. `sync_due` says whether the last sync is a sync interval ago.
    pub fn step(&mut self, event: Event, sync_due: bool) -> (r: Outcome)
        requires
            writer_inv(old(self)@),
            expects(old(self)@.stage, event@),
            old(self).seq < u64::MAX,
        ensures
            (final(self)@, r@) == step_spec(old(self)@, event@, sync_due),
            writer_inv(final(self)@),
    {
        proof {
            step_keeps_inv(self@, event@, sync_due);
        }
        match self.stage {
            Stage::Parked => match event {
                Event::Closed => if self.dirty {
                    self.stage = Stage::LastSync;
                    proceed(Action::Sync)
                } else {
                    self.stage = Stage::Stopped;
                    proceed(Action::Stop)
                },
                _ => self.take(event),
            },
            Stage::Draining => match event {
                Event::Empty => if self.batch.len() > 0 {
                    self.stage = Stage::FlushWrite;
                    proceed(Action::Write(copy_bytes(&self.batch)))
                } else {
                    self.settle(sync_due)
                },
                _ => self.take(event),
            },
            _ => self.finish(event, sync_due),
        }
    }
}

/// Every step keeps the writer's invariant.
pub proof fn step_keeps_inv(w: WriterView, e: EventView, due: bool)
    requires
        writer_inv(w),
        expects(w.stage, e),
    ensures
        writer_inv(step_spec(w, e, due).0),
{
    let n = step_spec(w, e, due).0;
    assert(w.batch.len() == 0 ==> w.batch =~= seq![]);
    assert(w.acks.len() == 0 ==> w.acks =~= seq![]);
}

/// The acknowledgements that the answers of a step are for.
pub open spec fn answered(o: OutcomeView) -> Seq<u64> {
    o.replies.map_values(|r: ReplyView| r.ack)
}

/// The acknowledgement that an event brings.
pub open spec fn brought(e: EventView) -> Seq<u64> {
    match e {
        EventView::Append { ack: Some(a), .. } => seq![a],
        _ => seq![],
    }
}

/// Every acknowledgement is answered exactly once, in the order in which it came: those answered
/// by a step and those still owed after it are those owed before and the one just brought.
pub proof fn every_ack_is_answered_once(w: WriterView, e: EventView, due: bool)
    requires
        writer_inv(w),
        expects(w.stage, e),
    ensures
        ({
            let (n, o) = step_spec(w, e, due);
            answered(o) + n.acks == w.acks + brought(e)
        }),
{
    let (n, o) = step_spec(w, e, due);
    assert(w.acks.len() == 0 ==> w.acks =~= seq![]);
    assert(answered(o) + n.acks =~= w.acks + brought(e));
}

/// The bytes that a completed step put on disk.
pub open spec fn written(w: WriterView, e: EventView) -> Seq<u8> {
    match w.stage {
        StageView::RotateWrite(_) => if e is Done {
            w.batch
        } else {
            seq![]
        },
        StageView::FlushWrite => if e is Done {
            w.batch
        } else {
            seq![]
        },
        _ => seq![],
    }
}

/// The frame that an event brings.
pub open spec fn arriving(e: EventView) -> Seq<u8> {
    match e {
        EventView::Append { frame, .. } => frame,
        _ => seq![],
    }
}

/// As long as nothing fails, frames reach the disk whole and in the order in which they came: the
/// bytes written by a step and those still in the batch are those that were in the batch and those
/// just brought. What is asked to be written is always the whole batch.
pub proof fn frames_are_written_in_order(w: WriterView, e: EventView, due: bool)
    requires
        writer_inv(w),
        expects(w.stage, e),
        !step_spec(w, e, due).0.poisoned,
    ensures
        ({
            let (n, o) = step_spec(w, e, due);
            &&& written(w, e) + n.batch == w.batch + arriving(e)
            &&& o.next matches ActionView::Write(b) ==> b == n.batch
        }),
{
    let (n, o) = step_spec(w, e, due);
    assert(w.batch.len() == 0 ==> w.batch =~= seq![]);
    assert(written(w, e) + n.batch =~= w.batch + arriving(e));
}

/// A transaction is told that it succeeded only once all that was taken before is written, on a
/// log that is not poisoned; and under `Always` only once it is synced.
pub proof fn success_means_recorded(w: WriterView, e: EventView, due: bool, i: int)
    requires
        writer_inv(w),
        expects(w.stage, e),
        0 <= i < step_spec(w, e, due).1.replies.len(),
        step_spec(w, e, due).1.replies[i].error is None,
    ensures
        ({
            let n = step_spec(w, e, due).0;
            &&& n.batch.len() == 0
            &&& !n.poisoned
            &&& w.policy == FsyncPolicy::Always ==> !n.dirty
        }),
{
    let (n, o) = step_spec(w, e, due);
    if w.poisoned {
        assert(w.acks.len() == 0);
    }
}

/// A failed write or sync fails every acknowledgement that is owed, with the reason, and poisons
/// the log. A segment that could not be created only gives the checkpoint up.
pub proof fn failure_is_answered(w: WriterView, t: Seq<char>, due: bool)
    requires
        writer_inv(w),
        expects(w.stage, EventView::Failed(t)),
        !(w.stage is LastSync),
    ensures
        ({
            let (n, o) = step_spec(w, EventView::Failed(t), due);
            if w.stage is RotateCreate {
                o.clear_busy && n.poisoned == w.poisoned && n.acks == w.acks && n.seq == w.seq
            } else {
                n.poisoned && o.replies == failed_replies(w.acks, not_durable(t)) && n.acks
                    == Seq::<u64>::empty()
            }
        }),
{
}

/// A poisoned log stays poisoned, writes nothing more, and refuses every record.
pub proof fn poison_is_final(w: WriterView, e: EventView, due: bool)
    requires
        writer_inv(w),
        expects(w.stage, e),
        w.poisoned,
    ensures
        ({
            let (n, o) = step_spec(w, e, due);
            &&& n.poisoned
            &&& !(o.next is Write)
            &&& o.job is None
            &&& n.seq == w.seq
            &&& w.stage is Parked || w.stage is Draining ==> (e matches EventView::Append {
                ack: Some(a),
                ..
            } ==> o.replies == seq![ReplyView { ack: a, error: Some(NOT_DURABLE@) }])
        }),
{
    assert(w.acks =~= seq![]);
}

/// A segment is left only when all that belongs to it is written and synced: what came before a
/// checkpoint request lands in the old segment, what comes after in the new one.
pub proof fn rotation_leaves_a_clean_segment(w: WriterView, e: EventView, due: bool)
    requires
        writer_inv(w),
        expects(w.stage, e),
    ensures
        ({
            let (n, o) = step_spec(w, e, due);
            &&& o.next matches ActionView::CreateSegment(seq) ==> !n.dirty && n.batch.len() == 0
                && seq == (n.seq + 1) as u64
            &&& n.seq != w.seq ==> w.stage is RotateCreate && e is Done && (o.job matches Some(
                (_, first),
            ) && first == n.seq)
        }),
{
}

/// Whether a checkpoint request is being carried out.
pub open spec fn rotating(stage: StageView) -> bool {
    stage is RotateWrite || stage is RotateSync || stage is RotateCreate
}

/// A checkpoint request ends in exactly one way: it is handed on to be installed, or the log is
/// free to take the next one.
pub proof fn checkpoint_request_ends_once(w: WriterView, e: EventView, due: bool)
    requires
        writer_inv(w),
        expects(w.stage, e),
    ensures
        ({
            let (n, o) = step_spec(w, e, due);
            &&& !(o.clear_busy && o.job is Some)
            &&& (rotating(w.stage) || e is Checkpoint) ==> (rotating(n.stage) != (o.clear_busy
                || o.job is Some))
            &&& !(rotating(w.stage) || e is Checkpoint) ==> !o.clear_busy && o.job is None
                && !rotating(n.stage)
        }),
{
}

/// What the engine sees of the log.
pub struct Wal {
    pub policy: FsyncPolicy,
    pub poisoned: bool,
    /// A checkpoint is being written.
    pub ckpt_busy: bool,
}

/// What becomes of a record that is handed to the log.
pub enum Appended {
    /// The log is poisoned: the client is answered this.
    Refused(String),
    /// The frame goes to the writer.
    Queued(Vec<u8>),
}

impl Wal {
    /// A log that was just opened.
    pub fn open(policy: FsyncPolicy) -> (r: Wal)
        ensures
            r == (Wal { policy, poisoned: false, ckpt_busy: false }),
    {
        Wal { policy, poisoned: false, ckpt_busy: false }
    }

    /// Whether an acknowledgement means that the record is on disk.
    pub fn acks_mean_durable(&self) -> (r: bool)
        ensures
            r == (self.policy == FsyncPolicy::Always),
    {
        match self.policy {
            FsyncPolicy::Always => true,
            _ => false,
        }
    }

    /// Whether a write or a sync has failed.
    pub fn poisoned(&self) -> (r: bool)
        ensures
            r == self.poisoned,
    {
        self.poisoned
    }

    /// Frames a record for the writer; a poisoned log refuses it.
    pub fn append(&self, rec: &Rec) -> (r: Appended)
        requires
            id_fits(rec@),
            payload(rec@).len() <= u32::MAX,
        ensures
            match r {
                Appended::Refused(text) => self.poisoned && text@ == NOT_DURABLE@,
                Appended::Queued(bytes) => !self.poisoned && bytes@ == frame_bytes(rec@),
            },
    {
        if self.poisoned {
            return Appended::Refused(NOT_DURABLE.to_owned());
        }
        Appended::Queued(frame(rec))
    }

    /// Asks for a checkpoint. It is skipped while one is being written, on a poisoned log, and
    /// when the writer is gone; `connected` says whether it is there.
    pub fn checkpoint(&mut self, connected: bool) -> (r: bool)
        ensures
            r == (!old(self).ckpt_busy && !old(self).poisoned && connected),
            final(self).ckpt_busy == (old(self).ckpt_busy || r),
            final(self).policy == old(self).policy,
            final(self).poisoned == old(self).poisoned,
    {
        if self.ckpt_busy || self.poisoned || !connected {
            return false;
        }
        self.ckpt_busy = true;
        true
    }

    /// Lets the next checkpoint start, once one is installed or given up.
    pub fn checkpoint_done(&mut self)
        ensures
            *final(self) == (Wal { ckpt_busy: false, ..*old(self) }),
    {
        self.ckpt_busy = false;
    }
}

} // verus!
