//! The storage-facing part of the application state: the queue of
//! user-facing notices that continuations post, the single notice the
//! status bar has on display, and the status of each storage operation in
//! flight.
//!
//! # Notices
//!
//! A continuation runs far away from any dialog, so it posts a [`Notice`]
//! ([`AppState::notify`]). Once per frame [`AppState::pump_notices`]
//! drains the queue and picks the message for the one display slot:
//!
//! - within a drained batch the highest severity wins, and the newest
//!   among equals;
//! - a quieter notice never displaces a louder one still on display; only
//!   [`AppState::dismiss_notice`] clears the slot for anything.
//!
//! The queue drops a message identical to the one at its tail, and never
//! holds more than [`NOTICE_CAP`] messages: past the cap the oldest go.
//!
//! # Loud and quiet operations
//!
//! Work the user asked for by name is *loud*: it shows in the status bar's
//! activity readout and counts as "storage is busy". Background work
//! (thumbnail reads, directory listings) is *quiet* and is left out of
//! both. Every operation, quiet or loud, stays on one queue in submission
//! order.
use vstd::prelude::*;

use crate::decimal::{decimal, push_digits};
use crate::text::{push_chars, str_eq};

verus! {

broadcast use vstd::string::group_string_axioms;

/// Hard cap on the undrained notice queue. A headless embedder that never
/// pumps would otherwise grow it without bound; past the cap the oldest
/// messages are dropped, because the newest are the ones worth showing.
pub const NOTICE_CAP: usize = 100;

/// How prominently a [`Notice`] should be shown.
#[derive(Clone, Copy, Debug, PartialEq, Eq, Structural)]
pub enum NoticeLevel {
    /// Progress / confirmation text.
    Info,
    /// Nothing failed, but the result is not quite what was asked for.
    Warning,
    /// Something failed and the user needs to know.
    Error,
}

impl NoticeLevel {
    /// Severity order: `Info < Warning < Error`.
    pub open spec fn severity(self) -> nat {
        match self {
            NoticeLevel::Info => 0,
            NoticeLevel::Warning => 1,
            NoticeLevel::Error => 2,
        }
    }

    fn rank(self) -> (r: u8)
        ensures
            r == self.severity(),
    {
        match self {
            NoticeLevel::Info => 0,
            NoticeLevel::Warning => 1,
            NoticeLevel::Error => 2,
        }
    }
}

/// A user-facing message produced by a storage continuation.
#[derive(Clone, Debug, PartialEq, Eq)]
pub struct Notice {
    pub level: NoticeLevel,
    pub text: String,
}

/// The mathematical content of a [`Notice`].
pub struct NoticeView {
    pub level: NoticeLevel,
    pub text: Seq<char>,
}

impl View for Notice {
    type V = NoticeView;

    open spec fn view(&self) -> NoticeView {
        NoticeView { level: self.level, text: self.text@ }
    }
}

impl Notice {
    /// An exact copy.
    pub fn duplicate(&self) -> (r: Notice)
        ensures
            r@ == self@,
    {
        Notice { level: self.level, text: self.text.clone() }
    }
}

/// The views of a queue of notices.
pub open spec fn notices_view(q: Seq<Notice>) -> Seq<NoticeView> {
    q.map_values(|n: Notice| n@)
}

/// The queue after posting `n`: unchanged when `n` repeats the tail,
/// otherwise `n` appended after dropping the oldest messages beyond
/// [`NOTICE_CAP`].
pub open spec fn posted(q: Seq<NoticeView>, n: NoticeView) -> Seq<NoticeView> {
    if q.len() > 0 && q.last() == n {
        q
    } else if q.len() >= NOTICE_CAP {
        q.skip(q.len() + 1 - NOTICE_CAP).push(n)
    } else {
        q.push(n)
    }
}

/// Index of the notice a batch puts on display: the highest severity,
/// and the newest among equals.
pub open spec fn winner_index(b: Seq<NoticeView>) -> int
    decreases b.len(),
{
    if b.len() <= 1 {
        0
    } else {
        let j = winner_index(b.drop_last());
        if b.last().level.severity() >= b[j].level.severity() {
            b.len() - 1
        } else {
            j
        }
    }
}

/// The display slot after a batch is drained: the batch's winner, unless
/// the slot already shows something louder.
pub open spec fn slot_after(shown: Option<NoticeView>, b: Seq<NoticeView>) -> Option<NoticeView> {
    if b.len() == 0 {
        shown
    } else {
        let w = b[winner_index(b)];
        match shown {
            Some(s) => if s.level.severity() > w.level.severity() {
                shown
            } else {
                Some(w)
            },
            None => Some(w),
        }
    }
}

/// Where a storage operation's job stands.
#[derive(Clone, Copy, Debug, PartialEq, Eq, Structural)]
pub enum OpProgress {
    /// Still running; `percent` is the provider's progress report, when
    /// it makes one.
    Pending { percent: Option<u8> },
    /// The job has settled and its continuation is due.
    Settled,
}

/// What the state knows of one queued storage operation.
#[derive(Clone, Debug, PartialEq, Eq)]
pub struct PendingOpStatus {
    /// Short user-facing label, e.g. `Opening bracket.atmr`.
    pub label: String,
    /// Background work the user did not ask for by name.
    pub quiet: bool,
    pub progress: OpProgress,
}

/// The mathematical content of a [`PendingOpStatus`].
pub struct OpView {
    pub label: Seq<char>,
    pub quiet: bool,
    pub progress: OpProgress,
}

impl View for PendingOpStatus {
    type V = OpView;

    open spec fn view(&self) -> OpView {
        OpView { label: self.label@, quiet: self.quiet, progress: self.progress }
    }
}

impl PendingOpStatus {
    /// An exact copy.
    pub fn duplicate(&self) -> (r: PendingOpStatus)
        ensures
            r@ == self@,
    {
        PendingOpStatus { label: self.label.clone(), quiet: self.quiet, progress: self.progress }
    }
}

/// The views of a queue of operations.
pub open spec fn ops_view(q: Seq<PendingOpStatus>) -> Seq<OpView> {
    q.map_values(|o: PendingOpStatus| o@)
}

/// Which operations a view of the queue keeps.
pub enum OpFilter {
    /// Those the user asked for by name.
    Loud,
    /// Those whose job has settled.
    Settled,
    /// Those still running.
    Running,
}

/// Whether `filter` keeps `o`.
pub open spec fn keeps(filter: OpFilter, o: OpView) -> bool {
    match filter {
        OpFilter::Loud => !o.quiet,
        OpFilter::Settled => o.progress is Settled,
        OpFilter::Running => o.progress is Pending,
    }
}

/// The operations of `ops` that `filter` keeps, in queue order.
pub open spec fn select(ops: Seq<OpView>, filter: OpFilter) -> Seq<OpView>
    decreases ops.len(),
{
    if ops.len() == 0 {
        Seq::empty()
    } else {
        let rest = select(ops.drop_last(), filter);
        if keeps(filter, ops.last()) {
            rest.push(ops.last())
        } else {
            rest
        }
    }
}

/// The operations the user asked for by name, in queue order.
pub open spec fn loud_ops(ops: Seq<OpView>) -> Seq<OpView> {
    select(ops, OpFilter::Loud)
}

/// The progress the readout shows for an operation: what its provider
/// reports while it is pending; a settled one shows none.
pub open spec fn shown_percent(p: OpProgress) -> Option<u8> {
    match p {
        OpProgress::Pending { percent } => percent,
        OpProgress::Settled => None,
    }
}

/// Whether a loud operation needs frames on its own: it reports progress,
/// or it has settled (the frame it earns is the one that applies it).
pub open spec fn reports_progress(o: OpView) -> bool {
    !o.quiet && match o.progress {
        OpProgress::Pending { percent } => percent is Some,
        OpProgress::Settled => true,
    }
}

/// The status bar's storage readout over a queue: the first loud
/// operation's label and `…`, its progress as ` N%` when it has any, and
/// ` (+K more)` for the loud operations behind it.
pub open spec fn activity_text(ops: Seq<OpView>) -> Option<Seq<char>> {
    let l = loud_ops(ops);
    if l.len() == 0 {
        None
    } else {
        let head = l[0].label.push('\u{2026}');
        let with_progress = match shown_percent(l[0].progress) {
            Some(p) => head.push(' ') + decimal(p as int).push('%'),
            None => head,
        };
        Some(
            if l.len() > 1 {
                with_progress + seq![' ', '(', '+'] + decimal(l.len() - 1) + seq![
                    ' ',
                    'm',
                    'o',
                    'r',
                    'e',
                    ')',
                ]
            } else {
                with_progress
            },
        )
    }
}

/// What the frame loop owes the window after a pump.
#[derive(Clone, Copy, Debug, PartialEq, Eq, Structural)]
pub enum FrameRequest {
    /// Nothing: the loop may sleep until something else wakes it.
    Nothing,
    /// A full draw: content changed.
    Draw,
    /// Another frame without invalidating content, for a readout that
    /// advances on its own.
    KeepAlive,
}

/// What a left click on the status bar's storage segment does.
#[derive(Clone, Copy, Debug, PartialEq, Eq, Structural)]
pub enum StatusClick {
    /// Cancel everything in flight (the caller cancels the jobs).
    CancelOps,
    /// The displayed notice was dismissed.
    DismissNotice,
    /// Not the bar's: the click falls through.
    Ignored,
}

/// The storage-facing part of the application state.
pub struct AppState {
    notices: Vec<Notice>,
    shown: Option<Notice>,
    ops: Vec<PendingOpStatus>,
}

/// The mathematical content of an [`AppState`].
pub struct AppStateView {
    /// Undrained notices, oldest first.
    pub notices: Seq<NoticeView>,
    /// The notice on display.
    pub shown: Option<NoticeView>,
    /// Queued operations, in submission order.
    pub ops: Seq<OpView>,
}

impl View for AppState {
    type V = AppStateView;

    closed spec fn view(&self) -> AppStateView {
        AppStateView {
            notices: notices_view(self.notices@),
            shown: match self.shown {
                Some(n) => Some(n@),
                None => None,
            },
            ops: ops_view(self.ops@),
        }
    }
}

impl AppState {
    /// A fresh state: no notices, nothing on display.
    pub fn new() -> (s: AppState)
        ensures
            s@.notices == Seq::<NoticeView>::empty(),
            s@.shown == None::<NoticeView>,
            s@.ops == Seq::<OpView>::empty(),
    {
        let s = AppState { notices: Vec::new(), shown: None, ops: Vec::new() };
        assert(notices_view(s.notices@) =~= Seq::<NoticeView>::empty());
        assert(ops_view(s.ops@) =~= Seq::<OpView>::empty());
        s
    }

    /// Post a message for the UI to show on its next paint. A message
    /// identical (same level, same text) to the one at the tail of the
    /// queue is not enqueued again; past [`NOTICE_CAP`] the oldest
    /// messages are dropped.
    pub fn notify(&mut self, level: NoticeLevel, text: String)
        ensures
            final(self)@.notices == posted(old(self)@.notices, NoticeView { level, text: text@ }),
            final(self)@.shown == old(self)@.shown,
            final(self)@.ops == old(self)@.ops,
    {
        let ghost q0 = notices_view(self.notices@);
        let ghost n = NoticeView { level, text: text@ };
        let len = self.notices.len();
        if len > 0 {
            let last = &self.notices[len - 1];
            if last.level == level && str_eq(last.text.as_str(), text.as_str()) {
                assert(q0.last() == n);
                return;
            }
            assert(q0.last() == self.notices@[len - 1]@);
        }
        let ghost mut removed: int = 0;
        let ghost shown0 = self.shown;
        let ghost ops0 = self.ops@;
        while self.notices.len() >= NOTICE_CAP
            invariant
                self.shown == shown0,
                self.ops@ == ops0,
                0 <= removed <= q0.len(),
                self.notices@.len() == q0.len() - removed,
                notices_view(self.notices@) == q0.skip(removed),
                q0.len() >= NOTICE_CAP ==> removed <= q0.len() + 1 - NOTICE_CAP,
                q0.len() < NOTICE_CAP ==> removed == 0,
            decreases self.notices.len(),
        {
            let ghost before = self.notices@;
            self.notices.remove(0);
            proof {
                assert(self.notices@ =~= before.skip(1));
                assert(notices_view(self.notices@) =~= notices_view(before).skip(1));
                assert(q0.skip(removed).skip(1) =~= q0.skip(removed + 1));
                removed = removed + 1;
            }
        }
        let ghost mid = self.notices@;
        self.notices.push(Notice { level, text });
        proof {
            assert(notices_view(self.notices@) =~= notices_view(mid).push(n));
            if q0.len() >= NOTICE_CAP {
                assert(removed == q0.len() + 1 - NOTICE_CAP);
            }
        }
    }

    /// Take every queued message, oldest first, leaving the queue empty.
    pub fn drain_notices(&mut self) -> (drained: Vec<Notice>)
        ensures
            notices_view(drained@) == old(self)@.notices,
            final(self)@.notices == Seq::<NoticeView>::empty(),
            final(self)@.shown == old(self)@.shown,
            final(self)@.ops == old(self)@.ops,
    {
        let mut drained: Vec<Notice> = Vec::new();
        std::mem::swap(&mut drained, &mut self.notices);
        assert(notices_view(self.notices@) =~= Seq::<NoticeView>::empty());
        drained
    }

    /// Put the winner of a drained batch on display, unless the slot
    /// already shows something louder.
    pub fn display_batch(&mut self, batch: &[Notice])
        ensures
            final(self)@.shown == slot_after(old(self)@.shown, notices_view(batch@)),
            final(self)@.notices == old(self)@.notices,
            final(self)@.ops == old(self)@.ops,
    {
        if batch.len() == 0 {
            return;
        }
        let w = winner_of(batch);
        let winner = &batch[w];
        let louder_shown = match &self.shown {
            Some(s) => s.level.rank() > winner.level.rank(),
            None => false,
        };
        if !louder_shown {
            self.shown = Some(winner.duplicate());
        }
    }

    /// Drain the notice queue into the display slot; returns how many
    /// messages were drained.
    pub fn pump_notices(&mut self) -> (r: usize)
        ensures
            r == old(self)@.notices.len(),
            final(self)@.notices == Seq::<NoticeView>::empty(),
            final(self)@.shown == slot_after(old(self)@.shown, old(self)@.notices),
            final(self)@.ops == old(self)@.ops,
    {
        let drained = self.drain_notices();
        self.display_batch(drained.as_slice());
        drained.len()
    }

    /// The message currently on display, if any.
    pub fn last_notice(&self) -> (r: Option<Notice>)
        ensures
            r matches Some(n) ==> self@.shown == Some(n@),
            r is None <==> self@.shown is None,
    {
        match &self.shown {
            Some(n) => Some(n.duplicate()),
            None => None,
        }
    }

    /// Clear the displayed message.
    pub fn dismiss_notice(&mut self)
        ensures
            final(self)@.shown == None::<NoticeView>,
            final(self)@.notices == old(self)@.notices,
            final(self)@.ops == old(self)@.ops,
    {
        self.shown = None;
    }

    /// Refuse a file action while loud storage work is queued, telling
    /// the user why: `true` (and an info notice) when storage is busy.
    pub fn storage_busy(&mut self) -> (r: bool)
        ensures
            r == (loud_ops(old(self)@.ops).len() > 0),
            r ==> final(self)@.notices == posted(
                old(self)@.notices,
                NoticeView { level: NoticeLevel::Info, text: "Storage is busy \u{2014} try again in a moment."@ },
            ),
            !r ==> final(self)@.notices == old(self)@.notices,
            final(self)@.shown == old(self)@.shown,
            final(self)@.ops == old(self)@.ops,
    {
        if self.pending_op_count() == 0 {
            return false;
        }
        self.notify(NoticeLevel::Info, "Storage is busy \u{2014} try again in a moment.".to_string());
        true
    }

    /// Park an operation whose job is still running at the back of the
    /// queue.
    pub fn queue_op(&mut self, op: PendingOpStatus)
        ensures
            final(self)@.ops == old(self)@.ops.push(op@),
            final(self)@.notices == old(self)@.notices,
            final(self)@.shown == old(self)@.shown,
    {
        let ghost q0 = self.ops@;
        self.ops.push(op);
        assert(ops_view(self.ops@) =~= ops_view(q0).push(op@));
    }

    /// Record a fresh poll of the operation at `index`.
    pub fn set_op_progress(&mut self, index: usize, progress: OpProgress)
        requires
            index < old(self)@.ops.len(),
        ensures
            final(self)@.ops == old(self)@.ops.update(
                index as int,
                OpView { progress, ..old(self)@.ops[index as int] },
            ),
            final(self)@.notices == old(self)@.notices,
            final(self)@.shown == old(self)@.shown,
    {
        let ghost q0 = self.ops@;
        let mut op = self.ops[index].duplicate();
        op.progress = progress;
        self.ops.set(index, op);
        assert(ops_view(self.ops@) =~= ops_view(q0).update(
            index as int,
            OpView { progress, ..ops_view(q0)[index as int] },
        ));
    }

    /// Take every settled operation off the queue, in queue order, so its
    /// continuation can be applied; the running ones stay, in order.
    pub fn take_settled(&mut self) -> (settled: Vec<PendingOpStatus>)
        ensures
            ops_view(settled@) == select(old(self)@.ops, OpFilter::Settled),
            final(self)@.ops == select(old(self)@.ops, OpFilter::Running),
            final(self)@.notices == old(self)@.notices,
            final(self)@.shown == old(self)@.shown,
    {
        let ghost q = ops_view(self.ops@);
        let mut settled: Vec<PendingOpStatus> = Vec::new();
        let mut running: Vec<PendingOpStatus> = Vec::new();
        let mut i: usize = 0;
        while i < self.ops.len()
            invariant
                q == ops_view(self.ops@),
                i <= q.len(),
                ops_view(settled@) == select(q.take(i as int), OpFilter::Settled),
                ops_view(running@) == select(q.take(i as int), OpFilter::Running),
            decreases q.len() - i,
        {
            proof {
                lemma_select_step(q, i as int, OpFilter::Settled);
                lemma_select_step(q, i as int, OpFilter::Running);
            }
            let op = self.ops[i].duplicate();
            let ghost s0 = settled@;
            let ghost r0 = running@;
            match op.progress {
                OpProgress::Settled => {
                    settled.push(op);
                    assert(ops_view(settled@) =~= ops_view(s0).push(q[i as int]));
                },
                OpProgress::Pending { .. } => {
                    running.push(op);
                    assert(ops_view(running@) =~= ops_view(r0).push(q[i as int]));
                },
            }
            i = i + 1;
        }
        assert(q.take(q.len() as int) =~= q);
        self.ops = running;
        settled
    }

    /// One frame's pump, before the continuations run: the notice queue
    /// drains into the display slot first (a continuation that ran inline
    /// posts without ever queueing an operation, so this happens even
    /// with an empty queue), then every settled operation comes off the
    /// queue, in queue order, for the caller to apply. Whether work
    /// remains is asked after the continuations ran, since one may queue
    /// a follow-up.
    pub fn pump_storage(&mut self) -> (settled: Vec<PendingOpStatus>)
        ensures
            final(self)@.notices == Seq::<NoticeView>::empty(),
            final(self)@.shown == slot_after(old(self)@.shown, old(self)@.notices),
            ops_view(settled@) == select(old(self)@.ops, OpFilter::Settled),
            final(self)@.ops == select(old(self)@.ops, OpFilter::Running),
    {
        self.pump_notices();
        self.take_settled()
    }

    /// How many loud operations are queued: the "is storage busy?"
    /// question the status bar and the File menu ask.
    pub fn pending_op_count(&self) -> (r: usize)
        ensures
            r == loud_ops(self@.ops).len(),
    {
        let ghost q = ops_view(self.ops@);
        let mut count: usize = 0;
        let mut i: usize = 0;
        while i < self.ops.len()
            invariant
                q == ops_view(self.ops@),
                i <= q.len(),
                count == select(q.take(i as int), OpFilter::Loud).len(),
                count <= i,
            decreases q.len() - i,
        {
            proof {
                lemma_select_step(q, i as int, OpFilter::Loud);
            }
            if !self.ops[i].quiet {
                count = count + 1;
            }
            i = i + 1;
        }
        assert(q.take(q.len() as int) =~= q);
        count
    }

    /// Every queued operation, quiet ones included.
    pub fn pending_op_count_all(&self) -> (r: usize)
        ensures
            r == self@.ops.len(),
    {
        self.ops.len()
    }

    /// Every queued loud operation, in queue order: what the status bar
    /// reads out, and what an exit drain names when it walks away.
    pub fn pending_op_status(&self) -> (r: Vec<PendingOpStatus>)
        ensures
            ops_view(r@) == loud_ops(self@.ops),
    {
        let ghost q = ops_view(self.ops@);
        let mut out: Vec<PendingOpStatus> = Vec::new();
        let mut i: usize = 0;
        while i < self.ops.len()
            invariant
                q == ops_view(self.ops@),
                i <= q.len(),
                ops_view(out@) == select(q.take(i as int), OpFilter::Loud),
            decreases q.len() - i,
        {
            proof {
                lemma_select_step(q, i as int, OpFilter::Loud);
            }
            if !self.ops[i].quiet {
                let ghost o0 = out@;
                out.push(self.ops[i].duplicate());
                assert(ops_view(out@) =~= ops_view(o0).push(q[i as int]));
            }
            i = i + 1;
        }
        assert(q.take(q.len() as int) =~= q);
        out
    }

    /// Every queued operation, quiet ones included, in queue order: what a
    /// diagnostic names when it has to say what is still outstanding.
    pub fn pending_op_status_all(&self) -> (r: Vec<PendingOpStatus>)
        ensures
            ops_view(r@) == self@.ops,
    {
        let ghost q = ops_view(self.ops@);
        let mut out: Vec<PendingOpStatus> = Vec::new();
        let mut i: usize = 0;
        while i < self.ops.len()
            invariant
                q == ops_view(self.ops@),
                i <= q.len(),
                ops_view(out@) == q.take(i as int),
            decreases q.len() - i,
        {
            let ghost o0 = out@;
            out.push(self.ops[i].duplicate());
            assert(ops_view(out@) =~= ops_view(o0).push(q[i as int]));
            assert(q.take(i as int + 1) =~= q.take(i as int).push(q[i as int]));
            i = i + 1;
        }
        assert(q.take(q.len() as int) =~= q);
        out
    }

    /// Whether a loud operation's readout changes between frames on its
    /// own, so the frame loop must keep ticking for it.
    pub fn has_progress_reporting_op(&self) -> (r: bool)
        ensures
            r == exists|k: int| 0 <= k < self@.ops.len() && #[trigger] reports_progress(self@.ops[k]),
    {
        let ghost q = ops_view(self.ops@);
        let mut i: usize = 0;
        while i < self.ops.len()
            invariant
                q == ops_view(self.ops@),
                i <= q.len(),
                forall|k: int| 0 <= k < i ==> !#[trigger] reports_progress(q[k]),
            decreases q.len() - i,
        {
            let op = &self.ops[i];
            assert(q[i as int] == op@);
            let visible = match op.progress {
                OpProgress::Pending { percent } => percent.is_some(),
                OpProgress::Settled => true,
            };
            if !op.quiet && visible {
                assert(reports_progress(q[i as int]));
                assert(self@.ops == q);
                return true;
            }
            i = i + 1;
        }
        false
    }

    /// A left click on the status bar, `on_cancel` / `on_notice` saying
    /// whether it landed on the cancel affordance or on the notice text
    /// as last laid out. Cancel applies only while a loud operation is
    /// still queued (a stale span must not swallow the click); the notice
    /// is dismissed here.
    pub fn status_bar_click(&mut self, on_cancel: bool, on_notice: bool) -> (r: StatusClick)
        ensures
            r == (if on_cancel && loud_ops(old(self)@.ops).len() > 0 {
                StatusClick::CancelOps
            } else if on_notice {
                StatusClick::DismissNotice
            } else {
                StatusClick::Ignored
            }),
            r == StatusClick::DismissNotice ==> final(self)@ == (AppStateView { shown: None, ..old(self)@ }),
            r != StatusClick::DismissNotice ==> final(self)@ == old(self)@,
    {
        if on_cancel && self.pending_op_count() > 0 {
            return StatusClick::CancelOps;
        }
        if on_notice {
            self.dismiss_notice();
            return StatusClick::DismissNotice;
        }
        StatusClick::Ignored
    }

    /// What the frame loop owes the window after a pump that ran
    /// `applied` continuations: a full draw when any ran (a loaded graph
    /// or a new title is on its way to the screen); otherwise, with
    /// operations still queued, a keep-alive frame only when one of them
    /// reports progress; otherwise nothing, so the loop may sleep.
    pub fn frame_request_after_pump(&self, applied: bool) -> (r: FrameRequest)
        ensures
            r == (if applied {
                FrameRequest::Draw
            } else if self@.ops.len() > 0 && exists|k: int|
                0 <= k < self@.ops.len() && #[trigger] reports_progress(self@.ops[k]) {
                FrameRequest::KeepAlive
            } else {
                FrameRequest::Nothing
            }),
    {
        if applied {
            FrameRequest::Draw
        } else if self.ops.len() > 0 && self.has_progress_reporting_op() {
            FrameRequest::KeepAlive
        } else {
            FrameRequest::Nothing
        }
    }

    /// The status bar's storage readout; `None` when no loud operation is
    /// in flight.
    pub fn storage_activity_text(&self) -> (r: Option<String>)
        ensures
            r matches Some(t) ==> activity_text(self@.ops) == Some(t@),
            r is None <==> activity_text(self@.ops) is None,
    {
        let ghost q = ops_view(self.ops@);
        let mut count: usize = 0;
        let mut first: usize = 0;
        let mut i: usize = 0;
        while i < self.ops.len()
            invariant
                q == ops_view(self.ops@),
                i <= q.len(),
                count == select(q.take(i as int), OpFilter::Loud).len(),
                count <= i,
                count > 0 ==> first < i && select(q.take(i as int), OpFilter::Loud)[0] == q[first as int],
            decreases q.len() - i,
        {
            proof {
                lemma_select_step(q, i as int, OpFilter::Loud);
            }
            if !self.ops[i].quiet {
                if count == 0 {
                    first = i;
                }
                count = count + 1;
            }
            i = i + 1;
        }
        assert(q.take(q.len() as int) =~= q);
        if count == 0 {
            return None;
        }
        let lead = &self.ops[first];
        assert(lead@ == loud_ops(q)[0]);
        let mut text = lead.label.clone();
        text.push('\u{2026}');
        let percent = match lead.progress {
            OpProgress::Pending { percent } => percent,
            OpProgress::Settled => None,
        };
        match percent {
            Some(p) => {
                text.push(' ');
                push_digits(&mut text, p as u64);
                text.push('%');
            },
            None => {},
        }
        if count > 1 {
            text.push(' ');
            text.push('(');
            text.push('+');
            push_digits(&mut text, (count - 1) as u64);
            push_chars(&mut text, &[' ', 'm', 'o', 'r', 'e', ')']);
        }
        proof {
            let l = loud_ops(q);
            let head = l[0].label.push('\u{2026}');
            let with_progress = match shown_percent(l[0].progress) {
                Some(p) => head.push(' ') + decimal(p as int).push('%'),
                None => head,
            };
            if count > 1 {
                assert(text@ =~= with_progress + seq![' ', '(', '+'] + decimal(l.len() - 1) + seq![
                    ' ',
                    'm',
                    'o',
                    'r',
                    'e',
                    ')',
                ]);
            } else {
                assert(text@ =~= with_progress);
            }
        }
        Some(text)
    }
}

/// One step of a loop over a queue: the selection over the first `i + 1`
/// operations extends the selection over the first `i` by operation `i`
/// exactly when the filter keeps it.
proof fn lemma_select_step(ops: Seq<OpView>, i: int, filter: OpFilter)
    requires
        0 <= i < ops.len(),
    ensures
        select(ops.take(i + 1), filter) == if keeps(filter, ops[i]) {
            select(ops.take(i), filter).push(ops[i])
        } else {
            select(ops.take(i), filter)
        },
{
    assert(ops.take(i + 1).drop_last() =~= ops.take(i));
}

/// Index of the batch's winner.
fn winner_of(batch: &[Notice]) -> (w: usize)
    requires
        batch@.len() > 0,
    ensures
        w == winner_index(notices_view(batch@)),
        w < batch@.len(),
{
    let ghost b = notices_view(batch@);
    let mut best: usize = 0;
    let mut i: usize = 1;
    while i < batch.len()
        invariant
            b == notices_view(batch@),
            1 <= i <= batch@.len(),
            best < i,
            best == winner_index(b.take(i as int)),
        decreases batch@.len() - i,
    {
        proof {
            let t = b.take(i as int + 1);
            assert(t.drop_last() =~= b.take(i as int));
            assert(t.last() == batch@[i as int]@);
            assert(t[best as int] == batch@[best as int]@);
        }
        if batch[i].level.rank() >= batch[best].level.rank() {
            best = i;
        }
        i = i + 1;
    }
    assert(b.take(batch@.len() as int) =~= b);
    best
}

/// How many cancel-and-pump rounds an exit drain runs at most once it
/// stops waiting: enough for a continuation to chain a follow-up (and
/// for that one to chain another); few enough that a runaway chain
/// cannot hold the window open.
pub const FINAL_PUMP_ROUNDS: usize = 4;

/// Where an exit drain stands.
#[derive(Clone, Copy, Debug, PartialEq, Eq, Structural)]
pub enum DrainStage {
    /// Pumping until the queue empties or the deadline passes.
    Waiting,
    /// Only quiet work is left: cancelling it and pumping its outcomes
    /// through.
    QuietRounds,
    /// The deadline passed: cancelling everything and pumping the
    /// outcomes through.
    FinalRounds,
}

/// What an exit drain does next.
#[derive(Clone, Copy, Debug, PartialEq, Eq, Structural)]
pub enum DrainAction {
    /// Stop; `true` when nothing the user asked for was walked away from.
    Finish(bool),
    /// Yield the CPU briefly, then pump again.
    SleepThenPump,
    /// Cancel everything queued and pump, as one more round of the stage.
    CancelAndPump(DrainStage),
}

/// The exit drain's decision after a pump. `remaining`: work is still
/// queued; `loud_pending`: how much of it the user asked for by name;
/// `deadline_passed`: the wait is over; `rounds_done`: cancel-and-pump
/// rounds already run in the current stage.
///
/// While waiting, an empty queue ends the drain successfully; a queue of
/// quiet work only is cancelled rather than waited for; past the deadline
/// everything is cancelled; otherwise the drain waits. A cancelling stage
/// ends when the queue empties or after [`FINAL_PUMP_ROUNDS`] rounds,
/// successfully when only quiet work was at stake.
pub open spec fn drain_spec(
    stage: DrainStage,
    remaining: bool,
    loud_pending: int,
    deadline_passed: bool,
    rounds_done: int,
) -> DrainAction {
    match stage {
        DrainStage::Waiting => if !remaining {
            DrainAction::Finish(true)
        } else if loud_pending == 0 {
            DrainAction::CancelAndPump(DrainStage::QuietRounds)
        } else if deadline_passed {
            DrainAction::CancelAndPump(DrainStage::FinalRounds)
        } else {
            DrainAction::SleepThenPump
        },
        DrainStage::QuietRounds => if !remaining || rounds_done >= FINAL_PUMP_ROUNDS {
            DrainAction::Finish(true)
        } else {
            DrainAction::CancelAndPump(DrainStage::QuietRounds)
        },
        DrainStage::FinalRounds => if !remaining || rounds_done >= FINAL_PUMP_ROUNDS {
            DrainAction::Finish(false)
        } else {
            DrainAction::CancelAndPump(DrainStage::FinalRounds)
        },
    }
}

/// One decision of the exit drain (see [`drain_spec`]); the shell runs
/// the loop, pumping, sleeping and cancelling as told.
pub fn drain_step(
    stage: DrainStage,
    remaining: bool,
    loud_pending: usize,
    deadline_passed: bool,
    rounds_done: usize,
) -> (r: DrainAction)
    ensures
        r == drain_spec(stage, remaining, loud_pending as int, deadline_passed, rounds_done as int),
{
    match stage {
        DrainStage::Waiting => if !remaining {
            DrainAction::Finish(true)
        } else if loud_pending == 0 {
            DrainAction::CancelAndPump(DrainStage::QuietRounds)
        } else if deadline_passed {
            DrainAction::CancelAndPump(DrainStage::FinalRounds)
        } else {
            DrainAction::SleepThenPump
        },
        DrainStage::QuietRounds => if !remaining || rounds_done >= FINAL_PUMP_ROUNDS {
            DrainAction::Finish(true)
        } else {
            DrainAction::CancelAndPump(DrainStage::QuietRounds)
        },
        DrainStage::FinalRounds => if !remaining || rounds_done >= FINAL_PUMP_ROUNDS {
            DrainAction::Finish(false)
        } else {
            DrainAction::CancelAndPump(DrainStage::FinalRounds)
        },
    }
}

// ---------------------------------------------------------------------
// Laws
// ---------------------------------------------------------------------

/// The notice queue never outgrows [`NOTICE_CAP`]: posting to a queue
/// within the cap leaves it within the cap.
pub proof fn lemma_posted_within_cap(q: Seq<NoticeView>, n: NoticeView)
    requires
        q.len() <= NOTICE_CAP,
    ensures
        posted(q, n).len() <= NOTICE_CAP,
{
}

/// Whatever the queue held, the message just posted is the newest one in
/// it: the cap only ever drops the oldest messages.
pub proof fn lemma_posted_ends_with_newest(q: Seq<NoticeView>, n: NoticeView)
    ensures
        posted(q, n).len() > 0,
        posted(q, n).last() == n,
{
}

/// Posting the same message twice in a row queues it once.
pub proof fn lemma_posted_twice_is_posted_once(q: Seq<NoticeView>, n: NoticeView)
    ensures
        posted(posted(q, n), n) == posted(q, n),
{
}

/// The winner of a batch has the highest severity in it, and every later
/// message is strictly quieter: the newest among the loudest wins.
pub proof fn lemma_winner_is_newest_loudest(b: Seq<NoticeView>)
    requires
        b.len() > 0,
    ensures
        0 <= winner_index(b) < b.len(),
        forall|k: int| 0 <= k < b.len() ==> #[trigger] b[k].level.severity() <= b[winner_index(b)].level.severity(),
        forall|k: int| winner_index(b) < k < b.len() ==> #[trigger] b[k].level.severity() < b[winner_index(b)].level.severity(),
    decreases b.len(),
{
    if b.len() > 1 {
        let p = b.drop_last();
        lemma_winner_is_newest_loudest(p);
        assert forall|k: int| 0 <= k < p.len() implies #[trigger] b[k] == p[k] by {}
    }
}

/// A drained batch never puts a quieter message on display over a louder
/// one still showing.
pub proof fn lemma_slot_never_gets_quieter(shown: Option<NoticeView>, b: Seq<NoticeView>)
    requires
        shown is Some,
    ensures
        slot_after(shown, b) is Some,
        slot_after(shown, b)->0.level.severity() >= shown->0.level.severity(),
{
}

/// Taking the settled operations off the queue loses none and invents
/// none: every operation is either settled or still running.
pub proof fn lemma_settling_partitions_the_queue(ops: Seq<OpView>)
    ensures
        select(ops, OpFilter::Settled).len() + select(ops, OpFilter::Running).len() == ops.len(),
    decreases ops.len(),
{
    if ops.len() > 0 {
        lemma_settling_partitions_the_queue(ops.drop_last());
    }
}

/// The busy count never exceeds the queue: quiet operations are only
/// ever left out of it.
pub proof fn lemma_loud_ops_within_queue(ops: Seq<OpView>)
    ensures
        loud_ops(ops).len() <= ops.len(),
        loud_ops(ops).len() == ops.len() <==> forall|k: int| 0 <= k < ops.len() ==> !(#[trigger] ops[k]).quiet,
    decreases ops.len(),
{
    if ops.len() > 0 {
        let p = ops.drop_last();
        lemma_loud_ops_within_queue(p);
        assert forall|k: int| 0 <= k < p.len() implies #[trigger] ops[k] == p[k] by {}
        if loud_ops(ops).len() == ops.len() {
            assert forall|k: int| 0 <= k < ops.len() implies !(#[trigger] ops[k]).quiet by {
                if k < p.len() {
                    assert(p[k] == ops[k]);
                }
            }
        }
    }
}

/// The exit drain cannot be held open by chaining: once it cancels, it
/// stops after at most [`FINAL_PUMP_ROUNDS`] rounds; quiet work never
/// makes it wait; and it reports failure from the deadline's stage only,
/// and always there.
pub proof fn lemma_drain_is_bounded(
    stage: DrainStage,
    remaining: bool,
    loud_pending: int,
    deadline_passed: bool,
    rounds_done: int,
)
    ensures
        stage != DrainStage::Waiting && rounds_done >= FINAL_PUMP_ROUNDS ==> drain_spec(
            stage,
            remaining,
            loud_pending,
            deadline_passed,
            rounds_done,
        ) is Finish,
        stage == DrainStage::Waiting && loud_pending == 0 ==> drain_spec(
            stage,
            remaining,
            loud_pending,
            deadline_passed,
            rounds_done,
        ) != DrainAction::SleepThenPump,
        stage != DrainStage::FinalRounds ==> drain_spec(stage, remaining, loud_pending, deadline_passed, rounds_done)
            != DrainAction::Finish(false),
        stage == DrainStage::FinalRounds ==> drain_spec(stage, remaining, loud_pending, deadline_passed, rounds_done)
            != DrainAction::Finish(true),
{
}

} // verus!
