use vstd::prelude::*;

use crate::clcw::Clcw;
use crate::modular::{spec_wrapping_lt, wrapping_lt};
use crate::tc::FrameType;

verus! {

/// How long the head of the sent queue may stay unacknowledged before it is
/// retransmitted, in milliseconds.
pub const TIMEOUT_MS: u64 = 5000;

/// A TC frame handed to the transmitter.
pub struct Frame {
    pub id: u64,
    pub frame_type: FrameType,
    pub sequence_number: u8,
    pub data_field: Vec<u8>,
}

pub struct FrameView {
    pub id: u64,
    pub frame_type: FrameType,
    pub sequence_number: u8,
    pub data_field: Seq<u8>,
}

impl View for Frame {
    type V = FrameView;

    open spec fn view(&self) -> FrameView {
        FrameView {
            id: self.id,
            frame_type: self.frame_type,
            sequence_number: self.sequence_number,
            data_field: self.data_field@,
        }
    }
}

impl Frame {
    /// A copy of the frame.
    pub fn duplicate(&self) -> (r: Frame)
        ensures
            r@ == self@,
    {
        let data = self.data_field.clone();
        assert(data@ =~= self.data_field@);
        Frame {
            id: self.id,
            frame_type: self.frame_type,
            sequence_number: self.sequence_number,
            data_field: data,
        }
    }
}

/// What happened to a frame, reported to subscribers.
#[derive(Debug, Clone, Copy, PartialEq, Eq, Structural)]
pub enum FrameEvent {
    Transmit(u64),
    Acknowledged(u64),
    Retransmit(u64),
    Cancel(u64),
}

/// The receiver's state as the last CLCW reported it.
#[derive(Debug, Clone, Copy, PartialEq, Eq, Structural)]
pub struct FarmState {
    pub next_expected_fsn: u8,
    pub lockout: bool,
    pub wait: bool,
    pub retransmit: bool,
}

pub open spec fn farm_of(clcw: Clcw) -> FarmState {
    FarmState {
        next_expected_fsn: clcw.report_value,
        lockout: clcw.lockout,
        wait: clcw.wait,
        retransmit: clcw.retransmit,
    }
}

/// A frame waiting for acknowledgement, with the instant (in milliseconds)
/// it was last sent.
pub struct SentFrame {
    pub frame: Frame,
    pub sent_at: u64,
}

pub struct SentFrameView {
    pub frame: FrameView,
    pub sent_at: u64,
}

impl View for SentFrame {
    type V = SentFrameView;

    open spec fn view(&self) -> SentFrameView {
        SentFrameView { frame: self.frame@, sent_at: self.sent_at }
    }
}

pub open spec fn queue_view(q: Seq<SentFrame>) -> Seq<SentFrameView> {
    q.map_values(|f: SentFrame| f@)
}

/// The number of frames at the front of `q` that a report of `vr` acknowledges.
pub open spec fn ack_len(q: Seq<SentFrameView>, vr: u8) -> nat
    decreases q.len(),
{
    if q.len() > 0 && spec_wrapping_lt(q[0].frame.sequence_number, vr) {
        1 + ack_len(q.drop_first(), vr)
    } else {
        0
    }
}

pub open spec fn acked_events(q: Seq<SentFrameView>) -> Seq<FrameEvent> {
    q.map_values(|f: SentFrameView| FrameEvent::Acknowledged(f.frame.id))
}

pub open spec fn cancel_events(q: Seq<SentFrameView>) -> Seq<FrameEvent> {
    q.map_values(|f: SentFrameView| FrameEvent::Cancel(f.frame.id))
}

/// `q` with the frames that a report of `vr` acknowledges taken off its front.
pub open spec fn after_ack(q: Seq<SentFrameView>, vr: u8) -> Seq<SentFrameView> {
    q.skip(ack_len(q, vr) as int)
}

/// The events that acknowledging with `vr` emits for `q`.
pub open spec fn ack_events(q: Seq<SentFrameView>, vr: u8) -> Seq<FrameEvent> {
    acked_events(q.take(ack_len(q, vr) as int))
}

/// The head of `q` was sent more than the timeout before `now`.
pub open spec fn head_timed_out(q: Seq<SentFrameView>, now: u64) -> bool {
    q.len() > 0 && now > q[0].sent_at + TIMEOUT_MS
}

pub open spec fn inc_count(c: u64) -> u64 {
    if c == u64::MAX {
        c
    } else {
        (c + 1) as u64
    }
}

pub open spec fn inc_id(id: u64) -> u64 {
    if id == u64::MAX {
        0
    } else {
        (id + 1) as u64
    }
}

pub enum FopStateView {
    Initial { expected_nr: Option<u8> },
    Active { next_fsn: u8, sent: Seq<SentFrameView> },
    Retransmit { next_fsn: u8, count: u64, sent: Seq<SentFrameView>, wait: Seq<SentFrameView> },
}

/// The frames in flight, in the order they are cancelled.
pub open spec fn in_flight(s: FopStateView) -> Seq<SentFrameView> {
    match s {
        FopStateView::Initial { .. } => Seq::empty(),
        FopStateView::Active { sent, .. } => sent,
        FopStateView::Retransmit { sent, wait, .. } => sent + wait,
    }
}

/// The first phase of handling a CLCW: acknowledgement and the transitions
/// that do not involve lockout.
pub open spec fn ack_step(s: FopStateView, f: FarmState) -> (FopStateView, Seq<FrameEvent>) {
    let vr = f.next_expected_fsn;
    match s {
        FopStateView::Initial { expected_nr } => if expected_nr == Some(vr) && !f.lockout {
            (FopStateView::Active { next_fsn: vr, sent: Seq::empty() }, Seq::empty())
        } else {
            (s, Seq::empty())
        },
        FopStateView::Active { next_fsn, sent } => {
            let rest = after_ack(sent, vr);
            let ev = ack_events(sent, vr);
            if f.retransmit {
                (FopStateView::Retransmit { next_fsn, count: 1, sent: Seq::empty(), wait: rest }, ev)
            } else {
                (FopStateView::Active { next_fsn, sent: rest }, ev)
            }
        },
        FopStateView::Retransmit { next_fsn, count, sent, wait } => {
            let w = after_ack(wait, vr);
            let q = after_ack(sent, vr);
            let ev = ack_events(wait, vr) + ack_events(sent, vr);
            let acked = ack_len(wait, vr) + ack_len(sent, vr) > 0;
            let c = if acked { 0u64 } else { count };
            if !f.retransmit {
                if w.len() == 0 && q.len() == 0 {
                    (FopStateView::Active { next_fsn, sent: Seq::empty() }, ev)
                } else {
                    (FopStateView::Retransmit { next_fsn, count: c, sent: q, wait: w }, ev)
                }
            } else if acked {
                (
                    FopStateView::Retransmit {
                        next_fsn,
                        count: inc_count(c),
                        sent: Seq::empty(),
                        wait: q + w,
                    },
                    ev,
                )
            } else {
                (FopStateView::Retransmit { next_fsn, count: c, sent: q, wait: w }, ev)
            }
        },
    }
}

/// The second phase: on lockout every frame in flight is cancelled and FOP
/// waits for a new V(R).
pub open spec fn lockout_step(s: FopStateView) -> (FopStateView, Seq<FrameEvent>) {
    match s {
        FopStateView::Initial { .. } => (s, Seq::empty()),
        FopStateView::Active { next_fsn, .. } => (
            FopStateView::Initial { expected_nr: Some(next_fsn) },
            cancel_events(in_flight(s)),
        ),
        FopStateView::Retransmit { next_fsn, .. } => (
            FopStateView::Initial { expected_nr: Some(next_fsn) },
            cancel_events(in_flight(s)),
        ),
    }
}

/// The state after a CLCW, and the events it emits.
pub open spec fn clcw_step(s: FopStateView, f: FarmState) -> (FopStateView, Seq<FrameEvent>) {
    let (s1, e1) = ack_step(s, f);
    if f.lockout {
        let (s2, e2) = lockout_step(s1);
        (s2, e1 + e2)
    } else {
        (s1, e1)
    }
}

/// The state after a periodic tick at `now`, and the frame it retransmits.
pub open spec fn update_step(s: FopStateView, now: u64) -> (FopStateView, Option<FrameView>) {
    let s1 = match s {
        FopStateView::Active { next_fsn, sent } => if head_timed_out(sent, now) {
            FopStateView::Retransmit { next_fsn, count: 1, sent: Seq::empty(), wait: sent }
        } else {
            s
        },
        _ => s,
    };
    match s1 {
        FopStateView::Retransmit { next_fsn, count, sent, wait } => {
            let (c, q, w) = if head_timed_out(sent, now) {
                (inc_count(count), Seq::<SentFrameView>::empty(), sent + wait)
            } else {
                (count, sent, wait)
            };
            if w.len() == 0 {
                (FopStateView::Retransmit { next_fsn, count: c, sent: q, wait: w }, None)
            } else {
                let head = SentFrameView { frame: w[0].frame, sent_at: now };
                (
                    FopStateView::Retransmit {
                        next_fsn,
                        count: c,
                        sent: q.push(head),
                        wait: w.drop_first(),
                    },
                    Some(w[0].frame),
                )
            }
        },
        _ => (s1, None),
    }
}

/// Takes the acknowledged frames off the front of `queue`, reporting each.
fn remove_acknowledged_frames(
    queue: &mut Vec<SentFrame>,
    acknowledged_fsn: u8,
    events: &mut Vec<FrameEvent>,
) -> (r: usize)
    ensures
        r == ack_len(queue_view(old(queue)@), acknowledged_fsn),
        queue_view(final(queue)@) == after_ack(queue_view(old(queue)@), acknowledged_fsn),
        final(events)@ == old(events)@ + ack_events(queue_view(old(queue)@), acknowledged_fsn),
{
    let ghost q0 = queue_view(queue@);
    let mut ack_count: usize = 0;
    proof {
        assert(q0.len() == queue.len());
    }
    while queue.len() > 0 && wrapping_lt(queue[0].frame.sequence_number, acknowledged_fsn)
        invariant
            q0.len() <= usize::MAX,
            ack_count <= q0.len(),
            ack_count + queue@.len() == q0.len(),
            queue_view(queue@) == q0.skip(ack_count as int),
            ack_len(q0, acknowledged_fsn) == ack_count + ack_len(queue_view(queue@), acknowledged_fsn),
            events@ == old(events)@ + acked_events(q0.take(ack_count as int)),
        decreases queue.len(),
    {
        let ghost before = queue_view(queue@);
        let front = queue.remove(0);
        events.push(FrameEvent::Acknowledged(front.frame.id));
        proof {
            assert(before[0].frame.sequence_number == front.frame.sequence_number);
            assert(ack_len(before, acknowledged_fsn) == 1 + ack_len(before.drop_first(), acknowledged_fsn));
            assert(queue_view(queue@) =~= before.drop_first());
            assert(q0.skip(ack_count + 1) =~= before.drop_first());
            assert(q0.take(ack_count + 1) =~= q0.take(ack_count as int).push(before[0]));
            assert(acked_events(q0.take(ack_count + 1)) =~= acked_events(q0.take(ack_count as int)).push(FrameEvent::Acknowledged(front.frame.id)));
        }
        ack_count = ack_count + 1;
    }
    proof {
        assert(queue_view(queue@) =~= q0.skip(ack_count as int));
        if queue@.len() == 0 {
            assert(queue_view(queue@).len() == 0);
        } else {
            assert(queue_view(queue@)[0].frame.sequence_number == queue@[0].frame.sequence_number);
        }
        assert(ack_len(queue_view(queue@), acknowledged_fsn) == 0);
    }
    ack_count
}

/// Moves every frame of `queue` out, reporting each as cancelled.
fn cancel_all(queue: Vec<SentFrame>, events: &mut Vec<FrameEvent>)
    ensures
        final(events)@ == old(events)@ + cancel_events(queue_view(queue@)),
{
    let mut i: usize = 0;
    while i < queue.len()
        invariant
            i <= queue@.len(),
            events@ == old(events)@ + cancel_events(queue_view(queue@).take(i as int)),
        decreases queue.len() - i,
    {
        events.push(FrameEvent::Cancel(queue[i].frame.id));
        proof {
            assert(queue_view(queue@).take(i + 1) =~= queue_view(queue@).take(i as int).push(queue@[i as int]@));
            assert(cancel_events(queue_view(queue@).take(i + 1)) =~= cancel_events(queue_view(queue@).take(i as int)).push(FrameEvent::Cancel(queue@[i as int].frame.id)));
        }
        i = i + 1;
    }
    proof {
        assert(queue_view(queue@).take(i as int) =~= queue_view(queue@));
    }
}

/// FOP-1 in Active state: frames are sent with consecutive sequence numbers.
pub struct ActiveState {
    pub next_fsn: u8,
    pub sent_queue: Vec<SentFrame>,
}

/// FOP-1 while retransmitting: `retransmit_wait_queue` holds the frames still
/// to be sent again, `retransmit_sent_queue` those already sent again.
pub struct RetransmitState {
    pub next_fsn: u8,
    pub retransmit_count: u64,
    pub retransmit_sent_queue: Vec<SentFrame>,
    pub retransmit_wait_queue: Vec<SentFrame>,
}

pub enum FopState {
    Active(ActiveState),
    Retransmit(RetransmitState),
    Initial { expected_nr: Option<u8> },
}

impl View for FopState {
    type V = FopStateView;

    open spec fn view(&self) -> FopStateView {
        match self {
            FopState::Initial { expected_nr } => FopStateView::Initial { expected_nr: *expected_nr },
            FopState::Active(a) => FopStateView::Active {
                next_fsn: a.next_fsn,
                sent: queue_view(a.sent_queue@),
            },
            FopState::Retransmit(r) => FopStateView::Retransmit {
                next_fsn: r.next_fsn,
                count: r.retransmit_count,
                sent: queue_view(r.retransmit_sent_queue@),
                wait: queue_view(r.retransmit_wait_queue@),
            },
        }
    }
}

fn increment_count(c: u64) -> (r: u64)
    ensures
        r == inc_count(c),
{
    if c == u64::MAX {
        c
    } else {
        c + 1
    }
}

proof fn lemma_queue_view_append(a: Seq<SentFrame>, b: Seq<SentFrame>)
    ensures
        queue_view(a + b) == queue_view(a) + queue_view(b),
{
    assert(queue_view(a + b) =~= queue_view(a) + queue_view(b));
}

impl ActiveState {
    fn acknowledge(&mut self, acknowledged_fsn: u8, events: &mut Vec<FrameEvent>)
        ensures
            final(self).next_fsn == old(self).next_fsn,
            queue_view(final(self).sent_queue@) == after_ack(
                queue_view(old(self).sent_queue@),
                acknowledged_fsn,
            ),
            final(events)@ == old(events)@ + ack_events(
                queue_view(old(self).sent_queue@),
                acknowledged_fsn,
            ),
    {
        remove_acknowledged_frames(&mut self.sent_queue, acknowledged_fsn, events);
    }

    fn send(
        &mut self,
        next_frame_id: &mut u64,
        data_field: Vec<u8>,
        now: u64,
        events: &mut Vec<FrameEvent>,
    ) -> (r: Frame)
        ensures
            r@ == (FrameView {
                id: *old(next_frame_id),
                frame_type: FrameType::TypeAD,
                sequence_number: old(self).next_fsn,
                data_field: data_field@,
            }),
            *final(next_frame_id) == inc_id(*old(next_frame_id)),
            final(self).next_fsn == old(self).next_fsn.wrapping_add(1),
            queue_view(final(self).sent_queue@) == queue_view(old(self).sent_queue@).push(
                SentFrameView { frame: r@, sent_at: now },
            ),
            final(events)@ == old(events)@.push(FrameEvent::Transmit(*old(next_frame_id))),
    {
        let fsn = self.next_fsn;
        self.next_fsn = self.next_fsn.wrapping_add(1);
        let frame = Frame {
            id: *next_frame_id,
            frame_type: FrameType::TypeAD,
            sequence_number: fsn,
            data_field,
        };
        *next_frame_id = if *next_frame_id == u64::MAX {
            0
        } else {
            *next_frame_id + 1
        };
        events.push(FrameEvent::Transmit(frame.id));
        let copy = frame.duplicate();
        let ghost before = self.sent_queue@;
        self.sent_queue.push(SentFrame { frame: copy, sent_at: now });
        proof {
            assert(queue_view(self.sent_queue@) =~= queue_view(before).push(
                SentFrameView { frame: frame@, sent_at: now },
            ));
        }
        frame
    }

    fn timeout(&self, now: u64) -> (r: bool)
        ensures
            r == head_timed_out(queue_view(self.sent_queue@), now),
    {
        if self.sent_queue.len() > 0 {
            let sent_at = self.sent_queue[0].sent_at;
            now > sent_at && now - sent_at > TIMEOUT_MS
        } else {
            false
        }
    }
}

impl RetransmitState {
    /// Acknowledges across both queues; returns whether retransmission is
    /// over (nothing left and none demanded).
    fn acknowledge(&mut self, acknowledged_fsn: u8, retransmit: bool, events: &mut Vec<FrameEvent>) -> (r: bool)
        ensures
            ({
                let vr = acknowledged_fsn;
                let sent = queue_view(old(self).retransmit_sent_queue@);
                let wait = queue_view(old(self).retransmit_wait_queue@);
                let w = after_ack(wait, vr);
                let q = after_ack(sent, vr);
                let acked = ack_len(wait, vr) + ack_len(sent, vr) > 0;
                let c = if acked { 0u64 } else { old(self).retransmit_count };
                &&& final(events)@ == old(events)@ + ack_events(wait, vr) + ack_events(sent, vr)
                &&& final(self).next_fsn == old(self).next_fsn
                &&& r == (!retransmit && w.len() == 0 && q.len() == 0)
                &&& if retransmit && acked {
                    &&& final(self).retransmit_count == inc_count(c)
                    &&& queue_view(final(self).retransmit_sent_queue@) == Seq::<SentFrameView>::empty()
                    &&& queue_view(final(self).retransmit_wait_queue@) == q + w
                } else {
                    &&& final(self).retransmit_count == c
                    &&& queue_view(final(self).retransmit_sent_queue@) == q
                    &&& queue_view(final(self).retransmit_wait_queue@) == w
                }
            }),
    {
        let ack_wait = remove_acknowledged_frames(
            &mut self.retransmit_wait_queue,
            acknowledged_fsn,
            events,
        );
        let ack_sent = remove_acknowledged_frames(
            &mut self.retransmit_sent_queue,
            acknowledged_fsn,
            events,
        );
        let acked = ack_wait > 0 || ack_sent > 0;
        if acked {
            self.retransmit_count = 0;
        }
        if !retransmit {
            return self.retransmit_wait_queue.len() == 0 && self.retransmit_sent_queue.len() == 0;
        }
        if acked {
            self.redo_retransmit();
        }
        false
    }

    /// Puts every frame sent again back in front of the wait queue.
    fn redo_retransmit(&mut self)
        ensures
            final(self).next_fsn == old(self).next_fsn,
            final(self).retransmit_count == inc_count(old(self).retransmit_count),
            queue_view(final(self).retransmit_sent_queue@) == Seq::<SentFrameView>::empty(),
            queue_view(final(self).retransmit_wait_queue@) == queue_view(
                old(self).retransmit_sent_queue@,
            ) + queue_view(old(self).retransmit_wait_queue@),
    {
        self.retransmit_count = increment_count(self.retransmit_count);
        let ghost s0 = self.retransmit_sent_queue@;
        let ghost w0 = self.retransmit_wait_queue@;
        self.retransmit_sent_queue.append(&mut self.retransmit_wait_queue);
        std::mem::swap(&mut self.retransmit_sent_queue, &mut self.retransmit_wait_queue);
        proof {
            lemma_queue_view_append(s0, w0);
            assert(queue_view(self.retransmit_sent_queue@) =~= Seq::<SentFrameView>::empty());
        }
    }

    fn update(&mut self, now: u64) -> (r: Option<Frame>)
        ensures
            ({
                let (s, f) = update_step(old(self)@, now);
                &&& final(self)@ == s
                &&& r matches Some(fr) ==> f == Some(fr@)
                &&& r is None ==> f is None
            }),
    {
        if self.retransmit_sent_queue.len() > 0 {
            let sent_at = self.retransmit_sent_queue[0].sent_at;
            if now > sent_at && now - sent_at > TIMEOUT_MS {
                self.redo_retransmit();
            }
        }
        if self.retransmit_wait_queue.len() == 0 {
            return None;
        }
        let ghost w0 = self.retransmit_wait_queue@;
        let ghost s0 = self.retransmit_sent_queue@;
        let next = self.retransmit_wait_queue.remove(0);
        let frame = next.frame.duplicate();
        self.retransmit_sent_queue.push(SentFrame { frame: next.frame, sent_at: now });
        proof {
            assert(queue_view(self.retransmit_wait_queue@) =~= queue_view(w0).drop_first());
            assert(queue_view(self.retransmit_sent_queue@) =~= queue_view(s0).push(
                SentFrameView { frame: frame@, sent_at: now },
            ));
        }
        Some(frame)
    }
}

impl View for RetransmitState {
    type V = FopStateView;

    open spec fn view(&self) -> FopStateView {
        FopStateView::Retransmit {
            next_fsn: self.next_fsn,
            count: self.retransmit_count,
            sent: queue_view(self.retransmit_sent_queue@),
            wait: queue_view(self.retransmit_wait_queue@),
        }
    }
}

/// The FOP-1 state as reported to clients.
#[derive(Debug, Clone, Copy, PartialEq, Eq, Structural)]
pub enum FopStatusKind {
    Initial,
    Active,
    Retransmit { count: u64 },
}

/// What a status request reports: the last CLCW's flags, the sequence
/// numbers and the state.
#[derive(Debug, Clone, Copy, PartialEq, Eq, Structural)]
pub struct FopStatus {
    pub received_clcw: bool,
    pub lockout: bool,
    pub wait: bool,
    pub retransmit: bool,
    pub next_expected_fsn: u8,
    pub next_fsn: Option<u8>,
    pub state: FopStatusKind,
}

pub open spec fn status_of(v: FopView) -> FopStatus {
    let farm = v.last_received_farm_state;
    FopStatus {
        received_clcw: farm is Some,
        lockout: farm matches Some(f) && f.lockout,
        wait: farm matches Some(f) && f.wait,
        retransmit: farm matches Some(f) && f.retransmit,
        next_expected_fsn: match farm {
            Some(f) => f.next_expected_fsn,
            None => 0,
        },
        next_fsn: spec_next_fsn(v.state),
        state: match v.state {
            FopStateView::Initial { .. } => FopStatusKind::Initial,
            FopStateView::Active { .. } => FopStatusKind::Active,
            FopStateView::Retransmit { count, .. } => FopStatusKind::Retransmit { count },
        },
    }
}

pub struct FopView {
    pub next_frame_id: u64,
    pub state: FopStateView,
    pub last_received_farm_state: Option<FarmState>,
}

/// The sending side of COP-1. Each operation appends the frame events it
/// causes to `events`, in order.
pub struct Fop {
    next_frame_id: u64,
    state: FopState,
    last_received_farm_state: Option<FarmState>,
}

impl View for Fop {
    type V = FopView;

    closed spec fn view(&self) -> FopView {
        FopView {
            next_frame_id: self.next_frame_id,
            state: self.state@,
            last_received_farm_state: self.last_received_farm_state,
        }
    }
}

/// The control command frame that sets the receiver's V(R).
pub open spec fn set_vr_frame(vr: u8) -> FrameView {
    FrameView {
        id: 0,
        frame_type: FrameType::TypeBC,
        sequence_number: 0,
        data_field: seq![0x82u8, 0x00u8, vr],
    }
}

/// The control command frame that clears the receiver's lockout.
pub open spec fn unlock_frame() -> FrameView {
    FrameView { id: 0, frame_type: FrameType::TypeBC, sequence_number: 0, data_field: seq![0x00u8] }
}

pub open spec fn spec_next_fsn(s: FopStateView) -> Option<u8> {
    match s {
        FopStateView::Initial { expected_nr } => expected_nr,
        FopStateView::Active { next_fsn, .. } => Some(next_fsn),
        FopStateView::Retransmit { next_fsn, .. } => Some(next_fsn),
    }
}

impl Fop {
    pub fn new() -> (r: Fop)
        ensures
            r@ == (FopView {
                next_frame_id: 0,
                state: FopStateView::Initial { expected_nr: None },
                last_received_farm_state: None,
            }),
    {
        Fop {
            next_frame_id: 0,
            state: FopState::Initial { expected_nr: None },
            last_received_farm_state: None,
        }
    }

    pub fn last_received_farm_state(&self) -> (r: Option<FarmState>)
        ensures
            r == self@.last_received_farm_state,
    {
        self.last_received_farm_state
    }

    /// The sequence number the next AD frame gets, where one is known.
    pub fn next_fsn(&self) -> (r: Option<u8>)
        ensures
            r == spec_next_fsn(self@.state),
    {
        match &self.state {
            FopState::Initial { expected_nr } => *expected_nr,
            FopState::Active(state) => Some(state.next_fsn),
            FopState::Retransmit(state) => Some(state.next_fsn),
        }
    }

    /// The status report of FOP-1.
    pub fn status(&self) -> (r: FopStatus)
        ensures
            r == status_of(self@),
    {
        let farm = self.last_received_farm_state;
        FopStatus {
            received_clcw: farm.is_some(),
            lockout: match farm {
                Some(f) => f.lockout,
                None => false,
            },
            wait: match farm {
                Some(f) => f.wait,
                None => false,
            },
            retransmit: match farm {
                Some(f) => f.retransmit,
                None => false,
            },
            next_expected_fsn: match farm {
                Some(f) => f.next_expected_fsn,
                None => 0,
            },
            next_fsn: self.next_fsn(),
            state: match &self.state {
                FopState::Initial { .. } => FopStatusKind::Initial,
                FopState::Active(_) => FopStatusKind::Active,
                FopState::Retransmit(r) => FopStatusKind::Retransmit { count: r.retransmit_count },
            },
        }
    }

    /// The state as a snapshot for status reports.
    pub fn state_view(&self) -> (r: &FopState)
        ensures
            r@ == self@.state,
    {
        &self.state
    }

    /// Takes a CLCW from the receiver: acknowledges, starts or ends
    /// retransmission, and on lockout cancels every frame in flight.
    pub fn handle_clcw(&mut self, clcw: &Clcw, events: &mut Vec<FrameEvent>)
        ensures
            final(self)@.state == clcw_step(old(self)@.state, farm_of(*clcw)).0,
            final(events)@ == old(events)@ + clcw_step(old(self)@.state, farm_of(*clcw)).1,
            final(self)@.last_received_farm_state == Some(farm_of(*clcw)),
            final(self)@.next_frame_id == old(self)@.next_frame_id,
    {
        let farm_state = FarmState {
            next_expected_fsn: clcw.report_value,
            lockout: clcw.lockout,
            wait: clcw.wait,
            retransmit: clcw.retransmit,
        };
        self.last_received_farm_state = Some(farm_state);
        let vr = farm_state.next_expected_fsn;
        let mut state = FopState::Initial { expected_nr: None };
        std::mem::swap(&mut state, &mut self.state);
        let ghost s0 = state@;
        let ghost e0 = events@;
        let state = match state {
            FopState::Initial { expected_nr } => {
                let matches = match expected_nr {
                    Some(e) => e == vr,
                    None => false,
                };
                if matches && !farm_state.lockout {
                    FopState::Active(ActiveState { next_fsn: vr, sent_queue: Vec::new() })
                } else {
                    FopState::Initial { expected_nr }
                }
            },
            FopState::Active(mut state) => {
                state.acknowledge(vr, events);
                if farm_state.retransmit {
                    FopState::Retransmit(
                        RetransmitState {
                            next_fsn: state.next_fsn,
                            retransmit_count: 1,
                            retransmit_sent_queue: Vec::new(),
                            retransmit_wait_queue: state.sent_queue,
                        },
                    )
                } else {
                    FopState::Active(state)
                }
            },
            FopState::Retransmit(mut state) => {
                let completed = state.acknowledge(vr, farm_state.retransmit, events);
                if completed {
                    FopState::Active(ActiveState { next_fsn: state.next_fsn, sent_queue: Vec::new() })
                } else {
                    FopState::Retransmit(state)
                }
            },
        };
        proof {
            assert(queue_view(Seq::<SentFrame>::empty()) =~= Seq::<SentFrameView>::empty());
            assert(state@ == ack_step(s0, farm_state).0);
            assert(events@ == e0 + ack_step(s0, farm_state).1);
        }
        if !farm_state.lockout {
            self.state = state;
            return;
        }
        let ghost s1 = state@;
        let ghost e1 = events@;
        self.state = match state {
            FopState::Initial { expected_nr } => FopState::Initial { expected_nr },
            FopState::Active(state) => {
                cancel_all(state.sent_queue, events);
                FopState::Initial { expected_nr: Some(state.next_fsn) }
            },
            FopState::Retransmit(state) => {
                let ghost sq = state.retransmit_sent_queue@;
                let ghost wq = state.retransmit_wait_queue@;
                cancel_all(state.retransmit_sent_queue, events);
                cancel_all(state.retransmit_wait_queue, events);
                proof {
                    lemma_queue_view_append(sq, wq);
                    assert(cancel_events(queue_view(sq) + queue_view(wq)) =~= cancel_events(queue_view(sq)) + cancel_events(queue_view(wq)));
                }
                FopState::Initial { expected_nr: Some(state.next_fsn) }
            },
        };
        proof {
            assert(events@ =~= e1 + lockout_step(s1).1);
            assert(events@ =~= e0 + ack_step(s0, farm_state).1 + lockout_step(s1).1);
        }
    }

    /// Cancels every frame in flight and waits for the receiver to report
    /// `vr`; returns the Set V(R) control frame to send.
    pub fn set_vr(&mut self, vr: u8, events: &mut Vec<FrameEvent>) -> (r: Frame)
        ensures
            r@ == set_vr_frame(vr),
            final(self)@.state == (FopStateView::Initial { expected_nr: Some(vr) }),
            final(events)@ == old(events)@ + cancel_events(in_flight(old(self)@.state)),
            final(self)@.next_frame_id == old(self)@.next_frame_id,
            final(self)@.last_received_farm_state == old(self)@.last_received_farm_state,
    {
        let mut state = FopState::Initial { expected_nr: Some(vr) };
        std::mem::swap(&mut state, &mut self.state);
        match state {
            FopState::Initial { .. } => {
                assert(cancel_events(Seq::<SentFrameView>::empty()) =~= Seq::<FrameEvent>::empty());
                assert(events@ =~= events@ + Seq::<FrameEvent>::empty());
            },
            FopState::Active(state) => {
                cancel_all(state.sent_queue, events);
            },
            FopState::Retransmit(state) => {
                let ghost sq = state.retransmit_sent_queue@;
                let ghost wq = state.retransmit_wait_queue@;
                let ghost e0 = events@;
                cancel_all(state.retransmit_sent_queue, events);
                cancel_all(state.retransmit_wait_queue, events);
                proof {
                    lemma_queue_view_append(sq, wq);
                    assert(cancel_events(queue_view(sq) + queue_view(wq)) =~= cancel_events(queue_view(sq)) + cancel_events(queue_view(wq)));
                    assert(events@ =~= e0 + cancel_events(queue_view(sq) + queue_view(wq)));
                }
            },
        }
        let frame = Frame {
            id: 0,
            frame_type: FrameType::TypeBC,
            sequence_number: 0,
            data_field: vec![0x82u8, 0x00u8, vr],
        };
        assert(frame@.data_field =~= seq![0x82u8, 0x00u8, vr]);
        frame
    }

    /// The Unlock control frame; the state changes only when a later CLCW
    /// reports the lockout cleared.
    pub fn unlock(&self) -> (r: Frame)
        ensures
            r@ == unlock_frame(),
    {
        let frame = Frame {
            id: 0,
            frame_type: FrameType::TypeBC,
            sequence_number: 0,
            data_field: vec![0x00u8],
        };
        assert(frame@.data_field =~= seq![0x00u8]);
        frame
    }

    /// In Active state, sends `data_field` as the next AD frame at `now`;
    /// in any other state returns `None` and changes nothing.
    pub fn send_ad(&mut self, data_field: Vec<u8>, now: u64, events: &mut Vec<FrameEvent>) -> (r:
        Option<Frame>)
        ensures
            r is Some <==> old(self)@.state is Active,
            r is None ==> final(self)@ == old(self)@ && final(events)@ == old(events)@,
            r matches Some(f) ==> {
                let id = old(self)@.next_frame_id;
                let nf = old(self)@.state->Active_next_fsn;
                let sent = old(self)@.state->Active_sent;
                &&& f@ == (FrameView {
                    id,
                    frame_type: FrameType::TypeAD,
                    sequence_number: nf,
                    data_field: data_field@,
                })
                &&& final(self)@.next_frame_id == inc_id(id)
                &&& final(self)@.state == (FopStateView::Active {
                    next_fsn: nf.wrapping_add(1),
                    sent: sent.push(SentFrameView { frame: f@, sent_at: now }),
                })
                &&& final(self)@.last_received_farm_state == old(self)@.last_received_farm_state
                &&& final(events)@ == old(events)@.push(FrameEvent::Transmit(id))
            },
    {
        match &mut self.state {
            FopState::Active(state) => Some(state.send(&mut self.next_frame_id, data_field, now, events)),
            _ => None,
        }
    }

    /// The periodic tick at `now`: starts retransmission when the oldest
    /// frame has timed out and sends the next frame waiting for it.
    pub fn update(&mut self, now: u64, events: &mut Vec<FrameEvent>) -> (r: Option<Frame>)
        ensures
            final(self)@.state == update_step(old(self)@.state, now).0,
            r matches Some(f) ==> update_step(old(self)@.state, now).1 == Some(f@)
                && final(events)@ == old(events)@.push(FrameEvent::Retransmit(f.id)),
            r is None ==> update_step(old(self)@.state, now).1 is None && final(events)@ == old(
                events,
            )@,
            final(self)@.next_frame_id == old(self)@.next_frame_id,
            final(self)@.last_received_farm_state == old(self)@.last_received_farm_state,
    {
        let mut state = FopState::Initial { expected_nr: None };
        std::mem::swap(&mut state, &mut self.state);
        let state = match state {
            FopState::Active(state) => {
                if state.timeout(now) {
                    FopState::Retransmit(
                        RetransmitState {
                            next_fsn: state.next_fsn,
                            retransmit_count: 1,
                            retransmit_sent_queue: Vec::new(),
                            retransmit_wait_queue: state.sent_queue,
                        },
                    )
                } else {
                    FopState::Active(state)
                }
            },
            other => other,
        };
        proof {
            assert(queue_view(Seq::<SentFrame>::empty()) =~= Seq::<SentFrameView>::empty());
        }
        self.state = state;
        let frame = match &mut self.state {
            FopState::Retransmit(state) => state.update(now),
            _ => None,
        };
        match frame {
            Some(f) => {
                events.push(FrameEvent::Retransmit(f.id));
                Some(f)
            },
            None => None,
        }
    }
}

proof fn lemma_ack_all(q: Seq<SentFrameView>, start: int, vr: u8)
    requires
        0 <= start,
        q.len() <= 127,
        forall|i: int| 0 <= i < q.len() ==> #[trigger] q[i].frame.sequence_number == ((start + i) % 256) as u8,
        vr == ((start + q.len()) % 256) as u8,
    ensures
        ack_len(q, vr) == q.len(),
    decreases q.len(),
{
    if q.len() > 0 {
        let n = q.len() as int;
        let a = q[0].frame.sequence_number;
        assert(a == (start % 256) as u8);
        assert((vr as int - a as int) % 256 == n) by {
            assert(vr as int == (start + n) % 256);
            assert(a as int == start % 256);
            assert(((start + n) % 256 - start % 256) % 256 == n) by (nonlinear_arith)
                requires
                    0 <= start,
                    1 <= n <= 127,
            ;
        }
        assert(a != vr);
        assert forall|i: int| 0 <= i < q.drop_first().len() implies #[trigger] q.drop_first()[i].frame.sequence_number
            == ((start + 1 + i) % 256) as u8 by {
            assert(q[i + 1].frame.sequence_number == ((start + (i + 1)) % 256) as u8);
        }
        lemma_ack_all(q.drop_first(), start + 1, vr);
    }
}

/// The queue holds frames numbered `start`, `start + 1`, ... (mod 256), and
/// the next frame gets the number after the last.
pub open spec fn numbered_from(start: u8, next_fsn: u8, sent: Seq<SentFrameView>) -> bool {
    &&& forall|i: int| 0 <= i < sent.len() ==> #[trigger] sent[i].frame.sequence_number == ((start + i)
        % 256) as u8
    &&& next_fsn == ((start + sent.len()) % 256) as u8
}

/// Sending an AD frame from Active keeps the queue numbered consecutively:
/// after N sends from an empty queue with next number `start`, the queue
/// holds frames `start .. start + N` (mod 256).
pub proof fn lemma_send_keeps_numbering(
    start: u8,
    next_fsn: u8,
    sent: Seq<SentFrameView>,
    f: FrameView,
    now: u64,
)
    requires
        numbered_from(start, next_fsn, sent),
        f.sequence_number == next_fsn,
    ensures
        numbered_from(start, next_fsn.wrapping_add(1), sent.push(SentFrameView { frame: f, sent_at: now })),
{
    let q = sent.push(SentFrameView { frame: f, sent_at: now });
    assert forall|i: int| 0 <= i < q.len() implies #[trigger] q[i].frame.sequence_number == ((start + i)
        % 256) as u8 by {
        if i < sent.len() {
            assert(q[i] == sent[i]);
        }
    }
    let n = sent.len() as int;
    assert(next_fsn.wrapping_add(1) == ((next_fsn as int + 1) % 256) as u8);
    assert(((((start + n) % 256) + 1) % 256) == ((start + n + 1) % 256)) by {
        vstd::arithmetic::div_mod::lemma_add_mod_noop(start + n, 1, 256);
        vstd::arithmetic::div_mod::lemma_small_mod(1, 256);
    }
}

/// From Active, a CLCW without retransmit or lockout whose V(R) follows the
/// last of up to 127 frames sent in a row (numbered from `start`)
/// acknowledges every one of them, in order, and leaves FOP in Active with an
/// empty queue.
pub proof fn lemma_progress(start: u8, sent: Seq<SentFrameView>, f: FarmState)
    requires
        sent.len() <= 127,
        numbered_from(start, f.next_expected_fsn, sent),
        !f.retransmit,
        !f.lockout,
    ensures
        clcw_step(FopStateView::Active { next_fsn: f.next_expected_fsn, sent }, f) == (
        FopStateView::Active { next_fsn: f.next_expected_fsn, sent: Seq::<SentFrameView>::empty() },
        acked_events(sent),
        ),
{
    lemma_ack_all(sent, start as int, f.next_expected_fsn);
    assert(sent.skip(sent.len() as int) =~= Seq::<SentFrameView>::empty());
    assert(sent.take(sent.len() as int) =~= sent);
}

/// On a CLCW that reports lockout FOP returns to Initial, reports each frame
/// that was in flight exactly once, and where the report acknowledges none
/// of them, every one is cancelled, in queue order.
pub proof fn lemma_lockout(s: FopStateView, f: FarmState)
    requires
        f.lockout,
    ensures
        clcw_step(s, f).0 is Initial,
        !(s is Initial) ==> clcw_step(s, f).0 == (FopStateView::Initial { expected_nr: spec_next_fsn(s) }),
        clcw_step(s, f).1.len() == in_flight(s).len(),
        (forall|i: int| 0 <= i < in_flight(s).len() ==> !spec_wrapping_lt(
            #[trigger] in_flight(s)[i].frame.sequence_number,
            f.next_expected_fsn,
        )) ==> clcw_step(s, f).1 == cancel_events(in_flight(s)),
{
    let vr = f.next_expected_fsn;
    match s {
        FopStateView::Initial { .. } => {},
        FopStateView::Active { next_fsn, sent } => {
            let k = ack_len(sent, vr);
            lemma_ack_len_bound(sent, vr);
            if forall|i: int| 0 <= i < in_flight(s).len() ==> !spec_wrapping_lt(
                #[trigger] in_flight(s)[i].frame.sequence_number,
                vr,
            ) {
                lemma_ack_none(sent, vr);
                assert(sent.skip(0) =~= sent);
                assert(sent.take(0) =~= Seq::<SentFrameView>::empty());
                assert(clcw_step(s, f).1 =~= cancel_events(in_flight(s)));
            }
        },
        FopStateView::Retransmit { next_fsn, count, sent, wait } => {
            lemma_ack_len_bound(sent, vr);
            lemma_ack_len_bound(wait, vr);
            if forall|i: int| 0 <= i < in_flight(s).len() ==> !spec_wrapping_lt(
                #[trigger] in_flight(s)[i].frame.sequence_number,
                vr,
            ) {
                assert forall|i: int| 0 <= i < sent.len() implies !spec_wrapping_lt(
                    #[trigger] sent[i].frame.sequence_number,
                    vr,
                ) by {
                    assert(in_flight(s)[i] == sent[i]);
                }
                assert forall|i: int| 0 <= i < wait.len() implies !spec_wrapping_lt(
                    #[trigger] wait[i].frame.sequence_number,
                    vr,
                ) by {
                    assert(in_flight(s)[sent.len() + i] == wait[i]);
                }
                lemma_ack_none(sent, vr);
                lemma_ack_none(wait, vr);
                assert(sent.skip(0) =~= sent);
                assert(wait.skip(0) =~= wait);
                assert(sent.take(0) =~= Seq::<SentFrameView>::empty());
                assert(wait.take(0) =~= Seq::<SentFrameView>::empty());
                assert(cancel_events(sent + wait) =~= cancel_events(sent) + cancel_events(wait));
                assert(clcw_step(s, f).1 =~= cancel_events(in_flight(s)));
            }
        },
    }
}

proof fn lemma_ack_len_bound(q: Seq<SentFrameView>, vr: u8)
    ensures
        ack_len(q, vr) <= q.len(),
    decreases q.len(),
{
    if q.len() > 0 {
        lemma_ack_len_bound(q.drop_first(), vr);
    }
}

proof fn lemma_ack_none(q: Seq<SentFrameView>, vr: u8)
    requires
        forall|i: int| 0 <= i < q.len() ==> !spec_wrapping_lt(#[trigger] q[i].frame.sequence_number, vr),
    ensures
        ack_len(q, vr) == 0,
{
    if q.len() > 0 {
        assert(!spec_wrapping_lt(q[0].frame.sequence_number, vr));
    }
}

} // verus!
