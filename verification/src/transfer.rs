//! Sliding-window sender with cumulative ACKs, and the receiver's
//! out-of-order buffer with an in-order frontier.
//!
//! Conventions:
//! - the sender keeps at most `window` frames in flight;
//! - the receiver answers every frame with a cumulative ACK: the next
//!   sequence number it is still missing (everything below it arrived);
//! - an advancing ACK slides the window and sends new frames; a stalled ACK
//!   triggers one go-back-N retransmission per stall point.

use std::collections::HashMap;

use serde_json::Value;
use vstd::prelude::*;

verus! {

/// Abstract state of a [`WindowedSender`].
pub struct SenderModel {
    pub window: nat,
    pub base: nat,
    pub next: nat,
    pub retx_base: Option<nat>,
}

impl SenderModel {
    /// The sender's invariant: a non-empty window, never more than `window`
    /// frames sent past the acknowledged base, and the last retransmission
    /// point never ahead of the base.
    pub open spec fn wf(self) -> bool {
        &&& self.window >= 1
        &&& self.next <= self.base + self.window
        &&& (self.retx_base matches Some(r) ==> r <= self.base)
    }

    /// Exclusive upper end of the frames that may be in flight.
    pub open spec fn limit(self, total: nat) -> nat {
        let w = self.base + self.window;
        if w < total { w } else { total }
    }

    /// Where `next` stands after a pump.
    pub open spec fn pump_end(self, total: nat) -> nat {
        if self.next < self.limit(total) { self.limit(total) } else { self.next }
    }

    /// The frames a pump hands out: `next, next + 1, ..` up to the limit.
    pub open spec fn pump_frames(self, total: nat) -> Seq<nat> {
        Seq::new((self.pump_end(total) - self.next) as nat, |i: int| (self.next + i) as nat)
    }

    pub open spec fn after_pump(self, total: nat) -> SenderModel {
        SenderModel { next: self.pump_end(total), ..self }
    }

    /// The state from which a go-back-N retransmission pumps.
    pub open spec fn rewound(self) -> SenderModel {
        SenderModel { next: self.base, retx_base: Some(self.base), ..self }
    }

    /// Outcome of a cumulative ACK: (new state, frames to send, whether
    /// every frame is acknowledged afterwards).
    pub open spec fn on_ack(self, ack: nat, total: nat) -> (SenderModel, Seq<nat>, bool) {
        let a = if ack < total { ack } else { total };
        if a > self.base {
            let m = SenderModel { base: a, ..self };
            (m.after_pump(total), m.pump_frames(total), a >= total)
        } else if self.next > self.base && self.retx_base != Some(self.base) {
            (self.rewound().after_pump(total), self.rewound().pump_frames(total), self.base >= total)
        } else {
            (self, Seq::empty(), self.base >= total)
        }
    }

    /// Outcome of an ACK timeout: (new state, frames to resend).
    pub open spec fn go_back_n(self, total: nat) -> (SenderModel, Seq<nat>) {
        if self.next <= self.base {
            (self, Seq::empty())
        } else {
            (self.rewound().after_pump(total), self.rewound().pump_frames(total))
        }
    }
}

/// Converts a sequence of frame numbers to its mathematical form.
pub open spec fn frames_view(v: Seq<usize>) -> Seq<nat> {
    v.map_values(|x: usize| x as nat)
}

/// Sender side of the sliding window (pure state; sending is the caller's job).
#[derive(Debug, Clone)]
pub struct WindowedSender {
    window: usize,
    /// First unacknowledged frame = the peer's cumulative ACK.
    base: usize,
    /// Next frame to send.
    next: usize,
    /// Stall point of the last go-back-N; the base only grows, so each stall
    /// point retransmits once.
    retx_base: Option<usize>,
}

impl View for WindowedSender {
    type V = SenderModel;

    closed spec fn view(&self) -> SenderModel {
        SenderModel {
            window: self.window as nat,
            base: self.base as nat,
            next: self.next as nat,
            retx_base: match self.retx_base {
                Some(r) => Some(r as nat),
                None => None,
            },
        }
    }
}

impl WindowedSender {
    /// A sender with the given window (at least one frame), nothing sent yet.
    pub fn new(window: usize) -> (s: Self)
        ensures
            s@.wf(),
            s@.window == if window < 1 { 1 } else { window as nat },
            s@.base == 0,
            s@.next == 0,
            s@.retx_base is None,
            forall|t: nat| #[trigger] in_transfer(s@, t),
    {
        Self { window: if window < 1 { 1 } else { window }, base: 0, next: 0, retx_base: None }
    }

    /// The cumulative acknowledgement front (= number of acknowledged frames).
    pub fn base(&self) -> (b: usize)
        ensures
            b as nat == self@.base,
    {
        self.base
    }

    /// Collects the frames of the window that are still to send:
    /// `[next, min(base + window, total))`.
    pub fn pump(&mut self, total: usize) -> (out: Vec<usize>)
        requires
            old(self)@.wf(),
        ensures
            final(self)@.wf(),
            final(self)@ == old(self)@.after_pump(total as nat),
            frames_view(out@) == old(self)@.pump_frames(total as nat),
            in_transfer(old(self)@, total as nat) ==> in_transfer(final(self)@, total as nat)
                && frames_in_window(final(self)@, frames_view(out@), total as nat),
    {
        proof {
            if in_transfer(self@, total as nat) {
                law_at_most_window_in_flight(self@, 0, total as nat);
            }
        }
        let mut out: Vec<usize> = Vec::new();
        let ghost start = self.next as nat;
        while self.next < total && (self.next < self.base || self.next - self.base < self.window)
            invariant
                self.window == old(self).window,
                self.base == old(self).base,
                self.retx_base == old(self).retx_base,
                start == old(self).next,
                start <= self.next,
                self.next <= old(self)@.pump_end(total as nat),
                frames_view(out@) == Seq::new(
                    (self.next - start) as nat,
                    |i: int| (start + i) as nat,
                ),
            decreases total - self.next,
        {
            let ghost prev = out@;
            out.push(self.next);
            assert(out@ == prev.push(self.next));
            assert(frames_view(out@) =~= frames_view(prev).push(self.next as nat));
            self.next = self.next + 1;
            assert(frames_view(out@) =~= Seq::new(
                (self.next - start) as nat,
                |i: int| (start + i) as nat,
            ));
        }
        assert(frames_view(out@) =~= old(self)@.pump_frames(total as nat));
        out
    }

    /// Handles a cumulative ACK: an advancing ACK slides the window and sends
    /// the new frames; a stalled ACK retransmits the whole window once per
    /// stall point. Returns (frames to send, everything acknowledged).
    pub fn on_ack(&mut self, ack: usize, total: usize) -> (res: (Vec<usize>, bool))
        requires
            old(self)@.wf(),
        ensures
            final(self)@.wf(),
            final(self)@ == old(self)@.on_ack(ack as nat, total as nat).0,
            frames_view(res.0@) == old(self)@.on_ack(ack as nat, total as nat).1,
            res.1 == old(self)@.on_ack(ack as nat, total as nat).2,
            res.1 == (final(self)@.base >= total),
            in_transfer(old(self)@, total as nat) && ack <= old(self)@.next ==> in_transfer(
                final(self)@,
                total as nat,
            ) && frames_in_window(final(self)@, frames_view(res.0@), total as nat),
    {
        proof {
            if in_transfer(self@, total as nat) {
                law_at_most_window_in_flight(self@, ack as nat, total as nat);
            }
        }
        let ack = if ack < total { ack } else { total };
        if ack > self.base {
            self.base = ack;
            let sends = self.pump(total);
            return (sends, self.base >= total);
        }
        let stalled_again = match self.retx_base {
            Some(r) => r == self.base,
            None => false,
        };
        if self.next > self.base && !stalled_again {
            self.retx_base = Some(self.base);
            self.next = self.base;
            let sends = self.pump(total);
            return (sends, self.base >= total);
        }
        (Vec::new(), self.base >= total)
    }

    /// ACK timeout: resends the whole window `[base, next)`. A window lost as a
    /// whole produces no duplicate ACK, so only the timeout can drive it; the
    /// stall point is marked so that the duplicate ACKs that follow do not
    /// retransmit a second time.
    pub fn go_back_n(&mut self, total: usize) -> (out: Vec<usize>)
        requires
            old(self)@.wf(),
        ensures
            final(self)@.wf(),
            final(self)@ == old(self)@.go_back_n(total as nat).0,
            frames_view(out@) == old(self)@.go_back_n(total as nat).1,
            in_transfer(old(self)@, total as nat) ==> in_transfer(final(self)@, total as nat)
                && frames_in_window(final(self)@, frames_view(out@), total as nat),
    {
        proof {
            if in_transfer(self@, total as nat) {
                law_at_most_window_in_flight(self@, 0, total as nat);
            }
        }
        if self.next <= self.base {
            return Vec::new();
        }
        self.retx_base = Some(self.base);
        self.next = self.base;
        self.pump(total)
    }
}


/// The ACK value as the sender reads it: never past the last frame.
pub open spec fn clamp_ack(ack: nat, total: nat) -> nat {
    if ack < total { ack } else { total }
}

/// A pump hands out consecutive frame numbers starting at `next`, each below
/// `total` and inside the window, and keeps the sender's invariant.
pub proof fn law_pump_stays_in_window(m: SenderModel, total: nat)
    requires
        m.wf(),
    ensures
        m.after_pump(total).wf(),
        forall|i: int|
            0 <= i < m.pump_frames(total).len() ==> {
                &&& #[trigger] m.pump_frames(total)[i] == m.next + i
                &&& m.pump_frames(total)[i] < total
                &&& m.pump_frames(total)[i] < m.base + m.window
            },
{
}

/// The acknowledged front never moves backwards, and every operation keeps
/// the window invariant (at most `window` frames in flight).
pub proof fn law_base_monotone(m: SenderModel, ack: nat, total: nat)
    requires
        m.wf(),
    ensures
        m.on_ack(ack, total).0.base >= m.base,
        m.on_ack(ack, total).0.wf(),
        m.on_ack(ack, total).0.window == m.window,
        m.on_ack(ack, total).2 == (m.on_ack(ack, total).0.base >= total),
        m.go_back_n(total).0.base == m.base,
        m.go_back_n(total).0.wf(),
        m.after_pump(total).base == m.base,
{
}

/// An ACK reports completion exactly when every frame is acknowledged after
/// it; an advancing ACK moves the front to the ACK value.
pub proof fn law_advancing_ack(m: SenderModel, ack: nat, total: nat)
    requires
        m.wf(),
        clamp_ack(ack, total) > m.base,
    ensures
        m.on_ack(ack, total).0.base == clamp_ack(ack, total),
        m.on_ack(ack, total).2 == (clamp_ack(ack, total) >= total),
        m.on_ack(ack, total).1 == (SenderModel { base: clamp_ack(ack, total), ..m }).pump_frames(total),
{
}

/// Each stall point is retransmitted at most once: after a non-advancing ACK,
/// the same ACK again sends nothing and changes nothing.
pub proof fn law_one_retransmission_per_stall(m: SenderModel, ack: nat, total: nat)
    requires
        m.wf(),
        clamp_ack(ack, total) <= m.base,
    ensures
        m.on_ack(ack, total).0.on_ack(ack, total).1.len() == 0,
        m.on_ack(ack, total).0.on_ack(ack, total).0 == m.on_ack(ack, total).0,
        m.on_ack(ack, total).0.on_ack(ack, total).2 == (m.base >= total),
{
}

/// A timeout retransmission marks its stall point: a duplicate ACK that
/// follows it does not retransmit again.
pub proof fn law_timeout_marks_stall(m: SenderModel, ack: nat, total: nat)
    requires
        m.wf(),
        clamp_ack(ack, total) <= m.base,
    ensures
        m.go_back_n(total).0.on_ack(ack, total).1.len() == 0,
{
}

/// A retransmission (by timeout or by a stalled ACK) restarts at the
/// acknowledged front and never resends an acknowledged frame.
pub proof fn law_retransmit_from_base(m: SenderModel, ack: nat, total: nat)
    requires
        m.wf(),
    ensures
        m.go_back_n(total).1.len() > 0 ==> m.go_back_n(total).1[0] == m.base,
        clamp_ack(ack, total) <= m.base && m.on_ack(ack, total).1.len() > 0 ==> m.on_ack(
            ack,
            total,
        ).1[0] == m.base,
        forall|i: int|
            0 <= i < m.go_back_n(total).1.len() ==> #[trigger] m.go_back_n(total).1[i] >= m.base,
{
}


/// The sender in the course of a transfer: the acknowledged front is never
/// past the next frame to send, nor that past the last frame.
pub open spec fn in_transfer(m: SenderModel, total: nat) -> bool {
    m.wf() && m.base <= m.next && m.next <= total
}

/// Every frame handed out lies in the window of the state after the call.
pub open spec fn frames_in_window(after: SenderModel, frames: Seq<nat>, total: nat) -> bool {
    forall|i: int|
        0 <= i < frames.len() ==> after.base <= #[trigger] frames[i] && frames[i] < after.base
            + after.window && frames[i] < total
}

/// At most `window` frames are ever in flight: starting from a new sender
/// (which is in transfer), as long as the receiver only acknowledges frames
/// that were sent (an ACK never beyond `next`), every pump, ACK and timeout
/// keeps the sender in transfer and hands out only frames of
/// `[base, min(base + window, total))` for the front after the call. By
/// induction over the calls, this holds of every call of a transfer.
pub proof fn law_at_most_window_in_flight(m: SenderModel, ack: nat, total: nat)
    requires
        in_transfer(m, total),
    ensures
        in_transfer(m.after_pump(total), total),
        frames_in_window(m.after_pump(total), m.pump_frames(total), total),
        in_transfer(m.go_back_n(total).0, total),
        frames_in_window(m.go_back_n(total).0, m.go_back_n(total).1, total),
        ack <= m.next ==> in_transfer(m.on_ack(ack, total).0, total),
        ack <= m.next ==> frames_in_window(m.on_ack(ack, total).0, m.on_ack(ack, total).1, total),
        (SenderModel { window: m.window, base: 0, next: 0, retx_base: None }).wf() ==> in_transfer(
            SenderModel { window: m.window, base: 0, next: 0, retx_base: None },
            total,
        ),
{
}

#[verifier::external_type_specification]
#[verifier::external_body]
pub struct ExJsonValue(Value);

/// Abstract state of a [`RecvFrontier`]: the next missing sequence number and
/// the frames buffered beyond it.
pub struct RecvModel {
    pub next: nat,
    pub buf: Map<usize, Value>,
}

impl RecvModel {
    /// Everything buffered lies strictly beyond the frontier (so the frontier
    /// itself is missing), and below the largest sequence number.
    pub open spec fn wf(self) -> bool {
        forall|k: usize| #[trigger] self.buf.contains_key(k) ==> self.next < k && k < usize::MAX
    }

    /// What taking in frame `gseq` with `msg` does, as `insert` performs it:
    /// a duplicate (already consumed or buffered) changes nothing and
    /// delivers nothing; a new frame is buffered and the run of consecutive
    /// frames from the frontier is delivered in order and leaves the buffer.
    pub open spec fn insert_step(
        self,
        gseq: usize,
        msg: Value,
        after: RecvModel,
        out: Seq<Value>,
        dup: bool,
    ) -> bool {
        if gseq < self.next || self.buf.contains_key(gseq) {
            &&& dup
            &&& out.len() == 0
            &&& after == self
        } else {
            let b = self.buf.insert(gseq, msg);
            let start = self.next;
            &&& !dup
            &&& after.next == start + out.len()
            &&& forall|j: usize| start <= j < after.next ==> #[trigger] b.contains_key(j)
            &&& forall|i: int| 0 <= i < out.len() ==> #[trigger] out[i] == b[(start + i) as usize]
            &&& after.next < usize::MAX ==> !b.contains_key(after.next as usize)
            &&& after.buf == b.remove_keys(RecvModel::span(start, after.next))
        }
    }

    /// Sequence numbers `[from, to)`.
    pub open spec fn span(from: nat, to: nat) -> Set<usize> {
        Set::new(|j: usize| from <= j && j < to)
    }
}

/// The message of the first arrival of frame `j` among `arrivals`, if any.
pub open spec fn first_msg(arrivals: Seq<(usize, Value)>, j: usize) -> Option<Value>
    decreases arrivals.len(),
{
    if arrivals.len() == 0 {
        None
    } else {
        match first_msg(arrivals.drop_last(), j) {
            Some(v) => Some(v),
            None => if arrivals.last().0 == j {
                Some(arrivals.last().1)
            } else {
                None
            },
        }
    }
}

/// The deliveries of successive calls, joined in call order.
pub open spec fn joined(outs: Seq<Seq<Value>>) -> Seq<Value>
    decreases outs.len(),
{
    if outs.len() == 0 {
        Seq::empty()
    } else {
        joined(outs.drop_last()) + outs.last()
    }
}

/// The receiver after the frames `arrivals` came in, in that order, and
/// `delivered` went out: every frame below the frontier was delivered, in
/// order, as its first arrival carried it; beyond the frontier exactly the
/// frames that arrived are buffered, each with its first arrival's message.
pub open spec fn delivered_in_order(m: RecvModel, arrivals: Seq<(usize, Value)>, delivered: Seq<Value>) -> bool {
    &&& m.wf()
    &&& delivered.len() == m.next
    &&& forall|j: usize| j < m.next ==> #[trigger] first_msg(arrivals, j) == Some(delivered[j as int])
    &&& forall|k: usize|
        k >= m.next ==> (#[trigger] m.buf.contains_key(k) <==> first_msg(arrivals, k) is Some)
    &&& forall|k: usize| #[trigger] m.buf.contains_key(k) ==> first_msg(arrivals, k) == Some(m.buf[k])
}

proof fn lemma_first_msg_push(arrivals: Seq<(usize, Value)>, a: (usize, Value), j: usize)
    ensures
        first_msg(arrivals.push(a), j) == match first_msg(arrivals, j) {
            Some(v) => Some(v),
            None => if a.0 == j {
                Some(a.1)
            } else {
                None
            },
        },
{
    assert(arrivals.push(a).drop_last() =~= arrivals);
}

proof fn lemma_insert_keeps_order(
    m: RecvModel,
    arrivals: Seq<(usize, Value)>,
    delivered: Seq<Value>,
    gseq: usize,
    msg: Value,
    after: RecvModel,
    out: Seq<Value>,
    dup: bool,
)
    requires
        delivered_in_order(m, arrivals, delivered),
        gseq < usize::MAX,
        m.insert_step(gseq, msg, after, out, dup),
        after.wf(),
        after.next <= usize::MAX,
    ensures
        delivered_in_order(after, arrivals.push((gseq, msg)), delivered + out),
{
    let arr2 = arrivals.push((gseq, msg));
    assert forall|j: usize| #[trigger] first_msg(arr2, j) == match first_msg(arrivals, j) {
        Some(v) => Some(v),
        None => if gseq == j {
            Some(msg)
        } else {
            None
        },
    } by {
        lemma_first_msg_push(arrivals, (gseq, msg), j);
    }
    if gseq < m.next || m.buf.contains_key(gseq) {
        assert(first_msg(arrivals, gseq) is Some) by {
            if gseq < m.next {
                assert(first_msg(arrivals, gseq) == Some(delivered[gseq as int]));
            } else {
                assert(first_msg(arrivals, gseq) == Some(m.buf[gseq]));
            }
        }
        assert forall|j: usize| #[trigger] first_msg(arr2, j) == first_msg(arrivals, j) by {
            if first_msg(arrivals, j) is None {
                assert(j != gseq);
            }
        }
        assert(delivered + out =~= delivered);
    } else {
        let b = m.buf.insert(gseq, msg);
        let start = m.next;
        let d2 = delivered + out;
        assert(first_msg(arrivals, gseq) is None);
        assert forall|k: usize| #[trigger] b.contains_key(k) implies k >= start && first_msg(arr2, k) == Some(b[k]) by {
            if k != gseq {
                assert(m.buf.contains_key(k));
                assert(first_msg(arrivals, k) == Some(m.buf[k]));
            }
        }
        assert forall|k: usize| k >= start implies (#[trigger] b.contains_key(k) <==> first_msg(arr2, k) is Some) by {
            if k != gseq {
                if first_msg(arrivals, k) is Some {
                    assert(m.buf.contains_key(k));
                }
            }
        }
        assert forall|j: usize| j < after.next implies #[trigger] first_msg(arr2, j) == Some(d2[j as int]) by {
            if j < start {
                assert(first_msg(arrivals, j) == Some(delivered[j as int]));
            } else {
                assert(b.contains_key(j));
                let i = j - start;
                assert(out[i] == b[(start + i) as usize]);
                assert(d2[j as int] == out[i]);
            }
        }
        assert forall|k: usize| k >= after.next implies (#[trigger] after.buf.contains_key(k) <==> first_msg(
            arr2,
            k,
        ) is Some) by {
            assert(!RecvModel::span(start, after.next).contains(k));
            assert(after.buf.contains_key(k) == b.contains_key(k));
        }
        assert forall|k: usize| #[trigger] after.buf.contains_key(k) implies first_msg(arr2, k) == Some(
            after.buf[k],
        ) by {
            assert(b.contains_key(k));
            assert(after.buf[k] == b[k]);
        }
    }
}

/// A run of `insert` calls on a new receiver: call `i` takes in
/// `arrivals[i]` in state `models[i]`, leaves `models[i + 1]` and delivers
/// `outs[i]` (`dups[i]` telling a duplicate).
pub open spec fn insert_run(
    arrivals: Seq<(usize, Value)>,
    models: Seq<RecvModel>,
    outs: Seq<Seq<Value>>,
    dups: Seq<bool>,
) -> bool {
    &&& models.len() == arrivals.len() + 1
    &&& outs.len() == arrivals.len()
    &&& dups.len() == arrivals.len()
    &&& models[0].next == 0
    &&& models[0].buf == Map::<usize, Value>::empty()
    &&& forall|i: int|
        0 <= i < arrivals.len() ==> {
            &&& arrivals[i].0 < usize::MAX
            &&& #[trigger] models[i].insert_step(arrivals[i].0, arrivals[i].1, models[i + 1], outs[i], dups[i])
            &&& models[i + 1].wf()
            &&& models[i + 1].next <= usize::MAX
        }
}

proof fn lemma_prefix_in_order(
    arrivals: Seq<(usize, Value)>,
    models: Seq<RecvModel>,
    outs: Seq<Seq<Value>>,
    dups: Seq<bool>,
    n: int,
)
    requires
        0 <= n <= arrivals.len(),
        insert_run(arrivals, models, outs, dups),
    ensures
        delivered_in_order(models[n], arrivals.take(n), joined(outs.take(n))),
    decreases n,
{
    if n == 0 {
        assert(joined(outs.take(0)) =~= Seq::<Value>::empty());
        assert forall|k: usize| first_msg(arrivals.take(0), k) is None by {}
    } else {
        lemma_prefix_in_order(arrivals, models, outs, dups, n - 1);
        let i = n - 1;
        assert(models[i].insert_step(arrivals[i].0, arrivals[i].1, models[i + 1], outs[i], dups[i]));
        lemma_insert_keeps_order(
            models[i],
            arrivals.take(i),
            joined(outs.take(i)),
            arrivals[i].0,
            arrivals[i].1,
            models[n],
            outs[i],
            dups[i],
        );
        assert(arrivals.take(i).push((arrivals[i].0, arrivals[i].1)) =~= arrivals.take(n));
        assert(outs.take(n).drop_last() =~= outs.take(i));
        assert(joined(outs.take(n)) == joined(outs.take(i)) + outs[i]);
    }
}

/// In-order delivery whatever the arrival order: starting from an empty
/// receiver, after any run of `insert` calls (re-sends included), the
/// deliveries joined in call order are the frames below the frontier, each
/// once and as its first arrival carried it, and exactly the frames beyond
/// the frontier that arrived wait in the buffer. So when the frames that
/// arrived are exactly `0..n`, all of them were delivered, in order: the
/// frontier is `n`.
pub proof fn law_in_order_delivery(
    arrivals: Seq<(usize, Value)>,
    models: Seq<RecvModel>,
    outs: Seq<Seq<Value>>,
    dups: Seq<bool>,
    n: usize,
)
    requires
        insert_run(arrivals, models, outs, dups),
    ensures
        delivered_in_order(models.last(), arrivals, joined(outs)),
        (forall|j: usize| #[trigger] first_msg(arrivals, j) is Some <==> j < n) ==> {
            &&& models.last().next == n
            &&& joined(outs).len() == n
            &&& forall|j: usize| j < n ==> Some(#[trigger] joined(outs)[j as int]) == first_msg(arrivals, j)
        },
{
    let len = arrivals.len() as int;
    lemma_prefix_in_order(arrivals, models, outs, dups, len);
    assert(arrivals.take(len) =~= arrivals);
    assert(outs.take(len) =~= outs);
    let m = models.last();
    if forall|j: usize| #[trigger] first_msg(arrivals, j) is Some <==> j < n {
        if m.next > n {
            assert(first_msg(arrivals, n) == Some(joined(outs)[n as int]));
        }
        if m.next < n {
            let f = m.next as usize;
            assert(first_msg(arrivals, f) is Some);
            assert(m.buf.contains_key(f));
        }
    }
}

/// In-order delivery over the receiver's real calls: whatever the frames
/// taken in since `new` (in any order, re-sends included), the messages
/// delivered, joined in call order, are the frames below the frontier, each
/// once and as its first arrival carried it; exactly the frames beyond the
/// frontier that arrived wait in the buffer. When the frames that arrived
/// are exactly `0..n`, all of them were delivered, in order, and the
/// frontier is `n`.
pub proof fn law_frontier_delivers_in_order(r: &RecvFrontier, n: usize)
    requires
        r.history_wf(),
    ensures
        delivered_in_order(r@, r.arrivals(), r.delivered()),
        (forall|j: usize| #[trigger] first_msg(r.arrivals(), j) is Some <==> j < n) ==> {
            &&& r@.next == n
            &&& r.delivered().len() == n
            &&& forall|j: usize| j < n ==> Some(#[trigger] r.delivered()[j as int]) == first_msg(r.arrivals(), j)
        },
{
    let m = r@;
    let arr = r.arrivals();
    let d = r.delivered();
    if forall|j: usize| #[trigger] first_msg(arr, j) is Some <==> j < n {
        if m.next > n {
            assert(first_msg(arr, n) == Some(d[n as int]));
        }
        if m.next < n {
            let f = m.next as usize;
            assert(first_msg(arr, f) is Some);
            assert(m.buf.contains_key(f));
        }
    }
}

/// A timeout retransmission repeated at once resends the same frames, and
/// changes nothing more.
pub proof fn law_go_back_n_repeats(m: SenderModel, total: nat)
    requires
        m.wf(),
    ensures
        m.go_back_n(total).0.go_back_n(total).1 == m.go_back_n(total).1,
        m.go_back_n(total).0.go_back_n(total).0 == m.go_back_n(total).0,
{
}

/// The frames `[base, min(base + window, total))`: the whole window.
pub open spec fn window_frames(m: SenderModel, total: nat) -> Seq<nat> {
    let end = if m.base + m.window < total { m.base + m.window } else { total };
    Seq::new((end - m.base) as nat, |i: int| (m.base + i) as nat)
}

/// Go-back-N once per stall point, in a transfer: the first ACK that does
/// not advance, with frames in flight and no retransmission yet at this
/// front, resends the whole window and reports that not everything is
/// acknowledged; any non-advancing ACK after it sends nothing and reports
/// the same.
pub proof fn law_stall_resends_window_once(m: SenderModel, ack: nat, ack2: nat, total: nat)
    requires
        in_transfer(m, total),
        clamp_ack(ack, total) <= m.base,
        m.next > m.base,
        m.retx_base != Some(m.base),
    ensures
        m.on_ack(ack, total).0.base == m.base,
        m.on_ack(ack, total).1 == window_frames(m, total),
        !m.on_ack(ack, total).2,
        clamp_ack(ack2, total) <= m.base ==> m.on_ack(ack, total).0.on_ack(ack2, total).1.len() == 0
            && !m.on_ack(ack, total).0.on_ack(ack2, total).2,
{
    assert(m.on_ack(ack, total).1 =~= window_frames(m, total));
}

/// An ACK timeout in a transfer: with nothing in flight it sends nothing and
/// changes nothing; otherwise it resends the whole window, keeps the front,
/// gives the same frames when repeated at once, and a non-advancing ACK
/// after it sends nothing and reports that not everything is acknowledged.
pub proof fn law_timeout_resends_window(m: SenderModel, ack: nat, total: nat)
    requires
        in_transfer(m, total),
    ensures
        m.next <= m.base ==> m.go_back_n(total).0 == m && m.go_back_n(total).1.len() == 0,
        m.next > m.base ==> {
            &&& m.go_back_n(total).1 == window_frames(m, total)
            &&& m.go_back_n(total).0.base == m.base
            &&& m.go_back_n(total).0.go_back_n(total).1 == m.go_back_n(total).1
            &&& clamp_ack(ack, total) <= m.base ==> m.go_back_n(total).0.on_ack(ack, total).1.len() == 0
                && !m.go_back_n(total).0.on_ack(ack, total).2
        },
{
    if m.next > m.base {
        assert(m.go_back_n(total).1 =~= window_frames(m, total));
    }
}

/// Receiver side: out-of-order buffer plus an in-order frontier.
pub struct RecvFrontier {
    /// The next missing sequence number (= the cumulative ACK sent back).
    next: usize,
    /// Out-of-order frames beyond the frontier: sequence number to message.
    buf: HashMap<usize, Value>,
    /// Every frame taken in so far, in arrival order.
    arrivals: Ghost<Seq<(usize, Value)>>,
    /// Every message delivered so far, in delivery order.
    delivered: Ghost<Seq<Value>>,
}

impl View for RecvFrontier {
    type V = RecvModel;

    closed spec fn view(&self) -> RecvModel {
        RecvModel { next: self.next as nat, buf: self.buf@ }
    }
}

impl Default for RecvFrontier {
    fn default() -> (r: Self)
        ensures
            r@.next == 0,
            r@.buf == Map::<usize, Value>::empty(),
            r@.wf(),
            r.arrivals().len() == 0,
            r.delivered().len() == 0,
            r.history_wf(),
    {
        let r = RecvFrontier {
            next: 0,
            buf: HashMap::new(),
            arrivals: Ghost(Seq::empty()),
            delivered: Ghost(Seq::empty()),
        };
        proof {
            assert forall|k: usize| first_msg(r.arrivals@, k) is None by {}
        }
        r
    }
}

impl RecvFrontier {
    /// The frames taken in so far, in arrival order.
    pub closed spec fn arrivals(&self) -> Seq<(usize, Value)> {
        self.arrivals@
    }

    /// The messages delivered so far, in delivery order.
    pub closed spec fn delivered(&self) -> Seq<Value> {
        self.delivered@
    }

    /// The receiver's history invariant: what was delivered and what is
    /// buffered follow from what arrived (see `delivered_in_order`).
    pub closed spec fn history_wf(&self) -> bool {
        delivered_in_order(self@, self.arrivals@, self.delivered@)
    }

    /// An empty receiver expecting frame 0.
    pub fn new() -> (r: Self)
        ensures
            r@.next == 0,
            r@.buf == Map::<usize, Value>::empty(),
            r@.wf(),
            r.arrivals().len() == 0,
            r.delivered().len() == 0,
            r.history_wf(),
    {
        Self::default()
    }

    /// Takes in one frame. A duplicate (already buffered or already consumed)
    /// only reports the current frontier; a new frame is buffered and then
    /// every consecutive frame from the frontier on is taken out in order.
    /// Returns (messages ready in order, current frontier, duplicate). The
    /// frame joins the arrivals and the messages ready join the deliveries.
    pub fn insert(&mut self, gseq: usize, msg: Value) -> (res: (Vec<Value>, usize, bool))
        requires
            old(self).history_wf(),
            gseq < usize::MAX,
        ensures
            final(self)@.wf(),
            final(self).history_wf(),
            res.1 as nat == final(self)@.next,
            old(self)@.insert_step(gseq, msg, final(self)@, res.0@, res.2),
            final(self).arrivals() == old(self).arrivals().push((gseq, msg)),
            final(self).delivered() == old(self).delivered() + res.0@,
    {
        let ghost m0 = self@;
        let ghost a0 = self.arrivals@;
        let ghost d0 = self.delivered@;
        let res = self.take_in(gseq, msg);
        proof {
            lemma_insert_keeps_order(m0, a0, d0, gseq, msg, self@, res.0@, res.2);
        }
        self.arrivals = Ghost(a0.push((gseq, msg)));
        self.delivered = Ghost(d0 + res.0@);
        res
    }

    fn take_in(&mut self, gseq: usize, msg: Value) -> (res: (Vec<Value>, usize, bool))
        requires
            old(self)@.wf(),
            gseq < usize::MAX,
        ensures
            final(self)@.wf(),
            res.1 as nat == final(self)@.next,
            old(self)@.insert_step(gseq, msg, final(self)@, res.0@, res.2),
            final(self).arrivals == old(self).arrivals,
            final(self).delivered == old(self).delivered,
    {
        broadcast use vstd::std_specs::hash::group_hash_axioms;

        if gseq < self.next {
            return (Vec::new(), self.next, true);
        }
        if self.buf.contains_key(&gseq) {
            return (Vec::new(), self.next, true);
        }
        let ghost start = self.next as nat;
        let ghost b = self.buf@.insert(gseq, msg);
        self.buf.insert(gseq, msg);
        assert(self.buf@.remove_keys(RecvModel::span(start, start)) =~= self.buf@);
        let mut ready: Vec<Value> = Vec::new();
        loop
            invariant
                b == old(self)@.buf.insert(gseq, msg),
                start == old(self)@.next,
                self.arrivals == old(self).arrivals,
                self.delivered == old(self).delivered,
                old(self)@.wf(),
                gseq < usize::MAX,
                start <= self.next,
                ready@.len() == self.next - start,
                forall|j: usize| start <= j < self.next ==> #[trigger] b.contains_key(j),
                forall|i: int| 0 <= i < ready@.len() ==> #[trigger] ready@[i] == b[(start + i) as usize],
                self.buf@ == b.remove_keys(RecvModel::span(start, self.next as nat)),
            ensures
                start <= self.next,
                ready@.len() == self.next - start,
                forall|j: usize| start <= j < self.next ==> #[trigger] b.contains_key(j),
                forall|i: int| 0 <= i < ready@.len() ==> #[trigger] ready@[i] == b[(start + i) as usize],
                self.buf@ == b.remove_keys(RecvModel::span(start, self.next as nat)),
                !b.contains_key(self.next),
            decreases self.buf@.dom().len(),
        {
            let ghost before = self.buf@;
            match self.buf.remove(&self.next) {
                Some(m) => {
                    assert(before.contains_key(self.next) && before[self.next] == m);
                    assert(b.contains_key(self.next) && b[self.next] == m);
                    let ghost prev = ready@;
                    ready.push(m);
                    assert forall|i: int|
                        0 <= i < ready@.len() implies #[trigger] ready@[i] == b[(start + i) as usize] by {
                        if i < prev.len() {
                            assert(ready@[i] == prev[i]);
                        } else {
                            assert(i == prev.len());
                            assert((start + i) as usize == self.next);
                        }
                    }
                    self.next = self.next + 1;
                    assert(self.buf@ =~= b.remove_keys(RecvModel::span(start, self.next as nat)));
                    assert(self.buf@.dom().len() < before.dom().len()) by {
                        assert(before.dom().contains((self.next - 1) as usize));
                        assert(self.buf@.dom() =~= before.dom().remove((self.next - 1) as usize));
                    }
                },
                None => {
                    assert(self.buf@ =~= before);
                    assert(!before.contains_key(self.next));
                    assert(!b.contains_key(self.next));
                    break;
                },
            }
        }
        (ready, self.next, false)
    }
}

} // verus!
