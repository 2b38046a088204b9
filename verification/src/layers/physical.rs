//! The physical layer: frames and a one-directional transmission medium.
//!
//! A [`SimplexChannel`] runs the channel error model over each sent frame,
//! mutating its standing Markov state, and schedules the frame's arrival as
//! a future event on the event loop.  Whoever pumps the loop hands a popped
//! [`SimAction::Arrival`] back to the owning channel via
//! [`SimplexChannel::deliver`]; [`SimplexChannel::receive`] then yields
//! deliveries in arrival order.

#![verifier::loop_isolation(false)]

use vstd::prelude::*;

use crate::channel::transmit_bits;
use crate::common::{FRAME_OVERHEAD, MAX_FRAME_BITS, MAX_SIM_TIME, PROCESSING_DELAY};
use crate::event_loop::{Event, EventLoop};

verus! {

/// A physical-layer frame.
#[derive(Debug, PartialEq, Eq)]
pub enum Frame {
    /// Receive-ready: a positive acknowledgment of this sequence number.
    Rr(i64),
    /// Selective reject: names the next sequence number still expected.
    Srej(i64),
    /// A data frame carrying this payload.
    Data(Vec<u8>),
    /// Sentinel for a frame that arrived unusable.  It is a receive-side
    /// outcome only and must never itself be put on the wire.
    Corrupted,
}

impl Frame {
    /// Valid to put on the wire: not the [`Frame::Corrupted`] sentinel, and
    /// with a payload small enough that the frame's bit size stays within
    /// [`MAX_FRAME_BITS`].
    pub open spec fn sendable(&self) -> bool {
        match self {
            Frame::Corrupted => false,
            Frame::Data(data) => data@.len() * 8 + FRAME_OVERHEAD <= MAX_FRAME_BITS,
            _ => true,
        }
    }

    /// The frame's size on the wire, in bits: control frames cost the
    /// header alone, a data frame its payload plus the header.
    pub open spec fn spec_size_bits(&self) -> int
        recommends
            !(self is Corrupted),
    {
        match self {
            Frame::Data(data) => data@.len() * 8 + FRAME_OVERHEAD,
            _ => FRAME_OVERHEAD as int,
        }
    }

    /// Returns the size of the frame in bits.  Corrupted frames have no
    /// transmission size and are excluded by the precondition.
    pub fn size_bits(&self) -> (r: u64)
        requires
            self.sendable(),
        ensures
            r == self.spec_size_bits(),
            FRAME_OVERHEAD <= r <= MAX_FRAME_BITS,
    {
        match self {
            Frame::Rr(_) => FRAME_OVERHEAD,
            Frame::Srej(_) => FRAME_OVERHEAD,
            Frame::Data(data) => data.len() as u64 * 8 + FRAME_OVERHEAD,
            Frame::Corrupted => {
                proof {
                    assert(false);
                }
                0
            },
        }
    }
}

/// The deferred work a simulation schedules on its event loop: what the
/// pump finds when [`EventLoop::advance`] pops an event.
#[derive(Debug, PartialEq, Eq)]
pub enum SimAction {
    /// A frame reaching the far end of the channel with this id; the pump
    /// hands it to that channel's [`SimplexChannel::deliver`].
    Arrival {
        /// Which channel the frame arrives on.
        channel: u64,
        /// The frame as it arrives: the sent frame, or [`Frame::Corrupted`].
        frame: Frame,
    },
    /// A retransmission timer for the data frame with this sequence number.
    Timeout {
        /// The sequence number the timer guards.
        seq: i64,
    },
}

/// How a frame may arrive relative to what was sent: either the corruption
/// sentinel, or the sent frame itself (for data frames, one carrying the
/// same payload bytes).
pub open spec fn like_frame(sent: Frame, arrived: Frame) -> bool {
    ||| arrived == Frame::Corrupted
    ||| match (sent, arrived) {
        (Frame::Data(a), Frame::Data(b)) => a@ == b@,
        _ => arrived == sent,
    }
}

/// The event loop went from `pre` to `post` by scheduling exactly one new
/// event: an arrival on channel `channel` at `arrival_time`, carrying the
/// sent frame or [`Frame::Corrupted`].  Nothing else changed: every old
/// event is still pending and the cancelled set is untouched.
pub open spec fn sends_one_arrival(
    pre: EventLoop<SimAction>,
    post: EventLoop<SimAction>,
    channel: u64,
    arrival_time: int,
    sent: Frame,
) -> bool {
    &&& post.next_id_spec() == pre.next_id_spec() + 1
    &&& post.queue().len() == pre.queue().len() + 1
    &&& forall|e: Event<SimAction>| #[trigger] pre.queue().contains(e) ==> post.queue().contains(e)
    &&& forall|i: i64| #[trigger] post.is_cancelled(i) == pre.is_cancelled(i)
    &&& forall|e: Event<SimAction>|
        #[trigger] post.queue().contains(e) && !pre.queue().contains(e) ==> {
            &&& e.time == arrival_time as u64
            &&& e.id == pre.next_id_spec() as i64
            &&& e.action matches SimAction::Arrival { channel: c, frame: f }
            &&& c == channel
            &&& like_frame(sent, f)
        }
}

/// A one-directional physical transmission medium with a standing Markov
/// error state.
pub struct SimplexChannel {
    /// Identifies this channel's arrivals among the events of a shared
    /// event loop.
    pub channel_id: u64,
    /// The wire's current Markov state; `true` is the good state.
    pub is_good: bool,
    /// Fixed one-way path delay, in ticks.
    pub propagation_delay: u64,
    /// Frames whose arrival events have fired, in arrival order, awaiting
    /// [`SimplexChannel::receive`].
    pub delivered: Vec<(u64, Frame)>,
}

impl SimplexChannel {
    /// The path delay stays small enough for the time arithmetic.
    pub open spec fn wf(&self) -> bool {
        self.propagation_delay <= MAX_SIM_TIME
    }

    /// Creates a new simplex channel, in the good state, with an empty
    /// delivery queue.
    pub fn new(channel_id: u64, propagation_delay: u64) -> (r: Self)
        requires
            propagation_delay <= MAX_SIM_TIME,
        ensures
            r.wf(),
            r.channel_id == channel_id,
            r.is_good == true,
            r.propagation_delay == propagation_delay,
            r.delivered@.len() == 0,
    {
        SimplexChannel { channel_id, is_good: true, propagation_delay, delivered: Vec::new() }
    }

    /// Sends a frame: runs the channel error model over the frame's bits
    /// against the standing Markov state (mutating it once per send), and
    /// schedules the frame's arrival at `time` plus transmission, path and
    /// processing delay.  The scheduled arrival carries the frame unchanged
    /// or [`Frame::Corrupted`], as the error model drew.  Returns the
    /// transmission duration and the full send-to-delivery duration, in
    /// ticks.
    pub fn send(&mut self, ev: &mut EventLoop<SimAction>, time: u64, frame: Frame) -> (r: (
        u64,
        u64,
    ))
        requires
            old(self).wf(),
            old(ev).wf(),
            old(ev).next_id_spec() < i64::MAX,
            frame.sendable(),
            time <= MAX_SIM_TIME,
        ensures
            final(self).wf(),
            final(self).channel_id == old(self).channel_id,
            final(self).propagation_delay == old(self).propagation_delay,
            final(self).delivered@ == old(self).delivered@,
            final(ev).wf(),
            r.0 == frame.spec_size_bits(),
            r.1 == r.0 + old(self).propagation_delay + PROCESSING_DELAY,
            sends_one_arrival(*old(ev), *final(ev), old(self).channel_id, time + r.1, frame),
    {
        let size_bits = frame.size_bits();
        let (corrupted, next_state) = transmit_bits(self.is_good, size_bits);
        self.is_good = next_state;

        let propagation_duration = size_bits;
        let rtt = propagation_duration + self.propagation_delay + PROCESSING_DELAY;

        let ghost sent = frame;
        let delivered_frame = if corrupted {
            Frame::Corrupted
        } else {
            frame
        };
        let ghost landed = delivered_frame;

        let id = ev.schedule(
            time + rtt,
            SimAction::Arrival { channel: self.channel_id, frame: delivered_frame },
        );
        proof {
            assert(old(ev).next_id_spec() as i64 == id);
            assert(landed == sent || landed == Frame::Corrupted);
            assert(ev.queue().contains(
                Event {
                    time: (time + rtt) as u64,
                    id: old(ev).next_id_spec() as i64,
                    action: SimAction::Arrival { channel: old(self).channel_id, frame: landed },
                },
            ));
        }
        (propagation_duration, rtt)
    }

    /// Hands the channel a frame whose arrival event has fired; it joins
    /// the tail of the delivery queue.
    pub fn deliver(&mut self, time: u64, frame: Frame)
        ensures
            final(self).wf() == old(self).wf(),
            final(self).channel_id == old(self).channel_id,
            final(self).is_good == old(self).is_good,
            final(self).propagation_delay == old(self).propagation_delay,
            final(self).delivered@ == old(self).delivered@.push((time, frame)),
    {
        self.delivered.push((time, frame));
    }

    /// Takes the next delivery, in arrival order: its arrival time and the
    /// frame.  Returns `None` when nothing has arrived yet, in which case
    /// the caller should pump the event loop further.
    pub fn receive(&mut self) -> (r: Option<(u64, Frame)>)
        ensures
            final(self).wf() == old(self).wf(),
            final(self).channel_id == old(self).channel_id,
            final(self).is_good == old(self).is_good,
            final(self).propagation_delay == old(self).propagation_delay,
            old(self).delivered@.len() == 0 ==> r is None && final(self).delivered@ == old(self).delivered@,
            old(self).delivered@.len() > 0 ==> r == Some(old(self).delivered@[0])
                && final(self).delivered@ == old(self).delivered@.drop_first(),
    {
        if self.delivered.len() == 0 {
            return None;
        }
        let ghost pre = self.delivered@;
        let item = self.delivered.remove(0);
        proof {
            pre.remove_ensures(0);
            assert(self.delivered@ =~= pre.drop_first());
        }
        Some(item)
    }
}

} // verus!
