//! The link layer: Selective-Repeat ARQ sender and receiver state, and the
//! simplex link tying them to a pair of physical channels.

#![verifier::loop_isolation(false)]

use std::collections::HashMap;

use vstd::prelude::*;

use crate::common::{FORWARD_PATH, FRAME_OVERHEAD, MAX_FRAME_BITS, MAX_SEQ, MAX_SIM_TIME,
    PROCESSING_DELAY};
use crate::event_loop::{Event, EventLoop};
use crate::layers::physical::{like_frame, sends_one_arrival, Frame, SimAction, SimplexChannel};

verus! {

broadcast use vstd::std_specs::hash::group_hash_axioms;

/// Maximum receive buffer occupancy: 256 KiB.
pub const RECEIVER_BUFFER_SIZE: usize = 256 * 1024;

/// The exact number of payload bytes a buffer map holds: the sum of the
/// lengths of its values.
pub open spec fn buffered_bytes(m: Map<i64, Vec<u8>>) -> int
    decreases m.dom().len() when m.dom().finite()
{
    if m.dom().finite() && m.dom().len() > 0 {
        let k = m.dom().choose();
        m[k]@.len() + buffered_bytes(m.remove(k))
    } else {
        0
    }
}

/// A buffer map never holds a negative number of bytes.
pub proof fn lemma_buffered_bytes_nonneg(m: Map<i64, Vec<u8>>)
    requires
        m.dom().finite(),
    ensures
        buffered_bytes(m) >= 0,
    decreases m.dom().len(),
{
    if m.dom().len() > 0 {
        let k = m.dom().choose();
        assert(m.dom().contains(k));
        lemma_buffered_bytes_nonneg(m.remove(k));
    }
}

/// Removing one entry takes exactly its length out of the byte total.
pub proof fn lemma_buffered_bytes_remove(m: Map<i64, Vec<u8>>, k: i64)
    requires
        m.dom().finite(),
        m.dom().contains(k),
    ensures
        buffered_bytes(m) == buffered_bytes(m.remove(k)) + m[k]@.len(),
    decreases m.dom().len(),
{
    let c = m.dom().choose();
    assert(m.dom().contains(c));
    if c == k {
    } else {
        lemma_buffered_bytes_remove(m.remove(c), k);
        lemma_buffered_bytes_remove(m.remove(k), c);
        assert(m.remove(c).remove(k) =~= m.remove(k).remove(c));
    }
}

/// Inserting a fresh entry adds exactly its length to the byte total.
pub proof fn lemma_buffered_bytes_insert(m: Map<i64, Vec<u8>>, k: i64, v: Vec<u8>)
    requires
        m.dom().finite(),
        !m.dom().contains(k),
    ensures
        buffered_bytes(m.insert(k, v)) == buffered_bytes(m) + v@.len(),
{
    lemma_buffered_bytes_remove(m.insert(k, v), k);
    assert(m.insert(k, v).remove(k) =~= m);
}

/// Copies a byte vector.
fn clone_bytes(v: &Vec<u8>) -> (r: Vec<u8>)
    ensures
        r@ == v@,
{
    let mut r: Vec<u8> = Vec::new();
    let mut i: usize = 0;
    while i < v.len()
        invariant
            i <= v@.len(),
            r@ == v@.subrange(0, i as int),
        decreases v@.len() - i,
    {
        r.push(v[i]);
        proof {
            assert(v@.subrange(0, (i + 1) as int) =~= v@.subrange(0, i as int).push(v@[i as int]));
        }
        i = i + 1;
    }
    proof {
        assert(r@ =~= v@);
    }
    r
}

/// Link layer sender state: a sliding window of sent but unacknowledged
/// frames.
pub struct Sender {
    /// Send window base: the oldest unacknowledged sequence number, or
    /// `next_seq` when nothing is outstanding.
    pub base: i64,
    /// Next sequence number to assign.
    pub next_seq: i64,
    /// Window size: how many frames may be outstanding at once.
    pub window_size: i64,
    /// Payloads of sent but unacknowledged frames, for retransmission.
    pub sent_frames: HashMap<i64, Vec<u8>>,
    /// Active retransmission timer event id per sequence number.
    pub timers: HashMap<i64, i64>,
    /// Timeout margin added when arming a retransmission timer, in ticks.
    pub timeout: u64,
}

impl Sender {
    /// The window invariant: `base <= next_seq <= base + window_size`,
    /// every outstanding sequence number lies in `[base, next_seq)`, and
    /// the base itself is outstanding unless nothing is.
    pub open spec fn wf(&self) -> bool {
        &&& 0 <= self.base <= self.next_seq
        &&& self.next_seq <= self.base + self.window_size
        &&& 1 <= self.window_size
        &&& self.timeout <= MAX_SIM_TIME
        &&& forall|k: i64|
            #[trigger] self.sent_frames@.dom().contains(k) ==> self.base <= k < self.next_seq
        &&& (self.base == self.next_seq || self.sent_frames@.dom().contains(self.base))
        &&& forall|k: i64|
            #[trigger] self.sent_frames@.dom().contains(k) ==> self.sent_frames@[k]@.len() * 8
                + FRAME_OVERHEAD <= MAX_FRAME_BITS
    }

    /// The classic sliding-window admission test.
    pub open spec fn can_send_spec(&self) -> bool {
        self.next_seq < self.base + self.window_size
    }

    /// What acknowledging `seq` does: an outstanding `seq` is retired, and
    /// the base slides forward past every consecutive sequence number that
    /// is no longer outstanding, stopping at the first one still
    /// outstanding (or at `next_seq`).  Acknowledging a non-outstanding
    /// `seq` changes nothing.
    pub open spec fn ack_transition(pre: Sender, post: Sender, seq: i64) -> bool {
        &&& post.next_seq == pre.next_seq
        &&& post.window_size == pre.window_size
        &&& post.timeout == pre.timeout
        &&& post.timers@ == pre.timers@
        &&& if pre.sent_frames@.dom().contains(seq) {
            &&& post.sent_frames@ == pre.sent_frames@.remove(seq)
            &&& pre.base <= post.base <= pre.next_seq
            &&& forall|b: i64|
                pre.base <= b < post.base ==> !(#[trigger] post.sent_frames@.dom().contains(b))
            &&& (post.base == post.next_seq || post.sent_frames@.dom().contains(post.base))
        } else {
            &&& post.sent_frames@ == pre.sent_frames@
            &&& post.base == pre.base
        }
    }

    /// Creates a new sender with an empty window.
    pub fn new(window_size: i64, timeout: u64) -> (r: Self)
        requires
            1 <= window_size,
            timeout <= MAX_SIM_TIME,
        ensures
            r.wf(),
            r.base == 0,
            r.next_seq == 0,
            r.window_size == window_size,
            r.timeout == timeout,
            r.sent_frames@ == Map::<i64, Vec<u8>>::empty(),
            r.timers@ == Map::<i64, i64>::empty(),
    {
        Sender {
            base: 0,
            next_seq: 0,
            window_size,
            sent_frames: HashMap::new(),
            timers: HashMap::new(),
            timeout,
        }
    }

    /// Whether more frames may be sent: the window is not yet full.
    pub fn can_send(&self) -> (r: bool)
        requires
            self.wf(),
        ensures
            r == self.can_send_spec(),
    {
        self.next_seq - self.base < self.window_size
    }

    /// The next sequence number to be assigned.
    pub fn next_seq(&self) -> (r: i64)
        ensures
            r == self.next_seq,
    {
        self.next_seq
    }

    /// Stores a sent frame for possible retransmission and assigns it the
    /// next sequence number.  The caller must have checked
    /// [`Sender::can_send`] first; sequence numbers stay below [`MAX_SEQ`]
    /// so the window arithmetic cannot overflow.
    pub fn send_frame(&mut self, data: Vec<u8>) -> (seq: i64)
        requires
            old(self).wf(),
            old(self).can_send_spec(),
            old(self).next_seq < MAX_SEQ,
            data@.len() * 8 + FRAME_OVERHEAD <= MAX_FRAME_BITS,
        ensures
            final(self).wf(),
            seq == old(self).next_seq,
            final(self).next_seq == seq + 1,
            final(self).base == old(self).base,
            final(self).window_size == old(self).window_size,
            final(self).timeout == old(self).timeout,
            final(self).timers@ == old(self).timers@,
            final(self).sent_frames@ == old(self).sent_frames@.insert(seq, data),
    {
        let seq = self.next_seq;
        self.sent_frames.insert(seq, data);
        self.next_seq = self.next_seq + 1;
        seq
    }

    /// Handles a positive acknowledgment: retires `seq` if it is
    /// outstanding, and if so slides the base forward past every
    /// consecutive now-retired sequence number.
    pub fn handle_ack(&mut self, seq: i64)
        requires
            old(self).wf(),
        ensures
            final(self).wf(),
            Sender::ack_transition(*old(self), *final(self), seq),
    {
        let removed = self.sent_frames.remove(&seq);
        if removed.is_some() {
            while self.base < self.next_seq && !self.sent_frames.contains_key(&self.base)
                invariant
                    old(self).base <= self.base <= self.next_seq,
                    self.next_seq == old(self).next_seq,
                    self.window_size == old(self).window_size,
                    self.timeout == old(self).timeout,
                    self.timers@ == old(self).timers@,
                    self.sent_frames@ == old(self).sent_frames@.remove(seq),
                    forall|b: i64|
                        old(self).base <= b < self.base ==> !(
                        #[trigger] self.sent_frames@.dom().contains(b)),
                decreases self.next_seq - self.base,
            {
                self.base = self.base + 1;
            }
        } else {
            proof {
                assert(self.sent_frames@ =~= old(self).sent_frames@);
            }
        }
    }

    /// Looks up the stored payload for a selective reject, without
    /// mutating anything; the caller re-sends it on the forward channel.
    pub fn handle_nak(&self, seq: i64) -> (r: Option<Vec<u8>>)
        ensures
            r is Some <==> self.sent_frames@.dom().contains(seq),
            r matches Some(v) ==> v@ == self.sent_frames@[seq]@,
    {
        match self.sent_frames.get(&seq) {
            Some(d) => Some(clone_bytes(d)),
            None => None,
        }
    }

    /// Looks up the stored payload when a retransmission timer fires;
    /// `None` means the frame was acknowledged in the meantime and the
    /// timeout is a silent no-op.
    pub fn get_frame_for_timeout(&self, seq: i64) -> (r: Option<Vec<u8>>)
        ensures
            r is Some <==> self.sent_frames@.dom().contains(seq),
            r matches Some(v) ==> v@ == self.sent_frames@[seq]@,
    {
        match self.sent_frames.get(&seq) {
            Some(d) => Some(clone_bytes(d)),
            None => None,
        }
    }
}

/// Link layer receiver state: the next expected sequence number and a
/// bounded buffer of out-of-order frames.
pub struct Receiver {
    /// Receive window base: the next expected sequence number.
    pub base: i64,
    /// Buffered out-of-order payloads, keyed by sequence number.
    pub buffer: HashMap<i64, Vec<u8>>,
    /// Current buffer occupancy: the exact sum of buffered payload
    /// lengths, in bytes.
    pub buffer_size: usize,
    /// The occupancy cap; always [`RECEIVER_BUFFER_SIZE`].
    pub max_buffer_size: usize,
}

impl Receiver {
    /// The receiver invariant: every buffered sequence number lies beyond
    /// the base, `buffer_size` is the exact sum of buffered payload
    /// lengths, and it never exceeds the cap.
    pub open spec fn wf(&self) -> bool {
        &&& 0 <= self.base <= MAX_SEQ
        &&& forall|k: i64| #[trigger] self.buffer@.dom().contains(k) ==> self.base < k < MAX_SEQ
        &&& self.max_buffer_size == RECEIVER_BUFFER_SIZE
        &&& self.buffer_size == buffered_bytes(self.buffer@)
        &&& self.buffer_size <= self.max_buffer_size
    }

    /// What receiving `frame` with sequence number `seq` does, and what
    /// comes back: the response frame and the payloads delivered in order.
    ///
    /// * `Corrupted`: silence: no response, no delivery, no state change;
    ///   recovery is the sender's timeout alone.
    /// * `Data` at the base: the payload is delivered at once, and every
    ///   now-consecutive buffered successor is drained after it in
    ///   ascending order; the base lands on the first still-missing
    ///   sequence number, and the response is `Rr(seq)`.
    /// * `Data` beyond the base: buffered if it is new and fits under the
    ///   cap, silently dropped otherwise; either way the response is
    ///   `Srej` naming the oldest missing sequence number, and nothing is
    ///   delivered.
    /// * `Data` before the base: a duplicate; acknowledged with `Rr(seq)`
    ///   but not delivered again.
    /// * `Rr`/`Srej` do not belong on the receiver's input: no response,
    ///   no delivery, no state change.
    pub open spec fn receive_transition(
        pre: Receiver,
        post: Receiver,
        seq: i64,
        frame: Frame,
        resp: Option<Frame>,
        delivered: Seq<Vec<u8>>,
    ) -> bool {
        match frame {
            Frame::Data(data) => {
                if seq == pre.base {
                    &&& resp == Some(Frame::Rr(seq))
                    &&& delivered.len() >= 1
                    &&& delivered[0] == data
                    &&& post.base == pre.base + delivered.len()
                    &&& forall|j: int|
                        1 <= j < delivered.len() ==> #[trigger] pre.buffer@.dom().contains(
                            (pre.base + j) as i64,
                        ) && delivered[j] == pre.buffer@[(pre.base + j) as i64]
                    &&& !pre.buffer@.dom().contains(post.base)
                    &&& post.buffer@ == pre.buffer@.remove_keys(
                        Set::new(|k: i64| pre.base < k < post.base),
                    )
                    &&& post.max_buffer_size == pre.max_buffer_size
                } else if seq > pre.base {
                    &&& resp == Some(Frame::Srej(pre.base))
                    &&& delivered.len() == 0
                    &&& post.base == pre.base
                    &&& post.max_buffer_size == pre.max_buffer_size
                    &&& if !pre.buffer@.dom().contains(seq) && pre.buffer_size + data@.len()
                        <= pre.max_buffer_size {
                        &&& post.buffer@ == pre.buffer@.insert(seq, data)
                        &&& post.buffer_size == pre.buffer_size + data@.len()
                    } else {
                        &&& post.buffer@ == pre.buffer@
                        &&& post.buffer_size == pre.buffer_size
                    }
                } else {
                    &&& resp == Some(Frame::Rr(seq))
                    &&& delivered.len() == 0
                    &&& post == pre
                }
            },
            _ => {
                &&& resp is None
                &&& delivered.len() == 0
                &&& post == pre
            },
        }
    }

    /// Creates a new receiver expecting sequence number 0, with an empty
    /// buffer.
    pub fn new() -> (r: Self)
        ensures
            r.wf(),
            r.base == 0,
            r.buffer@ == Map::<i64, Vec<u8>>::empty(),
            r.buffer_size == 0,
            r.max_buffer_size == RECEIVER_BUFFER_SIZE,
    {
        Self::default()
    }

    /// Receives one frame and dispatches on its kind; see
    /// [`Receiver::receive_transition`] for the full behaviour.  Returns
    /// the response frame to put on the reverse channel, if any, and the
    /// payloads delivered upward, in order.  Sequence numbers stay below
    /// [`MAX_SEQ`] so the window arithmetic cannot overflow.
    pub fn receive_frame(&mut self, seq: i64, frame: Frame) -> (r: (Option<Frame>, Vec<Vec<u8>>))
        requires
            old(self).wf(),
            seq < MAX_SEQ,
        ensures
            final(self).wf(),
            Receiver::receive_transition(*old(self), *final(self), seq, frame, r.0, r.1@),
    {
        match frame {
            Frame::Corrupted => (None, Vec::new()),
            Frame::Data(data) => {
                if seq == self.base {
                    let ghost dval = data;
                    let mut delivered: Vec<Vec<u8>> = Vec::new();
                    delivered.push(data);
                    self.base = self.base + 1;
                    while self.buffer.contains_key(&self.base)
                        invariant
                            old(self).base < self.base <= MAX_SEQ,
                            self.base == old(self).base + delivered@.len(),
                            delivered@.len() >= 1,
                            delivered@[0] == dval,
                            forall|j: int|
                                1 <= j < delivered@.len() ==> #[trigger] old(self).buffer@.dom().contains((old(self).base + j) as i64)
                                    && delivered@[j] == old(self).buffer@[(old(self).base
                                    + j) as i64],
                            self.buffer@ == old(self).buffer@.remove_keys(
                                Set::new(|k: i64| old(self).base < k < self.base),
                            ),
                            self.buffer_size == buffered_bytes(self.buffer@),
                            self.buffer_size <= RECEIVER_BUFFER_SIZE,
                            self.max_buffer_size == RECEIVER_BUFFER_SIZE,
                            forall|k: i64|
                                #[trigger] self.buffer@.dom().contains(k) ==> old(self).base < k
                                    < MAX_SEQ,
                        decreases self.buffer@.dom().len(),
                    {
                        let b = self.base;
                        let ghost mcur = self.buffer@;
                        match self.buffer.remove(&b) {
                            Some(payload) => {
                                proof {
                                    lemma_buffered_bytes_remove(mcur, b);
                                    lemma_buffered_bytes_nonneg(mcur.remove(b));
                                }
                                self.buffer_size = self.buffer_size - payload.len();
                                delivered.push(payload);
                                self.base = self.base + 1;
                                proof {
                                    assert(self.buffer@ =~= old(self).buffer@.remove_keys(
                                        Set::new(|k: i64| old(self).base < k < self.base),
                                    ));
                                }
                            },
                            None => {
                                proof {
                                    assert(false);
                                }
                            },
                        }
                    }
                    proof {
                        assert(!old(self).buffer@.dom().contains(self.base));
                        assert(Receiver::receive_transition(*old(self), *self, seq, frame, Some(Frame::Rr(seq)), delivered@));
                    }
                    (Some(Frame::Rr(seq)), delivered)
                } else if seq > self.base {
                    let ghost dval = data;
                    let data_size = data.len();
                    if !self.buffer.contains_key(&seq) && data_size <= self.max_buffer_size
                        - self.buffer_size {
                        let ghost mcur = self.buffer@;
                        self.buffer.insert(seq, data);
                        proof {
                            lemma_buffered_bytes_insert(mcur, seq, dval);
                        }
                        self.buffer_size = self.buffer_size + data_size;
                    }
                    proof {
                        assert(Receiver::receive_transition(*old(self), *self, seq, frame, Some(Frame::Srej(self.base)), Seq::empty()));
                    }
                    (Some(Frame::Srej(self.base)), Vec::new())
                } else {
                    (Some(Frame::Rr(seq)), Vec::new())
                }
            },
            _ => (None, Vec::new()),
        }
    }
}

impl Default for Receiver {
    /// A receiver expecting sequence number 0, with an empty buffer.
    fn default() -> (r: Self)
        ensures
            r.wf(),
            r.base == 0,
            r.buffer@ == Map::<i64, Vec<u8>>::empty(),
            r.buffer_size == 0,
            r.max_buffer_size == RECEIVER_BUFFER_SIZE,
    {
        Receiver {
            base: 0,
            buffer: HashMap::new(),
            buffer_size: 0,
            max_buffer_size: RECEIVER_BUFFER_SIZE,
        }
    }
}

/// Window admission: once `window_size` frames are outstanding beyond the
/// base without any acknowledgment, the admission test fails, whatever the
/// rest of the state holds.
pub proof fn lemma_window_admission(s: Sender)
    requires
        s.wf(),
        s.next_seq == s.base + s.window_size,
    ensures
        !s.can_send_spec(),
{
}

/// Selective acknowledgment keeps the base put: acknowledging any frame
/// other than the base one never advances the base.
pub proof fn lemma_ack_non_base(pre: Sender, post: Sender, seq: i64)
    requires
        pre.wf(),
        Sender::ack_transition(pre, post, seq),
        seq != pre.base,
    ensures
        post.base == pre.base,
{
    if pre.sent_frames@.dom().contains(seq) {
        if post.base != pre.base {
            assert(pre.base < pre.next_seq);
            assert(pre.sent_frames@.dom().contains(pre.base));
            assert(post.sent_frames@.dom().contains(pre.base));
            assert(!post.sent_frames@.dom().contains(pre.base));
        }
    }
}

/// Selective acknowledgment retires quietly: when every sequence number
/// between the base and some still-outstanding `m` has already been
/// acknowledged, acknowledging the base slides it to `m` in one step.
pub proof fn lemma_ack_base_slides(pre: Sender, post: Sender, m: i64)
    requires
        pre.wf(),
        Sender::ack_transition(pre, post, pre.base),
        pre.sent_frames@.dom().contains(pre.base),
        pre.base < m,
        pre.sent_frames@.dom().contains(m),
        forall|b: i64|
            pre.base < b < m ==> !(#[trigger] pre.sent_frames@.dom().contains(b)),
    ensures
        post.base == m,
{
    assert(m < pre.next_seq);
    assert(post.sent_frames@.dom().contains(m));
    if post.base > m {
        assert(!post.sent_frames@.dom().contains(m));
    }
    if post.base < m {
        assert(post.base < pre.next_seq);
        assert(post.sent_frames@.dom().contains(post.base));
        if post.base == pre.base {
            assert(!post.sent_frames@.dom().contains(pre.base));
        } else {
            assert(!pre.sent_frames@.dom().contains(post.base));
        }
    }
}

/// In-order delivery: a data frame arriving exactly at the base, with no
/// buffered successor, is delivered alone and acknowledged with `Rr`.
pub proof fn lemma_in_order_delivery(
    pre: Receiver,
    post: Receiver,
    data: Vec<u8>,
    resp: Option<Frame>,
    delivered: Seq<Vec<u8>>,
)
    requires
        pre.wf(),
        Receiver::receive_transition(pre, post, pre.base, Frame::Data(data), resp, delivered),
        !pre.buffer@.dom().contains((pre.base + 1) as i64),
    ensures
        resp == Some(Frame::Rr(pre.base)),
        delivered =~= seq![data],
        post.base == pre.base + 1,
{
    if delivered.len() > 1 {
        assert(pre.buffer@.dom().contains((pre.base + 1) as i64));
    }
}

/// Out-of-order flush: when the buffer holds exactly the `n` sequence
/// numbers after the base and the one beyond them is missing, the arrival
/// of the base frame delivers it and flushes all `n` buffered successors
/// after it, in ascending order, in one call.
pub proof fn lemma_out_of_order_flush(
    pre: Receiver,
    post: Receiver,
    data: Vec<u8>,
    resp: Option<Frame>,
    delivered: Seq<Vec<u8>>,
    n: int,
)
    requires
        pre.wf(),
        Receiver::receive_transition(pre, post, pre.base, Frame::Data(data), resp, delivered),
        0 <= n,
        pre.base + n + 1 <= MAX_SEQ,
        forall|j: int| 1 <= j <= n ==> #[trigger] pre.buffer@.dom().contains((pre.base + j) as i64),
        !pre.buffer@.dom().contains((pre.base + n + 1) as i64),
    ensures
        resp == Some(Frame::Rr(pre.base)),
        delivered.len() == n + 1,
        delivered[0] == data,
        forall|j: int| 1 <= j <= n ==> delivered[j] == pre.buffer@[(pre.base + j) as i64],
        post.base == pre.base + n + 1,
{
    let len = delivered.len() as int;
    if len <= n {
        assert(pre.buffer@.dom().contains((pre.base + len) as i64));
        assert(!pre.buffer@.dom().contains(post.base));
        assert(false);
    }
    if len > n + 1 {
        assert(pre.buffer@.dom().contains((pre.base + (n + 1)) as i64));
        assert(false);
    }
    assert forall|j: int| 1 <= j <= n implies delivered[j] == pre.buffer@[(pre.base
        + j) as i64] by {
        assert(pre.buffer@.dom().contains((pre.base + j) as i64));
    }
}

/// Duplicate suppression: a data frame whose sequence number lies before
/// the base is acknowledged again but delivers nothing and changes
/// nothing.
pub proof fn lemma_duplicate_suppression(
    pre: Receiver,
    post: Receiver,
    seq: i64,
    data: Vec<u8>,
    resp: Option<Frame>,
    delivered: Seq<Vec<u8>>,
)
    requires
        pre.wf(),
        Receiver::receive_transition(pre, post, seq, Frame::Data(data), resp, delivered),
        seq < pre.base,
    ensures
        resp == Some(Frame::Rr(seq)),
        delivered.len() == 0,
        post == pre,
{
}

/// Corruption is silent: a corrupted frame, at any sequence number, draws
/// no response, delivers nothing and changes nothing.
pub proof fn lemma_corruption_is_silent(
    pre: Receiver,
    post: Receiver,
    seq: i64,
    resp: Option<Frame>,
    delivered: Seq<Vec<u8>>,
)
    requires
        Receiver::receive_transition(pre, post, seq, Frame::Corrupted, resp, delivered),
    ensures
        resp is None,
        delivered.len() == 0,
        post == pre,
{
}

/// The receive buffer never exceeds its 256 KiB cap: dropping on insert
/// keeps the occupancy, which is the exact sum of the buffered payload
/// lengths, within bounds at all times.
pub proof fn lemma_buffer_bounded(r: Receiver)
    requires
        r.wf(),
    ensures
        buffered_bytes(r.buffer@) <= RECEIVER_BUFFER_SIZE,
{
}

/// A simplex link: one sender feeding a forward channel with data frames,
/// one receiver answering with acknowledgments on a reverse channel, and
/// retransmission timers armed on a shared event loop.
pub struct SimplexLink {
    /// The sending side's window state.
    pub sender: Sender,
    /// The receiving side's window state.
    pub receiver: Receiver,
    /// Carries data frames from sender to receiver.
    pub forward_channel: SimplexChannel,
    /// Carries `Rr` and `Srej` frames from receiver back to sender.
    pub reverse_channel: SimplexChannel,
}

impl SimplexLink {
    /// Every component is well-formed.
    pub open spec fn wf(&self) -> bool {
        &&& self.sender.wf()
        &&& self.receiver.wf()
        &&& self.forward_channel.wf()
        &&& self.reverse_channel.wf()
    }

    /// Creates a new link over the given pair of channels, with a fresh
    /// window of the given size and the given retransmission timeout
    /// margin (in ticks).
    pub fn new(
        forward_channel: SimplexChannel,
        reverse_channel: SimplexChannel,
        window_size: i64,
        timeout: u64,
    ) -> (r: Self)
        requires
            forward_channel.wf(),
            reverse_channel.wf(),
            1 <= window_size,
            timeout <= MAX_SIM_TIME,
        ensures
            r.wf(),
            r.sender.base == 0,
            r.sender.next_seq == 0,
            r.sender.window_size == window_size,
            r.sender.timeout == timeout,
            r.sender.sent_frames@ == Map::<i64, Vec<u8>>::empty(),
            r.sender.timers@ == Map::<i64, i64>::empty(),
            r.receiver.base == 0,
            r.receiver.buffer@ == Map::<i64, Vec<u8>>::empty(),
            r.receiver.buffer_size == 0,
            r.forward_channel == forward_channel,
            r.reverse_channel == reverse_channel,
    {
        SimplexLink {
            sender: Sender::new(window_size, timeout),
            receiver: Receiver::new(),
            forward_channel,
            reverse_channel,
        }
    }

    /// Sends a data frame if the window admits one: stores the payload for
    /// retransmission, puts the frame on the forward channel, and arms a
    /// retransmission timer at the frame's expected round trip plus the
    /// timeout margin.  Returns the assigned sequence number, or `None`,
    /// with nothing changed, when the window is full.
    pub fn send_data(
        &mut self,
        ev: &mut EventLoop<SimAction>,
        current_time: u64,
        data: Vec<u8>,
    ) -> (r: Option<i64>)
        requires
            old(self).wf(),
            old(ev).wf(),
            old(ev).next_id_spec() + 2 <= i64::MAX,
            current_time <= MAX_SIM_TIME,
            data@.len() * 8 + FRAME_OVERHEAD <= MAX_FRAME_BITS,
            old(self).sender.next_seq < MAX_SEQ,
        ensures
            final(self).wf(),
            final(ev).wf(),
            final(self).receiver == old(self).receiver,
            final(self).reverse_channel == old(self).reverse_channel,
            !old(self).sender.can_send_spec() ==> r is None && *final(self) == *old(self)
                && *final(ev) == *old(ev),
            old(self).sender.can_send_spec() ==> ({
                let seq = old(self).sender.next_seq;
                let frame_bits = data@.len() * 8 + FRAME_OVERHEAD;
                let arrival_time = current_time + frame_bits
                    + old(self).forward_channel.propagation_delay + PROCESSING_DELAY;
                let timeout_event = (Event {
                    time: (current_time + (frame_bits + FORWARD_PATH + PROCESSING_DELAY) + old(self).sender.timeout) as u64,
                    id: (old(ev).next_id_spec() + 1) as i64,
                    action: SimAction::Timeout { seq },
                });
                &&& r == Some(seq)
                &&& final(self).sender.next_seq == seq + 1
                &&& final(self).sender.base == old(self).sender.base
                &&& final(self).sender.window_size == old(self).sender.window_size
                &&& final(self).sender.timeout == old(self).sender.timeout
                &&& final(self).sender.sent_frames@ == old(self).sender.sent_frames@.insert(
                    seq,
                    data,
                )
                &&& final(self).sender.timers@ == old(self).sender.timers@.insert(
                    seq,
                    (old(ev).next_id_spec() + 1) as i64,
                )
                &&& final(self).forward_channel.channel_id == old(self).forward_channel.channel_id
                &&& final(self).forward_channel.propagation_delay == old(self).forward_channel.propagation_delay
                &&& final(self).forward_channel.delivered@ == old(self).forward_channel.delivered@
                &&& final(ev).next_id_spec() == old(ev).next_id_spec() + 2
                &&& final(ev).queue().len() == old(ev).queue().len() + 2
                &&& forall|e: Event<SimAction>|
                    #[trigger] old(ev).queue().contains(e) ==> final(ev).queue().contains(e)
                &&& forall|i: i64|
                    #[trigger] final(ev).is_cancelled(i) == old(ev).is_cancelled(i)
                &&& final(ev).queue().contains(timeout_event)
                &&& forall|e: Event<SimAction>|
                    #[trigger] final(ev).queue().contains(e) && !old(ev).queue().contains(e) ==> (e
                        == timeout_event || {
                        &&& e.time == arrival_time as u64
                        &&& e.id == old(ev).next_id_spec() as i64
                        &&& e.action matches SimAction::Arrival { channel: c, frame: f }
                        &&& c == old(self).forward_channel.channel_id
                        &&& like_frame(Frame::Data(data), f)
                    })
            }),
    {
        if !self.sender.can_send() {
            return None;
        }

        let payload = clone_bytes(&data);
        let seq = self.sender.send_frame(data);

        let frame = Frame::Data(payload);
        let (prop, _rtt) = self.forward_channel.send(ev, current_time, frame);
        let ghost ev_mid = *ev;

        let propagation_time = prop + FORWARD_PATH + PROCESSING_DELAY;
        let timeout_time = current_time + propagation_time + self.sender.timeout;
        let timer_id = ev.schedule(timeout_time, SimAction::Timeout { seq });
        self.sender.timers.insert(seq, timer_id);

        proof {
            assert forall|e: Event<SimAction>|
                #[trigger] ev.queue().contains(e) && !old(ev).queue().contains(e) implies (e
                == (Event {
                time: timeout_time,
                id: (old(ev).next_id_spec() + 1) as i64,
                action: SimAction::Timeout { seq },
            }) || {
                &&& e.time == (current_time + (data@.len() * 8 + FRAME_OVERHEAD) + old(self).forward_channel.propagation_delay + PROCESSING_DELAY) as u64
                &&& e.id == old(ev).next_id_spec() as i64
                &&& e.action matches SimAction::Arrival { channel: c, frame: f }
                &&& c == old(self).forward_channel.channel_id
                &&& like_frame(Frame::Data(data), f)
            }) by {
                if ev_mid.queue().contains(e) {
                    assert(ev_mid.queue().contains(e) && !old(ev).queue().contains(e));
                }
            }
        }

        Some(seq)
    }

    /// What the retransmission timer for `seq` does when it fires: if the
    /// frame is still outstanding, its stored payload is retransmitted on
    /// the forward channel; otherwise the timeout is a silent no-op.
    pub fn on_timeout(&mut self, ev: &mut EventLoop<SimAction>, time: u64, seq: i64)
        requires
            old(self).wf(),
            old(ev).wf(),
            old(ev).next_id_spec() + 2 <= i64::MAX,
            time <= MAX_SIM_TIME,
        ensures
            final(self).wf(),
            final(ev).wf(),
            final(self).receiver == old(self).receiver,
            final(self).reverse_channel == old(self).reverse_channel,
            final(self).sender.base == old(self).sender.base,
            final(self).sender.next_seq == old(self).sender.next_seq,
            final(self).sender.window_size == old(self).sender.window_size,
            final(self).sender.timeout == old(self).sender.timeout,
            final(self).sender.sent_frames@ == old(self).sender.sent_frames@,
            final(self).forward_channel.channel_id == old(self).forward_channel.channel_id,
            final(self).forward_channel.propagation_delay == old(self).forward_channel.propagation_delay,
            final(self).forward_channel.delivered@ == old(self).forward_channel.delivered@,
            !old(self).sender.sent_frames@.dom().contains(seq) ==> *final(ev) == *old(ev)
                && *final(self) == *old(self),
            old(self).sender.sent_frames@.dom().contains(seq) ==> ({
                let frame_bits = old(self).sender.sent_frames@[seq]@.len() * 8 + FRAME_OVERHEAD;
                let rtt = frame_bits + old(self).forward_channel.propagation_delay
                    + PROCESSING_DELAY;
                let timer_event = (Event {
                    time: (time + (5 * rtt) / 2) as u64,
                    id: (old(ev).next_id_spec() + 1) as i64,
                    action: SimAction::Timeout { seq },
                });
                &&& final(self).sender.timers@ == old(self).sender.timers@.insert(
                    seq,
                    (old(ev).next_id_spec() + 1) as i64,
                )
                &&& final(ev).next_id_spec() == old(ev).next_id_spec() + 2
                &&& final(ev).queue().len() == old(ev).queue().len() + 2
                &&& forall|e: Event<SimAction>|
                    #[trigger] old(ev).queue().contains(e) ==> final(ev).queue().contains(e)
                &&& forall|i: i64|
                    #[trigger] final(ev).is_cancelled(i) == old(ev).is_cancelled(i)
                &&& final(ev).queue().contains(timer_event)
                &&& forall|e: Event<SimAction>|
                    #[trigger] final(ev).queue().contains(e) && !old(ev).queue().contains(e) ==> (e
                        == timer_event || {
                        &&& e.time == (time + rtt) as u64
                        &&& e.id == old(ev).next_id_spec() as i64
                        &&& e.action matches SimAction::Arrival { channel: c, frame: f }
                        &&& c == old(self).forward_channel.channel_id
                        &&& like_frame(Frame::Data(old(self).sender.sent_frames@[seq]), f)
                    })
            }),
    {
        match self.sender.get_frame_for_timeout(seq) {
            Some(payload) => {
                let ghost stored = self.sender.sent_frames@[seq];
                let (_prop, rtt) = self.forward_channel.send(ev, time, Frame::Data(payload));
                let ghost ev_mid = *ev;

                // arm the next timeout at a fixed 2.5 multiple of the
                // frame's send-to-delivery time, tolerating normal
                // propagation jitter without excessive false timeouts
                let next_timeout = time + (5 * rtt) / 2;
                let timer_id = ev.schedule(next_timeout, SimAction::Timeout { seq });
                self.sender.timers.insert(seq, timer_id);

                proof {
                    assert forall|e: Event<SimAction>|
                        #[trigger] ev.queue().contains(e) && !old(ev).queue().contains(e) implies (
                    e == (Event {
                        time: next_timeout,
                        id: (old(ev).next_id_spec() + 1) as i64,
                        action: SimAction::Timeout { seq },
                    }) || {
                        &&& e.time == (time + (stored@.len() * 8 + FRAME_OVERHEAD + old(
                            self,
                        ).forward_channel.propagation_delay + PROCESSING_DELAY)) as u64
                        &&& e.id == old(ev).next_id_spec() as i64
                        &&& e.action matches SimAction::Arrival { channel: c, frame: f }
                        &&& c == old(self).forward_channel.channel_id
                        &&& like_frame(Frame::Data(stored), f)
                    }) by {
                        if ev_mid.queue().contains(e) {
                            assert(ev_mid.queue().contains(e) && !old(ev).queue().contains(e));
                        }
                    }
                }
            },
            None => {},
        }
    }

    /// Handles a positive acknowledgment arriving at the sender: the
    /// frame's retransmission timer, if armed, is cancelled on the event
    /// loop, and the window slides as [`Sender::handle_ack`] says.
    pub fn handle_ack(&mut self, ev: &mut EventLoop<SimAction>, seq: i64)
        requires
            old(self).wf(),
            old(ev).wf(),
        ensures
            final(self).wf(),
            final(ev).wf(),
            final(self).receiver == old(self).receiver,
            final(self).forward_channel == old(self).forward_channel,
            final(self).reverse_channel == old(self).reverse_channel,
            Sender::ack_transition(old(self).sender, final(self).sender, seq),
            final(ev).queue() == old(ev).queue(),
            final(ev).next_id_spec() == old(ev).next_id_spec(),
            old(self).sender.timers@.dom().contains(seq) ==> forall|i: i64|
                #[trigger] final(ev).is_cancelled(i) == (old(ev).is_cancelled(i) || i == old(self).sender.timers@[seq]),
            !old(self).sender.timers@.dom().contains(seq) ==> forall|i: i64|
                #[trigger] final(ev).is_cancelled(i) == old(ev).is_cancelled(i),
    {
        let timer = self.sender.timers.get(&seq);
        match timer {
            Some(timer_id) => {
                let t = *timer_id;
                ev.cancel(t);
            },
            None => {},
        }
        self.sender.handle_ack(seq);
    }

    /// Handles a selective reject arriving at the sender: if the named
    /// frame is still outstanding, its stored payload is retransmitted
    /// immediately on the forward channel.
    pub fn handle_nak(&mut self, ev: &mut EventLoop<SimAction>, current_time: u64, seq: i64)
        requires
            old(self).wf(),
            old(ev).wf(),
            old(ev).next_id_spec() < i64::MAX,
            current_time <= MAX_SIM_TIME,
        ensures
            final(self).wf(),
            final(ev).wf(),
            final(self).sender == old(self).sender,
            final(self).receiver == old(self).receiver,
            final(self).reverse_channel == old(self).reverse_channel,
            final(self).forward_channel.channel_id == old(self).forward_channel.channel_id,
            final(self).forward_channel.propagation_delay == old(self).forward_channel.propagation_delay,
            final(self).forward_channel.delivered@ == old(self).forward_channel.delivered@,
            !old(self).sender.sent_frames@.dom().contains(seq) ==> *final(ev) == *old(ev) && final(self).forward_channel == old(self).forward_channel,
            old(self).sender.sent_frames@.dom().contains(seq) ==> sends_one_arrival(
                *old(ev),
                *final(ev),
                old(self).forward_channel.channel_id,
                current_time + (old(self).sender.sent_frames@[seq]@.len() * 8 + FRAME_OVERHEAD)
                    + old(self).forward_channel.propagation_delay + PROCESSING_DELAY,
                Frame::Data(old(self).sender.sent_frames@[seq]),
            ),
    {
        match self.sender.handle_nak(seq) {
            Some(payload) => {
                let ghost stored = self.sender.sent_frames@[seq];
                let (_prop, _rtt) = self.forward_channel.send(
                    ev,
                    current_time,
                    Frame::Data(payload),
                );
                proof {
                    assert forall|e: Event<SimAction>|
                        #[trigger] ev.queue().contains(e) && !old(ev).queue().contains(
                            e,
                        ) implies like_frame(
                        Frame::Data(stored),
                        e.action->Arrival_frame,
                    ) by {}
                }
            },
            None => {},
        }
    }

    /// Receives and processes a frame at the receiver; see
    /// [`Receiver::receive_transition`].
    pub fn receive_frame(&mut self, seq: i64, frame: Frame) -> (r: (Option<Frame>, Vec<Vec<u8>>))
        requires
            old(self).wf(),
            seq < MAX_SEQ,
        ensures
            final(self).wf(),
            final(self).sender == old(self).sender,
            final(self).forward_channel == old(self).forward_channel,
            final(self).reverse_channel == old(self).reverse_channel,
            Receiver::receive_transition(
                old(self).receiver,
                final(self).receiver,
                seq,
                frame,
                r.0,
                r.1@,
            ),
    {
        self.receiver.receive_frame(seq, frame)
    }

    /// Whether the sender's window admits another frame.
    pub fn can_send(&self) -> (r: bool)
        requires
            self.wf(),
        ensures
            r == self.sender.can_send_spec(),
    {
        self.sender.can_send()
    }

    /// Puts a positive acknowledgment for `seq` on the reverse channel.
    pub fn send_ack(&mut self, ev: &mut EventLoop<SimAction>, current_time: u64, seq: i64)
        requires
            old(self).wf(),
            old(ev).wf(),
            old(ev).next_id_spec() < i64::MAX,
            current_time <= MAX_SIM_TIME,
        ensures
            final(self).wf(),
            final(ev).wf(),
            final(self).sender == old(self).sender,
            final(self).receiver == old(self).receiver,
            final(self).forward_channel == old(self).forward_channel,
            final(self).reverse_channel.channel_id == old(self).reverse_channel.channel_id,
            final(self).reverse_channel.propagation_delay == old(self).reverse_channel.propagation_delay,
            final(self).reverse_channel.delivered@ == old(self).reverse_channel.delivered@,
            sends_one_arrival(
                *old(ev),
                *final(ev),
                old(self).reverse_channel.channel_id,
                current_time + FRAME_OVERHEAD + old(self).reverse_channel.propagation_delay
                    + PROCESSING_DELAY,
                Frame::Rr(seq),
            ),
    {
        let (_prop, _rtt) = self.reverse_channel.send(ev, current_time, Frame::Rr(seq));
    }

    /// Puts a selective reject naming `seq` on the reverse channel.
    pub fn send_nak(&mut self, ev: &mut EventLoop<SimAction>, current_time: u64, seq: i64)
        requires
            old(self).wf(),
            old(ev).wf(),
            old(ev).next_id_spec() < i64::MAX,
            current_time <= MAX_SIM_TIME,
        ensures
            final(self).wf(),
            final(ev).wf(),
            final(self).sender == old(self).sender,
            final(self).receiver == old(self).receiver,
            final(self).forward_channel == old(self).forward_channel,
            final(self).reverse_channel.channel_id == old(self).reverse_channel.channel_id,
            final(self).reverse_channel.propagation_delay == old(self).reverse_channel.propagation_delay,
            final(self).reverse_channel.delivered@ == old(self).reverse_channel.delivered@,
            sends_one_arrival(
                *old(ev),
                *final(ev),
                old(self).reverse_channel.channel_id,
                current_time + FRAME_OVERHEAD + old(self).reverse_channel.propagation_delay
                    + PROCESSING_DELAY,
                Frame::Srej(seq),
            ),
    {
        let (_prop, _rtt) = self.reverse_channel.send(ev, current_time, Frame::Srej(seq));
    }
}

} // verus!
