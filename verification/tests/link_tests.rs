use arq_sim::common::{FORWARD_PATH, REVERSE_PATH};
use arq_sim::event_loop::EventLoop;
use arq_sim::layers::link::{Receiver, Sender, SimplexLink};
use arq_sim::layers::physical::{Frame, SimAction, SimplexChannel};

fn make_link(window_size: i64) -> SimplexLink {
    SimplexLink::new(
        SimplexChannel::new(0, FORWARD_PATH),
        SimplexChannel::new(1, REVERSE_PATH),
        window_size,
        1_000_000,
    )
}

#[test]
fn test_comprehensive_link_layer() {
    let mut event_loop: EventLoop<SimAction> = EventLoop::new();
    let mut link = make_link(8);

    // ========== Section 1: in-order delivery ==========
    let data1 = vec![1, 2, 3];
    let data2 = vec![4, 5, 6];
    let data3 = vec![7, 8, 9];

    link.send_data(&mut event_loop, 0, data1.clone());
    link.send_data(&mut event_loop, 10, data2.clone());
    link.send_data(&mut event_loop, 20, data3.clone());

    let (ack1, delivered1) = link.receive_frame(0, Frame::Data(data1.clone()));
    assert!(matches!(ack1, Some(Frame::Rr(0))), "Should ACK frame 0");
    assert_eq!(delivered1.len(), 1, "Should deliver 1 frame");
    assert_eq!(delivered1[0], data1);

    let (ack2, delivered2) = link.receive_frame(1, Frame::Data(data2.clone()));
    assert!(matches!(ack2, Some(Frame::Rr(1))), "Should ACK frame 1");
    assert_eq!(delivered2.len(), 1);
    assert_eq!(delivered2[0], data2);

    let (ack3, delivered3) = link.receive_frame(2, Frame::Data(data3.clone()));
    assert!(matches!(ack3, Some(Frame::Rr(2))), "Should ACK frame 2");
    assert_eq!(delivered3.len(), 1);
    assert_eq!(delivered3[0], data3);

    // ========== Section 2: out-of-order frames and NAK ==========
    let data10 = vec![10; 100];
    let data11 = vec![11; 100];
    let data12 = vec![12; 100];

    // receive frame 3 (in order after the previous section)
    let (ack10, delivered10) = link.receive_frame(3, Frame::Data(data10.clone()));
    assert!(matches!(ack10, Some(Frame::Rr(3))));
    assert_eq!(delivered10.len(), 1);

    // skip frame 4, receive frame 5 out of order
    let (nak, delivered_nak) = link.receive_frame(5, Frame::Data(data12.clone()));
    assert!(matches!(nak, Some(Frame::Srej(4))), "Should NAK for missing frame 4");
    assert_eq!(delivered_nak.len(), 0, "Should buffer frame 5, not deliver");

    // now receive the missing frame 4
    let (ack11, delivered11) = link.receive_frame(4, Frame::Data(data11.clone()));
    assert!(matches!(ack11, Some(Frame::Rr(4))));
    assert_eq!(delivered11.len(), 2, "Should deliver frame 4 and buffered frame 5");
    assert_eq!(delivered11[0], data11);
    assert_eq!(delivered11[1], data12);

    // ========== Section 3: corrupted frames ==========
    let (response, delivered) = link.receive_frame(6, Frame::Corrupted);
    assert!(response.is_none(), "Should not respond to corrupted frames");
    assert_eq!(delivered.len(), 0, "Should not deliver corrupted frames");

    // a valid frame after the corrupted one
    let data13 = vec![13; 50];
    let (ack13, delivered13) = link.receive_frame(6, Frame::Data(data13.clone()));
    assert!(matches!(ack13, Some(Frame::Rr(6))));
    assert_eq!(delivered13.len(), 1);
    assert_eq!(delivered13[0], data13);

    // ========== Section 4: window size flow control ==========
    let mut small_link = make_link(2);

    // fill the window
    let seq0 = small_link.send_data(&mut event_loop, 100, vec![20; 10]);
    let seq1 = small_link.send_data(&mut event_loop, 110, vec![21; 10]);
    assert_eq!(seq0, Some(0));
    assert_eq!(seq1, Some(1));

    // try to send when the window is full
    let seq2 = small_link.send_data(&mut event_loop, 120, vec![22; 10]);
    assert_eq!(seq2, None, "Should reject when window is full");

    // ACK the first frame to make room
    small_link.handle_ack(&mut event_loop, 0);

    // now the send goes through
    let seq2_retry = small_link.send_data(&mut event_loop, 130, vec![22; 10]);
    assert_eq!(seq2_retry, Some(2), "Should allow send after ACK");

    // ========== Section 5: 256 KiB buffer overflow protection ==========
    let mut overflow_link = make_link(1000);

    let large_data = vec![0u8; 100 * 1024]; // 100 KiB per frame

    // buffer frames out of order to exercise the cap
    let (nak1, _) = overflow_link.receive_frame(1, Frame::Data(large_data.clone()));
    assert!(matches!(nak1, Some(Frame::Srej(0))), "NAK for frame 0");

    let (nak2, _) = overflow_link.receive_frame(2, Frame::Data(large_data.clone()));
    assert!(matches!(nak2, Some(Frame::Srej(0))), "NAK for frame 0");

    // the third frame must be dropped (100 + 100 + 100 > 256 KiB)
    let (nak3, delivered3) = overflow_link.receive_frame(3, Frame::Data(large_data.clone()));
    assert!(matches!(nak3, Some(Frame::Srej(0))), "Still NAK even when dropping");
    assert_eq!(delivered3.len(), 0);

    // send the missing frame 0
    let (ack0, delivered0) = overflow_link.receive_frame(0, Frame::Data(vec![0; 10]));
    assert!(matches!(ack0, Some(Frame::Rr(0))));
    // frames 0, 1, 2 are delivered, but not 3, which was dropped
    assert_eq!(delivered0.len(), 3, "Should deliver buffered frames, but not the dropped one");

    // ========== Section 6: duplicate frames ==========
    let dup_data = vec![30; 50];

    let (ack_first, delivered_first) = link.receive_frame(7, Frame::Data(dup_data.clone()));
    assert!(matches!(ack_first, Some(Frame::Rr(7))));
    assert_eq!(delivered_first.len(), 1);

    let (ack_dup, delivered_dup) = link.receive_frame(7, Frame::Data(dup_data.clone()));
    assert!(matches!(ack_dup, Some(Frame::Rr(7))), "Should ACK duplicate");
    assert_eq!(delivered_dup.len(), 0, "Should not deliver duplicate");
}

#[test]
fn test_window_admission() {
    // after sending W frames without any ACK, the window refuses more
    let w = 4;
    let mut sender = Sender::new(w, 1_000);
    for i in 0..w {
        assert!(sender.can_send());
        let seq = sender.send_frame(vec![1, 2, 3]);
        assert_eq!(seq, i);
    }
    assert!(!sender.can_send(), "window must be full after W sends");

    // and the W+1th send attempt at the link level is rejected
    let mut event_loop: EventLoop<SimAction> = EventLoop::new();
    let mut link = make_link(w);
    for _ in 0..w {
        assert!(link.send_data(&mut event_loop, 0, vec![9; 8]).is_some());
    }
    assert_eq!(link.send_data(&mut event_loop, 0, vec![9; 8]), None);
}

#[test]
fn test_selective_ack_base_advance() {
    // frames 0..4 sent; ACKing 2 and 3 must not move the base, ACKing 0
    // moves it to 1, and ACKing 1 jumps it to 4 in one step
    let mut sender = Sender::new(8, 1_000);
    for _ in 0..5 {
        sender.send_frame(vec![7; 4]);
    }
    assert_eq!(sender.base, 0);

    sender.handle_ack(2);
    assert_eq!(sender.base, 0, "ACK of a non-base frame must not advance the base");
    sender.handle_ack(3);
    assert_eq!(sender.base, 0);

    sender.handle_ack(0);
    assert_eq!(sender.base, 1);

    sender.handle_ack(1);
    assert_eq!(sender.base, 4, "base must skip the quietly retired 2 and 3");
}

#[test]
fn test_ack_unknown_seq_is_noop() {
    let mut sender = Sender::new(8, 1_000);
    sender.send_frame(vec![1]);
    sender.handle_ack(17);
    assert_eq!(sender.base, 0);
    assert_eq!(sender.next_seq(), 1);
}

#[test]
fn test_handle_nak_returns_stored_payload() {
    let mut sender = Sender::new(8, 1_000);
    sender.send_frame(vec![1, 2, 3]);
    sender.send_frame(vec![4, 5, 6]);

    assert_eq!(sender.handle_nak(1), Some(vec![4, 5, 6]));
    assert_eq!(sender.handle_nak(9), None);

    assert_eq!(sender.get_frame_for_timeout(0), Some(vec![1, 2, 3]));
    sender.handle_ack(0);
    assert_eq!(sender.get_frame_for_timeout(0), None);
}

#[test]
fn test_in_order_delivery() {
    // Data frames 0, 1, 2 in order: one Rr and one delivery each
    let mut receiver = Receiver::new();
    for i in 0..3 {
        let payload = vec![i as u8; 4];
        let (resp, delivered) = receiver.receive_frame(i, Frame::Data(payload.clone()));
        assert_eq!(resp, Some(Frame::Rr(i)));
        assert_eq!(delivered, vec![payload]);
    }
    assert_eq!(receiver.base, 3);
}

#[test]
fn test_out_of_order_buffer_and_flush() {
    // frame 0 already delivered; frame 2 before frame 1
    let mut receiver = Receiver::new();
    receiver.receive_frame(0, Frame::Data(vec![0; 4]));

    let (resp2, del2) = receiver.receive_frame(2, Frame::Data(vec![2; 4]));
    assert_eq!(resp2, Some(Frame::Srej(1)));
    assert_eq!(del2.len(), 0);

    let (resp1, del1) = receiver.receive_frame(1, Frame::Data(vec![1; 4]));
    assert_eq!(resp1, Some(Frame::Rr(1)));
    assert_eq!(del1, vec![vec![1; 4], vec![2; 4]]);
    assert_eq!(receiver.base, 3);
}

#[test]
fn test_duplicate_suppression() {
    let mut receiver = Receiver::new();
    receiver.receive_frame(0, Frame::Data(vec![1; 4]));

    let (resp, delivered) = receiver.receive_frame(0, Frame::Data(vec![1; 4]));
    assert_eq!(resp, Some(Frame::Rr(0)));
    assert_eq!(delivered.len(), 0);
    assert_eq!(receiver.base, 1);
}

#[test]
fn test_corruption_is_silent() {
    let mut receiver = Receiver::new();
    for seq in [0, 1, 5, 1000, -3] {
        let (resp, delivered) = receiver.receive_frame(seq, Frame::Corrupted);
        assert_eq!(resp, None);
        assert_eq!(delivered.len(), 0);
        assert_eq!(receiver.base, 0);
        assert_eq!(receiver.buffer_size, 0);
    }
}

#[test]
fn test_control_frames_at_receiver_ignored() {
    // Rr and Srej only flow on the reverse channel; at the receiver's
    // input they draw no response and no delivery
    let mut receiver = Receiver::new();
    let (resp, delivered) = receiver.receive_frame(0, Frame::Rr(0));
    assert_eq!(resp, None);
    assert_eq!(delivered.len(), 0);
    let (resp, delivered) = receiver.receive_frame(0, Frame::Srej(0));
    assert_eq!(resp, None);
    assert_eq!(delivered.len(), 0);
    assert_eq!(receiver.base, 0);
}

#[test]
fn test_buffer_overflow_drop() {
    // with the 256 KiB cap, three 100 KiB out-of-order frames: the first
    // two are accepted, the third dropped; the later flush delivers
    // exactly the two accepted ones after the base frame
    let mut receiver = Receiver::new();
    let large = vec![7u8; 100 * 1024];

    receiver.receive_frame(1, Frame::Data(large.clone()));
    receiver.receive_frame(2, Frame::Data(large.clone()));
    assert_eq!(receiver.buffer_size, 200 * 1024);

    let (resp3, del3) = receiver.receive_frame(3, Frame::Data(large.clone()));
    assert_eq!(resp3, Some(Frame::Srej(0)));
    assert_eq!(del3.len(), 0);
    assert_eq!(receiver.buffer_size, 200 * 1024, "the third frame must be dropped");

    let (resp0, del0) = receiver.receive_frame(0, Frame::Data(vec![0; 8]));
    assert_eq!(resp0, Some(Frame::Rr(0)));
    assert_eq!(del0.len(), 3, "exactly the two accepted frames are flushed, not three");
    assert_eq!(receiver.base, 3);
    assert_eq!(receiver.buffer_size, 0);
}

#[test]
fn test_timer_cancelled_on_ack() {
    let mut event_loop: EventLoop<SimAction> = EventLoop::new();
    let mut link = make_link(8);

    // one send schedules the arrival and the retransmission timer
    assert_eq!(link.send_data(&mut event_loop, 0, vec![5; 16]), Some(0));
    assert_eq!(event_loop.pending_count(), 2);

    // the ACK cancels the timer
    link.handle_ack(&mut event_loop, 0);

    // the arrival still fires; the cancelled timer does not
    assert!(matches!(
        event_loop.advance(),
        Some((_, SimAction::Arrival { channel: 0, .. }))
    ));
    assert_eq!(event_loop.advance(), None, "the cancelled timer must not fire");
    assert_eq!(event_loop.pending_count(), 0);
}

#[test]
fn test_timeout_retransmits_outstanding_frame() {
    let mut event_loop: EventLoop<SimAction> = EventLoop::new();
    let mut link = make_link(8);

    link.send_data(&mut event_loop, 0, vec![5; 16]);

    // drop the arrival, keep the timer
    let timeout_at = loop {
        match event_loop.advance() {
            Some((t, SimAction::Timeout { seq })) => {
                assert_eq!(seq, 0);
                break t;
            }
            Some((_, SimAction::Arrival { .. })) => continue,
            None => panic!("expected the timer to fire"),
        }
    };

    // the frame is still outstanding: firing the timer re-sends it and
    // arms a fresh timer
    link.on_timeout(&mut event_loop, timeout_at, 0);
    assert_eq!(
        event_loop.pending_count(),
        2,
        "a retransmission and a fresh timer must be scheduled"
    );

    // after the ACK the same timer action is a silent no-op
    link.handle_ack(&mut event_loop, 0);
    let before = event_loop.pending_count();
    link.on_timeout(&mut event_loop, timeout_at, 0);
    assert_eq!(event_loop.pending_count(), before, "an acknowledged frame is not re-sent");
}

#[test]
fn test_handle_nak_retransmits() {
    let mut event_loop: EventLoop<SimAction> = EventLoop::new();
    let mut link = make_link(8);

    link.send_data(&mut event_loop, 0, vec![5; 16]);
    let before = event_loop.pending_count();

    // a NAK for an outstanding frame re-sends it on the forward channel
    link.handle_nak(&mut event_loop, 100, 0);
    assert_eq!(event_loop.pending_count(), before + 1);

    // a NAK for an unknown frame does nothing
    link.handle_nak(&mut event_loop, 200, 9);
    assert_eq!(event_loop.pending_count(), before + 1);
}

#[test]
fn test_send_ack_and_nak_use_reverse_channel() {
    let mut event_loop: EventLoop<SimAction> = EventLoop::new();
    let mut link = make_link(8);

    link.send_ack(&mut event_loop, 0, 3);
    link.send_nak(&mut event_loop, 0, 4);

    let mut kinds = Vec::new();
    while let Some((_, action)) = event_loop.advance() {
        match action {
            SimAction::Arrival { channel, frame } => {
                assert_eq!(channel, 1, "control frames flow on the reverse channel");
                kinds.push(match frame {
                    Frame::Rr(s) => ("rr", s),
                    Frame::Srej(s) => ("srej", s),
                    Frame::Corrupted => ("corrupted", -1),
                    Frame::Data(_) => ("data", -1),
                });
            }
            SimAction::Timeout { .. } => panic!("no timer was armed"),
        }
    }
    assert_eq!(kinds.len(), 2);
    // either control frame may have been corrupted in transit
    assert!(kinds[0] == ("rr", 3) || kinds[0] == ("corrupted", -1));
    assert!(kinds[1] == ("srej", 4) || kinds[1] == ("corrupted", -1));
}

#[test]
fn test_empty_payload_frames() {
    // zero-length payloads flow through delivery and buffering unchanged
    let mut receiver = Receiver::new();

    let (resp1, del1) = receiver.receive_frame(1, Frame::Data(Vec::new()));
    assert_eq!(resp1, Some(Frame::Srej(0)));
    assert_eq!(del1.len(), 0);
    assert_eq!(receiver.buffer_size, 0);

    let (resp0, del0) = receiver.receive_frame(0, Frame::Data(Vec::new()));
    assert_eq!(resp0, Some(Frame::Rr(0)));
    assert_eq!(del0, vec![Vec::<u8>::new(), Vec::<u8>::new()]);
    assert_eq!(receiver.base, 2);
}
