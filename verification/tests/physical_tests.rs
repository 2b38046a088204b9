use arq_sim::common::{FORWARD_PATH, FRAME_OVERHEAD, PROCESSING_DELAY, REVERSE_PATH};
use arq_sim::event_loop::EventLoop;
use arq_sim::layers::physical::{Frame, SimAction, SimplexChannel};

/// Pops the next event, which must be an arrival on `channel`, and hands
/// the frame to the channel's delivery queue.
fn pump_one(event_loop: &mut EventLoop<SimAction>, channel: &mut SimplexChannel) {
    match event_loop.advance() {
        Some((time, SimAction::Arrival { channel: ch, frame })) => {
            assert_eq!(ch, channel.channel_id);
            channel.deliver(time, frame);
        }
        other => panic!("expected an arrival event, got {:?}", other.is_some()),
    }
}

#[test]
fn test_frame_size_bits() {
    // ACK/NAK frames cost just the header
    let rr = Frame::Rr(42);
    assert_eq!(rr.size_bits(), FRAME_OVERHEAD);

    let srej = Frame::Srej(42);
    assert_eq!(srej.size_bits(), FRAME_OVERHEAD);

    // a data frame costs header plus payload
    let data = Frame::Data(vec![0u8; 100]);
    assert_eq!(data.size_bits(), 100 * 8 + FRAME_OVERHEAD);
}

#[test]
fn test_channel_send_receive() {
    let mut event_loop: EventLoop<SimAction> = EventLoop::new();
    let mut channel = SimplexChannel::new(0, FORWARD_PATH);

    // send a frame
    let data = Frame::Data(vec![1, 2, 3]);
    channel.send(&mut event_loop, 0, data);

    // the arrival is now scheduled on the event loop
    assert_eq!(event_loop.pending_count(), 1);

    // process the event and take the delivery
    pump_one(&mut event_loop, &mut channel);
    let (recv_time, recv_frame) = channel.receive().expect("a delivery");

    // at one tick per bit the timing is exact
    let expected_time = (3 * 8 + FRAME_OVERHEAD) + FORWARD_PATH + PROCESSING_DELAY;
    assert_eq!(recv_time, expected_time);

    // the frame arrives unchanged, or corrupted (which can happen randomly)
    match recv_frame {
        Frame::Data(d) => assert_eq!(d, vec![1, 2, 3]),
        Frame::Corrupted => {}
        _ => panic!("Unexpected frame type"),
    }
}

#[test]
fn test_multiple_frames() {
    let mut event_loop: EventLoop<SimAction> = EventLoop::new();
    let mut channel = SimplexChannel::new(0, FORWARD_PATH);

    // send 3 frames at different times
    channel.send(&mut event_loop, 0, Frame::Rr(1));
    channel.send(&mut event_loop, 1_000_000, Frame::Srej(2));
    channel.send(&mut event_loop, 2_000_000, Frame::Data(vec![1, 2, 3]));

    assert_eq!(event_loop.pending_count(), 3);

    // process all events
    pump_one(&mut event_loop, &mut channel);
    pump_one(&mut event_loop, &mut channel);
    pump_one(&mut event_loop, &mut channel);

    // receive all frames
    let (time1, _frame1) = channel.receive().expect("a delivery");
    let (time2, _frame2) = channel.receive().expect("a delivery");
    let (time3, _frame3) = channel.receive().expect("a delivery");

    // they arrive in time order
    assert!(time1 < time2);
    assert!(time2 < time3);
}

#[test]
fn test_propagation_delay() {
    let mut event_loop: EventLoop<SimAction> = EventLoop::new();
    let propagation_delay = 500_000; // 50 ms in ticks
    let mut channel = SimplexChannel::new(0, propagation_delay);

    let send_time = 10_000_000; // 1 s in ticks
    channel.send(&mut event_loop, send_time, Frame::Rr(1));

    pump_one(&mut event_loop, &mut channel);

    let (recv_time, _) = channel.receive().expect("a delivery");

    // expected: send time + transmission time + propagation + processing
    let transmission_time = FRAME_OVERHEAD;
    let expected = send_time + transmission_time + propagation_delay + PROCESSING_DELAY;

    assert_eq!(recv_time, expected);
}

#[test]
fn test_different_frame_sizes() {
    let mut event_loop: EventLoop<SimAction> = EventLoop::new();
    let mut channel = SimplexChannel::new(0, FORWARD_PATH);

    // small frame
    channel.send(&mut event_loop, 0, Frame::Data(vec![0u8; 10]));

    // large frame
    channel.send(&mut event_loop, 0, Frame::Data(vec![0u8; 1000]));

    pump_one(&mut event_loop, &mut channel);
    pump_one(&mut event_loop, &mut channel);

    let (time1, _) = channel.receive().expect("a delivery");
    let (time2, _) = channel.receive().expect("a delivery");

    // the larger frame takes longer to transmit
    assert!(time2 > time1);
}

#[test]
fn test_ack_nak_frames() {
    let mut event_loop: EventLoop<SimAction> = EventLoop::new();
    let mut channel = SimplexChannel::new(1, REVERSE_PATH);

    // send an ACK
    channel.send(&mut event_loop, 0, Frame::Rr(42));
    pump_one(&mut event_loop, &mut channel);

    let (_, frame) = channel.receive().expect("a delivery");
    match frame {
        Frame::Rr(seq) => assert_eq!(seq, 42),
        Frame::Corrupted => {} // can happen
        _ => panic!("Expected Rr frame"),
    }
}
