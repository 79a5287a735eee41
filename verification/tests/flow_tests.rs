use udpstream::flow::{parse_feedback, CreditState, FlowController};

#[test]
fn unknown_state_always_has_budget() {
    let fc = FlowController::new(256);
    assert_eq!(fc.state, CreditState::Unknown);
    assert!(fc.has_budget());
}

#[test]
fn first_feedback_sets_exactly_the_datagram_values() {
    let mut fc = FlowController::new(256);
    // remaining = 500 (0x01F4), maximum = 1024 (0x0400), big-endian.
    fc.process_datagram(&[0u8, 0x01, 0xF4, 0x04, 0x00]);
    assert_eq!(
        fc.state,
        CreditState::Known {
            remaining: 500,
            maximum: 1024
        }
    );
}

#[test]
fn feedback_replay_is_idempotent() {
    let mut fc = FlowController::new(256);
    fc.apply_feedback(500, 1024);
    let after_first = fc.state;
    fc.apply_feedback(500, 1024);
    assert_eq!(fc.state, after_first);
}

#[test]
fn garbage_datagram_is_ignored() {
    let mut fc = FlowController::new(256);
    fc.process_datagram(&[0u8, 0x01, 0xF4, 0x04, 0x00]);
    // An eight-byte datagram is not feedback: state must stay (500, 1024).
    fc.process_datagram(&[0xFFu8, 0xFF, 0xFF, 0xFF, 0xFF, 0xFF, 0xFF, 0xFF]);
    assert_eq!(
        fc.state,
        CreditState::Known {
            remaining: 500,
            maximum: 1024
        }
    );
}

#[test]
fn parse_feedback_accepts_only_five_bytes() {
    assert_eq!(parse_feedback(&[1u8, 0, 100, 3, 232]), Some((100, 1000)));
    assert_eq!(parse_feedback(&[]), None);
    assert_eq!(parse_feedback(&[0u8; 4]), None);
    assert_eq!(parse_feedback(&[0u8; 6]), None);
}

#[test]
fn note_sent_advances_remaining_by_one_block() {
    let mut fc = FlowController::new(256);
    fc.apply_feedback(0, 1024);
    assert!(fc.has_budget());
    fc.note_sent();
    assert_eq!(
        fc.state,
        CreditState::Known {
            remaining: 256,
            maximum: 1024
        }
    );
}

#[test]
fn receive_failure_falls_back_to_unknown() {
    let mut fc = FlowController::new(256);
    fc.apply_feedback(500, 1024);
    fc.on_receive_failure();
    assert_eq!(fc.state, CreditState::Unknown);
    assert!(fc.has_budget());
}

#[test]
fn decide_send_caps_the_burst() {
    let mut fc = FlowController::new(256);
    fc.apply_feedback(0, 1024);
    // 0 of 1024 occupied: a send is authorized, and enough room is left
    // that the loop need not poll yet.
    let d1 = fc.decide_send();
    assert!(d1.send);
    assert!(!d1.poll_feedback);
    let d2 = fc.decide_send();
    assert!(d2.send);
    assert!(!d2.poll_feedback);
    // The third send leaves exactly one block of room, which still fits.
    let d3 = fc.decide_send();
    assert!(d3.send);
    assert!(!d3.poll_feedback);
    assert_eq!(
        fc.state,
        CreditState::Known {
            remaining: 768,
            maximum: 1024
        }
    );
    // The fourth send fills the buffer: polling must resume.
    let d4 = fc.decide_send();
    assert!(d4.send);
    assert!(d4.poll_feedback);
    // Now the receiver's buffer is (optimistically) full: throttle.
    let d5 = fc.decide_send();
    assert!(!d5.send);
    assert!(d5.poll_feedback);
    assert_eq!(
        fc.state,
        CreditState::Known {
            remaining: 1024,
            maximum: 1024
        }
    );
}

#[test]
fn decide_send_in_unknown_state_sends_and_polls() {
    let mut fc = FlowController::new(256);
    let d = fc.decide_send();
    assert!(d.send);
    assert!(d.poll_feedback);
    assert_eq!(fc.state, CreditState::Unknown);
}

#[test]
fn overreported_occupancy_gives_no_budget() {
    let mut fc = FlowController::new(256);
    fc.apply_feedback(2000, 1024);
    assert!(!fc.has_budget());
}
