use ccsds_tmtc::clcw::Clcw;
use ccsds_tmtc::fop::{Fop, FopState, FrameEvent};
use ccsds_tmtc::modular::{wrapping_le, wrapping_lt, wrapping_next};
use ccsds_tmtc::tc::FrameType;

fn clcw(vr: u8, lockout: bool, retransmit: bool) -> Clcw {
    Clcw {
        control_word_type: 0,
        clcw_version_number: 0,
        status_field: 0,
        cop_in_effect: 1,
        virtual_channel_identification: 0,
        no_rf_available: false,
        no_bit_lock: false,
        lockout,
        wait: false,
        retransmit,
        farm_b_counter: 0,
        report_value: vr,
    }
}

fn active_fop(vr: u8, events: &mut Vec<FrameEvent>) -> Fop {
    let mut fop = Fop::new();
    fop.set_vr(vr, events);
    fop.handle_clcw(&clcw(vr, false, false), events);
    fop
}

fn queue_len(fop: &Fop) -> usize {
    match fop.state_view() {
        FopState::Active(a) => a.sent_queue.len(),
        FopState::Retransmit(r) => r.retransmit_sent_queue.len() + r.retransmit_wait_queue.len(),
        FopState::Initial { .. } => 0,
    }
}

#[test]
fn fop_happy_path() {
    let mut events = vec![];
    let mut fop = Fop::new();
    let setvr = fop.set_vr(5, &mut events);
    assert_eq!(setvr.data_field, vec![0x82, 0x00, 5]);
    assert_eq!(setvr.frame_type, FrameType::TypeBC);
    assert_eq!(fop.next_fsn(), Some(5));
    fop.handle_clcw(&clcw(5, false, false), &mut events);
    assert!(matches!(fop.state_view(), FopState::Active(_)));
    let frame = fop.send_ad(vec![1, 2, 3], 1000, &mut events).unwrap();
    assert_eq!(frame.sequence_number, 5);
    assert_eq!(frame.frame_type, FrameType::TypeAD);
    assert_eq!(frame.data_field, vec![1, 2, 3]);
    assert_eq!(events, vec![FrameEvent::Transmit(frame.id)]);
    fop.handle_clcw(&clcw(6, false, false), &mut events);
    assert_eq!(events, vec![FrameEvent::Transmit(frame.id), FrameEvent::Acknowledged(frame.id)]);
    assert_eq!(queue_len(&fop), 0);
    assert_eq!(fop.next_fsn(), Some(6));
}

#[test]
fn fop_retransmission_timeout() {
    let mut events = vec![];
    let mut fop = active_fop(0, &mut events);
    let frame = fop.send_ad(vec![9], 10_000, &mut events).unwrap();
    assert!(fop.update(14_000, &mut events).is_none());
    let again = fop.update(16_000, &mut events).unwrap();
    assert_eq!(again.id, frame.id);
    assert_eq!(again.data_field, vec![9]);
    assert_eq!(events.last(), Some(&FrameEvent::Retransmit(frame.id)));
    match fop.state_view() {
        FopState::Retransmit(r) => assert_eq!(r.retransmit_count, 1),
        _ => panic!("expected retransmit state"),
    }
}

#[test]
fn fop_send_ad_outside_active() {
    let mut events = vec![];
    let mut fop = Fop::new();
    assert!(fop.send_ad(vec![1], 0, &mut events).is_none());
    fop.set_vr(3, &mut events);
    assert!(fop.send_ad(vec![1], 0, &mut events).is_none());
    fop.handle_clcw(&clcw(4, false, false), &mut events);
    assert!(fop.send_ad(vec![1], 0, &mut events).is_none());
    assert!(events.is_empty());
}

#[test]
fn fop_progress_many_frames() {
    let mut events = vec![];
    let mut fop = active_fop(250, &mut events);
    let mut ids = vec![];
    for i in 0..10u64 {
        ids.push(fop.send_ad(vec![i as u8], i, &mut events).unwrap().id);
    }
    assert_eq!(fop.next_fsn(), Some(4));
    events.clear();
    fop.handle_clcw(&clcw(4, false, false), &mut events);
    let acked: Vec<FrameEvent> = ids.iter().map(|id| FrameEvent::Acknowledged(*id)).collect();
    assert_eq!(events, acked);
    assert_eq!(queue_len(&fop), 0);
    assert!(matches!(fop.state_view(), FopState::Active(_)));
}

#[test]
fn fop_lockout_cancels_everything() {
    let mut events = vec![];
    let mut fop = active_fop(10, &mut events);
    let a = fop.send_ad(vec![1], 0, &mut events).unwrap().id;
    let b = fop.send_ad(vec![2], 0, &mut events).unwrap().id;
    let c = fop.send_ad(vec![3], 0, &mut events).unwrap().id;
    events.clear();
    fop.handle_clcw(&clcw(11, true, false), &mut events);
    assert_eq!(events, vec![FrameEvent::Acknowledged(a), FrameEvent::Cancel(b), FrameEvent::Cancel(c)]);
    assert!(matches!(fop.state_view(), FopState::Initial { expected_nr: Some(13) }));
    assert_eq!(queue_len(&fop), 0);
}

#[test]
fn fop_clcw_retransmit_flag() {
    let mut events = vec![];
    let mut fop = active_fop(0, &mut events);
    let a = fop.send_ad(vec![1], 0, &mut events).unwrap().id;
    let b = fop.send_ad(vec![2], 0, &mut events).unwrap().id;
    events.clear();
    fop.handle_clcw(&clcw(1, false, true), &mut events);
    assert_eq!(events, vec![FrameEvent::Acknowledged(a)]);
    let again = fop.update(0, &mut events).unwrap();
    assert_eq!(again.id, b);
    fop.handle_clcw(&clcw(2, false, false), &mut events);
    assert_eq!(events.last(), Some(&FrameEvent::Acknowledged(b)));
    assert!(matches!(fop.state_view(), FopState::Active(_)));
}

#[test]
fn fop_set_vr_cancels_in_flight() {
    let mut events = vec![];
    let mut fop = active_fop(0, &mut events);
    let a = fop.send_ad(vec![1], 0, &mut events).unwrap().id;
    events.clear();
    let frame = fop.set_vr(42, &mut events);
    assert_eq!(frame.id, 0);
    assert_eq!(frame.sequence_number, 0);
    assert_eq!(events, vec![FrameEvent::Cancel(a)]);
    assert_eq!(fop.next_fsn(), Some(42));
    let unlock = fop.unlock();
    assert_eq!(unlock.data_field, vec![0x00]);
    assert_eq!(unlock.frame_type, FrameType::TypeBC);
    assert_eq!(fop.next_fsn(), Some(42));
    fop.handle_clcw(&clcw(7, false, false), &mut events);
    assert_eq!(fop.last_received_farm_state().unwrap().next_expected_fsn, 7);
}

#[test]
fn wrapping_comparisons() {
    assert!(wrapping_lt(5, 6));
    assert!(!wrapping_lt(6, 6));
    assert!(wrapping_lt(250, 3));
    assert!(!wrapping_lt(3, 250));
    assert!(wrapping_lt(0, 127));
    assert!(!wrapping_lt(0, 128));
    assert!(wrapping_le(7, 7));
    for a in 0..=255u8 {
        for b in 0..=255u8 {
            let expected = a != b && (b.wrapping_sub(a) as u32) < 128;
            assert_eq!(wrapping_lt(a, b), expected);
        }
    }
    assert_eq!(wrapping_next(0xFFFFFF, 0x1000000), 0);
    assert_eq!(wrapping_next(41, 0x1000000), 42);
}
