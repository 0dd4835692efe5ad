use snib_capture::picture::Transform;
use snib_capture::session::{
    choose_format, is_measurable, Capture, FrameEvent, Goal, Negotiation, SessionEvent, ShmFormat,
    Wait, WaitAction, WaitEvent, WireTransform, AR24, MAX_ROUNDS, XR24,
};

fn announced(width: u32, height: u32, formats: &[u32]) -> Capture {
    let mut cap = Capture::default();
    cap.session_event(SessionEvent::BufferSize { width, height });
    for f in formats {
        cap.session_event(SessionEvent::ShmFormat { format: *f });
    }
    cap.session_event(SessionEvent::Done);
    cap
}

#[test]
fn a_new_session_knows_nothing() {
    let cap = Capture::default();
    assert_eq!(cap.size, None);
    assert!(cap.formats.is_empty());
    assert!(!cap.constraints_done && !cap.ready && !cap.failed);
    assert_eq!(cap.transform, None);
    assert_eq!(cap.fail_reason, None);
}

#[test]
fn session_events_are_taken_in() {
    let mut cap = announced(8, 6, &[5, 1]);
    assert_eq!(cap.size, Some((8, 6)));
    assert_eq!(cap.formats, vec![5, 1]);
    assert!(cap.constraints_done && !cap.failed);
    cap.session_event(SessionEvent::BufferSize { width: 9, height: 7 });
    assert_eq!(cap.size, Some((9, 7)));
    cap.session_event(SessionEvent::Other);
    assert!(!cap.failed);
    cap.session_event(SessionEvent::Stopped);
    assert!(cap.failed);
    cap.session_event(SessionEvent::Done);
    assert!(cap.failed);
}

#[test]
fn frame_events_are_taken_in() {
    let mut cap = Capture::default();
    cap.frame_event(FrameEvent::Transform { transform: WireTransform::Value(Transform::Flipped) });
    cap.frame_event(FrameEvent::Transform { transform: WireTransform::Unknown(77) });
    assert_eq!(cap.transform, Some(Transform::Flipped));
    cap.frame_event(FrameEvent::Other);
    assert!(!cap.ready);
    cap.frame_event(FrameEvent::Ready);
    assert!(cap.ready && !cap.failed);
    cap.frame_event(FrameEvent::Failed { reason: "Stopped".to_string() });
    assert!(cap.ready && cap.failed);
    assert_eq!(cap.fail_reason, Some("Stopped".to_string()));
}

#[test]
fn failure_settles_everything() {
    let mut cap = Capture::default();
    assert!(!cap.is_settled(Goal::Constraints) && !cap.is_settled(Goal::Frame));
    cap.session_event(SessionEvent::Done);
    assert!(cap.is_settled(Goal::Constraints) && !cap.is_settled(Goal::Frame));
    cap.session_event(SessionEvent::Stopped);
    assert!(cap.is_settled(Goal::Constraints) && cap.is_settled(Goal::Frame));
    assert!(!cap.frame_is_written(true));
    cap.frame_event(FrameEvent::Ready);
    assert!(cap.frame_is_written(true));
    assert!(!cap.frame_is_written(false));
}

#[test]
fn opaque_formats_are_preferred() {
    assert_eq!(choose_format(&vec![0, 1]), (ShmFormat::Xrgb8888, true));
    assert_eq!(choose_format(&vec![1]), (ShmFormat::Xrgb8888, true));
    assert_eq!(choose_format(&vec![AR24, XR24]), (ShmFormat::Xrgb8888, true));
    assert_eq!(choose_format(&vec![0]), (ShmFormat::Argb8888, false));
    assert_eq!(choose_format(&vec![7, AR24]), (ShmFormat::Argb8888, false));
    assert_eq!(choose_format(&vec![]), (ShmFormat::Xrgb8888, true));
    assert_eq!(choose_format(&vec![7, 8]), (ShmFormat::Xrgb8888, true));
    assert_eq!(XR24.to_le_bytes(), *b"XR24");
    assert_eq!(AR24.to_le_bytes(), *b"AR24");
}

#[test]
fn buffers_are_planned_by_the_constraints() {
    let cap = announced(10, 3, &[0]);
    match cap.negotiate(true) {
        Negotiation::Buffer(plan) => {
            assert_eq!((plan.width, plan.height, plan.stride, plan.size), (10, 3, 40, 120));
            assert_eq!((plan.format, plan.opaque), (ShmFormat::Argb8888, false));
            assert_eq!((plan.pool_size, plan.wire_stride), (120, 40));
            assert_eq!((plan.wire_width, plan.wire_height), (10, 3));
        }
        other => panic!("{:?}", other),
    }
}

#[test]
fn large_buffers_wrap_on_the_wire() {
    let cap = announced(0x2000_0000, 4, &[]);
    match cap.negotiate(true) {
        Negotiation::Buffer(plan) => {
            assert_eq!(plan.stride, 0x8000_0000);
            assert_eq!(plan.wire_stride, i32::MIN);
            assert_eq!(plan.pool_size, 0);
        }
        other => panic!("{:?}", other),
    }
}

#[test]
fn sessions_without_an_offer_are_dropped() {
    let mut cap = announced(10, 3, &[0]);
    assert_eq!(cap.negotiate(false), Negotiation::Refused);
    cap.session_event(SessionEvent::Stopped);
    assert_eq!(cap.negotiate(true), Negotiation::Refused);
    let mut unsized_cap = Capture::default();
    unsized_cap.session_event(SessionEvent::Done);
    assert_eq!(unsized_cap.negotiate(true), Negotiation::Unsized);
}

#[test]
fn sizes_are_measured() {
    assert!(is_measurable(0, 0));
    assert!(is_measurable(1073741823, 1));
    assert!(!is_measurable(1073741824, 1));
    assert!(!is_measurable(u32::MAX, 0));
}

#[test]
fn a_wait_ends_when_settled() {
    let mut wait = Wait::new();
    assert_eq!(wait.step(WaitEvent::Looked { settled: false }), WaitAction::Dispatch);
    assert_eq!(wait.step(WaitEvent::Dispatched { ok: true }), WaitAction::Look);
    assert_eq!(
        wait.step(WaitEvent::Looked { settled: true }),
        WaitAction::Finish { settled: true }
    );
}

#[test]
fn a_wait_ends_when_dispatch_fails() {
    let mut wait = Wait::new();
    assert_eq!(wait.step(WaitEvent::Looked { settled: false }), WaitAction::Dispatch);
    assert_eq!(
        wait.step(WaitEvent::Dispatched { ok: false }),
        WaitAction::Finish { settled: false }
    );
}

#[test]
fn a_wait_runs_out_of_rounds() {
    let mut wait = Wait::new();
    for round in 1..=MAX_ROUNDS {
        assert_eq!(wait.step(WaitEvent::Looked { settled: false }), WaitAction::Dispatch);
        assert_eq!(wait.rounds, round);
        let next = wait.step(WaitEvent::Dispatched { ok: true });
        if round < 512 {
            assert_eq!(next, WaitAction::Look);
        } else {
            assert_eq!(next, WaitAction::Finish { settled: false });
        }
    }
    assert_eq!(
        wait.step(WaitEvent::Looked { settled: true }),
        WaitAction::Finish { settled: false }
    );
}
