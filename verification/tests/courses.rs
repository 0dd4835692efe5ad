use snib_capture::picture::Transform;
use snib_capture::run::{Phase, Run, RunAction, RunEvent};
use snib_capture::session::{BufferPlan, Capture, FrameEvent, SessionEvent, WireTransform};

fn offered() -> Capture {
    let mut cap = Capture::default();
    cap.session_event(SessionEvent::BufferSize { width: 4, height: 2 });
    cap.session_event(SessionEvent::ShmFormat { format: 1 });
    cap.session_event(SessionEvent::Done);
    cap
}

fn allocated(cap: &Capture) -> (Run, BufferPlan) {
    let mut run = Run::new();
    match run.step(cap, RunEvent::Opened) {
        RunAction::Allocate { plan } => (run, plan),
        other => panic!("{:?}", other),
    }
}

#[test]
fn a_capture_runs_to_a_written_frame() {
    let mut cap = Capture::default();
    let mut run = Run::new();
    assert!(run.can_step(&cap, RunEvent::Opened));
    assert_eq!(run.step(&cap, RunEvent::Opened), RunAction::Dispatch);
    cap = offered();
    let plan = match run.step(&cap, RunEvent::Dispatched { ok: true }) {
        RunAction::Allocate { plan } => plan,
        other => panic!("{:?}", other),
    };
    assert_eq!((plan.width, plan.height, plan.size, plan.opaque), (4, 2, 32, true));
    assert_eq!(run.step(&cap, RunEvent::Allocated { ok: true }), RunAction::Dispatch);
    cap.frame_event(FrameEvent::Ready);
    assert_eq!(
        run.step(&cap, RunEvent::Dispatched { ok: true }),
        RunAction::Finish { plan, written: true }
    );
    assert_eq!(run.phase, Phase::Over);
    assert_eq!(run.step(&cap, RunEvent::Opened), RunAction::Nothing);
}

#[test]
fn a_refused_session_is_destroyed() {
    let mut cap = offered();
    cap.session_event(SessionEvent::Stopped);
    assert_eq!(Run::new().step(&cap, RunEvent::Opened), RunAction::DestroySession);
    let mut run = Run::new();
    let silent = Capture::default();
    assert_eq!(run.step(&silent, RunEvent::Opened), RunAction::Dispatch);
    assert_eq!(
        run.step(&offered(), RunEvent::Dispatched { ok: false }),
        RunAction::DestroySession
    );
}

#[test]
fn a_session_without_size_is_abandoned() {
    let mut cap = Capture::default();
    cap.session_event(SessionEvent::Done);
    assert_eq!(Run::new().step(&cap, RunEvent::Opened), RunAction::Abandon);
}

#[test]
fn a_capture_without_memory_is_abandoned() {
    let cap = offered();
    let (mut run, _) = allocated(&cap);
    assert_eq!(run.step(&cap, RunEvent::Dispatched { ok: true }), RunAction::Nothing);
    assert_eq!(run.step(&cap, RunEvent::Allocated { ok: false }), RunAction::Abandon);
    assert_eq!(run.phase, Phase::Over);
}

#[test]
fn a_failed_frame_is_not_developed() {
    let mut cap = offered();
    let (mut run, plan) = allocated(&cap);
    assert_eq!(run.step(&cap, RunEvent::Allocated { ok: true }), RunAction::Dispatch);
    cap.frame_event(FrameEvent::Failed { reason: "Unknown".to_string() });
    assert_eq!(
        run.step(&cap, RunEvent::Dispatched { ok: true }),
        RunAction::Finish { plan, written: false }
    );
}

#[test]
fn a_ready_frame_counts_though_it_failed_too() {
    let mut cap = offered();
    let (mut run, plan) = allocated(&cap);
    cap.frame_event(FrameEvent::Ready);
    cap.frame_event(FrameEvent::Failed { reason: "Unknown".to_string() });
    assert_eq!(
        run.step(&cap, RunEvent::Allocated { ok: true }),
        RunAction::Finish { plan, written: true }
    );
}

#[test]
fn a_frame_that_never_comes_is_given_up() {
    let cap = offered();
    let (mut run, plan) = allocated(&cap);
    let mut action = run.step(&cap, RunEvent::Allocated { ok: true });
    let mut dispatches = 0;
    while action == RunAction::Dispatch {
        dispatches += 1;
        action = run.step(&cap, RunEvent::Dispatched { ok: true });
    }
    assert_eq!(dispatches, 512);
    assert_eq!(action, RunAction::Finish { plan, written: false });
}

#[test]
fn a_size_out_of_reach_stops_the_capture() {
    let mut cap = Capture::default();
    cap.session_event(SessionEvent::BufferSize { width: 1 << 30, height: 1 });
    assert!(Run::new().can_step(&cap, RunEvent::Opened));
    cap.session_event(SessionEvent::Done);
    assert!(!Run::new().can_step(&cap, RunEvent::Opened));
    assert!(!Run::new().can_step(&cap, RunEvent::Dispatched { ok: true }));
    assert!(Run::new().can_step(&cap, RunEvent::Dispatched { ok: false }));
    assert!(Run::new().can_step(&cap, RunEvent::Allocated { ok: true }));
    cap.session_event(SessionEvent::Stopped);
    assert!(Run::new().can_step(&cap, RunEvent::Opened));
}

#[test]
fn a_failed_wait_destroys_the_session_whatever_the_size() {
    let silent = Capture::default();
    let mut huge = Capture::default();
    huge.session_event(SessionEvent::BufferSize { width: 1 << 30, height: 1 });
    huge.session_event(SessionEvent::Done);
    let mut run = Run::new();
    assert_eq!(run.step(&silent, RunEvent::Opened), RunAction::Dispatch);
    assert_eq!(run.step(&huge, RunEvent::Dispatched { ok: false }), RunAction::DestroySession);
    let mut last = Run::new();
    let mut action = last.step(&silent, RunEvent::Opened);
    for _ in 1..512 {
        assert_eq!(action, RunAction::Dispatch);
        action = last.step(&silent, RunEvent::Dispatched { ok: true });
    }
    assert_eq!(action, RunAction::Dispatch);
    assert!(last.can_step(&huge, RunEvent::Dispatched { ok: true }));
    assert_eq!(last.step(&huge, RunEvent::Dispatched { ok: true }), RunAction::DestroySession);
}

#[test]
fn an_earlier_capture_leaves_no_trace() {
    let mut used = offered();
    used.frame_event(FrameEvent::Transform {
        transform: WireTransform::Value(Transform::Flipped),
    });
    used.frame_event(FrameEvent::Ready);
    used.frame_event(FrameEvent::Failed { reason: "Unknown".to_string() });
    let mut fresh = Capture::default();
    for cap in [&mut used, &mut fresh] {
        let mut run = Run::open(cap);
        assert_eq!(run.phase, Phase::Constraints { rounds: 0 });
        assert_eq!(cap.size, None);
        assert!(cap.formats.is_empty());
        assert_eq!((cap.transform, cap.ready, cap.failed), (None, false, false));
        assert_eq!((cap.constraints_done, cap.fail_reason.is_none()), (false, true));
        assert_eq!(run.step(cap, RunEvent::Opened), RunAction::Dispatch);
    }
}
