//! The course of one capture, from an open session to a written frame.

use crate::session::{
    buffers_are_made_for_the_frame, is_measurable, measurable, negotiated, settled, untold,
    wait_step, BufferPlan, Capture, CaptureView, Goal, Negotiation, ShmFormat, Wait, WaitAction,
    WaitEvent, MAX_ROUNDS,
};
use vstd::prelude::*;

verus! {

/// How far a capture has come.
#[derive(Clone, Copy, Debug, PartialEq, Eq, Structural)]
pub enum Phase {
    /// Waiting for the constraints of the session, after so many rounds.
    Constraints { rounds: u32 },
    /// Waiting for the memory of the buffer.
    Allocating { plan: BufferPlan },
    /// Waiting for the frame in the buffer, after so many rounds.
    Frame { rounds: u32, plan: BufferPlan },
    /// Nothing is left to do.
    Over,
}

/// What has happened since the last step of a capture.
#[derive(Clone, Copy, Debug, PartialEq, Eq, Structural)]
pub enum RunEvent {
    /// The session was opened.
    Opened,
    /// A batch of events was dispatched, with or without success.
    Dispatched { ok: bool },
    /// The buffer was made and its capture asked for, or there was no memory.
    Allocated { ok: bool },
}

/// What a capture asks for next.
#[derive(Clone, Copy, Debug, PartialEq, Eq, Structural)]
pub enum RunAction {
    /// Block until events arrive, and dispatch them.
    Dispatch,
    /// Make the buffer, and ask for its capture.
    Allocate { plan: BufferPlan },
    /// End without a picture, and destroy the session.
    DestroySession,
    /// End without a picture, and leave the session alone.
    Abandon,
    /// End, destroy whatever was made, and develop the frame if it was written.
    Finish { plan: BufferPlan, written: bool },
    /// The event has no bearing on how far the capture has come.
    Nothing,
}

/// A look at the session after `rounds`: the rounds asked for by now, and how
/// the wait ended if it has.
pub open spec fn looked(rounds: u32, is_settled: bool) -> (u32, Option<bool>) {
    match wait_step(rounds as int, WaitEvent::Looked { settled: is_settled }) {
        (r, WaitAction::Finish { settled }) => (r as u32, Some(settled)),
        (r, _) => (r as u32, None),
    }
}

/// The same after a dispatch, which may have ended the wait already.
pub open spec fn dispatched(rounds: u32, ok: bool, is_settled: bool) -> (u32, Option<bool>) {
    match wait_step(rounds as int, WaitEvent::Dispatched { ok }) {
        (r, WaitAction::Finish { settled }) => (r as u32, Some(settled)),
        (r, _) => looked(r as u32, is_settled),
    }
}

/// How the capture goes on from the wait for the constraints.
pub open spec fn after_constraints(wait: (u32, Option<bool>), c: CaptureView) -> (Phase, RunAction) {
    match wait.1 {
        None => (Phase::Constraints { rounds: wait.0 }, RunAction::Dispatch),
        Some(waited) => match negotiated(c, waited) {
            Negotiation::Refused => (Phase::Over, RunAction::DestroySession),
            Negotiation::Unsized => (Phase::Over, RunAction::Abandon),
            Negotiation::Buffer(plan) => (
                Phase::Allocating { plan },
                RunAction::Allocate { plan },
            ),
        },
    }
}

/// How the capture goes on from the wait for the frame.
pub open spec fn after_frame(
    wait: (u32, Option<bool>),
    plan: BufferPlan,
    c: CaptureView,
) -> (Phase, RunAction) {
    match wait.1 {
        None => (Phase::Frame { rounds: wait.0, plan }, RunAction::Dispatch),
        Some(waited) => (Phase::Over, RunAction::Finish { plan, written: waited && c.ready }),
    }
}

/// A step of a capture, where the session stands as `c` says.
pub open spec fn run_step(phase: Phase, c: CaptureView, event: RunEvent) -> (Phase, RunAction) {
    match (phase, event) {
        (Phase::Constraints { rounds }, RunEvent::Opened) => after_constraints(
            looked(rounds, settled(c, Goal::Constraints)),
            c,
        ),
        (Phase::Constraints { rounds }, RunEvent::Dispatched { ok }) => after_constraints(
            dispatched(rounds, ok, settled(c, Goal::Constraints)),
            c,
        ),
        (Phase::Allocating { plan }, RunEvent::Allocated { ok }) => if ok {
            after_frame(looked(0, settled(c, Goal::Frame)), plan, c)
        } else {
            (Phase::Over, RunAction::Abandon)
        },
        (Phase::Frame { rounds, plan }, RunEvent::Dispatched { ok }) => after_frame(
            dispatched(rounds, ok, settled(c, Goal::Frame)),
            plan,
            c,
        ),
        _ => (phase, RunAction::Nothing),
    }
}

/// A capture that was just opened, and what its session has been told, where
/// the session before it was told `before`.
pub open spec fn opened(before: CaptureView) -> (Phase, CaptureView) {
    (Phase::Constraints { rounds: 0 }, untold())
}

/// One capture under way.
pub struct Run {
    pub phase: Phase,
}

fn look(rounds: u32, is_settled: bool) -> (wait: (u32, Option<bool>))
    ensures
        wait == looked(rounds, is_settled),
{
    let mut wait = Wait { rounds };
    match wait.step(WaitEvent::Looked { settled: is_settled }) {
        WaitAction::Finish { settled } => (wait.rounds, Some(settled)),
        _ => (wait.rounds, None),
    }
}

fn look_after_dispatch(rounds: u32, ok: bool, is_settled: bool) -> (wait: (u32, Option<bool>))
    ensures
        wait == dispatched(rounds, ok, is_settled),
{
    let mut wait = Wait { rounds };
    match wait.step(WaitEvent::Dispatched { ok }) {
        WaitAction::Finish { settled } => (wait.rounds, Some(settled)),
        _ => look(wait.rounds, is_settled),
    }
}

/// The size that the session has announced, where it has not failed, is one
/// that a buffer can be planned for.
pub open spec fn sized_within_reach(c: CaptureView) -> bool {
    !c.failed ==> (c.size matches Some((width, height)) ==> measurable(width, height))
}

/// Where the wait for the constraints ends with this step, and well, a buffer
/// can be planned for the size announced. No other step plans one.
pub open spec fn plans_within_reach(phase: Phase, c: CaptureView, event: RunEvent) -> bool {
    match (phase, event) {
        (Phase::Constraints { rounds }, RunEvent::Opened) => looked(
            rounds,
            settled(c, Goal::Constraints),
        ).1 == Some(true) ==> sized_within_reach(c),
        (Phase::Constraints { rounds }, RunEvent::Dispatched { ok }) => dispatched(
            rounds,
            ok,
            settled(c, Goal::Constraints),
        ).1 == Some(true) ==> sized_within_reach(c),
        _ => true,
    }
}

impl Run {
    /// A capture whose session is about to be opened.
    pub fn new() -> (run: Self)
        ensures
            run.phase == (Phase::Constraints { rounds: 0 }),
    {
        Run { phase: Phase::Constraints { rounds: 0 } }
    }

    /// Opens a capture: whatever the session before it was told is forgotten.
    pub fn open(cap: &mut Capture) -> (run: Self)
        ensures
            (run.phase, final(cap)@) == opened(old(cap)@),
    {
        *cap = Capture::default();
        Run::new()
    }

    fn conclude_constraints(&mut self, wait: (u32, Option<bool>), cap: &Capture) -> (action:
        RunAction)
        requires
            wait.1 == Some(true) ==> sized_within_reach(cap@),
        ensures
            (final(self).phase, action) == after_constraints(wait, cap@),
    {
        match wait.1 {
            None => {
                self.phase = Phase::Constraints { rounds: wait.0 };
                RunAction::Dispatch
            },
            Some(waited) => match cap.negotiate(waited) {
                Negotiation::Refused => {
                    self.phase = Phase::Over;
                    RunAction::DestroySession
                },
                Negotiation::Unsized => {
                    self.phase = Phase::Over;
                    RunAction::Abandon
                },
                Negotiation::Buffer(plan) => {
                    self.phase = Phase::Allocating { plan };
                    RunAction::Allocate { plan }
                },
            },
        }
    }

    fn conclude_frame(&mut self, wait: (u32, Option<bool>), plan: BufferPlan, cap: &Capture) -> (
        action: RunAction)
        ensures
            (final(self).phase, action) == after_frame(wait, plan, cap@),
    {
        match wait.1 {
            None => {
                self.phase = Phase::Frame { rounds: wait.0, plan };
                RunAction::Dispatch
            },
            Some(waited) => {
                self.phase = Phase::Over;
                RunAction::Finish { plan, written: cap.frame_is_written(waited) }
            },
        }
    }

    /// Whether the capture can go on from what has happened: a size that it is
    /// about to plan a buffer for has to be within reach.
    pub fn can_step(&self, cap: &Capture, event: RunEvent) -> (b: bool)
        ensures
            b == plans_within_reach(self.phase, cap@, event),
    {
        let wait: (u32, Option<bool>) = match (self.phase, event) {
            (Phase::Constraints { rounds }, RunEvent::Opened) => look(
                rounds,
                cap.is_settled(Goal::Constraints),
            ),
            (Phase::Constraints { rounds }, RunEvent::Dispatched { ok }) => look_after_dispatch(
                rounds,
                ok,
                cap.is_settled(Goal::Constraints),
            ),
            _ => {
                return true;
            },
        };
        match (wait.1, cap.failed, cap.size) {
            (Some(true), false, Some((width, height))) => is_measurable(width, height),
            _ => true,
        }
    }

    /// Goes on from what has happened, where the session stands as `cap` says.
    pub fn step(&mut self, cap: &Capture, event: RunEvent) -> (action: RunAction)
        requires
            plans_within_reach(old(self).phase, cap@, event),
        ensures
            (final(self).phase, action) == run_step(old(self).phase, cap@, event),
    {
        match self.phase {
            Phase::Constraints { rounds } => {
                let is_settled: bool = cap.is_settled(Goal::Constraints);
                match event {
                    RunEvent::Opened => {
                        let wait = look(rounds, is_settled);
                        self.conclude_constraints(wait, cap)
                    },
                    RunEvent::Dispatched { ok } => {
                        let wait = look_after_dispatch(rounds, ok, is_settled);
                        self.conclude_constraints(wait, cap)
                    },
                    RunEvent::Allocated { .. } => RunAction::Nothing,
                }
            },
            Phase::Allocating { plan } => match event {
                RunEvent::Allocated { ok } => {
                    if ok {
                        let wait = look(0, cap.is_settled(Goal::Frame));
                        self.conclude_frame(wait, plan, cap)
                    } else {
                        self.phase = Phase::Over;
                        RunAction::Abandon
                    }
                },
                _ => RunAction::Nothing,
            },
            Phase::Frame { rounds, plan } => match event {
                RunEvent::Dispatched { ok } => {
                    let wait = look_after_dispatch(rounds, ok, cap.is_settled(Goal::Frame));
                    self.conclude_frame(wait, plan, cap)
                },
                _ => RunAction::Nothing,
            },
            Phase::Over => RunAction::Nothing,
        }
    }
}

/// The most dispatches that a capture can still ask for.
pub open spec fn dispatches_left(phase: Phase) -> int {
    match phase {
        Phase::Constraints { rounds } => 2 * MAX_ROUNDS - rounds,
        Phase::Allocating { .. } => MAX_ROUNDS as int,
        Phase::Frame { rounds, .. } => MAX_ROUNDS - rounds,
        Phase::Over => 0,
    }
}

/// A phase that a capture can be in: rounds do not go beyond their number.
pub open spec fn reachable(phase: Phase) -> bool {
    match phase {
        Phase::Constraints { rounds } => rounds <= MAX_ROUNDS,
        Phase::Frame { rounds, .. } => rounds <= MAX_ROUNDS,
        _ => true,
    }
}

/// A capture comes to an end: every dispatch leaves fewer to ask for, and
/// nothing else leaves more.
pub proof fn captures_come_to_an_end(phase: Phase, c: CaptureView, event: RunEvent)
    requires
        reachable(phase),
    ensures
        reachable(run_step(phase, c, event).0),
        0 <= dispatches_left(run_step(phase, c, event).0) <= dispatches_left(phase),
        run_step(phase, c, event).1 == RunAction::Dispatch ==> dispatches_left(
            run_step(phase, c, event).0,
        ) < dispatches_left(phase),
{
}

/// A buffer is asked for only where the constraints are complete, the session
/// has not failed and a size was given, and it is of that size.
pub proof fn buffers_follow_the_constraints(
    phase: Phase,
    c: CaptureView,
    event: RunEvent,
    plan: BufferPlan,
)
    requires
        run_step(phase, c, event).1 == (RunAction::Allocate { plan }),
    ensures
        c.constraints_done,
        !c.failed,
        c.size == Some((plan.width, plan.height)),
        run_step(phase, c, event).0 == (Phase::Allocating { plan }),
{
}

/// A frame counts as written only where the compositor has said that it is
/// ready, and it is developed by the plan that its buffer was made by.
pub proof fn frames_are_developed_as_planned(
    phase: Phase,
    c: CaptureView,
    event: RunEvent,
    plan: BufferPlan,
    written: bool,
)
    requires
        run_step(phase, c, event).1 == (RunAction::Finish { plan, written }),
    ensures
        written ==> c.ready,
        match phase {
            Phase::Allocating { plan: made } => made == plan,
            Phase::Frame { plan: made, .. } => made == plan,
            _ => false,
        },
{
}

/// A capture that is over asks for nothing more.
pub proof fn ended_captures_stay_ended(c: CaptureView, event: RunEvent)
    ensures
        run_step(Phase::Over, c, event) == (Phase::Over, RunAction::Nothing),
{
}

/// A capture can go on from anything while the size announced, if any, is
/// one whose rows and buffer have lengths that can be told.
pub proof fn common_sizes_never_stop_a_capture(phase: Phase, c: CaptureView, event: RunEvent)
    requires
        c.size matches Some((width, height)) ==> 4 * width <= u32::MAX && 4 * (width * height)
            <= usize::MAX,
    ensures
        plans_within_reach(phase, c, event),
{
}

/// A look at the session while it is waited for its constraints, or after a
/// dispatch that went well. While neither they nor a failure have come, and
/// rounds are left, another dispatch is asked for and counted. A session that
/// has failed is destroyed, one without a size is left alone, and for any
/// other a buffer of its size is asked for.
pub proof fn looks_for_the_constraints_are_acted_on(rounds: u32, c: CaptureView, event: RunEvent)
    requires
        rounds < 512,
        event == RunEvent::Opened || event == (RunEvent::Dispatched { ok: true }),
    ensures
        ({
            let (phase, action) = run_step(Phase::Constraints { rounds }, c, event);
            if c.failed {
                phase == Phase::Over && action == RunAction::DestroySession
            } else if !c.constraints_done {
                action == RunAction::Dispatch && (phase matches Phase::Constraints { rounds: asked }
                    && asked == rounds + 1)
            } else {
                match c.size {
                    None => phase == Phase::Over && action == RunAction::Abandon,
                    Some((width, height)) => action matches RunAction::Allocate { plan }
                        && plan.width == width && plan.height == height && phase
                        == (Phase::Allocating { plan }),
                }
            }
        }),
{
}

/// A look at the session while it is waited for its frame. While neither the
/// frame nor a failure has come, and rounds are left, another dispatch is
/// asked for and counted. Otherwise the capture is finished by its plan, and
/// the frame counts as written exactly where it is ready.
pub proof fn looks_for_the_frame_are_acted_on(rounds: u32, plan: BufferPlan, c: CaptureView)
    requires
        rounds < 512,
    ensures
        ({
            let next = run_step(
                Phase::Frame { rounds, plan },
                c,
                RunEvent::Dispatched { ok: true },
            );
            if c.ready || c.failed {
                next == (Phase::Over, RunAction::Finish { plan, written: c.ready })
            } else {
                next.1 == RunAction::Dispatch && (next.0 matches Phase::Frame {
                    rounds: asked,
                    plan: same,
                } && asked == rounds + 1 && same == plan)
            }
        }),
        ({
            let first = run_step(Phase::Allocating { plan }, c, RunEvent::Allocated { ok: true });
            if c.ready || c.failed {
                first == (Phase::Over, RunAction::Finish { plan, written: c.ready })
            } else {
                first == (Phase::Frame { rounds: 1, plan }, RunAction::Dispatch)
            }
        }),
{
}

/// A dispatch that fails, or that was the last of its rounds, ends the wait
/// in vain: the session is destroyed unused, or its frame counts as not
/// written, whatever the session has been told.
pub proof fn waits_end_in_vain(rounds: u32, plan: BufferPlan, c: CaptureView, ok: bool)
    requires
        !ok || rounds >= 512,
    ensures
        run_step(Phase::Constraints { rounds }, c, RunEvent::Dispatched { ok }) == (
            Phase::Over,
            RunAction::DestroySession,
        ),
        run_step(Phase::Frame { rounds, plan }, c, RunEvent::Dispatched { ok }) == (
            Phase::Over,
            RunAction::Finish { plan, written: false },
        ),
{
}

/// Without memory for its buffer a capture is over, and the session left alone.
pub proof fn captures_without_memory_are_abandoned(plan: BufferPlan, c: CaptureView)
    ensures
        run_step(Phase::Allocating { plan }, c, RunEvent::Allocated { ok: false }) == (
            Phase::Over,
            RunAction::Abandon,
        ),
{
}

/// An event that a capture is not waiting for changes nothing.
pub proof fn events_out_of_place_change_nothing(phase: Phase, c: CaptureView, event: RunEvent)
    requires
        match phase {
            Phase::Constraints { .. } => event is Allocated,
            Phase::Allocating { .. } => event !is Allocated,
            Phase::Frame { .. } => event !is Dispatched,
            Phase::Over => true,
        },
    ensures
        run_step(phase, c, event) == (phase, RunAction::Nothing),
{
}

/// A buffer that is asked for has the four bytes to a pixel of the size
/// announced, the format preferred among those announced, and counts as
/// opaque exactly where that format is XRGB8888.
pub proof fn buffers_suit_the_session(
    phase: Phase,
    c: CaptureView,
    event: RunEvent,
    plan: BufferPlan,
)
    requires
        run_step(phase, c, event).1 == (RunAction::Allocate { plan }),
        plans_within_reach(phase, c, event),
    ensures
        plan.stride == 4 * plan.width,
        plan.size == plan.stride * plan.height,
        plan.opaque <==> plan.format == ShmFormat::Xrgb8888,
        plan.format == ShmFormat::Argb8888 <==> {
            &&& c.formats.contains(0u32) || c.formats.contains(0x3432_5241u32)
            &&& !c.formats.contains(1u32)
            &&& !c.formats.contains(0x3432_5258u32)
        },
{
    buffers_are_made_for_the_frame(c, true);
}

} // verus!
