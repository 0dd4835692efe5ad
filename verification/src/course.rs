//! What holds of a capture as a whole, over all of its steps.

use crate::develop::{concluded, developed};
use crate::picture::{PictureView, Transform};
use crate::run::{
    after_constraints, after_frame, dispatches_left, frames_are_developed_as_planned, opened,
    run_step, Phase, RunAction, RunEvent,
};
use crate::session::{
    after_frame_event, after_session_event, settled, wait_outcome,
    wait_succeeds_iff_settled_in_time, BufferPlan, CaptureView, FrameEvent, Goal, SessionEvent,
    WireTransform, MAX_ROUNDS,
};
use vstd::prelude::*;

verus! {

/// Something that the compositor says while a capture is under way.
pub enum Notice {
    Session(SessionEvent),
    Frame(FrameEvent),
}

/// What the session has been told after some notices.
pub open spec fn heard(c: CaptureView, notices: Seq<Notice>) -> CaptureView
    decreases notices.len(),
{
    if notices.len() == 0 {
        c
    } else {
        let before = heard(c, notices.drop_last());
        match notices.last() {
            Notice::Session(event) => after_session_event(before, event),
            Notice::Frame(event) => after_frame_event(before, event),
        }
    }
}

/// What comes in between two steps: notices, and what has happened.
pub struct Turn {
    pub notices: Seq<Notice>,
    pub event: RunEvent,
}

/// A capture part of the way: how far it has come, what its session has been
/// told, and what it has asked for.
#[verifier::ext_equal]
pub struct Progress {
    pub phase: Phase,
    pub told: CaptureView,
    pub asked: Seq<RunAction>,
}

/// A capture that was just opened, where the session before it was told `before`.
pub open spec fn started(before: CaptureView) -> Progress {
    Progress { phase: opened(before).0, told: opened(before).1, asked: Seq::empty() }
}

/// The capture after one more turn.
pub open spec fn advanced(p: Progress, turn: Turn) -> Progress {
    let told = heard(p.told, turn.notices);
    let (phase, action) = run_step(p.phase, told, turn.event);
    Progress { phase, told, asked: p.asked.push(action) }
}

/// The capture after some turns.
pub open spec fn course(p: Progress, turns: Seq<Turn>) -> Progress
    decreases turns.len(),
{
    if turns.len() == 0 {
        p
    } else {
        advanced(course(p, turns.drop_last()), turns.last())
    }
}

/// The picture that a capture gives, where its buffer then holds `raw`: the
/// frame developed, if it was written.
pub open spec fn outcome(
    p: Progress,
    raw: Seq<u8>,
    max: u32,
    fit_height: bool,
) -> Option<PictureView> {
    if p.asked.len() == 0 {
        None
    } else {
        match p.asked.last() {
            RunAction::Finish { plan, written } => concluded(
                raw,
                plan,
                written,
                p.told.transform,
                max,
                fit_height,
            ),
            _ => None,
        }
    }
}

/// Nothing of an earlier capture reaches the next: from the opening on, its
/// course and its outcome depend on what comes in alone.
pub proof fn earlier_captures_leave_no_trace(
    a: CaptureView,
    b: CaptureView,
    turns: Seq<Turn>,
    raw: Seq<u8>,
    max: u32,
    fit_height: bool,
)
    ensures
        course(started(a), turns) == course(started(b), turns),
        outcome(course(started(a), turns), raw, max, fit_height) == outcome(
            course(started(b), turns),
            raw,
            max,
            fit_height,
        ),
{
}

/// The action ends the wait for the constraints.
pub open spec fn ends_the_constraints(action: RunAction) -> bool {
    action == RunAction::DestroySession || action is Allocate
}

proof fn lemma_constraints_end_once(before: CaptureView, turns: Seq<Turn>)
    ensures
        ({
            let p = course(started(before), turns);
            &&& p.asked.len() == turns.len()
            &&& p.phase is Constraints ==> forall|i: int|
                0 <= i < p.asked.len() ==> !ends_the_constraints(#[trigger] p.asked[i])
            &&& forall|i: int, k: int|
                0 <= i < p.asked.len() && 0 <= k < p.asked.len() && ends_the_constraints(
                    #[trigger] p.asked[i],
                ) && ends_the_constraints(#[trigger] p.asked[k]) ==> i == k
            &&& forall|i: int|
                0 <= i < p.asked.len() && #[trigger] p.asked[i] == RunAction::DestroySession
                    ==> p.phase == Phase::Over && p.asked.last() !is Finish
        }),
    decreases turns.len(),
{
    if turns.len() > 0 {
        lemma_constraints_end_once(before, turns.drop_last());
    }
}

/// A capture whose session it destroys unused asks for no buffer, neither
/// before nor after, and one that asks for a buffer asks for no other.
pub proof fn destroyed_sessions_get_no_buffer(
    before: CaptureView,
    turns: Seq<Turn>,
    i: int,
    k: int,
)
    requires
        0 <= i < course(started(before), turns).asked.len(),
        0 <= k < course(started(before), turns).asked.len(),
        course(started(before), turns).asked[i] is Allocate,
        i != k,
    ensures
        course(started(before), turns).asked[k] !is Allocate,
        course(started(before), turns).asked[k] != RunAction::DestroySession,
{
    lemma_constraints_end_once(before, turns);
}

/// A capture that destroys its session unused is over and gives no picture.
pub proof fn destroyed_sessions_give_no_picture(
    before: CaptureView,
    turns: Seq<Turn>,
    i: int,
    raw: Seq<u8>,
    max: u32,
    fit_height: bool,
)
    requires
        0 <= i < course(started(before), turns).asked.len(),
        course(started(before), turns).asked[i] == RunAction::DestroySession,
    ensures
        course(started(before), turns).phase == Phase::Over,
        outcome(course(started(before), turns), raw, max, fit_height) is None,
{
    lemma_constraints_end_once(before, turns);
}

/// How a capture leaves a wait: the phase and the action of the first step
/// that asks for something other than a dispatch, and the number of the round
/// before it. `caps(k)` is what the session has been told after `k` rounds,
/// and `oks(k)` how the round after that goes.
pub open spec fn driven(
    phase: Phase,
    event: RunEvent,
    k: int,
    caps: spec_fn(int) -> CaptureView,
    oks: spec_fn(int) -> bool,
) -> (Phase, RunAction, int)
    decreases dispatches_left(phase),
{
    let (next, action) = run_step(phase, caps(k), event);
    if action == RunAction::Dispatch && 0 <= dispatches_left(next) < dispatches_left(phase) {
        driven(next, RunEvent::Dispatched { ok: oks(k) }, k + 1, caps, oks)
    } else {
        (next, action, k)
    }
}

/// How a wait for `goal` ends over the same rounds.
pub open spec fn waited_for(
    goal: Goal,
    caps: spec_fn(int) -> CaptureView,
    oks: spec_fn(int) -> bool,
) -> bool {
    wait_outcome(0, |k: int| settled(caps(k), goal), oks)
}

/// A wait that is about to take in how its last round went.
spec fn resumed(k: int, looks: spec_fn(int) -> bool, oks: spec_fn(int) -> bool) -> bool {
    oks(k - 1) && k < MAX_ROUNDS && wait_outcome(k, looks, oks)
}

proof fn lemma_resumed(k: int, looks: spec_fn(int) -> bool, oks: spec_fn(int) -> bool)
    requires
        0 <= k < MAX_ROUNDS,
    ensures
        wait_outcome(k, looks, oks) == (looks(k) || resumed(k + 1, looks, oks)),
{
}

proof fn lemma_driven_constraints(
    rounds: u32,
    caps: spec_fn(int) -> CaptureView,
    oks: spec_fn(int) -> bool,
)
    requires
        1 <= rounds <= MAX_ROUNDS,
    ensures
        ({
            let looks = |k: int| settled(caps(k), Goal::Constraints);
            let left = driven(
                Phase::Constraints { rounds },
                RunEvent::Dispatched { ok: oks(rounds - 1) },
                rounds as int,
                caps,
                oks,
            );
            &&& rounds <= left.2 <= MAX_ROUNDS
            &&& (left.0, left.1) == after_constraints(
                (0, Some(resumed(rounds as int, looks, oks))),
                caps(left.2),
            )
        }),
    decreases MAX_ROUNDS - rounds,
{
    let looks = |k: int| settled(caps(k), Goal::Constraints);
    if oks(rounds - 1) && rounds < MAX_ROUNDS {
        lemma_resumed(rounds as int, looks, oks);
        if !looks(rounds as int) {
            lemma_driven_constraints((rounds + 1) as u32, caps, oks);
        }
    }
}

proof fn lemma_driven_frame(
    rounds: u32,
    plan: BufferPlan,
    caps: spec_fn(int) -> CaptureView,
    oks: spec_fn(int) -> bool,
)
    requires
        1 <= rounds <= MAX_ROUNDS,
    ensures
        ({
            let looks = |k: int| settled(caps(k), Goal::Frame);
            let left = driven(
                Phase::Frame { rounds, plan },
                RunEvent::Dispatched { ok: oks(rounds - 1) },
                rounds as int,
                caps,
                oks,
            );
            &&& rounds <= left.2 <= MAX_ROUNDS
            &&& (left.0, left.1) == after_frame(
                (0, Some(resumed(rounds as int, looks, oks))),
                plan,
                caps(left.2),
            )
        }),
    decreases MAX_ROUNDS - rounds,
{
    let looks = |k: int| settled(caps(k), Goal::Frame);
    if oks(rounds - 1) && rounds < MAX_ROUNDS {
        lemma_resumed(rounds as int, looks, oks);
        if !looks(rounds as int) {
            lemma_driven_frame((rounds + 1) as u32, plan, caps, oks);
        }
    }
}

/// The wait for the constraints, over all of its steps, ends as a wait does,
/// and the capture goes on from what the session has been told by then.
pub proof fn captures_wait_for_the_constraints(
    caps: spec_fn(int) -> CaptureView,
    oks: spec_fn(int) -> bool,
)
    ensures
        ({
            let left = driven(Phase::Constraints { rounds: 0 }, RunEvent::Opened, 0, caps, oks);
            &&& 0 <= left.2 <= MAX_ROUNDS
            &&& (left.0, left.1) == after_constraints(
                (0, Some(waited_for(Goal::Constraints, caps, oks))),
                caps(left.2),
            )
        }),
{
    let looks = |k: int| settled(caps(k), Goal::Constraints);
    lemma_resumed(0, looks, oks);
    if !looks(0) {
        lemma_driven_constraints(1, caps, oks);
    }
}

/// The wait for the frame, over all of its steps, ends as a wait does, and
/// the frame counts as written where it ends well and the frame is ready.
pub proof fn captures_wait_for_the_frame(
    plan: BufferPlan,
    caps: spec_fn(int) -> CaptureView,
    oks: spec_fn(int) -> bool,
)
    ensures
        ({
            let left = driven(
                Phase::Allocating { plan },
                RunEvent::Allocated { ok: true },
                0,
                caps,
                oks,
            );
            &&& 0 <= left.2 <= MAX_ROUNDS
            &&& (left.0, left.1) == after_frame(
                (0, Some(waited_for(Goal::Frame, caps, oks))),
                plan,
                caps(left.2),
            )
            &&& left.1 == RunAction::Finish {
                plan,
                written: waited_for(Goal::Frame, caps, oks) && caps(left.2).ready,
            }
        }),
{
    let looks = |k: int| settled(caps(k), Goal::Frame);
    lemma_resumed(0, looks, oks);
    if !looks(0) {
        lemma_driven_frame(1, plan, caps, oks);
    }
}

/// Where the wait for the constraints fails, or ends with a session that has
/// failed, the session is destroyed and the capture is over, whatever size
/// was announced.
pub proof fn failed_waits_destroy_the_session(
    caps: spec_fn(int) -> CaptureView,
    oks: spec_fn(int) -> bool,
)
    requires
        ({
            let left = driven(Phase::Constraints { rounds: 0 }, RunEvent::Opened, 0, caps, oks);
            !waited_for(Goal::Constraints, caps, oks) || caps(left.2).failed
        }),
    ensures
        ({
            let left = driven(Phase::Constraints { rounds: 0 }, RunEvent::Opened, 0, caps, oks);
            (left.0, left.1) == (Phase::Over, RunAction::DestroySession)
        }),
{
    captures_wait_for_the_constraints(caps, oks);
}

/// A notice of a transform that is known.
pub open spec fn tells_transform(notice: Notice) -> Option<Transform> {
    match notice {
        Notice::Frame(FrameEvent::Transform { transform: WireTransform::Value(t) }) => Some(t),
        _ => None,
    }
}

/// A notice of the size of the buffer.
pub open spec fn tells_size(notice: Notice) -> Option<(u32, u32)> {
    match notice {
        Notice::Session(SessionEvent::BufferSize { width, height }) => Some((width, height)),
        _ => None,
    }
}

/// A notice of a pixel format.
pub open spec fn tells_format(notice: Notice) -> Option<u32> {
    match notice {
        Notice::Session(SessionEvent::ShmFormat { format }) => Some(format),
        _ => None,
    }
}

/// A notice of why the frame failed.
pub open spec fn tells_reason(notice: Notice) -> Option<Seq<char>> {
    match notice {
        Notice::Frame(FrameEvent::Failed { reason }) => Some(reason@),
        _ => None,
    }
}

/// A notice that the constraints are complete.
pub open spec fn tells_done(notice: Notice) -> bool {
    notice == Notice::Session(SessionEvent::Done)
}

/// A notice that the frame is ready.
pub open spec fn tells_ready(notice: Notice) -> bool {
    notice == Notice::Frame(FrameEvent::Ready)
}

/// A notice that the session was stopped or that its frame failed.
pub open spec fn tells_failure(notice: Notice) -> bool {
    notice == Notice::Session(SessionEvent::Stopped) || tells_reason(notice) is Some
}

/// `value` is what the last of the notices that tell something tells, or none
/// where none of them does.
pub open spec fn is_last_told<T>(
    value: Option<T>,
    notices: Seq<Notice>,
    tells: spec_fn(Notice) -> Option<T>,
) -> bool {
    match value {
        Some(_) => exists|k: int|
            0 <= k < notices.len() && tells(#[trigger] notices[k]) == value && forall|j: int|
                k < j < notices.len() ==> tells(#[trigger] notices[j]) is None,
        None => forall|j: int| 0 <= j < notices.len() ==> tells(#[trigger] notices[j]) is None,
    }
}

proof fn lemma_last_told<T>(
    before: Option<T>,
    value: Option<T>,
    notices: Seq<Notice>,
    tells: spec_fn(Notice) -> Option<T>,
)
    requires
        notices.len() > 0,
        is_last_told(before, notices.drop_last(), tells),
        value == match tells(notices.last()) {
            Some(told) => Some(told),
            None => before,
        },
    ensures
        is_last_told(value, notices, tells),
{
    let rest = notices.drop_last();
    let n = notices.len() - 1;
    assert(notices[n] == notices.last());
    if tells(notices[n]) is Some {
        assert(tells(notices[n]) == value);
    } else {
        if value is Some {
            let k = choose|k: int|
                0 <= k < rest.len() && tells(#[trigger] rest[k]) == value && forall|j: int|
                    k < j < rest.len() ==> tells(#[trigger] rest[j]) is None;
            assert(notices[k] == rest[k]);
            assert forall|j: int| k < j < notices.len() implies tells(#[trigger] notices[j])
                is None by {
                if j < n {
                    assert(rest[j] == notices[j]);
                }
            }
        } else {
            assert forall|j: int| 0 <= j < notices.len() implies tells(#[trigger] notices[j])
                is None by {
                if j < n {
                    assert(rest[j] == notices[j]);
                }
            }
        }
    }
}

/// Something was told by one of the notices.
pub open spec fn is_told(notices: Seq<Notice>, tells: spec_fn(Notice) -> bool) -> bool {
    exists|k: int| 0 <= k < notices.len() && tells(#[trigger] notices[k])
}

proof fn lemma_told(notices: Seq<Notice>, tells: spec_fn(Notice) -> bool)
    requires
        notices.len() > 0,
    ensures
        is_told(notices, tells) <==> is_told(notices.drop_last(), tells) || tells(notices.last()),
{
    let rest = notices.drop_last();
    assert(notices[notices.len() - 1] == notices.last());
    if is_told(rest, tells) {
        let k = choose|k: int| 0 <= k < rest.len() && tells(#[trigger] rest[k]);
        assert(notices[k] == rest[k]);
    }
    if is_told(notices, tells) {
        let k = choose|k: int| 0 <= k < notices.len() && tells(#[trigger] notices[k]);
        if k < rest.len() {
            assert(rest[k] == notices[k]);
        }
    }
}

/// What a session has been told since its capture was opened, whatever came
/// in and in whatever order. Its size, its transform and the reason of its
/// failure are the last ones told, and missing only where none was: nothing
/// else takes them back. Its formats are all that were announced, in their
/// order. And its constraints are complete, its frame is ready or it has
/// failed exactly where that was said.
pub proof fn sessions_know_what_they_were_told(before: CaptureView, notices: Seq<Notice>)
    ensures
        ({
            let c = heard(opened(before).1, notices);
            &&& is_last_told(c.transform, notices, |n: Notice| tells_transform(n))
            &&& is_last_told(c.size, notices, |n: Notice| tells_size(n))
            &&& is_last_told(c.fail_reason, notices, |n: Notice| tells_reason(n))
            &&& c.formats == notices.filter_map(|n: Notice| tells_format(n))
            &&& c.constraints_done <==> is_told(notices, |n: Notice| tells_done(n))
            &&& c.ready <==> is_told(notices, |n: Notice| tells_ready(n))
            &&& c.failed <==> is_told(notices, |n: Notice| tells_failure(n))
        }),
    decreases notices.len(),
{
    let transform = |n: Notice| tells_transform(n);
    let size = |n: Notice| tells_size(n);
    let reason = |n: Notice| tells_reason(n);
    let format = |n: Notice| tells_format(n);
    if notices.len() == 0 {
        assert(notices.filter_map(format) =~= Seq::<u32>::empty());
    } else {
        let rest = notices.drop_last();
        let c = heard(opened(before).1, rest);
        let d = heard(opened(before).1, notices);
        sessions_know_what_they_were_told(before, rest);
        lemma_last_told(c.transform, d.transform, notices, transform);
        lemma_last_told(c.size, d.size, notices, size);
        lemma_last_told(c.fail_reason, d.fail_reason, notices, reason);
        lemma_told(notices, |n: Notice| tells_done(n));
        lemma_told(notices, |n: Notice| tells_ready(n));
        lemma_told(notices, |n: Notice| tells_failure(n));
        assert(d.formats =~= notices.filter_map(format));
    }
}

/// Everything that the compositor says over some turns.
pub open spec fn said(turns: Seq<Turn>) -> Seq<Notice>
    decreases turns.len(),
{
    if turns.len() == 0 {
        Seq::empty()
    } else {
        said(turns.drop_last()) + turns.last().notices
    }
}

proof fn lemma_heard_both(c: CaptureView, a: Seq<Notice>, b: Seq<Notice>)
    ensures
        heard(c, a + b) == heard(heard(c, a), b),
    decreases b.len(),
{
    if b.len() == 0 {
        assert(a + b =~= a);
    } else {
        assert((a + b).drop_last() =~= a + b.drop_last());
        lemma_heard_both(c, a, b.drop_last());
    }
}

proof fn lemma_told_by_turns(before: CaptureView, turns: Seq<Turn>)
    ensures
        course(started(before), turns).told == heard(opened(before).1, said(turns)),
        course(started(before), turns).asked.len() == turns.len(),
    decreases turns.len(),
{
    if turns.len() > 0 {
        lemma_told_by_turns(before, turns.drop_last());
        lemma_heard_both(opened(before).1, said(turns.drop_last()), turns.last().notices);
    }
}

/// The buffer that a capture finishes with is one that it asked for before.
proof fn lemma_plans_were_allocated(before: CaptureView, turns: Seq<Turn>)
    ensures
        ({
            let p = course(started(before), turns);
            &&& p.asked.len() == turns.len()
            &&& match p.phase {
                Phase::Allocating { plan } => p.asked.contains(RunAction::Allocate { plan }),
                Phase::Frame { plan, .. } => p.asked.contains(RunAction::Allocate { plan }),
                _ => true,
            }
            &&& p.asked.len() > 0 ==> (p.asked.last() matches RunAction::Finish { plan, .. }
                ==> p.asked.contains(RunAction::Allocate { plan }))
        }),
    decreases turns.len(),
{
    if turns.len() > 0 {
        let q = course(started(before), turns.drop_last());
        let p = course(started(before), turns);
        lemma_plans_were_allocated(before, turns.drop_last());
        assert(p.asked.last() == p.asked[p.asked.len() - 1]);
        assert forall|a: RunAction| q.asked.contains(a) implies p.asked.contains(a) by {
            let i = choose|i: int| 0 <= i < q.asked.len() && q.asked[i] == a;
            assert(p.asked[i] == a);
        }
    }
}

/// A finished capture gives the frame in the buffer that it asked for,
/// developed with the transform that was reported last, if the frame was
/// reported ready, and nothing otherwise.
pub proof fn finished_captures_give_the_frame_as_reported(
    before: CaptureView,
    turns: Seq<Turn>,
    plan: BufferPlan,
    written: bool,
    transform: Option<Transform>,
    raw: Seq<u8>,
    max: u32,
    fit_height: bool,
)
    requires
        turns.len() > 0,
        course(started(before), turns).asked.last() == (RunAction::Finish { plan, written }),
        is_last_told(transform, said(turns), |n: Notice| tells_transform(n)),
    ensures
        course(started(before), turns).asked.contains(RunAction::Allocate { plan }),
        written ==> is_told(said(turns), |n: Notice| tells_ready(n)),
        written ==> outcome(course(started(before), turns), raw, max, fit_height) == developed(
            raw,
            plan,
            transform,
            max,
            fit_height,
        ),
        !written ==> outcome(course(started(before), turns), raw, max, fit_height) is None,
{
    let p = course(started(before), turns);
    let tells = |n: Notice| tells_transform(n);
    let notices = said(turns);
    lemma_told_by_turns(before, turns);
    lemma_plans_were_allocated(before, turns);
    sessions_know_what_they_were_told(before, notices);
    let told = p.told.transform;
    assert(told == transform) by {
        if told is Some {
            let k = choose|k: int|
                0 <= k < notices.len() && tells(#[trigger] notices[k]) == told && forall|j: int|
                    k < j < notices.len() ==> tells(#[trigger] notices[j]) is None;
            assert(tells(notices[k]) == told);
            if transform is Some {
                let i = choose|i: int|
                    0 <= i < notices.len() && tells(#[trigger] notices[i]) == transform && forall|
                        j: int,
                    |
                        i < j < notices.len() ==> tells(#[trigger] notices[j]) is None;
                assert(tells(notices[i]) == transform);
                assert(i == k);
            }
        } else if transform is Some {
            let i = choose|i: int|
                0 <= i < notices.len() && tells(#[trigger] notices[i]) == transform && forall|
                    j: int,
                |
                    i < j < notices.len() ==> tells(#[trigger] notices[j]) is None;
            assert(tells(notices[i]) == transform);
        }
    }
    let q = course(started(before), turns.drop_last());
    frames_are_developed_as_planned(q.phase, p.told, turns.last().event, plan, written);
}

proof fn lemma_constraints_reached(
    rounds: u32,
    k: int,
    caps: spec_fn(int) -> CaptureView,
    oks: spec_fn(int) -> bool,
)
    requires
        1 <= rounds <= k < 512,
        forall|j: int| 0 <= j < k ==> #[trigger] oks(j),
        forall|j: int|
            0 <= j < k ==> !(#[trigger] caps(j)).constraints_done && !caps(j).failed,
        caps(k).constraints_done || caps(k).failed,
    ensures
        ({
            let left = driven(
                Phase::Constraints { rounds },
                RunEvent::Dispatched { ok: oks(rounds - 1) },
                rounds as int,
                caps,
                oks,
            );
            &&& left.2 == k
            &&& (left.0, left.1) == after_constraints((0, Some(true)), caps(k))
        }),
    decreases k - rounds,
{
    assert(oks(rounds - 1));
    if rounds < k {
        assert(!caps(rounds as int).constraints_done && !caps(rounds as int).failed);
        assert(oks(rounds as int));
        lemma_constraints_reached((rounds + 1) as u32, k, caps, oks);
    }
}

/// A capture takes the constraints as they are after the first round that
/// completes them or fails the session, where that is within the rounds there
/// are and every dispatch so far has gone well: a failed session is
/// destroyed, one without a size is left alone, and for any other a buffer of
/// its size is asked for.
pub proof fn captures_act_on_the_first_constraints(
    k: int,
    caps: spec_fn(int) -> CaptureView,
    oks: spec_fn(int) -> bool,
)
    requires
        0 <= k < 512,
        forall|j: int| 0 <= j < k ==> #[trigger] oks(j),
        forall|j: int|
            0 <= j < k ==> !(#[trigger] caps(j)).constraints_done && !caps(j).failed,
        caps(k).constraints_done || caps(k).failed,
    ensures
        ({
            let left = driven(Phase::Constraints { rounds: 0 }, RunEvent::Opened, 0, caps, oks);
            &&& left.2 == k
            &&& if caps(k).failed {
                left.0 == Phase::Over && left.1 == RunAction::DestroySession
            } else {
                match caps(k).size {
                    None => left.0 == Phase::Over && left.1 == RunAction::Abandon,
                    Some((width, height)) => left.1 matches RunAction::Allocate { plan }
                        && plan.width == width && plan.height == height && left.0
                        == (Phase::Allocating { plan }),
                }
            }
        }),
{
    if k > 0 {
        assert(!caps(0).constraints_done && !caps(0).failed);
        assert(oks(0));
        lemma_constraints_reached(1, k, caps, oks);
    }
}

/// Where neither the constraints nor a failure come within the rounds there
/// are, or a dispatch fails before they do, the session is destroyed unused.
pub proof fn captures_give_up_on_the_constraints(
    caps: spec_fn(int) -> CaptureView,
    oks: spec_fn(int) -> bool,
)
    requires
        forall|k: int|
            0 <= k < 512 && ((#[trigger] caps(k)).constraints_done || caps(k).failed) ==> exists|
                j: int,
            |
                0 <= j < k && !#[trigger] oks(j),
    ensures
        ({
            let left = driven(Phase::Constraints { rounds: 0 }, RunEvent::Opened, 0, caps, oks);
            left.0 == Phase::Over && left.1 == RunAction::DestroySession
        }),
{
    let looks = |k: int| settled(caps(k), Goal::Constraints);
    wait_succeeds_iff_settled_in_time(looks, oks);
    captures_wait_for_the_constraints(caps, oks);
    if wait_outcome(0, looks, oks) {
        let k = choose|k: int|
            0 <= k < MAX_ROUNDS && #[trigger] looks(k) && forall|j: int|
                0 <= j < k ==> #[trigger] oks(j);
        assert(looks(k));
        assert(caps(k).constraints_done || caps(k).failed);
        assert(false);
    }
}

proof fn lemma_frame_reached(
    rounds: u32,
    plan: BufferPlan,
    k: int,
    caps: spec_fn(int) -> CaptureView,
    oks: spec_fn(int) -> bool,
)
    requires
        1 <= rounds <= k < 512,
        forall|j: int| 0 <= j < k ==> #[trigger] oks(j),
        forall|j: int| 0 <= j < k ==> !(#[trigger] caps(j)).ready && !caps(j).failed,
        caps(k).ready || caps(k).failed,
    ensures
        ({
            let left = driven(
                Phase::Frame { rounds, plan },
                RunEvent::Dispatched { ok: oks(rounds - 1) },
                rounds as int,
                caps,
                oks,
            );
            &&& left.2 == k
            &&& (left.0, left.1) == after_frame((0, Some(true)), plan, caps(k))
        }),
    decreases k - rounds,
{
    assert(oks(rounds - 1));
    if rounds < k {
        assert(!caps(rounds as int).ready && !caps(rounds as int).failed);
        assert(oks(rounds as int));
        lemma_frame_reached((rounds + 1) as u32, plan, k, caps, oks);
    }
}

/// A capture takes the frame as it is after the first round that makes it
/// ready or fails the session, where that is within the rounds there are and
/// every dispatch so far has gone well: it counts as written exactly where it
/// is ready.
pub proof fn captures_act_on_the_first_frame(
    plan: BufferPlan,
    k: int,
    caps: spec_fn(int) -> CaptureView,
    oks: spec_fn(int) -> bool,
)
    requires
        0 <= k < 512,
        forall|j: int| 0 <= j < k ==> #[trigger] oks(j),
        forall|j: int| 0 <= j < k ==> !(#[trigger] caps(j)).ready && !caps(j).failed,
        caps(k).ready || caps(k).failed,
    ensures
        driven(Phase::Allocating { plan }, RunEvent::Allocated { ok: true }, 0, caps, oks) == (
            Phase::Over,
            RunAction::Finish { plan, written: caps(k).ready },
            k,
        ),
{
    if k > 0 {
        assert(!caps(0).ready && !caps(0).failed);
        assert(oks(0));
        lemma_frame_reached(1, plan, k, caps, oks);
    }
}

/// Where neither the frame nor a failure comes within the rounds there are,
/// or a dispatch fails before it does, the frame counts as not written.
pub proof fn captures_give_up_on_the_frame(
    plan: BufferPlan,
    caps: spec_fn(int) -> CaptureView,
    oks: spec_fn(int) -> bool,
)
    requires
        forall|k: int|
            0 <= k < 512 && ((#[trigger] caps(k)).ready || caps(k).failed) ==> exists|j: int|
                0 <= j < k && !#[trigger] oks(j),
    ensures
        ({
            let left = driven(
                Phase::Allocating { plan },
                RunEvent::Allocated { ok: true },
                0,
                caps,
                oks,
            );
            left.0 == Phase::Over && left.1 == (RunAction::Finish { plan, written: false })
        }),
{
    let looks = |k: int| settled(caps(k), Goal::Frame);
    wait_succeeds_iff_settled_in_time(looks, oks);
    captures_wait_for_the_frame(plan, caps, oks);
    if wait_outcome(0, looks, oks) {
        let k = choose|k: int|
            0 <= k < MAX_ROUNDS && #[trigger] looks(k) && forall|j: int|
                0 <= j < k ==> #[trigger] oks(j);
        assert(looks(k));
        assert(caps(k).ready || caps(k).failed);
        assert(false);
    }
}

} // verus!
