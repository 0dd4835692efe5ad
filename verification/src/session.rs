//! One capture session: what the compositor has said of it, how long to wait
//! for more, and what buffer to hand over.

use crate::picture::Transform;
use crate::text::chars_of;
use vstd::prelude::*;
use wayland_client::protocol::wl_shm;

verus! {

/// What the compositor has said of the session under way.
pub struct Capture {
    pub size: Option<(u32, u32)>,
    pub formats: Vec<u32>,
    pub constraints_done: bool,
    pub transform: Option<Transform>,
    pub ready: bool,
    pub failed: bool,
    pub fail_reason: Option<String>,
}

/// What a `Capture` holds.
#[verifier::ext_equal]
pub struct CaptureView {
    pub size: Option<(u32, u32)>,
    pub formats: Seq<u32>,
    pub constraints_done: bool,
    pub transform: Option<Transform>,
    pub ready: bool,
    pub failed: bool,
    pub fail_reason: Option<Seq<char>>,
}

impl View for Capture {
    type V = CaptureView;

    open spec fn view(&self) -> CaptureView {
        CaptureView {
            size: self.size,
            formats: self.formats@,
            constraints_done: self.constraints_done,
            transform: self.transform,
            ready: self.ready,
            failed: self.failed,
            fail_reason: chars_of(self.fail_reason),
        }
    }
}

/// A session of which nothing has been heard yet.
pub open spec fn untold() -> CaptureView {
    CaptureView {
        size: None,
        formats: Seq::empty(),
        constraints_done: false,
        transform: None,
        ready: false,
        failed: false,
        fail_reason: None,
    }
}

impl Default for Capture {
    fn default() -> (capture: Self)
        ensures
            capture@ == untold(),
    {
        Capture {
            size: None,
            formats: Vec::new(),
            constraints_done: false,
            transform: None,
            ready: false,
            failed: false,
            fail_reason: None,
        }
    }
}

/// An event of the session.
pub enum SessionEvent {
    BufferSize { width: u32, height: u32 },
    /// A pixel format, by its number: a compositor may announce one that has
    /// no name in the core protocol.
    ShmFormat { format: u32 },
    Done,
    Stopped,
    Other,
}

/// A transform as it comes over the wire.
pub enum WireTransform {
    Value(Transform),
    Unknown(u32),
}

/// An event of the frame.
pub enum FrameEvent {
    Transform { transform: WireTransform },
    Ready,
    Failed { reason: String },
    Other,
}

/// The session after one of its events.
pub open spec fn after_session_event(c: CaptureView, event: SessionEvent) -> CaptureView {
    match event {
        SessionEvent::BufferSize { width, height } => CaptureView {
            size: Some((width, height)),
            ..c
        },
        SessionEvent::ShmFormat { format } => CaptureView { formats: c.formats.push(format), ..c },
        SessionEvent::Done => CaptureView { constraints_done: true, ..c },
        SessionEvent::Stopped => CaptureView { failed: true, ..c },
        SessionEvent::Other => c,
    }
}

/// The session after an event of its frame.
pub open spec fn after_frame_event(c: CaptureView, event: FrameEvent) -> CaptureView {
    match event {
        FrameEvent::Transform { transform: WireTransform::Value(t) } => CaptureView {
            transform: Some(t),
            ..c
        },
        FrameEvent::Transform { transform: WireTransform::Unknown(_) } => c,
        FrameEvent::Ready => CaptureView { ready: true, ..c },
        FrameEvent::Failed { reason } => CaptureView {
            failed: true,
            fail_reason: Some(reason@),
            ..c
        },
        FrameEvent::Other => c,
    }
}

/// What is being waited for.
#[derive(Clone, Copy, Debug, PartialEq, Eq, Structural)]
pub enum Goal {
    Constraints,
    Frame,
}

/// There is nothing more to wait for: the goal is there or out of reach.
pub open spec fn settled(c: CaptureView, goal: Goal) -> bool {
    match goal {
        Goal::Constraints => c.constraints_done || c.failed,
        Goal::Frame => c.ready || c.failed,
    }
}

impl Capture {
    /// Takes in an event of the session.
    pub fn session_event(&mut self, event: SessionEvent)
        ensures
            final(self)@ == after_session_event(old(self)@, event),
    {
        match event {
            SessionEvent::BufferSize { width, height } => {
                self.size = Some((width, height));
            },
            SessionEvent::ShmFormat { format } => {
                self.formats.push(format);
            },
            SessionEvent::Done => {
                self.constraints_done = true;
            },
            SessionEvent::Stopped => {
                self.failed = true;
            },
            SessionEvent::Other => {},
        }
    }

    /// Takes in an event of the frame.
    pub fn frame_event(&mut self, event: FrameEvent)
        ensures
            final(self)@ == after_frame_event(old(self)@, event),
    {
        match event {
            FrameEvent::Transform { transform } => {
                if let WireTransform::Value(t) = transform {
                    self.transform = Some(t);
                }
            },
            FrameEvent::Ready => {
                self.ready = true;
            },
            FrameEvent::Failed { reason } => {
                self.failed = true;
                self.fail_reason = Some(reason);
            },
            FrameEvent::Other => {},
        }
    }

    /// Whether there is nothing more to wait for.
    pub fn is_settled(&self, goal: Goal) -> (b: bool)
        ensures
            b == settled(self@, goal),
    {
        match goal {
            Goal::Constraints => self.constraints_done || self.failed,
            Goal::Frame => self.ready || self.failed,
        }
    }

    /// Whether the frame has been written, given how the wait for it ended.
    pub fn frame_is_written(&self, waited: bool) -> (b: bool)
        ensures
            b == (waited && self@.ready),
    {
        waited && self.ready
    }
}

/// The most rounds of dispatching that are spent on one wait.
pub const MAX_ROUNDS: u32 = 512;

/// What has happened since the last step of a wait.
pub enum WaitEvent {
    /// The session was looked at, and was settled or not.
    Looked { settled: bool },
    /// A batch of events was dispatched, with or without success.
    Dispatched { ok: bool },
}

/// What a wait asks for next.
#[derive(Clone, Copy, Debug, PartialEq, Eq, Structural)]
pub enum WaitAction {
    /// Look whether the session is settled.
    Look,
    /// Block until events arrive, and dispatch them.
    Dispatch,
    /// Stop waiting; the session was found settled or was not.
    Finish { settled: bool },
}

/// A wait for a session to settle.
pub struct Wait {
    /// How many rounds of dispatching have been asked for.
    pub rounds: u32,
}

/// A step of a wait, as the rounds asked for so far and what to do next.
pub open spec fn wait_step(rounds: int, event: WaitEvent) -> (int, WaitAction) {
    match event {
        WaitEvent::Looked { settled } => if rounds >= MAX_ROUNDS {
            (rounds, WaitAction::Finish { settled: false })
        } else if settled {
            (rounds, WaitAction::Finish { settled: true })
        } else {
            (rounds + 1, WaitAction::Dispatch)
        },
        WaitEvent::Dispatched { ok } => if !ok || rounds >= MAX_ROUNDS {
            (rounds, WaitAction::Finish { settled: false })
        } else {
            (rounds, WaitAction::Look)
        },
    }
}

impl Wait {
    /// A wait that starts with a look.
    pub fn new() -> (wait: Self)
        ensures
            wait.rounds == 0,
    {
        Wait { rounds: 0 }
    }

    /// Goes on from what has happened.
    pub fn step(&mut self, event: WaitEvent) -> (action: WaitAction)
        ensures
            (final(self).rounds as int, action) == wait_step(old(self).rounds as int, event),
    {
        match event {
            WaitEvent::Looked { settled } => {
                if self.rounds >= MAX_ROUNDS {
                    WaitAction::Finish { settled: false }
                } else if settled {
                    WaitAction::Finish { settled: true }
                } else {
                    self.rounds = self.rounds + 1;
                    WaitAction::Dispatch
                }
            },
            WaitEvent::Dispatched { ok } => {
                if !ok || self.rounds >= MAX_ROUNDS {
                    WaitAction::Finish { settled: false }
                } else {
                    WaitAction::Look
                }
            },
        }
    }
}

/// How a wait ends that has come as far as `rounds` and is about to look,
/// where `looks[k]` is what a look after `k` rounds finds and `oks[k]` how the
/// round after it goes.
pub open spec fn wait_outcome(rounds: int, looks: spec_fn(int) -> bool, oks: spec_fn(int) -> bool) -> bool
    decreases MAX_ROUNDS - rounds,
{
    match wait_step(rounds, WaitEvent::Looked { settled: looks(rounds) }) {
        (_, WaitAction::Finish { settled }) => settled,
        (asked, _) => match wait_step(asked, WaitEvent::Dispatched { ok: oks(rounds) }) {
            (_, WaitAction::Finish { settled }) => settled,
            (next, _) => if rounds < next {
                wait_outcome(next, looks, oks)
            } else {
                false
            },
        },
    }
}

/// A wait succeeds exactly where one of the looks before the rounds run out
/// finds the session settled and no dispatch has failed before it.
pub proof fn wait_succeeds_iff_settled_in_time(
    looks: spec_fn(int) -> bool,
    oks: spec_fn(int) -> bool,
)
    ensures
        wait_outcome(0, looks, oks) <==> exists|k: int|
            0 <= k < MAX_ROUNDS && #[trigger] looks(k) && forall|j: int|
                0 <= j < k ==> #[trigger] oks(j),
{
    lemma_wait_outcome(0, looks, oks);
}

proof fn lemma_wait_outcome(rounds: int, looks: spec_fn(int) -> bool, oks: spec_fn(int) -> bool)
    requires
        0 <= rounds <= MAX_ROUNDS,
    ensures
        wait_outcome(rounds, looks, oks) <==> exists|k: int|
            rounds <= k < MAX_ROUNDS && #[trigger] looks(k) && forall|j: int|
                rounds <= j < k ==> #[trigger] oks(j),
    decreases MAX_ROUNDS - rounds,
{
    if rounds < MAX_ROUNDS {
        lemma_wait_outcome(rounds + 1, looks, oks);
        if looks(rounds) {
            assert(wait_outcome(rounds, looks, oks));
            assert(forall|j: int| rounds <= j < rounds ==> #[trigger] oks(j));
        } else if !oks(rounds) {
            assert(!wait_outcome(rounds, looks, oks));
        } else {
            assert(rounds + 1 < MAX_ROUNDS ==> wait_outcome(rounds, looks, oks) == wait_outcome(
                rounds + 1,
                looks,
                oks,
            ));
            if wait_outcome(rounds + 1, looks, oks) {
                let k = choose|k: int|
                    rounds + 1 <= k < MAX_ROUNDS && #[trigger] looks(k) && forall|j: int|
                        rounds + 1 <= j < k ==> #[trigger] oks(j);
                assert(forall|j: int| rounds <= j < k ==> #[trigger] oks(j));
            }
        }
    }
}

/// A wait asks for a dispatch only while rounds are left, and counts it.
pub proof fn a_wait_dispatches_within_its_rounds(rounds: int, event: WaitEvent)
    ensures
        wait_step(rounds, event).1 == WaitAction::Dispatch ==> rounds < MAX_ROUNDS && wait_step(
            rounds,
            event,
        ).0 == rounds + 1,
        wait_step(rounds, event).1 != WaitAction::Dispatch ==> wait_step(rounds, event).0 == rounds,
{
}

/// A pixel format that a buffer can be made with.
#[derive(Clone, Copy, Debug, PartialEq, Eq, Structural)]
pub enum ShmFormat {
    Xrgb8888,
    Argb8888,
}

/// The four-character code `XR24`, which some compositors announce for XRGB8888.
pub const XR24: u32 = 0x3432_5258;

/// The four-character code `AR24`, which some compositors announce for ARGB8888.
pub const AR24: u32 = 0x3432_5241;

/// `u32::from` of `wl_shm::Format::Xrgb8888`: the number of that format in the
/// core protocol, one.
#[verifier::external_body]
fn xrgb8888_number() -> (number: u32)
    ensures
        number == 1,
{
    u32::from(wl_shm::Format::Xrgb8888)
}

/// `u32::from` of `wl_shm::Format::Argb8888`: the number of that format in the
/// core protocol, zero.
#[verifier::external_body]
fn argb8888_number() -> (number: u32)
    ensures
        number == 0,
{
    u32::from(wl_shm::Format::Argb8888)
}

/// One of the two numbers is among those announced.
pub open spec fn announces(formats: Seq<u32>, a: u32, b: u32) -> bool {
    formats.contains(a) || formats.contains(b)
}

/// The format to use and whether it is without alpha: XRGB8888 where it is
/// announced, by its number in the core protocol or by its code, else
/// ARGB8888 where that is, and XRGB8888 where neither is.
pub open spec fn chosen_format(formats: Seq<u32>) -> (ShmFormat, bool) {
    if !announces(formats, 1, XR24) && announces(formats, 0, AR24) {
        (ShmFormat::Argb8888, false)
    } else {
        (ShmFormat::Xrgb8888, true)
    }
}

fn has_format(formats: &Vec<u32>, a: u32, b: u32) -> (found: bool)
    ensures
        found == announces(formats@, a, b),
{
    let mut i: usize = 0;
    while i < formats.len()
        invariant
            i <= formats.len(),
            forall|k: int| 0 <= k < i ==> formats@[k] != a && formats@[k] != b,
        decreases formats.len() - i,
    {
        let f: u32 = formats[i];
        if f == a || f == b {
            assert(formats@[i as int] == f);
            return true;
        }
        i = i + 1;
    }
    false
}

/// Picks a pixel format among those announced.
pub fn choose_format(formats: &Vec<u32>) -> (chosen: (ShmFormat, bool))
    ensures
        chosen == chosen_format(formats@),
{
    if has_format(formats, xrgb8888_number(), XR24) {
        (ShmFormat::Xrgb8888, true)
    } else if has_format(formats, argb8888_number(), AR24) {
        (ShmFormat::Argb8888, false)
    } else {
        (ShmFormat::Xrgb8888, true)
    }
}

/// The buffer to capture into, in the numbers that the requests take.
#[derive(Clone, Copy, Debug, PartialEq, Eq, Structural)]
pub struct BufferPlan {
    pub width: u32,
    pub height: u32,
    /// The bytes of a row.
    pub stride: usize,
    /// The bytes of the buffer.
    pub size: usize,
    pub format: ShmFormat,
    /// The format has no alpha.
    pub opaque: bool,
    /// `size`, `width`, `height` and `stride` as the protocol's signed numbers.
    pub pool_size: i32,
    pub wire_width: i32,
    pub wire_height: i32,
    pub wire_stride: i32,
}

/// What the constraints of a session come to.
#[derive(Clone, Copy, Debug, PartialEq, Eq, Structural)]
pub enum Negotiation {
    /// No constraints came, or the session failed: it is to be destroyed.
    Refused,
    /// No size was given: the capture ends with the session left alone.
    Unsized,
    /// A buffer as planned is to be handed over.
    Buffer(BufferPlan),
}

/// The length in bytes of a row and of a buffer can be told in `u32` and `usize`.
pub open spec fn measurable(width: u32, height: u32) -> bool {
    4 * width <= u32::MAX && 4 * (width * height) <= usize::MAX
}

/// The buffer for a frame of the given size.
pub open spec fn planned(width: u32, height: u32, formats: Seq<u32>) -> BufferPlan {
    let stride = (4 * width) as usize;
    let size = (4 * (width * height)) as usize;
    BufferPlan {
        width,
        height,
        stride,
        size,
        format: chosen_format(formats).0,
        opaque: chosen_format(formats).1,
        pool_size: size as i32,
        wire_width: width as i32,
        wire_height: height as i32,
        wire_stride: stride as i32,
    }
}

/// What the constraints come to, where the wait for them ended as `waited` says.
pub open spec fn negotiated(c: CaptureView, waited: bool) -> Negotiation {
    if !waited || c.failed {
        Negotiation::Refused
    } else {
        match c.size {
            None => Negotiation::Unsized,
            Some((width, height)) => Negotiation::Buffer(planned(width, height, c.formats)),
        }
    }
}

/// Whether a row and a buffer of that size have lengths that can be told.
pub fn is_measurable(width: u32, height: u32) -> (b: bool)
    ensures
        b == measurable(width, height),
{
    assert(0 <= width * height <= 0xFFFF_FFFF * 0xFFFF_FFFF) by (nonlinear_arith)
        requires
            0 <= width <= 0xFFFF_FFFF,
            0 <= height <= 0xFFFF_FFFF,
    ;
    let area: u128 = width as u128 * height as u128;
    width <= u32::MAX / 4 && 4 * area <= usize::MAX as u128
}

impl Capture {
    /// Draws the conclusion from the constraints of the session.
    pub fn negotiate(&self, waited: bool) -> (conclusion: Negotiation)
        requires
            waited && !self.failed ==> (self.size matches Some((width, height)) ==> measurable(
                width,
                height,
            )),
        ensures
            conclusion == negotiated(self@, waited),
    {
        if !waited || self.failed {
            return Negotiation::Refused;
        }
        let (width, height) = match self.size {
            None => {
                return Negotiation::Unsized;
            },
            Some(size) => size,
        };
        let (format, opaque) = choose_format(&self.formats);
        let stride: usize = (width * 4) as usize;
        assert(4 * (width * height) == stride * height) by (nonlinear_arith)
            requires
                stride == 4 * width,
        ;
        let size: usize = stride * height as usize;
        Negotiation::Buffer(
            BufferPlan {
                width,
                height,
                stride,
                size,
                format,
                opaque,
                pool_size: #[verifier::truncate] (size as i32),
                wire_width: #[verifier::truncate] (width as i32),
                wire_height: #[verifier::truncate] (height as i32),
                wire_stride: #[verifier::truncate] (stride as i32),
            },
        )
    }
}

/// What a session has reached it keeps: no event takes back that the
/// constraints are complete, the frame is ready or the session has failed.
pub proof fn progress_is_kept(c: CaptureView, session: SessionEvent, frame: FrameEvent)
    ensures
        c.constraints_done ==> after_session_event(c, session).constraints_done
            && after_frame_event(c, frame).constraints_done,
        c.ready ==> after_session_event(c, session).ready && after_frame_event(c, frame).ready,
        c.failed ==> after_session_event(c, session).failed && after_frame_event(c, frame).failed,
{
}

/// Once settled, a session stays settled.
pub proof fn settled_sessions_stay_settled(
    c: CaptureView,
    goal: Goal,
    session: SessionEvent,
    frame: FrameEvent,
)
    requires
        settled(c, goal),
    ensures
        settled(after_session_event(c, session), goal),
        settled(after_frame_event(c, frame), goal),
{
}

/// The choice of a format goes by which formats are announced, not by their
/// order or number.
pub proof fn format_choice_ignores_order(a: Seq<u32>, b: Seq<u32>)
    requires
        forall|f: u32| #[trigger] a.contains(f) <==> b.contains(f),
    ensures
        chosen_format(a) == chosen_format(b),
{
}

/// A buffer is taken for opaque exactly where its format has no alpha.
pub proof fn opaque_is_xrgb(formats: Seq<u32>)
    ensures
        chosen_format(formats).1 <==> chosen_format(formats).0 == ShmFormat::Xrgb8888,
{
}

/// A session that was stopped or whose frame failed gets no buffer.
pub proof fn failed_sessions_are_refused(
    c: CaptureView,
    reason: String,
    waited: bool,
)
    ensures
        negotiated(after_session_event(c, SessionEvent::Stopped), waited) == Negotiation::Refused,
        negotiated(after_frame_event(c, FrameEvent::Failed { reason }), waited)
            == Negotiation::Refused,
{
}

/// Every event tells one thing and leaves all else as it was: only a buffer
/// size changes the size, only a format the formats, only a transform with a
/// known value the transform, and only a failed frame the reason.
pub proof fn events_change_only_what_they_tell(
    c: CaptureView,
    session: SessionEvent,
    frame: FrameEvent,
)
    ensures
        ({
            let s = after_session_event(c, session);
            let f = after_frame_event(c, frame);
            &&& s.size == match session {
                SessionEvent::BufferSize { width, height } => Some((width, height)),
                _ => c.size,
            }
            &&& s.formats == match session {
                SessionEvent::ShmFormat { format } => c.formats + seq![format],
                _ => c.formats,
            }
            &&& s.constraints_done <==> c.constraints_done || session is Done
            &&& s.failed <==> c.failed || session is Stopped
            &&& s.transform == c.transform
            &&& s.ready == c.ready
            &&& s.fail_reason == c.fail_reason
            &&& f.size == c.size
            &&& f.formats == c.formats
            &&& f.constraints_done == c.constraints_done
            &&& f.transform == match frame {
                FrameEvent::Transform { transform: WireTransform::Value(t) } => Some(t),
                _ => c.transform,
            }
            &&& f.ready <==> c.ready || frame is Ready
            &&& f.failed <==> c.failed || frame is Failed
            &&& f.fail_reason == match frame {
                FrameEvent::Failed { reason } => Some(reason@),
                _ => c.fail_reason,
            }
        }),
{
    match session {
        SessionEvent::ShmFormat { format } => {
            assert(c.formats.push(format) =~= c.formats + seq![format]);
        },
        _ => {},
    }
}

/// The wait for the constraints is over once they are complete, that for the
/// frame once it is ready, and both once the session has failed.
pub proof fn waits_are_over_when_told(c: CaptureView)
    ensures
        settled(c, Goal::Constraints) <==> c.constraints_done || c.failed,
        settled(c, Goal::Frame) <==> c.ready || c.failed,
{
}

/// Every planned buffer takes its size from the session, four bytes to a
/// pixel and row upon row. Its format is XRGB8888 wherever that is announced,
/// by its number or by its code, ARGB8888 where only that is, and XRGB8888
/// again where neither is; and it is taken for opaque exactly where its
/// format is XRGB8888.
pub proof fn buffers_are_made_for_the_frame(c: CaptureView, waited: bool)
    ensures
        match negotiated(c, waited) {
            Negotiation::Buffer(plan) => {
                let xrgb = c.formats.contains(1u32) || c.formats.contains(0x3432_5258u32);
                let argb = c.formats.contains(0u32) || c.formats.contains(0x3432_5241u32);
                &&& waited && !c.failed
                &&& c.size == Some((plan.width, plan.height))
                &&& measurable(plan.width, plan.height) ==> plan.stride == 4 * plan.width
                    && plan.size == plan.stride * plan.height
                &&& xrgb ==> plan.format == ShmFormat::Xrgb8888
                &&& !xrgb && argb ==> plan.format == ShmFormat::Argb8888
                &&& !xrgb && !argb ==> plan.format == ShmFormat::Xrgb8888
                &&& plan.opaque <==> plan.format == ShmFormat::Xrgb8888
            },
            Negotiation::Unsized => waited && !c.failed && c.size is None,
            Negotiation::Refused => !waited || c.failed,
        },
{
    match c.size {
        Some((width, height)) => {
            assert((4 * width) * height == 4 * (width * height)) by (nonlinear_arith);
            assert(0 <= 4 * (width * height)) by (nonlinear_arith)
                requires
                    0 <= width,
                    0 <= height,
            ;
        },
        None => {},
    }
}

/// On the wire the numbers of a buffer are what they are, and those too large
/// for a signed number keep their lower thirty-two bits.
pub proof fn wire_numbers_keep_their_bits(width: u32, height: u32, formats: Seq<u32>)
    requires
        measurable(width, height),
    ensures
        ({
            let plan = planned(width, height, formats);
            &&& plan.width == width && plan.height == height
            &&& (plan.wire_width - width) % 0x1_0000_0000 == 0
            &&& (plan.wire_height - height) % 0x1_0000_0000 == 0
            &&& (plan.wire_stride - 4 * width) % 0x1_0000_0000 == 0
            &&& (plan.pool_size - 4 * (width * height)) % 0x1_0000_0000 == 0
        }),
{
    assert(0 <= 4 * (width * height)) by (nonlinear_arith)
        requires
            0 <= width,
            0 <= height,
    ;
    let stride = (4 * width) as usize;
    let size = (4 * (width * height)) as usize;
    assert((width as i32 - width) % 0x1_0000_0000 == 0) by (bit_vector);
    assert((height as i32 - height) % 0x1_0000_0000 == 0) by (bit_vector);
    assert((stride as i32 - stride) % 0x1_0000_0000 == 0) by (bit_vector);
    assert((size as i32 - size) % 0x1_0000_0000 == 0) by (bit_vector);
}

/// Sizes of up to two to the thirtieth pixels, less one, can be told.
pub proof fn common_sizes_are_measurable(width: u32, height: u32)
    requires
        width < 0x4000_0000,
        width * height < 0x4000_0000,
    ensures
        measurable(width, height),
{
}

/// XRGB8888 is preferred wherever it is announced, by its number or by its
/// code, whatever else is; ARGB8888 is used only where it alone is; and the
/// flag that comes with the format says that it has no alpha.
pub proof fn formats_without_alpha_are_preferred(formats: Seq<u32>)
    ensures
        formats.contains(1u32) || formats.contains(0x3432_5258u32) ==> chosen_format(formats) == (
            ShmFormat::Xrgb8888,
            true,
        ),
        chosen_format(formats) == (ShmFormat::Argb8888, false) <==> (formats.contains(0u32)
            || formats.contains(0x3432_5241u32)) && !formats.contains(1u32) && !formats.contains(
            0x3432_5258u32,
        ),
        chosen_format(formats).1 <==> chosen_format(formats).0 == ShmFormat::Xrgb8888,
{
}

/// While rounds are left, a wait ends well with the first look that finds the
/// session settled, asks for a dispatch after any other look, looks again
/// after every dispatch that went well, and ends in vain with the first that
/// did not. Without rounds it ends in vain.
pub proof fn waits_go_round(rounds: int, settled: bool, ok: bool)
    ensures
        rounds < 512 ==> {
            &&& wait_step(rounds, WaitEvent::Looked { settled: true }) == (
                rounds,
                WaitAction::Finish { settled: true },
            )
            &&& wait_step(rounds, WaitEvent::Looked { settled: false }) == (
                rounds + 1,
                WaitAction::Dispatch,
            )
            &&& wait_step(rounds, WaitEvent::Dispatched { ok: true }) == (rounds, WaitAction::Look)
            &&& wait_step(rounds, WaitEvent::Dispatched { ok: false }) == (
                rounds,
                WaitAction::Finish { settled: false },
            )
        },
        rounds >= 512 ==> {
            &&& wait_step(rounds, WaitEvent::Looked { settled }) == (
                rounds,
                WaitAction::Finish { settled: false },
            )
            &&& wait_step(rounds, WaitEvent::Dispatched { ok }) == (
                rounds,
                WaitAction::Finish { settled: false },
            )
        },
{
}

} // verus!
