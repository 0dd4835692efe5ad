//! The windows and monitors of a session, and what to capture of them.

use crate::globals::Global;
use crate::text::{chars_of, is_telling, telling, trim, trimmed};
use std::collections::HashMap;
use vstd::prelude::*;

verus! {

broadcast use vstd::std_specs::hash::group_hash_axioms;

/// What is known of a window.
pub struct ToplevelInfo {
    pub identifier: Option<String>,
    pub title: Option<String>,
    pub app_id: Option<String>,
    pub closed: bool,
}

/// What a `ToplevelInfo` holds.
pub struct ToplevelView {
    pub identifier: Option<Seq<char>>,
    pub title: Option<Seq<char>>,
    pub app_id: Option<Seq<char>>,
    pub closed: bool,
}

impl View for ToplevelInfo {
    type V = ToplevelView;

    open spec fn view(&self) -> ToplevelView {
        ToplevelView {
            identifier: chars_of(self.identifier),
            title: chars_of(self.title),
            app_id: chars_of(self.app_id),
            closed: self.closed,
        }
    }
}

/// What is known of a monitor.
pub struct OutputInfo {
    pub name: Option<String>,
    pub model: Option<String>,
}

/// What an `OutputInfo` holds.
pub struct OutputView {
    pub name: Option<Seq<char>>,
    pub model: Option<Seq<char>>,
}

impl View for OutputInfo {
    type V = OutputView;

    open spec fn view(&self) -> OutputView {
        OutputView { name: chars_of(self.name), model: chars_of(self.model) }
    }
}

/// A window of which nothing has been heard yet.
pub open spec fn new_toplevel() -> ToplevelView {
    ToplevelView { identifier: None, title: None, app_id: None, closed: false }
}

/// A monitor of which nothing has been heard yet.
pub open spec fn new_output() -> OutputView {
    OutputView { name: None, model: None }
}

/// An event of a window.
pub enum ToplevelEvent {
    Identifier { identifier: String },
    Title { title: String },
    AppId { app_id: String },
    Closed,
    Other,
}

/// An event of a monitor.
pub enum OutputEvent {
    Name { name: String },
    Geometry { model: String },
    Other,
}

/// A window after one of its events.
pub open spec fn after_toplevel_event(t: ToplevelView, event: ToplevelEvent) -> ToplevelView {
    match event {
        ToplevelEvent::Identifier { identifier } => ToplevelView {
            identifier: Some(identifier@),
            ..t
        },
        ToplevelEvent::Title { title } => ToplevelView { title: Some(title@), ..t },
        ToplevelEvent::AppId { app_id } => ToplevelView { app_id: Some(app_id@), ..t },
        ToplevelEvent::Closed => ToplevelView { closed: true, ..t },
        ToplevelEvent::Other => t,
    }
}

/// A monitor after one of its events. A model is kept without the white space
/// around it, and only where it says something.
pub open spec fn after_output_event(o: OutputView, event: OutputEvent) -> OutputView {
    match event {
        OutputEvent::Name { name } => OutputView { name: Some(name@), ..o },
        OutputEvent::Geometry { model } => after_model(o, trimmed(model@)),
        OutputEvent::Other => o,
    }
}

/// A monitor after its model was told, without white space around it.
pub open spec fn after_model(o: OutputView, model: Seq<char>) -> OutputView {
    if telling(model) {
        OutputView { model: Some(model), ..o }
    } else {
        o
    }
}

impl ToplevelInfo {
    /// A window of which nothing has been heard yet.
    pub fn new() -> (info: Self)
        ensures
            info@ == new_toplevel(),
    {
        ToplevelInfo { identifier: None, title: None, app_id: None, closed: false }
    }

    /// Takes in an event of the window.
    pub fn event(&mut self, event: ToplevelEvent)
        ensures
            final(self)@ == after_toplevel_event(old(self)@, event),
    {
        match event {
            ToplevelEvent::Identifier { identifier } => {
                self.identifier = Some(identifier);
            },
            ToplevelEvent::Title { title } => {
                self.title = Some(title);
            },
            ToplevelEvent::AppId { app_id } => {
                self.app_id = Some(app_id);
            },
            ToplevelEvent::Closed => {
                self.closed = true;
            },
            ToplevelEvent::Other => {},
        }
    }
}

impl OutputInfo {
    /// A monitor of which nothing has been heard yet.
    pub fn new() -> (info: Self)
        ensures
            info@ == new_output(),
    {
        OutputInfo { name: None, model: None }
    }

    /// Takes in the model of the monitor, without white space around it.
    pub fn told_model(&mut self, model: &str)
        ensures
            final(self)@ == after_model(old(self)@, model@),
    {
        if is_telling(model) {
            self.model = Some(model.to_owned());
        }
    }

    /// Takes in an event of the monitor.
    pub fn event(&mut self, event: OutputEvent)
        ensures
            final(self)@ == after_output_event(old(self)@, event),
    {
        match event {
            OutputEvent::Name { name } => {
                self.name = Some(name);
            },
            OutputEvent::Geometry { model } => {
                self.told_model(trim(model.as_str()));
            },
            OutputEvent::Other => {},
        }
    }
}

/// Things that go by numbers, and the numbers in the order in which they
/// appeared.
struct Listing<T> {
    order: Vec<u64>,
    known: HashMap<u64, T>,
}

impl<T> Listing<T> {
    /// The list names what is known, each thing at least once, and no others.
    spec fn consistent(self) -> bool {
        &&& forall|i: int|
            0 <= i < self.order@.len() ==> self.known@.contains_key(#[trigger] self.order@[i])
        &&& forall|id: u64| #[trigger] self.known@.contains_key(id) ==> self.order@.contains(id)
    }

    fn new() -> (listing: Self)
        ensures
            listing.consistent(),
            listing.order@ == Seq::<u64>::empty(),
            listing.known@ == Map::<u64, T>::empty(),
    {
        Listing { order: Vec::new(), known: HashMap::new() }
    }

    /// Lists a thing that appeared, under the number `id`.
    fn list(&mut self, id: u64, thing: T)
        requires
            old(self).consistent(),
        ensures
            final(self).consistent(),
            final(self).order@ == old(self).order@.push(id),
            final(self).known@ == old(self).known@.insert(id, thing),
    {
        self.order.push(id);
        self.known.insert(id, thing);
        proof {
            lemma_push_keeps(old(self).order@, id);
        }
    }
}

/// What has been learnt of the session. Windows and monitors go by numbers
/// that the caller gives them.
pub struct Desktop {
    shm: bool,
    copy_mgr: bool,
    output_src_mgr: bool,
    toplevel_src_mgr: bool,
    windows: Listing<ToplevelInfo>,
    monitors: Listing<OutputInfo>,
}

/// What a `Desktop` holds.
#[verifier::ext_equal]
pub struct DesktopView {
    pub shm: bool,
    pub copy_mgr: bool,
    pub output_src_mgr: bool,
    pub toplevel_src_mgr: bool,
    pub tl_order: Seq<u64>,
    pub toplevels: Map<u64, ToplevelView>,
    pub out_order: Seq<u64>,
    pub outputs: Map<u64, OutputView>,
}

impl View for Desktop {
    type V = DesktopView;

    closed spec fn view(&self) -> DesktopView {
        DesktopView {
            shm: self.shm,
            copy_mgr: self.copy_mgr,
            output_src_mgr: self.output_src_mgr,
            toplevel_src_mgr: self.toplevel_src_mgr,
            tl_order: self.windows.order@,
            toplevels: self.windows.known@.map_values(|t: ToplevelInfo| t@),
            out_order: self.monitors.order@,
            outputs: self.monitors.known@.map_values(|o: OutputInfo| o@),
        }
    }
}

impl DesktopView {
    /// The lists of windows and of monitors name those that are known, each
    /// of them at least once, and no others.
    pub open spec fn consistent(self) -> bool {
        &&& forall|i: int|
            0 <= i < self.tl_order.len() ==> self.toplevels.contains_key(#[trigger] self.tl_order[i])
        &&& forall|i: int|
            0 <= i < self.out_order.len() ==> self.outputs.contains_key(#[trigger] self.out_order[i])
        &&& forall|id: u64| #[trigger]
            self.toplevels.contains_key(id) ==> self.tl_order.contains(id)
        &&& forall|id: u64| #[trigger]
            self.outputs.contains_key(id) ==> self.out_order.contains(id)
    }
}

/// A session of which nothing has been learnt yet.
pub open spec fn nothing_learnt() -> DesktopView {
    DesktopView {
        shm: false,
        copy_mgr: false,
        output_src_mgr: false,
        toplevel_src_mgr: false,
        tl_order: Seq::empty(),
        toplevels: Map::empty(),
        out_order: Seq::empty(),
        outputs: Map::empty(),
    }
}

/// The session after a global was bound; a monitor gets the number `id`.
pub open spec fn after_bound(d: DesktopView, global: Global, id: u64) -> DesktopView {
    match global {
        Global::ToplevelList => d,
        Global::Output => DesktopView {
            out_order: d.out_order.push(id),
            outputs: d.outputs.insert(id, new_output()),
            ..d
        },
        Global::Shm => DesktopView { shm: true, ..d },
        Global::CopyManager => DesktopView { copy_mgr: true, ..d },
        Global::OutputSources => DesktopView { output_src_mgr: true, ..d },
        Global::ToplevelSources => DesktopView { toplevel_src_mgr: true, ..d },
    }
}

/// The session after a window appeared, under the number `id`.
pub open spec fn after_toplevel(d: DesktopView, id: u64) -> DesktopView {
    DesktopView {
        tl_order: d.tl_order.push(id),
        toplevels: d.toplevels.insert(id, new_toplevel()),
        ..d
    }
}

/// The session after an event of the window `id`.
pub open spec fn after_event_of_toplevel(
    d: DesktopView,
    id: u64,
    event: ToplevelEvent,
) -> DesktopView {
    if d.toplevels.contains_key(id) {
        DesktopView {
            toplevels: d.toplevels.insert(id, after_toplevel_event(d.toplevels[id], event)),
            ..d
        }
    } else {
        d
    }
}

/// The session after an event of the monitor `id`.
pub open spec fn after_event_of_output(d: DesktopView, id: u64, event: OutputEvent) -> DesktopView {
    if d.outputs.contains_key(id) {
        DesktopView {
            outputs: d.outputs.insert(id, after_output_event(d.outputs[id], event)),
            ..d
        }
    } else {
        d
    }
}

proof fn lemma_push_keeps(order: Seq<u64>, id: u64)
    ensures
        order.push(id).contains(id),
        forall|k: u64| #[trigger] order.contains(k) ==> order.push(id).contains(k),
{
    assert(order.push(id)[order.len() as int] == id);
    assert forall|k: u64| #[trigger] order.contains(k) implies order.push(id).contains(k) by {
        let i = choose|i: int| 0 <= i < order.len() && order[i] == k;
        assert(order.push(id)[i] == k);
    }
}

impl Default for Desktop {
    fn default() -> (desktop: Self)
        ensures
            desktop@ == nothing_learnt(),
            desktop@.consistent(),
    {
        let desktop = Desktop {
            shm: false,
            copy_mgr: false,
            output_src_mgr: false,
            toplevel_src_mgr: false,
            windows: Listing::new(),
            monitors: Listing::new(),
        };
        assert(desktop@ =~= nothing_learnt());
        desktop
    }
}

impl Desktop {
    #[verifier::type_invariant]
    spec fn well_formed(self) -> bool {
        self.windows.consistent() && self.monitors.consistent()
    }

    /// Takes in that a global was bound; a monitor gets the number `id`.
    pub fn bound(&mut self, global: Global, id: u64)
        ensures
            final(self)@ == after_bound(old(self)@, global, id),
            final(self)@.consistent(),
    {
        proof {
            use_type_invariant(&*self);
        }
        match global {
            Global::ToplevelList => {},
            Global::Output => {
                let mut monitors: Listing<OutputInfo> = Listing::new();
                std::mem::swap(&mut self.monitors, &mut monitors);
                monitors.list(id, OutputInfo::new());
                self.monitors = monitors;
            },
            Global::Shm => {
                self.shm = true;
            },
            Global::CopyManager => {
                self.copy_mgr = true;
            },
            Global::OutputSources => {
                self.output_src_mgr = true;
            },
            Global::ToplevelSources => {
                self.toplevel_src_mgr = true;
            },
        }
        assert(self@ =~= after_bound(old(self)@, global, id));
    }

    /// Takes in that a window appeared, under the number `id`.
    pub fn toplevel_appeared(&mut self, id: u64)
        ensures
            final(self)@ == after_toplevel(old(self)@, id),
            final(self)@.consistent(),
    {
        proof {
            use_type_invariant(&*self);
        }
        let mut windows: Listing<ToplevelInfo> = Listing::new();
        std::mem::swap(&mut self.windows, &mut windows);
        windows.list(id, ToplevelInfo::new());
        self.windows = windows;
        assert(self@ =~= after_toplevel(old(self)@, id));
    }

    /// Takes in an event of the window `id`; one of an unknown window is ignored.
    pub fn toplevel_event(&mut self, id: u64, event: ToplevelEvent)
        ensures
            final(self)@ == after_event_of_toplevel(old(self)@, id, event),
            final(self)@.consistent(),
    {
        proof {
            use_type_invariant(&*self);
        }
        let mut windows: Listing<ToplevelInfo> = Listing::new();
        std::mem::swap(&mut self.windows, &mut windows);
        if let Some(known) = windows.known.remove(&id) {
            let mut info = known;
            info.event(event);
            windows.known.insert(id, info);
        }
        self.windows = windows;
        assert(self@ =~= after_event_of_toplevel(old(self)@, id, event));
    }

    /// Takes in an event of the monitor `id`; one of an unknown monitor is ignored.
    pub fn output_event(&mut self, id: u64, event: OutputEvent)
        ensures
            final(self)@ == after_event_of_output(old(self)@, id, event),
            final(self)@.consistent(),
    {
        proof {
            use_type_invariant(&*self);
        }
        let mut monitors: Listing<OutputInfo> = Listing::new();
        std::mem::swap(&mut self.monitors, &mut monitors);
        if let Some(known) = monitors.known.remove(&id) {
            let mut info = known;
            info.event(event);
            monitors.known.insert(id, info);
        }
        self.monitors = monitors;
        assert(self@ =~= after_event_of_output(old(self)@, id, event));
    }

    /// Whether the compositor has what every capture takes: shared memory,
    /// and the manager that copies into it.
    pub fn can_capture(&self) -> (b: bool)
        ensures
            b == (self@.copy_mgr && self@.shm),
    {
        self.copy_mgr && self.shm
    }

    /// Whether the compositor offers windows as sources.
    pub fn offers_windows(&self) -> (b: bool)
        ensures
            b == self@.toplevel_src_mgr,
    {
        self.toplevel_src_mgr
    }

    /// Whether the compositor offers monitors as sources.
    pub fn offers_monitors(&self) -> (b: bool)
        ensures
            b == self@.output_src_mgr,
    {
        self.output_src_mgr
    }

    /// The numbers of the windows, in the order in which they appeared.
    pub fn windows(&self) -> (order: &Vec<u64>)
        ensures
            order@ == self@.tl_order,
            self@.consistent(),
    {
        proof {
            use_type_invariant(self);
        }
        &self.windows.order
    }

    /// What is known of the window `id`, if there is one.
    pub fn window(&self, id: u64) -> (info: Option<&ToplevelInfo>)
        ensures
            match info {
                Some(t) => self@.toplevels.contains_key(id) && t@ == self@.toplevels[id],
                None => !self@.toplevels.contains_key(id),
            },
    {
        self.windows.known.get(&id)
    }

    /// The numbers of the monitors, in the order in which they appeared.
    pub fn monitors(&self) -> (order: &Vec<u64>)
        ensures
            order@ == self@.out_order,
            self@.consistent(),
    {
        proof {
            use_type_invariant(self);
        }
        &self.monitors.order
    }

    /// What is known of the monitor `id`, if there is one.
    pub fn monitor(&self, id: u64) -> (info: Option<&OutputInfo>)
        ensures
            match info {
                Some(o) => self@.outputs.contains_key(id) && o@ == self@.outputs[id],
                None => !self@.outputs.contains_key(id),
            },
    {
        self.monitors.known.get(&id)
    }
}

/// Whatever comes in, the lists go on naming those that are known, and no
/// others.
pub proof fn lists_stay_consistent(
    d: DesktopView,
    id: u64,
    global: Global,
    window: ToplevelEvent,
    monitor: OutputEvent,
)
    requires
        d.consistent(),
    ensures
        nothing_learnt().consistent(),
        after_bound(d, global, id).consistent(),
        after_toplevel(d, id).consistent(),
        after_event_of_toplevel(d, id, window).consistent(),
        after_event_of_output(d, id, monitor).consistent(),
{
    lemma_push_keeps(d.tl_order, id);
    lemma_push_keeps(d.out_order, id);
}

/// Events of different windows can come in either order.
pub proof fn events_of_different_windows_commute(
    d: DesktopView,
    a: u64,
    b: u64,
    first: ToplevelEvent,
    second: ToplevelEvent,
)
    requires
        a != b,
    ensures
        after_event_of_toplevel(after_event_of_toplevel(d, a, first), b, second)
            == after_event_of_toplevel(after_event_of_toplevel(d, b, second), a, first),
{
    assert(after_event_of_toplevel(after_event_of_toplevel(d, a, first), b, second)
        =~= after_event_of_toplevel(after_event_of_toplevel(d, b, second), a, first));
}

/// Events of different monitors can come in either order.
pub proof fn events_of_different_monitors_commute(
    d: DesktopView,
    a: u64,
    b: u64,
    first: OutputEvent,
    second: OutputEvent,
)
    requires
        a != b,
    ensures
        after_event_of_output(after_event_of_output(d, a, first), b, second)
            == after_event_of_output(after_event_of_output(d, b, second), a, first),
{
    assert(after_event_of_output(after_event_of_output(d, a, first), b, second)
        =~= after_event_of_output(after_event_of_output(d, b, second), a, first));
}

/// An event of a window or monitor leaves all others as they are, and the
/// lists too.
pub proof fn events_touch_nothing_else(
    d: DesktopView,
    id: u64,
    other: u64,
    window: ToplevelEvent,
    monitor: OutputEvent,
)
    requires
        id != other,
    ensures
        ({
            let w = after_event_of_toplevel(d, id, window);
            let m = after_event_of_output(d, id, monitor);
            &&& w.tl_order == d.tl_order && w.out_order == d.out_order && w.outputs == d.outputs
            &&& w.toplevels.contains_key(other) == d.toplevels.contains_key(other)
            &&& w.toplevels[other] == d.toplevels[other]
            &&& m.tl_order == d.tl_order && m.out_order == d.out_order && m.toplevels == d.toplevels
            &&& m.outputs.contains_key(other) == d.outputs.contains_key(other)
            &&& m.outputs[other] == d.outputs[other]
        }),
{
}

/// A closed window stays closed.
pub proof fn closed_windows_stay_closed(t: ToplevelView, event: ToplevelEvent)
    requires
        t.closed,
    ensures
        after_toplevel_event(t, event).closed,
{
}

/// A model that says nothing leaves the one told before in place.
pub proof fn untelling_models_are_ignored(o: OutputView, model: String)
    requires
        !telling(trimmed(model@)),
    ensures
        after_output_event(o, OutputEvent::Geometry { model }) == o,
{
}

/// What is known of a window after all that was told of it since it appeared.
pub open spec fn told_window(events: Seq<ToplevelEvent>) -> ToplevelView
    decreases events.len(),
{
    if events.len() == 0 {
        new_toplevel()
    } else {
        after_toplevel_event(told_window(events.drop_last()), events.last())
    }
}

/// What is known of a monitor after all that was told of it since it appeared.
pub open spec fn told_monitor(events: Seq<OutputEvent>) -> OutputView
    decreases events.len(),
{
    if events.len() == 0 {
        new_output()
    } else {
        after_output_event(told_monitor(events.drop_last()), events.last())
    }
}

/// `value` is what the last of the events that tell something tells, or none
/// where none of them does.
pub open spec fn is_last_of<E, T>(
    value: Option<T>,
    events: Seq<E>,
    tells: spec_fn(E) -> Option<T>,
) -> bool {
    match value {
        Some(_) => exists|k: int|
            0 <= k < events.len() && tells(#[trigger] events[k]) == value && forall|j: int|
                k < j < events.len() ==> tells(#[trigger] events[j]) is None,
        None => forall|j: int| 0 <= j < events.len() ==> tells(#[trigger] events[j]) is None,
    }
}

proof fn lemma_last_of<E, T>(
    before: Option<T>,
    value: Option<T>,
    events: Seq<E>,
    tells: spec_fn(E) -> Option<T>,
)
    requires
        events.len() > 0,
        is_last_of(before, events.drop_last(), tells),
        value == match tells(events.last()) {
            Some(told) => Some(told),
            None => before,
        },
    ensures
        is_last_of(value, events, tells),
{
    let rest = events.drop_last();
    let n = events.len() - 1;
    assert(events[n] == events.last());
    if tells(events[n]) is Some {
        assert(tells(events[n]) == value);
    } else {
        if value is Some {
            let k = choose|k: int|
                0 <= k < rest.len() && tells(#[trigger] rest[k]) == value && forall|j: int|
                    k < j < rest.len() ==> tells(#[trigger] rest[j]) is None;
            assert(events[k] == rest[k]);
            assert forall|j: int| k < j < events.len() implies tells(#[trigger] events[j])
                is None by {
                if j < n {
                    assert(rest[j] == events[j]);
                }
            }
        } else {
            assert forall|j: int| 0 <= j < events.len() implies tells(#[trigger] events[j])
                is None by {
                if j < n {
                    assert(rest[j] == events[j]);
                }
            }
        }
    }
}

/// A window's identifier, title and application are the last ones told, each
/// by itself and whatever else came between, and it is closed exactly where
/// that was told.
pub proof fn windows_are_known_by_what_was_told_last(events: Seq<ToplevelEvent>)
    ensures
        ({
            let t = told_window(events);
            &&& is_last_of(
                t.identifier,
                events,
                |e: ToplevelEvent|
                    match e {
                        ToplevelEvent::Identifier { identifier } => Some(identifier@),
                        _ => None,
                    },
            )
            &&& is_last_of(
                t.title,
                events,
                |e: ToplevelEvent|
                    match e {
                        ToplevelEvent::Title { title } => Some(title@),
                        _ => None,
                    },
            )
            &&& is_last_of(
                t.app_id,
                events,
                |e: ToplevelEvent|
                    match e {
                        ToplevelEvent::AppId { app_id } => Some(app_id@),
                        _ => None,
                    },
            )
            &&& t.closed <==> exists|k: int| 0 <= k < events.len() && #[trigger] events[k] is Closed
        }),
    decreases events.len(),
{
    if events.len() > 0 {
        let rest = events.drop_last();
        let before = told_window(rest);
        let t = told_window(events);
        windows_are_known_by_what_was_told_last(rest);
        lemma_last_of(
            before.identifier,
            t.identifier,
            events,
            |e: ToplevelEvent|
                match e {
                    ToplevelEvent::Identifier { identifier } => Some(identifier@),
                    _ => None,
                },
        );
        lemma_last_of(
            before.title,
            t.title,
            events,
            |e: ToplevelEvent|
                match e {
                    ToplevelEvent::Title { title } => Some(title@),
                    _ => None,
                },
        );
        lemma_last_of(
            before.app_id,
            t.app_id,
            events,
            |e: ToplevelEvent|
                match e {
                    ToplevelEvent::AppId { app_id } => Some(app_id@),
                    _ => None,
                },
        );
        assert(events[events.len() - 1] == events.last());
        if before.closed {
            let k = choose|k: int| 0 <= k < rest.len() && #[trigger] rest[k] is Closed;
            assert(events[k] == rest[k]);
        }
        if exists|k: int| 0 <= k < events.len() && #[trigger] events[k] is Closed {
            let k = choose|k: int| 0 <= k < events.len() && #[trigger] events[k] is Closed;
            if k < rest.len() {
                assert(rest[k] == events[k]);
            }
        }
    }
}

/// A monitor's name is the last one told, and its model the last telling one,
/// without the white space around it, wherever among the models the names
/// came.
pub proof fn monitors_are_known_by_what_was_told_last(events: Seq<OutputEvent>)
    ensures
        ({
            let o = told_monitor(events);
            &&& is_last_of(
                o.name,
                events,
                |e: OutputEvent|
                    match e {
                        OutputEvent::Name { name } => Some(name@),
                        _ => None,
                    },
            )
            &&& is_last_of(
                o.model,
                events,
                |e: OutputEvent|
                    match e {
                        OutputEvent::Geometry { model } => if telling(trimmed(model@)) {
                            Some(trimmed(model@))
                        } else {
                            None
                        },
                        _ => None,
                    },
            )
        }),
    decreases events.len(),
{
    if events.len() > 0 {
        let rest = events.drop_last();
        let before = told_monitor(rest);
        let o = told_monitor(events);
        monitors_are_known_by_what_was_told_last(rest);
        lemma_last_of(
            before.name,
            o.name,
            events,
            |e: OutputEvent|
                match e {
                    OutputEvent::Name { name } => Some(name@),
                    _ => None,
                },
        );
        lemma_last_of(
            before.model,
            o.model,
            events,
            |e: OutputEvent|
                match e {
                    OutputEvent::Geometry { model } => if telling(trimmed(model@)) {
                        Some(trimmed(model@))
                    } else {
                        None
                    },
                    _ => None,
                },
        );
    }
}

/// The name and the model of a monitor can come in either order: neither
/// touches the other.
pub proof fn names_and_models_commute(o: OutputView, name: String, model: String)
    ensures
        ({
            let named = OutputEvent::Name { name };
            let told = OutputEvent::Geometry { model };
            &&& after_output_event(after_output_event(o, named), told) == after_output_event(
                after_output_event(o, told),
                named,
            )
            &&& after_output_event(o, named).name == Some(name@)
            &&& after_output_event(o, named).model == o.model
            &&& after_output_event(o, told).name == o.name
            &&& after_output_event(o, OutputEvent::Other) == o
        }),
{
}

/// The identifier, the title and the application of a window, and that it is
/// closed, can come in any order: none touches another.
pub proof fn window_events_touch_one_thing_each(
    t: ToplevelView,
    identifier: String,
    title: String,
    app_id: String,
)
    ensures
        ({
            let i = after_toplevel_event(t, ToplevelEvent::Identifier { identifier });
            let n = after_toplevel_event(t, ToplevelEvent::Title { title });
            let a = after_toplevel_event(t, ToplevelEvent::AppId { app_id });
            let c = after_toplevel_event(t, ToplevelEvent::Closed);
            &&& i.identifier == Some(identifier@)
            &&& n.title == Some(title@)
            &&& a.app_id == Some(app_id@)
            &&& c.closed
            &&& n.identifier == t.identifier && a.identifier == t.identifier && c.identifier
                == t.identifier
            &&& i.title == t.title && a.title == t.title && c.title == t.title
            &&& i.app_id == t.app_id && n.app_id == t.app_id && c.app_id == t.app_id
            &&& i.closed == t.closed && n.closed == t.closed && a.closed == t.closed
            &&& after_toplevel_event(t, ToplevelEvent::Other) == t
        }),
{
}

/// Something that is learnt of the session.
pub enum Lesson {
    Bound(Global, u64),
    Appeared(u64),
    Window(u64, ToplevelEvent),
    Monitor(u64, OutputEvent),
}

/// The session after all that was learnt of it.
pub open spec fn learnt(lessons: Seq<Lesson>) -> DesktopView
    decreases lessons.len(),
{
    if lessons.len() == 0 {
        nothing_learnt()
    } else {
        let before = learnt(lessons.drop_last());
        match lessons.last() {
            Lesson::Bound(global, id) => after_bound(before, global, id),
            Lesson::Appeared(id) => after_toplevel(before, id),
            Lesson::Window(id, event) => after_event_of_toplevel(before, id, event),
            Lesson::Monitor(id, event) => after_event_of_output(before, id, event),
        }
    }
}

/// The events of the window `id` since it last appeared, if it has appeared.
pub open spec fn events_of_window(lessons: Seq<Lesson>, id: u64) -> Option<Seq<ToplevelEvent>>
    decreases lessons.len(),
{
    if lessons.len() == 0 {
        None
    } else {
        let before = events_of_window(lessons.drop_last(), id);
        match lessons.last() {
            Lesson::Appeared(other) => if other == id {
                Some(Seq::empty())
            } else {
                before
            },
            Lesson::Window(other, event) => if other == id && before is Some {
                Some(before->0.push(event))
            } else {
                before
            },
            _ => before,
        }
    }
}

/// The events of the monitor `id` since it was last bound, if it was bound.
pub open spec fn events_of_monitor(lessons: Seq<Lesson>, id: u64) -> Option<Seq<OutputEvent>>
    decreases lessons.len(),
{
    if lessons.len() == 0 {
        None
    } else {
        let before = events_of_monitor(lessons.drop_last(), id);
        match lessons.last() {
            Lesson::Bound(Global::Output, other) => if other == id {
                Some(Seq::empty())
            } else {
                before
            },
            Lesson::Monitor(other, event) => if other == id && before is Some {
                Some(before->0.push(event))
            } else {
                before
            },
            _ => before,
        }
    }
}

/// Something of the kind was learnt.
pub open spec fn is_bound(lessons: Seq<Lesson>, global: Global) -> bool {
    exists|k: int|
        0 <= k < lessons.len() && ((#[trigger] lessons[k]) matches Lesson::Bound(g, _) && g
            == global)
}

proof fn lemma_bound(lessons: Seq<Lesson>, global: Global)
    requires
        lessons.len() > 0,
    ensures
        is_bound(lessons, global) <==> is_bound(lessons.drop_last(), global) || (lessons.last()
            matches Lesson::Bound(g, _) && g == global),
{
    let rest = lessons.drop_last();
    assert(lessons[lessons.len() - 1] == lessons.last());
    if is_bound(rest, global) {
        let k = choose|k: int|
            0 <= k < rest.len() && ((#[trigger] rest[k]) matches Lesson::Bound(g, _) && g
                == global);
        assert(lessons[k] == rest[k]);
    }
    if is_bound(lessons, global) {
        let k = choose|k: int|
            0 <= k < lessons.len() && ((#[trigger] lessons[k]) matches Lesson::Bound(g, _) && g
                == global);
        if k < rest.len() {
            assert(rest[k] == lessons[k]);
        }
    }
}

/// Shared memory and the managers are there exactly where they were bound,
/// and the windows and monitors are listed as they appeared and were bound,
/// in that order.
pub proof fn sessions_list_what_appeared(lessons: Seq<Lesson>)
    ensures
        ({
            let d = learnt(lessons);
            &&& d.shm <==> is_bound(lessons, Global::Shm)
            &&& d.copy_mgr <==> is_bound(lessons, Global::CopyManager)
            &&& d.output_src_mgr <==> is_bound(lessons, Global::OutputSources)
            &&& d.toplevel_src_mgr <==> is_bound(lessons, Global::ToplevelSources)
            &&& d.tl_order == lessons.filter_map(
                |l: Lesson|
                    match l {
                        Lesson::Appeared(id) => Some(id),
                        _ => None,
                    },
            )
            &&& d.out_order == lessons.filter_map(
                |l: Lesson|
                    match l {
                        Lesson::Bound(Global::Output, id) => Some(id),
                        _ => None,
                    },
            )
            &&& d.consistent()
        }),
    decreases lessons.len(),
{
    let windows = |l: Lesson|
        match l {
            Lesson::Appeared(id) => Some(id),
            _ => None,
        };
    let monitors = |l: Lesson|
        match l {
            Lesson::Bound(Global::Output, id) => Some(id),
            _ => None,
        };
    if lessons.len() == 0 {
        assert(lessons.filter_map(windows) =~= Seq::<u64>::empty());
        assert(lessons.filter_map(monitors) =~= Seq::<u64>::empty());
    } else {
        let rest = lessons.drop_last();
        let before = learnt(rest);
        let d = learnt(lessons);
        sessions_list_what_appeared(rest);
        lemma_bound(lessons, Global::Shm);
        lemma_bound(lessons, Global::CopyManager);
        lemma_bound(lessons, Global::OutputSources);
        lemma_bound(lessons, Global::ToplevelSources);
        match lessons.last() {
            Lesson::Bound(_, id) => {
                lemma_push_keeps(before.out_order, id);
            },
            Lesson::Appeared(id) => {
                lemma_push_keeps(before.tl_order, id);
            },
            _ => {},
        }
        assert(d.tl_order =~= lessons.filter_map(windows));
        assert(d.out_order =~= lessons.filter_map(monitors));
    }
}

/// A window is known exactly where it has appeared, by all that was told of
/// it since, and by nothing that was told of another; and a monitor likewise
/// from when it was bound.
pub proof fn sessions_know_what_was_told(lessons: Seq<Lesson>, id: u64)
    ensures
        ({
            let d = learnt(lessons);
            &&& match events_of_window(lessons, id) {
                Some(events) => d.toplevels.contains_key(id) && d.toplevels[id] == told_window(
                    events,
                ),
                None => !d.toplevels.contains_key(id),
            }
            &&& match events_of_monitor(lessons, id) {
                Some(events) => d.outputs.contains_key(id) && d.outputs[id] == told_monitor(events),
                None => !d.outputs.contains_key(id),
            }
        }),
    decreases lessons.len(),
{
    if lessons.len() > 0 {
        let rest = lessons.drop_last();
        sessions_know_what_was_told(rest, id);
        if let Some(events) = events_of_window(rest, id) {
            if let Lesson::Window(_, event) = lessons.last() {
                assert(events.push(event).drop_last() =~= events);
            }
        }
        if let Some(events) = events_of_monitor(rest, id) {
            if let Lesson::Monitor(_, event) = lessons.last() {
                assert(events.push(event).drop_last() =~= events);
            }
        }
    }
}

} // verus!
