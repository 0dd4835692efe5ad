//! What to capture, in which order, and what becomes of it.

use crate::desktop::{
    after_event_of_toplevel, Desktop, DesktopView, OutputInfo, OutputView, ToplevelEvent,
    ToplevelInfo, ToplevelView,
};
use crate::picture::{Picture, PictureView};
use crate::text::{
    caption_monitor, caption_window, lowercase, monitor_caption, or_empty,
    search_text_of_window, text_or_empty, window_caption, window_search_text,
};
use vstd::prelude::*;

verus! {

/// What a capture is taken of, by its number.
#[derive(Clone, Copy, Debug, PartialEq, Eq, Structural)]
pub enum Source {
    Toplevel(u64),
    Output(u64),
}

/// A capture to be taken, and how it is to be labelled.
pub struct Job {
    pub kind: String,
    pub identifier: String,
    pub app_id: String,
    pub caption: String,
    pub haystack: String,
    pub source: Source,
}

/// What a `Job` holds.
#[verifier::ext_equal]
pub struct JobView {
    pub kind: Seq<char>,
    pub identifier: Seq<char>,
    pub app_id: Seq<char>,
    pub caption: Seq<char>,
    pub haystack: Seq<char>,
    pub source: Source,
}

impl View for Job {
    type V = JobView;

    open spec fn view(&self) -> JobView {
        JobView {
            kind: self.kind@,
            identifier: self.identifier@,
            app_id: self.app_id@,
            caption: self.caption@,
            haystack: self.haystack@,
            source: self.source,
        }
    }
}

/// What jobs hold.
pub open spec fn job_views(jobs: Seq<Job>) -> Seq<JobView> {
    jobs.map_values(|j: Job| j@)
}

/// A window is captured while it is open and once it has an identifier.
pub open spec fn window_is_listed(t: ToplevelView) -> bool {
    !t.closed && t.identifier is Some
}

/// The job of a window that is searched by `haystack`.
pub open spec fn window_entry(id: u64, t: ToplevelView, haystack: Seq<char>) -> Option<JobView> {
    if window_is_listed(t) {
        Some(
            JobView {
                kind: "Window"@,
                identifier: t.identifier->0,
                app_id: or_empty(t.app_id),
                caption: window_caption(t.title, t.app_id),
                haystack,
                source: Source::Toplevel(id),
            },
        )
    } else {
        None
    }
}

/// The job of a monitor that is searched by `haystack`; it has one once it
/// has a name.
pub open spec fn monitor_entry(id: u64, o: OutputView, haystack: Seq<char>) -> Option<JobView> {
    match o.name {
        Some(name) => Some(
            JobView {
                kind: "Monitor"@,
                identifier: name,
                app_id: Seq::empty(),
                caption: monitor_caption(name, o.model),
                haystack,
                source: Source::Output(id),
            },
        ),
        None => None,
    }
}

/// The job of a window, searched by its title and application in lowercase.
pub open spec fn window_job(id: u64, t: ToplevelView) -> Option<JobView> {
    window_entry(id, t, lowercase(window_search_text(t.title, t.app_id)))
}

/// The job of a monitor, searched by its caption in lowercase.
pub open spec fn monitor_job(id: u64, o: OutputView) -> Option<JobView> {
    monitor_entry(id, o, lowercase(monitor_caption(or_empty(o.name), o.model)))
}

/// The jobs of the windows, in the order in which the windows appeared.
pub open spec fn window_jobs(order: Seq<u64>, toplevels: Map<u64, ToplevelView>) -> Seq<JobView> {
    order.filter_map(|id: u64| window_job(id, toplevels[id]))
}

/// The jobs of the monitors, in the order in which the monitors appeared.
pub open spec fn monitor_jobs(order: Seq<u64>, outputs: Map<u64, OutputView>) -> Seq<JobView> {
    order.filter_map(|id: u64| monitor_job(id, outputs[id]))
}

/// What to capture: the windows first, then the monitors, each as far as the
/// compositor offers them as sources. Nothing can be captured without shared
/// memory and the manager that copies into it.
pub open spec fn planned_jobs(d: DesktopView) -> Option<Seq<JobView>> {
    if d.copy_mgr && d.shm {
        let windows = if d.toplevel_src_mgr {
            window_jobs(d.tl_order, d.toplevels)
        } else {
            Seq::empty()
        };
        let monitors = if d.output_src_mgr {
            monitor_jobs(d.out_order, d.outputs)
        } else {
            Seq::empty()
        };
        Some(windows + monitors)
    } else {
        None
    }
}

impl ToplevelInfo {
    /// The job of this window, searched by `haystack`.
    pub fn entry(&self, id: u64, haystack: String) -> (job: Option<Job>)
        ensures
            match job {
                Some(j) => window_entry(id, self@, haystack@) == Some(j@),
                None => window_entry(id, self@, haystack@) is None,
            },
    {
        if self.closed {
            return None;
        }
        match &self.identifier {
            Some(identifier) => Some(
                Job {
                    kind: "Window".to_owned(),
                    identifier: identifier.clone(),
                    app_id: text_or_empty(&self.app_id),
                    caption: caption_window(&self.title, &self.app_id),
                    haystack,
                    source: Source::Toplevel(id),
                },
            ),
            None => None,
        }
    }

    /// The job of this window.
    pub fn job(&self, id: u64) -> (job: Option<Job>)
        ensures
            match job {
                Some(j) => window_job(id, self@) == Some(j@),
                None => window_job(id, self@) is None,
            },
    {
        let text: String = search_text_of_window(&self.title, &self.app_id);
        self.entry(id, text.as_str().to_lowercase())
    }
}

impl OutputInfo {
    /// The job of this monitor, searched by `haystack`.
    pub fn entry(&self, id: u64, haystack: String) -> (job: Option<Job>)
        ensures
            match job {
                Some(j) => monitor_entry(id, self@, haystack@) == Some(j@),
                None => monitor_entry(id, self@, haystack@) is None,
            },
    {
        match &self.name {
            Some(name) => Some(
                Job {
                    kind: "Monitor".to_owned(),
                    identifier: name.clone(),
                    app_id: String::new(),
                    caption: caption_monitor(name, &self.model),
                    haystack,
                    source: Source::Output(id),
                },
            ),
            None => None,
        }
    }

    /// The job of this monitor.
    pub fn job(&self, id: u64) -> (job: Option<Job>)
        ensures
            match job {
                Some(j) => monitor_job(id, self@) == Some(j@),
                None => monitor_job(id, self@) is None,
            },
    {
        match &self.name {
            Some(name) => {
                let caption: String = caption_monitor(name, &self.model);
                self.entry(id, caption.as_str().to_lowercase())
            },
            None => None,
        }
    }
}

impl Desktop {
    fn push_window_jobs(&self, jobs: &mut Vec<Job>)
        ensures
            job_views(final(jobs)@) == job_views(old(jobs)@) + window_jobs(
                self@.tl_order,
                self@.toplevels,
            ),
    {
        let order: &Vec<u64> = self.windows();
        let ghost f = |id: u64| window_job(id, self@.toplevels[id]);
        let mut i: usize = 0;
        assert(order@.take(0).filter_map(f) =~= Seq::<JobView>::empty());
        assert(job_views(jobs@) =~= job_views(old(jobs)@) + Seq::<JobView>::empty());
        while i < order.len()
            invariant
                i <= order.len(),
                order@ == self@.tl_order,
                self@.consistent(),
                f == (|id: u64| window_job(id, self@.toplevels[id])),
                job_views(jobs@) == job_views(old(jobs)@) + order@.take(i as int).filter_map(f),
            decreases order.len() - i,
        {
            let id: u64 = order[i];
            let ghost before = jobs@;
            let ghost seen = order@.take(i as int);
            assert(self@.toplevels.contains_key(self@.tl_order[i as int]));
            assert(order@.take(i + 1).drop_last() =~= seen);
            assert(order@.take(i + 1).last() == id);
            if let Some(info) = self.window(id) {
                if let Some(job) = info.job(id) {
                    jobs.push(job);
                    assert(job_views(jobs@) =~= job_views(before).push(job@));
                    assert(job_views(jobs@) =~= job_views(old(jobs)@) + (seen.filter_map(f) + seq![
                        job@,
                    ]));
                }
            }
            i = i + 1;
        }
        assert(order@.take(i as int) =~= order@);
    }

    fn push_monitor_jobs(&self, jobs: &mut Vec<Job>)
        ensures
            job_views(final(jobs)@) == job_views(old(jobs)@) + monitor_jobs(
                self@.out_order,
                self@.outputs,
            ),
    {
        let order: &Vec<u64> = self.monitors();
        let ghost f = |id: u64| monitor_job(id, self@.outputs[id]);
        let mut i: usize = 0;
        assert(order@.take(0).filter_map(f) =~= Seq::<JobView>::empty());
        assert(job_views(jobs@) =~= job_views(old(jobs)@) + Seq::<JobView>::empty());
        while i < order.len()
            invariant
                i <= order.len(),
                order@ == self@.out_order,
                self@.consistent(),
                f == (|id: u64| monitor_job(id, self@.outputs[id])),
                job_views(jobs@) == job_views(old(jobs)@) + order@.take(i as int).filter_map(f),
            decreases order.len() - i,
        {
            let id: u64 = order[i];
            let ghost before = jobs@;
            let ghost seen = order@.take(i as int);
            assert(self@.outputs.contains_key(self@.out_order[i as int]));
            assert(order@.take(i + 1).drop_last() =~= seen);
            assert(order@.take(i + 1).last() == id);
            if let Some(info) = self.monitor(id) {
                if let Some(job) = info.job(id) {
                    jobs.push(job);
                    assert(job_views(jobs@) =~= job_views(before).push(job@));
                    assert(job_views(jobs@) =~= job_views(old(jobs)@) + (seen.filter_map(f) + seq![
                        job@,
                    ]));
                }
            }
            i = i + 1;
        }
        assert(order@.take(i as int) =~= order@);
    }

    /// Draws up what to capture, or nothing at all where the compositor lacks
    /// what a capture takes.
    pub fn plan_jobs(&self) -> (jobs: Option<Vec<Job>>)
        ensures
            match jobs {
                Some(js) => planned_jobs(self@) == Some(job_views(js@)),
                None => planned_jobs(self@) is None,
            },
    {
        if !self.can_capture() {
            return None;
        }
        let mut jobs: Vec<Job> = Vec::new();
        assert(job_views(jobs@) =~= Seq::<JobView>::empty());
        if self.offers_windows() {
            self.push_window_jobs(&mut jobs);
        }
        let ghost windows = job_views(jobs@);
        if self.offers_monitors() {
            self.push_monitor_jobs(&mut jobs);
        }
        proof {
            let none = Seq::<JobView>::empty();
            assert(none + none =~= none);
            assert(windows + none =~= windows);
            assert(none + windows =~= windows);
        }
        assert(planned_jobs(self@)->0 =~= job_views(jobs@));
        Some(jobs)
    }
}

/// A finished thumbnail.
pub struct CapturedThumb {
    pub kind: String,
    pub identifier: String,
    pub caption: String,
    pub app_id: String,
    pub haystack: String,
    pub width: u32,
    pub height: u32,
    pub rgba: Vec<u8>,
}

/// What a `CapturedThumb` holds.
#[verifier::ext_equal]
pub struct ThumbView {
    pub kind: Seq<char>,
    pub identifier: Seq<char>,
    pub caption: Seq<char>,
    pub app_id: Seq<char>,
    pub haystack: Seq<char>,
    pub width: int,
    pub height: int,
    pub rgba: Seq<u8>,
}

impl View for CapturedThumb {
    type V = ThumbView;

    open spec fn view(&self) -> ThumbView {
        ThumbView {
            kind: self.kind@,
            identifier: self.identifier@,
            caption: self.caption@,
            app_id: self.app_id@,
            haystack: self.haystack@,
            width: self.width as int,
            height: self.height as int,
            rgba: self.rgba@,
        }
    }
}

/// What thumbnails hold.
pub open spec fn thumb_views(thumbs: Seq<CapturedThumb>) -> Seq<ThumbView> {
    thumbs.map_values(|t: CapturedThumb| t@)
}

/// What a picture that may be missing holds.
pub open spec fn shot_view(shot: Option<Picture>) -> Option<PictureView> {
    match shot {
        Some(p) => Some(p@),
        None => None,
    }
}

/// The thumbnail of a job, where its capture gave a picture.
pub open spec fn thumb_of(job: JobView, shot: Option<PictureView>) -> Option<ThumbView> {
    match shot {
        Some(p) => Some(
            ThumbView {
                kind: job.kind,
                identifier: job.identifier,
                caption: job.caption,
                app_id: job.app_id,
                haystack: job.haystack,
                width: p.width,
                height: p.height,
                rgba: p.rgba,
            },
        ),
        None => None,
    }
}

/// The thumbnails of jobs and what their captures gave, in the order of the jobs.
pub open spec fn gathered(done: Seq<(JobView, Option<PictureView>)>) -> Seq<ThumbView> {
    done.filter_map(|d: (JobView, Option<PictureView>)| thumb_of(d.0, d.1))
}

impl Job {
    /// The thumbnail of this job, where its capture gave a picture.
    pub fn into_thumb(self, shot: Option<Picture>) -> (thumb: Option<CapturedThumb>)
        ensures
            match thumb {
                Some(t) => thumb_of(self@, shot_view(shot)) == Some(t@),
                None => thumb_of(self@, shot_view(shot)) is None,
            },
    {
        match shot {
            Some(picture) => Some(
                CapturedThumb {
                    kind: self.kind,
                    identifier: self.identifier,
                    caption: self.caption,
                    app_id: self.app_id,
                    haystack: self.haystack,
                    width: picture.width,
                    height: picture.height,
                    rgba: picture.rgba,
                },
            ),
            None => None,
        }
    }
}

/// Adds the thumbnail of a job to those of the jobs before it, where the
/// capture gave a picture.
pub fn gather(thumbs: &mut Vec<CapturedThumb>, job: Job, shot: Option<Picture>)
    ensures
        thumb_views(final(thumbs)@) == match thumb_of(job@, shot_view(shot)) {
            Some(t) => thumb_views(old(thumbs)@).push(t),
            None => thumb_views(old(thumbs)@),
        },
        forall|done: Seq<(JobView, Option<PictureView>)>| #[trigger]
            gathered(done) == thumb_views(old(thumbs)@) ==> gathered(
                done.push((job@, shot_view(shot))),
            ) == thumb_views(final(thumbs)@),
{
    let ghost jv = job@;
    let ghost sv = shot_view(shot);
    if let Some(thumb) = job.into_thumb(shot) {
        thumbs.push(thumb);
        assert(thumb_views(thumbs@) =~= thumb_views(old(thumbs)@).push(thumb@));
    }
    proof {
        assert forall|done: Seq<(JobView, Option<PictureView>)>| #[trigger]
            gathered(done) == thumb_views(old(thumbs)@) implies gathered(done.push((jv, sv)))
            == thumb_views(thumbs@) by {
            assert(done.push((jv, sv)).drop_last() =~= done);
            assert(gathered(done.push((jv, sv))) =~= thumb_views(thumbs@));
        }
    }
}

/// What `filter_map` keeps.
proof fn lemma_filter_map<A, B>(s: Seq<A>, f: spec_fn(A) -> Option<B>)
    ensures
        forall|i: int|
            0 <= i < s.filter_map(f).len() ==> exists|k: int|
                0 <= k < s.len() && f(#[trigger] s[k]) == Some(#[trigger] s.filter_map(f)[i]),
        forall|k: int|
            0 <= k < s.len() && f(#[trigger] s[k]) is Some ==> s.filter_map(f).contains(f(s[k])->0),
        s.filter_map(f).len() <= s.len(),
    decreases s.len(),
{
    if s.len() > 0 {
        let rest = s.drop_last();
        lemma_filter_map(rest, f);
        assert forall|i: int| 0 <= i < s.filter_map(f).len() implies exists|k: int|
            0 <= k < s.len() && f(#[trigger] s[k]) == Some(#[trigger] s.filter_map(f)[i]) by {
            if i < rest.filter_map(f).len() {
                let k = choose|k: int|
                    0 <= k < rest.len() && f(#[trigger] rest[k]) == Some(rest.filter_map(f)[i]);
                assert(s[k] == rest[k]);
            } else {
                assert(s[s.len() - 1] == s.last());
            }
        }
        assert forall|k: int| 0 <= k < s.len() && f(#[trigger] s[k]) is Some implies s.filter_map(
            f,
        ).contains(f(s[k])->0) by {
            if k < rest.len() {
                assert(rest[k] == s[k]);
                let i = choose|i: int|
                    0 <= i < rest.filter_map(f).len() && rest.filter_map(f)[i] == f(s[k])->0;
                assert(s.filter_map(f)[i] == f(s[k])->0);
            } else {
                assert(s.filter_map(f).last() == f(s[k])->0);
            }
        }
    }
}

/// Everything in a plan is there for a reason: an open window with an
/// identifier, or a monitor with a name, as it is known.
pub proof fn plans_hold_only_what_is_listed(d: DesktopView, i: int)
    requires
        d.consistent(),
        planned_jobs(d) is Some,
        0 <= i < planned_jobs(d)->0.len(),
    ensures
        match planned_jobs(d)->0[i].source {
            Source::Toplevel(id) => d.toplevel_src_mgr && d.toplevels.contains_key(id)
                && window_is_listed(d.toplevels[id]) && window_job(id, d.toplevels[id]) == Some(
                planned_jobs(d)->0[i],
            ),
            Source::Output(id) => d.output_src_mgr && d.outputs.contains_key(id)
                && d.outputs[id].name is Some && monitor_job(id, d.outputs[id]) == Some(
                planned_jobs(d)->0[i],
            ),
        },
{
    let f = |id: u64| window_job(id, d.toplevels[id]);
    let g = |id: u64| monitor_job(id, d.outputs[id]);
    lemma_filter_map(d.tl_order, f);
    lemma_filter_map(d.out_order, g);
    let windows = if d.toplevel_src_mgr {
        window_jobs(d.tl_order, d.toplevels)
    } else {
        Seq::empty()
    };
    let job = planned_jobs(d)->0[i];
    if i < windows.len() {
        assert(job == d.tl_order.filter_map(f)[i]);
        let k = choose|k: int|
            0 <= k < d.tl_order.len() && f(#[trigger] d.tl_order[k]) == Some(
                d.tl_order.filter_map(f)[i],
            );
        assert(d.toplevels.contains_key(d.tl_order[k]));
    } else {
        let n = i - windows.len();
        assert(job == d.out_order.filter_map(g)[n]);
        let k = choose|k: int|
            0 <= k < d.out_order.len() && g(#[trigger] d.out_order[k]) == Some(
                d.out_order.filter_map(g)[n],
            );
        assert(d.outputs.contains_key(d.out_order[k]));
    }
}

/// Every open window with an identifier is in the plan, where windows can be
/// captured at all.
pub proof fn listed_windows_are_planned(d: DesktopView, id: u64)
    requires
        d.consistent(),
        d.copy_mgr && d.shm && d.toplevel_src_mgr,
        d.toplevels.contains_key(id),
        window_is_listed(d.toplevels[id]),
    ensures
        planned_jobs(d) is Some,
        planned_jobs(d)->0.contains(window_job(id, d.toplevels[id])->0),
{
    let f = |id: u64| window_job(id, d.toplevels[id]);
    lemma_filter_map(d.tl_order, f);
    assert(d.tl_order.contains(id));
    let k = choose|k: int| 0 <= k < d.tl_order.len() && d.tl_order[k] == id;
    assert(f(d.tl_order[k]) is Some);
    let windows = window_jobs(d.tl_order, d.toplevels);
    let i = choose|i: int| 0 <= i < windows.len() && windows[i] == f(id)->0;
    assert(planned_jobs(d)->0[i] == windows[i]);
}

/// Every monitor with a name is in the plan, where monitors can be captured
/// at all.
pub proof fn named_monitors_are_planned(d: DesktopView, id: u64)
    requires
        d.consistent(),
        d.copy_mgr && d.shm && d.output_src_mgr,
        d.outputs.contains_key(id),
        d.outputs[id].name is Some,
    ensures
        planned_jobs(d) is Some,
        planned_jobs(d)->0.contains(monitor_job(id, d.outputs[id])->0),
{
    let g = |id: u64| monitor_job(id, d.outputs[id]);
    lemma_filter_map(d.out_order, g);
    assert(d.out_order.contains(id));
    let k = choose|k: int| 0 <= k < d.out_order.len() && d.out_order[k] == id;
    assert(g(d.out_order[k]) is Some);
    let windows = if d.toplevel_src_mgr {
        window_jobs(d.tl_order, d.toplevels)
    } else {
        Seq::empty()
    };
    let monitors = monitor_jobs(d.out_order, d.outputs);
    let i = choose|i: int| 0 <= i < monitors.len() && monitors[i] == g(id)->0;
    assert(planned_jobs(d)->0[windows.len() + i] == monitors[i]);
}

/// In a plan every window comes before every monitor.
pub proof fn windows_come_before_monitors(d: DesktopView, i: int, k: int)
    requires
        planned_jobs(d) is Some,
        0 <= i < planned_jobs(d)->0.len(),
        0 <= k < planned_jobs(d)->0.len(),
        planned_jobs(d)->0[i].source is Toplevel,
        planned_jobs(d)->0[k].source is Output,
    ensures
        i < k,
{
    let f = |id: u64| window_job(id, d.toplevels[id]);
    let g = |id: u64| monitor_job(id, d.outputs[id]);
    lemma_filter_map(d.tl_order, f);
    lemma_filter_map(d.out_order, g);
    let windows = if d.toplevel_src_mgr {
        window_jobs(d.tl_order, d.toplevels)
    } else {
        Seq::empty()
    };
    if i >= windows.len() {
        assert(planned_jobs(d)->0[i] == d.out_order.filter_map(g)[i - windows.len()]);
    }
    if k < windows.len() {
        assert(planned_jobs(d)->0[k] == d.tl_order.filter_map(f)[k]);
    }
}

/// A window that was closed is in no plan, whatever else is known of it.
pub proof fn closed_windows_are_not_planned(d: DesktopView, id: u64, i: int)
    requires
        d.consistent(),
        planned_jobs(after_event_of_toplevel(d, id, ToplevelEvent::Closed)) is Some,
        0 <= i < planned_jobs(after_event_of_toplevel(d, id, ToplevelEvent::Closed))->0.len(),
    ensures
        planned_jobs(after_event_of_toplevel(d, id, ToplevelEvent::Closed))->0[i].source
            != Source::Toplevel(id),
{
    let after = after_event_of_toplevel(d, id, ToplevelEvent::Closed);
    assert(after.consistent());
    plans_hold_only_what_is_listed(after, i);
}

/// There are at most as many thumbnails as jobs.
pub proof fn thumbnails_are_no_more_than_jobs(done: Seq<(JobView, Option<PictureView>)>)
    ensures
        gathered(done).len() <= done.len(),
{
    lemma_filter_map(done, |d: (JobView, Option<PictureView>)| thumb_of(d.0, d.1));
}

/// Where the things that `filter_map` keeps come from: places in their order,
/// and every place that gives something is among them.
proof fn lemma_places<A, B>(s: Seq<A>, f: spec_fn(A) -> Option<B>) -> (at: Seq<int>)
    ensures
        at.len() == s.filter_map(f).len(),
        forall|i: int|
            0 <= i < at.len() ==> 0 <= #[trigger] at[i] < s.len() && f(s[at[i]]) == Some(
                s.filter_map(f)[i],
            ),
        forall|i: int, k: int| 0 <= i < k < at.len() ==> at[i] < at[k],
        forall|k: int| 0 <= k < s.len() && f(#[trigger] s[k]) is Some ==> at.contains(k),
    decreases s.len(),
{
    if s.len() == 0 {
        assert(s.filter_map(f) =~= Seq::<B>::empty());
        Seq::empty()
    } else {
        let rest = s.drop_last();
        let n = s.len() - 1;
        let before = lemma_places(rest, f);
        let at = if f(s.last()) is Some {
            before.push(n)
        } else {
            before
        };
        assert forall|i: int| 0 <= i < at.len() implies 0 <= #[trigger] at[i] < s.len() && f(
            s[at[i]],
        ) == Some(s.filter_map(f)[i]) by {
            if i < before.len() {
                assert(at[i] == before[i]);
                assert(rest[before[i]] == s[before[i]]);
            }
        }
        assert forall|k: int| 0 <= k < s.len() && f(#[trigger] s[k]) is Some implies at.contains(
            k,
        ) by {
            if k < n {
                assert(rest[k] == s[k]);
                let i = choose|i: int| 0 <= i < before.len() && before[i] == k;
                assert(at[i] == k);
            } else {
                assert(at[at.len() - 1] == k);
            }
        }
        at
    }
}

/// There is a plan exactly where there are shared memory and the manager that
/// copies into it.
pub proof fn plans_take_memory_and_a_manager(d: DesktopView)
    ensures
        planned_jobs(d) is Some <==> d.shm && d.copy_mgr,
{
}

/// How a planned window is labelled: by its own identifier, by its
/// application, with its title for a caption or what stands in for it, and by
/// title and application, with a space between, for the search.
pub proof fn planned_windows_are_labelled(d: DesktopView, i: int, id: u64, text: Seq<char>)
    requires
        d.consistent(),
        planned_jobs(d) is Some,
        0 <= i < planned_jobs(d)->0.len(),
        planned_jobs(d)->0[i].source == Source::Toplevel(id),
        ({
            let t = d.toplevels[id];
            let title = if t.title is Some { t.title->0 } else { Seq::empty() };
            let app_id = if t.app_id is Some { t.app_id->0 } else { Seq::empty() };
            text == title + seq![' '] + app_id
        }),
    ensures
        ({
            let t = d.toplevels[id];
            let job = planned_jobs(d)->0[i];
            &&& job.kind == seq!['W', 'i', 'n', 'd', 'o', 'w']
            &&& t.identifier == Some(job.identifier)
            &&& job.app_id == if t.app_id is Some { t.app_id->0 } else { Seq::empty() }
            &&& t.title is Some && t.title->0.len() > 0 ==> job.caption == t.title->0
            &&& t.title is None || t.title->0.len() == 0 ==> job.caption == if t.app_id is Some {
                t.app_id->0
            } else {
                "(untitled)"@
            }
            &&& job.haystack == lowercase(text)
        }),
{
    plans_hold_only_what_is_listed(d, i);
    let t = d.toplevels[id];
    reveal_strlit("Window");
    reveal_strlit(" ");
    assert("Window"@ =~= seq!['W', 'i', 'n', 'd', 'o', 'w']);
    assert(" "@ =~= seq![' ']);
    assert(text =~= window_search_text(t.title, t.app_id));
}

/// How a planned monitor is labelled: by its own name, by no application, and
/// with its name and model for a caption, by which it is also searched.
pub proof fn planned_monitors_are_labelled(d: DesktopView, i: int, id: u64)
    requires
        d.consistent(),
        planned_jobs(d) is Some,
        0 <= i < planned_jobs(d)->0.len(),
        planned_jobs(d)->0[i].source == Source::Output(id),
    ensures
        ({
            let o = d.outputs[id];
            let job = planned_jobs(d)->0[i];
            &&& job.kind == seq!['M', 'o', 'n', 'i', 't', 'o', 'r']
            &&& o.name == Some(job.identifier)
            &&& job.app_id.len() == 0
            &&& job.caption == match o.model {
                Some(model) => job.identifier + seq![' ', '\u{2014}', ' '] + model,
                None => job.identifier,
            }
            &&& job.haystack == lowercase(job.caption)
        }),
{
    plans_hold_only_what_is_listed(d, i);
    reveal_strlit("Monitor");
    reveal_strlit(" — ");
    assert("Monitor"@ =~= seq!['M', 'o', 'n', 'i', 't', 'o', 'r']);
    assert(" — "@ =~= seq![' ', '\u{2014}', ' ']);
}

/// A plan goes through the windows and then through the monitors in the order
/// in which they appeared. It takes up every place of the lists at which
/// there is an open window with an identifier, or a monitor with a name, once
/// and no other; `at` tells which place each job is for.
pub proof fn plans_follow_the_lists(d: DesktopView) -> (at: Seq<int>)
    requires
        d.consistent(),
        planned_jobs(d) is Some,
    ensures
        ({
            let jobs = planned_jobs(d)->0;
            &&& at.len() == jobs.len()
            &&& forall|i: int|
                0 <= i < jobs.len() ==> match (#[trigger] jobs[i]).source {
                    Source::Toplevel(id) => 0 <= at[i] < d.tl_order.len() && d.tl_order[at[i]] == id
                        && d.toplevel_src_mgr && !d.toplevels[id].closed
                        && d.toplevels[id].identifier is Some,
                    Source::Output(id) => 0 <= at[i] < d.out_order.len() && d.out_order[at[i]] == id
                        && d.output_src_mgr && d.outputs[id].name is Some,
                }
            &&& forall|i: int, k: int|
                0 <= i < k < jobs.len() ==> match (
                    (#[trigger] jobs[i]).source,
                    (#[trigger] jobs[k]).source,
                ) {
                    (Source::Toplevel(_), Source::Toplevel(_)) => at[i] < at[k],
                    (Source::Output(_), Source::Output(_)) => at[i] < at[k],
                    (Source::Toplevel(_), Source::Output(_)) => true,
                    (Source::Output(_), Source::Toplevel(_)) => false,
                }
            &&& d.toplevel_src_mgr ==> forall|p: int|
                0 <= p < d.tl_order.len() && !d.toplevels[#[trigger] d.tl_order[p]].closed
                    && d.toplevels[d.tl_order[p]].identifier is Some ==> exists|i: int|
                    0 <= i < jobs.len() && (#[trigger] jobs[i]).source is Toplevel && at[i] == p
            &&& d.output_src_mgr ==> forall|p: int|
                0 <= p < d.out_order.len() && d.outputs[#[trigger] d.out_order[p]].name is Some
                    ==> exists|i: int|
                    0 <= i < jobs.len() && (#[trigger] jobs[i]).source is Output && at[i] == p
        }),
{
    let f = |id: u64| window_job(id, d.toplevels[id]);
    let g = |id: u64| monitor_job(id, d.outputs[id]);
    let jobs = planned_jobs(d)->0;
    let windows = if d.toplevel_src_mgr {
        lemma_places(d.tl_order, f)
    } else {
        Seq::empty()
    };
    let monitors = if d.output_src_mgr {
        lemma_places(d.out_order, g)
    } else {
        Seq::empty()
    };
    let at = windows + monitors;
    let n = windows.len() as int;
    assert(at.len() == jobs.len());
    assert forall|i: int| 0 <= i < n implies (#[trigger] jobs[i]).source == Source::Toplevel(
        d.tl_order[at[i]],
    ) && 0 <= at[i] < d.tl_order.len() && at[i] == windows[i] && !d.toplevels[d.tl_order[at[i]]].closed
        && d.toplevels[d.tl_order[at[i]]].identifier is Some by {
        assert(at[i] == windows[i]);
        assert(jobs[i] == d.tl_order.filter_map(f)[i]);
        assert(f(d.tl_order[windows[i]]) == Some(jobs[i]));
    }
    assert forall|i: int| n <= i < jobs.len() implies (#[trigger] jobs[i]).source == Source::Output(
        d.out_order[at[i]],
    ) && 0 <= at[i] < d.out_order.len() && at[i] == monitors[i - n]
        && d.outputs[d.out_order[at[i]]].name is Some by {
        assert(at[i] == monitors[i - n]);
        assert(jobs[i] == d.out_order.filter_map(g)[i - n]);
        assert(g(d.out_order[monitors[i - n]]) == Some(jobs[i]));
    }
    if d.toplevel_src_mgr {
        assert forall|p: int|
            0 <= p < d.tl_order.len() && !d.toplevels[#[trigger] d.tl_order[p]].closed
                && d.toplevels[d.tl_order[p]].identifier is Some implies exists|i: int|
            0 <= i < jobs.len() && (#[trigger] jobs[i]).source is Toplevel && at[i] == p by {
            assert(f(d.tl_order[p]) is Some);
            let i = choose|i: int| 0 <= i < windows.len() && windows[i] == p;
            assert(jobs[i].source is Toplevel);
        }
    }
    if d.output_src_mgr {
        assert forall|p: int|
            0 <= p < d.out_order.len() && d.outputs[#[trigger] d.out_order[p]].name is Some implies exists|
            i: int,
        |
            0 <= i < jobs.len() && (#[trigger] jobs[i]).source is Output && at[i] == p by {
            assert(g(d.out_order[p]) is Some);
            let i = choose|i: int| 0 <= i < monitors.len() && monitors[i] == p;
            assert(jobs[n + i].source is Output);
        }
    }
    at
}

/// A thumbnail is the picture that its capture gave: as wide, as high, and
/// with the same pixel in every column of every row; and it carries the
/// labels of its job. Without a picture there is none.
pub proof fn thumbnails_show_what_was_captured(
    job: JobView,
    p: PictureView,
    x: int,
    y: int,
    c: int,
)
    requires
        p.is_filled(),
        0 <= x < p.width,
        0 <= y < p.height,
        0 <= c < 4,
    ensures
        thumb_of(job, None) is None,
        thumb_of(job, Some(p)) matches Some(t) && {
            &&& t.width == p.width
            &&& t.height == p.height
            &&& t.rgba.len() == p.rgba.len()
            &&& t.rgba[4 * (y * t.width + x) + c] == p.at(x, y, c)
            &&& t.kind == job.kind
            &&& t.identifier == job.identifier
            &&& t.caption == job.caption
            &&& t.app_id == job.app_id
            &&& t.haystack == job.haystack
        },
{
}

/// Every capture that gave a picture gives a thumbnail of just that picture
/// under the labels of its job, no other does, and the thumbnails come in the
/// order of the jobs; `at` tells which capture each of them is of.
pub proof fn thumbnails_follow_the_captures(done: Seq<(JobView, Option<PictureView>)>) -> (at: Seq<
    int,
>)
    ensures
        at.len() == gathered(done).len(),
        forall|i: int|
            0 <= i < at.len() ==> 0 <= at[i] < done.len() && done[at[i]].1 is Some && {
                let t = #[trigger] gathered(done)[i];
                let job = done[at[i]].0;
                let p = done[at[i]].1->0;
                &&& t.width == p.width && t.height == p.height && t.rgba == p.rgba
                &&& t.kind == job.kind && t.identifier == job.identifier
                &&& t.caption == job.caption && t.app_id == job.app_id
                &&& t.haystack == job.haystack
            },
        forall|i: int, k: int| 0 <= i < k < at.len() ==> at[i] < at[k],
        forall|k: int|
            0 <= k < done.len() && (#[trigger] done[k]).1 is Some ==> at.contains(k),
{
    let f = |d: (JobView, Option<PictureView>)| thumb_of(d.0, d.1);
    let at = lemma_places(done, f);
    assert forall|i: int| 0 <= i < at.len() implies 0 <= at[i] < done.len() && done[at[i]].1 is Some
        && {
        let t = #[trigger] gathered(done)[i];
        let job = done[at[i]].0;
        let p = done[at[i]].1->0;
        &&& t.width == p.width && t.height == p.height && t.rgba == p.rgba
        &&& t.kind == job.kind && t.identifier == job.identifier
        &&& t.caption == job.caption && t.app_id == job.app_id
        &&& t.haystack == job.haystack
    } by {
        assert(f(done[at[i]]) == Some(gathered(done)[i]));
    }
    assert forall|k: int| 0 <= k < done.len() && (#[trigger] done[k]).1 is Some implies at.contains(
        k,
    ) by {
        assert(f(done[k]) is Some);
    }
    at
}

} // verus!
