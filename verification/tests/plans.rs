use snib_capture::desktop::{Desktop, OutputEvent, OutputInfo, ToplevelEvent, ToplevelInfo};
use snib_capture::globals::Global;
use snib_capture::jobs::{gather, CapturedThumb, Job, Source};
use snib_capture::picture::Picture;

fn identified(desktop: &mut Desktop, id: u64, identifier: &str) {
    desktop.toplevel_appeared(id);
    desktop.toplevel_event(id, ToplevelEvent::Identifier { identifier: identifier.to_string() });
}

fn named(desktop: &mut Desktop, id: u64, name: &str) {
    desktop.bound(Global::Output, id);
    desktop.output_event(id, OutputEvent::Name { name: name.to_string() });
}

fn ready() -> Desktop {
    let mut desktop = Desktop::default();
    for g in [
        Global::ToplevelList,
        Global::Shm,
        Global::CopyManager,
        Global::OutputSources,
        Global::ToplevelSources,
    ] {
        desktop.bound(g, 0);
    }
    desktop
}

fn sources(desktop: &Desktop) -> Vec<Source> {
    desktop.plan_jobs().unwrap().iter().map(|j| j.source).collect()
}

fn geometry(desktop: &mut Desktop, id: u64, model: &str) {
    desktop.output_event(id, OutputEvent::Geometry { model: model.to_string() });
}

#[test]
fn nothing_is_planned_without_what_it_takes() {
    assert!(Desktop::default().plan_jobs().is_none());
    let mut shm_only = Desktop::default();
    shm_only.bound(Global::Shm, 0);
    assert!(shm_only.plan_jobs().is_none());
    let mut manager_only = Desktop::default();
    manager_only.bound(Global::CopyManager, 0);
    assert!(manager_only.plan_jobs().is_none());
    shm_only.bound(Global::CopyManager, 0);
    assert!(shm_only.plan_jobs().unwrap().is_empty());
}

#[test]
fn windows_come_first_and_in_order() {
    let mut desktop = ready();
    named(&mut desktop, 70, "DP-1");
    identified(&mut desktop, 9, "a");
    identified(&mut desktop, 3, "b");
    named(&mut desktop, 7, "DP-2");
    assert_eq!(
        sources(&desktop),
        vec![Source::Toplevel(9), Source::Toplevel(3), Source::Output(70), Source::Output(7)]
    );
}

#[test]
fn only_offered_sources_are_planned() {
    let mut desktop = Desktop::default();
    desktop.bound(Global::Shm, 0);
    desktop.bound(Global::CopyManager, 0);
    identified(&mut desktop, 1, "a");
    named(&mut desktop, 2, "DP-1");
    assert_eq!(sources(&desktop), vec![]);
    desktop.bound(Global::ToplevelSources, 0);
    assert_eq!(sources(&desktop), vec![Source::Toplevel(1)]);
    desktop.bound(Global::OutputSources, 0);
    assert_eq!(sources(&desktop), vec![Source::Toplevel(1), Source::Output(2)]);
}

#[test]
fn closed_and_nameless_windows_are_left_out() {
    let mut desktop = ready();
    identified(&mut desktop, 1, "a");
    desktop.toplevel_appeared(2);
    identified(&mut desktop, 3, "c");
    desktop.bound(Global::Output, 4);
    desktop.toplevel_event(1, ToplevelEvent::Closed);
    desktop.toplevel_event(1, ToplevelEvent::Title { title: "back?".to_string() });
    assert_eq!(sources(&desktop), vec![Source::Toplevel(3)]);
}

#[test]
fn events_of_strangers_are_ignored() {
    let mut desktop = ready();
    desktop.toplevel_event(5, ToplevelEvent::Closed);
    desktop.output_event(5, OutputEvent::Name { name: "x".to_string() });
    desktop.output_event(5, OutputEvent::Other);
    assert!(desktop.windows().is_empty() && desktop.monitors().is_empty());
    assert!(desktop.window(5).is_none() && desktop.monitor(5).is_none());
    assert_eq!(sources(&desktop), vec![]);
}

#[test]
fn what_is_listed_is_known() {
    let mut desktop = Desktop::default();
    assert!(!desktop.can_capture() && !desktop.offers_windows() && !desktop.offers_monitors());
    desktop.bound(Global::Shm, 0);
    assert!(!desktop.can_capture());
    desktop.bound(Global::CopyManager, 0);
    assert!(desktop.can_capture());
    desktop.bound(Global::ToplevelSources, 0);
    assert!(desktop.offers_windows() && !desktop.offers_monitors());
    desktop.bound(Global::OutputSources, 0);
    assert!(desktop.offers_monitors());
    identified(&mut desktop, 9, "nine");
    desktop.toplevel_appeared(4);
    named(&mut desktop, 6, "DP-1");
    assert_eq!(desktop.windows(), &vec![9, 4]);
    assert_eq!(desktop.monitors(), &vec![6]);
    assert_eq!(desktop.window(9).unwrap().identifier.as_deref(), Some("nine"));
    assert!(desktop.window(4).unwrap().identifier.is_none());
    assert!(desktop.window(6).is_none());
    assert_eq!(desktop.monitor(6).unwrap().name.as_deref(), Some("DP-1"));
    assert!(desktop.monitor(9).is_none());
}

#[test]
fn a_window_that_reappears_starts_anew() {
    let mut desktop = ready();
    identified(&mut desktop, 1, "a");
    desktop.toplevel_appeared(1);
    assert_eq!(sources(&desktop), vec![]);
    desktop.toplevel_event(1, ToplevelEvent::Identifier { identifier: "b".to_string() });
    assert_eq!(sources(&desktop), vec![Source::Toplevel(1), Source::Toplevel(1)]);
}

#[test]
fn window_jobs_are_labelled() {
    let mut desktop = ready();
    identified(&mut desktop, 1, "id-1");
    desktop.toplevel_event(1, ToplevelEvent::Title { title: "ÄRGER Inbox".to_string() });
    desktop.toplevel_event(1, ToplevelEvent::AppId { app_id: "Org.Mail".to_string() });
    desktop.toplevel_event(1, ToplevelEvent::Other);
    identified(&mut desktop, 2, "id-2");
    let jobs = desktop.plan_jobs().unwrap();
    assert_eq!(jobs[0].kind, "Window");
    assert_eq!(jobs[0].identifier, "id-1");
    assert_eq!(jobs[0].app_id, "Org.Mail");
    assert_eq!(jobs[0].caption, "ÄRGER Inbox");
    assert_eq!(jobs[0].haystack, "ärger inbox org.mail");
    assert_eq!(jobs[1].app_id, "");
    assert_eq!(jobs[1].caption, "(untitled)");
    assert_eq!(jobs[1].haystack, " ");
}

#[test]
fn monitor_jobs_are_labelled() {
    let mut desktop = ready();
    named(&mut desktop, 1, "DP-1");
    geometry(&mut desktop, 1, " U2720Q\t");
    named(&mut desktop, 2, "HDMI-A-1");
    geometry(&mut desktop, 2, "  Unknown ");
    let jobs = desktop.plan_jobs().unwrap();
    assert_eq!(jobs[0].kind, "Monitor");
    assert_eq!(jobs[0].identifier, "DP-1");
    assert_eq!(jobs[0].app_id, "");
    assert_eq!(jobs[0].caption, "DP-1 — U2720Q");
    assert_eq!(jobs[0].haystack, "dp-1 — u2720q");
    assert_eq!(jobs[1].caption, "HDMI-A-1");
    assert_eq!(jobs[1].haystack, "hdmi-a-1");
}

#[test]
fn a_model_that_says_nothing_changes_nothing() {
    let mut info = OutputInfo::new();
    info.event(OutputEvent::Geometry { model: "X".to_string() });
    info.event(OutputEvent::Geometry { model: " unknown".to_string() });
    info.event(OutputEvent::Geometry { model: "   ".to_string() });
    assert_eq!(info.model, Some("X".to_string()));
    info.told_model("Y");
    info.told_model("");
    assert_eq!(info.model, Some("Y".to_string()));
    assert!(info.job(3).is_none());
}

#[test]
fn entries_take_their_search_text() {
    let mut info = ToplevelInfo::new();
    assert!(info.entry(1, "h".to_string()).is_none());
    info.event(ToplevelEvent::Identifier { identifier: "i".to_string() });
    let job = info.entry(1, "H".to_string()).unwrap();
    assert_eq!(job.haystack, "H");
    assert_eq!(info.job(1).unwrap().haystack, " ");
    info.event(ToplevelEvent::Closed);
    assert!(info.entry(1, "h".to_string()).is_none());
    assert!(info.job(1).is_none());
    let mut monitor = OutputInfo::new();
    assert!(monitor.entry(2, "h".to_string()).is_none());
    monitor.event(OutputEvent::Name { name: "N".to_string() });
    assert_eq!(monitor.entry(2, "H".to_string()).unwrap().haystack, "H");
}

#[test]
fn events_of_different_windows_come_in_any_order() {
    let mut one = ready();
    let mut two = ready();
    for d in [&mut one, &mut two] {
        identified(d, 1, "a");
        identified(d, 2, "b");
    }
    one.toplevel_event(1, ToplevelEvent::Closed);
    one.toplevel_event(2, ToplevelEvent::Title { title: "t".to_string() });
    two.toplevel_event(2, ToplevelEvent::Title { title: "t".to_string() });
    two.toplevel_event(1, ToplevelEvent::Closed);
    assert_eq!(sources(&one), sources(&two));
    assert_eq!(one.plan_jobs().unwrap()[0].caption, two.plan_jobs().unwrap()[0].caption);
}

fn job(name: &str) -> Job {
    Job {
        kind: "Window".to_string(),
        identifier: name.to_string(),
        app_id: "app".to_string(),
        caption: "cap".to_string(),
        haystack: "hay".to_string(),
        source: Source::Toplevel(1),
    }
}

#[test]
fn thumbnails_are_gathered_in_order() {
    let mut thumbs: Vec<CapturedThumb> = Vec::new();
    let shot = |n: u8| Some(Picture { width: 1, height: 1, rgba: vec![n; 4] });
    gather(&mut thumbs, job("a"), shot(1));
    gather(&mut thumbs, job("b"), None);
    gather(&mut thumbs, job("c"), shot(3));
    assert_eq!(thumbs.len(), 2);
    assert_eq!(thumbs[0].identifier, "a");
    assert_eq!(thumbs[1].identifier, "c");
    assert_eq!(thumbs[1].rgba, vec![3; 4]);
    assert_eq!(thumbs[0].kind, "Window");
    assert_eq!(thumbs[0].app_id, "app");
    assert_eq!(thumbs[0].caption, "cap");
    assert_eq!(thumbs[0].haystack, "hay");
    assert_eq!((thumbs[0].width, thumbs[0].height), (1, 1));
}
