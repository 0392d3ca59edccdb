use book_watch::dispatch::{replay, session, Action, Dispatcher, LoopState, Received, BACKOFF_STEP_MS, MAX_CHANNEL_ERRORS};
use book_watch::event::{classify, normalize, ChangeKind, RawEvent};
use book_watch::target::{join_path, settle, watch_plan, Registration, Registry, WatchTarget};

fn s(x: &str) -> String {
    x.to_string()
}

fn write(p: &str) -> Received {
    Received::Event(RawEvent::Write(s(p)))
}

fn target(path: &str, recursive: bool, required: bool) -> WatchTarget {
    WatchTarget { path: s(path), recursive, required }
}

#[test]
fn join_adds_one_separator() {
    assert_eq!(join_path("docs", "book.toml"), "docs/book.toml");
    assert_eq!(join_path("docs/", "book.toml"), "docs/book.toml");
    assert_eq!(join_path("", "book.json"), "book.json");
}

#[test]
fn plan_without_theme() {
    let plan = watch_plan("docs/src", None, "docs");
    assert_eq!(plan.len(), 3);
    assert_eq!(plan[0].path, "docs/src");
    assert!(plan[0].recursive && plan[0].required);
    assert_eq!(plan[1].path, "docs/book.json");
    assert!(!plan[1].recursive && !plan[1].required);
    assert_eq!(plan[2].path, "docs/book.toml");
    assert!(!plan[2].recursive && !plan[2].required);
}

#[test]
fn plan_with_theme() {
    let plan = watch_plan("b/src", Some("b/theme"), "b");
    assert_eq!(plan.len(), 4);
    assert_eq!(plan[1].path, "b/theme");
    assert!(plan[1].recursive && !plan[1].required);
    assert_eq!(plan[2].path, "b/book.json");
    assert_eq!(plan[3].path, "b/book.toml");
}

#[test]
fn registry_records_each_outcome() {
    let mut r = Registry::new();
    assert!(matches!(r.record(target("a", true, true), true), Registration::Active));
    assert!(matches!(r.record(target("b", false, false), false), Registration::Skipped));
    assert!(matches!(r.record(target("c", true, true), false), Registration::Fatal));
    assert_eq!(r.active.len(), 1);
    assert_eq!(r.active[0].path, "a");
}

#[test]
fn source_refused_is_fatal() {
    let plan = watch_plan("docs/src", Some("docs/theme"), "docs");
    let r = settle(&plan, &vec![false, true, true, true]);
    assert_eq!(r.err(), Some(s("docs/src")));
}

#[test]
fn optional_targets_absent_still_starts() {
    let plan = watch_plan("docs/src", Some("docs/theme"), "docs");
    let active = settle(&plan, &vec![true, false, false, false]).ok().unwrap();
    assert_eq!(active.len(), 1);
    assert_eq!(active[0].path, "docs/src");
}

#[test]
fn scenario_book_toml_only() {
    let plan = watch_plan("docs/src", None, "docs");
    let active = settle(&plan, &vec![true, false, true]).ok().unwrap();
    assert_eq!(active.len(), 2);
    assert_eq!(active[0].path, "docs/src");
    assert_eq!(active[1].path, "docs/book.toml");
    let d = Dispatcher::start();
    assert!(matches!(d.state, LoopState::Listening));
    let calls = replay(vec![write("docs/src/chapter1.md")]);
    assert_eq!(calls, vec![s("docs/src/chapter1.md")]);
}

#[test]
fn normalize_maps_relevant_kinds() {
    let cases = vec![
        (RawEvent::NoticeWrite(s("a")), ChangeKind::Modified),
        (RawEvent::NoticeRemove(s("a")), ChangeKind::Removed),
        (RawEvent::Create(s("a")), ChangeKind::Created),
        (RawEvent::Write(s("a")), ChangeKind::Modified),
        (RawEvent::Remove(s("a")), ChangeKind::Removed),
    ];
    for (e, k) in cases {
        assert_eq!(classify(&e), k);
        let c = normalize(e).unwrap();
        assert_eq!(c.path, "a");
        assert_eq!(c.kind, k);
    }
}

#[test]
fn normalize_drops_other_kinds() {
    assert_eq!(classify(&RawEvent::Chmod(s("a"))), ChangeKind::Ignored);
    assert!(normalize(RawEvent::Chmod(s("a"))).is_none());
    assert!(normalize(RawEvent::Rescan).is_none());
    assert!(normalize(RawEvent::Error(Some(s("a")))).is_none());
    assert!(normalize(RawEvent::Error(None)).is_none());
}

#[test]
fn rename_reports_new_name() {
    let c = normalize(RawEvent::Rename(s("old.md"), s("new.md"))).unwrap();
    assert_eq!(c.path, "new.md");
    assert_eq!(c.kind, ChangeKind::Renamed);
    let calls = replay(vec![Received::Event(RawEvent::Rename(s("old.md"), s("new.md")))]);
    assert_eq!(calls, vec![s("new.md")]);
}

#[test]
fn ignored_kinds_never_call_back() {
    let calls = replay(vec![
        Received::Event(RawEvent::Chmod(s("a"))),
        Received::Event(RawEvent::Rescan),
        Received::ChannelError,
        Received::Event(RawEvent::Error(None)),
    ]);
    assert!(calls.is_empty());
}

#[test]
fn one_call_per_delivered_event() {
    let calls = replay(vec![write("a"), write("a"), Received::Event(RawEvent::Chmod(s("a"))), write("b")]);
    assert_eq!(calls, vec![s("a"), s("a"), s("b")]);
}

#[test]
fn receive_then_callback_done() {
    let mut d = Dispatcher::start();
    match d.receive(write("x.md")) {
        Action::Invoke(c) => assert_eq!(c.path, "x.md"),
        _ => panic!("expected an invocation"),
    }
    assert!(matches!(d.state, LoopState::RunningCallback));
    d.callback_done();
    assert!(matches!(d.state, LoopState::Listening));
    assert!(matches!(d.receive(Received::Event(RawEvent::Rescan)), Action::Ignore));
    assert!(matches!(d.state, LoopState::Listening));
}

#[test]
fn channel_errors_back_off_then_give_up() {
    let mut d = Dispatcher::start();
    for n in 1..MAX_CHANNEL_ERRORS {
        match d.receive(Received::ChannelError) {
            Action::Retry(ms) => assert_eq!(ms, BACKOFF_STEP_MS * n),
            _ => panic!("expected a retry"),
        }
    }
    assert!(matches!(d.receive(Received::ChannelError), Action::GiveUp));
    assert_eq!(MAX_CHANNEL_ERRORS, 5);
    assert_eq!(BACKOFF_STEP_MS, 200);
}

#[test]
fn event_resets_error_count() {
    let mut d = Dispatcher::start();
    assert!(matches!(d.receive(Received::ChannelError), Action::Retry(200)));
    assert!(matches!(d.receive(Received::ChannelError), Action::Retry(400)));
    assert!(matches!(d.receive(Received::Event(RawEvent::Chmod(s("a")))), Action::Ignore));
    assert_eq!(d.errors_in_row, 0);
    assert!(matches!(d.receive(Received::ChannelError), Action::Retry(200)));
}

#[test]
fn replay_stops_after_too_many_errors() {
    let mut msgs = vec![write("a")];
    for _ in 0..MAX_CHANNEL_ERRORS {
        msgs.push(Received::ChannelError);
    }
    msgs.push(write("b"));
    assert_eq!(replay(msgs), vec![s("a")]);
    let mut msgs = vec![];
    for _ in 1..MAX_CHANNEL_ERRORS {
        msgs.push(Received::ChannelError);
    }
    msgs.push(write("b"));
    assert_eq!(replay(msgs), vec![s("b")]);
}

#[test]
fn session_stops_when_source_is_refused() {
    let plan = watch_plan("docs/src", None, "docs");
    let r = session(&plan, &vec![false, true, true], vec![write("docs/src/chapter1.md")]);
    assert_eq!(r.err(), Some(s("docs/src")));
}

#[test]
fn session_scenario_single_write() {
    let plan = watch_plan("docs/src", None, "docs");
    let (active, calls) = session(&plan, &vec![true, false, true], vec![write("docs/src/chapter1.md")]).ok().unwrap();
    let paths: Vec<String> = active.iter().map(|t| t.path.clone()).collect();
    assert_eq!(paths, vec![s("docs/src"), s("docs/book.toml")]);
    assert_eq!(calls, vec![s("docs/src/chapter1.md")]);
}
