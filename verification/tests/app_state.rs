use handlr_gui::app_state::{run_all, AppState, RunStep};
use handlr_gui::handlr::{App, State};
use handlr_gui::undo::{add_handler, set_category_default, HandlrCmd, UndoEntry, UNDO_BOUND};
use std::cell::RefCell;

fn state(defaults: &[(&str, &[&str])]) -> State {
    State {
        defaults: defaults
            .iter()
            .map(|(m, hs)| (m.to_string(), hs.iter().map(|h| h.to_string()).collect()))
            .collect(),
        system_apps: vec![App { desktop: "mpv.desktop".into(), name: "Mpv".into() }],
    }
}

fn fresh() -> AppState {
    AppState::load(Ok(state(&[("video/*", &["vlc.desktop"])]))).unwrap()
}

fn entry(label: &str) -> UndoEntry {
    UndoEntry {
        label: label.into(),
        forward: vec![HandlrCmd::Unset { mime: "a/b".into() }],
        inverse: vec![HandlrCmd::Unset { mime: "a/b".into() }],
    }
}

#[test]
fn load_passes_listing_error_on() {
    assert_eq!(AppState::load(Err("handlr list failed: x".into())).err(), Some("handlr list failed: x".to_string()));
    let a = fresh();
    assert!(!a.can_undo());
    assert!(!a.can_redo());
    assert_eq!(a.undo_label(), None);
    assert_eq!(a.state().defaults.len(), 1);
}

#[test]
fn apply_success_records_action_and_takes_new_state() {
    let mut a = fresh();
    let e = set_category_default("video/*", "mpv.desktop", &["vlc.desktop".to_string()]);
    let r = a.apply(e, Ok(()), Ok(state(&[("video/*", &["mpv.desktop"])])));
    assert_eq!(r, Ok(()));
    assert!(a.can_undo());
    assert_eq!(a.undo_label(), Some("change video/* default to mpv.desktop"));
    assert_eq!(a.state().defaults[0].1, vec!["mpv.desktop".to_string()]);
    assert_eq!(a.undo_tooltip(), "Undo: change video/* default to mpv.desktop");
    assert_eq!(a.redo_tooltip(), "Redo");
}

#[test]
fn apply_without_forward_commands_changes_nothing() {
    let mut a = fresh();
    let e = UndoEntry { label: "noop".into(), forward: vec![], inverse: vec![] };
    assert_eq!(a.apply(e, Err("not run".into()), Err("not run".into())), Ok(()));
    assert!(!a.can_undo());
}

#[test]
fn apply_failure_keeps_histories_but_takes_reread_state() {
    let mut a = fresh();
    let r = a.apply(entry("x"), Err("handlr set failed: boom".into()), Ok(state(&[])));
    assert_eq!(r, Err("handlr set failed: boom".to_string()));
    assert!(!a.can_undo());
    assert!(a.state().defaults.is_empty());
}

#[test]
fn apply_with_failed_reread_still_records() {
    let mut a = fresh();
    let r = a.apply(entry("x"), Ok(()), Err("handlr list failed: y".into()));
    assert_eq!(r, Err("handlr list failed: y".to_string()));
    assert_eq!(a.undo_label(), Some("x"));
    assert_eq!(a.state().defaults.len(), 1);
}

#[test]
fn undo_then_redo_moves_the_entry_between_histories() {
    let mut a = fresh();
    a.apply(entry("first"), Ok(()), Ok(state(&[]))).unwrap();
    assert_eq!(a.undo(Ok(()), Ok(state(&[("a/b", &["z.desktop"])]))), Ok(Some("first".to_string())));
    assert!(!a.can_undo());
    assert_eq!(a.redo_label(), Some("first"));
    assert_eq!(a.redo_tooltip(), "Redo: first");
    assert_eq!(a.redo(Ok(()), Ok(state(&[]))), Ok(Some("first".to_string())));
    assert_eq!(a.undo_label(), Some("first"));
    assert!(!a.can_redo());
}

#[test]
fn undo_and_redo_on_empty_history_do_nothing() {
    let mut a = fresh();
    assert_eq!(a.undo(Err("x".into()), Err("y".into())), Ok(None));
    assert_eq!(a.redo(Err("x".into()), Err("y".into())), Ok(None));
    assert_eq!(a.state().defaults.len(), 1);
}

#[test]
fn failed_undo_keeps_entry_on_undo_history() {
    let mut a = fresh();
    a.apply(entry("first"), Ok(()), Ok(state(&[]))).unwrap();
    assert_eq!(a.undo(Err("boom".into()), Ok(state(&[]))), Err("boom".to_string()));
    assert_eq!(a.undo_label(), Some("first"));
    assert!(!a.can_redo());
}

#[test]
fn new_action_clears_redo_history() {
    let mut a = fresh();
    a.apply(entry("first"), Ok(()), Ok(state(&[]))).unwrap();
    a.undo(Ok(()), Ok(state(&[]))).unwrap();
    assert!(a.can_redo());
    a.apply(entry("second"), Ok(()), Ok(state(&[]))).unwrap();
    assert!(!a.can_redo());
    assert_eq!(a.undo_label(), Some("second"));
}

#[test]
fn undo_history_is_bounded() {
    let mut a = fresh();
    for i in 0..UNDO_BOUND + 5 {
        a.apply(entry(&format!("e{i}")), Ok(()), Ok(state(&[]))).unwrap();
    }
    let mut n = 0;
    while a.can_undo() {
        a.undo(Ok(()), Ok(state(&[]))).unwrap();
        n += 1;
    }
    assert_eq!(n, UNDO_BOUND);
    assert_eq!(a.redo_label(), Some("e5"));
}

#[test]
fn pending_exception_added_once() {
    let mut a = fresh();
    a.add_pending_exception("video/mp4".into());
    a.add_pending_exception("video/mp4".into());
    a.add_pending_exception("video/*".into());
    let mimes: Vec<&str> = a.state().defaults.iter().map(|(m, _)| m.as_str()).collect();
    assert_eq!(mimes, vec!["video/*", "video/mp4"]);
    assert!(a.state().defaults[1].1.is_empty());
}

#[test]
fn set_state_keeps_histories() {
    let mut a = fresh();
    a.apply(add_handler("video/*", "mpv.desktop"), Ok(()), Ok(state(&[]))).unwrap();
    a.set_state(state(&[("x/y", &[])]));
    assert_eq!(a.state().defaults[0].0, "x/y");
    assert_eq!(a.undo_label(), Some("add handler video/* += mpv.desktop"));
}

/// Drives `run_all` the way the program does, with `run` standing for `handlr`.
fn drive(cmds: &[HandlrCmd], run: impl Fn(&HandlrCmd) -> Result<(), String>) -> Result<(), String> {
    let mut ran = 0;
    let mut last = Ok(());
    loop {
        match run_all(cmds, ran, last) {
            RunStep::Run(i) => {
                last = run(&cmds[i]);
                ran = i + 1;
            }
            RunStep::Finish(outcome) => return outcome,
        }
    }
}

#[test]
fn run_all_stops_at_first_failure() {
    let cmds = vec![
        HandlrCmd::Unset { mime: "a/1".into() },
        HandlrCmd::Unset { mime: "a/2".into() },
        HandlrCmd::Unset { mime: "a/3".into() },
    ];
    let seen = RefCell::new(Vec::new());
    let r = drive(&cmds, |c: &HandlrCmd| {
        let HandlrCmd::Unset { mime } = c else { return Ok(()) };
        seen.borrow_mut().push(mime.clone());
        if mime == "a/2" { Err(format!("failed on {mime}")) } else { Ok(()) }
    });
    assert_eq!(r, Err("failed on a/2".to_string()));
    assert_eq!(*seen.borrow(), vec!["a/1".to_string(), "a/2".to_string()]);
}

#[test]
fn run_all_runs_everything_on_success() {
    let cmds = vec![HandlrCmd::Unset { mime: "a/1".into() }, HandlrCmd::Unset { mime: "a/2".into() }];
    let count = RefCell::new(0);
    assert_eq!(drive(&cmds, |_c: &HandlrCmd| { *count.borrow_mut() += 1; Ok(()) }), Ok(()));
    assert_eq!(*count.borrow(), 2);
    assert_eq!(drive(&[], |_c: &HandlrCmd| Err("never".to_string())), Ok(()));
}

#[test]
fn run_all_single_steps() {
    let cmds = vec![HandlrCmd::Unset { mime: "a/1".into() }, HandlrCmd::Unset { mime: "a/2".into() }];
    assert!(matches!(run_all(&cmds, 0, Ok(())), RunStep::Run(0)));
    assert!(matches!(run_all(&cmds, 1, Ok(())), RunStep::Run(1)));
    assert!(matches!(run_all(&cmds, 2, Ok(())), RunStep::Finish(Ok(()))));
    match run_all(&cmds, 1, Err("boom".to_string())) {
        RunStep::Finish(Err(e)) => assert_eq!(e, "boom"),
        _ => panic!("a failure must finish the run"),
    }
}
