use handlr_gui::undo::{
    add_exception, add_handler, clear_category_default, inverse_for_set, move_handler_up,
    order_cmds, push_bounded, remove_exception, remove_handler, set_category_default, HandlrCmd,
    UndoEntry, UNDO_BOUND,
};
use std::collections::VecDeque;

fn set(mime: &str, desktop: &str) -> HandlrCmd {
    HandlrCmd::Assign { mime: mime.into(), desktop: desktop.into() }
}

fn add(mime: &str, desktop: &str) -> HandlrCmd {
    HandlrCmd::Add { mime: mime.into(), desktop: desktop.into() }
}

fn remove(mime: &str, desktop: &str) -> HandlrCmd {
    HandlrCmd::Remove { mime: mime.into(), desktop: desktop.into() }
}

fn unset(mime: &str) -> HandlrCmd {
    HandlrCmd::Unset { mime: mime.into() }
}

fn strings(v: &[&str]) -> Vec<String> {
    v.iter().map(|s| s.to_string()).collect()
}

#[test]
fn set_category_default_empty_prior() {
    let e = set_category_default("video/*", "mpv.desktop", &[]);
    assert_eq!(
        e.forward,
        vec![HandlrCmd::Assign {
            mime: "video/*".into(),
            desktop: "mpv.desktop".into()
        }]
    );
    assert_eq!(
        e.inverse,
        vec![HandlrCmd::Unset {
            mime: "video/*".into()
        }]
    );
}

#[test]
fn set_category_default_with_prior() {
    let prior = vec!["vlc.desktop".to_string()];
    let e = set_category_default("video/*", "mpv.desktop", &prior);
    assert_eq!(
        e.forward,
        vec![HandlrCmd::Assign {
            mime: "video/*".into(),
            desktop: "mpv.desktop".into()
        }]
    );
    assert_eq!(
        e.inverse,
        vec![HandlrCmd::Assign {
            mime: "video/*".into(),
            desktop: "vlc.desktop".into()
        }]
    );
}

#[test]
fn clear_category_default_no_prior() {
    let e = clear_category_default("video/*", &[]);
    assert_eq!(
        e.forward,
        vec![HandlrCmd::Unset {
            mime: "video/*".into()
        }]
    );
    assert_eq!(
        e.inverse,
        vec![HandlrCmd::Unset {
            mime: "video/*".into()
        }]
    );
}

#[test]
fn clear_with_multiple_handlers_promotes_alternative() {
    let prior = vec!["mpv.desktop".to_string(), "vlc.desktop".to_string()];
    let e = clear_category_default("video/*", &prior);
    assert_eq!(
        e.forward,
        vec![HandlrCmd::Remove {
            mime: "video/*".into(),
            desktop: "mpv.desktop".into()
        }]
    );
    assert_eq!(
        e.inverse,
        vec![
            HandlrCmd::Assign {
                mime: "video/*".into(),
                desktop: "mpv.desktop".into()
            },
            HandlrCmd::Add {
                mime: "video/*".into(),
                desktop: "vlc.desktop".into()
            },
        ]
    );
}

#[test]
fn add_exception_pair() {
    let e = add_exception("video/mp4", "vlc.desktop", &[]);
    assert_eq!(
        e.forward,
        vec![HandlrCmd::Assign {
            mime: "video/mp4".into(),
            desktop: "vlc.desktop".into()
        }]
    );
    assert_eq!(
        e.inverse,
        vec![HandlrCmd::Unset {
            mime: "video/mp4".into()
        }]
    );
}

#[test]
fn add_exception_with_prior_restores_full_list() {
    let prior = vec!["vlc.desktop".to_string(), "mpv.desktop".to_string()];
    let e = add_exception("video/mp4", "totem.desktop", &prior);
    assert_eq!(
        e.forward,
        vec![HandlrCmd::Assign {
            mime: "video/mp4".into(),
            desktop: "totem.desktop".into()
        }]
    );
    assert_eq!(
        e.inverse,
        vec![
            HandlrCmd::Assign {
                mime: "video/mp4".into(),
                desktop: "vlc.desktop".into()
            },
            HandlrCmd::Add {
                mime: "video/mp4".into(),
                desktop: "mpv.desktop".into()
            },
        ]
    );
}

#[test]
fn remove_exception_pair() {
    let prior = vec!["vlc.desktop".to_string()];
    let e = remove_exception("video/mp4", &prior);
    assert_eq!(
        e.forward,
        vec![HandlrCmd::Unset {
            mime: "video/mp4".into()
        }]
    );
    assert_eq!(
        e.inverse,
        vec![HandlrCmd::Assign {
            mime: "video/mp4".into(),
            desktop: "vlc.desktop".into()
        }]
    );
}

#[test]
fn remove_exception_with_multiple_handlers_chains_inverse() {
    let prior = vec!["vlc.desktop".to_string(), "mpv.desktop".to_string()];
    let e = remove_exception("video/mp4", &prior);
    assert_eq!(
        e.forward,
        vec![HandlrCmd::Unset {
            mime: "video/mp4".into()
        }]
    );
    assert_eq!(
        e.inverse,
        vec![
            HandlrCmd::Assign {
                mime: "video/mp4".into(),
                desktop: "vlc.desktop".into()
            },
            HandlrCmd::Add {
                mime: "video/mp4".into(),
                desktop: "mpv.desktop".into()
            },
        ]
    );
}

#[test]
fn add_handler_pair() {
    let e = add_handler("video/*", "vlc.desktop");
    assert_eq!(
        e.forward,
        vec![HandlrCmd::Add {
            mime: "video/*".into(),
            desktop: "vlc.desktop".into()
        }]
    );
    assert_eq!(
        e.inverse,
        vec![HandlrCmd::Remove {
            mime: "video/*".into(),
            desktop: "vlc.desktop".into()
        }]
    );
}

#[test]
fn remove_handler_pair() {
    let e = remove_handler("video/*", "vlc.desktop");
    assert_eq!(
        e.forward,
        vec![HandlrCmd::Remove {
            mime: "video/*".into(),
            desktop: "vlc.desktop".into()
        }]
    );
    assert_eq!(
        e.inverse,
        vec![HandlrCmd::Add {
            mime: "video/*".into(),
            desktop: "vlc.desktop".into()
        }]
    );
}

#[test]
fn push_bounded_drops_oldest() {
    let mut stack = VecDeque::new();
    for i in 0..=UNDO_BOUND {
        push_bounded(
            &mut stack,
            UndoEntry {
                label: format!("e{}", i),
                forward: vec![],
                inverse: vec![],
            },
        );
    }
    assert_eq!(stack.len(), UNDO_BOUND);
    assert_eq!(stack.front().unwrap().label, "e1");
    assert_eq!(stack.back().unwrap().label, format!("e{}", UNDO_BOUND));
}

// ---- labels -------------------------------------------------------------------------

#[test]
fn labels_name_the_action() {
    assert_eq!(set_category_default("video/*", "mpv.desktop", &[]).label, "set video/* to mpv.desktop");
    assert_eq!(
        set_category_default("video/*", "mpv.desktop", &strings(&["vlc.desktop"])).label,
        "change video/* default to mpv.desktop"
    );
    assert_eq!(clear_category_default("video/*", &[]).label, "clear video/* default");
}

#[test]
fn clear_single_handler_unsets_and_restores_it() {
    let e = clear_category_default("video/*", &strings(&["mpv.desktop"]));
    assert_eq!(e.forward, vec![unset("video/*")]);
    assert_eq!(e.inverse, vec![set("video/*", "mpv.desktop")]);
}

#[test]
fn remove_exception_without_prior_has_no_inverse_set() {
    let e = remove_exception("video/mp4", &[]);
    assert_eq!(e.forward, vec![unset("video/mp4")]);
    assert_eq!(e.inverse, vec![unset("video/mp4")]);
}

// ---- reorders -----------------------------------------------------------------------

#[test]
fn order_cmds_sets_first_and_adds_rest() {
    let cmds = order_cmds("text/plain", &strings(&["a.desktop", "b.desktop", "c.desktop"]));
    assert_eq!(
        cmds,
        vec![set("text/plain", "a.desktop"), add("text/plain", "b.desktop"), add("text/plain", "c.desktop")]
    );
    assert_eq!(order_cmds("text/plain", &[]), vec![unset("text/plain")]);
}

#[test]
fn inverse_for_set_restores_prior_list() {
    assert_eq!(inverse_for_set("image/*", &[]), vec![unset("image/*")]);
    assert_eq!(
        inverse_for_set("image/*", &strings(&["eog.desktop", "gimp.desktop"])),
        vec![set("image/*", "eog.desktop"), add("image/*", "gimp.desktop")]
    );
}

#[test]
fn move_handler_up_swaps_with_previous() {
    let hs = strings(&["a.desktop", "b.desktop", "c.desktop"]);
    let e = move_handler_up("video/*", &hs, 2).unwrap();
    assert_eq!(e.label, "promote c.desktop in video/*");
    assert_eq!(
        e.forward,
        vec![set("video/*", "a.desktop"), add("video/*", "c.desktop"), add("video/*", "b.desktop")]
    );
    assert_eq!(
        e.inverse,
        vec![set("video/*", "a.desktop"), add("video/*", "b.desktop"), add("video/*", "c.desktop")]
    );
}

#[test]
fn move_handler_up_refuses_top_and_out_of_range() {
    let hs = strings(&["a.desktop", "b.desktop"]);
    assert!(move_handler_up("video/*", &hs, 0).is_none());
    assert!(move_handler_up("video/*", &hs, 2).is_none());
    assert!(move_handler_up("video/*", &[], 0).is_none());
}

#[test]
fn push_bounded_keeps_all_below_bound() {
    let mut stack = VecDeque::new();
    for i in 0..3 {
        push_bounded(&mut stack, UndoEntry { label: format!("e{}", i), forward: vec![], inverse: vec![] });
    }
    let labels: Vec<&str> = stack.iter().map(|e| e.label.as_str()).collect();
    assert_eq!(labels, vec!["e0", "e1", "e2"]);
}

// ---- what running a pair does to a table of associations ------------------------------

type Table = Vec<(String, Vec<String>)>;

fn run(table: &mut Table, cmds: &[HandlrCmd]) {
    for c in cmds {
        match c {
            HandlrCmd::Assign { mime, desktop } => {
                table.retain(|(m, _)| m != mime);
                table.push((mime.clone(), vec![desktop.clone()]));
            }
            HandlrCmd::Add { mime, desktop } => match table.iter_mut().find(|(m, _)| m == mime) {
                Some((_, hs)) => hs.push(desktop.clone()),
                None => table.push((mime.clone(), vec![desktop.clone()])),
            },
            HandlrCmd::Remove { mime, desktop } => {
                if let Some((_, hs)) = table.iter_mut().find(|(m, _)| m == mime) {
                    hs.retain(|d| d != desktop);
                }
                table.retain(|(_, hs)| !hs.is_empty());
            }
            HandlrCmd::Unset { mime } => table.retain(|(m, _)| m != mime),
        }
    }
}

fn list(table: &Table, mime: &str) -> Vec<String> {
    table.iter().find(|(m, _)| m == mime).map(|(_, h)| h.clone()).unwrap_or_default()
}

#[test]
fn undo_after_set_restores_prior_list() {
    let mut t: Table = vec![("video/*".into(), strings(&["vlc.desktop", "totem.desktop"]))];
    let e = set_category_default("video/*", "mpv.desktop", &list(&t, "video/*"));
    run(&mut t, &e.forward);
    assert_eq!(list(&t, "video/*"), strings(&["mpv.desktop"]));
    run(&mut t, &e.inverse);
    assert_eq!(list(&t, "video/*"), strings(&["vlc.desktop", "totem.desktop"]));
    run(&mut t, &e.forward);
    assert_eq!(list(&t, "video/*"), strings(&["mpv.desktop"]));
}

#[test]
fn undo_after_promote_restores_order() {
    let mut t: Table = vec![("video/*".into(), strings(&["a.desktop", "b.desktop", "c.desktop"]))];
    let e = move_handler_up("video/*", &list(&t, "video/*"), 1).unwrap();
    run(&mut t, &e.forward);
    assert_eq!(list(&t, "video/*"), strings(&["b.desktop", "a.desktop", "c.desktop"]));
    run(&mut t, &e.inverse);
    assert_eq!(list(&t, "video/*"), strings(&["a.desktop", "b.desktop", "c.desktop"]));
}

#[test]
fn undo_after_add_handler_restores_list() {
    let mut t: Table = vec![("video/*".into(), strings(&["mpv.desktop"]))];
    let e = add_handler("video/*", "vlc.desktop");
    run(&mut t, &e.forward);
    assert_eq!(list(&t, "video/*"), strings(&["mpv.desktop", "vlc.desktop"]));
    run(&mut t, &e.inverse);
    assert_eq!(list(&t, "video/*"), strings(&["mpv.desktop"]));
}

#[test]
fn undo_after_clear_restores_default() {
    let mut t: Table = vec![("video/*".into(), strings(&["mpv.desktop", "vlc.desktop"]))];
    let e = clear_category_default("video/*", &list(&t, "video/*"));
    run(&mut t, &e.forward);
    assert_eq!(list(&t, "video/*"), strings(&["vlc.desktop"]));
    run(&mut t, &e.inverse);
    assert_eq!(list(&t, "video/*"), strings(&["mpv.desktop", "vlc.desktop"]));
}

#[test]
fn undo_after_remove_exception_restores_list() {
    let mut t: Table = vec![("video/mp4".into(), strings(&["vlc.desktop", "mpv.desktop"]))];
    let e = remove_exception("video/mp4", &list(&t, "video/mp4"));
    run(&mut t, &e.forward);
    assert!(list(&t, "video/mp4").is_empty());
    run(&mut t, &e.inverse);
    assert_eq!(list(&t, "video/mp4"), strings(&["vlc.desktop", "mpv.desktop"]));
}
