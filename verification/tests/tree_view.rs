use handlr_gui::handlr::{App, State};
use handlr_gui::model::Row;
use handlr_gui::row_actions::{
    click_entry, delete_entry, exception_mime_input, exception_prefix, handler_display_name,
    pick_entry, picker_shows, row_badge, row_buttons, RowAction,
};
use handlr_gui::tree_view::{
    alternative_rows, category_icon_name, children_of, locate_mime, row_key, selection_key,
    should_collapse, strip_wildcard,
};
use handlr_gui::undo::HandlrCmd;

fn strings(v: &[&str]) -> Vec<String> {
    v.iter().map(|s| s.to_string()).collect()
}

fn state(defaults: &[(&str, &[&str])]) -> State {
    State {
        defaults: defaults
            .iter()
            .map(|(m, hs)| (m.to_string(), hs.iter().map(|h| h.to_string()).collect()))
            .collect(),
        system_apps: Vec::<App>::new(),
    }
}

fn category(mime: &str, hs: &[&str]) -> Row {
    Row::Category { mime: mime.into(), handlers: strings(hs) }
}

fn exception(mime: &str, hs: &[&str]) -> Row {
    Row::Exception { mime: mime.into(), handlers: strings(hs) }
}

fn describe(rows: &[Row]) -> Vec<String> {
    rows.iter()
        .map(|r| match r {
            Row::Handler { desktop, index, total, .. } => format!("h:{desktop}:{index}/{total}"),
            Row::Exception { mime, .. } => format!("e:{mime}"),
            Row::AddException { category_mime } => format!("add:{category_mime}"),
            Row::Category { mime, .. } => format!("c:{mime}"),
            _ => "other".to_string(),
        })
        .collect()
}

#[test]
fn category_children_are_alternatives_exceptions_then_add_row() {
    let s = state(&[("video/*", &["mpv.desktop", "vlc.desktop"]), ("video/mp4", &["vlc.desktop"])]);
    let kids = children_of(&category("video/*", &["mpv.desktop", "vlc.desktop"]), &s).unwrap();
    assert_eq!(describe(&kids), vec!["h:vlc.desktop:1/2", "e:video/mp4", "add:video/*"]);
}

#[test]
fn exception_children_are_its_alternatives() {
    let s = state(&[]);
    assert!(children_of(&exception("video/mp4", &["vlc.desktop"]), &s).is_none());
    let kids = children_of(&exception("video/mp4", &["vlc.desktop", "mpv.desktop"]), &s).unwrap();
    assert_eq!(describe(&kids), vec!["h:mpv.desktop:1/2"]);
    assert!(children_of(&Row::AddException { category_mime: "video/*".into() }, &s).is_none());
}

#[test]
fn alternative_rows_skip_the_default() {
    assert!(alternative_rows("a/*", &strings(&[])).is_empty());
    assert_eq!(describe(&alternative_rows("a/*", &strings(&["x", "y", "z"]))), vec!["h:y:1/3", "h:z:2/3"]);
}

#[test]
fn locate_prefers_exact_then_longest_wildcard() {
    let rows = vec![category("video/*", &[]), category("*", &[]), exception("video/mp4", &[]), category("video/x-*", &[])];
    assert_eq!(locate_mime(&rows, "video/mp4"), Some(2));
    assert_eq!(locate_mime(&rows, "video/x-matroska"), Some(3));
    assert_eq!(locate_mime(&rows, "video/webm"), Some(0));
    // A bare `*` category has an empty prefix, which never counts as a cover.
    assert_eq!(locate_mime(&rows, "text/plain"), None);
    assert_eq!(locate_mime(&rows[..1], "text/plain"), None);
}

#[test]
fn keys_identify_rows() {
    assert_eq!(row_key(&category("video/*", &[])), Some("cat:video/*".to_string()));
    assert_eq!(row_key(&exception("video/mp4", &[])), Some("exc:video/mp4".to_string()));
    let h = Row::Handler { mime: "video/*".into(), desktop: "vlc.desktop".into(), index: 1, total: 2 };
    assert_eq!(row_key(&h), None);
    assert_eq!(selection_key(&h), Some("h:video/*:vlc.desktop".to_string()));
    assert_eq!(
        selection_key(&Row::AddException { category_mime: "video/*".into() }),
        Some("add:video/*".to_string())
    );
}

#[test]
fn collapse_state_survives_rebuilds() {
    let group = Row::SemanticGroup { name: "Media".into(), icon_name: "x".into(), static_children: vec![] };
    let cat = category("video/*", &[]);
    let none: Vec<String> = vec![];
    assert!(should_collapse(&group, &none, &none, false));
    assert!(!should_collapse(&group, &strings(&["sg:Media"]), &strings(&["sg:Media"]), true));
    assert!(!should_collapse(&cat, &none, &none, false));
    assert!(!should_collapse(&cat, &none, &none, true));
    assert!(should_collapse(&cat, &none, &strings(&["cat:video/*"]), true));
    assert!(!should_collapse(&cat, &strings(&["cat:video/*"]), &strings(&["cat:video/*"]), true));
    assert!(!should_collapse(&Row::AddException { category_mime: "a/*".into() }, &none, &none, true));
}

#[test]
fn category_icons() {
    assert_eq!(strip_wildcard("video/*"), "video/x-generic");
    assert_eq!(strip_wildcard("video/mp4"), "video/mp4");
    assert_eq!(category_icon_name("audio/*"), Some("audio-x-generic-symbolic".to_string()));
    assert_eq!(category_icon_name("x-scheme-handler/*"), Some("web-browser-symbolic".to_string()));
    assert_eq!(category_icon_name("font/*"), None);
}

#[test]
fn category_buttons_depend_on_default() {
    let with = row_buttons(&category("video/*", &["mpv.desktop"]));
    let tips: Vec<&str> = with.iter().map(|b| b.tooltip.as_str()).collect();
    assert_eq!(tips, vec!["Change default", "Clear default", "Add handler"]);
    assert_eq!(with[0].icon, "document-edit-symbolic");
    let without = row_buttons(&category("video/*", &[]));
    assert_eq!(without.len(), 1);
    assert!(matches!(&without[0].action, RowAction::AddHandler { has_handlers: false, .. }));
}

#[test]
fn exception_and_handler_buttons() {
    let pending: Vec<String> = row_buttons(&exception("video/mp4", &[])).into_iter().map(|b| b.tooltip).collect();
    assert_eq!(pending, vec!["Remove exception", "Set handler"]);
    let set: Vec<String> = row_buttons(&exception("video/mp4", &["vlc.desktop"])).into_iter().map(|b| b.tooltip).collect();
    assert_eq!(set, vec!["Change default", "Remove exception", "Add handler"]);
    let alt = Row::Handler { mime: "video/*".into(), desktop: "vlc.desktop".into(), index: 1, total: 2 };
    let b: Vec<String> = row_buttons(&alt).into_iter().map(|b| b.icon).collect();
    assert_eq!(b, vec!["user-trash-symbolic", "go-up-symbolic"]);
    let top = Row::Handler { mime: "video/*".into(), desktop: "mpv.desktop".into(), index: 0, total: 2 };
    assert!(row_buttons(&top).is_empty());
    assert!(row_buttons(&Row::AddException { category_mime: "a/*".into() }).is_empty());
}

#[test]
fn picked_application_makes_the_entry() {
    let add_first = RowAction::AddHandler { mime: "video/*".into(), has_handlers: false };
    let e = pick_entry(&add_first, "mpv.desktop").unwrap();
    assert_eq!(e.forward, vec![HandlrCmd::Assign { mime: "video/*".into(), desktop: "mpv.desktop".into() }]);
    let add_more = RowAction::AddHandler { mime: "video/*".into(), has_handlers: true };
    let e = pick_entry(&add_more, "vlc.desktop").unwrap();
    assert_eq!(e.forward, vec![HandlrCmd::Add { mime: "video/*".into(), desktop: "vlc.desktop".into() }]);
    let set_exc = RowAction::SetException { mime: "video/mp4".into() };
    assert_eq!(pick_entry(&set_exc, "vlc.desktop").unwrap().inverse, vec![HandlrCmd::Unset { mime: "video/mp4".into() }]);
    let clear = RowAction::ClearDefault { mime: "video/*".into(), prior: strings(&["mpv.desktop"]) };
    assert!(pick_entry(&clear, "x.desktop").is_none());
}

#[test]
fn clicked_action_makes_the_entry() {
    let s = state(&[("video/*", &["a.desktop", "b.desktop"])]);
    let promote = RowAction::PromoteHandler { mime: "video/*".into(), index: 1 };
    let e = click_entry(&promote, &s).unwrap();
    assert_eq!(
        e.forward,
        vec![
            HandlrCmd::Assign { mime: "video/*".into(), desktop: "b.desktop".into() },
            HandlrCmd::Add { mime: "video/*".into(), desktop: "a.desktop".into() },
        ]
    );
    let stale = RowAction::PromoteHandler { mime: "video/*".into(), index: 5 };
    assert!(click_entry(&stale, &s).is_none());
    let rm = RowAction::RemoveHandler { mime: "video/*".into(), desktop: "b.desktop".into() };
    assert_eq!(click_entry(&rm, &s).unwrap().forward, vec![HandlrCmd::Remove { mime: "video/*".into(), desktop: "b.desktop".into() }]);
    assert!(click_entry(&RowAction::SetException { mime: "a/b".into() }, &s).is_none());
}

#[test]
fn delete_key_targets() {
    assert!(delete_entry(&category("video/*", &[])).is_none());
    let e = delete_entry(&category("video/*", &["mpv.desktop"])).unwrap();
    assert_eq!(e.forward, vec![HandlrCmd::Unset { mime: "video/*".into() }]);
    let e = delete_entry(&exception("video/mp4", &[])).unwrap();
    assert_eq!(e.forward, vec![HandlrCmd::Unset { mime: "video/mp4".into() }]);
    let top = Row::Handler { mime: "video/*".into(), desktop: "mpv.desktop".into(), index: 0, total: 2 };
    assert!(delete_entry(&top).is_none());
    let alt = Row::Handler { mime: "video/*".into(), desktop: "vlc.desktop".into(), index: 1, total: 2 };
    assert_eq!(delete_entry(&alt).unwrap().label, remove_label());
}

fn remove_label() -> String {
    handlr_gui::undo::remove_handler("video/*", "vlc.desktop").label
}

#[test]
fn badges_and_names() {
    let set = Row::BatchMime { mime: "a/b".into(), mime_handlers: strings(&["x"]), group_handler: Some("x".into()) };
    assert_eq!(row_badge(&set), "(set)");
    let own = Row::BatchMime { mime: "a/b".into(), mime_handlers: strings(&["y"]), group_handler: Some("x".into()) };
    assert_eq!(row_badge(&own), "");
    let alt = Row::Handler { mime: "video/*".into(), desktop: "vlc.desktop".into(), index: 1, total: 2 };
    assert_eq!(row_badge(&alt), "Alt.");
    assert_eq!(row_badge(&category("a/*", &[])), "");
    assert_eq!(handler_display_name("org.gnome.Nautilus.desktop", None), "Nautilus");
    assert_eq!(handler_display_name("x.desktop", Some("Files".into())), "Files");
    assert_eq!(handler_display_name("weird", None), "Weird");
}

#[test]
fn add_exception_dialog_inputs() {
    assert_eq!(exception_prefix("video/*"), "video/");
    assert_eq!(exception_prefix("*"), "");
    assert_eq!(exception_mime_input("  video/mp4 "), Ok("video/mp4".to_string()));
    let err = Err("Enter a MIME like `video/mp4`".to_string());
    assert_eq!(exception_mime_input("   "), err);
    assert_eq!(exception_mime_input("video/*"), err);
    assert_eq!(exception_mime_input("video"), err);
}

#[test]
fn picker_filter_is_case_insensitive() {
    assert!(picker_shows("", "Anything", "x.desktop"));
    assert!(picker_shows("FIRE", "Firefox", "firefox.desktop"));
    assert!(picker_shows("org.mozilla", "Browser", "org.Mozilla.Firefox.desktop"));
    assert!(!picker_shows("vlc", "Firefox", "firefox.desktop"));
}
