use handlr_gui::handlr::{
    failure_message, first_mime, humanize, is_whitespace, map_state, run_args, stderr,
    version_text, RawEntry, RawListAll,
};
use handlr_gui::undo::HandlrCmd;

fn entry(mime: &str, handlers: &[&str]) -> RawEntry {
    RawEntry { mime: mime.to_string(), handlers: handlers.iter().map(|s| s.to_string()).collect() }
}

/// The records of the `handlr list --all --json` fixture.
fn list_all_fixture() -> RawListAll {
    RawListAll {
        default_apps: vec![
            entry("audio/*", &["mpv.desktop"]),
            entry("video/*", &["mpv.desktop", "vlc.desktop"]),
            entry("video/mp4", &["vlc.desktop"]),
            entry("text/*", &["helix.desktop"]),
            entry("inode/directory", &["org.gnome.Nautilus.desktop"]),
        ],
        system_apps: vec![
            entry("video/mp4", &["mpv.desktop", "vlc.desktop"]),
            entry("audio/mpeg", &["mpv.desktop"]),
            entry("text/plain", &["org.gnome.TextEditor.desktop", "helix.desktop"]),
        ],
    }
}

#[test]
fn parses_list_all() {
    let raw = list_all_fixture();
    let state = map_state(raw);

    assert_eq!(state.defaults.len(), 5);
    assert_eq!(state.defaults[0].0, "audio/*");
    assert_eq!(state.defaults[0].1, vec!["mpv.desktop"]);

    let video_star = state.defaults.iter().find(|(m, _)| m == "video/*").unwrap();
    assert_eq!(video_star.1, vec!["mpv.desktop", "vlc.desktop"]);

    let video_mp4 = state.defaults.iter().find(|(m, _)| m == "video/mp4").unwrap();
    assert_eq!(video_mp4.1, vec!["vlc.desktop"]);
}

#[test]
fn system_apps_deduped_and_named() {
    let raw = list_all_fixture();
    let state = map_state(raw);

    let desktops: Vec<&str> = state.system_apps.iter().map(|a| a.desktop.as_str()).collect();
    assert_eq!(desktops.len(), 4, "mpv/vlc duplicates should collapse, got {:?}", desktops);
    assert!(desktops.contains(&"mpv.desktop"));
    assert!(desktops.contains(&"vlc.desktop"));
    assert!(desktops.contains(&"helix.desktop"));
    assert!(desktops.contains(&"org.gnome.TextEditor.desktop"));

    let textedit = state
        .system_apps
        .iter()
        .find(|a| a.desktop == "org.gnome.TextEditor.desktop")
        .unwrap();
    assert_eq!(textedit.name, "TextEditor");

    let mpv = state.system_apps.iter().find(|a| a.desktop == "mpv.desktop").unwrap();
    assert_eq!(mpv.name, "Mpv");
}

#[test]
fn humanize_strips_reverse_dns() {
    assert_eq!(humanize("firefox.desktop"), "Firefox");
    assert_eq!(humanize("org.gnome.Nautilus.desktop"), "Nautilus");
    assert_eq!(humanize("vlc.desktop"), "Vlc");
}

#[test]
fn stderr_caps_long_output() {
    let big = vec![b'x'; 1000];
    let result = stderr(&big);
    assert_eq!(result.chars().count(), 201); // 200 x's plus ellipsis
    assert!(result.ends_with('…'));
}

#[test]
fn stderr_trims_trailing_newlines() {
    assert_eq!(stderr(b"boom\n\n"), "boom");
}

// ---- further cases ------------------------------------------------------------------

#[test]
fn system_apps_sorted_by_lowercase_name() {
    let raw = RawListAll {
        default_apps: vec![],
        system_apps: vec![entry("a/b", &["zed.desktop", "org.x.alpha.desktop", "Beta.desktop", "zed.desktop"])],
    };
    let state = map_state(raw);
    let names: Vec<&str> = state.system_apps.iter().map(|a| a.name.as_str()).collect();
    assert_eq!(names, vec!["Alpha", "Beta", "Zed"]);
    assert!(state.defaults.is_empty());
}

#[test]
fn system_apps_with_same_name_keep_first_seen_order() {
    let raw = RawListAll {
        default_apps: vec![],
        system_apps: vec![entry("a/b", &["org.b.Tool.desktop", "org.a.tool.desktop"])],
    };
    let state = map_state(raw);
    let desktops: Vec<&str> = state.system_apps.iter().map(|a| a.desktop.as_str()).collect();
    assert_eq!(desktops, vec!["org.b.Tool.desktop", "org.a.tool.desktop"]);
}

#[test]
fn humanize_uppercases_non_ascii_and_handles_edges() {
    assert_eq!(humanize("org.example.élan.desktop"), "Élan");
    assert_eq!(humanize("straße"), "Straße");
    assert_eq!(humanize("org.x.ßeta.desktop"), "SSeta");
    assert_eq!(humanize(".desktop"), "");
    assert_eq!(humanize("app"), "App");
    assert_eq!(humanize("org.example."), "");
}

#[test]
fn stderr_decodes_invalid_utf8_lossily() {
    assert_eq!(stderr(b"bad \xff byte"), "bad \u{fffd} byte");
}

#[test]
fn stderr_trims_trailing_white_space_after_newlines() {
    assert_eq!(stderr(b"  oops \t \n\n"), "  oops");
    assert_eq!(stderr(b""), "");
}

#[test]
fn stderr_keeps_exactly_two_hundred_characters() {
    let exact = vec![b'y'; 200];
    assert_eq!(stderr(&exact), "y".repeat(200));
}

#[test]
fn run_args_per_command() {
    let set = HandlrCmd::Assign { mime: "text/plain".into(), desktop: "helix.desktop".into() };
    assert_eq!(run_args(&set), vec!["set", "text/plain", "helix.desktop"]);
    let add = HandlrCmd::Add { mime: "text/plain".into(), desktop: "vim.desktop".into() };
    assert_eq!(run_args(&add), vec!["add", "text/plain", "vim.desktop"]);
    let remove = HandlrCmd::Remove { mime: "text/plain".into(), desktop: "vim.desktop".into() };
    assert_eq!(run_args(&remove), vec!["remove", "text/plain", "vim.desktop"]);
    let unset = HandlrCmd::Unset { mime: "text/plain".into() };
    assert_eq!(run_args(&unset), vec!["unset", "text/plain"]);
}

#[test]
fn failure_message_names_the_subcommand() {
    assert_eq!(failure_message("set", b"no such mime\n"), "handlr set failed: no such mime");
    assert_eq!(failure_message("list", b""), "handlr list failed: ");
}

#[test]
fn version_text_is_trimmed() {
    assert_eq!(version_text(b"  handlr 0.11.2\n"), "handlr 0.11.2");
    assert_eq!(version_text(b"\n"), "");
}

#[test]
fn first_mime_takes_first_record() {
    assert_eq!(first_mime(vec!["text/markdown".into(), "text/plain".into()]), Ok("text/markdown".to_string()));
    assert_eq!(first_mime(vec![]), Err("handlr mime returned empty array".to_string()));
}

#[test]
fn whitespace_matches_std() {
    for c in ['\t', '\n', ' ', '\u{85}', '\u{a0}', '\u{2003}', '\u{3000}', 'a', '_', '\u{200b}'] {
        assert_eq!(is_whitespace(c), c.is_whitespace(), "{:?}", c);
    }
}
