use handlr_gui::handlr::{App, State};
use handlr_gui::tester::{
    any_invalid_regex, card_summary, collect_regexes, decimal, default_handler, exec_basename,
    file_name, first_word, handler_from_form, looks_like_mime, regex_entry_invalid, regex_stage,
    report, resolve_app_icon, resolve_exec_name, resolve_input, resolve_mime, trim, IconSource,
    InputResolution, RegexAttempt, RegexHandler, Resolution, ResolutionKind,
};
use std::cell::Cell;

/// Resolves `input` the way the program does, with `detect` standing for `handlr mime`.
fn resolve(
    input: &str,
    hs: &[RegexHandler],
    s: &State,
    apps: &[App],
    cmdlines: &[Option<String>],
    detect: impl Fn(&str) -> Option<String>,
) -> Resolution {
    match resolve_input(input, hs, s, apps, cmdlines) {
        InputResolution::Resolved(r) => r,
        InputResolution::DetectMime(attempts) => resolve_mime(detect(input), s, apps, attempts),
    }
}

fn strings(v: &[&str]) -> Vec<String> {
    v.iter().map(|s| s.to_string()).collect()
}

fn handler(regexes: &[&str], command: &str) -> RegexHandler {
    RegexHandler { regexes: strings(regexes), command: command.into(), terminal: false }
}

fn state(defaults: &[(&str, &[&str])]) -> State {
    State {
        defaults: defaults
            .iter()
            .map(|(m, hs)| (m.to_string(), hs.iter().map(|h| h.to_string()).collect()))
            .collect(),
        system_apps: vec![],
    }
}

fn apps() -> Vec<App> {
    vec![
        App { desktop: "firefox.desktop".into(), name: "Firefox Web Browser".into() },
        App { desktop: "mpv.desktop".into(), name: "mpv Media Player".into() },
    ]
}

fn commandlines() -> Vec<Option<String>> {
    vec![Some("/usr/lib/firefox/firefox %u".into()), Some("mpv --player-operation-mode=pseudo-gui -- %U".into())]
}

#[test]
fn raw_mime_types_are_recognised() {
    assert!(looks_like_mime("video/mp4"));
    assert!(looks_like_mime("image/svg+xml"));
    assert!(looks_like_mime("x-scheme-handler/https"));
    assert!(!looks_like_mime("/home/u/file.txt"));
    assert!(!looks_like_mime("~/file.txt"));
    assert!(!looks_like_mime("https://example.com/a"));
    assert!(!looks_like_mime("text"));
    assert!(!looks_like_mime("text /plain"));
    assert!(!looks_like_mime("vidéo/mp4"));
    assert!(!looks_like_mime(""));
}

#[test]
fn words_and_file_names() {
    assert_eq!(first_word("  mpv --fs %U"), Some("mpv".to_string()));
    assert_eq!(first_word(" \t "), None);
    assert_eq!(file_name("/usr/bin/firefox"), Some("firefox".to_string()));
    assert_eq!(file_name("/usr/bin/"), Some("bin".to_string()));
    assert_eq!(file_name("a/b/."), Some("b".to_string()));
    assert_eq!(file_name("a/.."), None);
    assert_eq!(file_name("/"), None);
    assert_eq!(file_name("."), None);
    assert_eq!(file_name(""), None);
    assert_eq!(file_name("x.y"), Some("x.y".to_string()));
    for p in ["/usr/bin/firefox", "/usr/bin/", "a/b/.", "a/..", "/", ".", "", "x.y", "./a", "a//b", "..", "a/./b/"] {
        let expected = std::path::Path::new(p).file_name().map(|n| n.to_string_lossy().into_owned());
        assert_eq!(file_name(p), expected, "{p}");
    }
    assert_eq!(exec_basename("/usr/bin/mpv --fs"), Some("mpv".to_string()));
    assert_eq!(exec_basename("   "), None);
}

#[test]
fn first_matching_regex_wins_and_later_ones_are_skipped() {
    let hs = vec![handler(&["(", "^ftp"], "ftpc --x"), handler(&["https?://", "example"], "/usr/bin/firefox %u")];
    let stage = regex_stage(&hs, "https://example.com");
    assert_eq!(stage.winner, Some((1, "https?://".to_string())));
    let a = &stage.attempts;
    assert_eq!(a.len(), 4);
    assert_eq!((a[0].handler_display.as_str(), a[0].pattern.as_str()), ("ftpc", "("));
    assert!(a[0].invalid && !a[0].matched && !a[0].skipped);
    assert!(!a[1].invalid && !a[1].matched && !a[1].skipped);
    assert_eq!(a[2].handler_display, "/usr/bin/firefox");
    assert!(a[2].matched && !a[2].skipped);
    assert!(a[3].skipped && !a[3].matched && !a[3].invalid);
}

#[test]
fn no_regex_matches() {
    let hs = vec![handler(&["^ftp"], "ftpc")];
    let stage = regex_stage(&hs, "video/mp4");
    assert_eq!(stage.winner, None);
    assert_eq!(stage.attempts.len(), 1);
    assert!(!stage.attempts[0].matched && !stage.attempts[0].skipped);
    assert!(regex_stage(&[], "x").attempts.is_empty());
}

#[test]
fn default_handler_prefers_exact_entries() {
    let s = state(&[("video/*", &["mpv.desktop"]), ("video/mp4", &[]), ("video/mp4", &["vlc.desktop", "x.desktop"])]);
    assert_eq!(default_handler(&s, "video/mp4"), Some("vlc.desktop".to_string()));
}

#[test]
fn default_handler_falls_back_to_longest_wildcard() {
    let s = state(&[
        ("*", &["any.desktop"]),
        ("video/*", &["mpv.desktop"]),
        ("video/x-*", &["x.desktop"]),
        ("video/mp4", &[]),
        ("audio/*", &["a.desktop"]),
    ]);
    assert_eq!(default_handler(&s, "video/x-matroska"), Some("x.desktop".to_string()));
    assert_eq!(default_handler(&s, "video/mp4"), Some("mpv.desktop".to_string()));
    assert_eq!(default_handler(&s, "text/plain"), Some("any.desktop".to_string()));
    let none = state(&[("video/*", &[])]);
    assert_eq!(default_handler(&none, "video/mp4"), None);
}

#[test]
fn default_handler_takes_last_of_equal_wildcards() {
    let s = state(&[("video/*", &["first.desktop"]), ("video/*", &["second.desktop"])]);
    assert_eq!(default_handler(&s, "video/mp4"), Some("second.desktop".to_string()));
}

#[test]
fn exec_name_and_icon_come_from_matching_application() {
    assert_eq!(resolve_exec_name("firefox --new-window %u", &apps(), &commandlines()), "Firefox Web Browser");
    assert_eq!(resolve_exec_name("/opt/bin/mpv", &apps(), &commandlines()), "mpv Media Player");
    assert_eq!(resolve_exec_name("/opt/bin/zathura %f", &apps(), &commandlines()), "zathura");
    assert_eq!(resolve_exec_name("  ", &apps(), &commandlines()), "  ");
    assert_eq!(resolve_app_icon("mpv %U", &commandlines()), Some(1));
    assert_eq!(resolve_app_icon("zathura", &commandlines()), None);
    assert_eq!(resolve_app_icon("", &commandlines()), None);
    let no_cmdline = vec![None, Some("mpv".to_string())];
    assert_eq!(resolve_exec_name("firefox", &apps(), &no_cmdline), "firefox");
}

#[test]
fn resolution_by_regex() {
    let hs = vec![handler(&["^https?://"], "firefox %u")];
    let detect_calls = Cell::new(0);
    let r = resolve("https://a.b", &hs, &state(&[]), &apps(), &commandlines(), |_s: &str| {
        detect_calls.set(detect_calls.get() + 1);
        None
    });
    assert_eq!(detect_calls.get(), 0);
    assert!(matches!(&r.kind, ResolutionKind::Regex { handler_idx: 0, pattern } if pattern == "^https?://"));
    assert_eq!(r.display_name, "Firefox Web Browser");
    assert!(matches!(r.icon, Some(IconSource::App(0))));
    assert_eq!(r.detected_mime, None);
}

#[test]
fn resolution_of_a_raw_mime_type() {
    let s = state(&[("video/*", &["mpv.desktop"])]);
    let r = resolve("video/mp4", &[], &s, &apps(), &commandlines(), |_s: &str| panic!("no detection"));
    assert!(matches!(&r.kind, ResolutionKind::MimeDefault { mime } if mime == "video/mp4"));
    assert_eq!(r.display_name, "mpv Media Player");
    assert!(matches!(&r.icon, Some(IconSource::Desktop(d)) if d == "mpv.desktop"));
    assert_eq!(r.detected_mime, Some("video/mp4".to_string()));
}

#[test]
fn resolution_through_detection() {
    let s = state(&[("text/plain", &["helix.desktop"])]);
    let r = resolve("/tmp/notes.txt", &[], &s, &apps(), &commandlines(), |p: &str| {
        assert_eq!(p, "/tmp/notes.txt");
        Some("text/plain".to_string())
    });
    assert!(matches!(&r.kind, ResolutionKind::MimeDefault { mime } if mime == "text/plain"));
    assert_eq!(r.display_name, "helix.desktop");
    let r = resolve("/tmp/x", &[], &s, &apps(), &commandlines(), |_p: &str| None);
    assert!(matches!(&r.kind, ResolutionKind::NoHandler { mime: None }));
    assert_eq!(r.display_name, "");
    let r = resolve("/tmp/x", &[], &s, &apps(), &commandlines(), |_p: &str| Some("image/png".into()));
    assert!(matches!(&r.kind, ResolutionKind::NoHandler { mime: Some(m) } if m == "image/png"));
    assert!(r.icon.is_none());
}

#[test]
fn report_describes_each_step() {
    let hs = vec![handler(&["(", "^https"], "firefox"), handler(&["x"], "mpv")];
    let r = resolve("https://a", &hs, &state(&[]), &apps(), &commandlines(), |_s: &str| None);
    let rep = report(&r);
    assert_eq!(rep.reason, "Matched regex handler #1 \u{2014} pattern: ^https");
    assert_eq!(rep.detected_badge, None);
    assert_eq!(rep.chain_header, "Resolution chain (3 regex patterns checked)");
    assert_eq!(rep.attempts[0].tick, "\u{2717}");
    assert_eq!(rep.attempts[0].text, "firefox: (");
    assert_eq!(rep.attempts[0].result.as_deref(), Some("invalid pattern"));
    assert_eq!(rep.attempts[1].tick, "\u{2713}");
    assert_eq!(rep.attempts[1].result.as_deref(), Some("matched"));
    assert_eq!(rep.attempts[2].tick, "\u{2014}");
    assert_eq!(rep.attempts[2].result, None);
    assert_eq!(rep.mime_tick, "\u{2014}");
    assert_eq!(rep.mime_text, "MIME detection (not evaluated)");
    assert_eq!(rep.handler_text, "MIME handler lookup (not evaluated)");
}

#[test]
fn report_of_mime_outcomes() {
    let s = state(&[("video/*", &["mpv.desktop"])]);
    let r = resolve_mime(Some("video/webm".into()), &s, &apps(), vec![]);
    let rep = report(&r);
    assert_eq!(rep.reason, "Default handler for MIME type video/webm");
    assert_eq!(rep.detected_badge, None);
    assert_eq!(rep.chain_header, "Resolution chain (no regex handlers configured)");
    assert_eq!(rep.mime_tick, "\u{2192}");
    assert_eq!(rep.mime_text, "MIME: video/webm");
    assert_eq!(rep.handler_text, "Handler: mpv Media Player");
    let r = resolve_mime(Some("image/png".into()), &s, &apps(), vec![]);
    let rep = report(&r);
    assert_eq!(rep.reason, "No handler configured for MIME type image/png");
    assert_eq!(rep.detected_badge.as_deref(), Some("Detected MIME: image/png"));
    assert_eq!(rep.handler_text, "No handler configured");
    let rep = report(&resolve_mime(None, &s, &apps(), vec![]));
    assert_eq!(rep.reason, "Could not determine MIME type");
    assert_eq!(rep.mime_text, "MIME detection failed");
}

#[test]
fn one_pattern_header_is_singular() {
    let hs = vec![handler(&["zzz"], "a")];
    let r = resolve("q", &hs, &state(&[]), &apps(), &commandlines(), |_s: &str| None);
    assert_eq!(report(&r).chain_header, "Resolution chain (1 regex pattern checked)");
}

#[test]
fn handler_form_validation() {
    let ok = handler_from_form(&strings(&["  ^https?:// ", "", "  "]), "  firefox %u ", true).unwrap();
    assert_eq!(ok.regexes, strings(&["^https?://"]));
    assert_eq!(ok.command, "firefox %u");
    assert!(ok.terminal);
    assert_eq!(
        handler_from_form(&strings(&[" "]), " ", false).unwrap_err(),
        "At least one regex is required. Command must not be empty."
    );
    assert_eq!(
        handler_from_form(&strings(&["(", "ok"]), "x", false).unwrap_err(),
        "One or more regexes are invalid."
    );
    assert_eq!(
        handler_from_form(&strings(&[]), "", false).unwrap_err(),
        "At least one regex is required. Command must not be empty."
    );
    assert_eq!(
        handler_from_form(&strings(&["["]), "", false).unwrap_err(),
        "Command must not be empty. One or more regexes are invalid."
    );
}

#[test]
fn regex_entries_and_trimming() {
    assert!(regex_entry_invalid("("));
    assert!(!regex_entry_invalid(""));
    assert!(!regex_entry_invalid("a+"));
    assert!(any_invalid_regex(&strings(&["a", "(("])));
    assert!(!any_invalid_regex(&strings(&["a", ""])));
    assert_eq!(collect_regexes(&strings(&[" a ", "\t", "b"])), strings(&["a", "b"]));
    assert_eq!(trim("\u{3000} x y \n"), "x y");
}

#[test]
fn card_titles_and_numbers() {
    assert_eq!(decimal(0), "0");
    assert_eq!(decimal(7), "7");
    assert_eq!(decimal(1234567), "1234567");
    let h = handler(&["a", "b"], "/usr/bin/mpv --fs");
    assert_eq!(card_summary(&h, &apps(), &commandlines()), "mpv Media Player \u{2014} 2 regexes");
    let h = handler(&["a"], "");
    assert_eq!(card_summary(&h, &apps(), &commandlines()), "(no command) \u{2014} 1 regex");
    let h = handler(&[], "zathura");
    assert_eq!(card_summary(&h, &apps(), &commandlines()), "zathura \u{2014} 0 regexes");
}

use handlr_gui::tester::{command_for_app, move_regex_handler};

#[test]
fn commands_from_application_command_lines() {
    assert_eq!(command_for_app(Some("/usr/bin/mpv --player-operation-mode=pseudo-gui -- %U".into()), "mpv.desktop"),
        "mpv --player-operation-mode=pseudo-gui -- %U");
    assert_eq!(command_for_app(Some("/usr/lib/firefox/firefox".into()), "firefox.desktop"), "firefox");
    assert_eq!(command_for_app(Some("env A=1 prog %f".into()), "x.desktop"), "env A=1 prog %f");
    assert_eq!(command_for_app(Some("/ %u".into()), "x.desktop"), "/ %u");
    assert_eq!(command_for_app(None, "org.gnome.Nautilus.desktop"), "org.gnome.Nautilus.desktop");
}

#[test]
fn regex_handlers_move_up_and_down() {
    let mut hs = vec![handler(&["a"], "one"), handler(&["b"], "two"), handler(&["c"], "three")];
    assert!(move_regex_handler(&mut hs, 2, true));
    let names: Vec<&str> = hs.iter().map(|h| h.command.as_str()).collect();
    assert_eq!(names, vec!["one", "three", "two"]);
    assert!(move_regex_handler(&mut hs, 0, false));
    let names: Vec<&str> = hs.iter().map(|h| h.command.as_str()).collect();
    assert_eq!(names, vec!["three", "one", "two"]);
    assert!(!move_regex_handler(&mut hs, 0, true));
    assert!(!move_regex_handler(&mut hs, 2, false));
    assert!(!move_regex_handler(&mut hs, 7, true));
    let names: Vec<&str> = hs.iter().map(|h| h.command.as_str()).collect();
    assert_eq!(names, vec!["three", "one", "two"]);
}

use handlr_gui::tester::stage_from_outcomes;

#[test]
fn stage_from_given_outcomes() {
    let hs = vec![handler(&["a", "b"], "one two"), handler(&["c"], "three")];
    let st = stage_from_outcomes(&hs, &[None, Some(true)]);
    assert_eq!(st.winner, Some((0, "b".to_string())));
    assert!(st.attempts[0].invalid && !st.attempts[0].skipped);
    assert!(st.attempts[1].matched);
    assert!(st.attempts[2].skipped && !st.attempts[2].matched);
    assert_eq!(st.attempts[2].handler_display, "three");
    let st = stage_from_outcomes(&hs, &[Some(false)]);
    assert_eq!(st.winner, None);
    assert!(!st.attempts[0].skipped && !st.attempts[0].matched);
    assert!(st.attempts[1].skipped && st.attempts[2].skipped);
    let st = stage_from_outcomes(&hs, &[Some(false), Some(false), Some(true), Some(true)]);
    assert_eq!(st.winner, Some((1, "c".to_string())));
}

#[test]
fn detection_asked_only_without_regex_or_mime() {
    let hs = vec![handler(&["^https?://", "("], "firefox %u")];
    let s = state(&[]);
    assert!(matches!(resolve_input("https://a", &hs, &s, &apps(), &commandlines()), InputResolution::Resolved(_)));
    assert!(matches!(resolve_input("text/plain", &hs, &s, &apps(), &commandlines()), InputResolution::Resolved(_)));
    match resolve_input("/tmp/a.txt", &hs, &s, &apps(), &commandlines()) {
        InputResolution::DetectMime(attempts) => {
            let got: Vec<(String, bool, bool, bool)> = attempts
                .iter()
                .map(|a: &RegexAttempt| (a.pattern.clone(), a.matched, a.invalid, a.skipped))
                .collect();
            assert_eq!(
                got,
                vec![("^https?://".to_string(), false, false, false), ("(".to_string(), false, true, false)]
            );
        }
        InputResolution::Resolved(_) => panic!("the MIME type must be detected"),
    }
}
