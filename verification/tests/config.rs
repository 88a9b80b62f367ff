use handlr_gui::config::{config_path, load, save, Config, ReadOutcome};

#[test]
fn default_values() {
    let cfg = Config::default();
    assert!(!cfg.enable_selector);
    assert_eq!(cfg.term_exec_args, "-e");
    assert!(!cfg.expand_wildcards);
    assert!(cfg.selector.is_empty());
}

#[test]
fn load_missing_file_returns_default() {
    let cfg = load("/cfg/handlr.toml", ReadOutcome::NotFound).unwrap();
    assert!(!cfg.enable_selector);
    assert_eq!(cfg.term_exec_args, "-e");
}

#[test]
fn load_reads_each_setting_of_the_right_type() {
    let text = "enable_selector = true\nselector = \"fzf\"\nterm_exec_args = 42\nexpand_wildcards = \"yes\"\n";
    let cfg = load("/cfg/handlr.toml", ReadOutcome::Text(text.to_string())).unwrap();
    assert!(cfg.enable_selector);
    assert_eq!(cfg.selector, "fzf");
    assert_eq!(cfg.term_exec_args, "-e");
    assert!(!cfg.expand_wildcards);
}

#[test]
fn load_errors_name_the_path() {
    let err = load("/cfg/handlr.toml", ReadOutcome::Failed).unwrap_err();
    assert_eq!(err, "reading /cfg/handlr.toml");
    let err = load("/cfg/handlr.toml", ReadOutcome::Text("enable_selector = = 1".into())).unwrap_err();
    assert_eq!(err, "parsing /cfg/handlr.toml");
}

#[test]
fn round_trip_save_load() {
    let cfg = Config {
        enable_selector: true,
        selector: "fzf".into(),
        term_exec_args: "-e".into(),
        expand_wildcards: true,
    };
    let text = save(&cfg, "/cfg/handlr.toml", ReadOutcome::NotFound).unwrap();
    let loaded = load("/cfg/handlr.toml", ReadOutcome::Text(text)).unwrap();
    assert_eq!(loaded.enable_selector, cfg.enable_selector);
    assert_eq!(loaded.selector, cfg.selector);
    assert_eq!(loaded.term_exec_args, cfg.term_exec_args);
    assert_eq!(loaded.expand_wildcards, cfg.expand_wildcards);
}

#[test]
fn save_preserves_handlers_section() {
    let existing = "enable_selector = false\n\n[[handlers]]\nregex = 'https?://'\nhandler = 'firefox.desktop'\n";
    let mut cfg = load("/cfg/handlr.toml", ReadOutcome::Text(existing.into())).unwrap();
    cfg.enable_selector = true;
    let text = save(&cfg, "/cfg/handlr.toml", ReadOutcome::Text(existing.into())).unwrap();
    assert!(text.contains("[[handlers]]"), "handlers section must be preserved");
    assert!(text.contains("regex = 'https?://'"));
    assert!(text.contains("enable_selector = true"));
}

#[test]
fn save_errors_name_the_path() {
    let cfg = Config::default();
    assert_eq!(
        save(&cfg, "/cfg/handlr.toml", ReadOutcome::Failed).unwrap_err(),
        "reading /cfg/handlr.toml"
    );
    assert_eq!(
        save(&cfg, "/cfg/handlr.toml", ReadOutcome::Text("[[".into())).unwrap_err(),
        "parsing /cfg/handlr.toml"
    );
}

#[test]
fn config_path_prefers_xdg_config_home() {
    assert_eq!(
        config_path(Some("/x/cfg".into()), Some("/home/u".into())),
        Ok("/x/cfg/handlr/handlr.toml".to_string())
    );
    assert_eq!(
        config_path(Some("/x/cfg/".into()), None),
        Ok("/x/cfg/handlr/handlr.toml".to_string())
    );
}

#[test]
fn config_path_falls_back_to_home() {
    assert_eq!(
        config_path(Some(String::new()), Some("/home/u".into())),
        Ok("/home/u/.config/handlr/handlr.toml".to_string())
    );
    assert_eq!(config_path(None, Some("/home/u".into())), Ok("/home/u/.config/handlr/handlr.toml".to_string()));
}

#[test]
fn config_path_errors_without_home() {
    assert_eq!(config_path(None, None), Err("HOME environment variable not set".to_string()));
    assert_eq!(config_path(None, Some(String::new())), Err("HOME environment variable is empty".to_string()));
}

// ---- regex handlers ------------------------------------------------------------------

use handlr_gui::config::{load_handlers, save_handlers};
use handlr_gui::tester::RegexHandler;

#[test]
fn handlers_read_from_tables() {
    let text = "selector = \"fzf\"\n\n[[handlers]]\nexec = \"firefox %u\"\nregexes = ['https?://', 3, 'ftp://']\nterminal = false\n\n[[handlers]]\nexec = \"mpv\"\nterminal = true\n\n[[handlers]]\nregex = 'x'\n";
    let hs = load_handlers("/cfg/handlr.toml", ReadOutcome::Text(text.into())).unwrap();
    assert_eq!(hs.len(), 3);
    assert_eq!(hs[0].command, "firefox %u");
    assert_eq!(hs[0].regexes, vec!["https?://".to_string(), "ftp://".to_string()]);
    assert!(!hs[0].terminal);
    assert_eq!(hs[1].command, "mpv");
    assert!(hs[1].regexes.is_empty());
    assert!(hs[1].terminal);
    assert_eq!(hs[2].command, "");
}

#[test]
fn handlers_absent_or_unreadable() {
    assert!(load_handlers("/p", ReadOutcome::NotFound).unwrap().is_empty());
    assert!(load_handlers("/p", ReadOutcome::Text("handlers = 1".into())).unwrap().is_empty());
    assert_eq!(load_handlers("/p", ReadOutcome::Failed).unwrap_err(), "reading /p");
    assert_eq!(load_handlers("/p", ReadOutcome::Text("[[".into())).unwrap_err(), "parsing /p");
}

#[test]
fn handlers_round_trip_and_settings_kept() {
    let existing = "enable_selector = true\nselector = \"rofi\"\n\n[[handlers]]\nexec = \"old\"\nregexes = ['a']\n";
    let hs = vec![
        RegexHandler { regexes: vec!["^https?://".into(), "\\.pdf$".into()], command: "firefox %u".into(), terminal: false },
        RegexHandler { regexes: vec![], command: "nvim".into(), terminal: true },
    ];
    let text = save_handlers(&hs, "/p", ReadOutcome::Text(existing.into())).unwrap();
    let back = load_handlers("/p", ReadOutcome::Text(text.clone())).unwrap();
    assert_eq!(back.len(), 2);
    assert_eq!(back[0].regexes, hs[0].regexes);
    assert_eq!(back[0].command, "firefox %u");
    assert_eq!(back[1].command, "nvim");
    assert!(back[1].terminal);
    let cfg = load("/p", ReadOutcome::Text(text)).unwrap();
    assert!(cfg.enable_selector);
    assert_eq!(cfg.selector, "rofi");
}

#[test]
fn settings_save_keeps_handler_tables() {
    let existing = "[[handlers]]\nexec = \"mpv\"\nregexes = ['\\.mkv$']\n";
    let text = save(&Config::default(), "/p", ReadOutcome::Text(existing.into())).unwrap();
    let hs = load_handlers("/p", ReadOutcome::Text(text)).unwrap();
    assert_eq!(hs.len(), 1);
    assert_eq!(hs[0].command, "mpv");
    assert_eq!(hs[0].regexes, vec!["\\.mkv$".to_string()]);
}

#[test]
fn saving_no_handlers_on_new_file() {
    let text = save_handlers(&[], "/p", ReadOutcome::NotFound).unwrap();
    assert!(load_handlers("/p", ReadOutcome::Text(text)).unwrap().is_empty());
    assert_eq!(save_handlers(&[], "/p", ReadOutcome::Failed).unwrap_err(), "reading /p");
}

#[test]
fn new_settings_file_text() {
    let cfg = Config { enable_selector: true, selector: "fzf".into(), term_exec_args: "-e".into(), expand_wildcards: false };
    let text = save(&cfg, "/p", ReadOutcome::NotFound).unwrap();
    assert_eq!(text, "enable_selector = true\nselector = \"fzf\"\nterm_exec_args = \"-e\"\nexpand_wildcards = false\n");
}

#[test]
fn saved_settings_load_back_from_existing_file() {
    let existing = "# comment\nselector = \"rofi\"\nother = 3\n";
    let cfg = Config {
        enable_selector: false,
        selector: "fzf --prompt \"> \" \\ é".into(),
        term_exec_args: "".into(),
        expand_wildcards: true,
    };
    let text = save(&cfg, "/p", ReadOutcome::Text(existing.into())).unwrap();
    assert!(text.contains("other = 3"));
    let back = load("/p", ReadOutcome::Text(text)).unwrap();
    assert_eq!(back.enable_selector, cfg.enable_selector);
    assert_eq!(back.selector, cfg.selector);
    assert_eq!(back.term_exec_args, cfg.term_exec_args);
    assert_eq!(back.expand_wildcards, cfg.expand_wildcards);
}
