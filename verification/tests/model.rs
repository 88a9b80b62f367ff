use handlr_gui::handlr::{App, State};
use handlr_gui::model::{
    build_extra_wildcards, build_root_rows, compute_display_handler, exceptions_for,
    handlers_for, lookup_handlers, node_to_row, root_tree, wildcards_in_tree, NodeDef, NodeKind,
    Row, ROOT_LEN,
};

fn state_with(defaults: Vec<(&str, Vec<&str>)>) -> State {
    State {
        defaults: defaults
            .into_iter()
            .map(|(m, hs)| (m.to_string(), hs.into_iter().map(String::from).collect()))
            .collect(),
        system_apps: Vec::<App>::new(),
    }
}

fn all_nodes(nodes: &[NodeDef]) -> Vec<&NodeDef> {
    let mut out = Vec::new();
    for n in nodes {
        out.push(n);
        out.extend(all_nodes(&n.children));
    }
    out
}

#[test]
fn node_to_row_wildcard_category_reads_handlers() {
    let s = state_with(vec![("audio/*", vec!["mpv.desktop"])]);
    let tree = root_tree();
    let node = tree
        .iter()
        .find(|n| matches!(&n.kind, NodeKind::WildcardCategory { mime } if *mime == "audio/*"))
        .unwrap();
    let row = node_to_row(node, &s);
    match row {
        Row::Category { mime, handlers } => {
            assert_eq!(mime, "audio/*");
            assert_eq!(handlers, vec!["mpv.desktop".to_string()]);
        }
        _ => panic!("expected Category"),
    }
}

#[test]
fn node_to_row_seed_exception_reads_handlers() {
    let s = state_with(vec![("x-scheme-handler/discord", vec!["discord.desktop"])]);
    let tree = root_tree();
    let static_node = all_nodes(&tree)
        .into_iter()
        .find(|n| matches!(&n.kind, NodeKind::SeedException { mime } if *mime == "x-scheme-handler/discord"))
        .unwrap();
    let row = node_to_row(static_node, &s);
    match row {
        Row::Exception { mime, handlers } => {
            assert_eq!(mime, "x-scheme-handler/discord");
            assert_eq!(handlers, vec!["discord.desktop".to_string()]);
        }
        _ => panic!("expected Exception"),
    }
}

#[test]
fn compute_display_handler_agrees() {
    assert_eq!(
        compute_display_handler(&[vec!["a.desktop".into()], vec!["a.desktop".into()]]),
        Some("a.desktop".to_string())
    );
}

#[test]
fn compute_display_handler_mixed_returns_none() {
    assert_eq!(
        compute_display_handler(&[vec!["a.desktop".into()], vec!["b.desktop".into()]]),
        None
    );
}

#[test]
fn compute_display_handler_empty_returns_none() {
    assert_eq!(compute_display_handler(&[vec![], vec![]]), None);
}

#[test]
fn build_root_rows_returns_one_per_root_node() {
    let s = state_with(vec![]);
    let rows = build_root_rows(&s);
    assert_eq!(rows.len(), root_tree().len());
}

#[test]
fn build_extra_wildcards_finds_user_wildcards() {
    let s = state_with(vec![
        ("audio/*", vec!["mpv.desktop"]),
        ("font/*", vec!["fontforge.desktop"]),
    ]);
    let extras = build_extra_wildcards(&s);
    assert_eq!(extras.len(), 1);
    match &extras[0] {
        Row::Category { mime, .. } => assert_eq!(mime, "font/*"),
        _ => panic!("expected Category"),
    }
}

#[test]
fn build_extra_wildcards_excludes_all_known_wildcards() {
    let s = state_with(vec![
        ("audio/*", vec!["mpv.desktop"]),
        ("video/*", vec!["mpv.desktop"]),
        ("image/*", vec![]),
        ("text/*", vec![]),
        ("application/*", vec![]),
        ("x-scheme-handler/*", vec![]),
    ]);
    let extras = build_extra_wildcards(&s);
    assert!(extras.is_empty(), "got: {:?}", extras);
}

#[test]
fn exceptions_for_excludes_wildcard_and_star_entries() {
    let s = state_with(vec![
        ("video/*", vec!["mpv.desktop"]),
        ("video/mp4", vec!["vlc.desktop"]),
        ("video/x-mkv", vec!["mpv.desktop"]),
        ("text/plain", vec!["helix.desktop"]),
    ]);
    let rows = exceptions_for("video/*", &s);
    assert_eq!(rows.len(), 2);
    let mimes: Vec<&str> = rows
        .iter()
        .map(|r| match r {
            Row::Exception { mime, .. } => mime.as_str(),
            _ => panic!("expected exception"),
        })
        .collect();
    assert_eq!(mimes, vec!["video/mp4", "video/x-mkv"]);
}

#[test]
fn handlers_for_indices() {
    let handlers = vec!["a.desktop".into(), "b.desktop".into(), "c.desktop".into()];
    let rows = handlers_for("video/*", &handlers);
    assert_eq!(rows.len(), 3);
    for (i, row) in rows.iter().enumerate() {
        match row {
            Row::Handler { mime, desktop, index, total } => {
                assert_eq!(mime, "video/*");
                assert_eq!(*index, i);
                assert_eq!(*total, 3);
                assert_eq!(desktop, &handlers[i]);
            }
            _ => panic!("expected handler"),
        }
    }
}

// ---- further cases ------------------------------------------------------------------

#[test]
fn root_tree_has_groups_then_standard_wildcards() {
    let tree = root_tree();
    assert_eq!(tree.len(), ROOT_LEN);
    for n in &tree[..7] {
        assert!(matches!(n.kind, NodeKind::SemanticGroup { .. }));
    }
    let wild: Vec<&str> = tree[7..]
        .iter()
        .map(|n| match &n.kind {
            NodeKind::WildcardCategory { mime } => mime.as_str(),
            _ => panic!("expected wildcard"),
        })
        .collect();
    assert_eq!(wild, vec!["audio/*", "video/*", "image/*", "text/*", "application/*", "x-scheme-handler/*"]);
}

#[test]
fn wildcards_in_tree_lists_the_known_wildcards() {
    let w = wildcards_in_tree(&root_tree());
    assert!(w.iter().all(|m| m.ends_with("/*")));
    for m in ["audio/*", "video/*", "image/*", "text/*", "application/*", "x-scheme-handler/*"] {
        assert!(w.iter().any(|x| x == m), "{m}");
    }
}

#[test]
fn root_rows_follow_the_outline() {
    let s = state_with(vec![("video/*", vec!["mpv.desktop", "vlc.desktop"])]);
    let rows = build_root_rows(&s);
    assert!(matches!(rows[0], Row::SemanticGroup { .. }));
    match &rows[8] {
        Row::Category { mime, handlers } => {
            assert_eq!(mime, "video/*");
            assert_eq!(handlers, &vec!["mpv.desktop".to_string(), "vlc.desktop".to_string()]);
        }
        _ => panic!("expected Category"),
    }
}

#[test]
fn extra_wildcards_sorted_and_without_handlers_too() {
    let s = state_with(vec![("model/*", vec![]), ("font/*", vec!["f.desktop"]), ("font/ttf", vec!["g.desktop"])]);
    let extras = build_extra_wildcards(&s);
    let mimes: Vec<&str> = extras
        .iter()
        .map(|r| match r {
            Row::Category { mime, .. } => mime.as_str(),
            _ => panic!("expected Category"),
        })
        .collect();
    assert_eq!(mimes, vec!["font/*", "model/*"]);
}

#[test]
fn exceptions_for_later_entry_wins_and_sorted() {
    let s = state_with(vec![
        ("video/webm", vec!["a.desktop"]),
        ("video/avi", vec!["b.desktop"]),
        ("video/webm", vec!["c.desktop"]),
        ("videos/x", vec!["d.desktop"]),
    ]);
    let rows = exceptions_for("video/*", &s);
    let got: Vec<(String, Vec<String>)> = rows
        .iter()
        .map(|r| match r {
            Row::Exception { mime, handlers } => (mime.clone(), handlers.clone()),
            _ => panic!("expected exception"),
        })
        .collect();
    assert_eq!(
        got,
        vec![
            ("video/avi".to_string(), vec!["b.desktop".to_string()]),
            ("video/webm".to_string(), vec!["c.desktop".to_string()]),
        ]
    );
}

#[test]
fn compute_display_handler_uses_first_handlers() {
    assert_eq!(
        compute_display_handler(&[vec!["a.desktop".into(), "x.desktop".into()], vec!["a.desktop".into()]]),
        Some("a.desktop".to_string())
    );
    assert_eq!(
        compute_display_handler(&[vec!["a.desktop".into()], vec![]]),
        Some("a.desktop".to_string())
    );
    assert_eq!(compute_display_handler(&[]), None);
}

#[test]
fn lookup_handlers_takes_first_entry() {
    let s = state_with(vec![("a/b", vec!["x.desktop"]), ("a/b", vec!["y.desktop"])]);
    assert_eq!(lookup_handlers(&s, "a/b"), vec!["x.desktop".to_string()]);
    assert!(lookup_handlers(&s, "a/c").is_empty());
}

#[test]
fn root_tree_outline_details() {
    let tree = root_tree();
    match (&tree[0].kind, &tree[0].children[0].kind) {
        (NodeKind::SemanticGroup { name, icon }, NodeKind::BatchGroup { name: b, mimes, .. }) => {
            assert_eq!(name, "System defaults");
            assert_eq!(icon, "preferences-system-symbolic");
            assert_eq!(b, "Directory opener");
            assert_eq!(mimes, &vec!["inode/directory".to_string()]);
        }
        _ => panic!("unexpected outline"),
    }
    match &tree[1].children[0].kind {
        NodeKind::BatchGroup { name, mimes, .. } => {
            assert_eq!(name, "PDF viewer");
            assert_eq!(mimes, &vec!["application/pdf".to_string()]);
        }
        _ => panic!("unexpected outline"),
    }
}
