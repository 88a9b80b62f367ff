//! The Defaults tree: the fixed outline of groups, batch groups, wildcard categories
//! and seed exceptions, and the rows built from it and the live association state.

use vstd::prelude::*;
use crate::handlr::State;
use crate::handlr::defaults_view;
use crate::handlr::clone_strings;
use crate::sort::keyed;
use crate::sort::lemma_keyed_edits;
use crate::sort::lemma_sort_map_vals;
use crate::sort::map_vals;
use crate::sort::sort_by_key_str;
use crate::sort::sort_stable;
use crate::text::ends_with;
use crate::text::lemma_lex_total;
use crate::text::lemma_lex_trans;
use crate::text::lex_lt;
use crate::text::starts_with;
use crate::text::str_ends_with;
use crate::text::str_eq;
use crate::text::str_lt;
use crate::text::str_starts_with;

verus! {

/// The kind of a node of the fixed outline.
#[derive(Debug, Clone)]
pub enum NodeKind {
    /// Pure container: a collapsible section with a label and an icon.
    SemanticGroup { name: String, icon: String },
    /// Sets every listed MIME type to the same handler in one action.
    BatchGroup { name: String, icon: String, mimes: Vec<String> },
    /// A wildcard MIME category such as `audio/*`.
    WildcardCategory { mime: String },
    /// An exact MIME type always shown as an exception row.
    SeedException { mime: String },
}

/// A node of the fixed outline with its children.
#[derive(Debug)]
pub struct NodeDef {
    pub kind: NodeKind,
    pub children: Vec<NodeDef>,
}

/// Wildcard categories a node contributes by itself.
pub open spec fn own_wildcards(n: NodeDef) -> Set<Seq<char>> {
    match n.kind {
        NodeKind::WildcardCategory { mime } => set![mime@],
        _ => Set::empty(),
    }
}

/// Wildcard categories anywhere in a node's subtree.
pub open spec fn node_wildcards(n: NodeDef) -> Set<Seq<char>>
    decreases n,
{
    own_wildcards(n).union(tree_wildcards(n.children@))
}

/// Wildcard categories anywhere in a list of subtrees.
pub open spec fn tree_wildcards(ns: Seq<NodeDef>) -> Set<Seq<char>>
    decreases ns,
{
    if ns.len() == 0 {
        Set::empty()
    } else {
        tree_wildcards(ns.drop_last()).union(node_wildcards(ns.last()))
    }
}

/// The wildcard categories of the outline.
pub open spec fn root_wildcards() -> Set<Seq<char>> {
    set![
        "audio/*"@,
        "video/*"@,
        "image/*"@,
        "text/*"@,
        "application/*"@,
        "x-scheme-handler/*"@,
    ]
}

fn new_nodes() -> (r: Vec<NodeDef>)
    ensures
        r@.len() == 0,
        nodes_view(r@) == Seq::<NodeView>::empty(),
        tree_wildcards(r@) == Set::<Seq<char>>::empty(),
{
    Vec::new()
}

fn new_mimes() -> (r: Vec<String>)
    ensures
        r.deep_view() == Seq::<Seq<char>>::empty(),
{
    let r: Vec<String> = Vec::new();
    assert(r.deep_view() =~= Seq::<Seq<char>>::empty());
    r
}

fn push_str(v: &mut Vec<String>, s: &str)
    ensures
        final(v).deep_view() == old(v).deep_view().push(s@),
{
    let ghost before = v.deep_view();
    v.push(String::from_str(s));
    assert(v.deep_view() =~= before.push(s@));
}

fn push_node(v: &mut Vec<NodeDef>, n: NodeDef)
    ensures
        final(v)@ == old(v)@.push(n),
        nodes_view(final(v)@) == nodes_view(old(v)@).push(node_view(n)),
        tree_wildcards(final(v)@) == tree_wildcards(old(v)@).union(node_wildcards(n)),
        tree_wildcards(old(v)@) == Set::<Seq<char>>::empty() && node_wildcards(n) == Set::<
            Seq<char>,
        >::empty() ==> tree_wildcards(final(v)@) == Set::<Seq<char>>::empty(),
{
    let ghost before = v@;
    v.push(n);
    assert(v@.drop_last() =~= before);
    assert(Set::<Seq<char>>::empty().union(Set::<Seq<char>>::empty()) =~= Set::<Seq<char>>::empty());
}

fn seed(mime: &str) -> (r: NodeDef)
    ensures
        r.kind matches NodeKind::SeedException { mime: m } && m@ == mime@,
        node_view(r) == seed_view(mime@),
        node_wildcards(r) == Set::<Seq<char>>::empty(),
{
    let r = NodeDef { kind: NodeKind::SeedException { mime: String::from_str(mime) }, children: Vec::new() };
    assert(node_wildcards(r) =~= Set::<Seq<char>>::empty());
    r
}

fn wildcard(mime: &str) -> (r: NodeDef)
    ensures
        r.kind matches NodeKind::WildcardCategory { mime: m } && m@ == mime@,
        node_view(r) == wildcard_view(mime@),
        node_wildcards(r) == set![mime@],
{
    let r = NodeDef { kind: NodeKind::WildcardCategory { mime: String::from_str(mime) }, children: Vec::new() };
    assert(node_wildcards(r) =~= set![mime@]);
    r
}

fn batch(name: &str, icon: &str, mimes: Vec<String>) -> (r: NodeDef)
    ensures
        r.kind matches NodeKind::BatchGroup { name: n, icon: i, mimes: ms } && n@ == name@ && i@ == icon@
            && ms == mimes,
        node_view(r) == batch_view(name@, icon@, mimes.deep_view()),
        node_wildcards(r) == Set::<Seq<char>>::empty(),
{
    let r = NodeDef {
        kind: NodeKind::BatchGroup { name: String::from_str(name), icon: String::from_str(icon), mimes },
        children: Vec::new(),
    };
    assert(node_wildcards(r) =~= Set::<Seq<char>>::empty());
    r
}

fn group(name: &str, icon: &str, children: Vec<NodeDef>) -> (r: NodeDef)
    requires
        tree_wildcards(children@) == Set::<Seq<char>>::empty(),
    ensures
        r.kind matches NodeKind::SemanticGroup { name: n, icon: i } && n@ == name@ && i@ == icon@,
        node_view(r) == group_view(name@, icon@, nodes_view(children@)),
        node_wildcards(r) == Set::<Seq<char>>::empty(),
{
    let r = NodeDef {
        kind: NodeKind::SemanticGroup { name: String::from_str(name), icon: String::from_str(icon) },
        children,
    };
    assert(node_wildcards(r) =~= Set::<Seq<char>>::empty());
    r
}

/// A seed exception node.
pub open spec fn seed_view(mime: Seq<char>) -> NodeView {
    NodeView { kind: KindView::SeedException { mime }, children: Seq::empty() }
}

/// A wildcard category node.
pub open spec fn wildcard_view(mime: Seq<char>) -> NodeView {
    NodeView { kind: KindView::WildcardCategory { mime }, children: Seq::empty() }
}

/// A batch group node setting the listed MIME types together.
pub open spec fn batch_view(name: Seq<char>, icon: Seq<char>, mimes: Seq<Seq<char>>) -> NodeView {
    NodeView { kind: KindView::BatchGroup { name, icon, mimes }, children: Seq::empty() }
}

/// A semantic group node with its children.
pub open spec fn group_view(name: Seq<char>, icon: Seq<char>, children: Seq<NodeView>) -> NodeView {
    NodeView { kind: KindView::SemanticGroup { name, icon }, children }
}

/// The fixed outline of the Defaults tree, node by node: seven semantic groups (with
/// their batch groups, seed exceptions and nested groups), then the six standard
/// wildcard categories.
pub open spec fn root_outline() -> Seq<NodeView> {
    Seq::empty()
        .push(group_view("System defaults"@, "preferences-system-symbolic"@, Seq::empty()
            .push(batch_view("Directory opener"@, "folder-symbolic"@, Seq::empty()
                .push("inode/directory"@)))
            .push(batch_view("Web browser"@, "web-browser-symbolic"@, Seq::empty()
                .push("x-scheme-handler/http"@)
                .push("x-scheme-handler/https"@)
                .push("x-scheme-handler/chrome"@)
                .push("text/html"@)
                .push("application/xhtml+xml"@)))
            .push(batch_view("Email client"@, "mail-unread-symbolic"@, Seq::empty()
                .push("x-scheme-handler/mailto"@)))
            .push(batch_view("Terminal"@, "utilities-terminal-symbolic"@, Seq::empty()
                .push("x-scheme-handler/terminal"@)))))
        .push(group_view("Documents & Files"@, "folder-documents-symbolic"@, Seq::empty()
            .push(batch_view("PDF viewer"@, "application-pdf-symbolic"@, Seq::empty()
                .push("application/pdf"@)))
            .push(batch_view("E-book reader"@, "accessories-ebook-reader-symbolic"@, Seq::empty()
                .push("application/epub+zip"@)
                .push("application/x-mobipocket-ebook"@)
                .push("application/x-fictionbook+xml"@)))
            .push(group_view("Office documents"@, "x-office-document-symbolic"@, Seq::empty()
                .push(batch_view("Word processor"@, "x-office-document-symbolic"@, Seq::empty()
                    .push("application/vnd.oasis.opendocument.text"@)
                    .push("application/vnd.openxmlformats-officedocument.wordprocessingml.document"@)
                    .push("application/msword"@)
                    .push("text/rtf"@)))
                .push(batch_view("Spreadsheet"@, "x-office-spreadsheet-symbolic"@, Seq::empty()
                    .push("application/vnd.oasis.opendocument.spreadsheet"@)
                    .push("application/vnd.openxmlformats-officedocument.spreadsheetml.sheet"@)
                    .push("application/vnd.ms-excel"@)
                    .push("text/csv"@)))
                .push(batch_view("Presentation"@, "x-office-presentation-symbolic"@, Seq::empty()
                    .push("application/vnd.oasis.opendocument.presentation"@)
                    .push("application/vnd.openxmlformats-officedocument.presentationml.presentation"@)
                    .push("application/vnd.ms-powerpoint"@)))))
            .push(batch_view("Archive manager"@, "package-x-generic-symbolic"@, Seq::empty()
                .push("application/zip"@)
                .push("application/x-tar"@)
                .push("application/x-bzip2"@)
                .push("application/gzip"@)
                .push("application/x-7z-compressed"@)
                .push("application/x-rar"@)
                .push("application/x-xz"@)
                .push("application/zstd"@)))
            .push(group_view("System packages"@, "system-software-install-symbolic"@, Seq::empty()
                .push(seed_view("application/x-deb"@))
                .push(seed_view("application/x-rpm"@))
                .push(seed_view("application/vnd.appimage"@))
                .push(seed_view("application/x-ms-dos-executable"@))
                .push(seed_view("application/x-cd-image"@))))))
        .push(group_view("Internet & Communication"@, "network-workgroup-symbolic"@, Seq::empty()
            .push(batch_view("Feed reader"@, "application-rss+xml-symbolic"@, Seq::empty()
                .push("x-scheme-handler/feed"@)
                .push("x-scheme-handler/feeds"@)
                .push("application/rss+xml"@)
                .push("application/atom+xml"@)))
            .push(batch_view("Calendar"@, "x-office-calendar-symbolic"@, Seq::empty()
                .push("text/calendar"@)
                .push("x-scheme-handler/webcal"@)))
            .push(group_view("Messaging"@, "user-available-symbolic"@, Seq::empty()
                .push(seed_view("x-scheme-handler/discord"@))
                .push(seed_view("x-scheme-handler/slack"@))
                .push(seed_view("x-scheme-handler/telegram-desktop"@))
                .push(seed_view("x-scheme-handler/tg"@))
                .push(seed_view("x-scheme-handler/signal"@))
                .push(seed_view("x-scheme-handler/element"@))
                .push(seed_view("x-scheme-handler/mattermost"@))
                .push(seed_view("x-scheme-handler/zoom"@))
                .push(seed_view("x-scheme-handler/teams"@))
                .push(seed_view("x-scheme-handler/skype"@))
                .push(seed_view("x-scheme-handler/viber"@))
                .push(group_view("Protocol URIs"@, "network-server-symbolic"@, Seq::empty()
                    .push(seed_view("x-scheme-handler/xmpp"@))
                    .push(seed_view("x-scheme-handler/matrix"@))
                    .push(seed_view("x-scheme-handler/irc"@))
                    .push(seed_view("x-scheme-handler/ircs"@))
                    .push(seed_view("x-scheme-handler/sip"@))
                    .push(seed_view("x-scheme-handler/tel"@))))))))
        .push(group_view("Media"@, "applications-multimedia-symbolic"@, Seq::empty()
            .push(batch_view("Torrent client"@, "network-transmit-receive-symbolic"@, Seq::empty()
                .push("x-scheme-handler/magnet"@)
                .push("application/x-bittorrent"@)))
            .push(seed_view("x-scheme-handler/spotify"@))))
        .push(group_view("Gaming"@, "applications-games-symbolic"@, Seq::empty()
            .push(seed_view("x-scheme-handler/steam"@))
            .push(seed_view("x-scheme-handler/lutris"@))
            .push(seed_view("x-scheme-handler/heroic"@))
            .push(seed_view("x-scheme-handler/itch"@))
            .push(seed_view("x-scheme-handler/minecraftlauncher"@))
            .push(seed_view("x-scheme-handler/prismlauncher"@))))
        .push(group_view("Development"@, "applications-development-symbolic"@, Seq::empty()
            .push(group_view("Code editors"@, "text-editor-symbolic"@, Seq::empty()
                .push(seed_view("x-scheme-handler/vscode"@))
                .push(seed_view("x-scheme-handler/vscode-insiders"@))
                .push(seed_view("x-scheme-handler/vscodium"@))
                .push(seed_view("x-scheme-handler/cursor"@))))
            .push(group_view("IDEs & Dev tools"@, "applications-development-symbolic"@, Seq::empty()
                .push(seed_view("x-scheme-handler/jetbrains-toolbox"@))
                .push(seed_view("x-scheme-handler/idea"@))
                .push(seed_view("x-scheme-handler/rider"@))
                .push(seed_view("x-scheme-handler/webstorm"@))
                .push(seed_view("x-scheme-handler/pycharm"@))
                .push(seed_view("x-scheme-handler/clion"@))
                .push(seed_view("x-scheme-handler/github-desktop"@))
                .push(seed_view("x-scheme-handler/gitkraken"@))))))
        .push(group_view("Security & Passwords"@, "security-high-symbolic"@, Seq::empty()
            .push(seed_view("x-scheme-handler/bitwarden"@))
            .push(seed_view("x-scheme-handler/1password"@))
            .push(seed_view("x-scheme-handler/lastpass"@))
            .push(seed_view("x-scheme-handler/dashlane"@))))
        .push(wildcard_view("audio/*"@))
        .push(wildcard_view("video/*"@))
        .push(wildcard_view("image/*"@))
        .push(wildcard_view("text/*"@))
        .push(wildcard_view("application/*"@))
        .push(wildcard_view("x-scheme-handler/*"@))
}

/// Number of top-level nodes of the outline.
pub const ROOT_LEN: usize = 13;

/// The fixed outline of the Defaults tree: seven semantic groups, then the six
/// standard wildcard categories.
pub fn root_tree() -> (r: Vec<NodeDef>)
    ensures
        r@.len() == ROOT_LEN,
        tree_wildcards(r@) == root_wildcards(),
        forall|i: int| 0 <= i < 7 ==> (#[trigger] r@[i]).kind is SemanticGroup,
        r@[7].kind matches NodeKind::WildcardCategory { mime } && mime@ == "audio/*"@,
        r@[8].kind matches NodeKind::WildcardCategory { mime } && mime@ == "video/*"@,
        r@[9].kind matches NodeKind::WildcardCategory { mime } && mime@ == "image/*"@,
        r@[10].kind matches NodeKind::WildcardCategory { mime } && mime@ == "text/*"@,
        r@[11].kind matches NodeKind::WildcardCategory { mime } && mime@ == "application/*"@,
        r@[12].kind matches NodeKind::WildcardCategory { mime } && mime@ == "x-scheme-handler/*"@,
        nodes_view(r@) == root_outline(),
{
    let mut m2: Vec<String> = new_mimes();
    push_str(&mut m2, "inode/directory");
    let mut m3: Vec<String> = new_mimes();
    push_str(&mut m3, "x-scheme-handler/http");
    push_str(&mut m3, "x-scheme-handler/https");
    push_str(&mut m3, "x-scheme-handler/chrome");
    push_str(&mut m3, "text/html");
    push_str(&mut m3, "application/xhtml+xml");
    let mut m4: Vec<String> = new_mimes();
    push_str(&mut m4, "x-scheme-handler/mailto");
    let mut m5: Vec<String> = new_mimes();
    push_str(&mut m5, "x-scheme-handler/terminal");
    let mut g1: Vec<NodeDef> = new_nodes();
    push_node(&mut g1, batch("Directory opener", "folder-symbolic", m2));
    push_node(&mut g1, batch("Web browser", "web-browser-symbolic", m3));
    push_node(&mut g1, batch("Email client", "mail-unread-symbolic", m4));
    push_node(&mut g1, batch("Terminal", "utilities-terminal-symbolic", m5));
    let mut m7: Vec<String> = new_mimes();
    push_str(&mut m7, "application/pdf");
    let mut m8: Vec<String> = new_mimes();
    push_str(&mut m8, "application/epub+zip");
    push_str(&mut m8, "application/x-mobipocket-ebook");
    push_str(&mut m8, "application/x-fictionbook+xml");
    let mut m10: Vec<String> = new_mimes();
    push_str(&mut m10, "application/vnd.oasis.opendocument.text");
    push_str(&mut m10, "application/vnd.openxmlformats-officedocument.wordprocessingml.document");
    push_str(&mut m10, "application/msword");
    push_str(&mut m10, "text/rtf");
    let mut m11: Vec<String> = new_mimes();
    push_str(&mut m11, "application/vnd.oasis.opendocument.spreadsheet");
    push_str(&mut m11, "application/vnd.openxmlformats-officedocument.spreadsheetml.sheet");
    push_str(&mut m11, "application/vnd.ms-excel");
    push_str(&mut m11, "text/csv");
    let mut m12: Vec<String> = new_mimes();
    push_str(&mut m12, "application/vnd.oasis.opendocument.presentation");
    push_str(&mut m12, "application/vnd.openxmlformats-officedocument.presentationml.presentation");
    push_str(&mut m12, "application/vnd.ms-powerpoint");
    let mut g9: Vec<NodeDef> = new_nodes();
    push_node(&mut g9, batch("Word processor", "x-office-document-symbolic", m10));
    push_node(&mut g9, batch("Spreadsheet", "x-office-spreadsheet-symbolic", m11));
    push_node(&mut g9, batch("Presentation", "x-office-presentation-symbolic", m12));
    let mut m13: Vec<String> = new_mimes();
    push_str(&mut m13, "application/zip");
    push_str(&mut m13, "application/x-tar");
    push_str(&mut m13, "application/x-bzip2");
    push_str(&mut m13, "application/gzip");
    push_str(&mut m13, "application/x-7z-compressed");
    push_str(&mut m13, "application/x-rar");
    push_str(&mut m13, "application/x-xz");
    push_str(&mut m13, "application/zstd");
    let mut g14: Vec<NodeDef> = new_nodes();
    push_node(&mut g14, seed("application/x-deb"));
    push_node(&mut g14, seed("application/x-rpm"));
    push_node(&mut g14, seed("application/vnd.appimage"));
    push_node(&mut g14, seed("application/x-ms-dos-executable"));
    push_node(&mut g14, seed("application/x-cd-image"));
    let mut g6: Vec<NodeDef> = new_nodes();
    push_node(&mut g6, batch("PDF viewer", "application-pdf-symbolic", m7));
    push_node(&mut g6, batch("E-book reader", "accessories-ebook-reader-symbolic", m8));
    push_node(&mut g6, group("Office documents", "x-office-document-symbolic", g9));
    push_node(&mut g6, batch("Archive manager", "package-x-generic-symbolic", m13));
    push_node(&mut g6, group("System packages", "system-software-install-symbolic", g14));
    let mut m16: Vec<String> = new_mimes();
    push_str(&mut m16, "x-scheme-handler/feed");
    push_str(&mut m16, "x-scheme-handler/feeds");
    push_str(&mut m16, "application/rss+xml");
    push_str(&mut m16, "application/atom+xml");
    let mut m17: Vec<String> = new_mimes();
    push_str(&mut m17, "text/calendar");
    push_str(&mut m17, "x-scheme-handler/webcal");
    let mut g19: Vec<NodeDef> = new_nodes();
    push_node(&mut g19, seed("x-scheme-handler/xmpp"));
    push_node(&mut g19, seed("x-scheme-handler/matrix"));
    push_node(&mut g19, seed("x-scheme-handler/irc"));
    push_node(&mut g19, seed("x-scheme-handler/ircs"));
    push_node(&mut g19, seed("x-scheme-handler/sip"));
    push_node(&mut g19, seed("x-scheme-handler/tel"));
    let mut g18: Vec<NodeDef> = new_nodes();
    push_node(&mut g18, seed("x-scheme-handler/discord"));
    push_node(&mut g18, seed("x-scheme-handler/slack"));
    push_node(&mut g18, seed("x-scheme-handler/telegram-desktop"));
    push_node(&mut g18, seed("x-scheme-handler/tg"));
    push_node(&mut g18, seed("x-scheme-handler/signal"));
    push_node(&mut g18, seed("x-scheme-handler/element"));
    push_node(&mut g18, seed("x-scheme-handler/mattermost"));
    push_node(&mut g18, seed("x-scheme-handler/zoom"));
    push_node(&mut g18, seed("x-scheme-handler/teams"));
    push_node(&mut g18, seed("x-scheme-handler/skype"));
    push_node(&mut g18, seed("x-scheme-handler/viber"));
    push_node(&mut g18, group("Protocol URIs", "network-server-symbolic", g19));
    let mut g15: Vec<NodeDef> = new_nodes();
    push_node(&mut g15, batch("Feed reader", "application-rss+xml-symbolic", m16));
    push_node(&mut g15, batch("Calendar", "x-office-calendar-symbolic", m17));
    push_node(&mut g15, group("Messaging", "user-available-symbolic", g18));
    let mut m21: Vec<String> = new_mimes();
    push_str(&mut m21, "x-scheme-handler/magnet");
    push_str(&mut m21, "application/x-bittorrent");
    let mut g20: Vec<NodeDef> = new_nodes();
    push_node(&mut g20, batch("Torrent client", "network-transmit-receive-symbolic", m21));
    push_node(&mut g20, seed("x-scheme-handler/spotify"));
    let mut g22: Vec<NodeDef> = new_nodes();
    push_node(&mut g22, seed("x-scheme-handler/steam"));
    push_node(&mut g22, seed("x-scheme-handler/lutris"));
    push_node(&mut g22, seed("x-scheme-handler/heroic"));
    push_node(&mut g22, seed("x-scheme-handler/itch"));
    push_node(&mut g22, seed("x-scheme-handler/minecraftlauncher"));
    push_node(&mut g22, seed("x-scheme-handler/prismlauncher"));
    let mut g24: Vec<NodeDef> = new_nodes();
    push_node(&mut g24, seed("x-scheme-handler/vscode"));
    push_node(&mut g24, seed("x-scheme-handler/vscode-insiders"));
    push_node(&mut g24, seed("x-scheme-handler/vscodium"));
    push_node(&mut g24, seed("x-scheme-handler/cursor"));
    let mut g25: Vec<NodeDef> = new_nodes();
    push_node(&mut g25, seed("x-scheme-handler/jetbrains-toolbox"));
    push_node(&mut g25, seed("x-scheme-handler/idea"));
    push_node(&mut g25, seed("x-scheme-handler/rider"));
    push_node(&mut g25, seed("x-scheme-handler/webstorm"));
    push_node(&mut g25, seed("x-scheme-handler/pycharm"));
    push_node(&mut g25, seed("x-scheme-handler/clion"));
    push_node(&mut g25, seed("x-scheme-handler/github-desktop"));
    push_node(&mut g25, seed("x-scheme-handler/gitkraken"));
    let mut g23: Vec<NodeDef> = new_nodes();
    push_node(&mut g23, group("Code editors", "text-editor-symbolic", g24));
    push_node(&mut g23, group("IDEs & Dev tools", "applications-development-symbolic", g25));
    let mut g26: Vec<NodeDef> = new_nodes();
    push_node(&mut g26, seed("x-scheme-handler/bitwarden"));
    push_node(&mut g26, seed("x-scheme-handler/1password"));
    push_node(&mut g26, seed("x-scheme-handler/lastpass"));
    push_node(&mut g26, seed("x-scheme-handler/dashlane"));
    let mut root: Vec<NodeDef> = new_nodes();
    push_node(&mut root, group("System defaults", "preferences-system-symbolic", g1));
    push_node(&mut root, group("Documents & Files", "folder-documents-symbolic", g6));
    push_node(&mut root, group("Internet & Communication", "network-workgroup-symbolic", g15));
    push_node(&mut root, group("Media", "applications-multimedia-symbolic", g20));
    push_node(&mut root, group("Gaming", "applications-games-symbolic", g22));
    push_node(&mut root, group("Development", "applications-development-symbolic", g23));
    push_node(&mut root, group("Security & Passwords", "security-high-symbolic", g26));
    push_node(&mut root, wildcard("audio/*"));
    push_node(&mut root, wildcard("video/*"));
    push_node(&mut root, wildcard("image/*"));
    push_node(&mut root, wildcard("text/*"));
    push_node(&mut root, wildcard("application/*"));
    push_node(&mut root, wildcard("x-scheme-handler/*"));
    assert(tree_wildcards(Seq::<NodeDef>::empty()) =~= Set::<Seq<char>>::empty());
    assert(tree_wildcards(root@) =~= root_wildcards());
    root
}

// ---------------------------------------------------------------------------------------
// Views of the outline

/// Mathematical form of a [`NodeKind`].
pub enum KindView {
    SemanticGroup { name: Seq<char>, icon: Seq<char> },
    BatchGroup { name: Seq<char>, icon: Seq<char>, mimes: Seq<Seq<char>> },
    WildcardCategory { mime: Seq<char> },
    SeedException { mime: Seq<char> },
}

/// Mathematical form of a [`NodeDef`].
pub struct NodeView {
    pub kind: KindView,
    pub children: Seq<NodeView>,
}

/// Mathematical form of a [`NodeKind`].
pub open spec fn kind_view(k: NodeKind) -> KindView {
    match k {
        NodeKind::SemanticGroup { name, icon } => KindView::SemanticGroup { name: name@, icon: icon@ },
        NodeKind::BatchGroup { name, icon, mimes } => KindView::BatchGroup {
            name: name@,
            icon: icon@,
            mimes: mimes.deep_view(),
        },
        NodeKind::WildcardCategory { mime } => KindView::WildcardCategory { mime: mime@ },
        NodeKind::SeedException { mime } => KindView::SeedException { mime: mime@ },
    }
}

/// Mathematical form of a [`NodeDef`], children included.
pub open spec fn node_view(n: NodeDef) -> NodeView
    decreases n,
{
    NodeView { kind: kind_view(n.kind), children: nodes_view(n.children@) }
}

/// Mathematical forms of a list of nodes.
pub open spec fn nodes_view(ns: Seq<NodeDef>) -> Seq<NodeView>
    decreases ns,
{
    if ns.len() == 0 {
        Seq::empty()
    } else {
        nodes_view(ns.drop_last()).push(node_view(ns.last()))
    }
}

impl NodeKind {
    /// A copy of this kind.
    pub fn duplicate(&self) -> (r: NodeKind)
        ensures
            kind_view(r) == kind_view(*self),
    {
        match self {
            NodeKind::SemanticGroup { name, icon } => NodeKind::SemanticGroup {
                name: name.clone(),
                icon: icon.clone(),
            },
            NodeKind::BatchGroup { name, icon, mimes } => NodeKind::BatchGroup {
                name: name.clone(),
                icon: icon.clone(),
                mimes: clone_strings(mimes),
            },
            NodeKind::WildcardCategory { mime } => NodeKind::WildcardCategory { mime: mime.clone() },
            NodeKind::SeedException { mime } => NodeKind::SeedException { mime: mime.clone() },
        }
    }
}

impl NodeDef {
    /// A copy of this node and its whole subtree.
    pub fn duplicate(&self) -> (r: NodeDef)
        ensures
            node_view(r) == node_view(*self),
        decreases self,
    {
        NodeDef { kind: self.kind.duplicate(), children: duplicate_nodes(&self.children) }
    }
}

/// A copy of a list of subtrees.
pub fn duplicate_nodes(v: &Vec<NodeDef>) -> (r: Vec<NodeDef>)
    ensures
        nodes_view(r@) == nodes_view(v@),
    decreases v,
{
    let mut out: Vec<NodeDef> = Vec::new();
    let mut i: usize = 0;
    while i < v.len()
        invariant
            i <= v.len(),
            nodes_view(out@) == nodes_view(v@.take(i as int)),
        decreases v.len() - i,
    {
        proof {
            vstd::std_specs::vec::axiom_vec_index_decreases(*v, i as int);
        }
        let ghost before = out@;
        let c = v[i].duplicate();
        out.push(c);
        assert(out@.drop_last() =~= before);
        assert(v@.take(i + 1).drop_last() =~= v@.take(i as int));
        assert(v@.take(i + 1).last() == v@[i as int]);
        i = i + 1;
    }
    assert(v@.take(v.len() as int) =~= v@);
    out
}

// ---------------------------------------------------------------------------------------
// Rows

/// One row of the Defaults tree.
#[derive(Debug)]
pub enum Row {
    /// Pure container; its children come from the outline.
    SemanticGroup { name: String, icon_name: String, static_children: Vec<NodeDef> },
    /// Sets every listed MIME type to the same handler in one action.
    BatchGroup {
        name: String,
        icon_name: String,
        mimes: Vec<String>,
        prior_handlers: Vec<Vec<String>>,
        display_handler: Option<String>,
    },
    /// One child row per MIME type inside a batch group.
    BatchMime { mime: String, mime_handlers: Vec<String>, group_handler: Option<String> },
    Category { mime: String, handlers: Vec<String> },
    Exception { mime: String, handlers: Vec<String> },
    Handler { mime: String, desktop: String, index: usize, total: usize },
    AddException { category_mime: String },
}

/// Mathematical form of a [`Row`].
pub enum RowView {
    SemanticGroup { name: Seq<char>, icon_name: Seq<char>, static_children: Seq<NodeView> },
    BatchGroup {
        name: Seq<char>,
        icon_name: Seq<char>,
        mimes: Seq<Seq<char>>,
        prior_handlers: Seq<Seq<Seq<char>>>,
        display_handler: Option<Seq<char>>,
    },
    BatchMime { mime: Seq<char>, mime_handlers: Seq<Seq<char>>, group_handler: Option<Seq<char>> },
    Category { mime: Seq<char>, handlers: Seq<Seq<char>> },
    Exception { mime: Seq<char>, handlers: Seq<Seq<char>> },
    Handler { mime: Seq<char>, desktop: Seq<char>, index: usize, total: usize },
    AddException { category_mime: Seq<char> },
}

impl View for Row {
    type V = RowView;

    open spec fn view(&self) -> RowView {
        match self {
            Row::SemanticGroup { name, icon_name, static_children } => RowView::SemanticGroup {
                name: name@,
                icon_name: icon_name@,
                static_children: nodes_view(static_children@),
            },
            Row::BatchGroup { name, icon_name, mimes, prior_handlers, display_handler } =>
                RowView::BatchGroup {
                name: name@,
                icon_name: icon_name@,
                mimes: mimes.deep_view(),
                prior_handlers: prior_handlers.deep_view(),
                display_handler: display_handler.deep_view(),
            },
            Row::BatchMime { mime, mime_handlers, group_handler } => RowView::BatchMime {
                mime: mime@,
                mime_handlers: mime_handlers.deep_view(),
                group_handler: group_handler.deep_view(),
            },
            Row::Category { mime, handlers } => RowView::Category {
                mime: mime@,
                handlers: handlers.deep_view(),
            },
            Row::Exception { mime, handlers } => RowView::Exception {
                mime: mime@,
                handlers: handlers.deep_view(),
            },
            Row::Handler { mime, desktop, index, total } => RowView::Handler {
                mime: mime@,
                desktop: desktop@,
                index: *index,
                total: *total,
            },
            Row::AddException { category_mime } => RowView::AddException {
                category_mime: category_mime@,
            },
        }
    }
}

/// Row views of a list of rows.
pub open spec fn rows_view(rows: Seq<Row>) -> Seq<RowView> {
    rows.map_values(|r: Row| r@)
}

/// Handler list of the first default entry for `mime`, or none.
pub open spec fn lookup(defs: Seq<(Seq<char>, Seq<Seq<char>>)>, mime: Seq<char>) -> Seq<Seq<char>>
    decreases defs.len(),
{
    if defs.len() == 0 {
        Seq::empty()
    } else if defs[0].0 == mime {
        defs[0].1
    } else {
        lookup(defs.drop_first(), mime)
    }
}

/// Handler list of the first default entry for `mime`, or an empty list.
pub fn lookup_handlers(state: &State, mime: &str) -> (r: Vec<String>)
    ensures
        r.deep_view() == lookup(defaults_view(state), mime@),
{
    let ghost defs = defaults_view(state);
    let mut i: usize = 0;
    assert(defs.skip(0) =~= defs);
    while i < state.defaults.len()
        invariant
            i <= state.defaults.len(),
            defs == defaults_view(state),
            lookup(defs, mime@) == lookup(defs.skip(i as int), mime@),
        decreases state.defaults.len() - i,
    {
        assert(defs.skip(i as int)[0] == defs[i as int]);
        if crate::text::str_eq(state.defaults[i].0.as_str(), mime) {
            return clone_strings(&state.defaults[i].1);
        }
        assert(defs.skip(i as int).drop_first() =~= defs.skip(i + 1));
        i = i + 1;
    }
    Vec::new()
}

/// First handlers of the non-empty lists, in order.
pub open spec fn firsts(ps: Seq<Seq<Seq<char>>>) -> Seq<Seq<char>>
    decreases ps.len(),
{
    if ps.len() == 0 {
        Seq::empty()
    } else if ps.last().len() > 0 {
        firsts(ps.drop_last()).push(ps.last()[0])
    } else {
        firsts(ps.drop_last())
    }
}

/// The handler a batch group shows: the common first handler when every configured
/// MIME type agrees on it, none when none is configured or they disagree.
pub open spec fn display_spec(ps: Seq<Seq<Seq<char>>>) -> Option<Seq<char>> {
    let fs = firsts(ps);
    if fs.len() == 0 {
        None
    } else if forall|i: int| 0 <= i < fs.len() ==> #[trigger] fs[i] == fs[0] {
        Some(fs[0])
    } else {
        None
    }
}

/// `Some(desktop)` iff every configured MIME type of the group has the same first
/// handler; `None` when all are unset or they disagree.
pub fn compute_display_handler(prior_handlers: &[Vec<String>]) -> (r: Option<String>)
    ensures
        r.deep_view() == display_spec(prior_handlers.deep_view()),
{
    let ghost ps = prior_handlers.deep_view();
    let mut first: Option<&String> = None;
    let mut agree = true;
    let mut i: usize = 0;
    while i < prior_handlers.len()
        invariant
            i <= prior_handlers.len(),
            ps == prior_handlers.deep_view(),
            firsts(ps.take(i as int)).len() == 0 <==> first is None,
            first matches Some(f) ==> f@ == firsts(ps.take(i as int))[0],
            agree == forall|j: int|
                0 <= j < firsts(ps.take(i as int)).len() ==> #[trigger] firsts(ps.take(i as int))[j]
                    == firsts(ps.take(i as int))[0],
        decreases prior_handlers.len() - i,
    {
        let ghost fs0 = firsts(ps.take(i as int));
        assert(ps.take(i + 1).drop_last() =~= ps.take(i as int));
        assert(ps.take(i + 1).last() == ps[i as int]);
        let hs = &prior_handlers[i];
        if hs.len() > 0 {
            let h = &hs[0];
            let ghost fs1 = fs0.push(h@);
            assert(firsts(ps.take(i + 1)) == fs1);
            match first {
                None => {
                    first = Some(h);
                    assert(fs1.len() == 1);
                    assert(forall|j: int| 0 <= j < fs1.len() ==> #[trigger] fs1[j] == fs1[0]);
                },
                Some(f) => {
                    let same = crate::text::str_eq(f.as_str(), h.as_str());
                    if agree && same {
                        assert(forall|j: int| 0 <= j < fs1.len() ==> #[trigger] fs1[j] == fs1[0]) by {
                            assert forall|j: int| 0 <= j < fs1.len() implies #[trigger] fs1[j] == fs1[0] by {
                                if j < fs0.len() {
                                    assert(fs1[j] == fs0[j]);
                                }
                            }
                        }
                    } else if !agree {
                        proof {
                            let k = choose|j: int| 0 <= j < fs0.len() && #[trigger] fs0[j] != fs0[0];
                            assert(fs1[k] == fs0[k]);
                        }
                    } else {
                        assert(fs1[fs0.len() as int] != fs1[0]);
                    }
                    agree = agree && same;
                },
            }
        }
        i = i + 1;
    }
    assert(ps.take(prior_handlers.len() as int) =~= ps);
    if agree {
        match first {
            Some(f) => Some(f.clone()),
            None => None,
        }
    } else {
        None
    }
}

/// Handler rows for a MIME type's handler list, with positions and count.
pub open spec fn handler_rows(mime: Seq<char>, hs: Seq<Seq<char>>) -> Seq<RowView> {
    Seq::new(
        hs.len(),
        |i: int| RowView::Handler { mime, desktop: hs[i], index: i as usize, total: hs.len() as usize },
    )
}

/// One `Handler` row per entry of `handlers`, carrying its position and the count.
pub fn handlers_for(mime: &str, handlers: &[String]) -> (r: Vec<Row>)
    ensures
        rows_view(r@) == handler_rows(mime@, handlers.deep_view()),
{
    let total = handlers.len();
    let mut out: Vec<Row> = Vec::new();
    let mut i: usize = 0;
    while i < total
        invariant
            total == handlers.len(),
            i <= total,
            rows_view(out@) =~= handler_rows(mime@, handlers.deep_view()).take(i as int),
        decreases total - i,
    {
        let ghost before = rows_view(out@);
        let row = Row::Handler {
            mime: String::from_str(mime),
            desktop: handlers[i].clone(),
            index: i,
            total,
        };
        out.push(row);
        assert(rows_view(out@) =~= before.push(row@));
        assert(handler_rows(mime@, handlers.deep_view()).take(i + 1) =~= handler_rows(
            mime@,
            handlers.deep_view(),
        ).take(i as int).push(row@));
        i = i + 1;
    }
    out
}

/// The row for a node of the outline, read against the configured defaults.
pub open spec fn node_row(n: NodeView, defs: Seq<(Seq<char>, Seq<Seq<char>>)>) -> RowView {
    match n.kind {
        KindView::SemanticGroup { name, icon } => RowView::SemanticGroup {
            name,
            icon_name: icon,
            static_children: n.children,
        },
        KindView::BatchGroup { name, icon, mimes } => {
            let prior = mimes.map_values(|m: Seq<char>| lookup(defs, m));
            RowView::BatchGroup {
                name,
                icon_name: icon,
                mimes,
                prior_handlers: prior,
                display_handler: display_spec(prior),
            }
        },
        KindView::WildcardCategory { mime } => RowView::Category { mime, handlers: lookup(defs, mime) },
        KindView::SeedException { mime } => RowView::Exception { mime, handlers: lookup(defs, mime) },
    }
}

/// The row for an outline node given the live association state.
pub fn node_to_row(node: &NodeDef, state: &State) -> (r: Row)
    ensures
        r@ == node_row(node_view(*node), defaults_view(state)),
{
    match &node.kind {
        NodeKind::SemanticGroup { name, icon } => Row::SemanticGroup {
            name: name.clone(),
            icon_name: icon.clone(),
            static_children: duplicate_nodes(&node.children),
        },
        NodeKind::BatchGroup { name, icon, mimes } => {
            let ghost defs = defaults_view(state);
            let mut prior: Vec<Vec<String>> = Vec::new();
            let mut i: usize = 0;
            while i < mimes.len()
                invariant
                    i <= mimes.len(),
                    defs == defaults_view(state),
                    prior.deep_view() =~= mimes.deep_view().take(i as int).map_values(
                        |m: Seq<char>| lookup(defs, m),
                    ),
                decreases mimes.len() - i,
            {
                let ghost before = prior.deep_view();
                let hs = lookup_handlers(state, mimes[i].as_str());
                prior.push(hs);
                assert(prior.deep_view() =~= before.push(lookup(defs, mimes[i as int]@)));
                i = i + 1;
            }
            assert(mimes.deep_view().take(mimes.len() as int) =~= mimes.deep_view());
            let display = compute_display_handler(prior.as_slice());
            Row::BatchGroup {
                name: name.clone(),
                icon_name: icon.clone(),
                mimes: clone_strings(mimes),
                prior_handlers: prior,
                display_handler: display,
            }
        },
        NodeKind::WildcardCategory { mime } => Row::Category {
            mime: mime.clone(),
            handlers: lookup_handlers(state, mime.as_str()),
        },
        NodeKind::SeedException { mime } => Row::Exception {
            mime: mime.clone(),
            handlers: lookup_handlers(state, mime.as_str()),
        },
    }
}

/// The rows of the top-level nodes of an outline.
pub open spec fn outline_rows(outline: Seq<NodeView>, defs: Seq<(Seq<char>, Seq<Seq<char>>)>) -> Seq<RowView> {
    outline.map_values(|n: NodeView| node_row(n, defs))
}

/// Rows for every top-level node of the outline.
pub fn build_root_rows(state: &State) -> (r: Vec<Row>)
    ensures
        r@.len() == ROOT_LEN,
        rows_view(r@) == outline_rows(root_outline(), defaults_view(state)),
{
    let tree = root_tree();
    let mut out: Vec<Row> = Vec::new();
    let mut i: usize = 0;
    proof {
        lemma_nodes_view_index(tree@);
    }
    while i < tree.len()
        invariant
            i <= tree.len(),
            tree@.len() == ROOT_LEN,
            nodes_view(tree@).len() == tree@.len(),
            forall|k: int| 0 <= k < tree@.len() ==> #[trigger] nodes_view(tree@)[k] == node_view(tree@[k]),
            rows_view(out@) =~= nodes_view(tree@).take(i as int).map_values(
                |n: NodeView| node_row(n, defaults_view(state)),
            ),
        decreases tree.len() - i,
    {
        let ghost before = rows_view(out@);
        let row = node_to_row(&tree[i], state);
        out.push(row);
        assert(rows_view(out@) =~= before.push(row@));
        assert(nodes_view(tree@).take(i + 1) =~= nodes_view(tree@).take(i as int).push(
            nodes_view(tree@)[i as int],
        ));
        i = i + 1;
    }
    assert(nodes_view(tree@).take(ROOT_LEN as int) =~= nodes_view(tree@));
    assert(rows_view(out@) == outline_rows(nodes_view(tree@), defaults_view(state)));
    out
}

/// `nodes_view` is the element-wise view.
pub proof fn lemma_nodes_view_index(ns: Seq<NodeDef>)
    ensures
        nodes_view(ns).len() == ns.len(),
        forall|k: int| 0 <= k < ns.len() ==> #[trigger] nodes_view(ns)[k] == node_view(ns[k]),
    decreases ns.len(),
{
    if ns.len() > 0 {
        lemma_nodes_view_index(ns.drop_last());
        assert forall|k: int| 0 <= k < ns.len() implies #[trigger] nodes_view(ns)[k] == node_view(ns[k]) by {
            if k < ns.len() - 1 {
                assert(ns.drop_last()[k] == ns[k]);
            }
        }
    }
}

// ---------------------------------------------------------------------------------------
// Wildcard categories of the outline

fn collect_wildcards(nodes: &Vec<NodeDef>, acc: &mut Vec<String>)
    ensures
        final(acc).deep_view().to_set() == old(acc).deep_view().to_set().union(
            tree_wildcards(nodes@),
        ),
    decreases nodes,
{
    broadcast use vstd::seq_lib::group_seq_properties;
    let mut i: usize = 0;
    let ghost start = acc.deep_view().to_set();
    while i < nodes.len()
        invariant
            i <= nodes.len(),
            acc.deep_view().to_set() == start.union(tree_wildcards(nodes@.take(i as int))),
        decreases nodes.len() - i,
    {
        proof {
            vstd::std_specs::vec::axiom_vec_index_decreases(*nodes, i as int);
        }
        let ghost mid = acc.deep_view().to_set();
        let node = &nodes[i];
        match &node.kind {
            NodeKind::WildcardCategory { mime } => {
                let ghost before = acc.deep_view();
                acc.push(mime.clone());
                assert(acc.deep_view() =~= before.push(mime@));
                proof {
                    before.lemma_push_to_set_commute(mime@);
                }
                assert(acc.deep_view().to_set() =~= mid.union(own_wildcards(*node)));
            },
            _ => {
                assert(acc.deep_view().to_set() =~= mid.union(own_wildcards(*node)));
            },
        }
        let ghost mid2 = acc.deep_view().to_set();
        collect_wildcards(&node.children, acc);
        assert(nodes@.take(i + 1).drop_last() =~= nodes@.take(i as int));
        assert(nodes@.take(i + 1).last() == nodes@[i as int]);
        assert(tree_wildcards(nodes@.take(i + 1)) == tree_wildcards(nodes@.take(i as int)).union(
            node_wildcards(*node),
        ));
        assert(node_wildcards(*node) == own_wildcards(*node).union(tree_wildcards(node.children@)));
        assert(acc.deep_view().to_set() =~= start.union(tree_wildcards(nodes@.take(i + 1))));
        i = i + 1;
    }
    assert(nodes@.take(nodes.len() as int) =~= nodes@);
}

/// Every wildcard category anywhere in the given subtrees.
pub fn wildcards_in_tree(nodes: &Vec<NodeDef>) -> (r: Vec<String>)
    ensures
        r.deep_view().to_set() == tree_wildcards(nodes@),
{
    let mut acc: Vec<String> = Vec::new();
    assert(acc.deep_view().to_set() =~= Set::<Seq<char>>::empty());
    collect_wildcards(nodes, &mut acc);
    assert(acc.deep_view().to_set() =~= tree_wildcards(nodes@));
    acc
}

fn contains_string(v: &Vec<String>, s: &str) -> (r: bool)
    ensures
        r == v.deep_view().contains(s@),
{
    let mut i: usize = 0;
    while i < v.len()
        invariant
            i <= v.len(),
            forall|j: int| 0 <= j < i ==> v.deep_view()[j] != s@,
        decreases v.len() - i,
    {
        if str_eq(v[i].as_str(), s) {
            assert(v.deep_view()[i as int] == s@);
            return true;
        }
        i = i + 1;
    }
    false
}

// ---------------------------------------------------------------------------------------
// Extra wildcard categories

/// Views of handler lists.
pub open spec fn strings_view() -> spec_fn(Vec<String>) -> Seq<Seq<char>> {
    |v: Vec<String>| v.deep_view()
}

/// Whether a configured MIME type is a wildcard category the outline does not have.
pub open spec fn is_extra_wildcard(mime: Seq<char>) -> bool {
    ends_with(mime, "/*"@) && !root_wildcards().contains(mime)
}

/// Configured entries that are wildcard categories the outline does not have, in order.
pub open spec fn extra_entries(defs: Seq<(Seq<char>, Seq<Seq<char>>)>) -> Seq<(Seq<char>, Seq<Seq<char>>)>
    decreases defs.len(),
{
    if defs.len() == 0 {
        Seq::empty()
    } else if is_extra_wildcard(defs.last().0) {
        extra_entries(defs.drop_last()).push(defs.last())
    } else {
        extra_entries(defs.drop_last())
    }
}

/// Category rows for the given entries.
pub open spec fn category_rows(es: Seq<(Seq<char>, Seq<Seq<char>>)>) -> Seq<RowView> {
    es.map_values(|e: (Seq<char>, Seq<Seq<char>>)| RowView::Category { mime: e.0, handlers: e.1 })
}

/// Category rows for configured wildcard MIME types that are not wildcard categories
/// of the outline, stably sorted by MIME type.
pub fn build_extra_wildcards(state: &State) -> (r: Vec<Row>)
    ensures
        rows_view(r@) == category_rows(sort_stable(extra_entries(defaults_view(state)))),
{
    let tree = root_tree();
    let known = wildcards_in_tree(&tree);
    let ghost defs = defaults_view(state);
    let mut picked: Vec<(String, Vec<String>)> = Vec::new();
    let mut i: usize = 0;
    while i < state.defaults.len()
        invariant
            i <= state.defaults.len(),
            defs == defaults_view(state),
            known.deep_view().to_set() == root_wildcards(),
            map_vals(keyed(picked@), strings_view()) =~= extra_entries(defs.take(i as int)),
        decreases state.defaults.len() - i,
    {
        let mime = &state.defaults[i].0;
        assert(defs.take(i + 1).drop_last() =~= defs.take(i as int));
        assert(defs.take(i + 1).last() == defs[i as int]);
        let wild = str_ends_with(mime.as_str(), "/*");
        let listed = contains_string(&known, mime.as_str());
        assert(listed == root_wildcards().contains(mime@)) by {
            if known.deep_view().contains(mime@) {
                assert(known.deep_view().to_set().contains(mime@));
            }
            if root_wildcards().contains(mime@) {
                assert(known.deep_view().to_set().contains(mime@));
            }
        }
        if wild && !listed {
            let ghost before = picked@;
            let pair = (mime.clone(), clone_strings(&state.defaults[i].1));
            proof {
                lemma_keyed_edits(before, pair, 0, strings_view());
            }
            assert(defs[i as int] == (pair.0@, strings_view()(pair.1)));
            picked.push(pair);
        }
        i = i + 1;
    }
    assert(defs.take(state.defaults.len() as int) =~= defs);
    let ghost pre = keyed(picked@);
    let sorted = sort_by_key_str(picked);
    proof {
        lemma_sort_map_vals(pre, strings_view());
    }
    let ghost sv = map_vals(keyed(sorted@), strings_view());
    let mut out: Vec<Row> = Vec::new();
    let mut k: usize = 0;
    while k < sorted.len()
        invariant
            k <= sorted.len(),
            sv == map_vals(keyed(sorted@), strings_view()),
            rows_view(out@) =~= category_rows(sv.take(k as int)),
        decreases sorted.len() - k,
    {
        let ghost before = rows_view(out@);
        let row = Row::Category { mime: sorted[k].0.clone(), handlers: clone_strings(&sorted[k].1) };
        assert(sv[k as int] == (sorted@[k as int].0@, strings_view()(sorted@[k as int].1)));
        out.push(row);
        assert(rows_view(out@) =~= before.push(row@));
        assert(sv.take(k + 1) =~= sv.take(k as int).push(sv[k as int]));
        k = k + 1;
    }
    assert(sv.take(sorted.len() as int) =~= sv);
    out
}

// ---------------------------------------------------------------------------------------
// Exceptions of a category

/// `mime` without one trailing `*`.
pub open spec fn strip_star(mime: Seq<char>) -> Seq<char> {
    if mime.len() > 0 && mime.last() == '*' {
        mime.drop_last()
    } else {
        mime
    }
}

/// Whether a configured MIME type is an exception under the given category prefix:
/// exact (no trailing `*`) and starting with the prefix.
pub open spec fn is_exception_of(mime: Seq<char>, prefix: Seq<char>) -> bool {
    !ends_with(mime, "*"@) && starts_with(mime, prefix)
}

/// The exceptions of a category prefix as a map from MIME type to handler list; a
/// later entry for the same MIME type replaces an earlier one.
pub open spec fn exception_map(defs: Seq<(Seq<char>, Seq<Seq<char>>)>, prefix: Seq<char>) -> Map<Seq<char>, Seq<Seq<char>>>
    decreases defs.len(),
{
    if defs.len() == 0 {
        Map::empty()
    } else if is_exception_of(defs.last().0, prefix) {
        exception_map(defs.drop_last(), prefix).insert(defs.last().0, defs.last().1)
    } else {
        exception_map(defs.drop_last(), prefix)
    }
}

/// `es` lists the entries of `m` once each, in strictly increasing key order.
pub open spec fn sorted_listing(es: Seq<(Seq<char>, Seq<Seq<char>>)>, m: Map<Seq<char>, Seq<Seq<char>>>) -> bool {
    &&& forall|i: int, j: int| 0 <= i < j < es.len() ==> lex_lt(#[trigger] es[i].0, #[trigger] es[j].0)
    &&& forall|i: int| 0 <= i < es.len() ==> m.contains_key(#[trigger] es[i].0) && m[es[i].0] == es[i].1
    &&& forall|k: Seq<char>| #[trigger] m.contains_key(k) ==> exists|i: int| 0 <= i < es.len() && #[trigger] es[i].0 == k
}

/// Exception rows for the given entries.
pub open spec fn exception_rows(es: Seq<(Seq<char>, Seq<Seq<char>>)>) -> Seq<RowView> {
    es.map_values(|e: (Seq<char>, Seq<Seq<char>>)| RowView::Exception { mime: e.0, handlers: e.1 })
}

/// `es` with `x` placed in key order, replacing an entry with the same key.
proof fn lemma_listing_insert(
    es: Seq<(Seq<char>, Seq<Seq<char>>)>,
    m: Map<Seq<char>, Seq<Seq<char>>>,
    x: (Seq<char>, Seq<Seq<char>>),
    j: int,
    replace: bool,
)
    requires
        sorted_listing(es, m),
        0 <= j <= es.len(),
        forall|k: int| 0 <= k < j ==> lex_lt(#[trigger] es[k].0, x.0),
        j < es.len() ==> !lex_lt(es[j].0, x.0),
        replace == (j < es.len() && es[j].0 == x.0),
    ensures
        sorted_listing(
            if replace {
                es.update(j, x)
            } else {
                es.insert(j, x)
            },
            m.insert(x.0, x.1),
        ),
{
    let m2 = m.insert(x.0, x.1);
    if replace {
        let es2 = es.update(j, x);
        assert forall|k: Seq<char>| #[trigger] m2.contains_key(k) implies exists|i: int|
            0 <= i < es2.len() && #[trigger] es2[i].0 == k by {
            if k == x.0 {
                assert(es2[j].0 == k);
            } else {
                let i = choose|i: int| 0 <= i < es.len() && #[trigger] es[i].0 == k;
                assert(es2[i].0 == k);
            }
        }
        assert forall|i: int| 0 <= i < es2.len() implies m2.contains_key(#[trigger] es2[i].0)
            && m2[es2[i].0] == es2[i].1 by {
            if i != j {
                assert(es[i].0 != x.0) by {
                    if i < j {
                        crate::text::lemma_lex_lt_irreflexive(x.0);
                    } else {
                        crate::text::lemma_lex_lt_irreflexive(x.0);
                        assert(lex_lt(es[j].0, es[i].0));
                    }
                }
            }
        }
    } else {
        let es2 = es.insert(j, x);
        if j < es.len() {
            lemma_lex_total(es[j].0, x.0);
        }
        assert forall|a: int, b: int| 0 <= a < b < es2.len() implies lex_lt(
            #[trigger] es2[a].0,
            #[trigger] es2[b].0,
        ) by {
            if a < j && b < j {
                assert(es2[a] == es[a]);
                assert(es2[b] == es[b]);
            } else if a < j && b == j {
            } else if a < j && b > j {
                assert(es2[b] == es[b - 1]);
            } else if a == j {
                assert(es2[b] == es[b - 1]);
                if b - 1 > j {
                    lemma_lex_trans(x.0, es[j].0, es[b - 1].0);
                }
            } else {
                assert(es2[a] == es[a - 1]);
                assert(es2[b] == es[b - 1]);
            }
        }
        assert forall|i: int| 0 <= i < es2.len() implies m2.contains_key(#[trigger] es2[i].0)
            && m2[es2[i].0] == es2[i].1 by {
            if i < j {
                assert(es2[i] == es[i]);
                crate::text::lemma_lex_lt_irreflexive(x.0);
            } else if i > j {
                assert(es2[i] == es[i - 1]);
                assert(lex_lt(x.0, es[i - 1].0)) by {
                    if i - 1 > j {
                        lemma_lex_trans(x.0, es[j].0, es[i - 1].0);
                    }
                }
                crate::text::lemma_lex_lt_irreflexive(x.0);
            }
        }
        assert forall|k: Seq<char>| #[trigger] m2.contains_key(k) implies exists|i: int|
            0 <= i < es2.len() && #[trigger] es2[i].0 == k by {
            if k == x.0 {
                assert(es2[j].0 == k);
            } else {
                let i = choose|i: int| 0 <= i < es.len() && #[trigger] es[i].0 == k;
                if i < j {
                    assert(es2[i].0 == k);
                } else {
                    assert(es2[i + 1].0 == k);
                }
            }
        }
    }
}

/// Exception rows under a category: every configured exact MIME type starting with the
/// category's prefix (the category without its trailing `*`), once each, in `str`
/// order; for a MIME type configured twice the later list counts.
pub fn exceptions_for(category_mime: &str, state: &State) -> (r: Vec<Row>)
    ensures
        exists|es: Seq<(Seq<char>, Seq<Seq<char>>)>|
            sorted_listing(es, exception_map(defaults_view(state), strip_star(category_mime@)))
                && rows_view(r@) == #[trigger] exception_rows(es),
{
    let n = category_mime.unicode_len();
    let prefix_len = if n > 0 && category_mime.get_char(n - 1) == '*' {
        n - 1
    } else {
        n
    };
    let prefix = category_mime.substring_char(0, prefix_len);
    assert(prefix@ == strip_star(category_mime@)) by {
        if !(n > 0 && category_mime@.last() == '*') {
            assert(category_mime@.subrange(0, n as int) =~= category_mime@);
        }
    }
    let ghost defs = defaults_view(state);
    let mut out: Vec<(String, Vec<String>)> = Vec::new();
    let mut i: usize = 0;
    while i < state.defaults.len()
        invariant
            i <= state.defaults.len(),
            defs == defaults_view(state),
            prefix@ == strip_star(category_mime@),
            sorted_listing(map_vals(keyed(out@), strings_view()), exception_map(defs.take(i as int), prefix@)),
        decreases state.defaults.len() - i,
    {
        assert(defs.take(i + 1).drop_last() =~= defs.take(i as int));
        assert(defs.take(i + 1).last() == defs[i as int]);
        let mime = &state.defaults[i].0;
        let starred = str_ends_with(mime.as_str(), "*");
        let under = str_starts_with(mime.as_str(), prefix);
        if !starred && under {
            let ghost es = map_vals(keyed(out@), strings_view());
            let mut j: usize = 0;
            while j < out.len() && str_lt(out[j].0.as_str(), mime.as_str())
                invariant
                    j <= out.len(),
                    es == map_vals(keyed(out@), strings_view()),
                    forall|k: int| 0 <= k < j ==> lex_lt(#[trigger] es[k].0, mime@),
                decreases out.len() - j,
            {
                j = j + 1;
            }
            let replace = j < out.len() && str_eq(out[j].0.as_str(), mime.as_str());
            let pair = (mime.clone(), clone_strings(&state.defaults[i].1));
            proof {
                lemma_listing_insert(es, exception_map(defs.take(i as int), prefix@), defs[i as int], j as int, replace);
            }
            assert(defs[i as int] == (pair.0@, strings_view()(pair.1)));
            let ghost before = out@;
            proof {
                lemma_keyed_edits(before, pair, j as int, strings_view());
            }
            if replace {
                out.remove(j);
                out.insert(j, pair);
                assert(out@ =~= before.update(j as int, pair));
            } else {
                out.insert(j, pair);
            }
        }
        i = i + 1;
    }
    assert(defs.take(state.defaults.len() as int) =~= defs);
    let ghost es = map_vals(keyed(out@), strings_view());
    let mut rows: Vec<Row> = Vec::new();
    let mut k: usize = 0;
    while k < out.len()
        invariant
            k <= out.len(),
            es == map_vals(keyed(out@), strings_view()),
            rows_view(rows@) =~= exception_rows(es.take(k as int)),
        decreases out.len() - k,
    {
        let ghost before = rows_view(rows@);
        let row = Row::Exception { mime: out[k].0.clone(), handlers: clone_strings(&out[k].1) };
        assert(es[k as int] == (out@[k as int].0@, strings_view()(out@[k as int].1)));
        rows.push(row);
        assert(rows_view(rows@) =~= before.push(row@));
        assert(es.take(k + 1) =~= es.take(k as int).push(es[k as int]));
        k = k + 1;
    }
    assert(es.take(out.len() as int) =~= es);
    rows
}

} // verus!
