//! How the Defaults tree is shown: the children each row expands to, the row a MIME
//! type scrolls to, the keys that keep expansion and selection across rebuilds, and
//! icon names for categories.

use vstd::prelude::*;
use crate::handlr::State;
use crate::handlr::clone_strings;
use crate::handlr::contains_str;
use crate::handlr::defaults_view;
use crate::model::KindView;
use crate::model::NodeView;
use crate::model::Row;
use crate::model::RowView;
use crate::model::exception_map;
use crate::model::is_exception_of;
use crate::model::exception_rows;
use crate::model::exceptions_for;
use crate::model::handler_rows;
use crate::model::handlers_for;
use crate::model::lemma_nodes_view_index;
use crate::model::lookup;
use crate::model::node_row;
use crate::model::node_to_row;
use crate::model::nodes_view;
use crate::model::duplicate_nodes;
use crate::model::rows_view;
use crate::model::sorted_listing;
use crate::model::strip_star;
use crate::text::concat2;
use crate::text::ends_with;
use crate::text::starts_with;
use crate::text::str_ends_with;
use crate::text::str_eq;
use crate::text::str_starts_with;

verus! {

fn clone_lists(v: &Vec<Vec<String>>) -> (r: Vec<Vec<String>>)
    ensures
        r.deep_view() == v.deep_view(),
{
    let mut out: Vec<Vec<String>> = Vec::new();
    let mut i: usize = 0;
    while i < v.len()
        invariant
            i <= v.len(),
            out.deep_view() =~= v.deep_view().take(i as int),
        decreases v.len() - i,
    {
        let ghost before = out.deep_view();
        let c = clone_strings(&v[i]);
        out.push(c);
        assert(out.deep_view() =~= before.push(v[i as int].deep_view()));
        assert(v.deep_view().take(i + 1) =~= v.deep_view().take(i as int).push(v.deep_view()[i as int]));
        i = i + 1;
    }
    assert(v.deep_view().take(v.len() as int) =~= v.deep_view());
    out
}

fn clone_opt(v: &Option<String>) -> (r: Option<String>)
    ensures
        r.deep_view() == v.deep_view(),
{
    match v {
        Some(s) => Some(s.clone()),
        None => None,
    }
}

impl Row {
    /// A copy of this row.
    pub fn duplicate(&self) -> (r: Row)
        ensures
            r@ == self@,
    {
        match self {
            Row::SemanticGroup { name, icon_name, static_children } => Row::SemanticGroup {
                name: name.clone(),
                icon_name: icon_name.clone(),
                static_children: duplicate_nodes(static_children),
            },
            Row::BatchGroup { name, icon_name, mimes, prior_handlers, display_handler } =>
                Row::BatchGroup {
                name: name.clone(),
                icon_name: icon_name.clone(),
                mimes: clone_strings(mimes),
                prior_handlers: clone_lists(prior_handlers),
                display_handler: clone_opt(display_handler),
            },
            Row::BatchMime { mime, mime_handlers, group_handler } => Row::BatchMime {
                mime: mime.clone(),
                mime_handlers: clone_strings(mime_handlers),
                group_handler: clone_opt(group_handler),
            },
            Row::Category { mime, handlers } => Row::Category {
                mime: mime.clone(),
                handlers: clone_strings(handlers),
            },
            Row::Exception { mime, handlers } => Row::Exception {
                mime: mime.clone(),
                handlers: clone_strings(handlers),
            },
            Row::Handler { mime, desktop, index, total } => Row::Handler {
                mime: mime.clone(),
                desktop: desktop.clone(),
                index: *index,
                total: *total,
            },
            Row::AddException { category_mime } => Row::AddException {
                category_mime: category_mime.clone(),
            },
        }
    }
}

// ---------------------------------------------------------------------------------------
// Children

/// Handler rows of all but the first (default) handler.
pub open spec fn alt_rows(mime: Seq<char>, hs: Seq<Seq<char>>) -> Seq<RowView> {
    if hs.len() == 0 {
        Seq::empty()
    } else {
        handler_rows(mime, hs).skip(1)
    }
}

/// Rows for the alternative handlers of a MIME type: all but the first (default),
/// keeping their positions in the full list.
pub fn alternative_rows(mime: &str, handlers: &Vec<String>) -> (r: Vec<Row>)
    ensures
        rows_view(r@) == alt_rows(mime@, handlers.deep_view()),
{
    let ghost target = alt_rows(mime@, handlers.deep_view());
    let total = handlers.len();
    let mut out: Vec<Row> = Vec::new();
    if total == 0 {
        return out;
    }
    let mut i: usize = 1;
    while i < total
        invariant
            total == handlers.len(),
            1 <= i <= total,
            target == alt_rows(mime@, handlers.deep_view()),
            target.len() == total - 1,
            rows_view(out@) =~= target.take(i - 1),
        decreases total - i,
    {
        let ghost before = rows_view(out@);
        let row = Row::Handler { mime: String::from_str(mime), desktop: handlers[i].clone(), index: i, total };
        out.push(row);
        assert(rows_view(out@) =~= before.push(row@));
        assert(target[i - 1] == row@);
        assert(target.take(i as int) =~= target.take(i - 1).push(target[i - 1]));
        i = i + 1;
    }
    assert(target.take(total - 1) =~= target);
    out
}

/// Children of a batch group: one row per MIME type with its own handler list and the
/// group's shared handler.
pub open spec fn batch_children(
    mimes: Seq<Seq<char>>,
    prior: Seq<Seq<Seq<char>>>,
    shown: Option<Seq<char>>,
) -> Seq<RowView> {
    Seq::new(
        mimes.len(),
        |i: int|
            RowView::BatchMime {
                mime: mimes[i],
                mime_handlers: if i < prior.len() {
                    prior[i]
                } else {
                    Seq::empty()
                },
                group_handler: shown,
            },
    )
}

/// Children of a semantic group: the rows of its outline children.
pub open spec fn group_children(children: Seq<NodeView>, defs: Seq<(Seq<char>, Seq<Seq<char>>)>) -> Seq<RowView> {
    children.map_values(|n: NodeView| node_row(n, defs))
}

/// The rows a tree row expands to. A category shows its alternative handlers (all but
/// the default), then its exceptions, then the "add exception" row; an exception shows
/// its alternative handlers, if any; a semantic group its outline children, if any; a
/// batch group one row per MIME type. Other rows have no children.
pub fn children_of(row: &Row, state: &State) -> (r: Option<Vec<Row>>)
    ensures
        row@ matches RowView::SemanticGroup { static_children, .. } ==> if static_children.len()
            == 0 {
            r is None
        } else {
            r matches Some(v) && rows_view(v@) == group_children(static_children, defaults_view(state))
        },
        row@ matches RowView::BatchGroup { mimes, prior_handlers, display_handler, .. } ==> (r matches Some(v)
            && rows_view(v@) == batch_children(mimes, prior_handlers, display_handler)),
        row@ matches RowView::Category { mime, handlers } ==> (r matches Some(v) && exists|es: Seq<(Seq<char>, Seq<Seq<char>>)>|
            sorted_listing(es, exception_map(defaults_view(state), strip_star(mime)))
                && rows_view(v@) == alt_rows(mime, handlers) + #[trigger] exception_rows(es)
                + seq![RowView::AddException { category_mime: mime }]),
        row@ matches RowView::Exception { mime, handlers } ==> if handlers.len() <= 1 {
            r is None
        } else {
            r matches Some(v) && rows_view(v@) == alt_rows(mime, handlers)
        },
        row@ is BatchMime || row@ is Handler || row@ is AddException ==> r is None,
{
    match row {
        Row::SemanticGroup { static_children, .. } => {
            if static_children.len() == 0 {
                return None;
            }
            let ghost cs = nodes_view(static_children@);
            proof {
                lemma_nodes_view_index(static_children@);
            }
            let mut out: Vec<Row> = Vec::new();
            let mut i: usize = 0;
            while i < static_children.len()
                invariant
                    i <= static_children.len(),
                    cs == nodes_view(static_children@),
                    cs.len() == static_children@.len(),
                    forall|k: int| 0 <= k < static_children@.len() ==> #[trigger] cs[k] == crate::model::node_view(static_children@[k]),
                    rows_view(out@) =~= group_children(cs, defaults_view(state)).take(i as int),
                decreases static_children.len() - i,
            {
                let ghost before = rows_view(out@);
                let child = node_to_row(&static_children[i], state);
                out.push(child);
                assert(rows_view(out@) =~= before.push(child@));
                i = i + 1;
            }
            Some(out)
        },
        Row::BatchGroup { mimes, prior_handlers, display_handler, .. } => {
            let ghost target = batch_children(mimes.deep_view(), prior_handlers.deep_view(), display_handler.deep_view());
            let mut out: Vec<Row> = Vec::new();
            let mut i: usize = 0;
            while i < mimes.len()
                invariant
                    i <= mimes.len(),
                    target == batch_children(mimes.deep_view(), prior_handlers.deep_view(), display_handler.deep_view()),
                    rows_view(out@) =~= target.take(i as int),
                decreases mimes.len() - i,
            {
                let own = if i < prior_handlers.len() {
                    clone_strings(&prior_handlers[i])
                } else {
                    let e: Vec<String> = Vec::new();
                    assert(e.deep_view() =~= Seq::<Seq<char>>::empty());
                    e
                };
                let ghost before = rows_view(out@);
                let child = Row::BatchMime {
                    mime: mimes[i].clone(),
                    mime_handlers: own,
                    group_handler: clone_opt(display_handler),
                };
                out.push(child);
                assert(rows_view(out@) =~= before.push(child@));
                assert(child@ == target[i as int]);
                assert(target.take(i + 1) =~= target.take(i as int).push(target[i as int]));
                i = i + 1;
            }
            assert(target.take(mimes.len() as int) =~= target);
            Some(out)
        },
        Row::Category { mime, handlers } => {
            let mut out = alternative_rows(mime.as_str(), handlers);
            let mut exc = exceptions_for(mime.as_str(), state);
            let ghost alts = rows_view(out@);
            let ghost ev = rows_view(exc@);
            let ghost ov = out@;
            let ghost xv = exc@;
            out.append(&mut exc);
            let add = Row::AddException { category_mime: mime.clone() };
            out.push(add);
            assert(rows_view(out@) =~= alts + ev + seq![RowView::AddException { category_mime: mime@ }]) by {
                assert(out@ =~= ov + xv + seq![add]);
            }
            Some(out)
        },
        Row::Exception { mime, handlers } => {
            let out = alternative_rows(mime.as_str(), handlers);
            assert(rows_view(out@).len() == out@.len());
            if out.len() == 0 {
                None
            } else {
                Some(out)
            }
        },
        _ => None,
    }
}

// ---------------------------------------------------------------------------------------
// Locating a MIME type

/// The row shows exactly `mime` (a category or an exception).
pub open spec fn shows_exactly(r: RowView, mime: Seq<char>) -> bool {
    match r {
        RowView::Category { mime: m, .. } => m == mime,
        RowView::Exception { mime: m, .. } => m == mime,
        _ => false,
    }
}

/// For a wildcard category row covering `mime`, the byte length of its prefix (the
/// category without its trailing `*`); 0 otherwise.
pub open spec fn cover_len(r: RowView, mime: Seq<char>) -> int {
    match r {
        RowView::Category { mime: m, .. } => if m.len() > 0 && m.last() == '*' && starts_with(
            mime,
            m.drop_last(),
        ) {
            (vstd::utf8::encode_utf8(m.drop_last()).len() as usize) as int
        } else {
            0
        },
        _ => 0,
    }
}

fn row_cover_len(row: &Row, mime: &str) -> (r: usize)
    ensures
        r as int == cover_len(row@, mime@),
{
    match row {
        Row::Category { mime: cat, .. } => {
            let n = cat.as_str().unicode_len();
            if n > 0 && cat.as_str().get_char(n - 1) == '*' {
                let prefix = cat.as_str().substring_char(0, n - 1);
                assert(prefix@ =~= cat@.drop_last());
                if str_starts_with(mime, prefix) {
                    return prefix.len();
                }
            }
            0
        },
        _ => 0,
    }
}

/// Index of the row a MIME type scrolls to: the first category or exception showing
/// exactly that type; failing that, the wildcard category with the longest prefix
/// covering it (the first of equally long ones); `None` when neither exists.
pub fn locate_mime(rows: &[Row], mime: &str) -> (r: Option<usize>)
    ensures
        (exists|i: int| 0 <= i < rows@.len() && #[trigger] shows_exactly(rows@[i]@, mime@)) ==> (r matches Some(
            i,
        ) && i < rows@.len() && shows_exactly(rows@[i as int]@, mime@) && forall|j: int|
            0 <= j < i ==> !#[trigger] shows_exactly(rows@[j]@, mime@)),
        (forall|i: int| 0 <= i < rows@.len() ==> !#[trigger] shows_exactly(rows@[i]@, mime@)) ==> (
        match r {
            Some(i) => {
                &&& i < rows@.len()
                &&& cover_len(rows@[i as int]@, mime@) > 0
                &&& forall|j: int| 0 <= j < rows@.len() ==> #[trigger] cover_len(rows@[j]@, mime@) <= cover_len(rows@[i as int]@, mime@)
                &&& forall|j: int| 0 <= j < i ==> #[trigger] cover_len(rows@[j]@, mime@) < cover_len(rows@[i as int]@, mime@)
            },
            None => forall|j: int| 0 <= j < rows@.len() ==> #[trigger] cover_len(rows@[j]@, mime@) == 0,
        }),
{
    let mut best: Option<(usize, usize)> = None;
    let mut i: usize = 0;
    while i < rows.len()
        invariant
            i <= rows@.len(),
            forall|j: int| 0 <= j < i ==> !#[trigger] shows_exactly(rows@[j]@, mime@),
            match best {
                Some((len, idx)) => {
                    &&& idx < i
                    &&& len as int == cover_len(rows@[idx as int]@, mime@)
                    &&& len > 0
                    &&& forall|j: int| 0 <= j < i ==> #[trigger] cover_len(rows@[j]@, mime@) <= len
                    &&& forall|j: int| 0 <= j < idx ==> #[trigger] cover_len(rows@[j]@, mime@) < len
                },
                None => forall|j: int| 0 <= j < i ==> #[trigger] cover_len(rows@[j]@, mime@) == 0,
            },
        decreases rows.len() - i,
    {
        let row = &rows[i];
        let exact = match row {
            Row::Category { mime: m, .. } => str_eq(m.as_str(), mime),
            Row::Exception { mime: m, .. } => str_eq(m.as_str(), mime),
            _ => false,
        };
        assert(exact == shows_exactly(rows@[i as int]@, mime@));
        if exact {
            return Some(i);
        }
        let len = row_cover_len(row, mime);
        let current = match best {
            Some((b, _)) => b,
            None => 0,
        };
        if len > current {
            best = Some((len, i));
        }
        i = i + 1;
    }
    match best {
        Some((_, idx)) => Some(idx),
        None => None,
    }
}

// ---------------------------------------------------------------------------------------
// Keys

/// Key that identifies an expandable row across rebuilds.
pub open spec fn row_key_spec(r: RowView) -> Option<Seq<char>> {
    match r {
        RowView::SemanticGroup { name, .. } => Some("sg:"@ + name),
        RowView::BatchGroup { name, .. } => Some("bg:"@ + name),
        RowView::Category { mime, .. } => Some("cat:"@ + mime),
        RowView::Exception { mime, .. } => Some("exc:"@ + mime),
        _ => None,
    }
}

/// Stable key for expansion tracking; only expandable rows have one.
pub fn row_key(row: &Row) -> (r: Option<String>)
    ensures
        r.deep_view() == row_key_spec(row@),
{
    match row {
        Row::SemanticGroup { name, .. } => Some(concat2("sg:", name.as_str())),
        Row::BatchGroup { name, .. } => Some(concat2("bg:", name.as_str())),
        Row::Category { mime, .. } => Some(concat2("cat:", mime.as_str())),
        Row::Exception { mime, .. } => Some(concat2("exc:", mime.as_str())),
        _ => None,
    }
}

/// Key that identifies any row across rebuilds, for restoring the selection.
pub open spec fn selection_key_spec(r: RowView) -> Seq<char> {
    match r {
        RowView::SemanticGroup { name, .. } => "sg:"@ + name,
        RowView::BatchGroup { name, .. } => "bg:"@ + name,
        RowView::BatchMime { mime, .. } => "bm:"@ + mime,
        RowView::Category { mime, .. } => "cat:"@ + mime,
        RowView::Exception { mime, .. } => "exc:"@ + mime,
        RowView::Handler { mime, desktop, .. } => "h:"@ + mime + ":"@ + desktop,
        RowView::AddException { category_mime } => "add:"@ + category_mime,
    }
}

/// Stable key for selection tracking; every row has one.
pub fn selection_key(row: &Row) -> (r: Option<String>)
    ensures
        r.deep_view() == Some(selection_key_spec(row@)),
{
    let key = match row {
        Row::SemanticGroup { name, .. } => concat2("sg:", name.as_str()),
        Row::BatchGroup { name, .. } => concat2("bg:", name.as_str()),
        Row::BatchMime { mime, .. } => concat2("bm:", mime.as_str()),
        Row::Category { mime, .. } => concat2("cat:", mime.as_str()),
        Row::Exception { mime, .. } => concat2("exc:", mime.as_str()),
        Row::Handler { mime, desktop, .. } => crate::text::concat4("h:", mime.as_str(), ":", desktop.as_str()),
        Row::AddException { category_mime } => concat2("add:", category_mime.as_str()),
    };
    Some(key)
}

/// Whether a rebuilt row starts collapsed. Groups are collapsed unless they were
/// expanded before; categories and exceptions are expanded unless, on a rebuild, they
/// existed before and were collapsed. `expanded` and `existed` hold the row keys of the
/// previous tree.
pub open spec fn should_collapse_spec(r: RowView, expanded: Seq<Seq<char>>, existed: Seq<Seq<char>>, has_prior: bool) -> bool {
    match r {
        RowView::SemanticGroup { .. } | RowView::BatchGroup { .. } => !(row_key_spec(r) matches Some(k)
            && expanded.contains(k)),
        RowView::Category { .. } | RowView::Exception { .. } => has_prior && (row_key_spec(r) matches Some(
            k,
        ) && existed.contains(k) && !expanded.contains(k)),
        _ => false,
    }
}

/// Whether a rebuilt row starts collapsed, given the keys of the rows that were
/// expanded and that existed before the rebuild, and whether there was a tree before.
pub fn should_collapse(row: &Row, expanded: &Vec<String>, existed: &Vec<String>, has_prior: bool) -> (r: bool)
    ensures
        r == should_collapse_spec(row@, expanded.deep_view(), existed.deep_view(), has_prior),
{
    match row {
        Row::SemanticGroup { .. } | Row::BatchGroup { .. } => match row_key(row) {
            Some(k) => !contains_str(expanded, k.as_str()),
            None => true,
        },
        Row::Category { .. } | Row::Exception { .. } => {
            if !has_prior {
                return false;
            }
            match row_key(row) {
                Some(k) => contains_str(existed, k.as_str()) && !contains_str(expanded, k.as_str()),
                None => false,
            }
        },
        _ => false,
    }
}

// ---------------------------------------------------------------------------------------
// Icons

/// `video/*` becomes `video/x-generic` (the freedesktop generic icon name); other
/// types are unchanged.
pub open spec fn strip_wildcard_spec(mime: Seq<char>) -> Seq<char> {
    if ends_with(mime, "/*"@) {
        mime.take(mime.len() - 2) + "/x-generic"@
    } else {
        mime
    }
}

/// Content type whose icon stands for a category.
pub fn strip_wildcard(mime: &str) -> (r: String)
    ensures
        r@ == strip_wildcard_spec(mime@),
{
    proof {
        reveal_strlit("/*");
    }
    if str_ends_with(mime, "/*") {
        let n = mime.unicode_len();
        let top = mime.substring_char(0, n - 2);
        concat2(top, "/x-generic")
    } else {
        String::from_str(mime)
    }
}

/// Named icon of a standard category, if it has one.
pub open spec fn category_icon_spec(mime: Seq<char>) -> Option<Seq<char>> {
    if mime == "audio/*"@ {
        Some("audio-x-generic-symbolic"@)
    } else if mime == "video/*"@ {
        Some("video-x-generic-symbolic"@)
    } else if mime == "image/*"@ {
        Some("image-x-generic-symbolic"@)
    } else if mime == "text/*"@ {
        Some("text-x-generic-symbolic"@)
    } else if mime == "application/*"@ {
        Some("application-x-executable-symbolic"@)
    } else if mime == "inode/*"@ {
        Some("folder-symbolic"@)
    } else if mime == "x-scheme-handler/*"@ {
        Some("web-browser-symbolic"@)
    } else {
        None
    }
}

/// Symbolic icon name for the standard categories; others take the icon of
/// [`strip_wildcard`]'s content type.
pub fn category_icon_name(mime: &str) -> (r: Option<String>)
    ensures
        r.deep_view() == category_icon_spec(mime@),
{
    if str_eq(mime, "audio/*") {
        Some(String::from_str("audio-x-generic-symbolic"))
    } else if str_eq(mime, "video/*") {
        Some(String::from_str("video-x-generic-symbolic"))
    } else if str_eq(mime, "image/*") {
        Some(String::from_str("image-x-generic-symbolic"))
    } else if str_eq(mime, "text/*") {
        Some(String::from_str("text-x-generic-symbolic"))
    } else if str_eq(mime, "application/*") {
        Some(String::from_str("application-x-executable-symbolic"))
    } else if str_eq(mime, "inode/*") {
        Some(String::from_str("folder-symbolic"))
    } else if str_eq(mime, "x-scheme-handler/*") {
        Some(String::from_str("web-browser-symbolic"))
    } else {
        None
    }
}

// ---------------------------------------------------------------------------------------
// Laws

/// Expanding a batch group gives one row per MIME type of the group, in the group's
/// order: row `i` is the batch row of `mimes[i]`, showing `prior[i]` as its own
/// handlers (none when `prior` is shorter) and the group's shared handler `shown`.
pub proof fn law_batch_children(mimes: Seq<Seq<char>>, prior: Seq<Seq<Seq<char>>>, shown: Option<Seq<char>>)
    ensures
        batch_children(mimes, prior, shown).len() == mimes.len(),
        forall|i: int|
            0 <= i < mimes.len() ==> (#[trigger] batch_children(mimes, prior, shown)[i] matches RowView::BatchMime {
                mime,
                mime_handlers,
                group_handler,
            } && mime == mimes[i] && group_handler == shown && (i < prior.len() ==> mime_handlers == prior[i])
                && (i >= prior.len() ==> mime_handlers.len() == 0)),
{
}

/// For a batch group read from the defaults, the row of each of its MIME types shows
/// that type's own configured handlers.
pub proof fn law_batch_children_from_defaults(
    name: Seq<char>,
    icon: Seq<char>,
    mimes: Seq<Seq<char>>,
    children: Seq<NodeView>,
    defs: Seq<(Seq<char>, Seq<Seq<char>>)>,
    i: int,
)
    requires
        0 <= i < mimes.len(),
    ensures
        node_row(NodeView { kind: KindView::BatchGroup { name, icon, mimes }, children }, defs) matches RowView::BatchGroup {
            mimes: ms,
            prior_handlers,
            display_handler,
            ..
        } && batch_children(ms, prior_handlers, display_handler)[i] matches RowView::BatchMime {
            mime,
            mime_handlers,
            ..
        } && mime == mimes[i] && mime_handlers == lookup(defs, mimes[i]),
{
}

/// The alternative rows of a handler list: one per handler after the first, in order,
/// each carrying its position in the full list and the list's length.
pub proof fn law_alternative_rows(mime: Seq<char>, hs: Seq<Seq<char>>)
    requires
        hs.len() <= usize::MAX,
    ensures
        alt_rows(mime, hs).len() == if hs.len() == 0 {
            0
        } else {
            hs.len() - 1
        },
        forall|j: int|
            0 <= j < hs.len() - 1 ==> #[trigger] alt_rows(mime, hs)[j] == (RowView::Handler {
                mime,
                desktop: hs[j + 1],
                index: (j + 1) as usize,
                total: hs.len() as usize,
            }),
{
}

/// Expanding a category with handlers `hs` and exceptions `es` (in the order listed):
/// first a row per alternative handler, then a row per exception with its own
/// handlers, then the "add exception" row for the category.
pub proof fn law_category_children(mime: Seq<char>, hs: Seq<Seq<char>>, es: Seq<(Seq<char>, Seq<Seq<char>>)>)
    requires
        hs.len() <= usize::MAX,
    ensures
        ({
            let rows = alt_rows(mime, hs) + exception_rows(es) + seq![RowView::AddException { category_mime: mime }];
            let n = alt_rows(mime, hs).len();
            &&& rows.len() == n + es.len() + 1
            &&& forall|j: int| 0 <= j < n ==> (#[trigger] rows[j]) == alt_rows(mime, hs)[j]
            &&& forall|k: int|
                0 <= k < es.len() ==> #[trigger] rows[n + k] == (RowView::Exception { mime: es[k].0, handlers: es[k].1 })
            &&& rows.last() == (RowView::AddException { category_mime: mime })
        }),
{
    law_alternative_rows(mime, hs);
    let rows = alt_rows(mime, hs) + exception_rows(es) + seq![RowView::AddException { category_mime: mime }];
    let n = alt_rows(mime, hs).len();
    assert forall|k: int| 0 <= k < es.len() implies #[trigger] rows[n + k] == (RowView::Exception {
        mime: es[k].0,
        handlers: es[k].1,
    }) by {
        assert(rows[n + k] == exception_rows(es)[k]);
    }
}

/// The exceptions listed under a category whose prefix is `prefix` (the category's
/// type without its `*`): exactly the configured types that do not end in `*` and
/// start with `prefix`, each with the handlers of its last configured entry.
pub proof fn law_exceptions_listed(defs: Seq<(Seq<char>, Seq<Seq<char>>)>, prefix: Seq<char>, k: Seq<char>)
    ensures
        exception_map(defs, prefix).contains_key(k) <==> {
            &&& exists|i: int| 0 <= i < defs.len() && #[trigger] defs[i].0 == k
            &&& !(k.len() > 0 && k.last() == '*')
            &&& prefix.len() <= k.len() && k.subrange(0, prefix.len() as int) == prefix
        },
        exception_map(defs, prefix).contains_key(k) ==> exists|i: int|
            0 <= i < defs.len() && #[trigger] defs[i].0 == k && exception_map(defs, prefix)[k] == defs[i].1
                && forall|j: int| i < j < defs.len() ==> defs[j].0 != k,
    decreases defs.len(),
{
    reveal_strlit("*");
    assert("*"@ =~= seq!['*']);
    assert(ends_with(k, "*"@) <==> (k.len() > 0 && k.last() == '*')) by {
        if k.len() > 0 {
            let t = k.subrange(k.len() - 1, k.len() as int);
            assert(t.len() == 1 && t[0] == k.last());
            if t == "*"@ {
                assert(t[0] == '*');
            }
            if k.last() == '*' {
                assert(t =~= "*"@);
            }
        }
    }
    if defs.len() > 0 {
        let init = defs.drop_last();
        law_exceptions_listed(init, prefix, k);
        let last = defs.last();
        assert(last == defs[defs.len() - 1]);
        assert forall|i: int| 0 <= i < init.len() implies #[trigger] init[i] == defs[i] by {}
        if exists|i: int| 0 <= i < defs.len() && #[trigger] defs[i].0 == k {
            let i = choose|i: int| 0 <= i < defs.len() && #[trigger] defs[i].0 == k;
            if i < defs.len() - 1 {
                assert(init[i].0 == k);
            }
        }
        if exception_map(init, prefix).contains_key(k) && last.0 != k {
            let i = choose|i: int|
                0 <= i < init.len() && #[trigger] init[i].0 == k && exception_map(init, prefix)[k] == init[i].1
                    && forall|j: int| i < j < init.len() ==> init[j].0 != k;
            assert(defs[i].0 == k);
            assert(exception_map(defs, prefix)[k] == exception_map(init, prefix)[k]);
            assert(defs[i].1 == init[i].1);
            assert forall|j: int| i < j < defs.len() implies defs[j].0 != k by {
                if j < init.len() {
                    assert(init[j] == defs[j]);
                }
            }
        }
        if exception_map(defs, prefix).contains_key(k) && last.0 == k {
            assert(is_exception_of(k, prefix));
            assert(exception_map(defs, prefix)[k] == defs[defs.len() - 1].1);
            assert(forall|j: int| defs.len() - 1 < j < defs.len() ==> defs[j].0 != k);
            assert(defs[defs.len() - 1].0 == k);
        }
    }
}

} // verus!
