//! What each row of the Defaults tree offers: its buttons and the action behind each,
//! what the Delete key does on it, its badge, and the inputs of the add-exception
//! dialog and of the application picker.

use vstd::prelude::*;
use crate::handlr::State;
use crate::handlr::clone_strings;
use crate::handlr::defaults_view;
use crate::handlr::humanize;
use crate::handlr::humanize_spec;
use crate::handlr::lowercase_of;
use crate::handlr::str_lowercase;
use crate::model::Row;
use crate::model::RowView;
use crate::model::lookup;
use crate::model::lookup_handlers;
use crate::tester::trim;
use crate::tester::trim_spec;
use crate::text::concat2;
use crate::text::contains_seq;
use crate::text::ends_with;
use crate::text::str_contains;
use crate::text::str_contains_char;
use crate::text::str_ends_with;
use crate::text::str_eq;
use crate::undo::CmdView;
use crate::undo::EntryView;
use crate::undo::handlers_in;
use crate::undo::law_add_exception;
use crate::undo::law_add_handler;
use crate::undo::law_move_handler_up;
use crate::undo::law_remove_exception;
use crate::undo::law_remove_last_handler;
use crate::undo::lemma_run_one;
use crate::undo::law_clear_category_default;
use crate::undo::law_set_category_default;
use crate::undo::run_cmd;
use crate::undo::run_cmds;
use crate::undo::same_lists;
use crate::undo::without;
use crate::undo::UndoEntry;
use crate::undo::add_exception;
use crate::undo::add_exception_spec;
use crate::undo::add_handler;
use crate::undo::add_handler_spec;
use crate::undo::clear_category_default;
use crate::undo::clear_category_default_spec;
use crate::undo::move_handler_up;
use crate::undo::move_handler_up_spec;
use crate::undo::remove_exception;
use crate::undo::remove_exception_spec;
use crate::undo::remove_handler;
use crate::undo::remove_handler_spec;
use crate::undo::set_category_default;
use crate::undo::set_category_default_spec;

verus! {

// ---------------------------------------------------------------------------------------
// Actions

/// What a row's button does.
#[derive(Debug, Clone)]
pub enum RowAction {
    /// Pick an application and make it the default of `mime` (whose list was `prior`).
    SetDefault { mime: String, prior: Vec<String> },
    /// Clear the default of the category `mime` (whose list was `prior`).
    ClearDefault { mime: String, prior: Vec<String> },
    /// Pick an application and add it as a handler of `mime`; it becomes the default when
    /// `mime` has none.
    AddHandler { mime: String, has_handlers: bool },
    /// Pick an application for a pending exception.
    SetException { mime: String },
    /// Remove the exception `mime` (whose list was `prior`).
    RemoveException { mime: String, prior: Vec<String> },
    /// Remove `desktop` from the handlers of `mime`.
    RemoveHandler { mime: String, desktop: String },
    /// Move the handler at `index` up one place in the list `mime` has when clicked.
    PromoteHandler { mime: String, index: usize },
}

/// Mathematical form of a [`RowAction`].
pub enum ActionView {
    SetDefault { mime: Seq<char>, prior: Seq<Seq<char>> },
    ClearDefault { mime: Seq<char>, prior: Seq<Seq<char>> },
    AddHandler { mime: Seq<char>, has_handlers: bool },
    SetException { mime: Seq<char> },
    RemoveException { mime: Seq<char>, prior: Seq<Seq<char>> },
    RemoveHandler { mime: Seq<char>, desktop: Seq<char> },
    PromoteHandler { mime: Seq<char>, index: int },
}

impl View for RowAction {
    type V = ActionView;

    open spec fn view(&self) -> ActionView {
        match self {
            RowAction::SetDefault { mime, prior } => ActionView::SetDefault {
                mime: mime@,
                prior: prior.deep_view(),
            },
            RowAction::ClearDefault { mime, prior } => ActionView::ClearDefault {
                mime: mime@,
                prior: prior.deep_view(),
            },
            RowAction::AddHandler { mime, has_handlers } => ActionView::AddHandler {
                mime: mime@,
                has_handlers: *has_handlers,
            },
            RowAction::SetException { mime } => ActionView::SetException { mime: mime@ },
            RowAction::RemoveException { mime, prior } => ActionView::RemoveException {
                mime: mime@,
                prior: prior.deep_view(),
            },
            RowAction::RemoveHandler { mime, desktop } => ActionView::RemoveHandler {
                mime: mime@,
                desktop: desktop@,
            },
            RowAction::PromoteHandler { mime, index } => ActionView::PromoteHandler {
                mime: mime@,
                index: *index as int,
            },
        }
    }
}

/// An action button: its icon name, its tooltip and what it does.
#[derive(Debug, Clone)]
pub struct RowButton {
    pub icon: String,
    pub tooltip: String,
    pub action: RowAction,
}

/// Mathematical form of a [`RowButton`].
pub struct ButtonView {
    pub icon: Seq<char>,
    pub tooltip: Seq<char>,
    pub action: ActionView,
}

impl View for RowButton {
    type V = ButtonView;

    open spec fn view(&self) -> ButtonView {
        ButtonView { icon: self.icon@, tooltip: self.tooltip@, action: self.action@ }
    }
}

/// Views of a list of buttons.
pub open spec fn buttons_view(v: Seq<RowButton>) -> Seq<ButtonView> {
    v.map_values(|b: RowButton| b@)
}

/// A button, as values.
pub open spec fn button(icon: Seq<char>, tooltip: Seq<char>, action: ActionView) -> ButtonView {
    ButtonView { icon, tooltip, action }
}

/// The buttons of a row, left to right. A batch MIME row offers to set or change its
/// own handler; a category to change and clear its default (when it has one) and to
/// add a handler; an exception to remove it and set, change or add handlers; an
/// alternative handler (below the default) to remove or promote it. Other rows have
/// none here. In particular a batch group has no button that sets one handler for all
/// its types, and a batch MIME row none that drops its own handler to fall back on the
/// group's: `undo` defines no command pair for either.
pub open spec fn row_buttons_spec(r: RowView) -> Seq<ButtonView> {
    match r {
        RowView::BatchMime { mime, mime_handlers, .. } => if mime_handlers.len() == 0 {
            seq![button("list-add-symbolic"@, "Set specific handler"@, ActionView::SetDefault { mime, prior: Seq::empty() })]
        } else {
            seq![button("document-edit-symbolic"@, "Change handler"@, ActionView::SetDefault { mime, prior: mime_handlers })]
        },
        RowView::Category { mime, handlers } => (if handlers.len() > 0 {
            seq![
                button("document-edit-symbolic"@, "Change default"@, ActionView::SetDefault { mime, prior: handlers }),
                button("user-trash-symbolic"@, "Clear default"@, ActionView::ClearDefault { mime, prior: handlers }),
            ]
        } else {
            Seq::empty()
        }) + seq![button("list-add-symbolic"@, "Add handler"@, ActionView::AddHandler { mime, has_handlers: handlers.len() > 0 })],
        RowView::Exception { mime, handlers } => if handlers.len() == 0 {
            seq![
                button("user-trash-symbolic"@, "Remove exception"@, ActionView::RemoveException { mime, prior: Seq::empty() }),
                button("list-add-symbolic"@, "Set handler"@, ActionView::SetException { mime }),
            ]
        } else {
            seq![
                button("document-edit-symbolic"@, "Change default"@, ActionView::SetDefault { mime, prior: handlers }),
                button("user-trash-symbolic"@, "Remove exception"@, ActionView::RemoveException { mime, prior: handlers }),
                button("list-add-symbolic"@, "Add handler"@, ActionView::AddHandler { mime, has_handlers: true }),
            ]
        },
        RowView::Handler { mime, desktop, index, .. } => if index > 0 {
            seq![
                button("user-trash-symbolic"@, "Remove handler"@, ActionView::RemoveHandler { mime, desktop }),
                button("go-up-symbolic"@, "Promote handler"@, ActionView::PromoteHandler { mime, index: index as int }),
            ]
        } else {
            Seq::empty()
        },
        _ => Seq::empty(),
    }
}

fn no_strings() -> (r: Vec<String>)
    ensures
        r.deep_view() == Seq::<Seq<char>>::empty(),
{
    let r: Vec<String> = Vec::new();
    assert(r.deep_view() =~= Seq::<Seq<char>>::empty());
    r
}

fn make_button(icon: &str, tooltip: &str, action: RowAction) -> (r: RowButton)
    ensures
        r@ == button(icon@, tooltip@, action@),
{
    RowButton { icon: String::from_str(icon), tooltip: String::from_str(tooltip), action }
}

/// The buttons of a row, left to right.
pub fn row_buttons(row: &Row) -> (r: Vec<RowButton>)
    ensures
        buttons_view(r@) == row_buttons_spec(row@),
{
    let mut out: Vec<RowButton> = Vec::new();
    match row {
        Row::BatchMime { mime, mime_handlers, .. } => {
            if mime_handlers.len() == 0 {
                out.push(
                    make_button(
                        "list-add-symbolic",
                        "Set specific handler",
                        RowAction::SetDefault { mime: mime.clone(), prior: no_strings() },
                    ),
                );
            } else {
                out.push(
                    make_button(
                        "document-edit-symbolic",
                        "Change handler",
                        RowAction::SetDefault { mime: mime.clone(), prior: clone_strings(mime_handlers) },
                    ),
                );
            }
            assert(buttons_view(out@) =~= row_buttons_spec(row@));
        },
        Row::Category { mime, handlers } => {
            if handlers.len() > 0 {
                out.push(
                    make_button(
                        "document-edit-symbolic",
                        "Change default",
                        RowAction::SetDefault { mime: mime.clone(), prior: clone_strings(handlers) },
                    ),
                );
                out.push(
                    make_button(
                        "user-trash-symbolic",
                        "Clear default",
                        RowAction::ClearDefault { mime: mime.clone(), prior: clone_strings(handlers) },
                    ),
                );
            }
            out.push(
                make_button(
                    "list-add-symbolic",
                    "Add handler",
                    RowAction::AddHandler { mime: mime.clone(), has_handlers: handlers.len() > 0 },
                ),
            );
            assert(buttons_view(out@) =~= row_buttons_spec(row@));
        },
        Row::Exception { mime, handlers } => {
            if handlers.len() == 0 {
                out.push(
                    make_button(
                        "user-trash-symbolic",
                        "Remove exception",
                        RowAction::RemoveException { mime: mime.clone(), prior: no_strings() },
                    ),
                );
                out.push(
                    make_button("list-add-symbolic", "Set handler", RowAction::SetException { mime: mime.clone() }),
                );
            } else {
                out.push(
                    make_button(
                        "document-edit-symbolic",
                        "Change default",
                        RowAction::SetDefault { mime: mime.clone(), prior: clone_strings(handlers) },
                    ),
                );
                out.push(
                    make_button(
                        "user-trash-symbolic",
                        "Remove exception",
                        RowAction::RemoveException { mime: mime.clone(), prior: clone_strings(handlers) },
                    ),
                );
                out.push(
                    make_button(
                        "list-add-symbolic",
                        "Add handler",
                        RowAction::AddHandler { mime: mime.clone(), has_handlers: true },
                    ),
                );
            }
            assert(buttons_view(out@) =~= row_buttons_spec(row@));
        },
        Row::Handler { mime, desktop, index, .. } => {
            if *index > 0 {
                out.push(
                    make_button(
                        "user-trash-symbolic",
                        "Remove handler",
                        RowAction::RemoveHandler { mime: mime.clone(), desktop: desktop.clone() },
                    ),
                );
                out.push(
                    make_button(
                        "go-up-symbolic",
                        "Promote handler",
                        RowAction::PromoteHandler { mime: mime.clone(), index: *index },
                    ),
                );
            }
            assert(buttons_view(out@) =~= row_buttons_spec(row@));
        },
        _ => {
            assert(buttons_view(out@) =~= row_buttons_spec(row@));
        },
    }
    out
}

/// The history entry of an action that needs an application, once `desktop` is picked;
/// none for the other actions.
pub open spec fn pick_entry_spec(a: ActionView, desktop: Seq<char>) -> Option<EntryView> {
    match a {
        ActionView::SetDefault { mime, prior } => Some(set_category_default_spec(mime, desktop, prior)),
        ActionView::AddHandler { mime, has_handlers } => if has_handlers {
            Some(add_handler_spec(mime, desktop))
        } else {
            Some(set_category_default_spec(mime, desktop, Seq::empty()))
        },
        ActionView::SetException { mime } => Some(add_exception_spec(mime, desktop, Seq::empty())),
        _ => None,
    }
}

/// The history entry of an action that needs an application, once one is picked.
pub fn pick_entry(action: &RowAction, desktop: &str) -> (r: Option<UndoEntry>)
    ensures
        match pick_entry_spec(action@, desktop@) {
            Some(e) => r matches Some(x) && x@ == e,
            None => r is None,
        },
{
    match action {
        RowAction::SetDefault { mime, prior } => Some(set_category_default(mime.as_str(), desktop, prior.as_slice())),
        RowAction::AddHandler { mime, has_handlers } => {
            if *has_handlers {
                Some(add_handler(mime.as_str(), desktop))
            } else {
                let none: Vec<String> = Vec::new();
                proof {
                    assert(none.deep_view() =~= Seq::<Seq<char>>::empty());
                }
                Some(set_category_default(mime.as_str(), desktop, none.as_slice()))
            }
        },
        RowAction::SetException { mime } => {
            let none: Vec<String> = Vec::new();
            proof {
                assert(none.deep_view() =~= Seq::<Seq<char>>::empty());
            }
            Some(add_exception(mime.as_str(), desktop, none.as_slice()))
        },
        _ => None,
    }
}

/// The history entry of an action that runs on a click (promoting reads the handler list
/// of the current state); none for actions that need an application, and none when the
/// promoted position is no longer below the top of the list.
pub open spec fn click_entry_spec(a: ActionView, defs: Seq<(Seq<char>, Seq<Seq<char>>)>) -> Option<EntryView> {
    match a {
        ActionView::ClearDefault { mime, prior } => Some(clear_category_default_spec(mime, prior)),
        ActionView::RemoveException { mime, prior } => Some(remove_exception_spec(mime, prior)),
        ActionView::RemoveHandler { mime, desktop } => Some(remove_handler_spec(mime, desktop)),
        ActionView::PromoteHandler { mime, index } => move_handler_up_spec(mime, lookup(defs, mime), index),
        _ => None,
    }
}

/// The history entry of an action that runs on a click.
pub fn click_entry(action: &RowAction, state: &State) -> (r: Option<UndoEntry>)
    ensures
        match click_entry_spec(action@, defaults_view(state)) {
            Some(e) => r matches Some(x) && x@ == e,
            None => r is None,
        },
{
    match action {
        RowAction::ClearDefault { mime, prior } => Some(clear_category_default(mime.as_str(), prior.as_slice())),
        RowAction::RemoveException { mime, prior } => Some(remove_exception(mime.as_str(), prior.as_slice())),
        RowAction::RemoveHandler { mime, desktop } => Some(remove_handler(mime.as_str(), desktop.as_str())),
        RowAction::PromoteHandler { mime, index } => {
            let handlers = lookup_handlers(state, mime.as_str());
            move_handler_up(mime.as_str(), handlers.as_slice(), *index)
        },
        _ => None,
    }
}

/// What the Delete key does on a row: clear a category's default (when it has one),
/// remove an exception, or remove an alternative handler; nothing elsewhere (on a batch
/// MIME row neither: dropping its own handler for the group's has no command pair in
/// `undo`).
pub open spec fn delete_entry_spec(r: RowView) -> Option<EntryView> {
    match r {
        RowView::Category { mime, handlers } => if handlers.len() > 0 {
            Some(clear_category_default_spec(mime, handlers))
        } else {
            None
        },
        RowView::Exception { mime, handlers } => Some(remove_exception_spec(mime, handlers)),
        RowView::Handler { mime, desktop, index, .. } => if index > 0 {
            Some(remove_handler_spec(mime, desktop))
        } else {
            None
        },
        _ => None,
    }
}

/// The history entry the Delete key makes on a row, if any.
pub fn delete_entry(row: &Row) -> (r: Option<UndoEntry>)
    ensures
        match delete_entry_spec(row@) {
            Some(e) => r matches Some(x) && x@ == e,
            None => r is None,
        },
{
    match row {
        Row::Category { mime, handlers } => {
            if handlers.len() > 0 {
                Some(clear_category_default(mime.as_str(), handlers.as_slice()))
            } else {
                None
            }
        },
        Row::Exception { mime, handlers } => Some(remove_exception(mime.as_str(), handlers.as_slice())),
        Row::Handler { mime, desktop, index, .. } => {
            if *index > 0 {
                Some(remove_handler(mime.as_str(), desktop.as_str()))
            } else {
                None
            }
        },
        _ => None,
    }
}

/// What the Insert key does on a row: pick an application to add to a category (its
/// default when it has none), or to make the default of an exception or of a batch
/// MIME type; nothing elsewhere.
pub open spec fn insert_action_spec(r: RowView) -> Option<ActionView> {
    match r {
        RowView::Category { mime, handlers } => Some(ActionView::AddHandler { mime, has_handlers: handlers.len() > 0 }),
        RowView::Exception { mime, handlers } => Some(ActionView::SetDefault { mime, prior: handlers }),
        RowView::BatchMime { mime, mime_handlers, .. } => Some(ActionView::SetDefault { mime, prior: mime_handlers }),
        _ => None,
    }
}

/// The action the Insert key starts on a row, if any.
pub fn insert_action(row: &Row) -> (r: Option<RowAction>)
    ensures
        match insert_action_spec(row@) {
            Some(a) => r matches Some(x) && x@ == a,
            None => r is None,
        },
{
    match row {
        Row::Category { mime, handlers } => Some(
            RowAction::AddHandler { mime: mime.clone(), has_handlers: handlers.len() > 0 },
        ),
        Row::Exception { mime, handlers } => Some(
            RowAction::SetDefault { mime: mime.clone(), prior: clone_strings(handlers) },
        ),
        Row::BatchMime { mime, mime_handlers, .. } => Some(
            RowAction::SetDefault { mime: mime.clone(), prior: clone_strings(mime_handlers) },
        ),
        _ => None,
    }
}

// ---------------------------------------------------------------------------------------
// Labels

/// The badge of a row: `(set)` on a batch MIME type whose own handler is the group's,
/// `Alt.` on an alternative handler, nothing elsewhere.
pub open spec fn row_badge_spec(r: RowView) -> Seq<char> {
    match r {
        RowView::BatchMime { mime_handlers, group_handler, .. } => if mime_handlers.len() > 0
            && group_handler == Some(mime_handlers[0]) {
            "(set)"@
        } else {
            Seq::empty()
        },
        RowView::Handler { .. } => "Alt."@,
        _ => Seq::empty(),
    }
}

/// The badge of a row.
pub fn row_badge(row: &Row) -> (r: String)
    ensures
        r@ == row_badge_spec(row@),
{
    proof {
        reveal_strlit("");
    }
    match row {
        Row::BatchMime { mime_handlers, group_handler, .. } => {
            let same = mime_handlers.len() > 0 && match group_handler {
                Some(g) => str_eq(g.as_str(), mime_handlers[0].as_str()),
                None => false,
            };
            if same {
                String::from_str("(set)")
            } else {
                String::new()
            }
        },
        Row::Handler { .. } => String::from_str("Alt."),
        _ => String::new(),
    }
}

/// The name shown for a handler: its application's name when the `.desktop` file was
/// found, else the humanized id (`org.gnome.Nautilus.desktop` gives `Nautilus`).
pub fn handler_display_name(desktop: &str, app_name: Option<String>) -> (r: String)
    ensures
        r@ == match app_name {
            Some(n) => n@,
            None => humanize_spec(desktop@),
        },
{
    match app_name {
        Some(n) => n,
        None => humanize(desktop),
    }
}

// ---------------------------------------------------------------------------------------
// Add-exception dialog and application picker

/// The text the add-exception dialog starts with: the category's type followed by `/`
/// (`video/*` gives `video/`), or nothing when the category is not a `…/*` wildcard.
pub open spec fn exception_prefix_spec(category_mime: Seq<char>) -> Seq<char> {
    if ends_with(category_mime, "/*"@) {
        category_mime.take(category_mime.len() - 1)
    } else {
        Seq::empty()
    }
}

/// The text the add-exception dialog starts with.
pub fn exception_prefix(category_mime: &str) -> (r: String)
    ensures
        r@ == exception_prefix_spec(category_mime@),
{
    proof {
        reveal_strlit("/*");
    }
    if str_ends_with(category_mime, "/*") {
        let n = category_mime.unicode_len();
        String::from_str(category_mime.substring_char(0, n - 1))
    } else {
        String::new()
    }
}

/// The message shown when the typed MIME type cannot be an exception.
pub open spec fn exception_input_error() -> Seq<char> {
    "Enter a MIME like `video/mp4`"@
}

/// The MIME type typed in the add-exception dialog, trimmed; refused when it is blank,
/// ends with `*` or has no `/`.
pub fn exception_mime_input(text: &str) -> (r: Result<String, String>)
    ensures
        ({
            let m = trim_spec(text@);
            if m.len() == 0 || m.last() == '*' || !m.contains('/') {
                r matches Err(e) && e@ == exception_input_error()
            } else {
                r matches Ok(x) && x@ == m
            }
        }),
{
    let m = trim(text);
    let n = m.as_str().unicode_len();
    if n == 0 || m.as_str().get_char(n - 1) == '*' || !str_contains_char(m.as_str(), '/') {
        Err(String::from_str("Enter a MIME like `video/mp4`"))
    } else {
        Ok(m)
    }
}

/// Whether the application picker shows an application for the typed query: always for
/// an empty query, else when the lowercased name or `.desktop` id holds the lowercased
/// query.
pub open spec fn picker_shows_spec(query: Seq<char>, name: Seq<char>, desktop: Seq<char>) -> bool {
    let needle = lowercase_of(query);
    needle.len() == 0 || contains_seq(lowercase_of(name), needle) || contains_seq(lowercase_of(desktop), needle)
}

/// Whether the application picker shows an application for the typed query.
pub fn picker_shows(query: &str, name: &str, desktop: &str) -> (r: bool)
    ensures
        r == picker_shows_spec(query@, name@, desktop@),
{
    let needle = str_lowercase(query);
    if needle.as_str().unicode_len() == 0 {
        return true;
    }
    let n = str_lowercase(name);
    if str_contains(n.as_str(), needle.as_str()) {
        return true;
    }
    let d = str_lowercase(desktop);
    str_contains(d.as_str(), needle.as_str())
}

// ---------------------------------------------------------------------------------------
// Laws

/// Picking `desktop` for "Set"/"Change default" (or Insert on an exception or batch
/// type) of `mime`, whose list in the table `db` is the action's prior list, makes
/// `desktop` the only handler of `mime` and touches no other type; undoing it gives
/// every type its list in `db` back.
pub proof fn law_pick_default(db: Map<Seq<char>, Seq<Seq<char>>>, mime: Seq<char>, desktop: Seq<char>)
    ensures
        ({
            let r = pick_entry_spec(ActionView::SetDefault { mime, prior: handlers_in(db, mime) }, desktop);
            &&& r is Some
            &&& forall|m: Seq<char>| #[trigger] handlers_in(run_cmds(db, r->Some_0.forward), m) == if m == mime {
                seq![desktop]
            } else {
                handlers_in(db, m)
            }
            &&& same_lists(run_cmds(run_cmds(db, r->Some_0.forward), r->Some_0.inverse), db)
        }),
{
    law_set_category_default(db, mime, desktop);
}

/// "Clear default" on the category `mime`, whose list in `db` is the action's prior
/// list: when it has alternatives and its default is listed once, the next handler
/// becomes the default and the others keep their order; with one handler or none, the
/// category is left without handlers. No other type changes, and undoing it gives every
/// list back.
pub proof fn law_click_clear_default(db: Map<Seq<char>, Seq<Seq<char>>>, mime: Seq<char>, defs: Seq<(Seq<char>, Seq<Seq<char>>)>)
    ensures
        ({
            let prior = handlers_in(db, mime);
            let r = click_entry_spec(ActionView::ClearDefault { mime, prior }, defs);
            &&& r is Some
            &&& prior.len() > 1 && !prior.drop_first().contains(prior[0]) ==> handlers_in(
                run_cmds(db, r->Some_0.forward),
                mime,
            ) == prior.drop_first()
            &&& prior.len() <= 1 ==> handlers_in(run_cmds(db, r->Some_0.forward), mime).len() == 0
            &&& forall|m: Seq<char>| m != mime ==> #[trigger] handlers_in(run_cmds(db, r->Some_0.forward), m)
                == handlers_in(db, m)
            &&& same_lists(run_cmds(run_cmds(db, r->Some_0.forward), r->Some_0.inverse), db)
        }),
{
    law_clear_category_default(db, mime);
}

/// Insert on the category `mime` (its row showing its list in `db`), then picking
/// `app`: a category without handlers gets `app` as its only handler; one with handlers
/// keeps them and gets `app` appended after them. No other type changes; when `app`
/// was not listed yet, undoing it gives every list back.
pub proof fn law_insert_on_category(db: Map<Seq<char>, Seq<Seq<char>>>, mime: Seq<char>, app: Seq<char>)
    ensures
        ({
            let hs = handlers_in(db, mime);
            let a = insert_action_spec(RowView::Category { mime, handlers: hs });
            let r = pick_entry_spec(a->Some_0, app);
            &&& a is Some
            &&& r is Some
            &&& forall|m: Seq<char>| #[trigger] handlers_in(run_cmds(db, r->Some_0.forward), m) == if m == mime {
                hs.push(app)
            } else {
                handlers_in(db, m)
            }
            &&& !hs.contains(app) ==> same_lists(run_cmds(run_cmds(db, r->Some_0.forward), r->Some_0.inverse), db)
        }),
{
    let hs = handlers_in(db, mime);
    if hs.len() == 0 {
        law_set_category_default(db, mime, app);
        assert(hs.push(app) =~= seq![app]);
    } else {
        let e = add_handler_spec(mime, app);
        let c = CmdView::Add { mime, desktop: app };
        assert(e.forward == seq![c]);
        assert(seq![c].drop_first() =~= Seq::<CmdView>::empty());
        assert(run_cmds(db, e.forward) == run_cmds(run_cmd(db, c), Seq::<CmdView>::empty()));
        if !hs.contains(app) {
            law_add_handler(db, mime, app);
        }
    }
}

/// Insert on an exception, or on a batch MIME type (its row showing its list in `db`),
/// then picking `app`: `app` becomes the only handler of `mime`, no other type changes,
/// and undoing it gives every list back.
pub proof fn law_insert_on_exception_or_batch_type(
    db: Map<Seq<char>, Seq<Seq<char>>>,
    mime: Seq<char>,
    group_handler: Option<Seq<char>>,
    app: Seq<char>,
)
    ensures
        ({
            let hs = handlers_in(db, mime);
            let rows = seq![
                RowView::Exception { mime, handlers: hs },
                RowView::BatchMime { mime, mime_handlers: hs, group_handler },
            ];
            forall|k: int| 0 <= k < 2 ==> {
                let a = insert_action_spec(#[trigger] rows[k]);
                let r = pick_entry_spec(a->Some_0, app);
                &&& a is Some
                &&& r is Some
                &&& forall|m: Seq<char>| #[trigger] handlers_in(run_cmds(db, r->Some_0.forward), m) == if m == mime {
                    seq![app]
                } else {
                    handlers_in(db, m)
                }
                &&& same_lists(run_cmds(run_cmds(db, r->Some_0.forward), r->Some_0.inverse), db)
            }
        }),
{
    law_set_category_default(db, mime, app);
}

/// Picking `app` for a pending exception `mime` makes it the only handler of `mime` and
/// touches no other type; when `mime` had no handlers of its own, undoing it leaves
/// every list as it was.
pub proof fn law_pick_exception(db: Map<Seq<char>, Seq<Seq<char>>>, mime: Seq<char>, app: Seq<char>)
    ensures
        ({
            let r = pick_entry_spec(ActionView::SetException { mime }, app);
            &&& r is Some
            &&& forall|m: Seq<char>| #[trigger] handlers_in(run_cmds(db, r->Some_0.forward), m) == if m == mime {
                seq![app]
            } else {
                handlers_in(db, m)
            }
            &&& handlers_in(db, mime).len() == 0 ==> same_lists(
                run_cmds(run_cmds(db, r->Some_0.forward), r->Some_0.inverse),
                db,
            )
        }),
{
    law_add_exception(db, mime, app);
    assert(handlers_in(db, mime).len() == 0 ==> handlers_in(db, mime) =~= Seq::<Seq<char>>::empty());
}

/// Removing the exception `mime` (whose list in `db` is the action's prior list) leaves
/// it without handlers and touches no other type; undoing it gives every list back.
pub proof fn law_click_remove_exception(db: Map<Seq<char>, Seq<Seq<char>>>, mime: Seq<char>, defs: Seq<(Seq<char>, Seq<Seq<char>>)>)
    ensures
        ({
            let r = click_entry_spec(ActionView::RemoveException { mime, prior: handlers_in(db, mime) }, defs);
            &&& r is Some
            &&& forall|m: Seq<char>| #[trigger] handlers_in(run_cmds(db, r->Some_0.forward), m) == if m == mime {
                Seq::<Seq<char>>::empty()
            } else {
                handlers_in(db, m)
            }
            &&& same_lists(run_cmds(run_cmds(db, r->Some_0.forward), r->Some_0.inverse), db)
        }),
{
    law_remove_exception(db, mime);
}

/// Removing the handler `desktop` of `mime` drops every occurrence of it from the list
/// of `mime`, keeping the others in order, and touches no other type; when it was
/// listed once, in last place, undoing it gives every list back.
pub proof fn law_click_remove_handler(
    db: Map<Seq<char>, Seq<Seq<char>>>,
    mime: Seq<char>,
    desktop: Seq<char>,
    defs: Seq<(Seq<char>, Seq<Seq<char>>)>,
)
    ensures
        ({
            let hs = handlers_in(db, mime);
            let r = click_entry_spec(ActionView::RemoveHandler { mime, desktop }, defs);
            &&& r is Some
            &&& forall|m: Seq<char>| #[trigger] handlers_in(run_cmds(db, r->Some_0.forward), m) == if m == mime {
                without(hs, desktop)
            } else {
                handlers_in(db, m)
            }
            &&& hs.len() > 0 && hs.last() == desktop && !hs.drop_last().contains(desktop) ==> same_lists(
                run_cmds(run_cmds(db, r->Some_0.forward), r->Some_0.inverse),
                db,
            )
        }),
{
    let hs = handlers_in(db, mime);
    lemma_run_one(db, CmdView::Remove { mime, desktop });
    if hs.len() > 0 && hs.last() == desktop && !hs.drop_last().contains(desktop) {
        law_remove_last_handler(db, mime, desktop);
    }
}

/// Promoting the handler at `index` of `mime`, with the state's list for `mime` being
/// its list in `db`: below the top it exchanges that handler with the one above and
/// touches nothing else, and undoing it gives every list back; at the top, or past the
/// end, nothing is done.
pub proof fn law_click_promote(
    db: Map<Seq<char>, Seq<Seq<char>>>,
    mime: Seq<char>,
    index: int,
    defs: Seq<(Seq<char>, Seq<Seq<char>>)>,
)
    requires
        lookup(defs, mime) == handlers_in(db, mime),
        0 <= index,
    ensures
        ({
            let hs = handlers_in(db, mime);
            let r = click_entry_spec(ActionView::PromoteHandler { mime, index }, defs);
            &&& (index == 0 || index >= hs.len()) ==> r is None
            &&& 0 < index < hs.len() ==> {
                &&& r is Some
                &&& forall|m: Seq<char>| m != mime ==> #[trigger] handlers_in(run_cmds(db, r->Some_0.forward), m)
                    == handlers_in(db, m)
                &&& handlers_in(run_cmds(db, r->Some_0.forward), mime).len() == hs.len()
                &&& forall|j: int| 0 <= j < hs.len() ==> #[trigger] handlers_in(run_cmds(db, r->Some_0.forward), mime)[j]
                    == if j == index - 1 {
                    hs[index]
                } else if j == index {
                    hs[index - 1]
                } else {
                    hs[j]
                }
                &&& same_lists(run_cmds(run_cmds(db, r->Some_0.forward), r->Some_0.inverse), db)
            }
        }),
{
    let hs = handlers_in(db, mime);
    if 0 < index < hs.len() {
        law_move_handler_up(db, mime, index);
    }
}

/// The Delete key, on rows showing their lists in `db`: on a category with handlers it
/// clears the default as [`law_click_clear_default`] states (the next handler, when
/// there is one listed after a once-listed default, takes its place); on an exception
/// it leaves the type without handlers; on an alternative handler (below the default)
/// it drops that handler from the list; on a category without handlers, on the default
/// handler row and on other rows it does nothing. Each undo gives every list back,
/// for a handler when it was listed once, in last place.
pub proof fn law_delete(
    db: Map<Seq<char>, Seq<Seq<char>>>,
    mime: Seq<char>,
    desktop: Seq<char>,
    index: usize,
    total: usize,
)
    ensures
        ({
            let hs = handlers_in(db, mime);
            let cat = delete_entry_spec(RowView::Category { mime, handlers: hs });
            &&& hs.len() == 0 ==> cat is None
            &&& hs.len() > 0 ==> {
                &&& cat is Some
                &&& hs.len() > 1 && !hs.drop_first().contains(hs[0]) ==> handlers_in(
                    run_cmds(db, cat->Some_0.forward),
                    mime,
                ) == hs.drop_first()
                &&& hs.len() == 1 ==> handlers_in(run_cmds(db, cat->Some_0.forward), mime).len() == 0
                &&& forall|m: Seq<char>| m != mime ==> #[trigger] handlers_in(run_cmds(db, cat->Some_0.forward), m)
                    == handlers_in(db, m)
                &&& same_lists(run_cmds(run_cmds(db, cat->Some_0.forward), cat->Some_0.inverse), db)
            }
        }),
        ({
            let exc = delete_entry_spec(RowView::Exception { mime, handlers: handlers_in(db, mime) });
            &&& exc is Some
            &&& forall|m: Seq<char>| #[trigger] handlers_in(run_cmds(db, exc->Some_0.forward), m) == if m == mime {
                Seq::<Seq<char>>::empty()
            } else {
                handlers_in(db, m)
            }
            &&& same_lists(run_cmds(run_cmds(db, exc->Some_0.forward), exc->Some_0.inverse), db)
        }),
        ({
            let hs = handlers_in(db, mime);
            let h = delete_entry_spec(RowView::Handler { mime, desktop, index, total });
            &&& index == 0 ==> h is None
            &&& index > 0 ==> {
                &&& h is Some
                &&& forall|m: Seq<char>| #[trigger] handlers_in(run_cmds(db, h->Some_0.forward), m) == if m == mime {
                    without(hs, desktop)
                } else {
                    handlers_in(db, m)
                }
                &&& hs.len() > 0 && hs.last() == desktop && !hs.drop_last().contains(desktop) ==> same_lists(
                    run_cmds(run_cmds(db, h->Some_0.forward), h->Some_0.inverse),
                    db,
                )
            }
        }),
{
    let hs = handlers_in(db, mime);
    law_clear_category_default(db, mime);
    law_remove_exception(db, mime);
    lemma_run_one(db, CmdView::Remove { mime, desktop });
    if hs.len() > 0 && hs.last() == desktop && !hs.drop_last().contains(desktop) {
        law_remove_last_handler(db, mime, desktop);
    }
}

/// The history labels of the default-handler actions: picking `desktop` for `mime`
/// reads "set <mime> to <desktop>" when `mime` had no handlers and "change <mime>
/// default to <desktop>" when it had; clearing reads "clear <mime> default".
pub proof fn law_default_labels(
    mime: Seq<char>,
    desktop: Seq<char>,
    prior: Seq<Seq<char>>,
    defs: Seq<(Seq<char>, Seq<Seq<char>>)>,
)
    ensures
        pick_entry_spec(ActionView::SetDefault { mime, prior }, desktop)->Some_0.label == if prior.len() == 0 {
            "set "@ + mime + " to "@ + desktop
        } else {
            "change "@ + mime + " default to "@ + desktop
        },
        click_entry_spec(ActionView::ClearDefault { mime, prior }, defs)->Some_0.label == "clear "@ + mime + " default"@,
{
}

} // verus!
