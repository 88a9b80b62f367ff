//! Undo/redo entries: each user action on the Defaults tree becomes a pair of
//! `handlr` command lists, one that performs it and one that reverts it, plus the
//! bounded history stack they are kept on.
//!
//! The meaning of a command list is modelled by [`run_cmds`] over a table from MIME
//! type to its ordered handler list; the laws at the end of this file are stated over it.

use std::collections::VecDeque;
use vstd::prelude::*;
use crate::text::concat2;
use crate::text::concat4;

verus! {

/// Most entries the undo history keeps; the oldest is dropped beyond that.
pub const UNDO_BOUND: usize = 100;

/// One invocation of the `handlr` CLI.
#[derive(Debug, Clone, PartialEq, Eq)]
pub enum HandlrCmd {
    /// `handlr set mime desktop`: make `desktop` the only handler.
    Assign { mime: String, desktop: String },
    /// `handlr add mime desktop`: append `desktop` to the handler list.
    Add { mime: String, desktop: String },
    /// `handlr remove mime desktop`: drop `desktop` from the handler list.
    Remove { mime: String, desktop: String },
    /// `handlr unset mime`: forget the entry for `mime`.
    Unset { mime: String },
}

/// Mathematical form of a [`HandlrCmd`].
pub enum CmdView {
    Assign { mime: Seq<char>, desktop: Seq<char> },
    Add { mime: Seq<char>, desktop: Seq<char> },
    Remove { mime: Seq<char>, desktop: Seq<char> },
    Unset { mime: Seq<char> },
}

impl View for HandlrCmd {
    type V = CmdView;

    open spec fn view(&self) -> CmdView {
        match self {
            HandlrCmd::Assign { mime, desktop } => CmdView::Assign { mime: mime@, desktop: desktop@ },
            HandlrCmd::Add { mime, desktop } => CmdView::Add { mime: mime@, desktop: desktop@ },
            HandlrCmd::Remove { mime, desktop } => CmdView::Remove {
                mime: mime@,
                desktop: desktop@,
            },
            HandlrCmd::Unset { mime } => CmdView::Unset { mime: mime@ },
        }
    }
}

impl DeepView for HandlrCmd {
    type V = CmdView;

    open spec fn deep_view(&self) -> CmdView {
        self@
    }
}

/// A reversible action: a label for the history, the commands that perform it and
/// the commands that revert it.
#[derive(Debug, Clone)]
pub struct UndoEntry {
    pub label: String,
    pub forward: Vec<HandlrCmd>,
    pub inverse: Vec<HandlrCmd>,
}

/// Mathematical form of an [`UndoEntry`].
pub struct EntryView {
    pub label: Seq<char>,
    pub forward: Seq<CmdView>,
    pub inverse: Seq<CmdView>,
}

impl View for UndoEntry {
    type V = EntryView;

    open spec fn view(&self) -> EntryView {
        EntryView {
            label: self.label@,
            forward: self.forward.deep_view(),
            inverse: self.inverse.deep_view(),
        }
    }
}

// ---------------------------------------------------------------------------------------
// Meaning of command lists

/// The handler list of `mime` in an association table; an absent entry has none.
pub open spec fn handlers_in(db: Map<Seq<char>, Seq<Seq<char>>>, mime: Seq<char>) -> Seq<Seq<char>> {
    if db.contains_key(mime) {
        db[mime]
    } else {
        Seq::empty()
    }
}

/// `hs` with every occurrence of `desktop` removed.
pub open spec fn without(hs: Seq<Seq<char>>, desktop: Seq<char>) -> Seq<Seq<char>> {
    hs.filter(|d: Seq<char>| d != desktop)
}

/// Effect of one command on the association table.
pub open spec fn run_cmd(db: Map<Seq<char>, Seq<Seq<char>>>, c: CmdView) -> Map<Seq<char>, Seq<Seq<char>>> {
    match c {
        CmdView::Assign { mime, desktop } => db.insert(mime, seq![desktop]),
        CmdView::Add { mime, desktop } => db.insert(mime, handlers_in(db, mime).push(desktop)),
        CmdView::Remove { mime, desktop } => db.insert(mime, without(handlers_in(db, mime), desktop)),
        CmdView::Unset { mime } => db.remove(mime),
    }
}

/// Effect of a command list, run front to back.
pub open spec fn run_cmds(db: Map<Seq<char>, Seq<Seq<char>>>, cmds: Seq<CmdView>) -> Map<Seq<char>, Seq<Seq<char>>>
    decreases cmds.len(),
{
    if cmds.len() == 0 {
        db
    } else {
        run_cmds(run_cmd(db, cmds[0]), cmds.drop_first())
    }
}

// ---------------------------------------------------------------------------------------
// Command lists

/// `Add mime d` for every `d` of `ds`, in order.
pub open spec fn add_all(mime: Seq<char>, ds: Seq<Seq<char>>) -> Seq<CmdView> {
    ds.map_values(|d: Seq<char>| CmdView::Add { mime, desktop: d })
}

/// Commands that make `handlers` the exact handler list of `mime`: `set` the first
/// (which clears the rest) and `add` the others in order; `unset` when empty.
pub open spec fn order_spec(mime: Seq<char>, handlers: Seq<Seq<char>>) -> Seq<CmdView> {
    if handlers.len() == 0 {
        seq![CmdView::Unset { mime }]
    } else {
        seq![CmdView::Assign { mime, desktop: handlers[0] }] + add_all(mime, handlers.drop_first())
    }
}

fn set_cmd(mime: &str, desktop: &str) -> (r: HandlrCmd)
    ensures
        r@ == (CmdView::Assign { mime: mime@, desktop: desktop@ }),
{
    HandlrCmd::Assign { mime: String::from_str(mime), desktop: String::from_str(desktop) }
}

fn add_cmd(mime: &str, desktop: &str) -> (r: HandlrCmd)
    ensures
        r@ == (CmdView::Add { mime: mime@, desktop: desktop@ }),
{
    HandlrCmd::Add { mime: String::from_str(mime), desktop: String::from_str(desktop) }
}

fn remove_cmd(mime: &str, desktop: &str) -> (r: HandlrCmd)
    ensures
        r@ == (CmdView::Remove { mime: mime@, desktop: desktop@ }),
{
    HandlrCmd::Remove { mime: String::from_str(mime), desktop: String::from_str(desktop) }
}

fn unset_cmd(mime: &str) -> (r: HandlrCmd)
    ensures
        r@ == (CmdView::Unset { mime: mime@ }),
{
    HandlrCmd::Unset { mime: String::from_str(mime) }
}

/// The commands that write `handlers` as the full, ordered handler list of `mime`.
fn write_list(mime: &str, handlers: &[String]) -> (r: Vec<HandlrCmd>)
    ensures
        r.deep_view() == order_spec(mime@, handlers.deep_view()),
{
    let mut out: Vec<HandlrCmd> = Vec::new();
    if handlers.len() == 0 {
        out.push(unset_cmd(mime));
        assert(out.deep_view() =~= order_spec(mime@, handlers.deep_view()));
        return out;
    }
    out.push(set_cmd(mime, handlers[0].as_str()));
    let ghost hs = handlers.deep_view();
    let mut i: usize = 1;
    while i < handlers.len()
        invariant
            1 <= i <= handlers.len(),
            hs == handlers.deep_view(),
            out.deep_view() =~= seq![CmdView::Assign { mime: mime@, desktop: hs[0] }] + add_all(
                mime@,
                hs.subrange(1, i as int),
            ),
        decreases handlers.len() - i,
    {
        let ghost before = out.deep_view();
        let c = add_cmd(mime, handlers[i].as_str());
        out.push(c);
        assert(out.deep_view() =~= before.push(c@));
        assert(hs.subrange(1, i + 1) =~= hs.subrange(1, i as int).push(hs[i as int]));
        assert(add_all(mime@, hs.subrange(1, i + 1)) =~= add_all(mime@, hs.subrange(1, i as int)).push(c@));
        i = i + 1;
    }
    assert(hs.subrange(1, handlers.len() as int) =~= hs.drop_first());
    out
}

/// Reorder commands: make `handlers` the handler list of `mime` exactly.
pub fn order_cmds(mime: &str, handlers: &[String]) -> (r: Vec<HandlrCmd>)
    ensures
        r.deep_view() == order_spec(mime@, handlers.deep_view()),
{
    write_list(mime, handlers)
}

/// Inverse of a `set`: since `set` overwrites the whole handler list, restoring the
/// prior state means rewriting every prior entry (or `unset` when there was none).
pub fn inverse_for_set(mime: &str, prior: &[String]) -> (r: Vec<HandlrCmd>)
    ensures
        r.deep_view() == order_spec(mime@, prior.deep_view()),
{
    write_list(mime, prior)
}

/// Setting the default of `mime` to `new`: one `set`, undone by restoring the prior list.
pub open spec fn set_category_default_spec(mime: Seq<char>, new: Seq<char>, prior: Seq<Seq<char>>) -> EntryView {
    EntryView {
        label: if prior.len() == 0 {
            "set "@ + mime + " to "@ + new
        } else {
            "change "@ + mime + " default to "@ + new
        },
        forward: seq![CmdView::Assign { mime, desktop: new }],
        inverse: order_spec(mime, prior),
    }
}

/// Set (or change) the default handler of a category.
pub fn set_category_default(mime: &str, new: &str, prior: &[String]) -> (r: UndoEntry)
    ensures
        r@ == set_category_default_spec(mime@, new@, prior.deep_view()),
{
    let mut forward: Vec<HandlrCmd> = Vec::new();
    forward.push(set_cmd(mime, new));
    let inverse = inverse_for_set(mime, prior);
    let label = if prior.len() == 0 {
        concat4("set ", mime, " to ", new)
    } else {
        concat4("change ", mime, " default to ", new)
    };
    let r = UndoEntry { label, forward, inverse };
    assert(r@.forward =~= seq![CmdView::Assign { mime: mime@, desktop: new@ }]);
    r
}

/// Clearing the default of `mime`: `remove` of the default when there are
/// alternatives (promoting the next one), else `unset`; undone by restoring the prior list.
pub open spec fn clear_category_default_spec(mime: Seq<char>, prior: Seq<Seq<char>>) -> EntryView {
    EntryView {
        label: "clear "@ + mime + " default"@,
        forward: if prior.len() > 1 {
            seq![CmdView::Remove { mime, desktop: prior[0] }]
        } else {
            seq![CmdView::Unset { mime }]
        },
        inverse: order_spec(mime, prior),
    }
}

/// Clear a category default. With alternatives present only the default is removed,
/// so the next handler is promoted; otherwise the entry is unset.
pub fn clear_category_default(mime: &str, prior: &[String]) -> (r: UndoEntry)
    ensures
        r@ == clear_category_default_spec(mime@, prior.deep_view()),
{
    let mut forward: Vec<HandlrCmd> = Vec::new();
    if prior.len() > 1 {
        forward.push(remove_cmd(mime, prior[0].as_str()));
    } else {
        forward.push(unset_cmd(mime));
    }
    let r = UndoEntry {
        label: concat4("clear ", mime, " default", ""),
        forward,
        inverse: inverse_for_set(mime, prior),
    };
    assert(r@.forward =~= clear_category_default_spec(mime@, prior.deep_view()).forward);
    assert(r@.label =~= clear_category_default_spec(mime@, prior.deep_view()).label) by {
        reveal_strlit("");
    }
    r
}

/// Adding `desktop` as the handler of the exception `mime`: one `set`, undone by
/// restoring the prior list.
pub open spec fn add_exception_spec(mime: Seq<char>, desktop: Seq<char>, prior: Seq<Seq<char>>) -> EntryView {
    EntryView {
        label: "add exception "@ + mime + " -> "@ + desktop,
        forward: seq![CmdView::Assign { mime, desktop }],
        inverse: order_spec(mime, prior),
    }
}

/// Add an exception: an exact MIME type gets its own handler.
pub fn add_exception(mime: &str, desktop: &str, prior: &[String]) -> (r: UndoEntry)
    ensures
        r@ == add_exception_spec(mime@, desktop@, prior.deep_view()),
{
    let mut forward: Vec<HandlrCmd> = Vec::new();
    forward.push(set_cmd(mime, desktop));
    let r = UndoEntry {
        label: concat4("add exception ", mime, " -> ", desktop),
        forward,
        inverse: inverse_for_set(mime, prior),
    };
    assert(r@.forward =~= seq![CmdView::Assign { mime: mime@, desktop: desktop@ }]);
    r
}

/// Removing the exception `mime`: one `unset`, undone by restoring the prior list.
pub open spec fn remove_exception_spec(mime: Seq<char>, prior: Seq<Seq<char>>) -> EntryView {
    EntryView {
        label: "remove exception "@ + mime,
        forward: seq![CmdView::Unset { mime }],
        inverse: order_spec(mime, prior),
    }
}

/// Remove an exception: unset the exact MIME type so the category applies again.
pub fn remove_exception(mime: &str, prior: &[String]) -> (r: UndoEntry)
    ensures
        r@ == remove_exception_spec(mime@, prior.deep_view()),
{
    let mut forward: Vec<HandlrCmd> = Vec::new();
    forward.push(unset_cmd(mime));
    let r = UndoEntry {
        label: concat2("remove exception ", mime),
        forward,
        inverse: inverse_for_set(mime, prior),
    };
    assert(r@.forward =~= seq![CmdView::Unset { mime: mime@ }]);
    r
}

/// Adding `desktop` as a further handler of `mime`: `add`, undone by `remove`.
pub open spec fn add_handler_spec(mime: Seq<char>, desktop: Seq<char>) -> EntryView {
    EntryView {
        label: "add handler "@ + mime + " += "@ + desktop,
        forward: seq![CmdView::Add { mime, desktop }],
        inverse: seq![CmdView::Remove { mime, desktop }],
    }
}

/// Append a secondary handler.
pub fn add_handler(mime: &str, desktop: &str) -> (r: UndoEntry)
    ensures
        r@ == add_handler_spec(mime@, desktop@),
{
    let mut forward: Vec<HandlrCmd> = Vec::new();
    forward.push(add_cmd(mime, desktop));
    let mut inverse: Vec<HandlrCmd> = Vec::new();
    inverse.push(remove_cmd(mime, desktop));
    let r = UndoEntry { label: concat4("add handler ", mime, " += ", desktop), forward, inverse };
    assert(r@.forward =~= add_handler_spec(mime@, desktop@).forward);
    assert(r@.inverse =~= add_handler_spec(mime@, desktop@).inverse);
    r
}

/// Removing the handler `desktop` of `mime`: `remove`, undone by `add`.
pub open spec fn remove_handler_spec(mime: Seq<char>, desktop: Seq<char>) -> EntryView {
    EntryView {
        label: "remove handler "@ + mime + " -= "@ + desktop,
        forward: seq![CmdView::Remove { mime, desktop }],
        inverse: seq![CmdView::Add { mime, desktop }],
    }
}

/// Remove a secondary handler.
pub fn remove_handler(mime: &str, desktop: &str) -> (r: UndoEntry)
    ensures
        r@ == remove_handler_spec(mime@, desktop@),
{
    let mut forward: Vec<HandlrCmd> = Vec::new();
    forward.push(remove_cmd(mime, desktop));
    let mut inverse: Vec<HandlrCmd> = Vec::new();
    inverse.push(add_cmd(mime, desktop));
    let r = UndoEntry {
        label: concat4("remove handler ", mime, " -= ", desktop),
        forward,
        inverse,
    };
    assert(r@.forward =~= remove_handler_spec(mime@, desktop@).forward);
    assert(r@.inverse =~= remove_handler_spec(mime@, desktop@).inverse);
    r
}

/// `hs` with the entries at `i - 1` and `i` exchanged.
pub open spec fn swap_up(hs: Seq<Seq<char>>, i: int) -> Seq<Seq<char>> {
    hs.update(i - 1, hs[i]).update(i, hs[i - 1])
}

/// Promoting the handler at `index` one place: a full reorder each way; none at the top
/// or out of range.
pub open spec fn move_handler_up_spec(mime: Seq<char>, handlers: Seq<Seq<char>>, index: int) -> Option<EntryView> {
    if index == 0 || index >= handlers.len() {
        None
    } else {
        Some(
            EntryView {
                label: "promote "@ + handlers[index] + " in "@ + mime,
                forward: order_spec(mime, swap_up(handlers, index)),
                inverse: order_spec(mime, handlers),
            },
        )
    }
}

/// Swap the handler at `index` with the one above it. `None` when `index` is 0 or out
/// of range. Both directions are full reorders, so they stay consistent whatever runs
/// in between.
pub fn move_handler_up(mime: &str, handlers: &[String], index: usize) -> (r: Option<UndoEntry>)
    ensures
        r matches Some(e) ==> move_handler_up_spec(mime@, handlers.deep_view(), index as int)
            == Some(e@),
        r is None <==> move_handler_up_spec(mime@, handlers.deep_view(), index as int) is None,
{
    if index == 0 || index >= handlers.len() {
        return None;
    }
    let mut new_order: Vec<String> = Vec::new();
    let mut i: usize = 0;
    while i < handlers.len()
        invariant
            0 < index < handlers.len(),
            i <= handlers.len(),
            new_order.deep_view() =~= swap_up(handlers.deep_view(), index as int).take(i as int),
        decreases handlers.len() - i,
    {
        let ghost before = new_order.deep_view();
        let next = if i + 1 == index {
            handlers[index].clone()
        } else if i == index {
            handlers[index - 1].clone()
        } else {
            handlers[i].clone()
        };
        new_order.push(next);
        assert(new_order.deep_view() =~= before.push(next@));
        i = i + 1;
    }
    assert(new_order.deep_view() =~= swap_up(handlers.deep_view(), index as int));
    Some(
        UndoEntry {
            label: concat4("promote ", handlers[index].as_str(), " in ", mime),
            forward: order_cmds(mime, new_order.as_slice()),
            inverse: order_cmds(mime, handlers),
        },
    )
}

/// Push onto a history stack, dropping the oldest entry once `UNDO_BOUND` is reached.
pub fn push_bounded(stack: &mut VecDeque<UndoEntry>, entry: UndoEntry)
    ensures
        final(stack)@ == if old(stack)@.len() >= UNDO_BOUND {
            old(stack)@.drop_first().push(entry)
        } else {
            old(stack)@.push(entry)
        },
{
    if stack.len() >= UNDO_BOUND {
        stack.pop_front();
    }
    stack.push_back(entry);
}

// ---------------------------------------------------------------------------------------
// Laws

/// Two association tables list the same handlers for every MIME type.
pub open spec fn same_lists(a: Map<Seq<char>, Seq<Seq<char>>>, b: Map<Seq<char>, Seq<Seq<char>>>) -> bool {
    forall|m: Seq<char>| #[trigger] handlers_in(a, m) == handlers_in(b, m)
}

proof fn lemma_run_concat(db: Map<Seq<char>, Seq<Seq<char>>>, a: Seq<CmdView>, b: Seq<CmdView>)
    ensures
        run_cmds(db, a + b) == run_cmds(run_cmds(db, a), b),
    decreases a.len(),
{
    if a.len() == 0 {
        assert(a + b =~= b);
    } else {
        assert((a + b).drop_first() =~= a.drop_first() + b);
        lemma_run_concat(run_cmd(db, a[0]), a.drop_first(), b);
    }
}

proof fn lemma_run_adds(db: Map<Seq<char>, Seq<Seq<char>>>, mime: Seq<char>, ds: Seq<Seq<char>>)
    requires
        db.contains_key(mime),
    ensures
        run_cmds(db, add_all(mime, ds)) == db.insert(mime, handlers_in(db, mime) + ds),
    decreases ds.len(),
{
    if ds.len() == 0 {
        assert(add_all(mime, ds) =~= Seq::<CmdView>::empty());
        assert(handlers_in(db, mime) + ds =~= handlers_in(db, mime));
        assert(db.insert(mime, handlers_in(db, mime)) =~= db);
    } else {
        let db1 = run_cmd(db, CmdView::Add { mime, desktop: ds[0] });
        assert(add_all(mime, ds).drop_first() =~= add_all(mime, ds.drop_first()));
        lemma_run_adds(db1, mime, ds.drop_first());
        assert(handlers_in(db1, mime) + ds.drop_first() =~= handlers_in(db, mime) + ds);
        assert(db1.insert(mime, handlers_in(db, mime) + ds) =~= db.insert(
            mime,
            handlers_in(db, mime) + ds,
        ));
    }
}

/// Writing a handler list with [`order_spec`] leaves `mime` with exactly that list,
/// whatever the table held before, and touches no other MIME type.
pub proof fn law_order_writes_exact_list(db: Map<Seq<char>, Seq<Seq<char>>>, mime: Seq<char>, hs: Seq<Seq<char>>)
    ensures
        forall|m: Seq<char>|
            #[trigger] handlers_in(run_cmds(db, order_spec(mime, hs)), m) == if m == mime {
                hs
            } else {
                handlers_in(db, m)
            },
{
    let out = run_cmds(db, order_spec(mime, hs));
    if hs.len() == 0 {
        let c = CmdView::Unset { mime };
        assert(order_spec(mime, hs).drop_first() =~= Seq::<CmdView>::empty());
        assert(run_cmds(run_cmd(db, c), Seq::<CmdView>::empty()) == run_cmd(db, c));
        assert(out == db.remove(mime));
    } else {
        let first = seq![CmdView::Assign { mime, desktop: hs[0] }];
        lemma_run_concat(db, first, add_all(mime, hs.drop_first()));
        let db1 = run_cmds(db, first);
        assert(first.drop_first() =~= Seq::<CmdView>::empty());
        assert(run_cmds(run_cmd(db, first[0]), Seq::<CmdView>::empty()) == run_cmd(db, first[0]));
        assert(db1 == db.insert(mime, seq![hs[0]]));
        lemma_run_adds(db1, mime, hs.drop_first());
        assert(seq![hs[0]] + hs.drop_first() =~= hs);
        assert(out == db.insert(mime, seq![hs[0]]).insert(mime, hs));
    }
}

pub(crate) proof fn lemma_run_one(db: Map<Seq<char>, Seq<Seq<char>>>, c: CmdView)
    ensures
        run_cmds(db, seq![c]) == run_cmd(db, c),
{
    assert(seq![c].drop_first() =~= Seq::<CmdView>::empty());
    assert(run_cmds(run_cmd(db, c), Seq::<CmdView>::empty()) == run_cmd(db, c));
}

proof fn lemma_without_absent(s: Seq<Seq<char>>, x: Seq<char>)
    requires
        !s.contains(x),
    ensures
        without(s, x) == s,
    decreases s.len(),
{
    reveal(Seq::filter);
    if s.len() > 0 {
        assert(!s.drop_last().contains(x)) by {
            if s.drop_last().contains(x) {
                let i = choose|i: int| 0 <= i < s.drop_last().len() && s.drop_last()[i] == x;
                assert(s[i] == x);
            }
        }
        lemma_without_absent(s.drop_last(), x);
        assert(s.last() != x) by {
            assert(s[s.len() - 1] == s.last());
        }
        assert(s.drop_last().push(s.last()) =~= s);
    }
}

proof fn lemma_without_push(s: Seq<Seq<char>>, x: Seq<char>)
    ensures
        without(s.push(x), x) == without(s, x),
{
    reveal(Seq::filter);
    assert(s.push(x).drop_last() =~= s);
}

proof fn lemma_without_first(s: Seq<Seq<char>>, x: Seq<char>)
    requires
        s.len() > 0,
        s[0] == x,
        !s.drop_first().contains(x),
    ensures
        without(s, x) == s.drop_first(),
    decreases s.len(),
{
    reveal(Seq::filter);
    if s.len() == 1 {
        assert(s.drop_last() =~= Seq::<Seq<char>>::empty());
        assert(s.drop_first() =~= Seq::<Seq<char>>::empty());
        assert(s.last() == x);
        assert(without(s.drop_last(), x) =~= Seq::<Seq<char>>::empty());
    } else {
        let t = s.drop_last();
        assert(s.last() == s.drop_first()[s.len() - 2]);
        assert(!t.drop_first().contains(x)) by {
            if t.drop_first().contains(x) {
                let i = choose|i: int| 0 <= i < t.drop_first().len() && t.drop_first()[i] == x;
                assert(s.drop_first()[i] == x);
            }
        }
        lemma_without_first(t, x);
        assert(t.drop_first().push(s.last()) =~= s.drop_first());
    }
}

proof fn lemma_restore(db: Map<Seq<char>, Seq<Seq<char>>>, mime: Seq<char>, fwd: Seq<CmdView>, prior: Seq<Seq<char>>)
    requires
        handlers_in(db, mime) == prior,
        forall|m: Seq<char>| m != mime ==> #[trigger] handlers_in(run_cmds(db, fwd), m) == handlers_in(db, m),
    ensures
        same_lists(run_cmds(run_cmds(db, fwd), order_spec(mime, prior)), db),
{
    law_order_writes_exact_list(run_cmds(db, fwd), mime, prior);
}

/// Running the same commands on two tables that list the same handlers yields two
/// tables that again list the same handlers.
pub proof fn law_run_respects_lists(a: Map<Seq<char>, Seq<Seq<char>>>, b: Map<Seq<char>, Seq<Seq<char>>>, cmds: Seq<CmdView>)
    requires
        same_lists(a, b),
    ensures
        same_lists(run_cmds(a, cmds), run_cmds(b, cmds)),
    decreases cmds.len(),
{
    if cmds.len() > 0 {
        let a1 = run_cmd(a, cmds[0]);
        let b1 = run_cmd(b, cmds[0]);
        assert forall|m: Seq<char>| #[trigger] handlers_in(a1, m) == handlers_in(b1, m) by {
            assert(handlers_in(a, m) == handlers_in(b, m));
            match cmds[0] {
                CmdView::Assign { mime, desktop } => {},
                CmdView::Add { mime, desktop } => {
                    assert(handlers_in(a, mime) == handlers_in(b, mime));
                },
                CmdView::Remove { mime, desktop } => {
                    assert(handlers_in(a, mime) == handlers_in(b, mime));
                },
                CmdView::Unset { mime } => {},
            }
        }
        law_run_respects_lists(a1, b1, cmds.drop_first());
    }
}

/// Redo after a successful undo reproduces the action: when the inverse commands
/// bring the table back to its prior lists, running the forward commands again gives
/// the same lists as the first time.
pub proof fn law_redo_after_undo(db: Map<Seq<char>, Seq<Seq<char>>>, e: EntryView)
    requires
        same_lists(run_cmds(run_cmds(db, e.forward), e.inverse), db),
    ensures
        same_lists(
            run_cmds(run_cmds(run_cmds(db, e.forward), e.inverse), e.forward),
            run_cmds(db, e.forward),
        ),
{
    law_run_respects_lists(run_cmds(run_cmds(db, e.forward), e.inverse), db, e.forward);
}

/// Setting a category default makes `new` the only handler of `mime`; its inverse
/// restores the prior list, leaving every MIME type as it was.
pub proof fn law_set_category_default(db: Map<Seq<char>, Seq<Seq<char>>>, mime: Seq<char>, new: Seq<char>)
    ensures
        ({
            let e = set_category_default_spec(mime, new, handlers_in(db, mime));
            &&& forall|m: Seq<char>| #[trigger] handlers_in(run_cmds(db, e.forward), m) == if m == mime {
                seq![new]
            } else {
                handlers_in(db, m)
            }
            &&& same_lists(run_cmds(run_cmds(db, e.forward), e.inverse), db)
        }),
{
    let e = set_category_default_spec(mime, new, handlers_in(db, mime));
    lemma_run_one(db, e.forward[0]);
    assert(e.forward == seq![e.forward[0]]);
    lemma_restore(db, mime, e.forward, handlers_in(db, mime));
}

/// Adding an exception gives `mime` the single handler `desktop`; its inverse restores
/// the prior list.
pub proof fn law_add_exception(db: Map<Seq<char>, Seq<Seq<char>>>, mime: Seq<char>, desktop: Seq<char>)
    ensures
        ({
            let e = add_exception_spec(mime, desktop, handlers_in(db, mime));
            &&& forall|m: Seq<char>| #[trigger] handlers_in(run_cmds(db, e.forward), m) == if m == mime {
                seq![desktop]
            } else {
                handlers_in(db, m)
            }
            &&& same_lists(run_cmds(run_cmds(db, e.forward), e.inverse), db)
        }),
{
    let e = add_exception_spec(mime, desktop, handlers_in(db, mime));
    lemma_run_one(db, e.forward[0]);
    assert(e.forward == seq![e.forward[0]]);
    lemma_restore(db, mime, e.forward, handlers_in(db, mime));
}

/// Removing an exception leaves `mime` without handlers; its inverse restores them.
pub proof fn law_remove_exception(db: Map<Seq<char>, Seq<Seq<char>>>, mime: Seq<char>)
    ensures
        ({
            let e = remove_exception_spec(mime, handlers_in(db, mime));
            &&& forall|m: Seq<char>| #[trigger] handlers_in(run_cmds(db, e.forward), m) == if m == mime {
                Seq::<Seq<char>>::empty()
            } else {
                handlers_in(db, m)
            }
            &&& same_lists(run_cmds(run_cmds(db, e.forward), e.inverse), db)
        }),
{
    let e = remove_exception_spec(mime, handlers_in(db, mime));
    lemma_run_one(db, e.forward[0]);
    assert(e.forward == seq![e.forward[0]]);
    lemma_restore(db, mime, e.forward, handlers_in(db, mime));
}

/// Clearing a category default: with alternatives present the default is removed and,
/// when it is listed once, the next handler takes its place; otherwise the category is
/// left without handlers. The inverse restores the prior list in both cases.
pub proof fn law_clear_category_default(db: Map<Seq<char>, Seq<Seq<char>>>, mime: Seq<char>)
    ensures
        ({
            let prior = handlers_in(db, mime);
            let e = clear_category_default_spec(mime, prior);
            &&& prior.len() > 1 && !prior.drop_first().contains(prior[0]) ==> handlers_in(
                run_cmds(db, e.forward),
                mime,
            ) == prior.drop_first()
            &&& prior.len() <= 1 ==> handlers_in(run_cmds(db, e.forward), mime) == Seq::<
                Seq<char>,
            >::empty()
            &&& forall|m: Seq<char>| m != mime ==> #[trigger] handlers_in(run_cmds(db, e.forward), m)
                == handlers_in(db, m)
            &&& same_lists(run_cmds(run_cmds(db, e.forward), e.inverse), db)
        }),
{
    let prior = handlers_in(db, mime);
    let e = clear_category_default_spec(mime, prior);
    lemma_run_one(db, e.forward[0]);
    assert(e.forward == seq![e.forward[0]]);
    if prior.len() > 1 && !prior.drop_first().contains(prior[0]) {
        lemma_without_first(prior, prior[0]);
    }
    lemma_restore(db, mime, e.forward, prior);
}

/// Adding a secondary handler appends it; when it was not listed before, the inverse
/// brings every list back.
pub proof fn law_add_handler(db: Map<Seq<char>, Seq<Seq<char>>>, mime: Seq<char>, desktop: Seq<char>)
    requires
        !handlers_in(db, mime).contains(desktop),
    ensures
        ({
            let e = add_handler_spec(mime, desktop);
            &&& forall|m: Seq<char>| #[trigger] handlers_in(run_cmds(db, e.forward), m) == if m == mime {
                handlers_in(db, mime).push(desktop)
            } else {
                handlers_in(db, m)
            }
            &&& same_lists(run_cmds(run_cmds(db, e.forward), e.inverse), db)
        }),
{
    let e = add_handler_spec(mime, desktop);
    let h = handlers_in(db, mime);
    lemma_run_one(db, e.forward[0]);
    assert(e.forward == seq![e.forward[0]]);
    let db1 = run_cmds(db, e.forward);
    lemma_run_one(db1, e.inverse[0]);
    assert(e.inverse == seq![e.inverse[0]]);
    lemma_without_push(h, desktop);
    lemma_without_absent(h, desktop);
    let db2 = run_cmds(db1, e.inverse);
    assert forall|m: Seq<char>| #[trigger] handlers_in(db2, m) == handlers_in(db, m) by {}
}

/// Removing a secondary handler that is listed once, in last position, is undone by
/// its inverse, which appends it again.
pub proof fn law_remove_last_handler(db: Map<Seq<char>, Seq<Seq<char>>>, mime: Seq<char>, desktop: Seq<char>)
    requires
        handlers_in(db, mime).len() > 0,
        handlers_in(db, mime).last() == desktop,
        !handlers_in(db, mime).drop_last().contains(desktop),
    ensures
        ({
            let e = remove_handler_spec(mime, desktop);
            &&& forall|m: Seq<char>| #[trigger] handlers_in(run_cmds(db, e.forward), m) == if m == mime {
                handlers_in(db, mime).drop_last()
            } else {
                handlers_in(db, m)
            }
            &&& same_lists(run_cmds(run_cmds(db, e.forward), e.inverse), db)
        }),
{
    let e = remove_handler_spec(mime, desktop);
    let h = handlers_in(db, mime);
    let rest = h.drop_last();
    lemma_run_one(db, e.forward[0]);
    assert(e.forward == seq![e.forward[0]]);
    let db1 = run_cmds(db, e.forward);
    lemma_run_one(db1, e.inverse[0]);
    assert(e.inverse == seq![e.inverse[0]]);
    assert(rest.push(desktop) =~= h);
    lemma_without_push(rest, desktop);
    lemma_without_absent(rest, desktop);
    let db2 = run_cmds(db1, e.inverse);
    assert forall|m: Seq<char>| #[trigger] handlers_in(db2, m) == handlers_in(db, m) by {}
}

/// Promoting the handler at `index` swaps it with the one above, and its inverse
/// restores the prior order; both are exact whatever the table held in between.
pub proof fn law_move_handler_up(db: Map<Seq<char>, Seq<Seq<char>>>, mime: Seq<char>, index: int)
    requires
        0 < index < handlers_in(db, mime).len(),
    ensures
        ({
            let hs = handlers_in(db, mime);
            let e = move_handler_up_spec(mime, hs, index)->Some_0;
            &&& move_handler_up_spec(mime, hs, index) is Some
            &&& forall|m: Seq<char>| #[trigger] handlers_in(run_cmds(db, e.forward), m) == if m == mime {
                swap_up(hs, index)
            } else {
                handlers_in(db, m)
            }
            &&& same_lists(run_cmds(run_cmds(db, e.forward), e.inverse), db)
        }),
{
    let hs = handlers_in(db, mime);
    let e = move_handler_up_spec(mime, hs, index)->Some_0;
    law_order_writes_exact_list(db, mime, swap_up(hs, index));
    lemma_restore(db, mime, e.forward, hs);
}

} // verus!
