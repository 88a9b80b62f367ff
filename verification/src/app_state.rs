//! The application state: the latest association state read from `handlr`, plus the
//! undo and redo histories. Running commands and re-reading the state are done by the
//! caller; these methods take the outcomes and decide what the histories and the
//! snapshot become.

use std::collections::VecDeque;
use vstd::prelude::*;
use crate::handlr::State;
use crate::handlr::defaults_view;
use crate::text::str_eq;
use crate::undo::HandlrCmd;
use crate::undo::UndoEntry;
use crate::undo::UNDO_BOUND;
use crate::undo::push_bounded;

verus! {

/// Snapshot and histories, as values.
pub struct History {
    pub state: State,
    pub undo: Seq<UndoEntry>,
    pub redo: Seq<UndoEntry>,
}

/// The undo history after pushing `e`, dropping the oldest entry at the bound.
pub open spec fn bounded_push(s: Seq<UndoEntry>, e: UndoEntry) -> Seq<UndoEntry> {
    if s.len() >= UNDO_BOUND {
        s.drop_first().push(e)
    } else {
        s.push(e)
    }
}

/// Applying an action. An action without forward commands changes nothing. Once the
/// forward commands succeeded the action enters the undo history and the redo history
/// is cleared, whether or not re-reading the state worked; a re-read state replaces
/// the snapshot. The forward commands' error, else the re-read error, is returned.
pub open spec fn apply_spec(h: History, entry: UndoEntry, fwd: Result<(), String>, resync: Result<State, String>) -> (History, Result<(), String>) {
    if entry.forward@.len() == 0 {
        (h, Ok(()))
    } else {
        match (fwd, resync) {
            (Ok(()), Ok(s)) => (History { state: s, undo: bounded_push(h.undo, entry), redo: Seq::empty() }, Ok(())),
            (Ok(()), Err(e)) => (History { state: h.state, undo: bounded_push(h.undo, entry), redo: Seq::empty() }, Err(e)),
            (Err(e), Ok(s)) => (History { state: s, undo: h.undo, redo: h.redo }, Err(e)),
            (Err(e), Err(_)) => (h, Err(e)),
        }
    }
}

/// Undoing the newest action. With an empty undo history nothing happens. Once the
/// inverse commands succeeded the entry moves to the redo history; if they failed it
/// stays on the undo history. A re-read state replaces the snapshot. On full success
/// the entry's label is returned.
pub open spec fn undo_spec(h: History, inv: Result<(), String>, resync: Result<State, String>) -> (History, Result<Option<String>, String>) {
    if h.undo.len() == 0 {
        (h, Ok(None))
    } else {
        let e = h.undo.last();
        let rest = h.undo.drop_last();
        match (inv, resync) {
            (Ok(()), Ok(s)) => (History { state: s, undo: rest, redo: h.redo.push(e) }, Ok(Some(e.label))),
            (Ok(()), Err(x)) => (History { state: h.state, undo: rest, redo: h.redo.push(e) }, Err(x)),
            (Err(x), Ok(s)) => (History { state: s, undo: h.undo, redo: h.redo }, Err(x)),
            (Err(x), Err(_)) => (h, Err(x)),
        }
    }
}

/// Redoing the newest undone action: the mirror of [`undo_spec`], with the entry going
/// back onto the (bounded) undo history once its forward commands succeeded.
pub open spec fn redo_spec(h: History, fwd: Result<(), String>, resync: Result<State, String>) -> (History, Result<Option<String>, String>) {
    if h.redo.len() == 0 {
        (h, Ok(None))
    } else {
        let e = h.redo.last();
        let rest = h.redo.drop_last();
        match (fwd, resync) {
            (Ok(()), Ok(s)) => (History { state: s, undo: bounded_push(h.undo, e), redo: rest }, Ok(Some(e.label))),
            (Ok(()), Err(x)) => (History { state: h.state, undo: bounded_push(h.undo, e), redo: rest }, Err(x)),
            (Err(x), Ok(s)) => (History { state: s, undo: h.undo, redo: h.redo }, Err(x)),
            (Err(x), Err(_)) => (h, Err(x)),
        }
    }
}

/// Snapshot of the association state with the undo and redo histories.
pub struct AppState {
    state: State,
    undo: VecDeque<UndoEntry>,
    redo: VecDeque<UndoEntry>,
}

impl AppState {
    /// The snapshot and histories.
    pub closed spec fn history(&self) -> History {
        History { state: self.state, undo: self.undo@, redo: self.redo@ }
    }

    /// The undo history stays within its bound.
    pub closed spec fn wf(&self) -> bool {
        self.undo@.len() <= UNDO_BOUND
    }

    /// Start from the state `handlr list` gave, with empty histories; a listing error
    /// is passed on.
    pub fn load(listed: Result<State, String>) -> (r: Result<AppState, String>)
        ensures
            match (listed, r) {
                (Ok(s), Ok(a)) => a.wf() && a.history() == (History { state: s, undo: Seq::empty(), redo: Seq::empty() }),
                (Err(e), Err(x)) => x == e,
                _ => false,
            },
    {
        match listed {
            Ok(s) => {
                let a = AppState { state: s, undo: VecDeque::new(), redo: VecDeque::new() };
                assert(a.history().undo =~= Seq::<UndoEntry>::empty());
                assert(a.history().redo =~= Seq::<UndoEntry>::empty());
                Ok(a)
            },
            Err(e) => Err(e),
        }
    }

    /// The current snapshot.
    pub fn state(&self) -> (r: &State)
        ensures
            *r == self.history().state,
    {
        &self.state
    }

    /// Replace the snapshot (after a reload); the histories are kept.
    pub fn set_state(&mut self, s: State)
        requires
            old(self).wf(),
        ensures
            final(self).wf(),
            final(self).history() == (History { state: s, ..old(self).history() }),
    {
        self.state = s;
    }

    /// Show `mime` under its category before it has a handler: add an empty entry for
    /// it unless one exists. The entry lives only until the next re-read of the state.
    pub fn add_pending_exception(&mut self, mime: String)
        requires
            old(self).wf(),
        ensures
            final(self).wf(),
            final(self).history().undo == old(self).history().undo,
            final(self).history().redo == old(self).history().redo,
            final(self).history().state.system_apps == old(self).history().state.system_apps,
            defaults_view(&final(self).history().state) == if exists|i: int|
                0 <= i < defaults_view(&old(self).history().state).len()
                    && (#[trigger] defaults_view(&old(self).history().state)[i]).0 == mime@ {
                defaults_view(&old(self).history().state)
            } else {
                defaults_view(&old(self).history().state).push((mime@, Seq::<Seq<char>>::empty()))
            },
    {
        let ghost defs = defaults_view(&self.state);
        let mut i: usize = 0;
        while i < self.state.defaults.len()
            invariant
                i <= self.state.defaults.len(),
                defs == defaults_view(&self.state),
                self.history() == old(self).history(),
                self.wf(),
                forall|j: int| 0 <= j < i ==> (#[trigger] defs[j]).0 != mime@,
            decreases self.state.defaults.len() - i,
        {
            if str_eq(self.state.defaults[i].0.as_str(), mime.as_str()) {
                assert(defs[i as int].0 == mime@);
                return;
            }
            i = i + 1;
        }
        let empty: Vec<String> = Vec::new();
        assert(empty.deep_view() =~= Seq::<Seq<char>>::empty());
        self.state.defaults.push((mime, empty));
        assert(defaults_view(&self.state) =~= defs.push((mime@, Seq::<Seq<char>>::empty())));
    }

    /// Whether there is an action to undo.
    pub fn can_undo(&self) -> (r: bool)
        ensures
            r == (self.history().undo.len() > 0),
    {
        self.undo.len() > 0
    }

    /// Whether there is an action to redo.
    pub fn can_redo(&self) -> (r: bool)
        ensures
            r == (self.history().redo.len() > 0),
    {
        self.redo.len() > 0
    }

    /// Label of the action undo would revert.
    pub fn undo_label(&self) -> (r: Option<&str>)
        ensures
            match r {
                Some(l) => self.history().undo.len() > 0 && l@ == self.history().undo.last().label@,
                None => self.history().undo.len() == 0,
            },
    {
        let n = self.undo.len();
        if n == 0 {
            None
        } else {
            Some(self.undo[n - 1].label.as_str())
        }
    }

    /// Label of the action redo would repeat.
    pub fn redo_label(&self) -> (r: Option<&str>)
        ensures
            match r {
                Some(l) => self.history().redo.len() > 0 && l@ == self.history().redo.last().label@,
                None => self.history().redo.len() == 0,
            },
    {
        let n = self.redo.len();
        if n == 0 {
            None
        } else {
            Some(self.redo[n - 1].label.as_str())
        }
    }

    /// Tooltip of the Undo button: `Undo: ` and the label of the action it would
    /// revert, or `Undo` alone.
    pub fn undo_tooltip(&self) -> (r: String)
        ensures
            r@ == if self.history().undo.len() > 0 {
                "Undo: "@ + self.history().undo.last().label@
            } else {
                "Undo"@
            },
    {
        match self.undo_label() {
            Some(l) => crate::text::concat2("Undo: ", l),
            None => String::from_str("Undo"),
        }
    }

    /// Tooltip of the Redo button: `Redo: ` and the label of the action it would repeat,
    /// or `Redo` alone.
    pub fn redo_tooltip(&self) -> (r: String)
        ensures
            r@ == if self.history().redo.len() > 0 {
                "Redo: "@ + self.history().redo.last().label@
            } else {
                "Redo"@
            },
    {
        match self.redo_label() {
            Some(l) => crate::text::concat2("Redo: ", l),
            None => String::from_str("Redo"),
        }
    }

    /// The entry undo would revert (its inverse commands are to be run).
    pub fn undo_entry(&self) -> (r: Option<&UndoEntry>)
        ensures
            match r {
                Some(e) => self.history().undo.len() > 0 && *e == self.history().undo.last(),
                None => self.history().undo.len() == 0,
            },
    {
        let n = self.undo.len();
        if n == 0 {
            None
        } else {
            Some(&self.undo[n - 1])
        }
    }

    /// The entry redo would repeat (its forward commands are to be run).
    pub fn redo_entry(&self) -> (r: Option<&UndoEntry>)
        ensures
            match r {
                Some(e) => self.history().redo.len() > 0 && *e == self.history().redo.last(),
                None => self.history().redo.len() == 0,
            },
    {
        let n = self.redo.len();
        if n == 0 {
            None
        } else {
            Some(&self.redo[n - 1])
        }
    }

    /// Record an action given the outcome of its forward commands and of re-reading the
    /// state; see [`apply_spec`].
    pub fn apply(&mut self, entry: UndoEntry, fwd: Result<(), String>, resync: Result<State, String>) -> (r: Result<(), String>)
        requires
            old(self).wf(),
        ensures
            final(self).wf(),
            (final(self).history(), r) == apply_spec(old(self).history(), entry, fwd, resync),
    {
        if entry.forward.len() == 0 {
            return Ok(());
        }
        match (fwd, resync) {
            (Ok(()), Ok(s)) => {
                self.state = s;
                self.redo.clear();
                push_bounded(&mut self.undo, entry);
                Ok(())
            },
            (Ok(()), Err(e)) => {
                self.redo.clear();
                push_bounded(&mut self.undo, entry);
                Err(e)
            },
            (Err(e), Ok(s)) => {
                self.state = s;
                Err(e)
            },
            (Err(e), Err(_)) => Err(e),
        }
    }

    /// Undo the newest action given the outcome of its inverse commands and of
    /// re-reading the state; see [`undo_spec`].
    pub fn undo(&mut self, inv: Result<(), String>, resync: Result<State, String>) -> (r: Result<Option<String>, String>)
        requires
            old(self).wf(),
        ensures
            final(self).wf(),
            (final(self).history(), r) == undo_spec(old(self).history(), inv, resync),
    {
        let ghost h = self.history();
        let entry = match self.undo.pop_back() {
            Some(e) => e,
            None => {
                return Ok(None);
            },
        };
        assert(self.undo@ == h.undo.drop_last());
        match (inv, resync) {
            (Ok(()), Ok(s)) => {
                self.state = s;
                let label = entry.label.clone();
                self.redo.push_back(entry);
                Ok(Some(label))
            },
            (Ok(()), Err(e)) => {
                self.redo.push_back(entry);
                Err(e)
            },
            (Err(e), Ok(s)) => {
                self.state = s;
                self.undo.push_back(entry);
                assert(self.undo@ =~= h.undo);
                Err(e)
            },
            (Err(e), Err(_)) => {
                self.undo.push_back(entry);
                assert(self.undo@ =~= h.undo);
                Err(e)
            },
        }
    }

    /// Redo the newest undone action given the outcome of its forward commands and of
    /// re-reading the state; see [`redo_spec`].
    pub fn redo(&mut self, fwd: Result<(), String>, resync: Result<State, String>) -> (r: Result<Option<String>, String>)
        requires
            old(self).wf(),
        ensures
            final(self).wf(),
            (final(self).history(), r) == redo_spec(old(self).history(), fwd, resync),
    {
        let ghost h = self.history();
        let entry = match self.redo.pop_back() {
            Some(e) => e,
            None => {
                return Ok(None);
            },
        };
        match (fwd, resync) {
            (Ok(()), Ok(s)) => {
                self.state = s;
                let label = entry.label.clone();
                push_bounded(&mut self.undo, entry);
                Ok(Some(label))
            },
            (Ok(()), Err(e)) => {
                push_bounded(&mut self.undo, entry);
                Err(e)
            },
            (Err(e), Ok(s)) => {
                self.state = s;
                self.redo.push_back(entry);
                assert(self.redo@ =~= h.redo);
                Err(e)
            },
            (Err(e), Err(_)) => {
                self.redo.push_back(entry);
                assert(self.redo@ =~= h.redo);
                Err(e)
            },
        }
    }
}

/// Whether applying `entry` runs anything: only an action with forward commands runs
/// them and re-reads the state; see [`law_empty_action_changes_nothing`].
pub fn needs_run(entry: &UndoEntry) -> (b: bool)
    ensures
        b == (entry.forward@.len() > 0),
{
    entry.forward.len() > 0
}

/// Applying an action without forward commands changes nothing and succeeds, whatever
/// outcomes it is handed; so its commands need not run nor the state be re-read.
pub proof fn law_empty_action_changes_nothing(h: History, entry: UndoEntry, fwd: Result<(), String>, resync: Result<State, String>)
    requires
        entry.forward@.len() == 0,
    ensures
        apply_spec(h, entry, fwd, resync) == (h, success()),
{
}

/// A command's success.
pub open spec fn success() -> Result<(), String> {
    Ok(())
}

/// What to do next while running a list of commands.
pub enum RunStep {
    /// Run the command at this index, then ask again with its outcome.
    Run(usize),
    /// Stop: this is the outcome of the whole run.
    Finish(Result<(), String>),
}

/// Mathematical form of a [`RunStep`].
pub enum StepView {
    Run(int),
    Finish(Result<(), String>),
}

impl View for RunStep {
    type V = StepView;

    open spec fn view(&self) -> StepView {
        match self {
            RunStep::Run(i) => StepView::Run(*i as int),
            RunStep::Finish(r) => StepView::Finish(*r),
        }
    }
}

/// The step after `ran` of `n` commands have run, the latest with outcome `last`
/// (`Ok(())` before any has run): a failure ends the run with its error; otherwise the
/// next command in order runs, and once all have run the run ends in success.
pub open spec fn next_step(n: int, ran: int, last: Result<(), String>) -> StepView {
    if last is Err {
        StepView::Finish(last)
    } else if ran < n {
        StepView::Run(ran)
    } else {
        StepView::Finish(success())
    }
}

/// Running commands in order, stopping at the first one that fails: the next step
/// once `ran` of `cmds` have run and the latest gave `last` (`Ok(())` before any has
/// run). The caller runs the command a step names and asks again with `ran` one past
/// its index and its outcome, until the step finishes.
pub fn run_all(cmds: &[HandlrCmd], ran: usize, last: Result<(), String>) -> (r: RunStep)
    ensures
        r@ == next_step(cmds@.len() as int, ran as int, last),
{
    match last {
        Err(e) => RunStep::Finish(Err(e)),
        Ok(()) => if ran < cmds.len() {
            RunStep::Run(ran)
        } else {
            RunStep::Finish(Ok(()))
        },
    }
}

/// What a run of `n` commands does from the point where `ran` have run, the latest
/// with outcome `last`, when command `i` gives `outs[i]`: the indices of the commands
/// it runs, in order, and its outcome.
pub open spec fn run_trace(n: int, outs: Seq<Result<(), String>>, ran: int, last: Result<(), String>) -> (Seq<int>, Result<(), String>)
    decreases n - ran,
{
    match next_step(n, ran, last) {
        StepView::Finish(r) => (Seq::empty(), r),
        StepView::Run(i) => if ran <= i < n {
            let rest = run_trace(n, outs, i + 1, outs[i]);
            (seq![i] + rest.0, rest.1)
        } else {
            (Seq::empty(), last)
        },
    }
}

/// The first failing outcome among `outs[from..n]`.
pub open spec fn first_failure(outs: Seq<Result<(), String>>, from: int, n: int) -> Option<int>
    decreases n - from,
{
    if from >= n {
        None
    } else if outs[from] is Err {
        Some(from)
    } else {
        first_failure(outs, from + 1, n)
    }
}

/// The indices `from`, `from + 1`, ..., `to - 1`.
pub open spec fn index_range(from: int, to: int) -> Seq<int> {
    Seq::new((to - from) as nat, |j: int| from + j)
}

proof fn lemma_first_failure_bound(outs: Seq<Result<(), String>>, from: int, n: int)
    ensures
        first_failure(outs, from, n) matches Some(k) ==> from <= k < n && outs[k] is Err,
    decreases n - from,
{
    if from < n && !(outs[from] is Err) {
        lemma_first_failure_bound(outs, from + 1, n);
    }
}

proof fn lemma_run_trace(n: int, outs: Seq<Result<(), String>>, ran: int, last: Result<(), String>)
    requires
        0 <= ran <= n <= outs.len(),
        last is Ok,
    ensures
        run_trace(n, outs, ran, last) == match first_failure(outs, ran, n) {
            Some(k) => (index_range(ran, k + 1), outs[k]),
            None => (index_range(ran, n), success()),
        },
    decreases n - ran,
{
    lemma_first_failure_bound(outs, ran, n);
    if ran < n {
        let rest = run_trace(n, outs, ran + 1, outs[ran]);
        assert(run_trace(n, outs, ran, last) == (seq![ran] + rest.0, rest.1));
        if outs[ran] is Err {
            assert(rest == (Seq::<int>::empty(), outs[ran]));
            assert(seq![ran] + Seq::<int>::empty() =~= index_range(ran, ran + 1));
        } else {
            lemma_run_trace(n, outs, ran + 1, outs[ran]);
            lemma_first_failure_bound(outs, ran + 1, n);
            match first_failure(outs, ran + 1, n) {
                Some(k) => {
                    assert(seq![ran] + index_range(ran + 1, k + 1) =~= index_range(ran, k + 1));
                },
                None => {
                    assert(seq![ran] + index_range(ran + 1, n) =~= index_range(ran, n));
                },
            }
        }
    } else {
        assert(index_range(ran, n) =~= Seq::<int>::empty());
    }
}

/// Running `n` commands with [`run_all`] runs them in order up to and including the
/// first that fails, and no further, and ends with its error; when none fails it runs
/// them all and ends in success.
pub proof fn law_run_all_stops_at_first_failure(n: int, outs: Seq<Result<(), String>>)
    requires
        0 <= n <= outs.len(),
    ensures
        run_trace(n, outs, 0, success()) == match first_failure(outs, 0, n) {
            Some(k) => (index_range(0, k + 1), outs[k]),
            None => (index_range(0, n), success()),
        },
{
    lemma_run_trace(n, outs, 0, success());
}

/// An applied action that is then undone leaves the undo history as it was before and
/// the action alone on the redo history, its label reported (below the bound).
pub proof fn law_undo_reverts_apply(h: History, entry: UndoEntry, s1: State, s2: State)
    requires
        h.undo.len() < UNDO_BOUND,
        entry.forward@.len() > 0,
    ensures
        ({
            let (h1, r1) = apply_spec(h, entry, Ok(()), Ok(s1));
            let (h2, r2) = undo_spec(h1, Ok(()), Ok(s2));
            &&& r1 is Ok
            &&& h2.undo == h.undo
            &&& h2.redo == seq![entry]
            &&& h2.state == s2
            &&& r2 is Ok && r2->Ok_0 == Some(entry.label)
        }),
{
    let (h1, r1) = apply_spec(h, entry, Ok(()), Ok(s1));
    assert(h1.undo.drop_last() =~= h.undo);
    assert(Seq::<UndoEntry>::empty().push(entry) =~= seq![entry]);
}

/// Redo right after a successful undo restores both histories and reports the same
/// label.
pub proof fn law_redo_reverts_undo(h: History, s1: State, s2: State)
    requires
        0 < h.undo.len() <= UNDO_BOUND,
    ensures
        ({
            let (h1, r1) = undo_spec(h, Ok(()), Ok(s1));
            let (h2, r2) = redo_spec(h1, Ok(()), Ok(s2));
            &&& h2.undo == h.undo
            &&& h2.redo == h.redo
            &&& r1 is Ok && r1->Ok_0 == Some(h.undo.last().label)
            &&& r2 == r1
        }),
{
    let (h1, r1) = undo_spec(h, Ok(()), Ok(s1));
    assert(h1.redo.drop_last() =~= h.redo);
    assert(h.undo.drop_last().push(h.undo.last()) =~= h.undo);
}

/// When the commands of an action fail, neither history changes, and the commands'
/// error is what is reported; this holds for apply, undo and redo.
pub proof fn law_failed_commands_keep_histories(h: History, entry: UndoEntry, x: String, resync: Result<State, String>)
    ensures
        apply_spec(h, entry, Err(x), resync).0.undo == h.undo,
        apply_spec(h, entry, Err(x), resync).0.redo == h.redo,
        entry.forward@.len() > 0 ==> apply_spec(h, entry, Err(x), resync).1 is Err && apply_spec(h, entry, Err(x), resync).1->Err_0 == x,
        undo_spec(h, Err(x), resync).0.undo == h.undo,
        undo_spec(h, Err(x), resync).0.redo == h.redo,
        h.undo.len() > 0 ==> undo_spec(h, Err(x), resync).1 is Err && undo_spec(h, Err(x), resync).1->Err_0 == x,
        redo_spec(h, Err(x), resync).0.undo == h.undo,
        redo_spec(h, Err(x), resync).0.redo == h.redo,
        h.redo.len() > 0 ==> redo_spec(h, Err(x), resync).1 is Err && redo_spec(h, Err(x), resync).1->Err_0 == x,
{
}

/// A new action whose commands ran clears the redo history and becomes the newest
/// undo entry, whether or not the state could be re-read.
pub proof fn law_apply_clears_redo(h: History, entry: UndoEntry, resync: Result<State, String>)
    requires
        entry.forward@.len() > 0,
    ensures
        apply_spec(h, entry, Ok(()), resync).0.redo == Seq::<UndoEntry>::empty(),
        apply_spec(h, entry, Ok(()), resync).0.undo.last() == entry,
{
}

/// No step lets the undo history grow past its bound.
pub proof fn law_history_bounded(h: History, entry: UndoEntry, c: Result<(), String>, resync: Result<State, String>)
    requires
        h.undo.len() <= UNDO_BOUND,
    ensures
        apply_spec(h, entry, c, resync).0.undo.len() <= UNDO_BOUND,
        undo_spec(h, c, resync).0.undo.len() <= UNDO_BOUND,
        redo_spec(h, c, resync).0.undo.len() <= UNDO_BOUND,
{
}

} // verus!
