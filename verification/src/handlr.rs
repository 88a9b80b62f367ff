//! What the library makes of `handlr` output: the association state read from
//! `handlr list --all --json`, display names for `.desktop` ids, the shape of error
//! text shown to the user, and the argument lists of the commands it runs.

use vstd::prelude::*;
use crate::sort::keyed;
use crate::sort::lemma_sort_map_vals;
use crate::sort::map_vals;
use crate::sort::sort_by_key_str;
use crate::sort::sort_stable;
use crate::text::concat2;
use crate::text::ends_with;
use crate::text::str_ends_with;
use crate::text::str_eq;
use crate::undo::HandlrCmd;

verus! {

/// An installed application that can handle MIME types.
#[derive(Debug, Clone)]
pub struct App {
    pub desktop: String,
    pub name: String,
}

/// The association state: configured defaults (MIME type and its ordered handler
/// list) and the applications known to the system.
#[derive(Debug)]
pub struct State {
    pub defaults: Vec<(String, Vec<String>)>,
    pub system_apps: Vec<App>,
}

/// One `{ "mime": ..., "handlers": [...] }` record of `handlr list --all --json`.
#[derive(Debug, Clone)]
pub struct RawEntry {
    pub mime: String,
    pub handlers: Vec<String>,
}

/// The two record lists of `handlr list --all --json` that the state is built from.
#[derive(Debug, Clone)]
pub struct RawListAll {
    pub default_apps: Vec<RawEntry>,
    pub system_apps: Vec<RawEntry>,
}

/// The defaults of a state, by view.
pub open spec fn defaults_view(s: &State) -> Seq<(Seq<char>, Seq<Seq<char>>)> {
    s.defaults.deep_view()
}

// ---------------------------------------------------------------------------------------
// Outside computations

/// What `String::from_utf8_lossy` makes of a byte string.
pub uninterp spec fn utf8_lossy(bytes: Seq<u8>) -> Seq<char>;

/// What `char::to_uppercase` yields for a character (one or more characters).
pub uninterp spec fn uppercase_of(c: char) -> Seq<char>;

/// What `str::to_lowercase` returns for a string.
pub uninterp spec fn lowercase_of(s: Seq<char>) -> Seq<char>;

/// Calls `String::from_utf8_lossy`; the contract claims only that the result is the
/// (deterministic) lossy decoding of the given bytes.
#[verifier::external_body]
fn decode_lossy(bytes: &[u8]) -> (r: String)
    ensures
        r@ == utf8_lossy(bytes@),
{
    String::from_utf8_lossy(bytes).into_owned()
}

/// Calls `char::to_uppercase` and collects the characters it yields; the contract
/// claims only that they are the uppercase mapping of `c`.
#[verifier::external_body]
fn char_uppercase(c: char) -> (r: String)
    ensures
        r@ == uppercase_of(c),
{
    c.to_uppercase().collect()
}

/// Calls `str::to_lowercase`; the contract claims only that the result is the
/// lowercase mapping of `s`.
#[verifier::external_body]
pub(crate) fn str_lowercase(s: &str) -> (r: String)
    ensures
        r@ == lowercase_of(s@),
{
    s.to_lowercase()
}

// ---------------------------------------------------------------------------------------
// Display names

/// `s` without a trailing `.desktop`.
pub open spec fn desktop_stem(s: Seq<char>) -> Seq<char> {
    if ends_with(s, ".desktop"@) {
        s.take(s.len() - 8)
    } else {
        s
    }
}

/// The part of `s` after its last `.`, or all of `s` when it has none.
pub open spec fn last_component(s: Seq<char>) -> Seq<char> {
    match s.index_of_last('.') {
        Some(i) => s.skip(i + 1),
        None => s,
    }
}

/// Display name of a `.desktop` id: the last reverse-DNS component of its stem, with
/// the first character uppercased.
pub open spec fn humanize_spec(desktop: Seq<char>) -> Seq<char> {
    let last = last_component(desktop_stem(desktop));
    if last.len() == 0 {
        Seq::empty()
    } else {
        uppercase_of(last[0]) + last.drop_first()
    }
}

/// Fallback display name for a `.desktop` id, e.g. `org.gnome.Nautilus.desktop` gives
/// `Nautilus`.
pub fn humanize(desktop: &str) -> (r: String)
    ensures
        r@ == humanize_spec(desktop@),
{
    proof {
        reveal_strlit(".desktop");
    }
    let n = desktop.unicode_len();
    let stem_len = if str_ends_with(desktop, ".desktop") {
        n - 8
    } else {
        n
    };
    let stem = desktop.substring_char(0, stem_len);
    assert(stem@ == desktop_stem(desktop@)) by {
        if !ends_with(desktop@, ".desktop"@) {
            assert(desktop@.subrange(0, n as int) =~= desktop@);
        }
    }
    // Position just after the last '.', or 0.
    let mut k: usize = stem_len;
    while k > 0 && stem.get_char(k - 1) != '.'
        invariant
            k <= stem_len,
            stem@.len() == stem_len,
            forall|j: int| k <= j < stem_len ==> stem@[j] != '.',
        decreases k,
    {
        k = k - 1;
    }
    proof {
        stem@.index_of_last_ensures('.');
        if k > 0 {
            assert(stem@.contains('.')) by {
                assert(stem@[k - 1] == '.');
            }
            let i = stem@.index_of_last('.')->Some_0;
            assert(i == k - 1) by {
                if i < k - 1 {
                    assert(stem@[k - 1] == '.');
                }
            }
        } else {
            assert(!stem@.contains('.')) by {
                if stem@.contains('.') {
                    let j = choose|j: int| 0 <= j < stem@.len() && stem@[j] == '.';
                    assert(stem@[j] != '.');
                }
            }
            assert(stem@.skip(0) =~= stem@);
        }
    }
    let last = stem.substring_char(k, stem_len);
    assert(last@ =~= last_component(stem@));
    let m = last.unicode_len();
    if m == 0 {
        return String::new();
    }
    let first = char_uppercase(last.get_char(0));
    let tail = last.substring_char(1, m);
    assert(tail@ =~= last@.drop_first());
    concat2(first.as_str(), tail)
}

// ---------------------------------------------------------------------------------------
// Error text

/// Unicode `White_Space`, the set `char::is_whitespace` tests for.
pub open spec fn is_white_space(c: char) -> bool {
    let v = c as u32;
    (0x9 <= v <= 0xd) || v == 0x20 || v == 0x85 || v == 0xa0 || v == 0x1680 || (0x2000 <= v
        <= 0x200a) || v == 0x2028 || v == 0x2029 || v == 0x202f || v == 0x205f || v == 0x3000
}

/// Whether `c` is Unicode white space.
pub fn is_whitespace(c: char) -> (r: bool)
    ensures
        r == is_white_space(c),
{
    let v = c as u32;
    (0x9 <= v && v <= 0xd) || v == 0x20 || v == 0x85 || v == 0xa0 || v == 0x1680 || (0x2000 <= v
        && v <= 0x200a) || v == 0x2028 || v == 0x2029 || v == 0x202f || v == 0x205f || v == 0x3000
}

/// `s` without its trailing newlines.
pub open spec fn trim_newlines(s: Seq<char>) -> Seq<char>
    decreases s.len(),
{
    if s.len() > 0 && s.last() == '\n' {
        trim_newlines(s.drop_last())
    } else {
        s
    }
}

/// `s` without its trailing white space.
pub open spec fn trim_white_end(s: Seq<char>) -> Seq<char>
    decreases s.len(),
{
    if s.len() > 0 && is_white_space(s.last()) {
        trim_white_end(s.drop_last())
    } else {
        s
    }
}

/// Longest error text shown, in characters, before it is cut.
pub const STDERR_CAP: usize = 200;

/// The text shown for a command's standard error output.
pub open spec fn stderr_spec(bytes: Seq<u8>) -> Seq<char> {
    let t = trim_white_end(trim_newlines(utf8_lossy(bytes)));
    if t.len() > STDERR_CAP {
        t.take(STDERR_CAP as int) + "\u{2026}"@
    } else {
        t
    }
}

proof fn lemma_trim_newlines_prefix(s: Seq<char>, k: int)
    requires
        0 <= k <= s.len(),
        forall|j: int| k <= j < s.len() ==> s[j] == '\n',
        k == 0 || s[k - 1] != '\n',
    ensures
        trim_newlines(s) == s.take(k),
    decreases s.len(),
{
    if s.len() == k {
        assert(s.take(k) =~= s);
        if k > 0 {
            assert(s.last() == s[k - 1]);
        }
    } else {
        assert(s.last() == s[s.len() - 1]);
        let t = s.drop_last();
        assert forall|j: int| k <= j < t.len() implies t[j] == '\n' by {
            assert(t[j] == s[j]);
        }
        if k > 0 {
            assert(t[k - 1] == s[k - 1]);
        }
        lemma_trim_newlines_prefix(t, k);
        assert(t.take(k) =~= s.take(k));
    }
}

/// Removing trailing white space stops at the last character that is not white space.
pub proof fn lemma_trim_white_prefix(s: Seq<char>, k: int)
    requires
        0 <= k <= s.len(),
        forall|j: int| k <= j < s.len() ==> is_white_space(s[j]),
        k == 0 || !is_white_space(s[k - 1]),
    ensures
        trim_white_end(s) == s.take(k),
    decreases s.len(),
{
    if s.len() == k {
        assert(s.take(k) =~= s);
        if k > 0 {
            assert(s.last() == s[k - 1]);
        }
    } else {
        assert(s.last() == s[s.len() - 1]);
        let t = s.drop_last();
        assert forall|j: int| k <= j < t.len() implies is_white_space(t[j]) by {
            assert(t[j] == s[j]);
        }
        if k > 0 {
            assert(t[k - 1] == s[k - 1]);
        }
        lemma_trim_white_prefix(t, k);
        assert(t.take(k) =~= s.take(k));
    }
}

/// Standard error text of a failed command as shown to the user: decoded lossily,
/// trailing newlines and white space removed, cut to `STDERR_CAP` characters with an
/// ellipsis when longer.
pub fn stderr(bytes: &[u8]) -> (r: String)
    ensures
        r@ == stderr_spec(bytes@),
{
    let s = decode_lossy(bytes);
    let n = s.as_str().unicode_len();
    let mut k: usize = n;
    while k > 0 && s.as_str().get_char(k - 1) == '\n'
        invariant
            k <= n,
            n == s@.len(),
            forall|j: int| k <= j < n ==> s@[j] == '\n',
        decreases k,
    {
        k = k - 1;
    }
    proof {
        lemma_trim_newlines_prefix(s@, k as int);
    }
    let mut e: usize = k;
    while e > 0 && is_whitespace(s.as_str().get_char(e - 1))
        invariant
            e <= k <= n,
            n == s@.len(),
            forall|j: int| e <= j < k ==> is_white_space(s@[j]),
        decreases e,
    {
        e = e - 1;
    }
    proof {
        let t = s@.take(k as int);
        assert forall|j: int| e <= j < t.len() implies is_white_space(t[j]) by {}
        if e > 0 {
            assert(t[e - 1] == s@[e - 1]);
        }
        lemma_trim_white_prefix(t, e as int);
        assert(t.take(e as int) =~= s@.take(e as int));
    }
    if e > STDERR_CAP {
        let head = s.as_str().substring_char(0, STDERR_CAP);
        assert(head@ =~= s@.take(e as int).take(STDERR_CAP as int));
        concat2(head, "\u{2026}")
    } else {
        let all = s.as_str().substring_char(0, e);
        String::from_str(all)
    }
}

// ---------------------------------------------------------------------------------------
// State from `handlr list`

/// The handler lists of `entries`, concatenated in order.
pub open spec fn all_handlers(entries: Seq<RawEntry>) -> Seq<Seq<char>>
    decreases entries.len(),
{
    if entries.len() == 0 {
        Seq::empty()
    } else {
        all_handlers(entries.drop_last()) + entries.last().handlers.deep_view()
    }
}

/// First occurrences of the items of `s`, in order.
pub open spec fn first_occurrences(s: Seq<Seq<char>>) -> Seq<Seq<char>>
    decreases s.len(),
{
    if s.len() == 0 {
        s
    } else if first_occurrences(s.drop_last()).contains(s.last()) {
        first_occurrences(s.drop_last())
    } else {
        first_occurrences(s.drop_last()).push(s.last())
    }
}

/// The application list before sorting: one per distinct desktop id, keyed by the
/// lowercase of its display name.
pub open spec fn unsorted_apps(entries: Seq<RawEntry>) -> Seq<(Seq<char>, (Seq<char>, Seq<char>))> {
    first_occurrences(all_handlers(entries)).map_values(
        |d: Seq<char>| (lowercase_of(humanize_spec(d)), (d, humanize_spec(d))),
    )
}

/// The system applications of a state: desktop id and display name of each, in order.
pub open spec fn apps_view(apps: Seq<App>) -> Seq<(Seq<char>, Seq<char>)> {
    apps.map_values(|a: App| (a.desktop@, a.name@))
}

/// The state `handlr list --all --json` describes: defaults as listed; every
/// distinct desktop id of the system records once (first occurrence), named by
/// [`humanize`], stably sorted by the lowercase of that name.
pub open spec fn map_state_spec(raw: RawListAll, s: State) -> bool {
    &&& defaults_view(&s) == raw.default_apps@.map_values(
        |e: RawEntry| (e.mime@, e.handlers.deep_view()),
    )
    &&& apps_view(s.system_apps@) == sort_stable(unsorted_apps(raw.system_apps@)).map_values(
        |p: (Seq<char>, (Seq<char>, Seq<char>))| p.1,
    )
}

/// A copy of a list of strings.
pub fn clone_strings(v: &Vec<String>) -> (r: Vec<String>)
    ensures
        r.deep_view() == v.deep_view(),
{
    let mut out: Vec<String> = Vec::new();
    let mut i: usize = 0;
    while i < v.len()
        invariant
            i <= v.len(),
            out.deep_view() =~= v.deep_view().take(i as int),
        decreases v.len() - i,
    {
        let ghost before = out.deep_view();
        out.push(v[i].clone());
        assert(out.deep_view() =~= before.push(v[i as int]@));
        assert(v.deep_view().take(i + 1) =~= v.deep_view().take(i as int).push(v.deep_view()[i as int]));
        i = i + 1;
    }
    assert(v.deep_view().take(v.len() as int) =~= v.deep_view());
    out
}

fn copy_app(a: &App) -> (r: App)
    ensures
        r.desktop@ == a.desktop@,
        r.name@ == a.name@,
{
    App { desktop: a.desktop.clone(), name: a.name.clone() }
}

/// Each collected application is the first-seen desktop id at the same position,
/// named and keyed as the state requires.
spec fn apps_match(keyed_apps: Seq<(String, App)>, seen: Seq<String>) -> bool {
    &&& keyed_apps.len() == seen.len()
    &&& forall|j: int|
        0 <= j < seen.len() ==> {
            &&& (#[trigger] keyed_apps[j]).1.desktop@ == seen[j]@
            &&& keyed_apps[j].1.name@ == humanize_spec(seen[j]@)
            &&& keyed_apps[j].0@ == lowercase_of(humanize_spec(seen[j]@))
        }
}

pub(crate) fn contains_str(v: &Vec<String>, s: &str) -> (r: bool)
    ensures
        r == v.deep_view().contains(s@),
{
    let mut i: usize = 0;
    while i < v.len()
        invariant
            i <= v.len(),
            forall|j: int| 0 <= j < i ==> v.deep_view()[j] != s@,
        decreases v.len() - i,
    {
        if str_eq(v[i].as_str(), s) {
            assert(v.deep_view()[i as int] == s@);
            return true;
        }
        i = i + 1;
    }
    false
}

/// Build the state from the records of `handlr list --all --json`.
pub fn map_state(raw: RawListAll) -> (r: State)
    ensures
        map_state_spec(raw, r),
{
    let ghost raw0 = raw;
    let RawListAll { default_apps, system_apps } = raw;
    let mut defaults: Vec<(String, Vec<String>)> = Vec::new();
    let mut i: usize = 0;
    while i < default_apps.len()
        invariant
            i <= default_apps.len(),
            default_apps == raw0.default_apps,
            defaults.deep_view() =~= default_apps@.take(i as int).map_values(
                |e: RawEntry| (e.mime@, e.handlers.deep_view()),
            ),
        decreases default_apps.len() - i,
    {
        let e = &default_apps[i];
        let pair = (e.mime.clone(), clone_strings(&e.handlers));
        let ghost before = defaults.deep_view();
        defaults.push(pair);
        assert(defaults.deep_view() =~= before.push((e.mime@, e.handlers.deep_view())));
        assert(default_apps@.take(i + 1) =~= default_apps@.take(i as int).push(default_apps@[i as int]));
        i = i + 1;
    }
    assert(default_apps@.take(default_apps.len() as int) =~= default_apps@);

    // Distinct desktop ids in first-occurrence order.
    let mut seen: Vec<String> = Vec::new();
    let mut keyed_apps: Vec<(String, App)> = Vec::new();
    let mut ei: usize = 0;
    while ei < system_apps.len()
        invariant
            ei <= system_apps.len(),
            system_apps == raw0.system_apps,
            seen.deep_view() == first_occurrences(all_handlers(system_apps@.take(ei as int))),
            apps_match(keyed_apps@, seen@),
        decreases system_apps.len() - ei,
    {
        let entry = &system_apps[ei];
        let ghost base = all_handlers(system_apps@.take(ei as int));
        let mut hi: usize = 0;
        while hi < entry.handlers.len()
            invariant
                hi <= entry.handlers.len(),
                seen.deep_view() == first_occurrences(base + entry.handlers.deep_view().take(hi as int)),
                apps_match(keyed_apps@, seen@),
            decreases entry.handlers.len() - hi,
        {
            let desktop = &entry.handlers[hi];
            let ghost prefix = base + entry.handlers.deep_view().take(hi as int);
            let ghost next = base + entry.handlers.deep_view().take(hi + 1);
            assert(next.drop_last() =~= prefix);
            assert(next.last() == desktop@);
            if !contains_str(&seen, desktop.as_str()) {
                let name = humanize(desktop.as_str());
                let key = str_lowercase(name.as_str());
                let ghost before = seen.deep_view();
                let ghost seen0 = seen@;
                let ghost keyed0 = keyed_apps@;
                seen.push(desktop.clone());
                assert(seen.deep_view() =~= before.push(desktop@));
                keyed_apps.push((key, App { desktop: desktop.clone(), name }));
                assert forall|j: int| 0 <= j < seen@.len() implies {
                    &&& (#[trigger] keyed_apps@[j]).1.desktop@ == seen@[j]@
                    &&& keyed_apps@[j].1.name@ == humanize_spec(seen@[j]@)
                    &&& keyed_apps@[j].0@ == lowercase_of(humanize_spec(seen@[j]@))
                } by {
                    if j < seen0.len() {
                        assert(keyed_apps@[j] == keyed0[j]);
                        assert(seen@[j] == seen0[j]);
                    }
                }
            }
            hi = hi + 1;
        }
        assert(entry.handlers.deep_view().take(entry.handlers.len() as int) =~= entry.handlers.deep_view());
        assert(system_apps@.take(ei + 1).drop_last() =~= system_apps@.take(ei as int));
        assert(system_apps@.take(ei + 1).last() == system_apps@[ei as int]);
        ei = ei + 1;
    }
    assert(system_apps@.take(system_apps.len() as int) =~= system_apps@);
    let ghost pre = keyed(keyed_apps@);
    let ghost f = |a: App| (a.desktop@, a.name@);
    assert(map_vals(pre, f) =~= unsorted_apps(system_apps@));
    let sorted = sort_by_key_str(keyed_apps);
    proof {
        lemma_sort_map_vals(pre, f);
    }
    let mut apps: Vec<App> = Vec::new();
    let mut k: usize = 0;
    while k < sorted.len()
        invariant
            k <= sorted.len(),
            apps_view(apps@) =~= keyed(sorted@).take(k as int).map_values(
                |p: (Seq<char>, App)| (p.1.desktop@, p.1.name@),
            ),
        decreases sorted.len() - k,
    {
        let ghost before = apps_view(apps@);
        apps.push(copy_app(&sorted[k].1));
        assert(apps_view(apps@) =~= before.push((sorted@[k as int].1.desktop@, sorted@[k as int].1.name@)));
        assert(keyed(sorted@).take(k + 1) =~= keyed(sorted@).take(k as int).push(keyed(sorted@)[k as int]));
        k = k + 1;
    }
    assert(apps_view(apps@) =~= sort_stable(unsorted_apps(raw0.system_apps@)).map_values(
        |p: (Seq<char>, (Seq<char>, Seq<char>))| p.1,
    ));
    State { defaults, system_apps: apps }
}

// ---------------------------------------------------------------------------------------
// Command lines

/// Arguments after `handlr` for a command.
pub open spec fn run_args_spec(c: crate::undo::CmdView) -> Seq<Seq<char>> {
    match c {
        crate::undo::CmdView::Assign { mime, desktop } => seq!["set"@, mime, desktop],
        crate::undo::CmdView::Add { mime, desktop } => seq!["add"@, mime, desktop],
        crate::undo::CmdView::Remove { mime, desktop } => seq!["remove"@, mime, desktop],
        crate::undo::CmdView::Unset { mime } => seq!["unset"@, mime],
    }
}

/// The argument list (subcommand first) with which `handlr` runs a command.
pub fn run_args(cmd: &HandlrCmd) -> (r: Vec<String>)
    ensures
        r.deep_view() == run_args_spec(cmd@),
{
    let mut out: Vec<String> = Vec::new();
    match cmd {
        HandlrCmd::Assign { mime, desktop } => {
            out.push(String::from_str("set"));
            out.push(mime.clone());
            out.push(desktop.clone());
        },
        HandlrCmd::Add { mime, desktop } => {
            out.push(String::from_str("add"));
            out.push(mime.clone());
            out.push(desktop.clone());
        },
        HandlrCmd::Remove { mime, desktop } => {
            out.push(String::from_str("remove"));
            out.push(mime.clone());
            out.push(desktop.clone());
        },
        HandlrCmd::Unset { mime } => {
            out.push(String::from_str("unset"));
            out.push(mime.clone());
        },
    }
    assert(out.deep_view() =~= run_args_spec(cmd@));
    out
}

/// Error text for a failed `handlr <what>` invocation, from its standard error.
pub fn failure_message(what: &str, err: &[u8]) -> (r: String)
    ensures
        r@ == "handlr "@ + what@ + " failed: "@ + stderr_spec(err@),
{
    let detail = stderr(err);
    crate::text::concat4("handlr ", what, " failed: ", detail.as_str())
}

/// The version `handlr --version` printed: its standard output decoded lossily and
/// trimmed.
pub fn version_text(stdout: &[u8]) -> (r: String)
    ensures
        r@ == crate::tester::trim_spec(utf8_lossy(stdout@)),
{
    let s = decode_lossy(stdout);
    crate::tester::trim(s.as_str())
}

/// The MIME type `handlr mime --json` reports: that of its first record.
pub fn first_mime(mimes: Vec<String>) -> (r: Result<String, String>)
    ensures
        mimes@.len() > 0 ==> (r matches Ok(m) && m == mimes@[0]),
        mimes@.len() == 0 ==> (r matches Err(e) && e@ == "handlr mime returned empty array"@),
{
    let mut mimes = mimes;
    if mimes.len() == 0 {
        return Err(String::from_str("handlr mime returned empty array"));
    }
    Ok(mimes.remove(0))
}

} // verus!
