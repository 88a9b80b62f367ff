//! The Tester: which program opens a given input (a path, a URL or a MIME type).
//! Regex handlers are tried first, in order, against the raw input; then the input's
//! MIME type is looked up in the configured defaults, exactly or through a wildcard.

use vstd::prelude::*;
use crate::handlr::App;
use crate::handlr::State;
use crate::handlr::defaults_view;
use crate::handlr::is_white_space;
use crate::handlr::is_whitespace;
use crate::handlr::lemma_trim_white_prefix;
use crate::handlr::trim_white_end;
use crate::text::contains_seq;
use crate::text::ends_with;
use crate::text::starts_with;
use crate::text::str_ends_with;
use crate::text::str_eq;
use crate::text::str_starts_with;

verus! {

// ---------------------------------------------------------------------------------------
// regex

/// Whether `regex::Regex::new` accepts the pattern.
pub uninterp spec fn regex_valid(pattern: Seq<char>) -> bool;

/// What `Regex::is_match` answers for a compiled pattern and a text.
pub uninterp spec fn regex_match(pattern: Seq<char>, text: Seq<char>) -> bool;

/// Calls `regex::Regex::new`; the contract claims only that acceptance is a function
/// of the pattern.
#[verifier::external_body]
fn regex_compiles(pattern: &str) -> (r: bool)
    ensures
        r == regex_valid(pattern@),
{
    regex::Regex::new(pattern).is_ok()
}

/// Calls `regex::Regex::new` and then `Regex::is_match` on `text`; `None` when the
/// pattern does not compile. The contract claims only that both outcomes are functions
/// of their arguments.
#[verifier::external_body]
fn regex_test(pattern: &str, text: &str) -> (r: Option<bool>)
    ensures
        r is None <==> !regex_valid(pattern@),
        r matches Some(b) ==> b == regex_match(pattern@, text@),
{
    regex::Regex::new(pattern).ok().map(|re| re.is_match(text))
}

// ---------------------------------------------------------------------------------------
// Words and paths

/// Index of the first non-white-space character of `s` at or after `i`, or `s.len()`.
pub open spec fn skip_white(s: Seq<char>, i: int) -> int
    decreases s.len() - i,
{
    if i < 0 || i >= s.len() || !is_white_space(s[i]) {
        if i < 0 { 0 } else if i > s.len() { s.len() as int } else { i }
    } else {
        skip_white(s, i + 1)
    }
}

/// Index of the first white-space character of `s` at or after `i`, or `s.len()`.
pub open spec fn skip_word(s: Seq<char>, i: int) -> int
    decreases s.len() - i,
{
    if i < 0 || i >= s.len() || is_white_space(s[i]) {
        if i < 0 { 0 } else if i > s.len() { s.len() as int } else { i }
    } else {
        skip_word(s, i + 1)
    }
}

/// The first white-space separated word of `s` (what `split_whitespace().next()` gives).
pub open spec fn first_word_spec(s: Seq<char>) -> Option<Seq<char>> {
    let a = skip_white(s, 0);
    if a == s.len() {
        None
    } else {
        Some(s.subrange(a, skip_word(s, a)))
    }
}

proof fn lemma_skip_white(s: Seq<char>, i: int)
    requires
        0 <= i <= s.len(),
    ensures
        i <= skip_white(s, i) <= s.len(),
        forall|j: int| i <= j < skip_white(s, i) ==> is_white_space(#[trigger] s[j]),
        skip_white(s, i) < s.len() ==> !is_white_space(s[skip_white(s, i)]),
    decreases s.len() - i,
{
    if i < s.len() && is_white_space(s[i]) {
        lemma_skip_white(s, i + 1);
    }
}

proof fn lemma_skip_word(s: Seq<char>, i: int)
    requires
        0 <= i <= s.len(),
    ensures
        i <= skip_word(s, i) <= s.len(),
        forall|j: int| i <= j < skip_word(s, i) ==> !is_white_space(#[trigger] s[j]),
        skip_word(s, i) < s.len() ==> is_white_space(s[skip_word(s, i)]),
    decreases s.len() - i,
{
    if i < s.len() && !is_white_space(s[i]) {
        lemma_skip_word(s, i + 1);
    }
}

/// The first white-space separated word of `s`, if it has one.
pub fn first_word(s: &str) -> (r: Option<String>)
    ensures
        r.deep_view() == first_word_spec(s@),
{
    let n = s.unicode_len();
    let mut a: usize = 0;
    while a < n && is_whitespace(s.get_char(a))
        invariant
            n == s@.len(),
            a <= n,
            skip_white(s@, 0) == skip_white(s@, a as int),
        decreases n - a,
    {
        a = a + 1;
    }
    if a == n {
        return None;
    }
    let mut b: usize = a;
    while b < n && !is_whitespace(s.get_char(b))
        invariant
            n == s@.len(),
            a <= b <= n,
            skip_word(s@, a as int) == skip_word(s@, b as int),
        decreases n - b,
    {
        b = b + 1;
    }
    Some(String::from_str(s.substring_char(a, b)))
}

/// The characters of `s` after its last `/` (all of `s` when it has none).
pub open spec fn last_segment(s: Seq<char>) -> Seq<char> {
    match s.index_of_last('/') {
        Some(i) => s.skip(i + 1),
        None => s,
    }
}

/// The final component of a Unix path, as `Path::file_name` gives it: trailing
/// separators and `.` components are ignored; there is none for an empty path, the
/// root, or a path ending in `..`.
pub open spec fn path_file_name(s: Seq<char>) -> Option<Seq<char>>
    decreases s.len(),
{
    if s.len() == 0 {
        None
    } else if s.last() == '/' {
        path_file_name(s.drop_last())
    } else if last_segment(s) == "."@ {
        path_file_name(s.drop_last())
    } else if last_segment(s) == ".."@ {
        None
    } else {
        Some(last_segment(s))
    }
}

/// Index just past the last `/` among the first `n` characters of `s`, or 0.
fn segment_start(s: &str, n: usize) -> (r: usize)
    requires
        n <= s@.len(),
    ensures
        r <= n,
        r == 0 ==> (forall|j: int| 0 <= j < n ==> s@[j] != '/'),
        r > 0 ==> s@[r - 1] == '/',
        forall|j: int| r <= j < n ==> s@[j] != '/',
{
    let mut i: usize = n;
    while i > 0 && s.get_char(i - 1) != '/'
        invariant
            i <= n <= s@.len(),
            forall|j: int| i <= j < n ==> s@[j] != '/',
        decreases i,
    {
        i = i - 1;
    }
    i
}

proof fn lemma_last_segment(s: Seq<char>, r: int)
    requires
        0 <= r <= s.len(),
        r == 0 ==> (forall|j: int| 0 <= j < s.len() ==> s[j] != '/'),
        r > 0 ==> s[r - 1] == '/',
        forall|j: int| r <= j < s.len() ==> s[j] != '/',
    ensures
        last_segment(s) == s.skip(r),
{
    match s.index_of_last('/') {
        Some(i) => {
            s.index_of_last_ensures('/');
            if i + 1 < r {
                assert(s[r - 1] == '/');
            }
            if i + 1 > r {
                assert(s[i] == '/');
            }
        },
        None => {
            s.index_of_last_ensures('/');
            if r > 0 {
                assert(s.contains(s[r - 1]));
            }
            assert(s.skip(0) =~= s);
        },
    }
}

/// The final component of the path `s` (`Path::file_name`), if it has one.
pub fn file_name(s: &str) -> (r: Option<String>)
    ensures
        r.deep_view() == path_file_name(s@),
{
    let mut n: usize = s.unicode_len();
    assert(s@.take(n as int) =~= s@);
    while n > 0
        invariant
            n <= s@.len(),
            path_file_name(s@) == path_file_name(s@.take(n as int)),
        decreases n,
    {
        let ghost t = s@.take(n as int);
        assert(t.drop_last() =~= s@.take(n - 1));
        if s.get_char(n - 1) == '/' {
            n = n - 1;
        } else {
            let a = segment_start(s, n);
            proof {
                lemma_last_segment(t, a as int);
                assert(t.skip(a as int) =~= s@.subrange(a as int, n as int));
            }
            let len = n - a;
            assert(last_segment(t).len() == len);
            assert(forall|j: int| 0 <= j < len ==> last_segment(t)[j] == s@[a + j]);
            proof {
                reveal_strlit(".");
                reveal_strlit("..");
            }
            assert("."@.len() == 1 && "."@[0] == '.');
            assert(".."@.len() == 2 && ".."@[0] == '.' && ".."@[1] == '.');
            if len == 1 && s.get_char(a) == '.' {
                assert(last_segment(t) =~= "."@);
                n = n - 1;
            } else if len == 2 && s.get_char(a) == '.' && s.get_char(a + 1) == '.' {
                assert(last_segment(t) =~= ".."@);
                return None;
            } else {
                if len == 1 {
                    assert(last_segment(t)[0] != "."@[0]);
                }
                if len == 2 {
                    assert(last_segment(t)[0] != ".."@[0] || last_segment(t)[1] != ".."@[1]);
                }
                return Some(String::from_str(s.substring_char(a, n)));
            }
        }
    }
    None
}

/// The program name of a command line: the final path component of its first word.
pub open spec fn exec_basename_spec(command: Seq<char>) -> Option<Seq<char>> {
    match first_word_spec(command) {
        Some(w) => path_file_name(w),
        None => None,
    }
}

/// The program name of a command line, if its first word has a final path component.
pub fn exec_basename(command: &str) -> (r: Option<String>)
    ensures
        r.deep_view() == exec_basename_spec(command@),
{
    match first_word(command) {
        Some(w) => file_name(w.as_str()),
        None => None,
    }
}

/// The command a handler gets from an application's command line: the program's final
/// path component, followed by everything after the first space.
pub open spec fn command_from_cmdline_spec(cmdline: Seq<char>) -> Seq<char> {
    let (exe, args) = match cmdline.index_of_first(' ') {
        Some(i) => (cmdline.take(i), cmdline.skip(i + 1)),
        None => (cmdline, Seq::empty()),
    };
    let base = match path_file_name(exe) {
        Some(b) => b,
        None => exe,
    };
    if args.len() == 0 {
        base
    } else {
        base + " "@ + args
    }
}

/// The command offered for an application picked for a regex handler: derived from its
/// command line, or its `.desktop` id when it has none.
pub fn command_for_app(commandline: Option<String>, desktop: &str) -> (r: String)
    ensures
        r@ == match commandline {
            Some(c) => command_from_cmdline_spec(c@),
            None => desktop@,
        },
{
    match commandline {
        None => String::from_str(desktop),
        Some(c) => {
            let s = c.as_str();
            let n = s.unicode_len();
            let mut i: usize = 0;
            while i < n && s.get_char(i) != ' '
                invariant
                    n == s@.len(),
                    i <= n,
                    forall|j: int| 0 <= j < i ==> s@[j] != ' ',
                decreases n - i,
            {
                i = i + 1;
            }
            proof {
                s@.index_of_first_ensures(' ');
                if i < n {
                    assert(s@.contains(' '));
                    let k = s@.index_of_first(' ')->Some_0;
                    if k < i {
                        assert(s@[k] != ' ');
                    }
                    if i < k {
                        assert(s@[i as int] == ' ');
                    }
                    assert(s@.index_of_first(' ') == Some(i as int));
                } else {
                    if s@.contains(' ') {
                        let k = choose|k: int| 0 <= k < s@.len() && s@[k] == ' ';
                        assert(s@[k] != ' ');
                    }
                    assert(s@.index_of_first(' ') is None);
                }
            }
            let exe = s.substring_char(0, i);
            let args = if i < n {
                s.substring_char(i + 1, n)
            } else {
                s.substring_char(n, n)
            };
            let ghost exe_s: Seq<char> = if i < n { s@.take(i as int) } else { s@ };
            let ghost args_s: Seq<char> = if i < n { s@.skip(i + 1) } else { Seq::empty() };
            proof {
                assert(exe@ =~= exe_s);
                assert(args@ =~= args_s);
            }
            let base = match file_name(exe) {
                Some(b) => b,
                None => String::from_str(exe),
            };
            proof {
                reveal_strlit(" ");
                reveal_strlit("");
            }
            if args.unicode_len() == 0 {
                base
            } else {
                crate::text::concat4(base.as_str(), " ", args, "")
            }
        },
    }
}

// ---------------------------------------------------------------------------------------
// Raw MIME types

/// A character allowed in a MIME type typed by hand: ASCII letters and digits and
/// `.`, `-`, `+`, `_`, `/`.
pub open spec fn mime_char(c: char) -> bool {
    ('a' <= c <= 'z') || ('A' <= c <= 'Z') || ('0' <= c <= '9') || c == '.' || c == '-' || c == '+'
        || c == '_' || c == '/'
}

/// Whether the input reads as a MIME type rather than a path or URL: no `://`, not
/// starting with `/` or `~`, a `/` somewhere, no space, and only MIME characters.
pub open spec fn looks_like_mime_spec(s: Seq<char>) -> bool {
    &&& !contains_seq(s, "://"@)
    &&& !(s.len() > 0 && s[0] == '/')
    &&& !(s.len() > 0 && s[0] == '~')
    &&& s.contains('/')
    &&& !s.contains(' ')
    &&& forall|i: int| 0 <= i < s.len() ==> mime_char(#[trigger] s[i])
}

/// A character typed by hand in a MIME type: an ASCII letter or digit, or one of
/// `.`, `-`, `+`, `_`, `/`, spelled out character by character.
pub open spec fn typed_mime_char(c: char) -> bool {
    ||| ('a' <= c && c <= 'z')
    ||| ('A' <= c && c <= 'Z')
    ||| ('0' <= c && c <= '9')
    ||| c == '.'
    ||| c == '-'
    ||| c == '+'
    ||| c == '_'
    ||| c == '/'
}

/// A text is taken as a MIME type as it stands exactly when no `:` is followed by
/// `//`, it does not start with `/` or `~`, it holds a `/`, and every character is an
/// ASCII letter or digit or one of `. - + _ /` (so no space). Dotted types such as
/// `application/vnd.ms-excel` are among them.
pub proof fn law_typed_mime_types(s: Seq<char>)
    ensures
        looks_like_mime_spec(s) <==> {
            &&& forall|i: int| 0 <= i && i + 2 < s.len() ==> !(#[trigger] s[i] == ':' && s[i + 1] == '/' && s[i + 2] == '/')
            &&& !(s.len() > 0 && (s[0] == '/' || s[0] == '~'))
            &&& exists|i: int| 0 <= i < s.len() && #[trigger] s[i] == '/'
            &&& forall|i: int| 0 <= i < s.len() ==> typed_mime_char(#[trigger] s[i])
        },
{
    reveal_strlit("://");
    let t = "://"@;
    assert(t.len() == 3 && t[0] == ':' && t[1] == '/' && t[2] == '/');
    assert(contains_seq(s, t) <==> exists|i: int| 0 <= i && i + 2 < s.len() && #[trigger] s[i] == ':' && s[i + 1] == '/' && s[i + 2] == '/') by {
        if contains_seq(s, t) {
            let i = choose|i: int| 0 <= i && i + t.len() <= s.len() && #[trigger] s.subrange(i, i + t.len()) == t;
            assert(s.subrange(i, i + 3)[0] == s[i]);
            assert(s.subrange(i, i + 3)[1] == s[i + 1]);
            assert(s.subrange(i, i + 3)[2] == s[i + 2]);
        }
        if exists|i: int| 0 <= i && i + 2 < s.len() && #[trigger] s[i] == ':' && s[i + 1] == '/' && s[i + 2] == '/' {
            let i = choose|i: int| 0 <= i && i + 2 < s.len() && #[trigger] s[i] == ':' && s[i + 1] == '/' && s[i + 2] == '/';
            assert(s.subrange(i, i + 3) =~= t);
        }
    }
    assert(s.contains('/') <==> exists|i: int| 0 <= i < s.len() && #[trigger] s[i] == '/');
    assert((forall|i: int| 0 <= i < s.len() ==> typed_mime_char(#[trigger] s[i])) ==> !s.contains(' '));
}

fn is_mime_char(c: char) -> (r: bool)
    ensures
        r == mime_char(c),
{
    ('a' <= c && c <= 'z') || ('A' <= c && c <= 'Z') || ('0' <= c && c <= '9') || c == '.' || c
        == '-' || c == '+' || c == '_' || c == '/'
}

/// Whether `s` holds `://`.
fn has_scheme_separator(s: &str) -> (r: bool)
    ensures
        r == contains_seq(s@, "://"@),
{
    proof {
        reveal_strlit("://");
    }
    let ghost t = "://"@;
    assert(t.len() == 3 && t[0] == ':' && t[1] == '/' && t[2] == '/');
    let n = s.unicode_len();
    if n < 3 {
        assert forall|i: int| 0 <= i && i + t.len() <= s@.len() implies #[trigger] s@.subrange(i, i + t.len()) != t by {}
        return false;
    }
    let mut i: usize = 0;
    while i <= n - 3
        invariant
            n == s@.len(),
            n >= 3,
            i + 3 <= n + 1,
            t == "://"@,
            t.len() == 3 && t[0] == ':' && t[1] == '/' && t[2] == '/',
            forall|j: int| 0 <= j < i ==> #[trigger] s@.subrange(j, j + 3) != t,
        decreases n - i,
    {
        if s.get_char(i) == ':' && s.get_char(i + 1) == '/' && s.get_char(i + 2) == '/' {
            assert(s@.subrange(i as int, i + 3) =~= t);
            return true;
        }
        assert(s@.subrange(i as int, i + 3)[0] == s@[i as int]);
        assert(s@.subrange(i as int, i + 3)[1] == s@[i + 1]);
        assert(s@.subrange(i as int, i + 3)[2] == s@[i + 2]);
        i = i + 1;
    }
    assert forall|j: int| 0 <= j && j + t.len() <= s@.len() implies #[trigger] s@.subrange(j, j + t.len()) != t by {
        assert(j < i);
    }
    false
}

/// Whether the input is to be taken as a MIME type as it stands.
pub fn looks_like_mime(s: &str) -> (r: bool)
    ensures
        r == looks_like_mime_spec(s@),
{
    if has_scheme_separator(s) {
        return false;
    }
    let n = s.unicode_len();
    if n > 0 && (s.get_char(0) == '/' || s.get_char(0) == '~') {
        return false;
    }
    let mut slash = false;
    let mut i: usize = 0;
    while i < n
        invariant
            n == s@.len(),
            i <= n,
            slash == s@.take(i as int).contains('/'),
            forall|j: int| 0 <= j < i ==> s@[j] != ' ' && mime_char(#[trigger] s@[j]),
        decreases n - i,
    {
        let c = s.get_char(i);
        if c == ' ' || !is_mime_char(c) {
            assert(s@.contains(' ') || !mime_char(s@[i as int]));
            return false;
        }
        assert(s@.take(i + 1) =~= s@.take(i as int).push(c));
        if c == '/' {
            assert(s@.take(i + 1)[i as int] == '/');
            slash = true;
        } else {
            assert(s@.take(i + 1).contains('/') ==> s@.take(i as int).contains('/'));
        }
        i = i + 1;
    }
    assert(s@.take(n as int) =~= s@);
    slash
}

// ---------------------------------------------------------------------------------------
// Regex handlers

/// A `[[handlers]]` entry: the command that opens whatever matches one of the patterns.
#[derive(Debug, Clone)]
pub struct RegexHandler {
    pub regexes: Vec<String>,
    pub command: String,
    pub terminal: bool,
}

/// Mathematical form of a [`RegexHandler`].
pub struct HandlerView {
    pub regexes: Seq<Seq<char>>,
    pub command: Seq<char>,
    pub terminal: bool,
}

impl View for RegexHandler {
    type V = HandlerView;

    open spec fn view(&self) -> HandlerView {
        HandlerView { regexes: self.regexes.deep_view(), command: self.command@, terminal: self.terminal }
    }
}

/// Views of a list of handlers.
pub open spec fn handlers_view(hs: Seq<RegexHandler>) -> Seq<HandlerView> {
    hs.map_values(|h: RegexHandler| h@)
}

/// How a handler is named in the list of attempts: the first word of its command, or
/// the whole command when it has none.
pub open spec fn exec_short_spec(command: Seq<char>) -> Seq<char> {
    match first_word_spec(command) {
        Some(w) => w,
        None => command,
    }
}

/// Every pattern of every handler, in order, with the index of its handler.
pub open spec fn flat_patterns(hs: Seq<HandlerView>) -> Seq<(int, Seq<char>)>
    decreases hs.len(),
{
    if hs.len() == 0 {
        Seq::empty()
    } else {
        let k = hs.len() - 1;
        flat_patterns(hs.drop_last()) + hs.last().regexes.map_values(|p: Seq<char>| (k, p))
    }
}

/// A pattern compiles and matches the input.
pub open spec fn hits(pattern: Seq<char>, input: Seq<char>) -> bool {
    regex_valid(pattern) && regex_match(pattern, input)
}

/// Position of the first pattern among the first `n` that matches the input.
pub open spec fn first_hit(flat: Seq<(int, Seq<char>)>, input: Seq<char>, n: int) -> Option<int>
    decreases n,
{
    if n <= 0 {
        None
    } else {
        match first_hit(flat, input, n - 1) {
            Some(i) => Some(i),
            None => if hits(flat[n - 1].1, input) {
                Some(n - 1)
            } else {
                None
            },
        }
    }
}

/// One regex tried (or skipped) against the input.
#[derive(Debug, Clone)]
pub struct RegexAttempt {
    pub handler_display: String,
    pub pattern: String,
    pub matched: bool,
    pub invalid: bool,
    pub skipped: bool,
}

/// Mathematical form of a [`RegexAttempt`].
pub struct AttemptView {
    pub handler_display: Seq<char>,
    pub pattern: Seq<char>,
    pub matched: bool,
    pub invalid: bool,
    pub skipped: bool,
}

impl View for RegexAttempt {
    type V = AttemptView;

    open spec fn view(&self) -> AttemptView {
        AttemptView {
            handler_display: self.handler_display@,
            pattern: self.pattern@,
            matched: self.matched,
            invalid: self.invalid,
            skipped: self.skipped,
        }
    }
}

/// Views of a list of attempts.
pub open spec fn attempts_view(v: Seq<RegexAttempt>) -> Seq<AttemptView> {
    v.map_values(|a: RegexAttempt| a@)
}

/// The attempt shown for the `k`-th pattern: skipped once an earlier pattern matched,
/// else whether it matched and whether it failed to compile.
pub open spec fn attempt_spec(hs: Seq<HandlerView>, input: Seq<char>, k: int) -> AttemptView {
    let flat = flat_patterns(hs);
    let (idx, p) = flat[k];
    let skipped = first_hit(flat, input, k) is Some;
    AttemptView {
        handler_display: exec_short_spec(hs[idx].command),
        pattern: p,
        matched: !skipped && hits(p, input),
        invalid: !skipped && !regex_valid(p),
        skipped,
    }
}

/// All attempts, one per pattern.
pub open spec fn attempts_spec(hs: Seq<HandlerView>, input: Seq<char>) -> Seq<AttemptView> {
    Seq::new(flat_patterns(hs).len(), |k: int| attempt_spec(hs, input, k))
}

/// The handler index and pattern of the first pattern that matches, if any.
pub open spec fn winner_spec(hs: Seq<HandlerView>, input: Seq<char>) -> Option<(int, Seq<char>)> {
    let flat = flat_patterns(hs);
    match first_hit(flat, input, flat.len() as int) {
        Some(k) => Some(flat[k]),
        None => None,
    }
}

proof fn lemma_first_hit_stays(flat: Seq<(int, Seq<char>)>, input: Seq<char>, n: int, m: int)
    requires
        0 <= n <= m,
        first_hit(flat, input, n) is Some,
    ensures
        first_hit(flat, input, m) == first_hit(flat, input, n),
    decreases m - n,
{
    if m > n {
        lemma_first_hit_stays(flat, input, n, m - 1);
    }
}

proof fn lemma_first_hit_bound(flat: Seq<(int, Seq<char>)>, input: Seq<char>, n: int)
    requires
        0 <= n,
    ensures
        first_hit(flat, input, n) matches Some(k) ==> 0 <= k < n,
    decreases n,
{
    if n > 0 {
        lemma_first_hit_bound(flat, input, n - 1);
    }
}

proof fn lemma_flat_step(hs: Seq<HandlerView>, i: int)
    requires
        0 <= i < hs.len(),
    ensures
        flat_patterns(hs.take(i + 1)) == flat_patterns(hs.take(i)) + hs[i].regexes.map_values(
            |p: Seq<char>| (i, p),
        ),
{
    assert(hs.take(i + 1).drop_last() =~= hs.take(i));
}

proof fn lemma_flat_index(hs: Seq<HandlerView>, k: int)
    requires
        0 <= k < flat_patterns(hs).len(),
    ensures
        0 <= flat_patterns(hs)[k].0 < hs.len(),
    decreases hs.len(),
{
    let n = hs.len() - 1;
    let pre = flat_patterns(hs.drop_last());
    if k >= pre.len() {
    } else {
        lemma_flat_index(hs.drop_last(), k);
    }
}

proof fn lemma_first_hit_char(flat: Seq<(int, Seq<char>)>, input: Seq<char>, n: int)
    requires
        0 <= n <= flat.len(),
    ensures
        match first_hit(flat, input, n) {
            Some(k) => 0 <= k < n && hits(flat[k].1, input) && forall|j: int| 0 <= j < k ==> !hits(
                #[trigger] flat[j].1,
                input,
            ),
            None => forall|j: int| 0 <= j < n ==> !hits(#[trigger] flat[j].1, input),
        },
    decreases n,
{
    if n > 0 {
        lemma_first_hit_char(flat, input, n - 1);
    }
}

/// First match wins: every pattern before the winning one was tried without a match,
/// the winner is reported as matched, and every pattern after it is skipped. Without a
/// winner every pattern was tried and none matched.
pub proof fn law_first_match_wins(hs: Seq<HandlerView>, input: Seq<char>)
    ensures
        ({
            let atts = attempts_spec(hs, input);
            match winner_spec(hs, input) {
                Some(w) => exists|k: int|
                    0 <= k < atts.len() && #[trigger] atts[k].matched && atts[k].pattern == w.1 && hs[w.0].regexes.contains(w.1)
                        && (forall|j: int| 0 <= j < k ==> !(#[trigger] atts[j]).matched && !atts[j].skipped) && (
                    forall|j: int| k < j < atts.len() ==> (#[trigger] atts[j]).skipped && !atts[j].matched),
                None => forall|j: int| 0 <= j < atts.len() ==> !(#[trigger] atts[j]).matched && !atts[j].skipped,
            }
        }),
{
    let flat = flat_patterns(hs);
    let n = flat.len() as int;
    let atts = attempts_spec(hs, input);
    lemma_first_hit_char(flat, input, n);
    match first_hit(flat, input, n) {
        Some(k) => {
            assert forall|j: int| 0 <= j < k implies !(#[trigger] atts[j]).matched && !atts[j].skipped by {
                lemma_first_hit_char(flat, input, j);
                lemma_flat_index(hs, j);
            }
            assert forall|j: int| k < j < atts.len() implies (#[trigger] atts[j]).skipped && !atts[j].matched by {
                lemma_first_hit_char(flat, input, j);
                lemma_flat_index(hs, j);
                match first_hit(flat, input, j) {
                    Some(k2) => {},
                    None => {
                        assert(!hits(flat[k].1, input));
                    },
                }
            }
            lemma_first_hit_char(flat, input, k);
            lemma_flat_index(hs, k);
            lemma_flat_member(hs, k);
            assert(atts[k].matched);
        },
        None => {
            assert forall|j: int| 0 <= j < atts.len() implies !(#[trigger] atts[j]).matched && !atts[j].skipped by {
                lemma_first_hit_char(flat, input, j);
                lemma_flat_index(hs, j);
                if first_hit(flat, input, j) is Some {
                    let k2 = first_hit(flat, input, j)->Some_0;
                    assert(!hits(flat[k2].1, input));
                }
            }
        },
    }
}

proof fn lemma_flat_member(hs: Seq<HandlerView>, k: int)
    requires
        0 <= k < flat_patterns(hs).len(),
    ensures
        0 <= flat_patterns(hs)[k].0 < hs.len(),
        hs[flat_patterns(hs)[k].0].regexes.contains(flat_patterns(hs)[k].1),
    decreases hs.len(),
{
    let pre = flat_patterns(hs.drop_last());
    if k >= pre.len() {
        let last = hs.last();
        let m = last.regexes.map_values(|p: Seq<char>| (hs.len() - 1, p));
        assert(flat_patterns(hs)[k] == m[k - pre.len()]);
        assert(last.regexes[k - pre.len()] == flat_patterns(hs)[k].1);
    } else {
        lemma_flat_member(hs.drop_last(), k);
        assert(flat_patterns(hs)[k] == pre[k]);
        assert(hs.drop_last()[pre[k].0] == hs[pre[k].0]);
    }
}

/// The attempts and the winner of the regex stage.
pub struct RegexStage {
    pub attempts: Vec<RegexAttempt>,
    /// Index of the winning handler and the pattern that matched.
    pub winner: Option<(usize, String)>,
}

proof fn lemma_flat_prefix(hs: Seq<HandlerView>, i: int)
    requires
        0 <= i <= hs.len(),
    ensures
        flat_patterns(hs.take(i)).len() <= flat_patterns(hs).len(),
        flat_patterns(hs).take(flat_patterns(hs.take(i)).len() as int) == flat_patterns(hs.take(i)),
    decreases hs.len(),
{
    if i == hs.len() {
        assert(hs.take(i) =~= hs);
        assert(flat_patterns(hs).take(flat_patterns(hs).len() as int) =~= flat_patterns(hs));
    } else {
        let d = hs.drop_last();
        assert(d.take(i) =~= hs.take(i));
        lemma_flat_prefix(d, i);
        let a = flat_patterns(d);
        let l = flat_patterns(hs.take(i)).len() as int;
        assert((a + hs.last().regexes.map_values(|p: Seq<char>| (hs.len() - 1, p))).take(l) =~= a.take(l));
    }
}

/// The command's first word, or the whole command when it has none.
fn exec_short(command: &str) -> (r: String)
    ensures
        r@ == exec_short_spec(command@),
{
    match first_word(command) {
        Some(w) => w,
        None => String::from_str(command),
    }
}

/// The outcome of trying `pattern` on the input: `None` when it does not compile, else
/// whether it matches.
pub open spec fn outcome_spec(pattern: Seq<char>, input: Seq<char>) -> Option<bool> {
    if regex_valid(pattern) {
        Some(regex_match(pattern, input))
    } else {
        None
    }
}

/// Position of the first outcome among the first `n` that is a match.
pub open spec fn first_success(outs: Seq<Option<bool>>, n: int) -> Option<int>
    decreases n,
{
    if n <= 0 {
        None
    } else {
        match first_success(outs, n - 1) {
            Some(i) => Some(i),
            None => if n - 1 < outs.len() && outs[n - 1] == Some(true) {
                Some(n - 1)
            } else {
                None
            },
        }
    }
}

/// The attempt shown for the `k`-th pattern given the outcomes: tried when it has an
/// outcome and no earlier pattern matched, else skipped.
pub open spec fn stage_attempt(hs: Seq<HandlerView>, outs: Seq<Option<bool>>, k: int) -> AttemptView {
    let flat = flat_patterns(hs);
    let (idx, p) = flat[k];
    let tried = k < outs.len() && first_success(outs, k) is None;
    AttemptView {
        handler_display: exec_short_spec(hs[idx].command),
        pattern: p,
        matched: tried && outs[k] == Some(true),
        invalid: tried && outs[k] is None,
        skipped: !tried,
    }
}

/// All attempts given the outcomes, one per pattern.
pub open spec fn stage_attempts(hs: Seq<HandlerView>, outs: Seq<Option<bool>>) -> Seq<AttemptView> {
    Seq::new(flat_patterns(hs).len(), |k: int| stage_attempt(hs, outs, k))
}

/// The handler index and pattern of the first pattern whose outcome is a match.
pub open spec fn stage_winner(hs: Seq<HandlerView>, outs: Seq<Option<bool>>) -> Option<(int, Seq<char>)> {
    let flat = flat_patterns(hs);
    match first_success(outs, flat.len() as int) {
        Some(k) => Some(flat[k]),
        None => None,
    }
}

proof fn lemma_first_success_stays(outs: Seq<Option<bool>>, n: int, m: int)
    requires
        0 <= n <= m,
        first_success(outs, n) is Some,
    ensures
        first_success(outs, m) == first_success(outs, n),
    decreases m - n,
{
    if m > n {
        lemma_first_success_stays(outs, n, m - 1);
    }
}

proof fn lemma_first_success_bound(outs: Seq<Option<bool>>, n: int)
    requires
        0 <= n,
    ensures
        first_success(outs, n) matches Some(k) ==> 0 <= k < n && k < outs.len() && outs[k] == Some(true),
    decreases n,
{
    if n > 0 {
        lemma_first_success_bound(outs, n - 1);
    }
}

/// Outcomes that agree with the patterns on the tried prefix give the same first
/// success as the patterns themselves.
proof fn lemma_first_success_agrees(flat: Seq<(int, Seq<char>)>, input: Seq<char>, outs: Seq<Option<bool>>, n: int)
    requires
        0 <= n <= outs.len(),
        outs.len() <= flat.len(),
        forall|k: int| 0 <= k < outs.len() ==> #[trigger] outs[k] == outcome_spec(flat[k].1, input),
    ensures
        first_success(outs, n) == first_hit(flat, input, n),
    decreases n,
{
    if n > 0 {
        lemma_first_success_agrees(flat, input, outs, n - 1);
        assert(outs[n - 1] == outcome_spec(flat[n - 1].1, input));
    }
}

/// The regex stage given the outcome of trying each pattern, in the order of
/// [`flat_patterns`] (`None`: it does not compile; `Some(b)`: whether it matched).
/// Patterns are reported in order until the first match, which wins; the patterns after
/// it, and any pattern with no outcome, are listed as skipped.
#[verifier::spinoff_prover]
pub fn stage_from_outcomes(handlers: &[RegexHandler], outcomes: &[Option<bool>]) -> (r: RegexStage)
    ensures
        attempts_view(r.attempts@) == stage_attempts(handlers_view(handlers@), outcomes@),
        match stage_winner(handlers_view(handlers@), outcomes@) {
            Some(w) => r.winner matches Some(x) && x.0 == w.0 && x.1@ == w.1,
            None => r.winner is None,
        },
{
    let ghost hs = handlers_view(handlers@);
    let ghost flat = flat_patterns(hs);
    let mut attempts: Vec<RegexAttempt> = Vec::new();
    let mut winner: Option<(usize, String)> = None;
    let mut idx: usize = 0;
    proof {
        assert(hs.take(0) =~= Seq::<HandlerView>::empty());
    }
    while idx < handlers.len()
        invariant
            hs == handlers_view(handlers@),
            flat == flat_patterns(hs),
            idx <= handlers@.len(),
            attempts@.len() == flat_patterns(hs.take(idx as int)).len(),
            forall|k: int| 0 <= k < attempts@.len() ==> #[trigger] attempts@[k]@ == stage_attempt(hs, outcomes@, k),
            match first_success(outcomes@, attempts@.len() as int) {
                Some(k) => winner matches Some(x) && x.0 == flat[k].0 && x.1@ == flat[k].1,
                None => winner is None,
            },
        decreases handlers@.len() - idx,
    {
        let h = &handlers[idx];
        let short = exec_short(h.command.as_str());
        let ghost base = attempts@.len() as int;
        proof {
            lemma_flat_step(hs, idx as int);
            lemma_flat_prefix(hs, idx as int + 1);
            assert(hs[idx as int] == h@);
        }
        let mut j: usize = 0;
        while j < h.regexes.len()
            invariant
                hs == handlers_view(handlers@),
                flat == flat_patterns(hs),
                idx < handlers@.len(),
                h == handlers@[idx as int],
                hs[idx as int] == h@,
                short@ == exec_short_spec(hs[idx as int].command),
                base == flat_patterns(hs.take(idx as int)).len(),
                flat_patterns(hs.take(idx + 1)) == flat_patterns(hs.take(idx as int))
                    + hs[idx as int].regexes.map_values(|p: Seq<char>| (idx as int, p)),
                flat_patterns(hs.take(idx + 1)).len() <= flat.len(),
                flat.take(flat_patterns(hs.take(idx + 1)).len() as int) == flat_patterns(hs.take(idx + 1)),
                j <= h.regexes@.len(),
                attempts@.len() == base + j,
                forall|k: int| 0 <= k < attempts@.len() ==> #[trigger] attempts@[k]@ == stage_attempt(hs, outcomes@, k),
                match first_success(outcomes@, attempts@.len() as int) {
                    Some(k) => winner matches Some(x) && x.0 == flat[k].0 && x.1@ == flat[k].1,
                    None => winner is None,
                },
            decreases h.regexes@.len() - j,
        {
            let p = &h.regexes[j];
            let ghost pos = attempts@.len() as int;
            proof {
                let ext = flat_patterns(hs.take(idx + 1));
                assert(ext[pos] == (idx as int, h.regexes@[j as int]@));
                assert(ext.len() == base + h.regexes@.len());
                assert(flat.take(ext.len() as int)[pos] == flat[pos]);
                assert(flat[pos] == ext[pos]);
                lemma_first_success_bound(outcomes@, pos);
            }
            let ghost before = first_success(outcomes@, pos);
            if winner.is_some() || attempts.len() >= outcomes.len() {
                attempts.push(RegexAttempt {
                    handler_display: short.clone(),
                    pattern: p.clone(),
                    matched: false,
                    invalid: false,
                    skipped: true,
                });
                proof {
                    if before is Some {
                        lemma_first_success_stays(outcomes@, pos, pos + 1);
                    }
                }
            } else {
                assert(before is None);
                match outcomes[attempts.len()] {
                    None => {
                        attempts.push(RegexAttempt {
                            handler_display: short.clone(),
                            pattern: p.clone(),
                            matched: false,
                            invalid: true,
                            skipped: false,
                        });
                    },
                    Some(b) => {
                        if b {
                            winner = Some((idx, p.clone()));
                        }
                        attempts.push(RegexAttempt {
                            handler_display: short.clone(),
                            pattern: p.clone(),
                            matched: b,
                            invalid: false,
                            skipped: false,
                        });
                    },
                }
            }
            proof {
                assert(attempts@[pos]@ == stage_attempt(hs, outcomes@, pos));
            }
            j = j + 1;
        }
        proof {
            assert(h.regexes@.len() == hs[idx as int].regexes.len());
        }
        idx = idx + 1;
    }
    proof {
        assert(hs.take(handlers@.len() as int) =~= hs);
        assert(attempts_view(attempts@) =~= stage_attempts(hs, outcomes@));
    }
    RegexStage { attempts, winner }
}

/// Try every pattern of every handler, in order, against the raw input until one
/// compiles and matches; that one wins, and the patterns after it are not tried and are
/// listed as skipped.
#[verifier::spinoff_prover]
pub fn regex_stage(handlers: &[RegexHandler], input: &str) -> (r: RegexStage)
    ensures
        attempts_view(r.attempts@) == attempts_spec(handlers_view(handlers@), input@),
        match winner_spec(handlers_view(handlers@), input@) {
            Some(w) => r.winner matches Some(x) && x.0 == w.0 && x.1@ == w.1,
            None => r.winner is None,
        },
{
    let ghost hs = handlers_view(handlers@);
    let ghost flat = flat_patterns(hs);
    let mut outcomes: Vec<Option<bool>> = Vec::new();
    let mut found = false;
    let mut idx: usize = 0;
    proof {
        assert(hs.take(0) =~= Seq::<HandlerView>::empty());
    }
    while idx < handlers.len() && !found
        invariant
            hs == handlers_view(handlers@),
            flat == flat_patterns(hs),
            idx <= handlers@.len(),
            !found ==> outcomes@.len() == flat_patterns(hs.take(idx as int)).len(),
            outcomes@.len() <= flat.len(),
            forall|k: int| 0 <= k < outcomes@.len() ==> #[trigger] outcomes@[k] == outcome_spec(flat[k].1, input@),
            found ==> outcomes@.len() > 0 && outcomes@.last() == Some(true),
            forall|k: int| 0 <= k < outcomes@.len() && (!found || k < outcomes@.len() - 1) ==> #[trigger] outcomes@[k] != Some(true),
        decreases handlers@.len() - idx,
    {
        let h = &handlers[idx];
        let ghost base = outcomes@.len() as int;
        proof {
            lemma_flat_step(hs, idx as int);
            lemma_flat_prefix(hs, idx as int + 1);
            assert(hs[idx as int] == h@);
        }
        let mut j: usize = 0;
        while j < h.regexes.len() && !found
            invariant
                hs == handlers_view(handlers@),
                flat == flat_patterns(hs),
                idx < handlers@.len(),
                h == handlers@[idx as int],
                hs[idx as int] == h@,
                base == flat_patterns(hs.take(idx as int)).len(),
                flat_patterns(hs.take(idx + 1)) == flat_patterns(hs.take(idx as int))
                    + hs[idx as int].regexes.map_values(|p: Seq<char>| (idx as int, p)),
                flat_patterns(hs.take(idx + 1)).len() <= flat.len(),
                flat.take(flat_patterns(hs.take(idx + 1)).len() as int) == flat_patterns(hs.take(idx + 1)),
                j <= h.regexes@.len(),
                !found ==> outcomes@.len() == base + j,
                outcomes@.len() <= base + j,
                forall|k: int| 0 <= k < outcomes@.len() ==> #[trigger] outcomes@[k] == outcome_spec(flat[k].1, input@),
                found ==> outcomes@.len() > 0 && outcomes@.last() == Some(true),
                forall|k: int| 0 <= k < outcomes@.len() && (!found || k < outcomes@.len() - 1) ==> #[trigger] outcomes@[k] != Some(true),
            decreases h.regexes@.len() - j,
        {
            let ghost pos = outcomes@.len() as int;
            proof {
                let ext = flat_patterns(hs.take(idx + 1));
                assert(ext[pos] == (idx as int, h.regexes@[j as int]@));
                assert(ext.len() == base + h.regexes@.len());
                assert(flat.take(ext.len() as int)[pos] == flat[pos]);
                assert(flat[pos] == ext[pos]);
            }
            let o = regex_test(h.regexes[j].as_str(), input);
            outcomes.push(o);
            match o {
                Some(true) => {
                    found = true;
                },
                _ => {},
            }
            j = j + 1;
        }
        proof {
            assert(h.regexes@.len() == hs[idx as int].regexes.len());
        }
        idx = idx + 1;
    }
    proof {
        let outs = outcomes@;
        let n = flat.len() as int;
        if !found {
            assert(hs.take(handlers@.len() as int) =~= hs);
        }
        assert(outs.len() == n || (outs.len() > 0 && outs.last() == Some(true)));
        lemma_first_success_agrees(flat, input@, outs, outs.len() as int);
        if outs.len() < n {
            let l = outs.len() as int;
            lemma_first_success_agrees(flat, input@, outs, l - 1);
            lemma_first_success_bound(outs, l - 1);
            if let Some(k) = first_success(outs, l - 1) {
                assert(outs[k] != Some(true));
            }
            assert(first_success(outs, l) == Some(l - 1));
            assert(first_hit(flat, input@, l) == Some(l - 1));
            lemma_first_hit_stays(flat, input@, l, n);
            lemma_first_success_stays(outs, l, n);
        }
        assert forall|k: int| 0 <= k < n implies #[trigger] stage_attempt(hs, outs, k) == attempt_spec(hs, input@, k) by {
            if k < outs.len() {
                lemma_first_success_agrees(flat, input@, outs, k);
            } else {
                let l = outs.len() as int;
                lemma_first_success_agrees(flat, input@, outs, l - 1);
                assert(first_hit(flat, input@, l) == Some(l - 1));
                lemma_first_hit_stays(flat, input@, l, k);
            }
        }
        assert(stage_attempts(hs, outs) =~= attempts_spec(hs, input@));
    }
    stage_from_outcomes(handlers, outcomes.as_slice())
}

// ---------------------------------------------------------------------------------------
// Default handler of a MIME type

/// Entry `i` names `mime` exactly and has a handler.
pub open spec fn exact_default(defs: Seq<(Seq<char>, Seq<Seq<char>>)>, mime: Seq<char>, i: int) -> bool {
    0 <= i < defs.len() && defs[i].0 == mime && defs[i].1.len() > 0
}

/// Entry `i` is a wildcard (`…*`) with a handler whose prefix begins `mime`.
pub open spec fn wildcard_default(defs: Seq<(Seq<char>, Seq<Seq<char>>)>, mime: Seq<char>, i: int) -> bool {
    &&& 0 <= i < defs.len()
    &&& defs[i].1.len() > 0
    &&& ends_with(defs[i].0, "*"@)
    &&& starts_with(mime, defs[i].0.drop_last())
}

/// Entry `i` is the wildcard that applies: the longest, and the last of the longest.
/// (Every such wildcard is a prefix of `mime` plus `*`, so comparing lengths in
/// characters orders them as comparing their UTF-8 lengths does.)
pub open spec fn best_wildcard(defs: Seq<(Seq<char>, Seq<Seq<char>>)>, mime: Seq<char>, i: int) -> bool {
    &&& wildcard_default(defs, mime, i)
    &&& forall|j: int| #[trigger] wildcard_default(defs, mime, j) ==> defs[j].0.len() < defs[i].0.len() || (
        defs[j].0.len() == defs[i].0.len() && j <= i)
}

/// Entry `i` is the first exact entry for `mime` with a handler.
pub open spec fn first_exact(defs: Seq<(Seq<char>, Seq<Seq<char>>)>, mime: Seq<char>, i: int) -> bool {
    exact_default(defs, mime, i) && forall|j: int| 0 <= j < i ==> !exact_default(defs, mime, j)
}

/// The handler that opens `mime`: the first handler of the first exact entry with one;
/// failing that, of the wildcard entry that applies; none when neither exists.
pub open spec fn default_handler_spec(defs: Seq<(Seq<char>, Seq<Seq<char>>)>, mime: Seq<char>) -> Option<Seq<char>> {
    if exists|i: int| first_exact(defs, mime, i) {
        Some(defs[choose|i: int| first_exact(defs, mime, i)].1[0])
    } else if exists|i: int| best_wildcard(defs, mime, i) {
        Some(defs[choose|i: int| best_wildcard(defs, mime, i)].1[0])
    } else {
        None
    }
}

/// The handler that opens `mime` according to the configured defaults.
#[verifier::spinoff_prover]
pub fn default_handler(state: &State, mime: &str) -> (r: Option<String>)
    ensures
        r.deep_view() == default_handler_spec(defaults_view(state), mime@),
{
    let ghost defs = defaults_view(state);
    proof {
        reveal_strlit("*");
    }
    let n = state.defaults.len();
    let mut i: usize = 0;
    while i < n
        invariant
            n == state.defaults@.len(),
            defs == defaults_view(state),
            i <= n,
            forall|j: int| 0 <= j < i ==> !exact_default(defs, mime@, j),
        decreases n - i,
    {
        let e = &state.defaults[i];
        assert(defs[i as int] == (e.0@, e.1.deep_view()));
        if e.1.len() > 0 && str_eq(e.0.as_str(), mime) {
            assert(first_exact(defs, mime@, i as int));
            proof {
                let c = choose|k: int| first_exact(defs, mime@, k);
                if c < i {
                    assert(!exact_default(defs, mime@, c));
                }
                if i < c {
                    assert(!exact_default(defs, mime@, i as int));
                }
            }
            return Some(e.1[0].clone());
        }
        i = i + 1;
    }
    let mut best: Option<usize> = None;
    let mut i: usize = 0;
    while i < n
        invariant
            n == state.defaults@.len(),
            defs == defaults_view(state),
            i <= n,
            forall|j: int| 0 <= j < n ==> !exact_default(defs, mime@, j),
            match best {
                None => forall|j: int| 0 <= j < i ==> !wildcard_default(defs, mime@, j),
                Some(b) => {
                    &&& b < i
                    &&& wildcard_default(defs, mime@, b as int)
                    &&& forall|j: int| 0 <= j < i && #[trigger] wildcard_default(defs, mime@, j) ==> defs[j].0.len()
                        < defs[b as int].0.len() || (defs[j].0.len() == defs[b as int].0.len() && j <= b)
                },
            },
        decreases n - i,
    {
        let e = &state.defaults[i];
        assert(defs[i as int] == (e.0@, e.1.deep_view()));
        let dm = e.0.as_str();
        let len = dm.unicode_len();
        proof {
            reveal_strlit("*");
        }
        let candidate = e.1.len() > 0 && str_ends_with(dm, "*") && str_starts_with(
            mime,
            dm.substring_char(0, len - 1),
        );
        if candidate {
            assert(defs[i as int].0.drop_last() =~= dm@.subrange(0, len - 1));
            assert(wildcard_default(defs, mime@, i as int));
            match best {
                None => {
                    best = Some(i);
                },
                Some(b) => {
                    if state.defaults[b].0.as_str().unicode_len() <= len {
                        best = Some(i);
                    }
                },
            }
        } else {
            assert(!wildcard_default(defs, mime@, i as int)) by {
                if e.1.len() > 0 && ends_with(dm@, "*"@) {
                    assert(defs[i as int].0.drop_last() =~= dm@.subrange(0, len - 1));
                }
            }
        }
        i = i + 1;
    }
    assert(!exists|k: int| first_exact(defs, mime@, k));
    match best {
        None => {
            assert(!exists|k: int| best_wildcard(defs, mime@, k));
            None
        },
        Some(b) => {
            assert(best_wildcard(defs, mime@, b as int));
            proof {
                let c = choose|k: int| best_wildcard(defs, mime@, k);
                assert(wildcard_default(defs, mime@, c));
                assert(wildcard_default(defs, mime@, b as int));
            }
            Some(state.defaults[b].1[0].clone())
        },
    }
}

/// The display name of `desktop`: the name of the first known application with that
/// id, else the id itself.
pub open spec fn app_name_spec(apps: Seq<App>, desktop: Seq<char>) -> Seq<char>
    decreases apps.len(),
{
    if apps.len() == 0 {
        desktop
    } else if apps[0].desktop@ == desktop {
        apps[0].name@
    } else {
        app_name_spec(apps.drop_first(), desktop)
    }
}

/// The display name of a `.desktop` id among the known applications.
pub fn app_name(apps: &[App], desktop: &str) -> (r: String)
    ensures
        r@ == app_name_spec(apps@, desktop@),
{
    let mut i: usize = 0;
    assert(apps@.skip(0) =~= apps@);
    while i < apps.len()
        invariant
            i <= apps@.len(),
            app_name_spec(apps@, desktop@) == app_name_spec(apps@.skip(i as int), desktop@),
        decreases apps@.len() - i,
    {
        assert(apps@.skip(i as int)[0] == apps@[i as int]);
        if str_eq(apps[i].desktop.as_str(), desktop) {
            return apps[i].name.clone();
        }
        assert(apps@.skip(i as int).drop_first() =~= apps@.skip(i + 1));
        i = i + 1;
    }
    String::from_str(desktop)
}

// ---------------------------------------------------------------------------------------
// Naming a command after an application

/// The program name an application's command line runs, when it has a command line
/// (an empty name when its first word has no final component).
pub open spec fn commandline_base(cmdline: Option<Seq<char>>) -> Option<Seq<char>> {
    match cmdline {
        Some(c) => Some(
            match exec_basename_spec(c) {
                Some(b) => b,
                None => Seq::empty(),
            },
        ),
        None => None,
    }
}

/// Index of the first application whose command line runs the program `base`.
pub open spec fn app_running(cmdlines: Seq<Option<Seq<char>>>, base: Seq<char>, i: int) -> bool {
    0 <= i < cmdlines.len() && commandline_base(cmdlines[i]) == Some(base) && forall|j: int|
        0 <= j < i ==> commandline_base(#[trigger] cmdlines[j]) != Some(base)
}

/// Views of a list of optional strings.
pub open spec fn options_view(v: Seq<Option<String>>) -> Seq<Option<Seq<char>>> {
    v.map_values(|o: Option<String>| o.deep_view())
}

/// The first application whose command line runs the program `base`.
fn find_app_running(cmdlines: &[Option<String>], base: &str) -> (r: Option<usize>)
    ensures
        match r {
            Some(i) => app_running(options_view(cmdlines@), base@, i as int),
            None => forall|j: int| 0 <= j < cmdlines@.len() ==> commandline_base(
                #[trigger] options_view(cmdlines@)[j],
            ) != Some(base@),
        },
{
    let ghost cs = options_view(cmdlines@);
    let mut i: usize = 0;
    while i < cmdlines.len()
        invariant
            cs == options_view(cmdlines@),
            i <= cmdlines@.len(),
            forall|j: int| 0 <= j < i ==> commandline_base(#[trigger] cs[j]) != Some(base@),
        decreases cmdlines@.len() - i,
    {
        assert(cs[i as int] == cmdlines@[i as int].deep_view());
        match &cmdlines[i] {
            Some(c) => {
                let b = match exec_basename(c.as_str()) {
                    Some(b) => b,
                    None => String::new(),
                };
                if str_eq(b.as_str(), base) {
                    return Some(i);
                }
            },
            None => {},
        }
        i = i + 1;
    }
    None
}

/// The program name of a command, or the whole command when it has none.
pub open spec fn exec_base_or_command(command: Seq<char>) -> Seq<char> {
    match exec_basename_spec(command) {
        Some(b) => b,
        None => command,
    }
}

/// The name shown for a regex handler's command: the name of the first application
/// whose command line runs the same program, else the program name itself.
pub open spec fn exec_name_spec(command: Seq<char>, apps: Seq<App>, cmdlines: Seq<Option<Seq<char>>>) -> Seq<char> {
    let base = exec_base_or_command(command);
    if exists|i: int| app_running(cmdlines, base, i) {
        apps[choose|i: int| app_running(cmdlines, base, i)].name@
    } else {
        base
    }
}

/// The name shown for a regex handler's command, given the known applications and
/// their command lines (`None` where an application has none).
#[verifier::spinoff_prover]
pub fn resolve_exec_name(command: &str, apps: &[App], commandlines: &[Option<String>]) -> (r: String)
    requires
        apps@.len() == commandlines@.len(),
    ensures
        r@ == exec_name_spec(command@, apps@, options_view(commandlines@)),
{
    let base = match exec_basename(command) {
        Some(b) => b,
        None => String::from_str(command),
    };
    match find_app_running(commandlines, base.as_str()) {
        Some(i) => {
            proof {
                let cs = options_view(commandlines@);
                let c = choose|k: int| app_running(cs, base@, k);
                if c < i {
                    assert(commandline_base(cs[c]) != Some(base@));
                }
                if i < c {
                    assert(commandline_base(cs[i as int]) != Some(base@));
                }
            }
            apps[i].name.clone()
        },
        None => base,
    }
}

/// Which application's icon goes with a regex handler's command: the first whose
/// command line runs the same program; none when the command has no program name.
pub open spec fn exec_icon_spec(command: Seq<char>, cmdlines: Seq<Option<Seq<char>>>) -> Option<int> {
    match exec_basename_spec(command) {
        Some(b) => if exists|i: int| app_running(cmdlines, b, i) {
            Some(choose|i: int| app_running(cmdlines, b, i))
        } else {
            None
        },
        None => None,
    }
}

/// Index of the application whose icon goes with a regex handler's command.
#[verifier::spinoff_prover]
pub fn resolve_app_icon(command: &str, commandlines: &[Option<String>]) -> (r: Option<usize>)
    ensures
        match exec_icon_spec(command@, options_view(commandlines@)) {
            Some(i) => 0 <= i < commandlines@.len() && r == Some(i as usize),
            None => r is None,
        },
{
    match exec_basename(command) {
        None => None,
        Some(base) => {
            let found = find_app_running(commandlines, base.as_str());
            proof {
                let cs = options_view(commandlines@);
                if let Some(i) = found {
                    let c = choose|k: int| app_running(cs, base@, k);
                    if c < i {
                        assert(commandline_base(cs[c]) != Some(base@));
                    }
                    if i < c {
                        assert(commandline_base(cs[i as int]) != Some(base@));
                    }
                } else {
                    if exists|k: int| app_running(cs, base@, k) {
                        let c = choose|k: int| app_running(cs, base@, k);
                        assert(commandline_base(cs[c]) == Some(base@));
                    }
                }
            }
            found
        },
    }
}

// ---------------------------------------------------------------------------------------
// Resolution

/// What decided the outcome.
#[allow(inconsistent_fields)]
pub enum ResolutionKind {
    /// A regex handler matched the raw input.
    Regex { handler_idx: usize, pattern: String },
    /// The MIME type has a default handler.
    MimeDefault { mime: String },
    /// Nothing opens the input (its MIME type, when one was found, has no handler).
    NoHandler { mime: Option<String> },
}

/// Where the winner's icon comes from.
pub enum IconSource {
    /// The icon of the known application at this index.
    App(usize),
    /// The icon of the application with this `.desktop` id.
    Desktop(String),
}

/// The outcome of testing an input, with the whole chain of attempts for display.
pub struct Resolution {
    pub kind: ResolutionKind,
    pub display_name: String,
    pub icon: Option<IconSource>,
    pub regex_attempts: Vec<RegexAttempt>,
    pub detected_mime: Option<String>,
}

/// Mathematical form of a [`ResolutionKind`].
#[allow(inconsistent_fields)]
pub enum KindView {
    Regex { handler_idx: int, pattern: Seq<char> },
    MimeDefault { mime: Seq<char> },
    NoHandler { mime: Option<Seq<char>> },
}

/// Mathematical form of an [`IconSource`].
pub enum IconView {
    App(int),
    Desktop(Seq<char>),
}

/// Mathematical form of a [`Resolution`].
pub struct ResolutionView {
    pub kind: KindView,
    pub display_name: Seq<char>,
    pub icon: Option<IconView>,
    pub regex_attempts: Seq<AttemptView>,
    pub detected_mime: Option<Seq<char>>,
}

impl View for Resolution {
    type V = ResolutionView;

    open spec fn view(&self) -> ResolutionView {
        ResolutionView {
            kind: match &self.kind {
                ResolutionKind::Regex { handler_idx, pattern } => KindView::Regex {
                    handler_idx: *handler_idx as int,
                    pattern: pattern@,
                },
                ResolutionKind::MimeDefault { mime } => KindView::MimeDefault { mime: mime@ },
                ResolutionKind::NoHandler { mime } => KindView::NoHandler { mime: mime.deep_view() },
            },
            display_name: self.display_name@,
            icon: match &self.icon {
                Some(IconSource::App(i)) => Some(IconView::App(*i as int)),
                Some(IconSource::Desktop(d)) => Some(IconView::Desktop(d@)),
                None => None,
            },
            regex_attempts: attempts_view(self.regex_attempts@),
            detected_mime: self.detected_mime.deep_view(),
        }
    }
}

/// The outcome once no regex matched, given the input's MIME type (if one was found):
/// its default handler, named after the known application, or no handler.
pub open spec fn mime_resolution_spec(
    mime: Option<Seq<char>>,
    defs: Seq<(Seq<char>, Seq<Seq<char>>)>,
    apps: Seq<App>,
    attempts: Seq<AttemptView>,
) -> ResolutionView {
    match mime {
        Some(m) => match default_handler_spec(defs, m) {
            Some(d) => ResolutionView {
                kind: KindView::MimeDefault { mime: m },
                display_name: app_name_spec(apps, d),
                icon: Some(IconView::Desktop(d)),
                regex_attempts: attempts,
                detected_mime: Some(m),
            },
            None => ResolutionView {
                kind: KindView::NoHandler { mime: Some(m) },
                display_name: Seq::empty(),
                icon: None,
                regex_attempts: attempts,
                detected_mime: Some(m),
            },
        },
        None => ResolutionView {
            kind: KindView::NoHandler { mime: None },
            display_name: Seq::empty(),
            icon: None,
            regex_attempts: attempts,
            detected_mime: None,
        },
    }
}

/// The outcome when the regex handler `idx` matched with `pattern`.
pub open spec fn regex_resolution_spec(
    hs: Seq<HandlerView>,
    input: Seq<char>,
    apps: Seq<App>,
    cmdlines: Seq<Option<Seq<char>>>,
    idx: int,
    pattern: Seq<char>,
) -> ResolutionView {
    ResolutionView {
        kind: KindView::Regex { handler_idx: idx, pattern },
        display_name: exec_name_spec(hs[idx].command, apps, cmdlines),
        icon: match exec_icon_spec(hs[idx].command, cmdlines) {
            Some(i) => Some(IconView::App(i)),
            None => None,
        },
        regex_attempts: attempts_spec(hs, input),
        detected_mime: None,
    }
}

/// The outcome once no regex matched, given the input's MIME type (if one was found).
pub fn resolve_mime(mime: Option<String>, state: &State, apps: &[App], attempts: Vec<RegexAttempt>) -> (r: Resolution)
    ensures
        r@ == mime_resolution_spec(mime.deep_view(), defaults_view(state), apps@, attempts_view(attempts@)),
{
    match mime {
        Some(m) => match default_handler(state, m.as_str()) {
            Some(d) => {
                let display_name = app_name(apps, d.as_str());
                Resolution {
                    kind: ResolutionKind::MimeDefault { mime: m.clone() },
                    display_name,
                    icon: Some(IconSource::Desktop(d)),
                    regex_attempts: attempts,
                    detected_mime: Some(m),
                }
            },
            None => Resolution {
                kind: ResolutionKind::NoHandler { mime: Some(m.clone()) },
                display_name: String::new(),
                icon: None,
                regex_attempts: attempts,
                detected_mime: Some(m),
            },
        },
        None => Resolution {
            kind: ResolutionKind::NoHandler { mime: None },
            display_name: String::new(),
            icon: None,
            regex_attempts: attempts,
            detected_mime: None,
        },
    }
}

/// How far resolving an input gets before its MIME type has to be detected.
pub enum InputResolution {
    /// The input is resolved.
    Resolved(Resolution),
    /// No regex handler matched and the input does not read as a MIME type: its type is
    /// to be detected, then handed to [`resolve_mime`] with these attempts.
    DetectMime(Vec<RegexAttempt>),
}

/// Which program opens `input`: the regex handlers first, in order, against the raw
/// input; then its MIME type (the input itself when it reads as one) looked up in the
/// defaults. Every regex attempt is reported. When neither settles it, the result asks
/// for the input's MIME type to be detected, which is then finished by [`resolve_mime`];
/// so detection happens only when no regex handler matched.
#[verifier::spinoff_prover]
pub fn resolve_input(
    input: &str,
    handlers: &[RegexHandler],
    state: &State,
    apps: &[App],
    commandlines: &[Option<String>],
) -> (r: InputResolution)
    requires
        apps@.len() == commandlines@.len(),
    ensures
        match winner_spec(handlers_view(handlers@), input@) {
            Some(w) => r matches InputResolution::Resolved(x) && x@ == regex_resolution_spec(
                handlers_view(handlers@),
                input@,
                apps@,
                options_view(commandlines@),
                w.0,
                w.1,
            ),
            None => if looks_like_mime_spec(input@) {
                r matches InputResolution::Resolved(x) && x@ == mime_resolution_spec(
                    Some(input@),
                    defaults_view(state),
                    apps@,
                    attempts_spec(handlers_view(handlers@), input@),
                )
            } else {
                r matches InputResolution::DetectMime(a) && attempts_view(a@) == attempts_spec(
                    handlers_view(handlers@),
                    input@,
                )
            },
        },
{
    let ghost hv = handlers_view(handlers@);
    let stage = regex_stage(handlers, input);
    match stage.winner {
        Some((idx, pattern)) => {
            proof {
                let flat = flat_patterns(hv);
                let k = first_hit(flat, input@, flat.len() as int)->Some_0;
                lemma_first_hit_bound(flat, input@, flat.len() as int);
                lemma_flat_index(hv, k);
                assert(hv[idx as int] == handlers@[idx as int]@);
            }
            let command = handlers[idx].command.as_str();
            let display_name = resolve_exec_name(command, apps, commandlines);
            let found = resolve_app_icon(command, commandlines);
            let icon = match found {
                Some(i) => Some(IconSource::App(i)),
                None => None,
            };
            proof {
                assert(command@ == hv[idx as int].command);
                match exec_icon_spec(command@, options_view(commandlines@)) {
                    Some(i) => {
                        assert(found == Some(i as usize));
                        assert(0 <= i < commandlines@.len());
                        assert(commandlines@.len() == commandlines.len());
                        assert((i as usize) as int == i);
                        assert(icon == Some(IconSource::App(i as usize)));
                    },
                    None => {
                        assert(icon is None);
                    },
                }
            }
            let res = Resolution {
                kind: ResolutionKind::Regex { handler_idx: idx, pattern },
                display_name,
                icon,
                regex_attempts: stage.attempts,
                detected_mime: None,
            };
            InputResolution::Resolved(res)
        },
        None => {
            if looks_like_mime(input) {
                InputResolution::Resolved(resolve_mime(Some(String::from_str(input)), state, apps, stage.attempts))
            } else {
                InputResolution::DetectMime(stage.attempts)
            }
        },
    }
}

// ---------------------------------------------------------------------------------------
// Reordering regex handlers

/// `hs` with the handlers at `i` and `j` exchanged.
pub open spec fn swapped(hs: Seq<RegexHandler>, i: int, j: int) -> Seq<RegexHandler> {
    hs.update(i, hs[j]).update(j, hs[i])
}

/// Move the handler at `i` one place up (towards the front) or down. Returns whether it
/// moved; it does not at the top (up), at the bottom (down) or out of range.
pub fn move_regex_handler(handlers: &mut Vec<RegexHandler>, i: usize, up: bool) -> (moved: bool)
    ensures
        moved == (if up { 0 < i < old(handlers)@.len() } else { i + 1 < old(handlers)@.len() }),
        moved && up ==> final(handlers)@ == swapped(old(handlers)@, i - 1, i as int),
        moved && !up ==> final(handlers)@ == swapped(old(handlers)@, i as int, i + 1),
        !moved ==> final(handlers)@ == old(handlers)@,
{
    let n = handlers.len();
    let j = if up {
        if i == 0 || i >= n {
            return false;
        }
        i - 1
    } else {
        if i >= n || i + 1 >= n {
            return false;
        }
        i + 1
    };
    let a = handlers.remove(i.max(j));
    let b = handlers.remove(i.min(j));
    handlers.insert(i.min(j), a);
    handlers.insert(i.max(j), b);
    true
}

// ---------------------------------------------------------------------------------------
// Editing a regex handler

/// `s` without leading and trailing white space (`str::trim`).
pub open spec fn trim_spec(s: Seq<char>) -> Seq<char> {
    trim_white_end(s.skip(skip_white(s, 0)))
}

/// `s` without leading and trailing white space.
pub fn trim(s: &str) -> (r: String)
    ensures
        r@ == trim_spec(s@),
{
    let n = s.unicode_len();
    let mut a: usize = 0;
    while a < n && is_whitespace(s.get_char(a))
        invariant
            n == s@.len(),
            a <= n,
            skip_white(s@, 0) == skip_white(s@, a as int),
        decreases n - a,
    {
        a = a + 1;
    }
    proof {
        lemma_skip_white(s@, a as int);
    }
    let mut e: usize = n;
    while e > a && is_whitespace(s.get_char(e - 1))
        invariant
            n == s@.len(),
            a <= e <= n,
            forall|j: int| e <= j < n ==> is_white_space(s@[j]),
        decreases e,
    {
        e = e - 1;
    }
    proof {
        let t = s@.skip(a as int);
        assert forall|j: int| e - a <= j < t.len() implies is_white_space(t[j]) by {
            assert(t[j] == s@[a + j]);
        }
        if e > a {
            assert(t[e - a - 1] == s@[e - 1]);
        }
        lemma_trim_white_prefix(t, e - a);
        assert(t.take(e - a) =~= s@.subrange(a as int, e as int));
    }
    String::from_str(s.substring_char(a, e))
}

/// The patterns kept from the regex entries: trimmed, blank ones dropped.
pub open spec fn kept_regexes(entries: Seq<Seq<char>>) -> Seq<Seq<char>>
    decreases entries.len(),
{
    if entries.len() == 0 {
        Seq::empty()
    } else {
        let rest = kept_regexes(entries.drop_last());
        let t = trim_spec(entries.last());
        if t.len() == 0 {
            rest
        } else {
            rest.push(t)
        }
    }
}

/// The patterns kept from the regex entries, in order.
pub fn collect_regexes(entries: &[String]) -> (r: Vec<String>)
    ensures
        r.deep_view() == kept_regexes(entries.deep_view()),
{
    let mut out: Vec<String> = Vec::new();
    let mut i: usize = 0;
    assert(entries.deep_view().take(0) =~= Seq::<Seq<char>>::empty());
    while i < entries.len()
        invariant
            i <= entries@.len(),
            out.deep_view() == kept_regexes(entries.deep_view().take(i as int)),
        decreases entries@.len() - i,
    {
        let ghost before = out.deep_view();
        let t = trim(entries[i].as_str());
        assert(entries.deep_view().take(i + 1).drop_last() =~= entries.deep_view().take(i as int));
        assert(entries.deep_view().take(i + 1).last() == entries@[i as int]@);
        if t.unicode_len() > 0 {
            out.push(t);
            assert(out.deep_view() =~= before.push(t@));
        }
        i = i + 1;
    }
    assert(entries.deep_view().take(entries@.len() as int) =~= entries.deep_view());
    out
}

/// A regex entry is marked as an error: it is not empty and does not compile.
pub open spec fn entry_invalid(text: Seq<char>) -> bool {
    text.len() > 0 && !regex_valid(text)
}

/// Whether a regex entry is marked as an error.
pub fn regex_entry_invalid(text: &str) -> (r: bool)
    ensures
        r == entry_invalid(text@),
{
    text.unicode_len() > 0 && !regex_compiles(text)
}

/// Whether any regex entry is marked as an error.
pub fn any_invalid_regex(entries: &[String]) -> (r: bool)
    ensures
        r == exists|i: int| 0 <= i < entries@.len() && #[trigger] entry_invalid(entries@[i]@),
{
    let mut i: usize = 0;
    while i < entries.len()
        invariant
            i <= entries@.len(),
            forall|j: int| 0 <= j < i ==> !#[trigger] entry_invalid(entries@[j]@),
        decreases entries@.len() - i,
    {
        if regex_entry_invalid(entries[i].as_str()) {
            return true;
        }
        i = i + 1;
    }
    false
}

/// `acc` followed by the message `m`, separated by a space when `acc` is not empty.
pub open spec fn append_message(acc: Seq<char>, m: Seq<char>) -> Seq<char> {
    if acc.len() == 0 {
        m
    } else {
        acc + " "@ + m
    }
}

/// The messages for a handler form that cannot be applied, in order, joined by spaces.
pub open spec fn form_errors_spec(no_regex: bool, no_command: bool, invalid: bool) -> Seq<char> {
    let a = if no_regex { "At least one regex is required."@ } else { Seq::empty() };
    let b = if no_command { append_message(a, "Command must not be empty."@) } else { a };
    if invalid { append_message(b, "One or more regexes are invalid."@) } else { b }
}

fn append_message_to(acc: String, m: &str) -> (r: String)
    ensures
        r@ == append_message(acc@, m@),
{
    proof {
        reveal_strlit("");
    }
    if acc.as_str().unicode_len() == 0 {
        String::from_str(m)
    } else {
        crate::text::concat4(acc.as_str(), " ", m, "")
    }
}

/// The handler that applying the form gives: its non-blank patterns, trimmed, and its
/// trimmed command. It is refused, with every applicable message, when no pattern is
/// left, the command is blank, or an entry does not compile.
pub fn handler_from_form(entries: &[String], command: &str, terminal: bool) -> (r: Result<RegexHandler, String>)
    ensures
        ({
            let kept = kept_regexes(entries.deep_view());
            let cmd = trim_spec(command@);
            let invalid = exists|i: int| 0 <= i < entries@.len() && #[trigger] entry_invalid(entries@[i]@);
            if kept.len() == 0 || cmd.len() == 0 || invalid {
                r matches Err(e) && e@ == form_errors_spec(kept.len() == 0, cmd.len() == 0, invalid)
            } else {
                r matches Ok(h) && h@ == (HandlerView { regexes: kept, command: cmd, terminal })
            }
        }),
{
    proof {
        reveal_strlit("");
        reveal_strlit(" ");
    }
    let regexes = collect_regexes(entries);
    let cmd = trim(command);
    let invalid = any_invalid_regex(entries);
    let no_regex = regexes.len() == 0;
    let no_command = cmd.as_str().unicode_len() == 0;
    if no_regex || no_command || invalid {
        let mut msg = String::new();
        if no_regex {
            msg = String::from_str("At least one regex is required.");
        }
        if no_command {
            msg = append_message_to(msg, "Command must not be empty.");
        }
        if invalid {
            msg = append_message_to(msg, "One or more regexes are invalid.");
        }
        return Err(msg);
    }
    Ok(RegexHandler { regexes, command: cmd, terminal })
}

/// The decimal digits of `n`.
pub open spec fn decimal_spec(n: nat) -> Seq<char>
    decreases n,
{
    if n < 10 {
        seq![digit_char(n)]
    } else {
        decimal_spec(n / 10) + seq![digit_char(n % 10)]
    }
}

/// The character of a decimal digit.
pub open spec fn digit_char(d: nat) -> char {
    "0123456789"@[d as int]
}

/// `n` written in decimal.
pub fn decimal(n: usize) -> (r: String)
    ensures
        r@ == decimal_spec(n as nat),
    decreases n,
{
    proof {
        reveal_strlit("0123456789");
    }
    let digits = "0123456789";
    if n < 10 {
        let r = String::from_str(digits.substring_char(n, n + 1));
        assert(r@ =~= seq![digit_char(n as nat)]);
        r
    } else {
        let head = decimal(n / 10);
        let d = n % 10;
        let r = crate::text::concat2(head.as_str(), digits.substring_char(d, d + 1));
        assert(r@ =~= decimal_spec((n / 10) as nat) + seq![digit_char((n % 10) as nat)]);
        r
    }
}

/// The title of a handler card: the command's display name (or `(no command)`), an
/// em dash, and the number of patterns ("1 regex", "2 regexes").
pub open spec fn card_summary_spec(name: Seq<char>, count: nat) -> Seq<char> {
    name + " \u{2014} "@ + decimal_spec(count) + if count == 1 { " regex"@ } else { " regexes"@ }
}

/// The name a handler card shows for its command.
pub open spec fn card_name_spec(command: Seq<char>, apps: Seq<App>, cmdlines: Seq<Option<Seq<char>>>) -> Seq<char> {
    if command.len() == 0 {
        "(no command)"@
    } else {
        exec_name_spec(command, apps, cmdlines)
    }
}

/// The title of the card of a saved handler.
pub fn card_summary(handler: &RegexHandler, apps: &[App], commandlines: &[Option<String>]) -> (r: String)
    requires
        apps@.len() == commandlines@.len(),
    ensures
        r@ == card_summary_spec(
            card_name_spec(handler@.command, apps@, options_view(commandlines@)),
            handler@.regexes.len(),
        ),
{
    let name = if handler.command.as_str().unicode_len() == 0 {
        String::from_str("(no command)")
    } else {
        resolve_exec_name(handler.command.as_str(), apps, commandlines)
    };
    let count = handler.regexes.len();
    let suffix = if count == 1 { " regex" } else { " regexes" };
    let digits = decimal(count);
    crate::text::concat4(name.as_str(), " \u{2014} ", digits.as_str(), suffix)
}

// ---------------------------------------------------------------------------------------
// Report of a resolution

/// One line of the resolution chain: a mark, the handler and pattern, and the outcome
/// (none for a skipped pattern).
pub struct AttemptLine {
    pub tick: String,
    pub text: String,
    pub result: Option<String>,
}

/// Mathematical form of an [`AttemptLine`].
pub struct AttemptLineView {
    pub tick: Seq<char>,
    pub text: Seq<char>,
    pub result: Option<Seq<char>>,
}

impl View for AttemptLine {
    type V = AttemptLineView;

    open spec fn view(&self) -> AttemptLineView {
        AttemptLineView { tick: self.tick@, text: self.text@, result: self.result.deep_view() }
    }
}

/// The texts that describe a resolution: why the winner won, the detected MIME type
/// when it is worth showing, and the whole chain of steps.
pub struct ResolutionReport {
    pub reason: String,
    pub detected_badge: Option<String>,
    pub chain_header: String,
    pub attempts: Vec<AttemptLine>,
    pub mime_tick: String,
    pub mime_text: String,
    pub handler_tick: String,
    pub handler_text: String,
}

/// Why the outcome is what it is.
pub open spec fn reason_spec(kind: KindView) -> Seq<char> {
    match kind {
        KindView::Regex { handler_idx, pattern } => "Matched regex handler #"@ + decimal_spec(
            (handler_idx + 1) as nat,
        ) + " \u{2014} pattern: "@ + pattern,
        KindView::MimeDefault { mime } => "Default handler for MIME type "@ + mime,
        KindView::NoHandler { mime } => match mime {
            Some(m) => "No handler configured for MIME type "@ + m,
            None => "Could not determine MIME type"@,
        },
    }
}

/// The detected MIME type, unless it is already the one the default was found for.
pub open spec fn detected_badge_spec(kind: KindView, detected: Option<Seq<char>>) -> Option<Seq<char>> {
    match detected {
        Some(d) => if kind matches KindView::MimeDefault { mime } && mime == d {
            None
        } else {
            Some("Detected MIME: "@ + d)
        },
        None => None,
    }
}

/// The heading of the chain: how many patterns were checked.
pub open spec fn chain_header_spec(n: nat) -> Seq<char> {
    if n == 0 {
        "Resolution chain (no regex handlers configured)"@
    } else {
        "Resolution chain ("@ + decimal_spec(n) + " regex pattern"@ + (if n == 1 {
            Seq::empty()
        } else {
            "s"@
        }) + " checked)"@
    }
}

/// The line of one attempt.
pub open spec fn attempt_line_spec(a: AttemptView) -> AttemptLineView {
    AttemptLineView {
        tick: if a.skipped {
            "\u{2014}"@
        } else if a.matched {
            "\u{2713}"@
        } else {
            "\u{2717}"@
        },
        text: a.handler_display + ": "@ + a.pattern,
        result: if a.skipped {
            None
        } else if a.invalid {
            Some("invalid pattern"@)
        } else if a.matched {
            Some("matched"@)
        } else {
            Some("no match"@)
        },
    }
}

/// Mark of the MIME steps: a dash when a regex already decided, else an arrow.
pub open spec fn step_tick_spec(kind: KindView) -> Seq<char> {
    if kind is Regex {
        "\u{2014}"@
    } else {
        "\u{2192}"@
    }
}

/// The MIME detection step.
pub open spec fn mime_text_spec(kind: KindView, detected: Option<Seq<char>>) -> Seq<char> {
    if kind is Regex {
        "MIME detection (not evaluated)"@
    } else {
        match detected {
            Some(m) => "MIME: "@ + m,
            None => "MIME detection failed"@,
        }
    }
}

/// The MIME handler lookup step.
pub open spec fn handler_text_spec(kind: KindView, display_name: Seq<char>) -> Seq<char> {
    match kind {
        KindView::Regex { .. } => "MIME handler lookup (not evaluated)"@,
        KindView::MimeDefault { .. } => "Handler: "@ + display_name,
        KindView::NoHandler { .. } => "No handler configured"@,
    }
}

fn attempt_line(a: &RegexAttempt) -> (r: AttemptLine)
    ensures
        r@ == attempt_line_spec(a@),
{
    proof {
        reveal_strlit("");
    }
    let tick = if a.skipped {
        "\u{2014}"
    } else if a.matched {
        "\u{2713}"
    } else {
        "\u{2717}"
    };
    let result = if a.skipped {
        None
    } else if a.invalid {
        Some(String::from_str("invalid pattern"))
    } else if a.matched {
        Some(String::from_str("matched"))
    } else {
        Some(String::from_str("no match"))
    };
    AttemptLine {
        tick: String::from_str(tick),
        text: crate::text::concat4(a.handler_display.as_str(), ": ", a.pattern.as_str(), ""),
        result,
    }
}

/// The texts that describe `res`.
pub fn report(res: &Resolution) -> (r: ResolutionReport)
    requires
        res.kind matches ResolutionKind::Regex { handler_idx, .. } ==> handler_idx < usize::MAX,
    ensures
        r.reason@ == reason_spec(res@.kind),
        r.detected_badge.deep_view() == detected_badge_spec(res@.kind, res@.detected_mime),
        r.chain_header@ == chain_header_spec(res.regex_attempts@.len()),
        r.attempts@.len() == res.regex_attempts@.len(),
        forall|i: int| 0 <= i < r.attempts@.len() ==> #[trigger] r.attempts@[i]@ == attempt_line_spec(
            res.regex_attempts@[i]@,
        ),
        r.mime_tick@ == step_tick_spec(res@.kind),
        r.mime_text@ == mime_text_spec(res@.kind, res@.detected_mime),
        r.handler_tick@ == step_tick_spec(res@.kind),
        r.handler_text@ == handler_text_spec(res@.kind, res@.display_name),
{
    proof {
        reveal_strlit("");
    }
    let reason = match &res.kind {
        ResolutionKind::Regex { handler_idx, pattern } => {
            let n = decimal(*handler_idx + 1);
            crate::text::concat4("Matched regex handler #", n.as_str(), " \u{2014} pattern: ", pattern.as_str())
        },
        ResolutionKind::MimeDefault { mime } => crate::text::concat2("Default handler for MIME type ", mime.as_str()),
        ResolutionKind::NoHandler { mime } => match mime {
            Some(m) => crate::text::concat2("No handler configured for MIME type ", m.as_str()),
            None => String::from_str("Could not determine MIME type"),
        },
    };
    let detected_badge = match &res.detected_mime {
        Some(d) => {
            let same = match &res.kind {
                ResolutionKind::MimeDefault { mime } => str_eq(mime.as_str(), d.as_str()),
                _ => false,
            };
            if same {
                None
            } else {
                Some(crate::text::concat2("Detected MIME: ", d.as_str()))
            }
        },
        None => None,
    };
    let n = res.regex_attempts.len();
    let chain_header = if n == 0 {
        String::from_str("Resolution chain (no regex handlers configured)")
    } else {
        let plural = if n == 1 { "" } else { "s" };
        let digits = decimal(n);
        let head = crate::text::concat4("Resolution chain (", digits.as_str(), " regex pattern", plural);
        crate::text::concat2(head.as_str(), " checked)")
    };
    let mut attempts: Vec<AttemptLine> = Vec::new();
    let mut i: usize = 0;
    while i < n
        invariant
            n == res.regex_attempts@.len(),
            i <= n,
            attempts@.len() == i,
            forall|j: int| 0 <= j < i ==> #[trigger] attempts@[j]@ == attempt_line_spec(res.regex_attempts@[j]@),
        decreases n - i,
    {
        attempts.push(attempt_line(&res.regex_attempts[i]));
        i = i + 1;
    }
    let by_regex = match &res.kind {
        ResolutionKind::Regex { .. } => true,
        _ => false,
    };
    let tick = if by_regex { "\u{2014}" } else { "\u{2192}" };
    let mime_text = if by_regex {
        String::from_str("MIME detection (not evaluated)")
    } else {
        match &res.detected_mime {
            Some(m) => crate::text::concat2("MIME: ", m.as_str()),
            None => String::from_str("MIME detection failed"),
        }
    };
    let handler_text = match &res.kind {
        ResolutionKind::Regex { .. } => String::from_str("MIME handler lookup (not evaluated)"),
        ResolutionKind::MimeDefault { .. } => crate::text::concat2("Handler: ", res.display_name.as_str()),
        ResolutionKind::NoHandler { .. } => String::from_str("No handler configured"),
    };
    ResolutionReport {
        reason,
        detected_badge,
        chain_header,
        attempts,
        mime_tick: String::from_str(tick),
        mime_text,
        handler_tick: String::from_str(tick),
        handler_text,
    }
}

} // verus!
