//! Settings kept in `handlr.toml` (`$XDG_CONFIG_HOME/handlr/handlr.toml`, else
//! `$HOME/.config/handlr/handlr.toml`). The file is edited through `toml_edit`, so that
//! everything else in it, such as `[[handlers]]` tables, is kept as it was.

use toml_edit::DocumentMut;
use vstd::prelude::*;
use crate::tester::HandlerView;
use crate::tester::RegexHandler;
use crate::tester::handlers_view;
use crate::text::concat2;
use crate::text::str_eq;

verus! {

// ---------------------------------------------------------------------------------------
// toml_edit

#[verifier::external_type_specification]
#[verifier::external_body]
pub struct ExDocumentMut(toml_edit::DocumentMut);

/// An entry of a TOML table, as far as this library cares.
pub enum TomlEntry {
    Bool(bool),
    Str(Seq<char>),
    /// An array value, element by element.
    Array(Seq<TomlEntry>),
    /// An array of tables (`[[name]]`), each table by its entries.
    Tables(Seq<Map<Seq<char>, TomlEntry>>),
    /// Any other kind of item (number, date, table, ...).
    Other,
}

/// The top-level entries of a document: every key that `Table::get` finds, with its
/// boolean or string value, or `Other` for any other item.
pub uninterp spec fn document_entries(doc: DocumentMut) -> Map<Seq<char>, TomlEntry>;

/// What parsing `text` with `DocumentMut::from_str` gives: `None` when it fails, else
/// the top-level entries of the parsed document.
pub uninterp spec fn toml_parse(text: Seq<char>) -> Option<Map<Seq<char>, TomlEntry>>;

/// Calls `str::parse::<DocumentMut>` (`DocumentMut::from_str`); the contract ties the
/// outcome and the parsed document's entries to the text through [`toml_parse`], and
/// drops the error value.
#[verifier::external_body]
fn parse_document(text: &str) -> (r: Option<DocumentMut>)
    ensures
        r is None <==> toml_parse(text@) is None,
        r matches Some(d) ==> toml_parse(text@) == Some(document_entries(d)),
{
    text.parse::<DocumentMut>().ok()
}

/// A document without entries.
pub open spec fn no_entries() -> Map<Seq<char>, TomlEntry> {
    Map::empty()
}

/// Calls `DocumentMut::new`, which the source shows builds an empty root table.
#[verifier::external_body]
fn new_document() -> (r: DocumentMut)
    ensures
        document_entries(r) == no_entries(),
{
    DocumentMut::new()
}

/// The boolean a document holds under `key`, if it holds one.
pub open spec fn entry_bool(m: Map<Seq<char>, TomlEntry>, key: Seq<char>) -> Option<bool> {
    if m.contains_key(key) {
        match m[key] {
            TomlEntry::Bool(b) => Some(b),
            _ => None,
        }
    } else {
        None
    }
}

/// The string a document holds under `key`, if it holds one.
pub open spec fn entry_str(m: Map<Seq<char>, TomlEntry>, key: Seq<char>) -> Option<Seq<char>> {
    if m.contains_key(key) {
        match m[key] {
            TomlEntry::Str(s) => Some(s),
            _ => None,
        }
    } else {
        None
    }
}

/// Calls `Table::get` (through the document's root table) and `Item::as_bool`; the
/// contract reads the result off [`document_entries`].
#[verifier::external_body]
fn document_bool(doc: &DocumentMut, key: &str) -> (r: Option<bool>)
    ensures
        r == entry_bool(document_entries(*doc), key@),
{
    doc.get(key).and_then(toml_edit::Item::as_bool)
}

/// Calls `Table::get` (through the document's root table) and `Item::as_str`; the
/// contract reads the result off [`document_entries`].
#[verifier::external_body]
fn document_str(doc: &DocumentMut, key: &str) -> (r: Option<String>)
    ensures
        r.deep_view() == entry_str(document_entries(*doc), key@),
{
    doc.get(key).and_then(toml_edit::Item::as_str).map(String::from)
}

/// Calls `doc[key] = toml_edit::value(v)` (`IndexMut` of the root table); the contract
/// claims that `key` then holds `v` and no other entry changes.
#[verifier::external_body]
fn set_document_bool(doc: &mut DocumentMut, key: &str, v: bool)
    ensures
        document_entries(*final(doc)) == document_entries(*old(doc)).insert(key@, TomlEntry::Bool(v)),
{
    doc[key] = toml_edit::value(v);
}

/// Calls `doc[key] = toml_edit::value(v)` (`IndexMut` of the root table); the contract
/// claims that `key` then holds `v` and no other entry changes.
#[verifier::external_body]
fn set_document_str(doc: &mut DocumentMut, key: &str, v: &str)
    ensures
        document_entries(*final(doc)) == document_entries(*old(doc)).insert(key@, TomlEntry::Str(v@)),
{
    doc[key] = toml_edit::value(v);
}

/// The text `toml_edit` renders for a document (its `Display`).
pub uninterp spec fn document_text(doc: DocumentMut) -> Seq<char>;

/// Calls `DocumentMut::to_string` (its `Display`); the contract claims only that the
/// text is the document's rendering. That parsing the text gives back the document's
/// entries is not claimed: `toml_edit` does not promise it.
#[verifier::external_body]
fn render_document(doc: &DocumentMut) -> (r: String)
    ensures
        r@ == document_text(*doc),
{
    doc.to_string()
}

/// `text` is the rendering of a document whose entries are `m`.
pub open spec fn renders(text: Seq<char>, m: Map<Seq<char>, TomlEntry>) -> bool {
    exists|d: DocumentMut| #[trigger] document_entries(d) == m && text == document_text(d)
}

// ---------------------------------------------------------------------------------------
// Settings

/// The settings the Settings dialog edits.
#[derive(Debug, Clone)]
pub struct Config {
    pub enable_selector: bool,
    pub selector: String,
    pub term_exec_args: String,
    pub expand_wildcards: bool,
}

/// Mathematical form of a [`Config`].
pub struct ConfigView {
    pub enable_selector: bool,
    pub selector: Seq<char>,
    pub term_exec_args: Seq<char>,
    pub expand_wildcards: bool,
}

impl View for Config {
    type V = ConfigView;

    open spec fn view(&self) -> ConfigView {
        ConfigView {
            enable_selector: self.enable_selector,
            selector: self.selector@,
            term_exec_args: self.term_exec_args@,
            expand_wildcards: self.expand_wildcards,
        }
    }
}

/// The settings of a missing file: selector off and empty, terminal arguments `-e`,
/// wildcard expansion off.
pub open spec fn default_config() -> ConfigView {
    ConfigView { enable_selector: false, selector: Seq::empty(), term_exec_args: "-e"@, expand_wildcards: false }
}

impl Default for Config {
    fn default() -> (r: Config)
        ensures
            r@ == default_config(),
    {
        Config {
            enable_selector: false,
            selector: String::new(),
            term_exec_args: String::from_str("-e"),
            expand_wildcards: false,
        }
    }
}

/// The settings a document gives: each key of the right type overrides the default.
pub open spec fn config_of(m: Map<Seq<char>, TomlEntry>) -> ConfigView {
    let d = default_config();
    ConfigView {
        enable_selector: match entry_bool(m, "enable_selector"@) {
            Some(b) => b,
            None => d.enable_selector,
        },
        selector: match entry_str(m, "selector"@) {
            Some(s) => s,
            None => d.selector,
        },
        term_exec_args: match entry_str(m, "term_exec_args"@) {
            Some(s) => s,
            None => d.term_exec_args,
        },
        expand_wildcards: match entry_bool(m, "expand_wildcards"@) {
            Some(b) => b,
            None => d.expand_wildcards,
        },
    }
}

/// Read the settings from a parsed document.
pub fn config_from_document(doc: &DocumentMut) -> (r: Config)
    ensures
        r@ == config_of(document_entries(*doc)),
{
    let mut cfg = Config::default();
    if let Some(v) = document_bool(doc, "enable_selector") {
        cfg.enable_selector = v;
    }
    if let Some(v) = document_str(doc, "selector") {
        cfg.selector = v;
    }
    if let Some(v) = document_str(doc, "term_exec_args") {
        cfg.term_exec_args = v;
    }
    if let Some(v) = document_bool(doc, "expand_wildcards") {
        cfg.expand_wildcards = v;
    }
    cfg
}

/// What reading the settings file gave.
pub enum ReadOutcome {
    /// The file's text.
    Text(String),
    /// There is no such file.
    NotFound,
    /// Reading failed for another reason.
    Failed,
}

/// The settings stored in the file at `path`, given what reading it gave: the defaults
/// when there is no file; the file's settings when it parses; otherwise an error that
/// names the path ("reading <path>" or "parsing <path>").
pub fn load(path: &str, read: ReadOutcome) -> (r: Result<Config, String>)
    ensures
        read is NotFound ==> (r matches Ok(c) && c@ == default_config()),
        read is Failed ==> (r matches Err(e) && e@ == "reading "@ + path@),
        read matches ReadOutcome::Text(t) ==> match toml_parse(t@) {
            Some(m) => r matches Ok(c) && c@ == config_of(m),
            None => r matches Err(e) && e@ == "parsing "@ + path@,
        },
{
    match read {
        ReadOutcome::NotFound => Ok(Config::default()),
        ReadOutcome::Failed => Err(concat2("reading ", path)),
        ReadOutcome::Text(t) => match parse_document(t.as_str()) {
            Some(doc) => Ok(config_from_document(&doc)),
            None => Err(concat2("parsing ", path)),
        },
    }
}

/// The entries of a document after writing the settings into it.
pub open spec fn with_config(m: Map<Seq<char>, TomlEntry>, c: ConfigView) -> Map<Seq<char>, TomlEntry> {
    m.insert("enable_selector"@, TomlEntry::Bool(c.enable_selector)).insert(
        "selector"@,
        TomlEntry::Str(c.selector),
    ).insert("term_exec_args"@, TomlEntry::Str(c.term_exec_args)).insert(
        "expand_wildcards"@,
        TomlEntry::Bool(c.expand_wildcards),
    )
}

/// The document to write for the settings at `path`, given what reading the file gave:
/// the existing document (or a new one when there is no file) with the four settings
/// written into it and everything else kept; an error naming the path when the file
/// cannot be read or parsed.
fn saved_document(cfg: &Config, path: &str, existing: ReadOutcome) -> (r: Result<DocumentMut, String>)
    ensures
        existing is NotFound ==> (r matches Ok(d) && document_entries(d) == with_config(
            Map::empty(),
            cfg@,
        )),
        existing is Failed ==> (r matches Err(e) && e@ == "reading "@ + path@),
        existing matches ReadOutcome::Text(t) ==> match toml_parse(t@) {
            Some(m) => r matches Ok(d) && document_entries(d) == with_config(m, cfg@),
            None => r matches Err(e) && e@ == "parsing "@ + path@,
        },
{
    let mut doc = match existing {
        ReadOutcome::Text(t) => match parse_document(t.as_str()) {
            Some(d) => d,
            None => {
                return Err(concat2("parsing ", path));
            },
        },
        ReadOutcome::NotFound => new_document(),
        ReadOutcome::Failed => {
            return Err(concat2("reading ", path));
        },
    };
    set_document_bool(&mut doc, "enable_selector", cfg.enable_selector);
    set_document_str(&mut doc, "selector", cfg.selector.as_str());
    set_document_str(&mut doc, "term_exec_args", cfg.term_exec_args.as_str());
    set_document_bool(&mut doc, "expand_wildcards", cfg.expand_wildcards);
    Ok(doc)
}

/// `text` parses, and the settings it gives are `c`: what [`load`] gives back of it.
pub open spec fn reads_back_config(text: Seq<char>, c: ConfigView) -> bool {
    toml_parse(text) matches Some(m) && config_of(m) == c
}

/// Some document with entries `m` renders to a text that does not give back the
/// settings `c`.
pub open spec fn rendering_loses_config(m: Map<Seq<char>, TomlEntry>, c: ConfigView) -> bool {
    exists|d: DocumentMut| #[trigger] document_entries(d) == m && !reads_back_config(document_text(d), c)
}

/// Equality of two settings.
fn same_config(a: &Config, b: &Config) -> (r: bool)
    ensures
        r == (a@ == b@),
{
    a.enable_selector == b.enable_selector && str_eq(a.selector.as_str(), b.selector.as_str()) && str_eq(
        a.term_exec_args.as_str(),
        b.term_exec_args.as_str(),
    ) && a.expand_wildcards == b.expand_wildcards
}

/// The text to write to the settings file at `path`, given what reading it gave: the
/// rendering of the existing document (or of a new one when there is no file) with the
/// four settings written into it and everything else kept; an error naming the path
/// when the file cannot be read or parsed. The rendering is parsed again before it is
/// handed out, so that loading the text gives back exactly `cfg`; were it not so, the
/// error "rendering <path>" comes instead and nothing is to be written.
pub fn save(cfg: &Config, path: &str, existing: ReadOutcome) -> (r: Result<String, String>)
    ensures
        existing is NotFound ==> match r {
            Ok(t) => renders(t@, with_config(no_entries(), cfg@)) && reads_back_config(t@, cfg@),
            Err(e) => e@ == "rendering "@ + path@ && rendering_loses_config(with_config(no_entries(), cfg@), cfg@),
        },
        existing is Failed ==> (r matches Err(e) && e@ == "reading "@ + path@),
        existing matches ReadOutcome::Text(t) ==> match toml_parse(t@) {
            Some(m) => match r {
                Ok(x) => renders(x@, with_config(m, cfg@)) && reads_back_config(x@, cfg@),
                Err(e) => e@ == "rendering "@ + path@ && rendering_loses_config(with_config(m, cfg@), cfg@),
            },
            None => r matches Err(e) && e@ == "parsing "@ + path@,
        },
{
    match saved_document(cfg, path, existing) {
        Ok(doc) => {
            let text = render_document(&doc);
            let back = match parse_document(text.as_str()) {
                Some(parsed) => same_config(&config_from_document(&parsed), cfg),
                None => false,
            };
            if back {
                assert(document_entries(doc) == document_entries(doc) && text@ == document_text(doc));
                Ok(text)
            } else {
                assert(document_entries(doc) == document_entries(doc) && !reads_back_config(document_text(doc), cfg@));
                Err(concat2("rendering ", path))
            }
        },
        Err(e) => Err(e),
    }
}

// ---------------------------------------------------------------------------------------
// Regex handlers (`[[handlers]]`)

/// The tables of the array of tables a document holds under `key`, if it holds one.
pub open spec fn entry_tables(m: Map<Seq<char>, TomlEntry>, key: Seq<char>) -> Option<Seq<Map<Seq<char>, TomlEntry>>> {
    if m.contains_key(key) {
        match m[key] {
            TomlEntry::Tables(ts) => Some(ts),
            _ => None,
        }
    } else {
        None
    }
}

/// The elements of the array a table holds under `key`, if it holds one.
pub open spec fn entry_array(m: Map<Seq<char>, TomlEntry>, key: Seq<char>) -> Option<Seq<TomlEntry>> {
    if m.contains_key(key) {
        match m[key] {
            TomlEntry::Array(a) => Some(a),
            _ => None,
        }
    } else {
        None
    }
}

/// Calls `Table::get` on the root and `Item::as_array_of_tables`, then
/// `ArrayOfTables::len`; the contract reads the count off [`document_entries`].
#[verifier::external_body]
fn handler_table_count(doc: &DocumentMut) -> (r: Option<usize>)
    ensures
        match entry_tables(document_entries(*doc), "handlers"@) {
            Some(ts) => r matches Some(n) && n == ts.len(),
            None => r is None,
        },
{
    Some(doc.get("handlers")?.as_array_of_tables()?.len())
}

/// Calls `ArrayOfTables::get` on the `handlers` tables, then `Table::get` and
/// `Item::as_str`; the contract reads the result off [`document_entries`].
#[verifier::external_body]
fn handler_table_str(doc: &DocumentMut, i: usize, key: &str) -> (r: Option<String>)
    requires
        entry_tables(document_entries(*doc), "handlers"@) matches Some(ts) && i < ts.len(),
    ensures
        r.deep_view() == entry_str(entry_tables(document_entries(*doc), "handlers"@)->Some_0[i as int], key@),
{
    let table = doc.get("handlers")?.as_array_of_tables()?.get(i)?;
    Some(String::from(table.get(key)?.as_str()?))
}

/// Calls `ArrayOfTables::get` on the `handlers` tables, then `Table::get` and
/// `Item::as_bool`; the contract reads the result off [`document_entries`].
#[verifier::external_body]
fn handler_table_bool(doc: &DocumentMut, i: usize, key: &str) -> (r: Option<bool>)
    requires
        entry_tables(document_entries(*doc), "handlers"@) matches Some(ts) && i < ts.len(),
    ensures
        r == entry_bool(entry_tables(document_entries(*doc), "handlers"@)->Some_0[i as int], key@),
{
    let table = doc.get("handlers")?.as_array_of_tables()?.get(i)?;
    table.get(key)?.as_bool()
}

/// Calls `ArrayOfTables::get` on the `handlers` tables, then `Table::get`,
/// `Item::as_array` and `Array::len`; the contract reads the length off
/// [`document_entries`].
#[verifier::external_body]
fn handler_table_array_len(doc: &DocumentMut, i: usize, key: &str) -> (r: Option<usize>)
    requires
        entry_tables(document_entries(*doc), "handlers"@) matches Some(ts) && i < ts.len(),
    ensures
        match entry_array(entry_tables(document_entries(*doc), "handlers"@)->Some_0[i as int], key@) {
            Some(a) => r matches Some(n) && n == a.len(),
            None => r is None,
        },
{
    let table = doc.get("handlers")?.as_array_of_tables()?.get(i)?;
    Some(table.get(key)?.as_array()?.len())
}

/// Calls `Array::get` on the array a `handlers` table holds under `key`, then
/// `Value::as_str`; the contract reads the element off [`document_entries`].
#[verifier::external_body]
fn handler_table_array_str(doc: &DocumentMut, i: usize, key: &str, j: usize) -> (r: Option<String>)
    requires
        ({
            &&& entry_tables(document_entries(*doc), "handlers"@) matches Some(ts)
            &&& i < ts.len()
            &&& entry_array(ts[i as int], key@) matches Some(a)
            &&& j < a.len()
        }),
    ensures
        r.deep_view() == match entry_array(
            entry_tables(document_entries(*doc), "handlers"@)->Some_0[i as int],
            key@,
        )->Some_0[j as int] {
            TomlEntry::Str(s) => Some(s),
            _ => None,
        },
{
    let table = doc.get("handlers")?.as_array_of_tables()?.get(i)?;
    Some(String::from(table.get(key)?.as_array()?.get(j)?.as_str()?))
}

/// Calls `doc["handlers"] = Item::ArrayOfTables(ArrayOfTables::new())`; the contract
/// claims that `handlers` then holds no tables and no other entry changes.
#[verifier::external_body]
fn clear_handler_tables(doc: &mut DocumentMut)
    ensures
        document_entries(*final(doc)) == document_entries(*old(doc)).insert(
            "handlers"@,
            TomlEntry::Tables(Seq::empty()),
        ),
{
    doc["handlers"] = toml_edit::Item::ArrayOfTables(toml_edit::ArrayOfTables::new());
}

/// The table written for a regex handler.
pub open spec fn handler_table(h: HandlerView) -> Map<Seq<char>, TomlEntry> {
    Map::empty().insert("regexes"@, TomlEntry::Array(h.regexes.map_values(|p: Seq<char>| TomlEntry::Str(p)))).insert(
        "exec"@,
        TomlEntry::Str(h.command),
    ).insert("terminal"@, TomlEntry::Bool(h.terminal))
}

/// Builds a `Table` with `regexes` (an `Array` collected from the patterns), `exec` and
/// `terminal` (through `toml_edit::value`), and appends it with `ArrayOfTables::push` to
/// the `handlers` tables; the contract claims exactly that table is appended.
#[verifier::external_body]
fn push_handler_table(doc: &mut DocumentMut, h: &RegexHandler)
    requires
        entry_tables(document_entries(*old(doc)), "handlers"@) is Some,
    ensures
        document_entries(*final(doc)) == document_entries(*old(doc)).insert(
            "handlers"@,
            TomlEntry::Tables(entry_tables(document_entries(*old(doc)), "handlers"@)->Some_0.push(handler_table(h@))),
        ),
{
    let mut table = toml_edit::Table::new();
    table["regexes"] = toml_edit::value(h.regexes.iter().map(String::as_str).collect::<toml_edit::Array>());
    table["exec"] = toml_edit::value(h.command.as_str());
    table["terminal"] = toml_edit::value(h.terminal);
    if let Some(tables) = doc["handlers"].as_array_of_tables_mut() {
        tables.push(table);
    }
}

/// The string elements of an array, in order.
pub open spec fn array_strings(a: Seq<TomlEntry>) -> Seq<Seq<char>>
    decreases a.len(),
{
    if a.len() == 0 {
        Seq::empty()
    } else {
        match a.last() {
            TomlEntry::Str(s) => array_strings(a.drop_last()).push(s),
            _ => array_strings(a.drop_last()),
        }
    }
}

/// The regex handler a `[[handlers]]` table describes: the string elements of its
/// `regexes` array, its `exec` string and its `terminal` flag; a missing or ill-typed
/// field counts as empty (or `false`).
pub open spec fn handler_of_table(t: Map<Seq<char>, TomlEntry>) -> HandlerView {
    HandlerView {
        regexes: match entry_array(t, "regexes"@) {
            Some(a) => array_strings(a),
            None => Seq::empty(),
        },
        command: match entry_str(t, "exec"@) {
            Some(c) => c,
            None => Seq::empty(),
        },
        terminal: match entry_bool(t, "terminal"@) {
            Some(b) => b,
            None => false,
        },
    }
}

/// The regex handlers of a document, one per `[[handlers]]` table; none when it has
/// no such array of tables.
pub open spec fn handlers_of(m: Map<Seq<char>, TomlEntry>) -> Seq<HandlerView> {
    match entry_tables(m, "handlers"@) {
        Some(ts) => ts.map_values(|t: Map<Seq<char>, TomlEntry>| handler_of_table(t)),
        None => Seq::empty(),
    }
}

/// The handler the `i`-th `[[handlers]]` table describes.
fn handler_from_table(doc: &DocumentMut, i: usize) -> (r: RegexHandler)
    requires
        entry_tables(document_entries(*doc), "handlers"@) matches Some(ts) && i < ts.len(),
    ensures
        r@ == handler_of_table(entry_tables(document_entries(*doc), "handlers"@)->Some_0[i as int]),
{
    let ghost t = entry_tables(document_entries(*doc), "handlers"@)->Some_0[i as int];
    let mut regexes: Vec<String> = Vec::new();
    match handler_table_array_len(doc, i, "regexes") {
        Some(n) => {
            let ghost a = entry_array(t, "regexes"@)->Some_0;
            let mut j: usize = 0;
            while j < n
                invariant
                    t == entry_tables(document_entries(*doc), "handlers"@)->Some_0[i as int],
                    entry_tables(document_entries(*doc), "handlers"@) matches Some(ts) && i < ts.len(),
                    entry_array(t, "regexes"@) == Some(a),
                    n == a.len(),
                    j <= n,
                    regexes.deep_view() == array_strings(a.take(j as int)),
                decreases n - j,
            {
                assert(a.take(j + 1).drop_last() =~= a.take(j as int));
                assert(a.take(j + 1).last() == a[j as int]);
                match handler_table_array_str(doc, i, "regexes", j) {
                    Some(p) => {
                        let ghost before = regexes.deep_view();
                        regexes.push(p);
                        assert(regexes.deep_view() =~= before.push(p@));
                    },
                    None => {},
                }
                j = j + 1;
            }
            assert(a.take(n as int) =~= a);
        },
        None => {
            assert(regexes.deep_view() =~= Seq::<Seq<char>>::empty());
        },
    }
    let command = match handler_table_str(doc, i, "exec") {
        Some(c) => c,
        None => String::new(),
    };
    let terminal = match handler_table_bool(doc, i, "terminal") {
        Some(b) => b,
        None => false,
    };
    RegexHandler { regexes, command, terminal }
}

/// The regex handlers a parsed document describes.
pub fn handlers_from_document(doc: &DocumentMut) -> (r: Vec<RegexHandler>)
    ensures
        handlers_view(r@) == handlers_of(document_entries(*doc)),
{
    let mut out: Vec<RegexHandler> = Vec::new();
    match handler_table_count(doc) {
        Some(n) => {
            let ghost ts = entry_tables(document_entries(*doc), "handlers"@)->Some_0;
            let mut i: usize = 0;
            while i < n
                invariant
                    entry_tables(document_entries(*doc), "handlers"@) == Some(ts),
                    n == ts.len(),
                    i <= n,
                    handlers_view(out@) =~= ts.take(i as int).map_values(
                        |t: Map<Seq<char>, TomlEntry>| handler_of_table(t),
                    ),
                decreases n - i,
            {
                let h = handler_from_table(doc, i);
                let ghost before = handlers_view(out@);
                out.push(h);
                proof {
                    assert(handlers_view(out@) =~= before.push(h@));
                    assert(ts.take(i + 1).map_values(|t: Map<Seq<char>, TomlEntry>| handler_of_table(t))
                        =~= ts.take(i as int).map_values(|t: Map<Seq<char>, TomlEntry>| handler_of_table(t)).push(
                        handler_of_table(ts[i as int]),
                    ));
                }
                i = i + 1;
            }
            assert(ts.take(n as int) =~= ts);
        },
        None => {},
    }
    out
}

/// The regex handlers stored in the file at `path`, given what reading it gave: none
/// when there is no file; the file's handlers when it parses; otherwise an error that
/// names the path, as for [`load`].
pub fn load_handlers(path: &str, read: ReadOutcome) -> (r: Result<Vec<RegexHandler>, String>)
    ensures
        read is NotFound ==> (r matches Ok(hs) && hs@.len() == 0),
        read is Failed ==> (r matches Err(e) && e@ == "reading "@ + path@),
        read matches ReadOutcome::Text(t) ==> match toml_parse(t@) {
            Some(m) => r matches Ok(hs) && handlers_view(hs@) == handlers_of(m),
            None => r matches Err(e) && e@ == "parsing "@ + path@,
        },
{
    match read {
        ReadOutcome::NotFound => Ok(Vec::new()),
        ReadOutcome::Failed => Err(concat2("reading ", path)),
        ReadOutcome::Text(t) => match parse_document(t.as_str()) {
            Some(doc) => Ok(handlers_from_document(&doc)),
            None => Err(concat2("parsing ", path)),
        },
    }
}

/// The entries of a document after writing the regex handlers into it.
pub open spec fn with_handlers(m: Map<Seq<char>, TomlEntry>, hs: Seq<HandlerView>) -> Map<Seq<char>, TomlEntry> {
    m.insert("handlers"@, TomlEntry::Tables(hs.map_values(|h: HandlerView| handler_table(h))))
}

/// The document to write for the regex handlers at `path`, given what reading the file
/// gave: the existing document (or a new one) with `[[handlers]]` replaced by one table
/// per handler and everything else kept; an error naming the path when the file cannot
/// be read or parsed.
fn saved_handlers_document(handlers: &[RegexHandler], path: &str, existing: ReadOutcome) -> (r: Result<DocumentMut, String>)
    ensures
        existing is NotFound ==> (r matches Ok(d) && document_entries(d) == with_handlers(
            no_entries(),
            handlers_view(handlers@),
        )),
        existing is Failed ==> (r matches Err(e) && e@ == "reading "@ + path@),
        existing matches ReadOutcome::Text(t) ==> match toml_parse(t@) {
            Some(m) => r matches Ok(d) && document_entries(d) == with_handlers(m, handlers_view(handlers@)),
            None => r matches Err(e) && e@ == "parsing "@ + path@,
        },
{
    let mut doc = match existing {
        ReadOutcome::Text(t) => match parse_document(t.as_str()) {
            Some(d) => d,
            None => {
                return Err(concat2("parsing ", path));
            },
        },
        ReadOutcome::NotFound => new_document(),
        ReadOutcome::Failed => {
            return Err(concat2("reading ", path));
        },
    };
    let ghost m = document_entries(doc);
    let ghost hv = handlers_view(handlers@);
    clear_handler_tables(&mut doc);
    assert(hv.take(0).map_values(|h: HandlerView| handler_table(h)) =~= Seq::<Map<Seq<char>, TomlEntry>>::empty());
    let mut i: usize = 0;
    while i < handlers.len()
        invariant
            hv == handlers_view(handlers@),
            i <= handlers@.len(),
            document_entries(doc) == m.insert(
                "handlers"@,
                TomlEntry::Tables(hv.take(i as int).map_values(|h: HandlerView| handler_table(h))),
            ),
        decreases handlers@.len() - i,
    {
        proof {
            assert(hv.take(i + 1).map_values(|h: HandlerView| handler_table(h)) =~= hv.take(i as int).map_values(
                |h: HandlerView| handler_table(h),
            ).push(handler_table(handlers@[i as int]@)));
        }
        push_handler_table(&mut doc, &handlers[i]);
        proof {
            assert(m.insert("handlers"@, TomlEntry::Tables(hv.take(i as int).map_values(|h: HandlerView| handler_table(h)))).insert(
                "handlers"@,
                TomlEntry::Tables(hv.take(i + 1).map_values(|h: HandlerView| handler_table(h))),
            ) =~= m.insert("handlers"@, TomlEntry::Tables(hv.take(i + 1).map_values(|h: HandlerView| handler_table(h)))));
        }
        i = i + 1;
    }
    assert(hv.take(handlers@.len() as int) =~= hv);
    Ok(doc)
}

/// `text` parses, and the regex handlers it gives are `hs`: what [`load_handlers`]
/// gives back of it.
pub open spec fn reads_back_handlers(text: Seq<char>, hs: Seq<HandlerView>) -> bool {
    toml_parse(text) matches Some(m) && handlers_of(m) == hs
}

/// Some document with entries `m` renders to a text that does not give back the regex
/// handlers `hs`.
pub open spec fn rendering_loses_handlers(m: Map<Seq<char>, TomlEntry>, hs: Seq<HandlerView>) -> bool {
    exists|d: DocumentMut| #[trigger] document_entries(d) == m && !reads_back_handlers(document_text(d), hs)
}

/// Element-wise equality of two lists of strings.
fn same_strings(a: &Vec<String>, b: &Vec<String>) -> (r: bool)
    ensures
        r == (a.deep_view() == b.deep_view()),
{
    if a.len() != b.len() {
        return false;
    }
    let mut i: usize = 0;
    while i < a.len()
        invariant
            a.len() == b.len(),
            i <= a.len(),
            a.deep_view().take(i as int) == b.deep_view().take(i as int),
        decreases a.len() - i,
    {
        if !str_eq(a[i].as_str(), b[i].as_str()) {
            assert(a.deep_view()[i as int] != b.deep_view()[i as int]);
            return false;
        }
        assert(a.deep_view().take(i + 1) =~= a.deep_view().take(i as int).push(a.deep_view()[i as int]));
        assert(b.deep_view().take(i + 1) =~= b.deep_view().take(i as int).push(b.deep_view()[i as int]));
        i = i + 1;
    }
    assert(a.deep_view() =~= a.deep_view().take(a.len() as int));
    assert(b.deep_view() =~= b.deep_view().take(b.len() as int));
    true
}

/// Equality of two lists of regex handlers.
fn same_handlers(a: &[RegexHandler], b: &[RegexHandler]) -> (r: bool)
    ensures
        r == (handlers_view(a@) == handlers_view(b@)),
{
    if a.len() != b.len() {
        assert(handlers_view(a@).len() != handlers_view(b@).len());
        return false;
    }
    let mut i: usize = 0;
    while i < a.len()
        invariant
            a@.len() == b@.len(),
            i <= a@.len(),
            handlers_view(a@).take(i as int) == handlers_view(b@).take(i as int),
        decreases a@.len() - i,
    {
        let same = same_strings(&a[i].regexes, &b[i].regexes) && str_eq(a[i].command.as_str(), b[i].command.as_str())
            && a[i].terminal == b[i].terminal;
        if !same {
            assert(handlers_view(a@)[i as int] != handlers_view(b@)[i as int]);
            return false;
        }
        assert(handlers_view(a@).take(i + 1) =~= handlers_view(a@).take(i as int).push(handlers_view(a@)[i as int]));
        assert(handlers_view(b@).take(i + 1) =~= handlers_view(b@).take(i as int).push(handlers_view(b@)[i as int]));
        i = i + 1;
    }
    assert(handlers_view(a@) =~= handlers_view(a@).take(a@.len() as int));
    assert(handlers_view(b@) =~= handlers_view(b@).take(b@.len() as int));
    true
}

/// The text to write to the settings file at `path` for the regex handlers, given what
/// reading it gave: the rendering of the existing document (or of a new one) with
/// `[[handlers]]` replaced by one table per handler and everything else kept; an error
/// naming the path when the file cannot be read or parsed. The rendering is parsed
/// again before it is handed out, so that loading the handlers from the text gives back
/// exactly `handlers`; were it not so, the error "rendering <path>" comes instead.
pub fn save_handlers(handlers: &[RegexHandler], path: &str, existing: ReadOutcome) -> (r: Result<String, String>)
    ensures
        existing is NotFound ==> match r {
            Ok(t) => renders(t@, with_handlers(no_entries(), handlers_view(handlers@))) && reads_back_handlers(
                t@,
                handlers_view(handlers@),
            ),
            Err(e) => e@ == "rendering "@ + path@ && rendering_loses_handlers(
                with_handlers(no_entries(), handlers_view(handlers@)),
                handlers_view(handlers@),
            ),
        },
        existing is Failed ==> (r matches Err(e) && e@ == "reading "@ + path@),
        existing matches ReadOutcome::Text(t) ==> match toml_parse(t@) {
            Some(m) => match r {
                Ok(x) => renders(x@, with_handlers(m, handlers_view(handlers@))) && reads_back_handlers(
                    x@,
                    handlers_view(handlers@),
                ),
                Err(e) => e@ == "rendering "@ + path@ && rendering_loses_handlers(
                    with_handlers(m, handlers_view(handlers@)),
                    handlers_view(handlers@),
                ),
            },
            None => r matches Err(e) && e@ == "parsing "@ + path@,
        },
{
    match saved_handlers_document(handlers, path, existing) {
        Ok(doc) => {
            let text = render_document(&doc);
            let back = match parse_document(text.as_str()) {
                Some(parsed) => {
                    let read = handlers_from_document(&parsed);
                    same_handlers(read.as_slice(), handlers)
                },
                None => false,
            };
            if back {
                assert(document_entries(doc) == document_entries(doc) && text@ == document_text(doc));
                Ok(text)
            } else {
                assert(document_entries(doc) == document_entries(doc) && !reads_back_handlers(
                    document_text(doc),
                    handlers_view(handlers@),
                ));
                Err(concat2("rendering ", path))
            }
        },
        Err(e) => Err(e),
    }
}

// ---------------------------------------------------------------------------------------
// Location

/// `base` joined with the relative component `comp`, as `Path::join` does on Unix.
pub open spec fn path_join(base: Seq<char>, comp: Seq<char>) -> Seq<char> {
    if base.len() == 0 || base.last() == '/' {
        base + comp
    } else {
        base + "/"@ + comp
    }
}

fn join(base: &str, comp: &str) -> (r: String)
    ensures
        r@ == path_join(base@, comp@),
{
    proof {
        reveal_strlit("");
    }
    let n = base.unicode_len();
    if n == 0 || base.get_char(n - 1) == '/' {
        concat2(base, comp)
    } else {
        crate::text::concat4(base, "/", comp, "")
    }
}

/// Where the settings file lives (or the error), from `$XDG_CONFIG_HOME` and `$HOME`.
pub open spec fn config_path_spec(xdg: Option<Seq<char>>, home: Option<Seq<char>>) -> Result<Seq<char>, Seq<char>> {
    if xdg is Some && xdg->0.len() > 0 {
        Ok(path_join(path_join(xdg->0, "handlr"@), "handlr.toml"@))
    } else {
        match home {
            None => Err("HOME environment variable not set"@),
            Some(h) => if h.len() == 0 {
                Err("HOME environment variable is empty"@)
            } else {
                Ok(path_join(path_join(path_join(h, ".config"@), "handlr"@), "handlr.toml"@))
            },
        }
    }
}

/// Where the settings file lives, given `$XDG_CONFIG_HOME` and `$HOME` (`None` when
/// unset): under a non-empty `$XDG_CONFIG_HOME`, else under `$HOME/.config`; an error
/// when `$HOME` is unset or empty.
pub fn config_path(xdg_config_home: Option<String>, home: Option<String>) -> (r: Result<String, String>)
    ensures
        match r {
            Ok(p) => config_path_spec(xdg_config_home.deep_view(), home.deep_view()) matches Ok(q) && q == p@,
            Err(e) => config_path_spec(xdg_config_home.deep_view(), home.deep_view()) matches Err(q) && q == e@,
        },
{
    if let Some(x) = &xdg_config_home {
        if x.as_str().unicode_len() > 0 {
            let dir = join(x.as_str(), "handlr");
            return Ok(join(dir.as_str(), "handlr.toml"));
        }
    }
    match home {
        None => Err(String::from_str("HOME environment variable not set")),
        Some(h) => {
            if h.as_str().unicode_len() == 0 {
                return Err(String::from_str("HOME environment variable is empty"));
            }
            let base = join(h.as_str(), ".config");
            let dir = join(base.as_str(), "handlr");
            Ok(join(dir.as_str(), "handlr.toml"))
        },
    }
}

// ---------------------------------------------------------------------------------------
// Laws

/// Saving then reading back: the document `save` produces yields exactly the saved
/// settings.
pub proof fn law_saved_settings_read_back(m: Map<Seq<char>, TomlEntry>, c: ConfigView)
    ensures
        config_of(with_config(m, c)) == c,
{
    reveal_strlit("enable_selector");
    reveal_strlit("selector");
    reveal_strlit("term_exec_args");
    reveal_strlit("expand_wildcards");
    // The four keys have different lengths, hence are different.
    assert("enable_selector"@.len() == 15);
    assert("selector"@.len() == 8);
    assert("term_exec_args"@.len() == 14);
    assert("expand_wildcards"@.len() == 16);
}

/// Saving keeps every other top-level entry of the file (such as `handlers`) as it was.
pub proof fn law_save_keeps_other_entries(m: Map<Seq<char>, TomlEntry>, c: ConfigView, k: Seq<char>)
    requires
        k != "enable_selector"@,
        k != "selector"@,
        k != "term_exec_args"@,
        k != "expand_wildcards"@,
    ensures
        with_config(m, c).contains_key(k) == m.contains_key(k),
        m.contains_key(k) ==> with_config(m, c)[k] == m[k],
{
}

proof fn lemma_array_strings_of_strs(ps: Seq<Seq<char>>)
    ensures
        array_strings(ps.map_values(|p: Seq<char>| TomlEntry::Str(p))) == ps,
    decreases ps.len(),
{
    if ps.len() > 0 {
        let a = ps.map_values(|p: Seq<char>| TomlEntry::Str(p));
        assert(a.drop_last() =~= ps.drop_last().map_values(|p: Seq<char>| TomlEntry::Str(p)));
        lemma_array_strings_of_strs(ps.drop_last());
        assert(ps.drop_last().push(ps.last()) =~= ps);
    } else {
        assert(ps.map_values(|p: Seq<char>| TomlEntry::Str(p)) =~= Seq::<TomlEntry>::empty());
    }
}

/// Saved regex handlers read back: the handlers a document holds after
/// [`save_handlers`] wrote them are exactly the handlers written.
pub proof fn law_saved_handlers_read_back(m: Map<Seq<char>, TomlEntry>, hs: Seq<HandlerView>)
    ensures
        handlers_of(with_handlers(m, hs)) == hs,
{
    reveal_strlit("regexes");
    reveal_strlit("exec");
    reveal_strlit("terminal");
    reveal_strlit("handlers");
    // The three keys of a handler table have different lengths, hence are different.
    assert("regexes"@.len() == 7);
    assert("exec"@.len() == 4);
    assert("terminal"@.len() == 8);
    let ts = hs.map_values(|h: HandlerView| handler_table(h));
    assert(entry_tables(with_handlers(m, hs), "handlers"@) == Some(ts));
    assert forall|i: int| 0 <= i < hs.len() implies #[trigger] handler_of_table(ts[i]) == hs[i] by {
        lemma_array_strings_of_strs(hs[i].regexes);
    }
    assert(handlers_of(with_handlers(m, hs)) =~= hs);
}

/// Saving the regex handlers keeps every other top-level entry of the file (such as
/// the settings) as it was.
pub proof fn law_save_handlers_keeps_other_entries(m: Map<Seq<char>, TomlEntry>, hs: Seq<HandlerView>, k: Seq<char>)
    requires
        k != "handlers"@,
    ensures
        with_handlers(m, hs).contains_key(k) == m.contains_key(k),
        m.contains_key(k) ==> with_handlers(m, hs)[k] == m[k],
{
}

/// Saving the settings keeps the regex handlers as they were.
pub proof fn law_save_keeps_handlers(m: Map<Seq<char>, TomlEntry>, c: ConfigView)
    ensures
        handlers_of(with_config(m, c)) == handlers_of(m),
{
    reveal_strlit("enable_selector");
    reveal_strlit("selector");
    reveal_strlit("term_exec_args");
    reveal_strlit("expand_wildcards");
    reveal_strlit("handlers");
    assert("handlers"@.len() == 8);
    assert("enable_selector"@.len() == 15);
    assert("term_exec_args"@.len() == 14);
    assert("expand_wildcards"@.len() == 16);
    assert("handlers"@[0] != "selector"@[0]);
    assert(entry_tables(with_config(m, c), "handlers"@) == entry_tables(m, "handlers"@));
}

} // verus!
