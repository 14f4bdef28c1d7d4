//! Migration of a configuration file to the current schema, editing the TOML
//! document in place so that comments and layout are kept.
use vstd::prelude::*;
use toml_edit::{DocumentMut, TomlError};
use crate::text::{decimal, lowercase, push_char, push_decimal, starts_with, text_eq, texts, to_lowercase, trim, trimmed};
use crate::toml::{
    bool_item, document_entries, document_table, document_table_mut, has_item, integer_item,
    item_as_bool, item_as_integer, item_as_table_mut, item_model, new_table, parse_document, parsed_document,
    set_key_prefix, strings_item, table_contains_key, table_entries, table_entry_or_new_table,
    table_get, table_get_mut, table_insert, table_item, table_remove, TomlItem,
};

verus! {

/// The schema version this library writes.
pub const CURRENT_SCHEMA_VERSION: u32 = 3;

pub const MSG_NO_ICONS_COLOR: &'static str = "Migrated `no_icons`/`no_color` to `icons`/`color` in `[when_not_tty]` table";
pub const MSG_HYPERLINKS_TABLE: &'static str = "Migrated `hyperlinks` from boolean to `[hyperlinks]` table format";
pub const MSG_EXCLUDE_ENV: &'static str = "Removed `exclude_env` (this option had no effect and has been removed)";
pub const MSG_UNDERLINES: &'static str = "Removed deprecated underlining settings from `[hyperlinks]` table";
pub const MSG_DIRS_RENAMED: &'static str = "Renamed `directories` to `dirs` in `[hyperlinks]` table";
pub const MSG_EXECUTABLES_ADDED: &'static str = "Added `executables = true` to `[hyperlinks]` table";
pub const MSG_WHEN_NOT_TTY_HYPERLINKS: &'static str = "Removed deprecated `hyperlinks` setting from `[when_not_tty]` table";

/// The answer to the question asked when a configuration had hyperlinks
/// switched off: every type off, the usual types on but the master switch
/// off, or each setting chosen.
#[derive(Clone, Copy, PartialEq, Eq, Structural, Debug)]
pub enum HyperlinkChoice {
    DisableAll,
    KeepTypes,
    Custom { enabled: bool, files: bool, dirs: bool, symlinks: bool, executables: bool },
}

/// Why an update failed.
#[derive(Debug)]
pub enum UpdateError {
    /// The file at this path is not valid TOML.
    Parse(String, TomlError),
    /// The file has a schema version newer than this library's.
    NewerSchema(u32),
    /// The key holds something other than a table.
    NotATable(String),
}

impl UpdateError {
    /// The error message.
    pub fn message(&self) -> (r: String)
        ensures
            match self {
                UpdateError::Parse(p, _) => r@ == "Failed to parse config file: "@ + p@,
                UpdateError::NewerSchema(v) => r@ == "Config schema version "@ + decimal(*v as nat)
                    + " is newer than the supported version "@ + decimal(CURRENT_SCHEMA_VERSION as nat),
                UpdateError::NotATable(k) => r@ == k@ + " is not a table"@,
            },
    {
        match self {
            UpdateError::Parse(p, _) => {
                let mut s = String::from_str("Failed to parse config file: ");
                s.append(p.as_str());
                s
            },
            UpdateError::NewerSchema(v) => {
                let mut s = String::from_str("Config schema version ");
                push_decimal(&mut s, *v as u64);
                s.append(" is newer than the supported version ");
                push_decimal(&mut s, CURRENT_SCHEMA_VERSION as u64);
                s
            },
            UpdateError::NotATable(k) => {
                let mut s = k.clone();
                s.append(" is not a table");
                s
            },
        }
    }
}

/// What the update works on: the document, the report lines and whether
/// anything changed.
pub struct UpdState {
    pub entries: Map<Seq<char>, TomlItem>,
    pub report: Seq<Seq<char>>,
    pub changed: bool,
}

/// The table under a key, if the key holds a table.
pub open spec fn table_at(m: Map<Seq<char>, TomlItem>, k: Seq<char>) -> Option<Map<Seq<char>, TomlItem>> {
    if has_item(m, k) {
        match m[k] {
            TomlItem::Table(t) => Some(t),
            _ => None,
        }
    } else {
        None
    }
}

/// The boolean under a key (any slot), if it is a boolean.
pub open spec fn bool_at(m: Map<Seq<char>, TomlItem>, k: Seq<char>) -> Option<bool> {
    if m.contains_key(k) {
        match m[k] {
            TomlItem::Bool(b) => Some(b),
            _ => None,
        }
    } else {
        None
    }
}

/// The schema version a document declares: its integer `schema_version`
/// truncated to 32 bits, else 0.
pub open spec fn schema_version_of(m: Map<Seq<char>, TomlItem>) -> u32 {
    if has_item(m, "schema_version"@) {
        match m["schema_version"@] {
            TomlItem::Integer(v) => v as u32,
            _ => 0,
        }
    } else {
        0
    }
}

/// The `[when_not_tty]` part of version 0 to 1: `no_icons` and `no_color`
/// are taken out and, when they were booleans, become `icons` and `color`
/// negated. Also whether anything was migrated.
pub open spec fn when_not_tty_0_to_1(t: Map<Seq<char>, TomlItem>) -> (Map<Seq<char>, TomlItem>, bool) {
    let ni = bool_at(t, "no_icons"@);
    let t1 = t.remove("no_icons"@);
    let t2 = match ni {
        Some(b) => t1.insert("icons"@, TomlItem::Bool(!b)),
        None => t1,
    };
    let nc = bool_at(t2, "no_color"@);
    let t3 = t2.remove("no_color"@);
    let t4 = match nc {
        Some(b) => t3.insert("color"@, TomlItem::Bool(!b)),
        None => t3,
    };
    (t4, ni is Some || nc is Some)
}

/// Version 0 to 1 (see `when_not_tty_0_to_1`).
pub open spec fn migrate_0_to_1(s: UpdState) -> UpdState {
    match table_at(s.entries, "when_not_tty"@) {
        None => s,
        Some(t) => {
            let (t4, migrated) = when_not_tty_0_to_1(t);
            UpdState {
                entries: s.entries.insert("when_not_tty"@, TomlItem::Table(t4)),
                report: if migrated { s.report.push(MSG_NO_ICONS_COLOR@) } else { s.report },
                changed: s.changed || migrated,
            }
        },
    }
}

/// The five hyperlink settings (enabled, files, dirs, symlinks, executables)
/// that replace a `hyperlinks` boolean.
pub open spec fn hyperlink_flags(h: bool, interactive: bool, choice: HyperlinkChoice) -> (bool, bool, bool, bool, bool) {
    if h {
        (true, true, false, true, true)
    } else if interactive {
        match choice {
            HyperlinkChoice::DisableAll => (false, false, false, false, false),
            HyperlinkChoice::KeepTypes => (false, true, false, true, true),
            HyperlinkChoice::Custom { enabled, files, dirs, symlinks, executables } => (enabled, files, dirs, symlinks, executables),
        }
    } else {
        (false, true, false, true, true)
    }
}

/// The `[hyperlinks]` table of the five settings.
pub open spec fn hyperlinks_table(f: (bool, bool, bool, bool, bool)) -> Map<Seq<char>, TomlItem> {
    Map::<Seq<char>, TomlItem>::empty().insert("enabled"@, TomlItem::Bool(f.0)).insert("files"@, TomlItem::Bool(f.1)).insert(
        "dirs"@,
        TomlItem::Bool(f.2),
    ).insert("symlinks"@, TomlItem::Bool(f.3)).insert("executables"@, TomlItem::Bool(f.4))
}

/// Whether the configuration holds a `hyperlinks` boolean.
pub open spec fn hyperlinks_bool(m: Map<Seq<char>, TomlItem>) -> Option<bool> {
    if has_item(m, "hyperlinks"@) {
        match m["hyperlinks"@] {
            TomlItem::Bool(b) => Some(b),
            _ => None,
        }
    } else {
        None
    }
}

/// Version 1 to 2: a `hyperlinks` boolean becomes a `[hyperlinks]` table.
pub open spec fn migrate_1_to_2(s: UpdState, interactive: bool, choice: HyperlinkChoice) -> UpdState {
    match hyperlinks_bool(s.entries) {
        None => s,
        Some(h) => UpdState {
            entries: s.entries.remove("hyperlinks"@).insert(
                "hyperlinks"@,
                TomlItem::Table(hyperlinks_table(hyperlink_flags(h, interactive, choice))),
            ),
            report: s.report.push(MSG_HYPERLINKS_TABLE@),
            changed: true,
        },
    }
}

/// The `[hyperlinks]` clean-up of version 2 to 3, on the table and the
/// report: `exclude_env` and the underline settings go, `directories` becomes
/// `dirs`, `executables = true` is added when missing.
pub open spec fn clean_hyperlinks(h: Map<Seq<char>, TomlItem>, report: Seq<Seq<char>>) -> (Map<Seq<char>, TomlItem>, Seq<Seq<char>>, bool) {
    let ex = h.contains_key("exclude_env"@);
    let h1 = h.remove("exclude_env"@);
    let r1 = if ex { report.push(MSG_EXCLUDE_ENV@) } else { report };
    let ul = h1.contains_key("underline_files"@) || h1.contains_key("underline_directories"@) || h1.contains_key("underline_symlinks"@);
    let h2 = h1.remove("underline_files"@).remove("underline_directories"@).remove("underline_symlinks"@);
    let r2 = if ul { r1.push(MSG_UNDERLINES@) } else { r1 };
    let dirs = h2.contains_key("directories"@);
    let h3 = h2.remove("directories"@);
    let h4 = if dirs { h3.insert("dirs"@, h2["directories"@]) } else { h3 };
    let r3 = if dirs { r2.push(MSG_DIRS_RENAMED@) } else { r2 };
    let exe = !has_item(h4, "executables"@);
    let h5 = if exe { h4.insert("executables"@, TomlItem::Bool(true)) } else { h4 };
    let r4 = if exe { r3.push(MSG_EXECUTABLES_ADDED@) } else { r3 };
    (h5, r4, ex || ul || dirs || exe)
}

/// Version 2 to 3: `exclude_env` goes (top level and `[hyperlinks]`), the
/// `[hyperlinks]` table is cleaned up, and `hyperlinks` leaves `[when_not_tty]`.
pub open spec fn migrate_2_to_3(s: UpdState) -> UpdState {
    let top = s.entries.contains_key("exclude_env"@);
    let e1 = s.entries.remove("exclude_env"@);
    let r1 = if top { s.report.push(MSG_EXCLUDE_ENV@) } else { s.report };
    let (e2, r2, c2) = match table_at(e1, "hyperlinks"@) {
        Some(h) => {
            let (h2, r, c) = clean_hyperlinks(h, r1);
            (e1.insert("hyperlinks"@, TomlItem::Table(h2)), r, c)
        },
        None => (e1, r1, false),
    };
    let (e3, r3, c3) = match table_at(e2, "when_not_tty"@) {
        Some(w) => {
            let had = w.contains_key("hyperlinks"@);
            (
                e2.insert("when_not_tty"@, TomlItem::Table(w.remove("hyperlinks"@))),
                if had { r2.push(MSG_WHEN_NOT_TTY_HYPERLINKS@) } else { r2 },
                had,
            )
        },
        None => (e2, r2, false),
    };
    UpdState { entries: e3, report: r3, changed: s.changed || top || c2 || c3 }
}

/// Puts each default under its key where the key holds nothing, counting
/// the keys added.
pub open spec fn add_defaults(m: Map<Seq<char>, TomlItem>, defaults: Seq<(Seq<char>, TomlItem)>) -> (Map<Seq<char>, TomlItem>, nat)
    decreases defaults.len(),
{
    if defaults.len() == 0 {
        (m, 0)
    } else {
        let (m1, n1) = add_defaults(m, defaults.drop_last());
        let (k, v) = defaults.last();
        if has_item(m1, k) {
            (m1, n1)
        } else {
            (m1.insert(k, v), n1 + 1)
        }
    }
}

/// The top-level defaults.
pub open spec fn top_defaults() -> Seq<(Seq<char>, TomlItem)> {
    seq![
        ("icons"@, TomlItem::Bool(true)),
        ("color"@, TomlItem::Bool(true)),
        ("git_ignore"@, TomlItem::Bool(true)),
        ("ignore"@, TomlItem::Strings(Seq::empty())),
        ("classify"@, TomlItem::Bool(false)),
    ]
}

/// The `[hyperlinks]` defaults.
pub open spec fn hyperlinks_defaults() -> Seq<(Seq<char>, TomlItem)> {
    seq![
        ("enabled"@, TomlItem::Bool(true)),
        ("files"@, TomlItem::Bool(true)),
        ("dirs"@, TomlItem::Bool(false)),
        ("symlinks"@, TomlItem::Bool(true)),
        ("executables"@, TomlItem::Bool(true)),
    ]
}

/// The default columns as written to the file.
pub open spec fn column_names() -> Seq<Seq<char>> {
    seq!["git"@, "permissions"@, "links"@, "owner"@, "group"@, "size"@, "date"@, "name"@]
}

/// The `[long]` defaults.
pub open spec fn long_defaults() -> Seq<(Seq<char>, TomlItem)> {
    seq![
        ("headers"@, TomlItem::Bool(true)),
        ("autohide_columns"@, TomlItem::Bool(true)),
        ("columns"@, TomlItem::Strings(column_names())),
    ]
}

/// The `[when_not_tty]` defaults.
pub open spec fn when_not_tty_defaults() -> Seq<(Seq<char>, TomlItem)> {
    seq![
        ("icons"@, TomlItem::Bool(false)),
        ("color"@, TomlItem::Bool(false)),
        ("one_per_line"@, TomlItem::Bool(true)),
    ]
}

/// The table under `key` after taking its entry: the item there (an empty
/// slot included) or a new empty table.
pub open spec fn entry_item(m: Map<Seq<char>, TomlItem>, key: Seq<char>) -> TomlItem {
    if m.contains_key(key) {
        m[key]
    } else {
        TomlItem::Table(Map::empty())
    }
}

/// Adds the defaults to the table under `key`; `None` when the key holds
/// something other than a table (then nothing changes).
pub open spec fn add_table_defaults(m: Map<Seq<char>, TomlItem>, key: Seq<char>, defaults: Seq<(Seq<char>, TomlItem)>) -> Option<(Map<Seq<char>, TomlItem>, nat)> {
    match entry_item(m, key) {
        TomlItem::Table(t) => {
            let (t2, n) = add_defaults(t, defaults);
            Some((m.insert(key, TomlItem::Table(t2)), n))
        },
        _ => None,
    }
}

/// The report line of the defaults added.
pub open spec fn added_message(n: nat) -> Seq<char> {
    "Added "@ + decimal(n) + " new fields with default values"@
}

/// Adds every missing setting with its default value (top level,
/// `[hyperlinks]`, `[long]`, `[when_not_tty]`) and reports how many were
/// added. When one of the three keys holds something other than a table the
/// result is that key, with the additions made before it kept and nothing
/// reported.
pub open spec fn add_missing_fields(s: UpdState) -> (UpdState, Option<Seq<char>>) {
    let (m1, n1) = add_defaults(s.entries, top_defaults());
    match add_table_defaults(m1, "hyperlinks"@, hyperlinks_defaults()) {
        None => (UpdState { entries: m1, ..s }, Some("hyperlinks"@)),
        Some((m2, n2)) => match add_table_defaults(m2, "long"@, long_defaults()) {
            None => (UpdState { entries: m2, ..s }, Some("long"@)),
            Some((m3, n3)) => match add_table_defaults(m3, "when_not_tty"@, when_not_tty_defaults()) {
                None => (UpdState { entries: m3, ..s }, Some("when_not_tty"@)),
                Some((m4, n4)) => {
                    let n = n1 + n2 + n3 + n4;
                    (
                        UpdState {
                            entries: m4,
                            report: if n > 0 { s.report.push(added_message(n)) } else { s.report },
                            changed: s.changed || n > 0,
                        },
                        None,
                    )
                },
            },
        },
    }
}

/// The outcome of an update.
pub enum Outcome {
    Done,
    TooNew(u32),
    NotATable(Seq<char>),
}

/// The whole migration: refused for a schema newer than the current one;
/// else each migration from the declared version on, the missing defaults,
/// and `schema_version` set to the current version when it was another.
pub open spec fn migrated(s: UpdState, interactive: bool, choice: HyperlinkChoice) -> (UpdState, Outcome) {
    let d = schema_version_of(s.entries);
    if d > CURRENT_SCHEMA_VERSION {
        (s, Outcome::TooNew(d))
    } else {
        let s1 = if d == 0 { migrate_0_to_1(s) } else { s };
        let s2 = if d <= 1 { migrate_1_to_2(s1, interactive, choice) } else { s1 };
        let s3 = if d <= 2 { migrate_2_to_3(s2) } else { s2 };
        let (s4, err) = add_missing_fields(s3);
        match err {
            Some(k) => (s4, Outcome::NotATable(k)),
            None => if d != CURRENT_SCHEMA_VERSION {
                (
                    UpdState {
                        entries: s4.entries.insert("schema_version"@, TomlItem::Integer(CURRENT_SCHEMA_VERSION as i64)),
                        changed: true,
                        ..s4
                    },
                    Outcome::Done,
                )
            } else {
                (s4, Outcome::Done)
            },
        }
    }
}

/// Every key of the defaults holds an item.
pub open spec fn has_all(m: Map<Seq<char>, TomlItem>, ds: Seq<(Seq<char>, TomlItem)>) -> bool {
    forall|i: int| 0 <= i < ds.len() ==> has_item(m, #[trigger] ds[i].0)
}

/// The key holds a table in which every key of the defaults holds an item.
pub open spec fn table_has_all(m: Map<Seq<char>, TomlItem>, key: Seq<char>, ds: Seq<(Seq<char>, TomlItem)>) -> bool {
    match table_at(m, key) {
        Some(t) => has_all(t, ds),
        None => false,
    }
}

/// Every setting present: the top-level defaults, and the `[hyperlinks]`,
/// `[long]` and `[when_not_tty]` tables with theirs.
pub open spec fn has_every_setting(m: Map<Seq<char>, TomlItem>) -> bool {
    &&& has_all(m, top_defaults())
    &&& table_has_all(m, "hyperlinks"@, hyperlinks_defaults())
    &&& table_has_all(m, "long"@, long_defaults())
    &&& table_has_all(m, "when_not_tty"@, when_not_tty_defaults())
}

/// A configuration at the current schema with every setting present.
pub open spec fn up_to_date(m: Map<Seq<char>, TomlItem>) -> bool {
    &&& schema_version_of(m) == CURRENT_SCHEMA_VERSION
    &&& has_all(m, top_defaults())
    &&& table_has_all(m, "hyperlinks"@, hyperlinks_defaults())
    &&& table_has_all(m, "long"@, long_defaults())
    &&& table_has_all(m, "when_not_tty"@, when_not_tty_defaults())
}

/// No default is an empty slot.
pub open spec fn no_empty_default(ds: Seq<(Seq<char>, TomlItem)>) -> bool {
    forall|i: int| 0 <= i < ds.len() ==> !((#[trigger] ds[i]).1 is Empty)
}

proof fn lemma_add_defaults_has_all(m: Map<Seq<char>, TomlItem>, ds: Seq<(Seq<char>, TomlItem)>)
    requires
        no_empty_default(ds),
    ensures
        has_all(add_defaults(m, ds).0, ds),
        forall|k: Seq<char>| has_item(m, k) ==> has_item(#[trigger] add_defaults(m, ds).0, k),
    decreases ds.len(),
{
    if ds.len() > 0 {
        let rest = ds.drop_last();
        assert(no_empty_default(rest)) by {
            assert forall|i: int| 0 <= i < rest.len() implies !((#[trigger] rest[i]).1 is Empty) by {
                assert(rest[i] == ds[i]);
            }
        }
        lemma_add_defaults_has_all(m, rest);
        let m1 = add_defaults(m, rest).0;
        let (k, v) = ds.last();
        assert(!(ds[ds.len() - 1].1 is Empty));
        let m2 = add_defaults(m, ds).0;
        assert forall|i: int| 0 <= i < ds.len() implies has_item(m2, #[trigger] ds[i].0) by {
            if i < ds.len() - 1 {
                assert(ds[i] == rest[i]);
                assert(has_item(m1, rest[i].0));
            }
        }
    }
}

proof fn lemma_add_defaults_noop(m: Map<Seq<char>, TomlItem>, ds: Seq<(Seq<char>, TomlItem)>)
    requires
        has_all(m, ds),
    ensures
        add_defaults(m, ds) == (m, 0nat),
    decreases ds.len(),
{
    if ds.len() > 0 {
        let rest = ds.drop_last();
        assert(has_all(m, rest)) by {
            assert forall|i: int| 0 <= i < rest.len() implies has_item(m, #[trigger] rest[i].0) by {
                assert(rest[i] == ds[i]);
            }
        }
        lemma_add_defaults_noop(m, rest);
        assert(has_item(m, ds[ds.len() - 1].0));
    }
}

proof fn lemma_add_defaults_other_key(m: Map<Seq<char>, TomlItem>, ds: Seq<(Seq<char>, TomlItem)>, k: Seq<char>)
    requires
        forall|i: int| 0 <= i < ds.len() ==> (#[trigger] ds[i]).0 != k,
    ensures
        add_defaults(m, ds).0.contains_key(k) == m.contains_key(k),
        m.contains_key(k) ==> add_defaults(m, ds).0[k] == m[k],
    decreases ds.len(),
{
    if ds.len() > 0 {
        let rest = ds.drop_last();
        assert forall|i: int| 0 <= i < rest.len() implies (#[trigger] rest[i]).0 != k by {
            assert(rest[i] == ds[i]);
        }
        lemma_add_defaults_other_key(m, rest, k);
        assert(ds[ds.len() - 1].0 != k);
    }
}

proof fn lemma_section_keys_distinct()
    ensures
        "hyperlinks"@ != "long"@,
        "hyperlinks"@ != "when_not_tty"@,
        "long"@ != "when_not_tty"@,
        "schema_version"@ != "hyperlinks"@,
        "schema_version"@ != "long"@,
        "schema_version"@ != "when_not_tty"@,
        forall|i: int| 0 <= i < top_defaults().len() ==> {
            &&& (#[trigger] top_defaults()[i]).0 != "hyperlinks"@
            &&& top_defaults()[i].0 != "long"@
            &&& top_defaults()[i].0 != "when_not_tty"@
            &&& top_defaults()[i].0 != "schema_version"@
        },
        no_empty_default(top_defaults()),
        no_empty_default(hyperlinks_defaults()),
        no_empty_default(long_defaults()),
        no_empty_default(when_not_tty_defaults()),
{
    reveal_strlit("hyperlinks");
    reveal_strlit("long");
    reveal_strlit("when_not_tty");
    reveal_strlit("schema_version");
    reveal_strlit("icons");
    reveal_strlit("color");
    reveal_strlit("git_ignore");
    reveal_strlit("ignore");
    reveal_strlit("classify");
    assert("hyperlinks"@[0] != "long"@[0]);
    assert("hyperlinks"@[0] != "when_not_tty"@[0]);
    assert("long"@[0] != "when_not_tty"@[0]);
    assert("schema_version"@[0] != "hyperlinks"@[0]);
    assert("schema_version"@[0] != "long"@[0]);
    assert("schema_version"@[0] != "when_not_tty"@[0]);
    assert forall|i: int| 0 <= i < top_defaults().len() implies {
        &&& (#[trigger] top_defaults()[i]).0 != "hyperlinks"@
        &&& top_defaults()[i].0 != "long"@
        &&& top_defaults()[i].0 != "when_not_tty"@
        &&& top_defaults()[i].0 != "schema_version"@
    } by {
        let k = top_defaults()[i].0;
        assert(k[0] != "hyperlinks"@[0] || k.len() != "hyperlinks"@.len());
        assert(k[0] != "long"@[0] || k.len() != "long"@.len());
        assert(k[0] != "when_not_tty"@[0]);
        assert(k[0] != "schema_version"@[0]);
    }
}

proof fn lemma_section_noop(m: Map<Seq<char>, TomlItem>, section: Section)
    requires
        table_has_all(m, section_key(section), section_defaults_of(section)),
    ensures
        add_table_defaults(m, section_key(section), section_defaults_of(section)) == Some((m, 0nat)),
{
    let k = section_key(section);
    let t = table_at(m, k)->0;
    lemma_add_defaults_noop(t, section_defaults_of(section));
    assert(m.insert(k, TomlItem::Table(t)) =~= m);
}

/// A file with a schema newer than this library's is refused, and nothing
/// in it changes.
pub proof fn newer_schema_is_refused_untouched(s: UpdState, interactive: bool, choice: HyperlinkChoice)
    requires
        schema_version_of(s.entries) > CURRENT_SCHEMA_VERSION,
    ensures
        migrated(s, interactive, choice) == (s, Outcome::TooNew(schema_version_of(s.entries))),
{
}

/// The five hyperlink settings of a table, each a boolean.
pub open spec fn link_switches(h: Map<Seq<char>, TomlItem>, enabled: bool, files: bool, dirs: bool, symlinks: bool, executables: bool) -> bool {
    &&& h.contains_key("enabled"@) && h["enabled"@] == TomlItem::Bool(enabled)
    &&& h.contains_key("files"@) && h["files"@] == TomlItem::Bool(files)
    &&& h.contains_key("dirs"@) && h["dirs"@] == TomlItem::Bool(dirs)
    &&& h.contains_key("symlinks"@) && h["symlinks"@] == TomlItem::Bool(symlinks)
    &&& h.contains_key("executables"@) && h["executables"@] == TomlItem::Bool(executables)
}

/// A key that the version 2 to 3 clean-up of `[hyperlinks]` does not take out.
pub open spec fn kept_by_clean_up(k: Seq<char>) -> bool {
    &&& k != "exclude_env"@
    &&& k != "underline_files"@
    &&& k != "underline_directories"@
    &&& k != "underline_symlinks"@
    &&& k != "directories"@
}

proof fn lemma_kept_by_clean_up(k: Seq<char>)
    requires
        k.len() >= 3,
        k[0] != 'u',
        k.len() != 11 || (k[0] != 'd' && k[2] != 'c'),
    ensures
        kept_by_clean_up(k),
{
    reveal_strlit("exclude_env");
    reveal_strlit("underline_files");
    reveal_strlit("underline_directories");
    reveal_strlit("underline_symlinks");
    reveal_strlit("directories");
    assert(k[0] != "underline_files"@[0]);
    assert(k[0] != "underline_directories"@[0]);
    assert(k[0] != "underline_symlinks"@[0]);
    assert(k.len() != "exclude_env"@.len() || k[2] != "exclude_env"@[2]);
    assert(k.len() != "directories"@.len() || k[0] != "directories"@[0]);
}

proof fn lemma_link_keys_distinct()
    ensures
        "enabled"@ != "files"@,
        "enabled"@ != "dirs"@,
        "enabled"@ != "symlinks"@,
        "enabled"@ != "executables"@,
        "files"@ != "dirs"@,
        "files"@ != "symlinks"@,
        "files"@ != "executables"@,
        "dirs"@ != "symlinks"@,
        "dirs"@ != "executables"@,
        "symlinks"@ != "executables"@,
        kept_by_clean_up("enabled"@),
        kept_by_clean_up("files"@),
        kept_by_clean_up("dirs"@),
        kept_by_clean_up("symlinks"@),
        kept_by_clean_up("executables"@),
        "hyperlinks"@ != "when_not_tty"@,
        "hyperlinks"@ != "exclude_env"@,
{
    reveal_strlit("enabled");
    reveal_strlit("files");
    reveal_strlit("dirs");
    reveal_strlit("symlinks");
    reveal_strlit("executables");
    reveal_strlit("exclude_env");
    reveal_strlit("underline_files");
    reveal_strlit("underline_directories");
    reveal_strlit("underline_symlinks");
    reveal_strlit("directories");
    reveal_strlit("hyperlinks");
    reveal_strlit("when_not_tty");
    assert("enabled"@[0] != "files"@[0]);
    assert("enabled"@[0] != "dirs"@[0]);
    assert("enabled"@[0] != "symlinks"@[0]);
    assert("enabled"@.len() != "executables"@.len());
    assert("files"@[0] != "dirs"@[0]);
    assert("files"@[0] != "symlinks"@[0]);
    assert("files"@[0] != "executables"@[0]);
    assert("dirs"@[0] != "symlinks"@[0]);
    assert("dirs"@[0] != "executables"@[0]);
    assert("symlinks"@[0] != "executables"@[0]);
    assert("hyperlinks"@[0] != "when_not_tty"@[0]);
    assert("hyperlinks"@[0] != "exclude_env"@[0]);
    lemma_kept_by_clean_up("enabled"@);
    lemma_kept_by_clean_up("files"@);
    lemma_kept_by_clean_up("dirs"@);
    lemma_kept_by_clean_up("symlinks"@);
    lemma_kept_by_clean_up("executables"@);
}

/// A `hyperlinks` boolean becomes a `[hyperlinks]` table that keeps the
/// switch: `true` gives enabled links for files, symbolic links and
/// executables but not directories; `false` gives links switched off, with
/// the same types kept when no question is asked, and otherwise what was
/// answered (every type off, the usual types kept, or each setting chosen).
pub proof fn boolean_hyperlinks_keep_their_switch(s: UpdState, interactive: bool, choice: HyperlinkChoice, b: bool)
    requires
        schema_version_of(s.entries) <= 1,
        hyperlinks_bool(s.entries) == Some(b),
        migrated(s, interactive, choice).1 is Done,
    ensures
        table_at(migrated(s, interactive, choice).0.entries, "hyperlinks"@) matches Some(h) && {
            &&& b ==> link_switches(h, true, true, false, true, true)
            &&& !b && !interactive ==> link_switches(h, false, true, false, true, true)
            &&& !b && interactive && choice == HyperlinkChoice::DisableAll ==> link_switches(h, false, false, false, false, false)
            &&& !b && interactive && choice == HyperlinkChoice::KeepTypes ==> link_switches(h, false, true, false, true, true)
            &&& !b && interactive ==> (choice matches HyperlinkChoice::Custom { enabled, files, dirs, symlinks, executables }
                ==> link_switches(h, enabled, files, dirs, symlinks, executables))
        },
{
    lemma_link_keys_distinct();
    lemma_section_keys_distinct();
    let d = schema_version_of(s.entries);
    let hk = "hyperlinks"@;
    let s1 = if d == 0 { migrate_0_to_1(s) } else { s };
    assert(s1.entries.contains_key(hk) && s1.entries[hk] == s.entries[hk]);
    assert(hyperlinks_bool(s1.entries) == Some(b));
    let f = hyperlink_flags(b, interactive, choice);
    let t = hyperlinks_table(f);
    assert(link_switches(t, f.0, f.1, f.2, f.3, f.4));
    assert(t.dom() =~= set!["enabled"@, "files"@, "dirs"@, "symlinks"@, "executables"@]);
    let s2 = migrate_1_to_2(s1, interactive, choice);
    assert(table_at(s2.entries, hk) == Some(t));
    let s3 = migrate_2_to_3(s2);
    let e1 = s2.entries.remove("exclude_env"@);
    assert(table_at(e1, hk) == Some(t));
    let (h2, r, c) = clean_hyperlinks(t, s2.report);
    assert(!t.contains_key("exclude_env"@));
    assert(t.remove("exclude_env"@) =~= t);
    assert(t.remove("underline_files"@).remove("underline_directories"@).remove("underline_symlinks"@) =~= t);
    assert(t.remove("directories"@) =~= t);
    assert(has_item(t, "executables"@));
    assert(h2 =~= t);
    assert(table_at(s3.entries, hk) == Some(t));
    let (m1, n1) = add_defaults(s3.entries, top_defaults());
    assert forall|i: int| 0 <= i < top_defaults().len() implies (#[trigger] top_defaults()[i]).0 != hk by {}
    lemma_add_defaults_other_key(s3.entries, top_defaults(), hk);
    assert(table_at(m1, hk) == Some(t));
    assert(has_all(t, hyperlinks_defaults()));
    lemma_add_defaults_noop(t, hyperlinks_defaults());
    let r_final = migrated(s, interactive, choice).0;
    assert(table_at(r_final.entries, hk) == Some(t));
}

/// A successful update leaves the configuration at the current schema with
/// every setting present, `[hyperlinks]`, `[long]` and `[when_not_tty]`
/// among them as tables.
pub proof fn update_reaches_current_schema(s: UpdState, interactive: bool, choice: HyperlinkChoice)
    requires
        migrated(s, interactive, choice).1 is Done,
    ensures
        up_to_date(migrated(s, interactive, choice).0.entries),
{
    lemma_section_keys_distinct();
    let d = schema_version_of(s.entries);
    let s1 = if d == 0 { migrate_0_to_1(s) } else { s };
    let s2 = if d <= 1 { migrate_1_to_2(s1, interactive, choice) } else { s1 };
    let s3 = if d <= 2 { migrate_2_to_3(s2) } else { s2 };
    let (m1, n1) = add_defaults(s3.entries, top_defaults());
    lemma_add_defaults_has_all(s3.entries, top_defaults());
    lemma_add_defaults_other_key(s3.entries, top_defaults(), "schema_version"@);
    let (t2, n2) = match entry_item(m1, "hyperlinks"@) {
        TomlItem::Table(t) => add_defaults(t, hyperlinks_defaults()),
        _ => (Map::empty(), 0),
    };
    let m2 = m1.insert("hyperlinks"@, TomlItem::Table(t2));
    if let TomlItem::Table(t) = entry_item(m1, "hyperlinks"@) {
        lemma_add_defaults_has_all(t, hyperlinks_defaults());
    }
    let (t3, n3) = match entry_item(m2, "long"@) {
        TomlItem::Table(t) => add_defaults(t, long_defaults()),
        _ => (Map::empty(), 0),
    };
    let m3 = m2.insert("long"@, TomlItem::Table(t3));
    if let TomlItem::Table(t) = entry_item(m2, "long"@) {
        lemma_add_defaults_has_all(t, long_defaults());
    }
    let (t4, n4) = match entry_item(m3, "when_not_tty"@) {
        TomlItem::Table(t) => add_defaults(t, when_not_tty_defaults()),
        _ => (Map::empty(), 0),
    };
    let m4 = m3.insert("when_not_tty"@, TomlItem::Table(t4));
    if let TomlItem::Table(t) = entry_item(m3, "when_not_tty"@) {
        lemma_add_defaults_has_all(t, when_not_tty_defaults());
    }
    let r = migrated(s, interactive, choice).0;
    assert(add_missing_fields(s3).1 is None);
    assert(has_all(m4, top_defaults())) by {
        assert forall|i: int| 0 <= i < top_defaults().len() implies has_item(m4, #[trigger] top_defaults()[i].0) by {
            assert(has_item(m1, top_defaults()[i].0));
        }
    }
    if d != CURRENT_SCHEMA_VERSION {
        assert(r.entries == m4.insert("schema_version"@, TomlItem::Integer(CURRENT_SCHEMA_VERSION as i64)));
        assert(has_all(r.entries, top_defaults())) by {
            assert forall|i: int| 0 <= i < top_defaults().len() implies has_item(r.entries, #[trigger] top_defaults()[i].0) by {
                assert(has_item(m4, top_defaults()[i].0));
            }
        }
        assert(schema_version_of(r.entries) == CURRENT_SCHEMA_VERSION);
    } else {
        assert(s3 == s);
        assert(r.entries == m4);
        assert(schema_version_of(m4) == schema_version_of(s.entries));
    }
}

/// Updating an up-to-date configuration changes nothing and reports nothing.
pub proof fn up_to_date_is_left_alone(s: UpdState, interactive: bool, choice: HyperlinkChoice)
    requires
        up_to_date(s.entries),
    ensures
        migrated(s, interactive, choice) == (s, Outcome::Done),
{
    lemma_add_defaults_noop(s.entries, top_defaults());
    let m = s.entries;
    if let Some(t) = table_at(m, "hyperlinks"@) {
        lemma_add_defaults_noop(t, hyperlinks_defaults());
        assert(m.insert("hyperlinks"@, TomlItem::Table(t)) =~= m);
    }
    if let Some(t) = table_at(m, "long"@) {
        lemma_add_defaults_noop(t, long_defaults());
        assert(m.insert("long"@, TomlItem::Table(t)) =~= m);
    }
    if let Some(t) = table_at(m, "when_not_tty"@) {
        lemma_add_defaults_noop(t, when_not_tty_defaults());
        assert(m.insert("when_not_tty"@, TomlItem::Table(t)) =~= m);
    }
    assert(add_missing_fields(s).0 == s);
}

/// Updating twice is updating once: after a successful update, another
/// changes nothing and reports nothing, whatever is answered.
pub proof fn update_is_idempotent(s: UpdState, interactive: bool, choice: HyperlinkChoice, interactive2: bool, choice2: HyperlinkChoice)
    requires
        migrated(s, interactive, choice).1 is Done,
    ensures
        migrated(migrated(s, interactive, choice).0, interactive2, choice2) == (migrated(s, interactive, choice).0, Outcome::Done),
{
    update_reaches_current_schema(s, interactive, choice);
    up_to_date_is_left_alone(migrated(s, interactive, choice).0, interactive2, choice2);
}

/// The report lines, each on a line of its own after a bullet.
pub open spec fn bullets(lines: Seq<Seq<char>>) -> Seq<char>
    decreases lines.len(),
{
    if lines.len() == 0 {
        Seq::<char>::empty()
    } else {
        bullets(lines.drop_last()) + "  \u{2022} "@ + lines.last() + "\n"@
    }
}

/// The text after an update: when it changed something, the changes under a
/// heading (when there are any) and the new schema version with the path,
/// as what would be written in a dry run; otherwise that the configuration
/// is up to date at the version it declared.
pub open spec fn summary_text(changed: bool, dry_run: bool, path: Seq<char>, report: Seq<Seq<char>>, detected: nat) -> Seq<char> {
    if changed {
        let changes = if report.len() == 0 {
            Seq::<char>::empty()
        } else {
            "\nChanges applied:\n"@ + bullets(report)
        };
        let head = if dry_run {
            "\n[dry-run] Config would be updated to schema version "@
        } else {
            "\nConfig updated to schema version "@
        };
        changes + head + decimal(CURRENT_SCHEMA_VERSION as nat) + ": "@ + path + "\n"@
    } else {
        "Config is up to date (schema version "@ + decimal(detected) + "). No changes needed.\n"@
    }
}

/// The answer to the hyperlink question from the answers given: the first
/// question picks all types off (0), the usual types (1) or each setting
/// (2), which the five follow-up questions answer, "y" (0) meaning on.
pub open spec fn choice_of(first: usize, enabled: usize, files: usize, dirs: usize, symlinks: usize, executables: usize) -> HyperlinkChoice {
    if first == 0 {
        HyperlinkChoice::DisableAll
    } else if first == 2 {
        HyperlinkChoice::Custom {
            enabled: enabled == 0,
            files: files == 0,
            dirs: dirs == 0,
            symlinks: symlinks == 0,
            executables: executables == 0,
        }
    } else {
        HyperlinkChoice::KeepTypes
    }
}

/// See `choice_of`.
pub fn hyperlink_choice(first: usize, enabled: usize, files: usize, dirs: usize, symlinks: usize, executables: usize) -> (r: HyperlinkChoice)
    ensures
        r == choice_of(first, enabled, files, dirs, symlinks, executables),
{
    if first == 0 {
        HyperlinkChoice::DisableAll
    } else if first == 2 {
        HyperlinkChoice::Custom {
            enabled: enabled == 0,
            files: files == 0,
            dirs: dirs == 0,
            symlinks: symlinks == 0,
            executables: executables == 0,
        }
    } else {
        HyperlinkChoice::KeepTypes
    }
}

/// A configuration file being brought to the current schema.
pub struct ConfigUpdater {
    path: String,
    doc: DocumentMut,
    interactive: bool,
    pub dry_run: bool,
    changed: bool,
    report: Vec<String>,
}

impl ConfigUpdater {
    /// The document, the report and whether anything changed.
    pub closed spec fn state(&self) -> UpdState {
        UpdState { entries: document_entries(self.doc), report: texts(self.report@), changed: self.changed }
    }

    /// The document itself, layout and comments included.
    pub closed spec fn spec_document(&self) -> DocumentMut {
        self.doc
    }

    pub closed spec fn spec_interactive(&self) -> bool {
        self.interactive
    }

    pub closed spec fn spec_dry_run(&self) -> bool {
        self.dry_run
    }

    pub closed spec fn spec_path(&self) -> Seq<char> {
        self.path@
    }

    /// Reads the configuration text of the file at `path`. Fails exactly when
    /// the text is not TOML.
    pub fn new(path: &str, content: &str, interactive: bool) -> (r: Result<Self, UpdateError>)
        ensures
            match r {
                Ok(u) => {
                    &&& parsed_document(content@) == Some(u.state().entries)
                    &&& u.state().report.len() == 0
                    &&& !u.state().changed
                    &&& !u.spec_dry_run()
                    &&& u.spec_interactive() == interactive
                    &&& u.spec_path() == path@
                },
                Err(e) => {
                    &&& parsed_document(content@) is None
                    &&& e matches UpdateError::Parse(p, _) && p@ == path@
                },
            },
    {
        match parse_document(content) {
            Ok(doc) => {
                let r = ConfigUpdater {
                    path: String::from_str(path),
                    doc,
                    interactive,
                    dry_run: false,
                    changed: false,
                    report: Vec::new(),
                };
                assert(texts(r.report@) =~= Seq::<Seq<char>>::empty());
                Ok(r)
            },
            Err(e) => Err(UpdateError::Parse(String::from_str(path), e)),
        }
    }

    /// The path of the file.
    pub fn path(&self) -> (r: &str)
        ensures
            r@ == self.spec_path(),
    {
        self.path.as_str()
    }

    /// Whether questions may be asked.
    pub fn interactive(&self) -> (r: bool)
        ensures
            r == self.spec_interactive(),
    {
        self.interactive
    }

    /// Whether the update changed the document.
    pub fn changed(&self) -> (r: bool)
        ensures
            r == self.state().changed,
    {
        self.changed
    }

    /// The changes made, one line each.
    pub fn report(&self) -> (r: &Vec<String>)
        ensures
            texts(r@) == self.state().report,
    {
        &self.report
    }

    /// The document, for writing back.
    pub fn document(&self) -> (r: &DocumentMut)
        ensures
            document_entries(*r) == self.state().entries,
    {
        &self.doc
    }

    /// The schema version the document declares (see `schema_version_of`).
    pub fn detect_version(&self) -> (r: u32)
        ensures
            r == schema_version_of(self.state().entries),
    {
        let t = document_table(&self.doc);
        match table_get(t, "schema_version") {
            Some(item) => match item_as_integer(item) {
                Some(v) => v as u32,
                None => 0,
            },
            None => 0,
        }
    }

    /// Whether the migration would ask how to convert switched-off
    /// hyperlinks: asking is allowed, the declared version is before 2, and
    /// `hyperlinks` is the boolean false.
    pub fn needs_hyperlink_choice(&self) -> (r: bool)
        ensures
            r == (self.spec_interactive() && schema_version_of(self.state().entries) <= 1
                && hyperlinks_bool(self.state().entries) == Some(false)),
    {
        if !self.interactive || self.detect_version() > 1 {
            return false;
        }
        let t = document_table(&self.doc);
        match table_get(t, "hyperlinks") {
            Some(item) => item_as_bool(item) == Some(false),
            None => false,
        }
    }

    /// What an update prints after migrating: the changes, when there are
    /// any, then the outcome (see `summary_text`), given the version the
    /// document declared before.
    pub fn summary(&self, detected: u32) -> (r: String)
        ensures
            r@ == summary_text(self.state().changed, self.spec_dry_run(), self.spec_path(), self.state().report, detected as nat),
    {
        proof {
            reveal_strlit("\n");
        }
        let mut s = String::new();
        if self.changed && self.report.len() > 0 {
            s.append("\nChanges applied:\n");
            let n = self.report.len();
            let mut i: usize = 0;
            while i < n
                invariant
                    n == self.report@.len(),
                    i <= n,
                    s@ == "\nChanges applied:\n"@ + bullets(texts(self.report@).take(i as int)),
                decreases n - i,
            {
                let ghost prev = s@;
                s.append("  \u{2022} ");
                s.append(self.report[i].as_str());
                push_char(&mut s, '\n');
                proof {
                    reveal_strlit("\n");
                    let ts = texts(self.report@);
                    assert(ts.take(i + 1).drop_last() =~= ts.take(i as int));
                    assert(ts.take(i + 1).last() == self.report@[i as int]@);
                    assert(s@ =~= "\nChanges applied:\n"@ + bullets(ts.take(i + 1)));
                }
                i = i + 1;
            }
            assert(texts(self.report@).take(n as int) =~= texts(self.report@));
        }
        if self.changed {
            if self.dry_run {
                s.append("\n[dry-run] Config would be updated to schema version ");
            } else {
                s.append("\nConfig updated to schema version ");
            }
            push_decimal(&mut s, CURRENT_SCHEMA_VERSION as u64);
            s.append(": ");
            s.append(self.path.as_str());
            push_char(&mut s, '\n');
        } else {
            s.append("Config is up to date (schema version ");
            push_decimal(&mut s, detected as u64);
            s.append("). No changes needed.\n");
        }
        s
    }

    fn push_report(&mut self, line: &str)
        ensures
            final(self).state() == (UpdState { report: old(self).state().report.push(line@), ..old(self).state() }),
            final(self).spec_interactive() == old(self).spec_interactive(),
            final(self).spec_path() == old(self).spec_path(),
            final(self).spec_dry_run() == old(self).spec_dry_run(),
    {
        let ghost prev = self.report@;
        let s = String::from_str(line);
        self.report.push(s);
        proof {
            assert(self.report@ == prev.push(s));
            assert(texts(self.report@) =~= texts(prev).push(line@));
        }
    }

    fn migrate_0_to_1(&mut self)
        ensures
            final(self).state() == migrate_0_to_1(old(self).state()),
            final(self).spec_interactive() == old(self).spec_interactive(),
            final(self).spec_path() == old(self).spec_path(),
            final(self).spec_dry_run() == old(self).spec_dry_run(),
    {
        let mut migrated = false;
        let ghost m0 = document_entries(self.doc);
        let doc_t = document_table_mut(&mut self.doc);
        match table_get_mut(doc_t, "when_not_tty") {
            Some(item) => match item_as_table_mut(item) {
                Some(t) => {
                    migrated = when_not_tty_0_to_1_exec(t);
                },
                None => {},
            },
            None => {},
        }
        proof {
            let e = document_entries(self.doc);
            match table_at(m0, "when_not_tty"@) {
                Some(t) => {
                    assert(e == m0.insert("when_not_tty"@, TomlItem::Table(when_not_tty_0_to_1(t).0)));
                },
                None => {
                    assert(e =~= m0);
                },
            }
        }
        if migrated {
            self.push_report(MSG_NO_ICONS_COLOR);
            self.changed = true;
        }
    }

    fn migrate_1_to_2(&mut self, choice: HyperlinkChoice)
        ensures
            final(self).state() == migrate_1_to_2(old(self).state(), old(self).spec_interactive(), choice),
            final(self).spec_interactive() == old(self).spec_interactive(),
            final(self).spec_path() == old(self).spec_path(),
            final(self).spec_dry_run() == old(self).spec_dry_run(),
    {
        let hb = match table_get(document_table(&self.doc), "hyperlinks") {
            Some(item) => item_as_bool(item),
            None => None,
        };
        if let Some(h) = hb {
            let flags = if h {
                (true, true, false, true, true)
            } else if self.interactive {
                match choice {
                    HyperlinkChoice::DisableAll => (false, false, false, false, false),
                    HyperlinkChoice::KeepTypes => (false, true, false, true, true),
                    HyperlinkChoice::Custom { enabled, files, dirs, symlinks, executables } => (enabled, files, dirs, symlinks, executables),
                }
            } else {
                (false, true, false, true, true)
            };
            let doc_t = document_table_mut(&mut self.doc);
            table_remove(doc_t, "hyperlinks");
            table_insert(doc_t, "hyperlinks", table_item(hyperlinks_table_exec(flags)));
            self.push_report(MSG_HYPERLINKS_TABLE);
            self.changed = true;
        }
    }

    fn migrate_2_to_3(&mut self)
        ensures
            final(self).state() == migrate_2_to_3(old(self).state()),
            final(self).spec_interactive() == old(self).spec_interactive(),
            final(self).spec_path() == old(self).spec_path(),
            final(self).spec_dry_run() == old(self).spec_dry_run(),
    {
        let ghost s0 = self.state();
        let mut changed = false;
        let doc_t = document_table_mut(&mut self.doc);
        if table_remove(doc_t, "exclude_env").is_some() {
            push_line(&mut self.report, MSG_EXCLUDE_ENV);
            changed = true;
        }
        let ghost e1 = table_entries(*doc_t);
        let ghost r1 = texts(self.report@);
        match table_get_mut(doc_t, "hyperlinks") {
            Some(item) => match item_as_table_mut(item) {
                Some(h) => {
                    if clean_hyperlinks_exec(h, &mut self.report) {
                        changed = true;
                    }
                },
                None => {},
            },
            None => {},
        }
        let ghost e2 = table_entries(*doc_t);
        let ghost r2 = texts(self.report@);
        proof {
            match table_at(e1, "hyperlinks"@) {
                Some(h) => {
                    assert(e2 == e1.insert("hyperlinks"@, TomlItem::Table(clean_hyperlinks(h, r1).0)));
                },
                None => {
                    assert(e2 =~= e1);
                    assert(r2 == r1);
                },
            }
        }
        match table_get_mut(doc_t, "when_not_tty") {
            Some(item) => match item_as_table_mut(item) {
                Some(w) => {
                    if table_remove(w, "hyperlinks").is_some() {
                        push_line(&mut self.report, MSG_WHEN_NOT_TTY_HYPERLINKS);
                        changed = true;
                    }
                },
                None => {},
            },
            None => {},
        }
        proof {
            let e3 = document_entries(self.doc);
            match table_at(e2, "when_not_tty"@) {
                Some(w) => {
                    assert(e3 == e2.insert("when_not_tty"@, TomlItem::Table(w.remove("hyperlinks"@))));
                },
                None => {
                    assert(e3 =~= e2);
                },
            }
        }
        if changed {
            self.changed = true;
        }
    }

    fn add_missing_fields(&mut self) -> (r: Result<(), UpdateError>)
        ensures
            final(self).state() == add_missing_fields(old(self).state()).0,
            match r {
                Ok(()) => add_missing_fields(old(self).state()).1 is None,
                Err(e) => e matches UpdateError::NotATable(k) && add_missing_fields(old(self).state()).1 == Some(k@),
            },
            final(self).spec_interactive() == old(self).spec_interactive(),
            final(self).spec_path() == old(self).spec_path(),
            final(self).spec_dry_run() == old(self).spec_dry_run(),
            has_every_setting(old(self).state().entries) ==> final(self).spec_document() == old(self).spec_document(),
    {
        let ghost m = document_entries(self.doc);
        proof {
            if has_every_setting(m) {
                lemma_add_defaults_noop(m, top_defaults());
                lemma_section_noop(m, Section::Hyperlinks);
                lemma_section_noop(m, Section::Long);
                lemma_section_noop(m, Section::WhenNotTty);
            }
        }
        let doc_t = document_table_mut(&mut self.doc);
        let added = add_top_defaults(doc_t);
        let n2 = match section_defaults(doc_t, Section::Hyperlinks) {
            Some(n) => n,
            None => {
                return Err(UpdateError::NotATable(String::from_str("hyperlinks")));
            },
        };
        let n3 = match section_defaults(doc_t, Section::Long) {
            Some(n) => n,
            None => {
                return Err(UpdateError::NotATable(String::from_str("long")));
            },
        };
        let n4 = match section_defaults(doc_t, Section::WhenNotTty) {
            Some(n) => n,
            None => {
                return Err(UpdateError::NotATable(String::from_str("when_not_tty")));
            },
        };
        let total = added + n2 + n3 + n4;
        if total > 0 {
            let mut line = String::from_str("Added ");
            push_decimal(&mut line, total as u64);
            line.append(" new fields with default values");
            proof {
                assert(line@ == added_message(total as nat));
            }
            self.push_report(line.as_str());
            self.changed = true;
        }
        Ok(())
    }

    /// Brings the document to the current schema (see `migrated`): `choice`
    /// answers the question about switched-off hyperlinks when questions may
    /// be asked.
    pub fn apply_migrations(&mut self, choice: HyperlinkChoice) -> (r: Result<(), UpdateError>)
        ensures
            final(self).state() == migrated(old(self).state(), old(self).spec_interactive(), choice).0,
            match r {
                Ok(()) => migrated(old(self).state(), old(self).spec_interactive(), choice).1 is Done,
                Err(e) => match e {
                    UpdateError::NewerSchema(d) => migrated(old(self).state(), old(self).spec_interactive(), choice).1 == Outcome::TooNew(d),
                    UpdateError::NotATable(k) => migrated(old(self).state(), old(self).spec_interactive(), choice).1 == Outcome::NotATable(k@),
                    UpdateError::Parse(_, _) => false,
                },
            },
            final(self).spec_interactive() == old(self).spec_interactive(),
            final(self).spec_path() == old(self).spec_path(),
            final(self).spec_dry_run() == old(self).spec_dry_run(),
            schema_version_of(old(self).state().entries) > CURRENT_SCHEMA_VERSION ==> final(self).spec_document()
                == old(self).spec_document(),
            up_to_date(old(self).state().entries) ==> final(self).spec_document() == old(self).spec_document(),
    {
        let detected = self.detect_version();
        if detected > CURRENT_SCHEMA_VERSION {
            return Err(UpdateError::NewerSchema(detected));
        }
        if detected == 0 {
            self.migrate_0_to_1();
        }
        if detected <= 1 {
            self.migrate_1_to_2(choice);
        }
        if detected <= 2 {
            self.migrate_2_to_3();
        }
        self.add_missing_fields()?;
        if detected != CURRENT_SCHEMA_VERSION {
            let doc_t = document_table_mut(&mut self.doc);
            table_insert(doc_t, "schema_version", integer_item(CURRENT_SCHEMA_VERSION as i64));
            set_key_prefix(doc_t, "schema_version", "\n# Config schema version\n");
            self.changed = true;
        }
        Ok(())
    }
}

/// The tables that get defaults.
pub enum Section {
    Hyperlinks,
    Long,
    WhenNotTty,
}

/// The key of a section.
pub open spec fn section_key(s: Section) -> Seq<char> {
    match s {
        Section::Hyperlinks => "hyperlinks"@,
        Section::Long => "long"@,
        Section::WhenNotTty => "when_not_tty"@,
    }
}

/// The defaults of a section.
pub open spec fn section_defaults_of(s: Section) -> Seq<(Seq<char>, TomlItem)> {
    match s {
        Section::Hyperlinks => hyperlinks_defaults(),
        Section::Long => long_defaults(),
        Section::WhenNotTty => when_not_tty_defaults(),
    }
}

fn add_top_defaults(t: &mut toml_edit::Table) -> (n: usize)
    ensures
        (table_entries(*final(t)), n as nat) == add_defaults(table_entries(*old(t)), top_defaults()),
        n <= 5,
        has_all(table_entries(*old(t)), top_defaults()) ==> *final(t) == *old(t),
{
    proof {
        if has_all(table_entries(*t), top_defaults()) {
            assert(has_item(table_entries(*t), top_defaults()[0].0));
            assert(has_item(table_entries(*t), top_defaults()[1].0));
            assert(has_item(table_entries(*t), top_defaults()[2].0));
            assert(has_item(table_entries(*t), top_defaults()[3].0));
            assert(has_item(table_entries(*t), top_defaults()[4].0));
        }
    }
    let mut added: usize = 0;
    if add_default(t, "icons", bool_item(true), "\n# Display icons next to file names (requires Nerd Font)\n") {
        added = added + 1;
    }
    if add_default(t, "color", bool_item(true), "\n# Use colors in output\n") {
        added = added + 1;
    }
    if add_default(t, "git_ignore", bool_item(true), "\n# Respect .gitignore files\n") {
        added = added + 1;
    }
    let no_strings: Vec<&str> = Vec::new();
    assert(no_strings@.map_values(|s: &str| s@) =~= Seq::<Seq<char>>::empty());
    if add_default(t, "ignore", strings_item(&no_strings), "\n# Global ignore patterns (glob)\n# Example: ignore = [\"*.json\", \"node_modules\", \"bin\"]\n") {
        added = added + 1;
    }
    if add_default(t, "classify", bool_item(false), "\n# Append indicator (one of /) to directories\n") {
        added = added + 1;
    }
    proof {
        reveal_with_fuel(add_defaults, 6);
    }
    added
}

fn hyperlinks_defaults_exec(h: &mut toml_edit::Table) -> (n: usize)
    ensures
        (table_entries(*final(h)), n as nat) == add_defaults(table_entries(*old(h)), hyperlinks_defaults()),
        n <= 5,
        has_all(table_entries(*old(h)), hyperlinks_defaults()) ==> *final(h) == *old(h),
{
    proof {
        if has_all(table_entries(*h), hyperlinks_defaults()) {
            assert(has_item(table_entries(*h), hyperlinks_defaults()[0].0));
            assert(has_item(table_entries(*h), hyperlinks_defaults()[1].0));
            assert(has_item(table_entries(*h), hyperlinks_defaults()[2].0));
            assert(has_item(table_entries(*h), hyperlinks_defaults()[3].0));
            assert(has_item(table_entries(*h), hyperlinks_defaults()[4].0));
        }
    }
    let mut n: usize = 0;
    if add_default(h, "enabled", bool_item(true), "\n# Master switch: enable clickable OSC 8 hyperlinks in supported terminals\n") {
        n = n + 1;
    }
    if add_default(h, "files", bool_item(true), "\n# Control which entry types get hyperlinks\n") {
        n = n + 1;
    }
    if add_default(h, "dirs", bool_item(false), "# disabled: clicking a dir opens it in a file manager\n") {
        n = n + 1;
    }
    if add_default(h, "symlinks", bool_item(true), "") {
        n = n + 1;
    }
    if add_default(h, "executables", bool_item(true), "") {
        n = n + 1;
    }
    proof {
        reveal_with_fuel(add_defaults, 6);
    }
    n
}

fn long_defaults_exec(l: &mut toml_edit::Table) -> (n: usize)
    ensures
        (table_entries(*final(l)), n as nat) == add_defaults(table_entries(*old(l)), long_defaults()),
        n <= 3,
        has_all(table_entries(*old(l)), long_defaults()) ==> *final(l) == *old(l),
{
    proof {
        if has_all(table_entries(*l), long_defaults()) {
            assert(has_item(table_entries(*l), long_defaults()[0].0));
            assert(has_item(table_entries(*l), long_defaults()[1].0));
            assert(has_item(table_entries(*l), long_defaults()[2].0));
        }
    }
    let mut n: usize = 0;
    if add_default(l, "headers", bool_item(true), "\n# Display column headers in long listing format\n") {
        n = n + 1;
    }
    if add_default(l, "autohide_columns", bool_item(true), "\n# Automatically hide columns that are empty for all shown entries (e.g., Git column if no changes)\n") {
        n = n + 1;
    }
    let names = vec!["git", "permissions", "links", "owner", "group", "size", "date", "name"];
    assert(names@.map_values(|s: &str| s@) =~= column_names());
    if add_default(l, "columns", strings_item(&names), "\n# Columns to display in long listing format.\n# Available columns: git, permissions, links, owner, group, size, date, name\n") {
        n = n + 1;
    }
    proof {
        reveal_with_fuel(add_defaults, 4);
    }
    n
}

fn when_not_tty_defaults_exec(w: &mut toml_edit::Table) -> (n: usize)
    ensures
        (table_entries(*final(w)), n as nat) == add_defaults(table_entries(*old(w)), when_not_tty_defaults()),
        n <= 3,
        has_all(table_entries(*old(w)), when_not_tty_defaults()) ==> *final(w) == *old(w),
{
    proof {
        if has_all(table_entries(*w), when_not_tty_defaults()) {
            assert(has_item(table_entries(*w), when_not_tty_defaults()[0].0));
            assert(has_item(table_entries(*w), when_not_tty_defaults()[1].0));
            assert(has_item(table_entries(*w), when_not_tty_defaults()[2].0));
        }
    }
    let mut n: usize = 0;
    if add_default(w, "icons", bool_item(false), "\n# Configuration for when output is redirected (e.g., to a file or pipe)\n") {
        n = n + 1;
    }
    if add_default(w, "color", bool_item(false), "") {
        n = n + 1;
    }
    if add_default(w, "one_per_line", bool_item(true), "") {
        n = n + 1;
    }
    proof {
        reveal_with_fuel(add_defaults, 4);
    }
    n
}

/// Adds a section's defaults to its table (see `add_table_defaults`);
/// `None`, with nothing changed, when the key holds something other than a
/// table.
fn section_defaults(t: &mut toml_edit::Table, section: Section) -> (r: Option<usize>)
    ensures
        match r {
            Some(n) => n <= 5 && add_table_defaults(table_entries(*old(t)), section_key(section), section_defaults_of(section))
                == Some((table_entries(*final(t)), n as nat)),
            None => add_table_defaults(table_entries(*old(t)), section_key(section), section_defaults_of(section)) is None
                && table_entries(*final(t)) == table_entries(*old(t)),
        },        table_has_all(table_entries(*old(t)), section_key(section), section_defaults_of(section)) ==> *final(t) == *old(t),
{
    let ghost m = table_entries(*t);
    let key = match section {
        Section::Hyperlinks => "hyperlinks",
        Section::Long => "long",
        Section::WhenNotTty => "when_not_tty",
    };
    assert(key@ == section_key(section));
    let item = table_entry_or_new_table(t, key);
    match item_as_table_mut(item) {
        Some(tb) => {
            let n = match section {
                Section::Hyperlinks => hyperlinks_defaults_exec(tb),
                Section::Long => long_defaults_exec(tb),
                Section::WhenNotTty => when_not_tty_defaults_exec(tb),
            };
            Some(n)
        },
        None => {
            proof {
                assert(table_entries(*t) =~= m);
            }
            None
        },
    }
}

/// The first option whose lower-cased text is `t`.
pub open spec fn exact_option(options: Seq<Seq<char>>, t: Seq<char>, k: int) -> Option<int>
    decreases k,
{
    if k <= 0 {
        None
    } else {
        match exact_option(options, t, k - 1) {
            Some(i) => Some(i),
            None => if lowercase(options[k - 1]) == t { Some(k - 1) } else { None },
        }
    }
}

/// The first option whose lower-cased text begins with `t`.
pub open spec fn prefix_option(options: Seq<Seq<char>>, t: Seq<char>, k: int) -> Option<int>
    decreases k,
{
    if k <= 0 {
        None
    } else {
        match prefix_option(options, t, k - 1) {
            Some(i) => Some(i),
            None => {
                let o = lowercase(options[k - 1]);
                if t.len() <= o.len() && o.take(t.len() as int) == t {
                    Some(k - 1)
                } else {
                    None
                }
            },
        }
    }
}

/// The option an answer picks: the default for an empty answer, else the
/// first option equal to the answer, else the first one it begins (both
/// trimmed and lower-cased); `None` for an answer that picks none.
pub open spec fn picked_option(input: Seq<char>, options: Seq<Seq<char>>, default: int) -> Option<int> {
    let t = lowercase(trimmed(input));
    if t.len() == 0 {
        Some(default)
    } else {
        match exact_option(options, t, options.len() as int) {
            Some(i) => Some(i),
            None => prefix_option(options, t, options.len() as int),
        }
    }
}

/// The texts of a sequence of string slices.
pub open spec fn str_texts(v: Seq<&str>) -> Seq<Seq<char>> {
    v.map_values(|o: &str| o@)
}

proof fn lemma_exact_stays(options: Seq<Seq<char>>, t: Seq<char>, k: int, j: int)
    requires
        0 <= k <= j,
        exact_option(options, t, k) is Some,
    ensures
        exact_option(options, t, j) == exact_option(options, t, k),
    decreases j - k,
{
    if j > k {
        lemma_exact_stays(options, t, k, j - 1);
    }
}

proof fn lemma_prefix_stays(options: Seq<Seq<char>>, t: Seq<char>, k: int, j: int)
    requires
        0 <= k <= j,
        prefix_option(options, t, k) is Some,
    ensures
        prefix_option(options, t, j) == prefix_option(options, t, k),
    decreases j - k,
{
    if j > k {
        lemma_prefix_stays(options, t, k, j - 1);
    }
}

/// The option an answer to a question picks (see `picked_option`).
pub fn choose_option(input: &str, options: &Vec<&str>, default: usize) -> (r: Option<usize>)
    ensures
        match r {
            Some(i) => picked_option(input@, str_texts(options@), default as int) == Some(i as int),
            None => picked_option(input@, str_texts(options@), default as int) is None,
        },
{
    let ghost opts = str_texts(options@);
    let trimmed_input = trim(input);
    let t = to_lowercase(trimmed_input.as_str());
    if t.as_str().unicode_len() == 0 {
        return Some(default);
    }
    let n = options.len();
    let mut i: usize = 0;
    while i < n
        invariant
            n == options@.len(),
            opts == str_texts(options@),
            t@ == lowercase(trimmed(input@)),
            t@.len() != 0,
            i <= n,
            exact_option(opts, t@, i as int) is None,
        decreases n - i,
    {
        let o = to_lowercase(options[i]);
        assert(opts[i as int] == options@[i as int]@);
        if text_eq(o.as_str(), t.as_str()) {
            proof {
                lemma_exact_stays(opts, t@, i + 1, n as int);
            }
            return Some(i);
        }
        i = i + 1;
    }
    let mut i: usize = 0;
    while i < n
        invariant
            n == options@.len(),
            opts == str_texts(options@),
            t@ == lowercase(trimmed(input@)),
            t@.len() != 0,
            exact_option(opts, t@, n as int) is None,
            i <= n,
            prefix_option(opts, t@, i as int) is None,
        decreases n - i,
    {
        let o = to_lowercase(options[i]);
        assert(opts[i as int] == options@[i as int]@);
        if starts_with(o.as_str(), t.as_str()) {
            proof {
                lemma_prefix_stays(opts, t@, i + 1, n as int);
            }
            return Some(i);
        }
        i = i + 1;
    }
    None
}

/// Puts `item` under `key` where the key holds nothing, with `prefix` (a
/// comment) before the key when it is not empty; says whether it did.
fn add_default(t: &mut toml_edit::Table, key: &str, item: toml_edit::Item, prefix: &str) -> (added: bool)
    ensures
        added == !has_item(table_entries(*old(t)), key@),
        table_entries(*final(t)) == if added {
            table_entries(*old(t)).insert(key@, item_model(item))
        } else {
            table_entries(*old(t))
        },
        !added ==> *final(t) == *old(t),
{
    if table_contains_key(t, key) {
        return false;
    }
    table_insert(t, key, item);
    if prefix.unicode_len() > 0 {
        set_key_prefix(t, key, prefix);
    }
    true
}


fn hyperlinks_table_exec(f: (bool, bool, bool, bool, bool)) -> (r: toml_edit::Table)
    ensures
        table_entries(r) == hyperlinks_table(f),
{
    let mut t = new_table();
    table_insert(&mut t, "enabled", bool_item(f.0));
    table_insert(&mut t, "files", bool_item(f.1));
    table_insert(&mut t, "dirs", bool_item(f.2));
    table_insert(&mut t, "symlinks", bool_item(f.3));
    table_insert(&mut t, "executables", bool_item(f.4));
    t
}

fn clean_hyperlinks_exec(h: &mut toml_edit::Table, report: &mut Vec<String>) -> (c: bool)
    ensures
        (table_entries(*final(h)), texts(final(report)@), c) == clean_hyperlinks(table_entries(*old(h)), texts(old(report)@)),
{
    let mut changed = false;
    if table_remove(h, "exclude_env").is_some() {
        push_line(report, MSG_EXCLUDE_ENV);
        changed = true;
    }
    let mut removed_underlines = false;
    if table_remove(h, "underline_files").is_some() {
        removed_underlines = true;
    }
    if table_remove(h, "underline_directories").is_some() {
        removed_underlines = true;
    }
    if table_remove(h, "underline_symlinks").is_some() {
        removed_underlines = true;
    }
    if removed_underlines {
        push_line(report, MSG_UNDERLINES);
        changed = true;
    }
    if let Some(dirs_val) = table_remove(h, "directories") {
        table_insert(h, "dirs", dirs_val);
        push_line(report, MSG_DIRS_RENAMED);
        changed = true;
    }
    if !table_contains_key(h, "executables") {
        table_insert(h, "executables", bool_item(true));
        push_line(report, MSG_EXECUTABLES_ADDED);
        changed = true;
    }
    changed
}

fn push_line(report: &mut Vec<String>, line: &str)
    ensures
        texts(final(report)@) == texts(old(report)@).push(line@),
{
    let ghost prev = report@;
    let s = String::from_str(line);
    report.push(s);
    proof {
        assert(report@ == prev.push(s));
        assert(texts(report@) =~= texts(prev).push(line@));
    }
}

fn when_not_tty_0_to_1_exec(t: &mut toml_edit::Table) -> (migrated: bool)
    ensures
        (table_entries(*final(t)), migrated) == when_not_tty_0_to_1(table_entries(*old(t))),
{
    let mut migrated = false;
    if let Some(no_icons) = table_remove(t, "no_icons") {
        if let Some(b) = item_as_bool(&no_icons) {
            table_insert(t, "icons", bool_item(!b));
            migrated = true;
        }
    }
    if let Some(no_color) = table_remove(t, "no_color") {
        if let Some(b) = item_as_bool(&no_color) {
            table_insert(t, "color", bool_item(!b));
            migrated = true;
        }
    }
    migrated
}

} // verus!
