//! The tree view: every entry on a line below its parent, drawn with box
//! characters, optionally after the metadata columns of the long listing.
use vstd::prelude::*;
use crate::display::DisplayOptions;
use crate::display::formatter::{
    cell_ok, is_bidi_char, is_control_char, lemma_plain_cell_safe, lemma_safe_concat, plain_options, system_texts_safe,
    terminal_safe, Cell, Column, ColumnFormatter,
};
use crate::display::grid::{lemma_line_breaks_add, line_breaks, safe_lines};
use crate::display::long::{
    column_width, column_widths, header_label, header_text, lemma_safe_line, lemma_spaces_safe, push_pad, right_aligned,
    sub_sat, table_ok, table_shape, table_view,
};
use crate::fs::entry::Entry;
use crate::text::{push_char, spaces};
use crate::theme::Theme;
use crate::theme::colors::{underline, underlined};

verus! {

pub const VERTICAL: &'static str = "\u{2502}";
pub const BRANCH: &'static str = "\u{251c}";
pub const LAST_BRANCH: &'static str = "\u{2514}";
pub const HORIZONTAL: &'static str = "\u{2500}";

/// One line of the tree: the drawing before it, whether the entry is the last
/// of its siblings, and the entry.
pub struct TreeLine {
    pub prefix: Seq<char>,
    pub last: bool,
    pub entry: Entry,
}

/// The drawing before the children of an entry.
pub open spec fn child_prefix(prefix: Seq<char>, last: bool) -> Seq<char> {
    if last {
        prefix + seq![' ', ' ', ' ', ' ']
    } else {
        prefix + seq!['\u{2502}', ' ', ' ', ' ']
    }
}

/// The lines of the first `k` entries of a sibling list, depth first.
pub open spec fn flat_seq(es: Seq<Entry>, prefix: Seq<char>, k: int) -> Seq<TreeLine>
    decreases es, k,
{
    if k <= 0 || k > es.len() {
        Seq::<TreeLine>::empty()
    } else {
        flat_seq(es, prefix, k - 1) + flat_entry(es[k - 1], prefix, k - 1 == es.len() - 1)
    }
}

/// The line of an entry followed by the lines of its children.
pub open spec fn flat_entry(e: Entry, prefix: Seq<char>, last: bool) -> Seq<TreeLine>
    decreases e, 0int,
{
    seq![TreeLine { prefix, last, entry: e }] + match e.children {
        Some(c) => {
            proof {
                assert(decreases_to!(e => e.children));
                assert(decreases_to!(e.children => c));
                assert(decreases_to!(c => c@));
            }
            flat_seq(c@, child_prefix(prefix, last), c@.len() as int)
        },
        None => Seq::<TreeLine>::empty(),
    }
}

/// All lines of a tree.
pub open spec fn tree_lines(es: Seq<Entry>) -> Seq<TreeLine> {
    flat_seq(es, Seq::<char>::empty(), es.len() as int)
}

/// Some entry among the first `k` siblings or below them has a Git status.
pub open spec fn seq_has_status(es: Seq<Entry>, k: int) -> bool
    decreases es, k,
{
    if k <= 0 || k > es.len() {
        false
    } else {
        seq_has_status(es, k - 1) || entry_has_status(es[k - 1])
    }
}

/// The entry or an entry below it has a Git status.
pub open spec fn entry_has_status(e: Entry) -> bool
    decreases e, 0int,
{
    e.git_status is Some || match e.children {
        Some(c) => {
            proof {
                assert(decreases_to!(e => e.children));
                assert(decreases_to!(e.children => c));
                assert(decreases_to!(c => c@));
            }
            seq_has_status(c@, c@.len() as int)
        },
        None => false,
    }
}

/// Autohide leaves out a column other than Name when there are no entries,
/// and the Git column when no entry of the tree has a status.
pub open spec fn tree_column_empty(c: Column, es: Seq<Entry>) -> bool {
    c != Column::Name && (es.len() == 0 || (c == Column::Git && !seq_has_status(es, es.len() as int)))
}

/// The columns kept by autohide.
pub open spec fn tree_kept(es: Seq<Entry>) -> spec_fn(Column) -> bool {
    |c: Column| !tree_column_empty(c, es)
}

/// The columns of the tree view after autohide.
pub open spec fn tree_columns(columns: Seq<Column>, es: Seq<Entry>, autohide: bool) -> Seq<Column> {
    if autohide {
        columns.filter(tree_kept(es))
    } else {
        columns
    }
}

/// Not the Name column.
pub open spec fn not_name() -> spec_fn(Column) -> bool {
    |c: Column| c != Column::Name
}

/// The metadata columns: the shown columns other than Name.
pub open spec fn meta_columns(active: Seq<Column>) -> Seq<Column> {
    active.filter(not_name())
}

/// One header label of the tree view.
pub open spec fn tree_header_piece(c: Column, w: int, color: bool) -> Seq<char> {
    let label = header_label(c);
    let content = if color { underlined(label) } else { label };
    let pad = spaces(sub_sat(w, label.len() as int));
    if right_aligned(c) {
        pad + content + seq![' ']
    } else {
        content + pad + seq![' ']
    }
}

/// One metadata cell of the tree view.
pub open spec fn tree_cell_piece(c: Column, cell: Cell, w: int) -> Seq<char> {
    let pad = spaces(sub_sat(w, cell.width as int));
    if right_aligned(c) {
        pad + cell.content@ + seq![' ']
    } else {
        cell.content@ + seq![' '] + pad
    }
}

/// The first `k` header labels.
pub open spec fn tree_header_prefix(t: Seq<Seq<Cell>>, meta: Seq<Column>, color: bool, k: int) -> Seq<char>
    decreases k,
{
    if k <= 0 {
        Seq::<char>::empty()
    } else {
        tree_header_prefix(t, meta, color, k - 1) + tree_header_piece(meta[k - 1], column_width(t, meta, meta[k - 1]), color)
    }
}

/// The first `k` metadata cells of line `r`.
pub open spec fn tree_meta_prefix(t: Seq<Seq<Cell>>, meta: Seq<Column>, r: int, k: int) -> Seq<char>
    decreases k,
{
    if k <= 0 {
        Seq::<char>::empty()
    } else {
        tree_meta_prefix(t, meta, r, k - 1) + tree_cell_piece(meta[k - 1], t[r][k - 1], column_width(t, meta, meta[k - 1]))
    }
}

/// The branch drawing of a line.
pub open spec fn branch_of(last: bool) -> Seq<char> {
    if last {
        seq!['\u{2514}', '\u{2500}', '\u{2500}', ' ']
    } else {
        seq!['\u{251c}', '\u{2500}', '\u{2500}', ' ']
    }
}

/// Line `r`: its metadata cells in the long view, the tree drawing, the name cell.
pub open spec fn tree_line_text(lines: Seq<TreeLine>, t: Seq<Seq<Cell>>, names: Seq<Cell>, meta: Seq<Column>, long_view: bool, r: int) -> Seq<char> {
    (if long_view { tree_meta_prefix(t, meta, r, meta.len() as int) } else { Seq::<char>::empty() })
        + lines[r].prefix + branch_of(lines[r].last) + names[r].content@ + seq!['\n']
}

/// The first `r` lines.
pub open spec fn tree_lines_text(lines: Seq<TreeLine>, t: Seq<Seq<Cell>>, names: Seq<Cell>, meta: Seq<Column>, long_view: bool, r: int) -> Seq<char>
    decreases r,
{
    if r <= 0 {
        Seq::<char>::empty()
    } else {
        tree_lines_text(lines, t, names, meta, long_view, r - 1) + tree_line_text(lines, t, names, meta, long_view, r - 1)
    }
}

/// The tree view of the lines, given the metadata cells `t` and the name cells.
pub open spec fn tree_text(lines: Seq<TreeLine>, t: Seq<Seq<Cell>>, names: Seq<Cell>, meta: Seq<Column>, headers: bool, long_view: bool, color: bool) -> Seq<char> {
    (if headers && long_view {
        tree_header_prefix(t, meta, color, meta.len() as int) + seq!['\n']
    } else {
        Seq::<char>::empty()
    }) + tree_lines_text(lines, t, names, meta, long_view, lines.len() as int)
}

/// The entries of the lines.
pub open spec fn line_entries(lines: Seq<TreeLine>) -> Seq<Entry> {
    lines.map_values(|l: TreeLine| l.entry)
}

/// The view of the flattened lines held by the renderer.
pub open spec fn lines_view(v: Seq<(String, bool, &Entry)>) -> Seq<TreeLine> {
    v.map_values(|x: (String, bool, &Entry)| TreeLine { prefix: x.0@, last: x.1, entry: *x.2 })
}

proof fn lemma_status_mono(es: Seq<Entry>, k: int, j: int)
    requires
        0 <= k <= j <= es.len(),
        seq_has_status(es, k),
    ensures
        seq_has_status(es, j),
    decreases j - k,
{
    if j > k {
        lemma_status_mono(es, k, j - 1);
    }
}

fn seq_has_status_exec(es: &Vec<Entry>) -> (r: bool)
    ensures
        r == seq_has_status(es@, es@.len() as int),
    decreases es@,
{
    let n = es.len();
    let mut k: usize = 0;
    while k < n
        invariant
            n == es@.len(),
            k <= n,
            !seq_has_status(es@, k as int),
        decreases n - k,
    {
        let e = &es[k];
        if e.git_status.is_some() {
            assert(entry_has_status(es@[k as int]));
            proof {
                lemma_status_mono(es@, k + 1, n as int);
            }
            return true;
        }
        match &e.children {
            Some(c) => {
                assert(decreases_to!(es@ => es@[k as int]));
                assert(decreases_to!(e => e.children));
                if seq_has_status_exec(c) {
                    assert(entry_has_status(es@[k as int]));
                    proof {
                        lemma_status_mono(es@, k + 1, n as int);
                    }
                    return true;
                }
            },
            None => {},
        }
        assert(!entry_has_status(es@[k as int]));
        k = k + 1;
    }
    false
}

fn flatten_into<'e>(es: &'e Vec<Entry>, prefix: &str, out: &mut Vec<(String, bool, &'e Entry)>)
    ensures
        lines_view(final(out)@) == lines_view(old(out)@) + flat_seq(es@, prefix@, es@.len() as int),
    decreases es@,
{
    let n = es.len();
    let mut k: usize = 0;
    assert(lines_view(out@) =~= lines_view(old(out)@) + flat_seq(es@, prefix@, 0));
    while k < n
        invariant
            n == es@.len(),
            k <= n,
            lines_view(out@) == lines_view(old(out)@) + flat_seq(es@, prefix@, k as int),
        decreases n - k,
    {
        let e = &es[k];
        let last = k == n - 1;
        let ghost before = lines_view(out@);
        out.push((String::from_str(prefix), last, e));
        assert(lines_view(out@) =~= before.push(TreeLine { prefix: prefix@, last, entry: *e }));
        let ghost mid = lines_view(out@);
        match &e.children {
            Some(c) => {
                let mut next = String::from_str(prefix);
                if last {
                    next.append("    ");
                } else {
                    next.append("\u{2502}   ");
                }
                proof {
                    reveal_strlit("    ");
                    reveal_strlit("\u{2502}   ");
                    assert(next@ =~= child_prefix(prefix@, last));
                }
                assert(decreases_to!(es@ => es@[k as int]));
                assert(decreases_to!(e => e.children));
                flatten_into(c, next.as_str(), out);
                proof {
                    assert(flat_entry(*e, prefix@, last) =~= seq![TreeLine { prefix: prefix@, last, entry: *e }] + flat_seq(c@, child_prefix(prefix@, last), c@.len() as int));
                }
            },
            None => {
                assert(flat_entry(*e, prefix@, last) =~= seq![TreeLine { prefix: prefix@, last, entry: *e }]);
            },
        }
        assert(lines_view(out@) =~= lines_view(old(out)@) + flat_seq(es@, prefix@, k + 1));
        k = k + 1;
    }
}

/// `text` is the tree view of the entries: the lines of the tree (see
/// `tree_lines`), with the metadata columns (`meta_columns` of
/// `tree_columns`) formatted once per line and the Name cell of each entry
/// (see `cell_ok`), laid out by `tree_text`.
pub open spec fn is_tree_listing(es: Seq<Entry>, options: DisplayOptions, columns: Seq<Column>, headers: bool, autohide: bool, text: Seq<char>) -> bool {
    exists|t: Seq<Seq<Cell>>, names: Seq<Cell>|
        #![trigger tree_text(tree_lines(es), t, names, meta_columns(tree_columns(columns, es, autohide)), headers, options.long_view, options.color)]
        {
            let lines = tree_lines(es);
            let meta = meta_columns(tree_columns(columns, es, autohide));
            &&& table_ok(t, options, meta, line_entries(lines))
            &&& names.len() == lines.len()
            &&& forall|r: int| 0 <= r < lines.len() ==> cell_ok(options, Column::Name, lines[r].entry, #[trigger] names[r])
            &&& text == tree_text(lines, t, names, meta, headers, options.long_view, options.color)
        }
}

/// The tree view of some entries.
pub struct TreeView<'a> {
    entries: &'a Vec<Entry>,
    theme: &'a Theme,
    options: &'a DisplayOptions,
    columns: Vec<Column>,
    headers: bool,
    autohide_columns: bool,
}

impl<'a> TreeView<'a> {
    pub fn new(
        entries: &'a Vec<Entry>,
        theme: &'a Theme,
        options: &'a DisplayOptions,
        columns: Vec<Column>,
        headers: bool,
        autohide_columns: bool,
    ) -> (r: Self)
        ensures
            r.view_entries() == entries@,
            r.view_columns() == columns@,
            r.view_options() == *options,
            r.view_headers() == headers,
            r.view_autohide() == autohide_columns,
    {
        TreeView { entries, theme, options, columns, headers, autohide_columns }
    }

    pub closed spec fn view_entries(&self) -> Seq<Entry> {
        self.entries@
    }

    pub closed spec fn view_columns(&self) -> Seq<Column> {
        self.columns@
    }

    pub closed spec fn view_options(&self) -> DisplayOptions {
        *self.options
    }

    pub closed spec fn view_headers(&self) -> bool {
        self.headers
    }

    pub closed spec fn view_autohide(&self) -> bool {
        self.autohide_columns
    }

    fn shown_columns(&self) -> (r: Vec<Column>)
        ensures
            r@ == tree_columns(self.columns@, self.entries@, self.autohide_columns),
    {
        if !self.autohide_columns {
            return self.columns.clone();
        }
        let any_status = seq_has_status_exec(self.entries);
        let ne = self.entries.len();
        let n = self.columns.len();
        let mut out: Vec<Column> = Vec::new();
        let mut i: usize = 0;
        let ghost pred = tree_kept(self.entries@);
        while i < n
            invariant
                n == self.columns@.len(),
                ne == self.entries@.len(),
                i <= n,
                pred == tree_kept(self.entries@),
                any_status == seq_has_status(self.entries@, ne as int),
                out@ == self.columns@.take(i as int).filter(pred),
            decreases n - i,
        {
            let c = self.columns[i];
            let empty = c != Column::Name && (ne == 0 || (c == Column::Git && !any_status));
            assert(pred(c) == !empty);
            if !empty {
                out.push(c);
            }
            proof {
                assert(self.columns@.take(i + 1) =~= self.columns@.take(i as int).push(c));
                self.columns@.take(i as int).lemma_filter_push(c, pred);
            }
            i = i + 1;
        }
        assert(self.columns@.take(n as int) =~= self.columns@);
        out
    }

    /// The tree text: the lines of the tree (see `tree_lines`), with the
    /// metadata columns (`meta_columns` of `tree_columns`) formatted once per
    /// line and the Name cell of each entry (see `cell_ok`), laid out by
    /// `tree_text`.
    pub fn render(&self) -> (r: String)
        ensures
            is_tree_listing(self.view_entries(), self.view_options(), self.view_columns(), self.view_headers(), self.view_autohide(), r@),
    {
        let formatter = ColumnFormatter { theme: self.theme, options: self.options };
        let active = self.shown_columns();
        let mut meta: Vec<Column> = Vec::new();
        let na = active.len();
        let mut i: usize = 0;
        while i < na
            invariant
                na == active@.len(),
                i <= na,
                meta@ == active@.take(i as int).filter(not_name()),
            decreases na - i,
        {
            let c = active[i];
            if c != Column::Name {
                meta.push(c);
            }
            proof {
                assert(active@.take(i + 1) =~= active@.take(i as int).push(c));
                active@.take(i as int).lemma_filter_push(c, not_name());
            }
            i = i + 1;
        }
        assert(active@.take(na as int) =~= active@);
        let mut lines: Vec<(String, bool, &Entry)> = Vec::new();
        flatten_into(self.entries, "", &mut lines);
        proof {
            reveal_strlit("");
            assert(lines_view(Seq::<(String, bool, &Entry)>::empty()) =~= Seq::<TreeLine>::empty());
            assert(""@ =~= Seq::<char>::empty());
        }
        let ghost lv = lines_view(lines@);
        assert(lv =~= tree_lines(self.entries@));
        let nl = lines.len();
        let nm = meta.len();
        let mut t: Vec<Vec<Cell>> = Vec::new();
        let mut names: Vec<Cell> = Vec::new();
        let mut r: usize = 0;
        while r < nl
            invariant
                nl == lines@.len(),
                nm == meta@.len(),
                lv == lines_view(lines@),
                formatter.options == self.options,
                r <= nl,
                t@.len() == r,
                names@.len() == r,
                forall|k: int| 0 <= k < r ==> (#[trigger] t@[k])@.len() == nm,
                forall|k: int, p: int|
                    0 <= k < r && 0 <= p < nm ==> cell_ok(*self.options, meta@[p], lv[k].entry, #[trigger] t@[k]@[p]),
                forall|k: int| 0 <= k < r ==> cell_ok(*self.options, Column::Name, lv[k].entry, #[trigger] names@[k]),
            decreases nl - r,
        {
            let entry: &Entry = lines[r].2;
            assert(*entry == lv[r as int].entry);
            let mut row: Vec<Cell> = Vec::new();
            let mut p: usize = 0;
            while p < nm
                invariant
                    nm == meta@.len(),
                    formatter.options == self.options,
                    p <= nm,
                    row@.len() == p,
                    forall|k: int| 0 <= k < p ==> cell_ok(*self.options, meta@[k], *entry, #[trigger] row@[k]),
                decreases nm - p,
            {
                row.push(formatter.format_column(meta[p], entry));
                p = p + 1;
            }
            t.push(row);
            names.push(formatter.format_column(Column::Name, entry));
            r = r + 1;
        }
        let ghost tv = table_view(t@);
        proof {
            assert forall|k: int| 0 <= k < tv.len() implies (#[trigger] tv[k]).len() == nm by {
                assert(tv[k] == t@[k]@);
            }
        }
        let widths = column_widths(&t, &meta);
        let long_view = self.options.long_view;
        let color = self.options.color;
        let mut out = String::new();
        if self.headers && long_view {
            let mut q: usize = 0;
            while q < nm
                invariant
                    nm == meta@.len(),
                    widths@.len() == nm,
                    forall|p: int| 0 <= p < nm ==> #[trigger] widths@[p] as int == column_width(tv, meta@, meta@[p]),
                    q <= nm,
                    out@ == tree_header_prefix(tv, meta@, color, q as int),
                decreases nm - q,
            {
                let c = meta[q];
                let label = header_text(c);
                let hlen = label.as_str().unicode_len();
                let w = widths[q];
                let content = if color { underline(label.as_str()) } else { label };
                let ghost before = out@;
                if c == Column::Links || c == Column::Size {
                    push_pad(&mut out, w, hlen);
                    out.append(content.as_str());
                } else {
                    out.append(content.as_str());
                    push_pad(&mut out, w, hlen);
                }
                push_char(&mut out, ' ');
                assert(out@ =~= before + tree_header_piece(c, column_width(tv, meta@, c), color));
                q = q + 1;
            }
            push_char(&mut out, '\n');
        }
        let ghost head = out@;
        let mut r: usize = 0;
        while r < nl
            invariant
                nl == lines@.len(),
                nm == meta@.len(),
                lv == lines_view(lines@),
                tv == table_view(t@),
                t@.len() == nl,
                names@.len() == nl,
                table_shape(tv, nm as int),
                widths@.len() == nm,
                forall|p: int| 0 <= p < nm ==> #[trigger] widths@[p] as int == column_width(tv, meta@, meta@[p]),
                r <= nl,
                out@ == head + tree_lines_text(lv, tv, names@, meta@, long_view, r as int),
            decreases nl - r,
        {
            let ghost before_line = out@;
            if long_view {
                let row = &t[r];
                assert(tv[r as int] == row@);
                let mut q: usize = 0;
                while q < nm
                    invariant
                        nm == meta@.len(),
                        r < nl,
                        nl == t@.len(),
                        tv == table_view(t@),
                        tv[r as int] == row@,
                        row@.len() == nm,
                        widths@.len() == nm,
                        forall|p: int| 0 <= p < nm ==> #[trigger] widths@[p] as int == column_width(tv, meta@, meta@[p]),
                        q <= nm,
                        out@ == before_line + tree_meta_prefix(tv, meta@, r as int, q as int),
                    decreases nm - q,
                {
                    let c = meta[q];
                    let cell = &row[q];
                    let w = widths[q];
                    let ghost before = out@;
                    if c == Column::Links || c == Column::Size {
                        push_pad(&mut out, w, cell.width);
                        out.append(cell.content.as_str());
                        push_char(&mut out, ' ');
                    } else {
                        out.append(cell.content.as_str());
                        push_char(&mut out, ' ');
                        push_pad(&mut out, w, cell.width);
                    }
                    assert(out@ =~= before + tree_cell_piece(c, tv[r as int][q as int], column_width(tv, meta@, c)));
                    q = q + 1;
                }
            }
            let ghost meta_part = out@;
            assert(meta_part == before_line + if long_view { tree_meta_prefix(tv, meta@, r as int, nm as int) } else { Seq::<char>::empty() });
            out.append(lines[r].0.as_str());
            if lines[r].1 {
                out.append("\u{2514}\u{2500}\u{2500} ");
            } else {
                out.append("\u{251c}\u{2500}\u{2500} ");
            }
            proof {
                reveal_strlit("\u{2514}\u{2500}\u{2500} ");
                reveal_strlit("\u{251c}\u{2500}\u{2500} ");
            }
            out.append(names[r].content.as_str());
            push_char(&mut out, '\n');
            assert(out@ =~= before_line + tree_line_text(lv, tv, names@, meta@, long_view, r as int));
            r = r + 1;
        }
        proof {
            let lines_s = tree_lines(self.view_entries());
            let meta_s = meta_columns(tree_columns(self.view_columns(), self.view_entries(), self.view_autohide()));
            assert(meta_s == meta@);
            assert(lines_s == lv);
            assert(line_entries(lv).len() == lv.len());
            assert forall|k: int, p: int| 0 <= k < tv.len() && 0 <= p < meta@.len() implies cell_ok(self.view_options(), meta@[p], line_entries(lv)[k], #[trigger] tv[k][p]) by {
                assert(tv[k] == t@[k]@);
            }
            assert(table_ok(tv, self.view_options(), meta_s, line_entries(lines_s)));
            assert(out@ == tree_text(lines_s, tv, names@, meta_s, self.view_headers(), self.view_options().long_view, self.view_options().color));
        }
        out
    }
}

proof fn lemma_flat_seq_prefixes(es: Seq<Entry>, prefix: Seq<char>, k: int)
    requires
        terminal_safe(prefix),
    ensures
        forall|r: int| 0 <= r < flat_seq(es, prefix, k).len() ==> terminal_safe(#[trigger] flat_seq(es, prefix, k)[r].prefix),
    decreases es, k,
{
    if 0 < k <= es.len() {
        lemma_flat_seq_prefixes(es, prefix, k - 1);
        assert(decreases_to!(es => es[k - 1]));
        lemma_flat_entry_prefixes(es[k - 1], prefix, k - 1 == es.len() - 1);
        let a = flat_seq(es, prefix, k - 1);
        let b = flat_entry(es[k - 1], prefix, k - 1 == es.len() - 1);
        assert forall|r: int| 0 <= r < (a + b).len() implies terminal_safe(#[trigger] (a + b)[r].prefix) by {
            if r < a.len() {
                assert((a + b)[r] == a[r]);
            } else {
                assert((a + b)[r] == b[r - a.len()]);
            }
        }
    }
}

proof fn lemma_flat_entry_prefixes(e: Entry, prefix: Seq<char>, last: bool)
    requires
        terminal_safe(prefix),
    ensures
        forall|r: int| 0 <= r < flat_entry(e, prefix, last).len() ==> terminal_safe(#[trigger] flat_entry(e, prefix, last)[r].prefix),
    decreases e, 0int,
{
    let head = seq![TreeLine { prefix, last, entry: e }];
    match e.children {
        Some(c) => {
            assert(decreases_to!(e => e.children));
            assert(decreases_to!(e.children => c));
            assert(decreases_to!(c => c@));
            let cp = child_prefix(prefix, last);
            lemma_safe_concat(prefix, if last { seq![' ', ' ', ' ', ' '] } else { seq!['\u{2502}', ' ', ' ', ' '] });
            lemma_flat_seq_prefixes(c@, cp, c@.len() as int);
            let b = flat_seq(c@, cp, c@.len() as int);
            assert forall|r: int| 0 <= r < (head + b).len() implies terminal_safe(#[trigger] (head + b)[r].prefix) by {
                if r >= 1 {
                    assert((head + b)[r] == b[r - 1]);
                }
            }
        },
        None => {
            assert(flat_entry(e, prefix, last) =~= head);
        },
    }
}

proof fn lemma_tree_meta_safe(t: Seq<Seq<Cell>>, meta: Seq<Column>, r: int, k: int)
    requires
        0 <= r < t.len(),
        0 <= k <= meta.len(),
        t[r].len() == meta.len(),
        forall|p: int| 0 <= p < meta.len() ==> terminal_safe((#[trigger] t[r][p]).content@),
    ensures
        terminal_safe(tree_meta_prefix(t, meta, r, k)),
    decreases k,
{
    if k > 0 {
        lemma_tree_meta_safe(t, meta, r, k - 1);
        let c = meta[k - 1];
        let cell = t[r][k - 1];
        let w = column_width(t, meta, c);
        let pad = spaces(sub_sat(w, cell.width as int));
        lemma_spaces_safe(sub_sat(w, cell.width as int));
        if right_aligned(c) {
            lemma_safe_concat(pad, cell.content@);
            lemma_safe_concat(pad + cell.content@, seq![' ']);
        } else {
            lemma_safe_concat(cell.content@, seq![' ']);
            lemma_safe_concat(cell.content@ + seq![' '], pad);
        }
        lemma_safe_concat(tree_meta_prefix(t, meta, r, k - 1), tree_cell_piece(c, cell, w));
    }
}

proof fn lemma_tree_header_safe(t: Seq<Seq<Cell>>, meta: Seq<Column>, k: int)
    requires
        0 <= k <= meta.len(),
    ensures
        terminal_safe(tree_header_prefix(t, meta, false, k)),
    decreases k,
{
    if k > 0 {
        lemma_tree_header_safe(t, meta, k - 1);
        let c = meta[k - 1];
        let w = column_width(t, meta, c);
        let label = header_label(c);
        assert(terminal_safe(label));
        let pad = spaces(sub_sat(w, label.len() as int));
        lemma_spaces_safe(sub_sat(w, label.len() as int));
        if right_aligned(c) {
            lemma_safe_concat(pad, label);
            lemma_safe_concat(pad + label, seq![' ']);
        } else {
            lemma_safe_concat(label, pad);
            lemma_safe_concat(label + pad, seq![' ']);
        }
        lemma_safe_concat(tree_header_prefix(t, meta, false, k - 1), tree_header_piece(c, w, false));
    }
}

proof fn lemma_tree_lines_text(lines: Seq<TreeLine>, t: Seq<Seq<Cell>>, names: Seq<Cell>, meta: Seq<Column>, long_view: bool, k: int)
    requires
        0 <= k <= lines.len(),
        lines.len() == t.len(),
        lines.len() == names.len(),
        table_shape(t, meta.len() as int),
        forall|r: int, p: int| 0 <= r < t.len() && 0 <= p < meta.len() ==> terminal_safe((#[trigger] t[r][p]).content@),
        forall|r: int| 0 <= r < names.len() ==> terminal_safe((#[trigger] names[r]).content@),
        forall|r: int| 0 <= r < lines.len() ==> terminal_safe((#[trigger] lines[r]).prefix),
    ensures
        line_breaks(tree_lines_text(lines, t, names, meta, long_view, k)) == k,
        safe_lines(tree_lines_text(lines, t, names, meta, long_view, k)),
    decreases k,
{
    if k > 0 {
        let r = k - 1;
        lemma_tree_lines_text(lines, t, names, meta, long_view, r);
        let m = if long_view { tree_meta_prefix(t, meta, r, meta.len() as int) } else { Seq::<char>::empty() };
        assert(terminal_safe(m)) by {
            if long_view {
                assert(t[r].len() == meta.len());
                assert forall|p: int| 0 <= p < meta.len() implies terminal_safe((#[trigger] t[r][p]).content@) by {}
                lemma_tree_meta_safe(t, meta, r, meta.len() as int);
            }
        }
        let br = branch_of(lines[r].last);
        assert(terminal_safe(br));
        assert(terminal_safe(lines[r].prefix));
        assert(terminal_safe(names[r].content@));
        lemma_safe_concat(m, lines[r].prefix);
        lemma_safe_concat(m + lines[r].prefix, br);
        lemma_safe_concat(m + lines[r].prefix + br, names[r].content@);
        let body = m + lines[r].prefix + br + names[r].content@;
        assert(tree_line_text(lines, t, names, meta, long_view, r) =~= body.push('\n'));
        lemma_safe_line(tree_lines_text(lines, t, names, meta, long_view, r), body);
    }
}

/// A plain tree view (no colors, icons or hyperlinks) has its header line
/// when headers are asked for in the long view, then exactly one line per
/// entry of the tree, and nothing else in it that a terminal acts on, as long
/// as the user and group names and dates the system gives hold no such
/// character: no file name or link target can break a line or steer the
/// terminal.
pub proof fn plain_tree_has_a_line_per_entry(es: Seq<Entry>, options: DisplayOptions, columns: Seq<Column>, headers: bool, autohide: bool, text: Seq<char>)
    requires
        is_tree_listing(es, options, columns, headers, autohide, text),
        plain_options(options),
        forall|r: int| 0 <= r < tree_lines(es).len() ==> system_texts_safe(#[trigger] tree_lines(es)[r].entry),
    ensures
        line_breaks(text) == tree_lines(es).len() + if headers && options.long_view { 1nat } else { 0nat },
        safe_lines(text),
{
    let lines = tree_lines(es);
    let meta = meta_columns(tree_columns(columns, es, autohide));
    let (t, names) = choose|t: Seq<Seq<Cell>>, names: Seq<Cell>|
        #![trigger tree_text(tree_lines(es), t, names, meta_columns(tree_columns(columns, es, autohide)), headers, options.long_view, options.color)]
        {
            &&& table_ok(t, options, meta, line_entries(lines))
            &&& names.len() == lines.len()
            &&& forall|r: int| 0 <= r < lines.len() ==> cell_ok(options, Column::Name, lines[r].entry, #[trigger] names[r])
            &&& text == tree_text(lines, t, names, meta, headers, options.long_view, options.color)
        };
    assert forall|r: int, p: int| 0 <= r < t.len() && 0 <= p < meta.len() implies terminal_safe((#[trigger] t[r][p]).content@) by {
        assert(line_entries(lines)[r] == lines[r].entry);
        lemma_plain_cell_safe(options, meta[p], lines[r].entry, t[r][p]);
    }
    assert forall|r: int| 0 <= r < names.len() implies terminal_safe((#[trigger] names[r]).content@) by {
        lemma_plain_cell_safe(options, Column::Name, lines[r].entry, names[r]);
    }
    lemma_flat_seq_prefixes(es, Seq::<char>::empty(), es.len() as int);
    lemma_tree_lines_text(lines, t, names, meta, options.long_view, lines.len() as int);
    let body = tree_lines_text(lines, t, names, meta, options.long_view, lines.len() as int);
    if headers && options.long_view {
        lemma_tree_header_safe(t, meta, meta.len() as int);
        let h = tree_header_prefix(t, meta, false, meta.len() as int);
        let hl = h + seq!['\n'];
        assert(hl =~= Seq::<char>::empty() + h.push('\n'));
        lemma_safe_line(Seq::<char>::empty(), h);
        lemma_line_breaks_add(hl, body);
        assert forall|j: int| 0 <= j < (hl + body).len() implies #[trigger] (hl + body)[j] == '\n'
            || (!is_control_char((hl + body)[j]) && !is_bidi_char((hl + body)[j])) by {
            if j < hl.len() {
                assert((hl + body)[j] == hl[j]);
            } else {
                assert((hl + body)[j] == body[j - hl.len()]);
            }
        }
        assert(text == hl + body);
    } else {
        assert(text =~= body);
    }
}

proof fn lemma_flat_seq_grows(es: Seq<Entry>, prefix: Seq<char>, i: int, j: int)
    requires
        0 <= i <= j <= es.len(),
    ensures
        flat_seq(es, prefix, i).len() <= flat_seq(es, prefix, j).len(),
        flat_seq(es, prefix, j).subrange(0, flat_seq(es, prefix, i).len() as int) == flat_seq(es, prefix, i),
    decreases j - i,
{
    if i < j {
        lemma_flat_seq_grows(es, prefix, i, j - 1);
        let a = flat_seq(es, prefix, i);
        let b = flat_seq(es, prefix, j - 1);
        let c = flat_seq(es, prefix, j);
        assert(c == b + flat_entry(es[j - 1], prefix, j - 1 == es.len() - 1));
        assert(c.subrange(0, a.len() as int) =~= b.subrange(0, a.len() as int));
    } else {
        assert(flat_seq(es, prefix, j).subrange(0, flat_seq(es, prefix, i).len() as int) =~= flat_seq(es, prefix, i));
    }
}

/// In the lines of a sibling list, each sibling has its line, in order, with
/// the list's drawing before it, marked last exactly when it is the last
/// sibling (with or without children); right after it come the lines of its
/// children, drawn with four spaces below a last sibling and a vertical bar
/// and three spaces below any other.
pub proof fn tree_lines_mark_the_last_sibling(es: Seq<Entry>, prefix: Seq<char>, i: int)
    requires
        0 <= i < es.len(),
    ensures
        ({
            let all = flat_seq(es, prefix, es.len() as int);
            let pos = flat_seq(es, prefix, i).len() as int;
            let last = i == es.len() - 1;
            &&& pos < all.len()
            &&& all[pos].entry == es[i]
            &&& all[pos].prefix == prefix
            &&& all[pos].last == last
            &&& es[i].children matches Some(c) ==> {
                let below = flat_seq(
                    c@,
                    prefix + if last { seq![' ', ' ', ' ', ' '] } else { seq!['\u{2502}', ' ', ' ', ' '] },
                    c@.len() as int,
                );
                pos + 1 + below.len() <= all.len() && all.subrange(pos + 1, pos + 1 + below.len()) == below
            }
        }),
{
    let all = flat_seq(es, prefix, es.len() as int);
    let a = flat_seq(es, prefix, i);
    let b = flat_seq(es, prefix, i + 1);
    let last = i == es.len() - 1;
    let fe = flat_entry(es[i], prefix, last);
    assert(b == a + fe);
    lemma_flat_seq_grows(es, prefix, i + 1, es.len() as int);
    let pos = a.len() as int;
    assert(all[pos] == b[pos]);
    assert(b[pos] == fe[0]);
    if let Some(c) = es[i].children {
        let below = flat_seq(c@, child_prefix(prefix, last), c@.len() as int);
        assert(fe == seq![TreeLine { prefix, last, entry: es[i] }] + below);
        assert forall|j: int| 0 <= j < below.len() implies all[pos + 1 + j] == below[j] by {
            assert(all[pos + 1 + j] == b[pos + 1 + j]);
            assert(b[pos + 1 + j] == fe[1 + j]);
        }
        assert(all.subrange(pos + 1, pos + 1 + below.len()) =~= below);
    }
}

} // verus!
