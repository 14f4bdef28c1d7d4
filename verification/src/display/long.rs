//! The long listing: one row per entry, columns padded to their widest cell,
//! with optional headers and hiding of empty columns.
use vstd::prelude::*;
use crate::display::DisplayOptions;
use crate::display::formatter::{
    cell_ok, is_bidi_char, is_control_char, lemma_plain_cell_safe, lemma_safe_concat, plain_options, system_texts_safe,
    terminal_safe, Cell, Column, ColumnFormatter,
};
use crate::display::grid::{lemma_line_breaks_add, lemma_safe_has_no_breaks, line_breaks, safe_lines};
use crate::fs::entry::Entry;
use crate::text::{push_char, push_spaces, spaces};
use crate::theme::Theme;
use crate::theme::colors::{underline, underlined};

verus! {

/// The header label of a column.
pub open spec fn header_label(c: Column) -> Seq<char> {
    match c {
        Column::Git => seq!['G', 'i', 't'],
        Column::Permissions => seq!['M', 'o', 'd', 'e'],
        Column::Links => seq!['L', 'i', 'n', 'k'],
        Column::Owner => seq!['U', 's', 'e', 'r'],
        Column::Group => seq!['G', 'r', 'o', 'u', 'p'],
        Column::Size => seq!['S', 'i', 'z', 'e'],
        Column::Date => seq!['D', 'a', 't', 'e'],
        Column::Name => seq!['N', 'a', 'm', 'e'],
    }
}

/// The header label of a column.
pub fn header_text(c: Column) -> (r: String)
    ensures
        r@ == header_label(c),
{
    let mut s = String::new();
    match c {
        Column::Git => {
            push_char(&mut s, 'G');
            push_char(&mut s, 'i');
            push_char(&mut s, 't');
        },
        Column::Permissions => {
            push_char(&mut s, 'M');
            push_char(&mut s, 'o');
            push_char(&mut s, 'd');
            push_char(&mut s, 'e');
        },
        Column::Links => {
            push_char(&mut s, 'L');
            push_char(&mut s, 'i');
            push_char(&mut s, 'n');
            push_char(&mut s, 'k');
        },
        Column::Owner => {
            push_char(&mut s, 'U');
            push_char(&mut s, 's');
            push_char(&mut s, 'e');
            push_char(&mut s, 'r');
        },
        Column::Group => {
            push_char(&mut s, 'G');
            push_char(&mut s, 'r');
            push_char(&mut s, 'o');
            push_char(&mut s, 'u');
            push_char(&mut s, 'p');
        },
        Column::Size => {
            push_char(&mut s, 'S');
            push_char(&mut s, 'i');
            push_char(&mut s, 'z');
            push_char(&mut s, 'e');
        },
        Column::Date => {
            push_char(&mut s, 'D');
            push_char(&mut s, 'a');
            push_char(&mut s, 't');
            push_char(&mut s, 'e');
        },
        Column::Name => {
            push_char(&mut s, 'N');
            push_char(&mut s, 'a');
            push_char(&mut s, 'm');
            push_char(&mut s, 'e');
        },
    }
    assert(s@ =~= header_label(c));
    s
}

/// Columns whose numbers are right-aligned.
pub open spec fn right_aligned(c: Column) -> bool {
    c == Column::Links || c == Column::Size
}

/// `a - b`, or 0 when `b` is larger.
pub open spec fn sub_sat(a: int, b: int) -> nat {
    if a >= b {
        (a - b) as nat
    } else {
        0
    }
}

/// A column is left out by autohide when there are no entries at all, or it
/// is the Git column and no entry has a Git status.
pub open spec fn column_empty(c: Column, entries: Seq<Entry>) -> bool {
    entries.len() == 0 || (c == Column::Git && forall|i: int|
        0 <= i < entries.len() ==> (#[trigger] entries[i]).git_status is None)
}

/// The columns kept by autohide.
pub open spec fn kept_column(entries: Seq<Entry>) -> spec_fn(Column) -> bool {
    |c: Column| !column_empty(c, entries)
}

/// The columns shown: all configured ones, less the empty ones under autohide.
pub open spec fn active_columns(columns: Seq<Column>, entries: Seq<Entry>, autohide: bool) -> Seq<Column> {
    if autohide {
        columns.filter(kept_column(entries))
    } else {
        columns
    }
}

/// The widest cell of column `c` among the first `k` positions of a row.
pub open spec fn row_max(row: Seq<Cell>, active: Seq<Column>, c: Column, k: int) -> int
    decreases k,
{
    if k <= 0 {
        0
    } else {
        let m = row_max(row, active, c, k - 1);
        if active[k - 1] == c && row[k - 1].width > m {
            row[k - 1].width as int
        } else {
            m
        }
    }
}

/// The widest cell of column `c` among the first `r` rows.
pub open spec fn table_max(t: Seq<Seq<Cell>>, active: Seq<Column>, c: Column, r: int) -> int
    decreases r,
{
    if r <= 0 {
        0
    } else {
        let m = table_max(t, active, c, r - 1);
        let k = row_max(t[r - 1], active, c, active.len() as int);
        if k > m {
            k
        } else {
            m
        }
    }
}

/// The width of column `c`: its header or its widest cell, whichever is wider.
pub open spec fn column_width(t: Seq<Seq<Cell>>, active: Seq<Column>, c: Column) -> int {
    let m = table_max(t, active, c, t.len() as int);
    let h = header_label(c).len() as int;
    if m > h {
        m
    } else {
        h
    }
}

/// The last position of column `c` in the shown columns (a column listed twice
/// shows the cell formatted last).
pub open spec fn last_pos(active: Seq<Column>, c: Column, k: int) -> int
    decreases k,
{
    if k <= 0 {
        -1
    } else if active[k - 1] == c {
        k - 1
    } else {
        last_pos(active, c, k - 1)
    }
}

/// One header label, aligned and separated.
pub open spec fn header_piece(c: Column, w: int, last: bool, color: bool) -> Seq<char> {
    let label = header_label(c);
    let content = if color { underlined(label) } else { label };
    let pad = spaces(sub_sat(w, label.len() as int));
    if right_aligned(c) {
        pad + content + if last { Seq::<char>::empty() } else { seq![' '] }
    } else {
        content + if last { Seq::<char>::empty() } else { pad.push(' ') }
    }
}

/// One cell, aligned and separated.
pub open spec fn cell_piece(c: Column, cell: Cell, w: int, last: bool) -> Seq<char> {
    let pad = spaces(sub_sat(w, cell.width as int));
    if right_aligned(c) {
        pad + cell.content@ + if last { Seq::<char>::empty() } else { seq![' '] }
    } else {
        cell.content@ + if last { Seq::<char>::empty() } else { pad.push(' ') }
    }
}

/// The first `k` header pieces.
pub open spec fn header_prefix(t: Seq<Seq<Cell>>, active: Seq<Column>, color: bool, k: int) -> Seq<char>
    decreases k,
{
    if k <= 0 {
        Seq::<char>::empty()
    } else {
        let c = active[k - 1];
        header_prefix(t, active, color, k - 1) + header_piece(c, column_width(t, active, c), k - 1 == active.len() - 1, color)
    }
}

/// The first `k` cell pieces of row `r`.
pub open spec fn row_prefix(t: Seq<Seq<Cell>>, active: Seq<Column>, r: int, k: int) -> Seq<char>
    decreases k,
{
    if k <= 0 {
        Seq::<char>::empty()
    } else {
        let c = active[k - 1];
        row_prefix(t, active, r, k - 1) + cell_piece(
            c,
            t[r][last_pos(active, c, active.len() as int)],
            column_width(t, active, c),
            k - 1 == active.len() - 1,
        )
    }
}

/// The first `r` rows, each ended by a newline.
pub open spec fn rows_text(t: Seq<Seq<Cell>>, active: Seq<Column>, r: int) -> Seq<char>
    decreases r,
{
    if r <= 0 {
        Seq::<char>::empty()
    } else {
        rows_text(t, active, r - 1) + row_prefix(t, active, r - 1, active.len() as int).push('\n')
    }
}

/// The long listing of a table of cells (one row per entry, one cell per
/// shown column): the header line when asked for, then the rows.
pub open spec fn long_text(t: Seq<Seq<Cell>>, active: Seq<Column>, headers: bool, color: bool) -> Seq<char> {
    (if headers {
        header_prefix(t, active, color, active.len() as int).push('\n')
    } else {
        Seq::<char>::empty()
    }) + rows_text(t, active, t.len() as int)
}

/// The rows of a table of cells.
pub open spec fn table_view(t: Seq<Vec<Cell>>) -> Seq<Seq<Cell>> {
    t.map_values(|v: Vec<Cell>| v@)
}

/// Every row has one cell per shown column.
pub open spec fn table_shape(t: Seq<Seq<Cell>>, n: int) -> bool {
    forall|r: int| 0 <= r < t.len() ==> (#[trigger] t[r]).len() == n
}

/// Each cell is the formatted cell of its entry and column.
pub open spec fn table_ok(t: Seq<Seq<Cell>>, options: DisplayOptions, active: Seq<Column>, entries: Seq<Entry>) -> bool {
    &&& t.len() == entries.len()
    &&& table_shape(t, active.len() as int)
    &&& forall|r: int, p: int|
        0 <= r < t.len() && 0 <= p < active.len() ==> cell_ok(options, active[p], entries[r], #[trigger] t[r][p])
}

proof fn lemma_last_pos(active: Seq<Column>, c: Column, k: int)
    requires
        0 <= k <= active.len(),
    ensures
        -1 <= last_pos(active, c, k) < k,
        last_pos(active, c, k) >= 0 ==> active[last_pos(active, c, k)] == c,
        (exists|p: int| 0 <= p < k && active[p] == c) ==> last_pos(active, c, k) >= 0,
    decreases k,
{
    if k > 0 {
        lemma_last_pos(active, c, k - 1);
    }
}

/// The position of the last occurrence of `c` in the first `k` columns.
fn find_last(active: &Vec<Column>, c: Column) -> (r: usize)
    requires
        exists|p: int| 0 <= p < active@.len() && active@[p] == c,
    ensures
        r as int == last_pos(active@, c, active@.len() as int),
        r < active@.len(),
{
    let n = active.len();
    let mut k: usize = n;
    proof {
        lemma_last_pos(active@, c, n as int);
    }
    while k > 0
        invariant
            k <= n,
            n == active@.len(),
            last_pos(active@, c, n as int) == last_pos(active@, c, k as int),
            last_pos(active@, c, n as int) >= 0,
        decreases k,
    {
        if active[k - 1] == c {
            return k - 1;
        }
        k = k - 1;
    }
    assert(false);
    0
}

/// The width of each shown column, by position.
pub fn column_widths(t: &Vec<Vec<Cell>>, active: &Vec<Column>) -> (r: Vec<usize>)
    requires
        table_shape(table_view(t@), active@.len() as int),
    ensures
        r@.len() == active@.len(),
        forall|p: int| 0 <= p < active@.len() ==> #[trigger] r@[p] as int == column_width(table_view(t@), active@, active@[p]),
{
    let ghost tv = table_view(t@);
    let np = active.len();
    let nr = t.len();
    let mut widths: Vec<usize> = Vec::new();
    let mut p: usize = 0;
    while p < np
        invariant
            np == active@.len(),
            nr == t@.len(),
            tv == table_view(t@),
            table_shape(tv, np as int),
            p <= np,
            widths@.len() == p,
            forall|k: int| 0 <= k < p ==> #[trigger] widths@[k] as int == column_width(tv, active@, active@[k]),
        decreases np - p,
    {
        let c = active[p];
        let mut m: usize = 0;
        let mut r: usize = 0;
        while r < nr
            invariant
                np == active@.len(),
                nr == t@.len(),
                tv == table_view(t@),
                table_shape(tv, np as int),
                p < np,
                c == active@[p as int],
                r <= nr,
                m as int == table_max(tv, active@, c, r as int),
            decreases nr - r,
        {
            let row = &t[r];
            assert(tv[r as int] == row@);
            let mut rm: usize = 0;
            let mut q: usize = 0;
            while q < np
                invariant
                    np == active@.len(),
                    row@.len() == np,
                    q <= np,
                    rm as int == row_max(row@, active@, c, q as int),
                decreases np - q,
            {
                if active[q] == c && row[q].width > rm {
                    rm = row[q].width;
                }
                q = q + 1;
            }
            if rm > m {
                m = rm;
            }
            r = r + 1;
        }
        let h = header_text(c).as_str().unicode_len();
        let w = if m > h { m } else { h };
        widths.push(w);
        p = p + 1;
    }
    widths
}

/// Appends `n` spaces, where `n` is `w - x` or 0.
pub fn push_pad(s: &mut String, w: usize, x: usize)
    ensures
        final(s)@ == old(s)@ + spaces(sub_sat(w as int, x as int)),
{
    let n = if w >= x { w - x } else { 0 };
    push_spaces(s, n);
}

/// Lays out a table of cells (see `long_text`).
pub fn layout_long(t: &Vec<Vec<Cell>>, active: &Vec<Column>, headers: bool, color: bool) -> (r: String)
    requires
        table_shape(table_view(t@), active@.len() as int),
    ensures
        r@ == long_text(table_view(t@), active@, headers, color),
{
    let ghost tv = table_view(t@);
    let widths = column_widths(t, active);
    let np = active.len();
    let nr = t.len();
    let mut out = String::new();
    if headers {
        let mut i: usize = 0;
        while i < np
            invariant
                np == active@.len(),
                widths@.len() == np,
                forall|p: int| 0 <= p < np ==> #[trigger] widths@[p] as int == column_width(tv, active@, active@[p]),
                i <= np,
                out@ == header_prefix(tv, active@, color, i as int),
            decreases np - i,
        {
            let c = active[i];
            let label = header_text(c);
            let hlen = label.as_str().unicode_len();
            let w = widths[i];
            let is_last = i == np - 1;
            let content = if color { underline(label.as_str()) } else { label };
            let ghost before = out@;
            if c == Column::Links || c == Column::Size {
                push_pad(&mut out, w, hlen);
                out.append(content.as_str());
                if !is_last {
                    push_char(&mut out, ' ');
                }
            } else {
                out.append(content.as_str());
                if !is_last {
                    push_pad(&mut out, w, hlen);
                    push_char(&mut out, ' ');
                }
            }
            assert(out@ =~= before + header_piece(c, column_width(tv, active@, c), is_last, color));
            i = i + 1;
        }
        push_char(&mut out, '\n');
    }
    let ghost head = out@;
    assert(head == if headers {
        header_prefix(tv, active@, color, active@.len() as int).push('\n')
    } else {
        Seq::<char>::empty()
    });
    let mut r: usize = 0;
    while r < nr
        invariant
            np == active@.len(),
            nr == t@.len(),
            tv == table_view(t@),
            table_shape(tv, np as int),
            widths@.len() == np,
            forall|p: int| 0 <= p < np ==> #[trigger] widths@[p] as int == column_width(tv, active@, active@[p]),
            r <= nr,
            out@ == head + rows_text(tv, active@, r as int),
        decreases nr - r,
    {
        let row = &t[r];
        assert(tv[r as int] == row@);
        let ghost before_row = out@;
        let mut i: usize = 0;
        while i < np
            invariant
                np == active@.len(),
                nr == t@.len(),
                r < nr,
                tv == table_view(t@),
                tv[r as int] == row@,
                row@.len() == np,
                widths@.len() == np,
                forall|p: int| 0 <= p < np ==> #[trigger] widths@[p] as int == column_width(tv, active@, active@[p]),
                i <= np,
                out@ == before_row + row_prefix(tv, active@, r as int, i as int),
            decreases np - i,
        {
            let c = active[i];
            proof {
                assert(active@[i as int] == c);
            }
            let q = find_last(active, c);
            let cell = &row[q];
            let w = widths[i];
            let is_last = i == np - 1;
            let ghost before = out@;
            if c == Column::Links || c == Column::Size {
                push_pad(&mut out, w, cell.width);
                out.append(cell.content.as_str());
                if !is_last {
                    push_char(&mut out, ' ');
                }
            } else {
                out.append(cell.content.as_str());
                if !is_last {
                    push_pad(&mut out, w, cell.width);
                    push_char(&mut out, ' ');
                }
            }
            assert(out@ =~= before + cell_piece(c, tv[r as int][q as int], column_width(tv, active@, c), is_last));
            i = i + 1;
        }
        push_char(&mut out, '\n');
        r = r + 1;
        assert(out@ =~= head + rows_text(tv, active@, r as int));
    }
    out
}

/// `text` is the long listing of the entries: the shown columns (see
/// `active_columns`) for every entry, formatted once each (see `cell_ok`),
/// laid out by `long_text`.
pub open spec fn is_long_listing(es: Seq<Entry>, options: DisplayOptions, columns: Seq<Column>, headers: bool, autohide: bool, text: Seq<char>) -> bool {
    exists|t: Seq<Seq<Cell>>|
        #![trigger long_text(t, active_columns(columns, es, autohide), headers, options.color)]
        table_ok(t, options, active_columns(columns, es, autohide), es)
            && text == long_text(t, active_columns(columns, es, autohide), headers, options.color)
}

/// The long listing of some entries.
pub struct LongView<'a> {
    entries: &'a [Entry],
    theme: &'a Theme,
    options: &'a DisplayOptions,
    columns: Vec<Column>,
    headers: bool,
    autohide_columns: bool,
}

impl<'a> LongView<'a> {
    pub fn new(
        entries: &'a [Entry],
        theme: &'a Theme,
        options: &'a DisplayOptions,
        columns: Vec<Column>,
        headers: bool,
        autohide_columns: bool,
    ) -> (r: Self)
        ensures
            r.view_entries() == entries@,
            r.view_columns() == columns@,
            r.view_options() == *options,
            r.view_headers() == headers,
            r.view_autohide() == autohide_columns,
    {
        LongView { entries, theme, options, columns, headers, autohide_columns }
    }

    pub closed spec fn view_entries(&self) -> Seq<Entry> {
        self.entries@
    }

    pub closed spec fn view_columns(&self) -> Seq<Column> {
        self.columns@
    }

    pub closed spec fn view_options(&self) -> DisplayOptions {
        *self.options
    }

    pub closed spec fn view_headers(&self) -> bool {
        self.headers
    }

    pub closed spec fn view_autohide(&self) -> bool {
        self.autohide_columns
    }

    fn shown_columns(&self) -> (r: Vec<Column>)
        ensures
            r@ == active_columns(self.columns@, self.entries@, self.autohide_columns),
    {
        if !self.autohide_columns {
            return self.columns.clone();
        }
        let n = self.columns.len();
        let ne = self.entries.len();
        let mut any_status = false;
        let mut e: usize = 0;
        while e < ne
            invariant
                ne == self.entries@.len(),
                e <= ne,
                any_status == exists|i: int| 0 <= i < e && (#[trigger] self.entries@[i]).git_status is Some,
            decreases ne - e,
        {
            if self.entries[e].git_status.is_some() {
                any_status = true;
            }
            e = e + 1;
        }
        let mut out: Vec<Column> = Vec::new();
        let mut i: usize = 0;
        let ghost pred = kept_column(self.entries@);
        while i < n
            invariant
                n == self.columns@.len(),
                ne == self.entries@.len(),
                i <= n,
                pred == kept_column(self.entries@),
                any_status == exists|k: int| 0 <= k < ne && (#[trigger] self.entries@[k]).git_status is Some,
                out@ == self.columns@.take(i as int).filter(pred),
            decreases n - i,
        {
            let c = self.columns[i];
            let empty = ne == 0 || (c == Column::Git && !any_status);
            assert(empty == column_empty(c, self.entries@));
            assert(pred(c) == !empty);
            if !empty {
                out.push(c);
            }
            proof {
                assert(self.columns@.take(i + 1) =~= self.columns@.take(i as int).push(c));
                self.columns@.take(i as int).lemma_filter_push(c, pred);
            }
            i = i + 1;
        }
        assert(self.columns@.take(n as int) =~= self.columns@);
        out
    }

    fn build_table(&self, active: &Vec<Column>) -> (t: Vec<Vec<Cell>>)
        ensures
            table_ok(table_view(t@), *self.options, active@, self.entries@),
    {
        let formatter = ColumnFormatter { theme: self.theme, options: self.options };
        let ne = self.entries.len();
        let np = active.len();
        let mut t: Vec<Vec<Cell>> = Vec::new();
        let mut e: usize = 0;
        while e < ne
            invariant
                ne == self.entries@.len(),
                np == active@.len(),
                formatter.options == self.options,
                e <= ne,
                t@.len() == e,
                forall|r: int| 0 <= r < e ==> (#[trigger] t@[r])@.len() == np,
                forall|r: int, p: int|
                    0 <= r < e && 0 <= p < np ==> cell_ok(*self.options, active@[p], self.entries@[r], #[trigger] t@[r]@[p]),
            decreases ne - e,
        {
            let entry = &self.entries[e];
            let mut row: Vec<Cell> = Vec::new();
            let mut p: usize = 0;
            while p < np
                invariant
                    np == active@.len(),
                    formatter.options == self.options,
                    *entry == self.entries@[e as int],
                    p <= np,
                    row@.len() == p,
                    forall|k: int| 0 <= k < p ==> cell_ok(*self.options, active@[k], *entry, #[trigger] row@[k]),
                decreases np - p,
            {
                let cell = formatter.format_column(active[p], entry);
                row.push(cell);
                p = p + 1;
            }
            t.push(row);
            e = e + 1;
        }
        proof {
            let tv = table_view(t@);
            assert forall|r: int, p: int| 0 <= r < tv.len() && 0 <= p < np implies cell_ok(*self.options, active@[p], self.entries@[r], #[trigger] tv[r][p]) by {
                assert(tv[r] == t@[r]@);
            }
            assert forall|r: int| 0 <= r < tv.len() implies (#[trigger] tv[r]).len() == np by {
                assert(tv[r] == t@[r]@);
            }
        }
        t
    }

    /// The listing text: the shown columns (see `active_columns`) for every
    /// entry, formatted once each (see `cell_ok`), laid out by `long_text`.
    pub fn render(&self) -> (r: String)
        ensures
            is_long_listing(self.view_entries(), self.view_options(), self.view_columns(), self.view_headers(), self.view_autohide(), r@),
    {
        let active = self.shown_columns();
        let t = self.build_table(&active);
        let r = layout_long(&t, &active, self.headers, self.options.color);
        proof {
            let tv = table_view(t@);
            let act = active_columns(self.view_columns(), self.view_entries(), self.view_autohide());
            assert(act == active@);
            assert(table_ok(tv, self.view_options(), act, self.view_entries()));
            assert(r@ == long_text(tv, act, self.view_headers(), self.view_options().color));
        }
        r
    }
}

/// Runs of spaces hold nothing a terminal acts on.
pub proof fn lemma_spaces_safe(n: nat)
    ensures
        terminal_safe(spaces(n)),
{
}

/// A text with no character a terminal acts on, followed by a line end,
/// appended to safe lines.
pub proof fn lemma_safe_line(a: Seq<char>, line: Seq<char>)
    requires
        safe_lines(a),
        terminal_safe(line),
    ensures
        safe_lines(a + line.push('\n')),
        line_breaks(a + line.push('\n')) == line_breaks(a) + 1,
{
    lemma_safe_has_no_breaks(line);
    lemma_line_breaks_add(a, line.push('\n'));
    assert(line.push('\n').drop_last() =~= line);
    let t = a + line.push('\n');
    assert forall|j: int| 0 <= j < t.len() implies #[trigger] t[j] == '\n' || (!is_control_char(t[j]) && !is_bidi_char(t[j])) by {
        if j < a.len() {
            assert(t[j] == a[j]);
        } else if j < a.len() + line.len() {
            assert(t[j] == line[j - a.len()]);
        }
    }
}

proof fn lemma_header_prefix_safe(t: Seq<Seq<Cell>>, active: Seq<Column>, k: int)
    requires
        0 <= k <= active.len(),
    ensures
        terminal_safe(header_prefix(t, active, false, k)),
    decreases k,
{
    if k > 0 {
        lemma_header_prefix_safe(t, active, k - 1);
        let c = active[k - 1];
        let w = column_width(t, active, c);
        let label = header_label(c);
        let pad = spaces(sub_sat(w, label.len() as int));
        assert(terminal_safe(label));
        lemma_spaces_safe(sub_sat(w, label.len() as int));
        let last = k - 1 == active.len() - 1;
        let piece = header_piece(c, w, last, false);
        if right_aligned(c) {
            let sep = if last { Seq::<char>::empty() } else { seq![' '] };
            lemma_safe_concat(pad, label);
            lemma_safe_concat(pad + label, sep);
        } else {
            let rest = if last { Seq::<char>::empty() } else { pad.push(' ') };
            assert(terminal_safe(rest)) by {
                if !last {
                    lemma_safe_concat(pad, seq![' ']);
                    assert(pad.push(' ') =~= pad + seq![' ']);
                }
            }
            lemma_safe_concat(label, rest);
        }
        lemma_safe_concat(header_prefix(t, active, false, k - 1), piece);
    }
}

proof fn lemma_row_prefix_safe(t: Seq<Seq<Cell>>, active: Seq<Column>, r: int, k: int)
    requires
        0 <= r < t.len(),
        0 <= k <= active.len(),
        t[r].len() == active.len(),
        forall|p: int| 0 <= p < active.len() ==> terminal_safe((#[trigger] t[r][p]).content@),
    ensures
        terminal_safe(row_prefix(t, active, r, k)),
    decreases k,
{
    if k > 0 {
        lemma_row_prefix_safe(t, active, r, k - 1);
        let c = active[k - 1];
        lemma_last_pos(active, c, active.len() as int);
        let cell = t[r][last_pos(active, c, active.len() as int)];
        let w = column_width(t, active, c);
        let last = k - 1 == active.len() - 1;
        let pad = spaces(sub_sat(w, cell.width as int));
        lemma_spaces_safe(sub_sat(w, cell.width as int));
        let piece = cell_piece(c, cell, w, last);
        if right_aligned(c) {
            let sep = if last { Seq::<char>::empty() } else { seq![' '] };
            lemma_safe_concat(pad, cell.content@);
            lemma_safe_concat(pad + cell.content@, sep);
        } else {
            let rest = if last { Seq::<char>::empty() } else { pad.push(' ') };
            assert(terminal_safe(rest)) by {
                if !last {
                    lemma_safe_concat(pad, seq![' ']);
                    assert(pad.push(' ') =~= pad + seq![' ']);
                }
            }
            lemma_safe_concat(cell.content@, rest);
        }
        lemma_safe_concat(row_prefix(t, active, r, k - 1), piece);
    }
}

proof fn lemma_rows_text_lines(t: Seq<Seq<Cell>>, active: Seq<Column>, k: int)
    requires
        0 <= k <= t.len(),
        table_shape(t, active.len() as int),
        forall|r: int, p: int| 0 <= r < t.len() && 0 <= p < active.len() ==> terminal_safe((#[trigger] t[r][p]).content@),
    ensures
        line_breaks(rows_text(t, active, k)) == k,
        safe_lines(rows_text(t, active, k)),
    decreases k,
{
    if k > 0 {
        lemma_rows_text_lines(t, active, k - 1);
        assert(t[k - 1].len() == active.len());
        assert forall|p: int| 0 <= p < active.len() implies terminal_safe((#[trigger] t[k - 1][p]).content@) by {}
        lemma_row_prefix_safe(t, active, k - 1, active.len() as int);
        lemma_safe_line(rows_text(t, active, k - 1), row_prefix(t, active, k - 1, active.len() as int));
    }
}

/// A plain long listing (no colors, icons or hyperlinks) has its header line
/// when asked for and then exactly one line per entry, and nothing else in
/// it that a terminal acts on, as long as the user and group names and dates
/// the system gives hold no such character: no file name or link target can
/// break a line or steer the terminal.
pub proof fn plain_long_listing_has_a_line_per_entry(es: Seq<Entry>, options: DisplayOptions, columns: Seq<Column>, headers: bool, autohide: bool, text: Seq<char>)
    requires
        is_long_listing(es, options, columns, headers, autohide, text),
        plain_options(options),
        forall|i: int| 0 <= i < es.len() ==> system_texts_safe(#[trigger] es[i]),
    ensures
        line_breaks(text) == es.len() + if headers { 1nat } else { 0nat },
        safe_lines(text),
{
    let active = active_columns(columns, es, autohide);
    let t = choose|t: Seq<Seq<Cell>>|
        #![trigger long_text(t, active_columns(columns, es, autohide), headers, options.color)]
        table_ok(t, options, active_columns(columns, es, autohide), es)
            && text == long_text(t, active_columns(columns, es, autohide), headers, options.color);
    assert forall|r: int, p: int| 0 <= r < t.len() && 0 <= p < active.len() implies terminal_safe((#[trigger] t[r][p]).content@) by {
        lemma_plain_cell_safe(options, active[p], es[r], t[r][p]);
    }
    lemma_rows_text_lines(t, active, t.len() as int);
    let rows = rows_text(t, active, t.len() as int);
    if headers {
        lemma_header_prefix_safe(t, active, active.len() as int);
        let h = header_prefix(t, active, false, active.len() as int);
        lemma_safe_line(Seq::<char>::empty(), h);
        assert(line_breaks(Seq::<char>::empty()) == 0);
        let hl = Seq::<char>::empty() + h.push('\n');
        assert(hl =~= h.push('\n'));
        lemma_line_breaks_add(hl, rows);
        assert forall|j: int| 0 <= j < (hl + rows).len() implies #[trigger] (hl + rows)[j] == '\n'
            || (!is_control_char((hl + rows)[j]) && !is_bidi_char((hl + rows)[j])) by {
            if j < hl.len() {
                assert((hl + rows)[j] == hl[j]);
            } else {
                assert((hl + rows)[j] == rows[j - hl.len()]);
            }
        }
        assert(text == hl + rows);
    } else {
        assert(text =~= rows);
    }
}

proof fn lemma_row_max(row: Seq<Cell>, active: Seq<Column>, c: Column, k: int)
    requires
        0 <= k <= active.len(),
    ensures
        row_max(row, active, c, k) >= 0,
        forall|p: int| 0 <= p < k && active[p] == c ==> #[trigger] row[p].width <= row_max(row, active, c, k),
        row_max(row, active, c, k) == 0 || exists|p: int| 0 <= p < k && active[p] == c && #[trigger] row[p].width == row_max(row, active, c, k),
    decreases k,
{
    if k > 0 {
        lemma_row_max(row, active, c, k - 1);
    }
}

proof fn lemma_table_max(t: Seq<Seq<Cell>>, active: Seq<Column>, c: Column, r: int)
    requires
        0 <= r <= t.len(),
    ensures
        table_max(t, active, c, r) >= 0,
        forall|i: int, p: int| 0 <= i < r && 0 <= p < active.len() && active[p] == c ==> #[trigger] t[i][p].width <= table_max(t, active, c, r),
        table_max(t, active, c, r) == 0 || exists|i: int, p: int|
            0 <= i < r && 0 <= p < active.len() && active[p] == c && #[trigger] t[i][p].width == table_max(t, active, c, r),
    decreases r,
{
    if r > 0 {
        lemma_table_max(t, active, c, r - 1);
        lemma_row_max(t[r - 1], active, c, active.len() as int);
        assert forall|i: int, p: int| 0 <= i < r && 0 <= p < active.len() && active[p] == c implies #[trigger] t[i][p].width <= table_max(t, active, c, r) by {
            if i == r - 1 {
                assert(t[r - 1][p].width <= row_max(t[r - 1], active, c, active.len() as int));
            }
        }
        let m = table_max(t, active, c, r - 1);
        let k = row_max(t[r - 1], active, c, active.len() as int);
        if k > m && k != 0 {
            let p = choose|p: int| 0 <= p < active.len() && active[p] == c && #[trigger] t[r - 1][p].width == k;
            assert(t[r - 1][p].width == table_max(t, active, c, r));
        }
    }
}

/// A column is exactly as wide as the wider of its header and its widest
/// cell, over every row: no cell of it is wider, and its width is that of the
/// header or of one of its cells.
pub proof fn column_width_is_the_widest_cell(t: Seq<Seq<Cell>>, active: Seq<Column>, c: Column)
    ensures
        column_width(t, active, c) >= header_label(c).len(),
        forall|i: int, p: int| 0 <= i < t.len() && 0 <= p < active.len() && active[p] == c
            ==> #[trigger] t[i][p].width <= column_width(t, active, c),
        column_width(t, active, c) == header_label(c).len() || exists|i: int, p: int|
            0 <= i < t.len() && 0 <= p < active.len() && active[p] == c && #[trigger] t[i][p].width == column_width(t, active, c),
{
    lemma_table_max(t, active, c, t.len() as int);
}

} // verus!
