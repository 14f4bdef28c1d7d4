//! The grid layout: names in columns, filled top to bottom, then left to right.
use vstd::prelude::*;
use crate::display::DisplayOptions;
use crate::display::formatter::{
    escape_text, escape_text_is_terminal_safe, grid_entry_ok, grid_width_of, icon_part, is_bidi_char, is_control_char,
    name_content, suffix_of, terminal_safe, ColumnFormatter,
};
use crate::fs::entry::Entry;
use crate::text::{push_char, push_spaces, spaces};
use crate::theme::Theme;

verus! {

/// What the grid lays out.
pub struct GridOptions {
    pub terminal_width: usize,
    pub entries: Vec<GridEntry>,
}

/// One name of the grid and the terminal columns it takes.
pub struct GridEntry {
    pub display_name: String,
    pub display_width: usize,
}

/// The widest entry width of the first `k` entries.
pub open spec fn max_width(es: Seq<GridEntry>, k: int) -> int
    decreases k,
{
    if k <= 0 {
        0
    } else {
        let m = max_width(es, k - 1);
        if es[k - 1].display_width > m {
            es[k - 1].display_width as int
        } else {
            m
        }
    }
}

/// The number of grid columns: as many `max + 2` wide columns as fit, at
/// least one.
pub open spec fn grid_cols(terminal_width: int, col_width: int) -> int {
    if terminal_width / col_width == 0 {
        1
    } else {
        terminal_width / col_width
    }
}

/// The text of one grid position: the entry's name, padded to the column
/// width unless it is in the last column or nothing follows it on the row.
pub open spec fn grid_cell(es: Seq<GridEntry>, rows: int, cols: int, col_width: int, row: int, col: int) -> Seq<char> {
    let n = es.len() as int;
    let idx = col * rows + row;
    if idx < n {
        let e = es[idx];
        if col < cols - 1 && (col + 1) * rows + row < n {
            e.display_name@ + spaces((col_width - e.display_width) as nat)
        } else {
            e.display_name@
        }
    } else {
        Seq::<char>::empty()
    }
}

/// The positions `0..k` of one row.
pub open spec fn grid_row_prefix(es: Seq<GridEntry>, rows: int, cols: int, col_width: int, row: int, k: int) -> Seq<char>
    decreases k,
{
    if k <= 0 {
        Seq::<char>::empty()
    } else {
        grid_row_prefix(es, rows, cols, col_width, row, k - 1) + grid_cell(es, rows, cols, col_width, row, k - 1)
    }
}

/// The rows `0..k` of the grid, each ended by a newline.
pub open spec fn grid_rows_text(es: Seq<GridEntry>, rows: int, cols: int, col_width: int, k: int) -> Seq<char>
    decreases k,
{
    if k <= 0 {
        Seq::<char>::empty()
    } else {
        grid_rows_text(es, rows, cols, col_width, k - 1) + grid_row_prefix(es, rows, cols, col_width, k - 1, cols).push('\n')
    }
}

/// The whole grid: empty without entries, else `ceil(n / cols)` rows.
pub open spec fn grid_text(terminal_width: int, es: Seq<GridEntry>) -> Seq<char> {
    let n = es.len() as int;
    if n == 0 {
        Seq::<char>::empty()
    } else {
        let col_width = max_width(es, n) + 2;
        let cols = grid_cols(terminal_width, col_width);
        let rows = (n + cols - 1) / cols;
        grid_rows_text(es, rows, cols, col_width, rows)
    }
}

proof fn lemma_max_width_bounds(es: Seq<GridEntry>, k: int)
    requires
        0 <= k <= es.len(),
    ensures
        forall|i: int| 0 <= i < k ==> es[i].display_width <= max_width(es, k),
        max_width(es, k) >= 0,
        k > 0 ==> exists|i: int| 0 <= i < k && es[i].display_width == max_width(es, k),
    decreases k,
{
    if k > 0 {
        lemma_max_width_bounds(es, k - 1);
    }
}

proof fn lemma_row_prefix_rest_empty(es: Seq<GridEntry>, rows: int, cols: int, col_width: int, row: int, k: int, m: int)
    requires
        rows >= 1,
        0 <= row < rows,
        0 <= k <= m,
        k * rows + row >= es.len(),
    ensures
        grid_row_prefix(es, rows, cols, col_width, row, m) == grid_row_prefix(es, rows, cols, col_width, row, k),
    decreases m - k,
{
    if m > k {
        lemma_row_prefix_rest_empty(es, rows, cols, col_width, row, k, m - 1);
        assert((m - 1) * rows + row >= k * rows + row) by (nonlinear_arith)
            requires
                m - 1 >= k,
                rows >= 1,
        ;
        assert(grid_cell(es, rows, cols, col_width, row, m - 1) =~= Seq::<char>::empty());
        assert(grid_row_prefix(es, rows, cols, col_width, row, m) =~= grid_row_prefix(es, rows, cols, col_width, row, m - 1));
    }
}

/// The names, each on a line of its own.
pub open spec fn name_lines(es: Seq<GridEntry>) -> Seq<char>
    decreases es.len(),
{
    if es.len() == 0 {
        Seq::<char>::empty()
    } else {
        name_lines(es.drop_last()) + es.last().display_name@.push('\n')
    }
}

proof fn lemma_single_column_rows(es: Seq<GridEntry>, col_width: int, k: int)
    requires
        0 <= k <= es.len(),
    ensures
        grid_rows_text(es, es.len() as int, 1, col_width, k) == name_lines(es.take(k)),
    decreases k,
{
    let n = es.len() as int;
    if k > 0 {
        lemma_single_column_rows(es, col_width, k - 1);
        assert(es.take(k).drop_last() =~= es.take(k - 1));
        assert(grid_cell(es, n, 1, col_width, k - 1, 0) == es[k - 1].display_name@);
        assert(grid_row_prefix(es, n, 1, col_width, k - 1, 0) =~= Seq::<char>::empty());
        assert(grid_row_prefix(es, n, 1, col_width, k - 1, 1) =~= es[k - 1].display_name@);
    }
}

/// When not even one column of the widest name fits (one entry per line
/// asks for width 0), the grid is the names in order, one per line.
pub proof fn narrow_grid_is_one_name_per_line(terminal_width: int, es: Seq<GridEntry>)
    requires
        0 <= terminal_width < max_width(es, es.len() as int) + 2,
    ensures
        grid_text(terminal_width, es) == name_lines(es),
{
    let n = es.len() as int;
    if n > 0 {
        lemma_max_width_bounds(es, n);
        let cw = max_width(es, n) + 2;
        assert(terminal_width / cw == 0) by (nonlinear_arith)
            requires
                0 <= terminal_width < cw,
        ;
        assert(grid_cols(terminal_width, cw) == 1);
        assert((n + 1 - 1) / 1 == n);
        lemma_single_column_rows(es, cw, n);
        assert(es.take(n) =~= es);
    }
}

/// In a row, a name in a column other than the last, with another entry
/// after it on the row, is followed by spaces up to the column width; the
/// name of the last entry of a row gets no padding.
pub proof fn grid_pads_names_to_the_column_width(es: Seq<GridEntry>, rows: int, cols: int, col_width: int, row: int, k: int)
    requires
        rows >= 0,
        row >= 0,
        0 <= k < cols,
        k * rows + row < es.len(),
    ensures
        ({
            let e = es[k * rows + row];
            let before = grid_row_prefix(es, rows, cols, col_width, row, k);
            grid_row_prefix(es, rows, cols, col_width, row, k + 1) == if k + 1 < cols && (k + 1) * rows + row < es.len() {
                before + e.display_name@ + spaces((col_width - e.display_width) as nat)
            } else {
                before + e.display_name@
            }
        }),
{
    assert(k * rows + row >= 0) by (nonlinear_arith)
        requires
            k >= 0,
            rows >= 0,
            row >= 0,
    ;
}

/// Names start at multiples of the column width: when every name is as many
/// characters as it is wide and no wider than the column, the names of a row
/// before column `k` take exactly `k` column widths, for every column `k`
/// that has an entry on that row.
pub proof fn grid_columns_are_aligned(es: Seq<GridEntry>, rows: int, cols: int, col_width: int, row: int, k: int)
    requires
        rows >= 0,
        row >= 0,
        0 <= k < cols,
        k * rows + row < es.len(),
        forall|i: int| 0 <= i < es.len() ==> (#[trigger] es[i]).display_name@.len() == es[i].display_width
            && es[i].display_width <= col_width,
    ensures
        grid_row_prefix(es, rows, cols, col_width, row, k).len() == k * col_width,
    decreases k,
{
    if k > 0 {
        assert((k - 1) * rows + row < es.len()) by (nonlinear_arith)
            requires
                k * rows + row < es.len(),
                k >= 1,
                rows >= 0,
        ;
        assert((k - 1) * rows + row >= 0) by (nonlinear_arith)
            requires
                k >= 1,
                rows >= 0,
                row >= 0,
        ;
        grid_columns_are_aligned(es, rows, cols, col_width, row, k - 1);
        grid_pads_names_to_the_column_width(es, rows, cols, col_width, row, k - 1);
        let e = es[(k - 1) * rows + row];
        assert(((k - 1) + 1) * rows + row == k * rows + row) by (nonlinear_arith);
        assert((k - 1) * col_width + col_width == k * col_width) by (nonlinear_arith);
    } else {
        assert(grid_row_prefix(es, rows, cols, col_width, row, 0) =~= Seq::<char>::empty());
    }
}

/// Lays out the entries in as many columns as the terminal width allows,
/// filling each column top to bottom. Every row ends with a newline.
pub fn render(options: GridOptions) -> (r: String)
    requires
        forall|i: int| 0 <= i < options.entries@.len() ==> #[trigger] options.entries@[i].display_width <= usize::MAX - 2,
    ensures
        r@ == grid_text(options.terminal_width as int, options.entries@),
{
    let count = options.entries.len();
    if count == 0 {
        return String::new();
    }
    let ghost es = options.entries@;
    let mut max_w: usize = 0;
    let mut i: usize = 0;
    while i < count
        invariant
            count == es.len(),
            es == options.entries@,
            i <= count,
            max_w == max_width(es, i as int),
        decreases count - i,
    {
        if options.entries[i].display_width > max_w {
            max_w = options.entries[i].display_width;
        }
        i = i + 1;
    }
    proof {
        lemma_max_width_bounds(es, count as int);
        let j = choose|j: int| 0 <= j < count && es[j].display_width == max_width(es, count as int);
        assert(es[j].display_width <= usize::MAX - 2);
    }
    let col_width = max_w + 2;
    let mut cols = options.terminal_width / col_width;
    if cols == 0 {
        cols = 1;
    }
    let rows = (count - 1) / cols + 1;
    proof {
        assert(rows as int == (count + cols - 1) as int / (cols as int)) by (nonlinear_arith)
            requires
                rows as int == (count - 1) as int / (cols as int) + 1,
                cols >= 1,
                count >= 1,
        ;
        assert(rows >= 1);
        assert(rows <= count) by (nonlinear_arith)
            requires
                rows as int == (count - 1) as int / (cols as int) + 1,
                cols >= 1,
                count >= 1,
        ;
    }
    let mut output = String::new();
    let mut row: usize = 0;
    while row < rows
        invariant
            count == es.len(),
            es == options.entries@,
            1 <= rows <= count,
            cols >= 1,
            col_width == max_width(es, count as int) + 2,
            forall|k: int| 0 <= k < count ==> #[trigger] es[k].display_width <= max_width(es, count as int),
            row <= rows,
            output@ == grid_rows_text(es, rows as int, cols as int, col_width as int, row as int),
        decreases rows - row,
    {
        let ghost before = output@;
        let mut col: usize = 0;
        let mut idx: usize = row;
        let mut more = true;
        while more && col < cols
            invariant
                count == es.len(),
                es == options.entries@,
                1 <= rows <= count,
                cols >= 1,
                row < rows,
                col <= cols,
                col_width == max_width(es, count as int) + 2,
                forall|k: int| 0 <= k < count ==> #[trigger] es[k].display_width <= max_width(es, count as int),
                more ==> idx == col * rows + row && idx < count,
                !more ==> col * rows + row >= count,
                output@ == before + grid_row_prefix(es, rows as int, cols as int, col_width as int, row as int, col as int),
            decreases cols - col,
        {
            let e = &options.entries[idx];
            let ghost prev = output@;
            output.append(e.display_name.as_str());
            let has_next = rows < count - idx;
            if col < cols - 1 && has_next {
                let padding = col_width - e.display_width;
                push_spaces(&mut output, padding);
            }
            proof {
                assert(idx + rows == (col + 1) * rows + row) by (nonlinear_arith)
                    requires
                        idx == col * rows + row,
                ;
                assert(grid_cell(es, rows as int, cols as int, col_width as int, row as int, col as int) ==
                    if col < cols - 1 && has_next {
                        e.display_name@ + spaces((col_width - e.display_width) as nat)
                    } else {
                        e.display_name@
                    });
                assert(output@ =~= before + grid_row_prefix(es, rows as int, cols as int, col_width as int, row as int, col + 1));
            }
            col = col + 1;
            if has_next {
                idx = idx + rows;
            } else {
                more = false;
            }
        }
        proof {
            if !more {
                lemma_row_prefix_rest_empty(es, rows as int, cols as int, col_width as int, row as int, col as int, cols as int);
            }
        }
        push_char(&mut output, '\n');
        row = row + 1;
        assert(output@ =~= grid_rows_text(es, rows as int, cols as int, col_width as int, row as int));
    }
    output
}

/// The width the grid is laid out for: none (one entry per line) when asked
/// for, else the terminal's.
pub open spec fn listing_width(one_per_line: bool, terminal_width: usize) -> int {
    if one_per_line {
        0
    } else {
        terminal_width as int
    }
}

/// `r` is the grid listing of the entries: their grid names (see
/// `grid_entry_ok`) laid out for the terminal width, one per line when asked
/// for; `None` exactly when a name is too wide for the column arithmetic
/// (within two of `usize::MAX`).
pub open spec fn is_grid_listing(es: Seq<Entry>, options: DisplayOptions, terminal_width: usize, r: Option<String>) -> bool {
    match r {
        Some(text) => exists|gs: Seq<GridEntry>|
            #![trigger grid_text(listing_width(options.one_per_line, terminal_width), gs)]
            gs.len() == es.len()
                && (forall|i: int| 0 <= i < gs.len() ==> grid_entry_ok(options, es[i], #[trigger] gs[i]))
                && text@ == grid_text(listing_width(options.one_per_line, terminal_width), gs),
        None => exists|i: int| 0 <= i < es.len() && grid_width_of(options, #[trigger] es[i]) > usize::MAX - 2,
    }
}

/// The grid listing of entries (see `is_grid_listing`).
pub fn grid_listing(entries: &Vec<Entry>, theme: &Theme, options: &DisplayOptions, terminal_width: usize) -> (r: Option<String>)
    ensures
        is_grid_listing(entries@, *options, terminal_width, r),
{
    let formatter = ColumnFormatter { theme, options };
    let n = entries.len();
    let mut es: Vec<GridEntry> = Vec::new();
    let mut i: usize = 0;
    while i < n
        invariant
            n == entries@.len(),
            formatter.options == options,
            i <= n,
            es@.len() == i,
            forall|k: int| 0 <= k < i ==> grid_entry_ok(*options, entries@[k], #[trigger] es@[k]),
            forall|k: int| 0 <= k < i ==> (#[trigger] es@[k]).display_width <= usize::MAX - 2,
            forall|k: int| 0 <= k < i ==> grid_width_of(*options, #[trigger] entries@[k]) <= usize::MAX - 2,
        decreases n - i,
    {
        let g = formatter.grid_entry(&entries[i]);
        if g.display_width > usize::MAX - 2 {
            assert(grid_width_of(*options, entries@[i as int]) > usize::MAX - 2);
            return None;
        }
        es.push(g);
        i = i + 1;
    }
    let width = if options.one_per_line { 0 } else { terminal_width };
    let ghost ev = es@;
    assert(forall|k: int| 0 <= k < es@.len() ==> #[trigger] es@[k].display_width <= usize::MAX - 2);
    let text = render(GridOptions { terminal_width: width, entries: es });
    assert(text@ == grid_text(listing_width(options.one_per_line, terminal_width), ev));
    Some(text)
}

/// The number of line ends in a text.
pub open spec fn line_breaks(s: Seq<char>) -> nat
    decreases s.len(),
{
    if s.len() == 0 {
        0
    } else {
        line_breaks(s.drop_last()) + if s.last() == '\n' { 1nat } else { 0nat }
    }
}

pub proof fn lemma_line_breaks_add(a: Seq<char>, b: Seq<char>)
    ensures
        line_breaks(a + b) == line_breaks(a) + line_breaks(b),
    decreases b.len(),
{
    if b.len() > 0 {
        lemma_line_breaks_add(a, b.drop_last());
        assert((a + b).drop_last() =~= a + b.drop_last());
    } else {
        assert(a + b =~= a);
    }
}

pub proof fn lemma_safe_has_no_breaks(a: Seq<char>)
    requires
        terminal_safe(a),
    ensures
        line_breaks(a) == 0,
    decreases a.len(),
{
    if a.len() > 0 {
        assert(terminal_safe(a.drop_last()));
        lemma_safe_has_no_breaks(a.drop_last());
        assert(!is_control_char(a[a.len() - 1]));
    }
}

/// Line ends, and otherwise no character a terminal acts on.
pub open spec fn safe_lines(s: Seq<char>) -> bool {
    forall|j: int| 0 <= j < s.len() ==> #[trigger] s[j] == '\n' || (!is_control_char(s[j]) && !is_bidi_char(s[j]))
}

proof fn lemma_name_lines_safe(gs: Seq<GridEntry>)
    requires
        forall|i: int| 0 <= i < gs.len() ==> terminal_safe(#[trigger] gs[i].display_name@),
    ensures
        line_breaks(name_lines(gs)) == gs.len(),
        safe_lines(name_lines(gs)),
    decreases gs.len(),
{
    if gs.len() > 0 {
        let rest = gs.drop_last();
        assert forall|i: int| 0 <= i < rest.len() implies terminal_safe(#[trigger] rest[i].display_name@) by {
            assert(rest[i] == gs[i]);
        }
        lemma_name_lines_safe(rest);
        let a = name_lines(rest);
        let n = gs.last().display_name@;
        assert(terminal_safe(gs[gs.len() - 1].display_name@));
        lemma_safe_has_no_breaks(n);
        lemma_line_breaks_add(a, n.push('\n'));
        assert(n.push('\n').drop_last() =~= n);
        let t = a + n.push('\n');
        assert forall|j: int| 0 <= j < t.len() implies #[trigger] t[j] == '\n' || (!is_control_char(t[j]) && !is_bidi_char(t[j])) by {
            if j < a.len() {
                assert(t[j] == a[j]);
            } else if j < a.len() + n.len() {
                assert(t[j] == n[j - a.len()]);
            }
        }
    }
}

/// A plain one-per-line listing (no colors, icons or hyperlinks) has exactly
/// one line per entry, and nothing else in it that a terminal acts on: no
/// name can break a line or steer the terminal.
pub proof fn plain_listing_has_a_line_per_entry(es: Seq<Entry>, options: DisplayOptions, terminal_width: usize, text: String)
    requires
        is_grid_listing(es, options, terminal_width, Some(text)),
        options.one_per_line,
        !options.color,
        !options.icons,
        !options.hyperlinks.enabled,
    ensures
        line_breaks(text@) == es.len(),
        safe_lines(text@),
{
    let gs = choose|gs: Seq<GridEntry>|
        #![trigger grid_text(listing_width(options.one_per_line, terminal_width), gs)]
        gs.len() == es.len()
            && (forall|i: int| 0 <= i < gs.len() ==> grid_entry_ok(options, es[i], #[trigger] gs[i]))
            && text@ == grid_text(listing_width(options.one_per_line, terminal_width), gs);
    lemma_max_width_bounds(gs, gs.len() as int);
    narrow_grid_is_one_name_per_line(0, gs);
    assert forall|i: int| 0 <= i < gs.len() implies terminal_safe(#[trigger] gs[i].display_name@) by {
        assert(grid_entry_ok(options, es[i], gs[i]));
        let safe = escape_text(es[i].name@);
        escape_text_is_terminal_safe(es[i].name@);
        let suffix = suffix_of(options.classify, es[i].mode);
        assert(icon_part(options.icons, es[i]).0 =~= Seq::<char>::empty());
        let d = gs[i].display_name@;
        assert(d == safe + suffix) by {
            let name = choose|name: Seq<char>|
                #![trigger name_content(options, es[i], name, Seq::<char>::empty())]
                crate::display::formatter::maybe_styled(name, safe, options.color,
                    crate::theme::colors::name_style(es[i].mode).0, crate::theme::colors::name_style(es[i].mode).1)
                    && d == {
                    let plain = icon_part(options.icons, es[i]).0 + name + suffix;
                    if crate::display::formatter::hyperlinked(options.hyperlinks, es[i].mode) {
                        crate::display::formatter::hyperlink(crate::display::formatter::file_uri_text(es[i].abs_path@), plain)
                    } else {
                        plain
                    }
                } && name_content(options, es[i], name, Seq::<char>::empty()) == d;
            assert(Seq::<char>::empty() + name + suffix =~= safe + suffix);
        }
        assert forall|j: int| 0 <= j < d.len() implies !is_control_char(#[trigger] d[j]) && !is_bidi_char(d[j]) by {
            if j < safe.len() {
                assert(d[j] == safe[j]);
            } else {
                assert(d[j] == suffix[j - safe.len()]);
            }
        }
    }
    lemma_name_lines_safe(gs);
}

} // verus!
