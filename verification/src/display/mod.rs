//! Listing output: cell formatting and the grid, long and tree layouts.
pub mod formatter;
pub mod grid;
pub mod long;
pub mod size;
pub mod tree;

use vstd::prelude::*;
use crate::cli::{flag_override, Cli};
use crate::config::{Config, HyperlinkConfig};
use crate::display::grid::{grid_listing, is_grid_listing};
use crate::display::long::{is_long_listing, LongView};
use crate::display::tree::{is_tree_listing, TreeView};
use crate::fs::entry::Entry;
use crate::text::{extend_strings, texts};
use crate::theme::Theme;

verus! {

/// The columns of the terminal, or 80 when the width is unknown.
pub fn terminal_width_or_default(width: Option<u16>) -> (r: usize)
    ensures
        r == match width {
            Some(w) => w as usize,
            None => 80usize,
        },
{
    match width {
        Some(w) => w as usize,
        None => 80,
    }
}

/// The settings of one listing, after configuration, terminal and command line.
#[derive(Debug)]
pub struct DisplayOptions {
    pub icons: bool,
    pub color: bool,
    pub hyperlinks: HyperlinkConfig,
    pub classify: bool,
    pub git_ignore: bool,
    pub one_per_line: bool,
    pub long_view: bool,
    pub depth: Option<usize>,
    pub ignore_globs: Vec<String>,
}

/// An override if there is one, else the fallback.
pub open spec fn overridden_or(o: Option<bool>, fallback: bool) -> bool {
    match o {
        Some(b) => b,
        None => fallback,
    }
}

impl DisplayOptions {
    /// Combines the configuration, whether standard output is a terminal, and
    /// the command line: the configuration first, its `when_not_tty` settings
    /// when the output is not a terminal (hyperlinks then off), then the
    /// command-line flags.
    #[verifier::spinoff_prover]
    #[verifier::rlimit(30)]
    pub fn new(config: &Config, cli: &Cli, is_tty: bool) -> (r: Self)
        ensures
            r.icons == overridden_or(
                flag_override(cli.icons, cli.no_icons),
                if is_tty { config.icons } else { config.when_not_tty.icons },
            ),
            r.color == overridden_or(
                flag_override(cli.color, cli.no_color),
                if is_tty { config.color } else { config.when_not_tty.color },
            ),
            r.hyperlinks == (HyperlinkConfig {
                enabled: overridden_or(
                    flag_override(cli.hyperlinks, cli.no_hyperlinks),
                    is_tty && config.hyperlinks.enabled,
                ),
                ..config.hyperlinks
            }),
            r.classify == (cli.classify || config.classify),
            r.git_ignore == (config.git_ignore && !cli.no_git_ignore),
            r.one_per_line == (cli.one_per_line || (!is_tty && config.when_not_tty.one_per_line)),
            r.long_view == cli.long,
            r.depth == (if cli.depth is Some { cli.depth } else { config.depth }),
            texts(r.ignore_globs@) == texts(config.ignore@) + texts(cli.ignore@),
    {
        let mut icons = config.icons;
        let mut color = config.color;
        let mut hyperlinks = config.hyperlinks;
        let mut classify = config.classify;
        let mut git_ignore = config.git_ignore;
        let mut depth = config.depth;
        let mut one_per_line = false;
        let long_view = cli.long;
        let mut ignore_globs: Vec<String> = Vec::new();
        extend_strings(&mut ignore_globs, &config.ignore);

        if !is_tty {
            icons = config.when_not_tty.icons;
            color = config.when_not_tty.color;
            hyperlinks.enabled = false;
            one_per_line = config.when_not_tty.one_per_line;
        }
        if let Some(i) = cli.icons_overridden() {
            icons = i;
        }
        if let Some(c) = cli.color_overridden() {
            color = c;
        }
        if let Some(h) = cli.hyperlinks_overridden() {
            hyperlinks.enabled = h;
        }
        if cli.classify {
            classify = true;
        }
        if cli.no_git_ignore {
            git_ignore = false;
        }
        if cli.one_per_line {
            one_per_line = true;
        }
        if cli.depth.is_some() {
            depth = cli.depth;
        }
        if cli.ignore.len() != 0 {
            extend_strings(&mut ignore_globs, &cli.ignore);
        } else {
            assert(texts(cli.ignore@) =~= Seq::<Seq<char>>::empty());
            assert(texts(ignore_globs@) =~= texts(config.ignore@) + texts(cli.ignore@));
        }
        assert(texts(Seq::<String>::empty()) =~= Seq::<Seq<char>>::empty());
        DisplayOptions {
            icons,
            color,
            hyperlinks,
            classify,
            git_ignore,
            one_per_line,
            long_view,
            depth,
            ignore_globs,
        }
    }
}

/// The listing of the entries in the view the command line asks for: the
/// tree view with `--tree`, else the long listing with `--long`, both with
/// the configured columns, headers and autohide; else the grid for the
/// terminal width. `None` only where the grid cannot be laid out (see
/// `is_grid_listing`).
pub fn render_entries(
    entries: &Vec<Entry>,
    args: &Cli,
    config: &Config,
    options: &DisplayOptions,
    theme: &Theme,
    terminal_width: usize,
) -> (r: Option<String>)
    ensures
        args.tree ==> (r matches Some(t) && is_tree_listing(entries@, *options, config.long.columns@,
            config.long.headers, config.long.autohide_columns, t@)),
        !args.tree && args.long ==> (r matches Some(t) && is_long_listing(entries@, *options, config.long.columns@,
            config.long.headers, config.long.autohide_columns, t@)),
        !args.tree && !args.long ==> is_grid_listing(entries@, *options, terminal_width, r),
{
    if args.tree {
        let view = TreeView::new(entries, theme, options, config.long.columns.clone(), config.long.headers,
            config.long.autohide_columns);
        Some(view.render())
    } else if args.long {
        let view = LongView::new(entries.as_slice(), theme, options, config.long.columns.clone(),
            config.long.headers, config.long.autohide_columns);
        Some(view.render())
    } else {
        grid_listing(entries, theme, options, terminal_width)
    }
}

} // verus!
