//! Command-line choices, as the argument parser hands them to the library.
use vstd::prelude::*;

verus! {

/// The options of one invocation.
pub struct Cli {
    /// The directory or file to list.
    pub path: String,
    /// Long listing format.
    pub long: bool,
    /// Show hidden files.
    pub all: bool,
    /// Tree view.
    pub tree: bool,
    /// Maximum recursion depth of the tree view.
    pub depth: Option<usize>,
    pub no_icons: bool,
    pub icons: bool,
    pub no_color: bool,
    pub color: bool,
    pub no_hyperlinks: bool,
    pub hyperlinks: bool,
    /// Append '/' to directories.
    pub classify: bool,
    /// Do not respect .gitignore files.
    pub no_git_ignore: bool,
    /// One entry per line.
    pub one_per_line: bool,
    /// Extra glob patterns of entries to leave out.
    pub ignore: Vec<String>,
    /// Write the default configuration file.
    pub init_config: bool,
    /// Migrate the configuration file to the current schema.
    pub update_config: bool,
    /// With `update_config`: report, write nothing.
    pub dry_run: bool,
}

/// The override that a pair of opposite flags asks for: the positive flag
/// wins, then the negative one, else none.
pub open spec fn flag_override(positive: bool, negative: bool) -> Option<bool> {
    if positive {
        Some(true)
    } else if negative {
        Some(false)
    } else {
        None
    }
}

impl Cli {
    /// `--icons` / `--no-icons`.
    pub fn icons_overridden(&self) -> (r: Option<bool>)
        ensures
            r == flag_override(self.icons, self.no_icons),
    {
        if self.icons {
            Some(true)
        } else if self.no_icons {
            Some(false)
        } else {
            None
        }
    }

    /// `--color` / `--no-color`.
    pub fn color_overridden(&self) -> (r: Option<bool>)
        ensures
            r == flag_override(self.color, self.no_color),
    {
        if self.color {
            Some(true)
        } else if self.no_color {
            Some(false)
        } else {
            None
        }
    }

    /// `--hyperlinks` / `--no-hyperlinks`.
    pub fn hyperlinks_overridden(&self) -> (r: Option<bool>)
        ensures
            r == flag_override(self.hyperlinks, self.no_hyperlinks),
    {
        if self.hyperlinks {
            Some(true)
        } else if self.no_hyperlinks {
            Some(false)
        } else {
            None
        }
    }
}

} // verus!
