//! The configuration and its defaults.
use vstd::prelude::*;
use crate::display::formatter::Column;

verus! {

/// Which kinds of entries get OSC 8 hyperlinks.
#[derive(Clone, Copy, PartialEq, Eq, Structural, Debug)]
pub struct HyperlinkConfig {
    /// Master switch.
    pub enabled: bool,
    pub files: bool,
    pub dirs: bool,
    pub symlinks: bool,
    pub executables: bool,
}

/// Settings of the long and tree listings.
pub struct LongConfig {
    pub columns: Vec<Column>,
    pub headers: bool,
    pub autohide_columns: bool,
}

/// Settings that replace the global ones when the output is not a terminal.
#[derive(Clone, Copy, PartialEq, Eq, Structural, Debug)]
pub struct WhenNotTty {
    pub icons: bool,
    pub color: bool,
    pub hyperlinks: bool,
    pub one_per_line: bool,
}

/// The whole configuration.
pub struct Config {
    pub schema_version: Option<u32>,
    pub icons: bool,
    pub color: bool,
    pub hyperlinks: HyperlinkConfig,
    pub git_ignore: bool,
    pub classify: bool,
    pub depth: Option<usize>,
    pub ignore: Vec<String>,
    pub long: LongConfig,
    pub when_not_tty: WhenNotTty,
}

/// The default column order of the long listing.
pub open spec fn default_column_seq() -> Seq<Column> {
    seq![
        Column::Git,
        Column::Permissions,
        Column::Links,
        Column::Owner,
        Column::Group,
        Column::Size,
        Column::Date,
        Column::Name,
    ]
}

/// Git, permissions, links, owner, group, size, date, name.
pub fn default_columns() -> (r: Vec<Column>)
    ensures
        r@ == default_column_seq(),
{
    let r = vec![
        Column::Git,
        Column::Permissions,
        Column::Links,
        Column::Owner,
        Column::Group,
        Column::Size,
        Column::Date,
        Column::Name,
    ];
    assert(r@ =~= default_column_seq());
    r
}

/// The default of the settings that are on unless configured off.
pub fn default_true() -> (r: bool)
    ensures
        r,
{
    true
}

impl Default for HyperlinkConfig {
    fn default() -> (r: Self)
        ensures
            r == (HyperlinkConfig {
                enabled: true,
                files: true,
                dirs: false,
                symlinks: true,
                executables: true,
            }),
    {
        HyperlinkConfig { enabled: true, files: true, dirs: false, symlinks: true, executables: true }
    }
}

impl Default for LongConfig {
    fn default() -> (r: Self)
        ensures
            r.columns@ == default_column_seq(),
            !r.headers,
            !r.autohide_columns,
    {
        LongConfig { columns: default_columns(), headers: false, autohide_columns: false }
    }
}

impl Default for WhenNotTty {
    fn default() -> (r: Self)
        ensures
            r == (WhenNotTty { icons: false, color: false, hyperlinks: false, one_per_line: true }),
    {
        WhenNotTty { icons: false, color: false, hyperlinks: false, one_per_line: true }
    }
}

impl Default for Config {
    fn default() -> (r: Self)
        ensures
            r.schema_version is None,
            r.icons,
            r.color,
            r.hyperlinks == (HyperlinkConfig {
                enabled: true,
                files: true,
                dirs: false,
                symlinks: true,
                executables: true,
            }),
            r.git_ignore,
            !r.classify,
            r.depth is None,
            r.ignore@.len() == 0,
            r.long.columns@ == default_column_seq(),
            !r.long.headers,
            !r.long.autohide_columns,
            r.when_not_tty == (WhenNotTty {
                icons: false,
                color: false,
                hyperlinks: false,
                one_per_line: true,
            }),
    {
        Config {
            schema_version: None,
            icons: true,
            color: true,
            hyperlinks: HyperlinkConfig::default(),
            git_ignore: true,
            classify: false,
            depth: None,
            ignore: Vec::new(),
            long: LongConfig::default(),
            when_not_tty: WhenNotTty::default(),
        }
    }
}

/// `PathBuf::join` on the bytes of Unix paths, with a relative name: a '/'
/// is put between when the base is non-empty and does not already end in '/'.
pub open spec fn join_bytes(base: Seq<u8>, name: Seq<u8>) -> Seq<u8> {
    if base.len() == 0 || base.last() == 47u8 {
        base + name
    } else {
        base.push(47u8) + name
    }
}

/// The bytes of "elx".
pub open spec fn app_dir_name() -> Seq<u8> {
    seq![101u8, 108u8, 120u8]
}

/// The bytes of "config.toml".
pub open spec fn config_file_name() -> Seq<u8> {
    seq![99u8, 111u8, 110u8, 102u8, 105u8, 103u8, 46u8, 116u8, 111u8, 109u8, 108u8]
}

/// The configuration file for a user configuration directory, if there is one:
/// `<dir>/elx/config.toml`, else `config.toml`, as path bytes.
pub open spec fn config_path_for(config_dir: Option<Seq<u8>>) -> Seq<u8> {
    match config_dir {
        Some(d) => join_bytes(join_bytes(d, app_dir_name()), config_file_name()),
        None => config_file_name(),
    }
}

fn append_bytes(v: &mut Vec<u8>, s: &[u8])
    ensures
        final(v)@ == old(v)@ + s@,
{
    let n = s.len();
    let mut i: usize = 0;
    while i < n
        invariant
            n == s@.len(),
            i <= n,
            v@ == old(v)@ + s@.take(i as int),
        decreases n - i,
    {
        v.push(s[i]);
        assert(s@.take(i + 1) =~= s@.take(i as int).push(s@[i as int]));
        i = i + 1;
    }
    assert(s@.take(n as int) =~= s@);
}

fn join_bytes_exec(base: &[u8], name: &[u8]) -> (r: Vec<u8>)
    ensures
        r@ == join_bytes(base@, name@),
{
    let mut v: Vec<u8> = Vec::new();
    append_bytes(&mut v, base);
    if base.len() > 0 && base[base.len() - 1] != 47u8 {
        v.push(47u8);
    }
    append_bytes(&mut v, name);
    assert(v@ =~= join_bytes(base@, name@));
    v
}

/// The text of the default configuration file.
pub const DEFAULT_CONFIG_TEMPLATE: &'static str = "# elx configuration file\n\n# Display icons next to file names (requires Nerd Font)\nicons = true\n\n# Use colors in output\ncolor = true\n\n# Enable clickable hyperlinks in supported terminals (OSC 8)\nhyperlinks = true\n\n# Respect .gitignore files\ngit_ignore = true\n\n# Append indicator (one of /) to directories\nclassify = false\n\n# Default recursion depth for tree view (uncomment to set)\n# depth = 3\n\n[long]\n# Display column headers in long listing format\nheaders = true\n\n# Automatically hide columns that are empty for all shown entries (e.g., Git column if no changes)\nautohide_columns = true\n\n# Columns to display in long listing format.\n# Available columns: git, permissions, links, owner, group, size, date, name\ncolumns = [\n    \"git\",\n    \"permissions\",\n    \"links\",\n    \"owner\",\n    \"group\",\n    \"size\",\n    \"date\",\n    \"name\",\n]\n\n[when_not_tty]\n# Configuration for when output is redirected (e.g., to a file or pipe)\nicons = false\ncolor = false\nhyperlinks = false\none_per_line = true\n";

/// `dirs::config_dir`: the user configuration directory, if the platform
/// and environment name one (on Linux `$XDG_CONFIG_HOME` or `$HOME/.config`),
/// as the bytes of the path (`OsString::into_encoded_bytes`, the raw bytes on
/// Unix). It depends on the environment, so nothing is stated of it.
#[verifier::external_body]
fn user_config_dir() -> (r: Option<Vec<u8>>) {
    dirs::config_dir().map(|p| p.into_os_string().into_encoded_bytes())
}

impl Config {
    /// The configuration file path below the given user configuration
    /// directory, as path bytes.
    pub fn config_path_in(config_dir: Option<&[u8]>) -> (r: Vec<u8>)
        ensures
            r@ == config_path_for(
                match config_dir {
                    Some(d) => Some(d@),
                    None => None,
                },
            ),
    {
        let app: [u8; 3] = [101u8, 108u8, 120u8];
        let file: [u8; 11] = [99u8, 111u8, 110u8, 102u8, 105u8, 103u8, 46u8, 116u8, 111u8, 109u8, 108u8];
        assert(app@ =~= app_dir_name());
        assert(file@ =~= config_file_name());
        match config_dir {
            Some(d) => {
                let dir = join_bytes_exec(d, app.as_slice());
                join_bytes_exec(dir.as_slice(), file.as_slice())
            },
            None => {
                let mut v: Vec<u8> = Vec::new();
                append_bytes(&mut v, file.as_slice());
                assert(v@ =~= config_file_name());
                v
            },
        }
    }

    /// The text written by `--init-config`.
    pub fn get_default_config_template() -> (r: &'static str)
        ensures
            r@ == DEFAULT_CONFIG_TEMPLATE@,
    {
        DEFAULT_CONFIG_TEMPLATE
    }

    /// The configuration file path, as path bytes: `elx/config.toml` below
    /// the user configuration directory, or `config.toml` when there is none.
    pub fn get_config_path() -> (r: Vec<u8>)
        ensures
            exists|d: Option<Seq<u8>>| r@ == config_path_for(d),
    {
        let dir = user_config_dir();
        let r = match &dir {
            Some(d) => Config::config_path_in(Some(d.as_slice())),
            None => Config::config_path_in(None),
        };
        proof {
            let d = match dir {
                Some(x) => Some(x@),
                None => None,
            };
            assert(r@ == config_path_for(d));
        }
        r
    }
}

} // verus!
