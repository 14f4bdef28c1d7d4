use elx::cli::Cli;
use elx::config::{default_columns, Config, HyperlinkConfig};
use elx::display::formatter::Column;
use elx::display::{terminal_width_or_default, DisplayOptions};
use elx::path::{extension, extension_of_file_name, file_name, join, named_components};
use elx::text::{decimal_string, starts_with, text_eq};

fn cli() -> Cli {
    Cli {
        path: ".".to_string(),
        long: false,
        all: false,
        tree: false,
        depth: None,
        no_icons: false,
        icons: false,
        no_color: false,
        color: false,
        no_hyperlinks: false,
        hyperlinks: false,
        classify: false,
        no_git_ignore: false,
        one_per_line: false,
        ignore: vec![],
        init_config: false,
        update_config: false,
        dry_run: false,
    }
}

#[test]
fn defaults_of_the_configuration() {
    let c = Config::default();
    assert!(c.icons && c.color && c.git_ignore && !c.classify);
    assert_eq!(c.hyperlinks, HyperlinkConfig { enabled: true, files: true, dirs: false, symlinks: true, executables: true });
    assert!(c.when_not_tty.one_per_line && !c.when_not_tty.icons);
    assert_eq!(default_columns(), vec![Column::Git, Column::Permissions, Column::Links, Column::Owner, Column::Group, Column::Size, Column::Date, Column::Name]);
    assert_eq!(Config::config_path_in(Some(b"/home/u/.config")), b"/home/u/.config/elx/config.toml".to_vec());
    assert_eq!(Config::config_path_in(Some(b"/cfg/")), b"/cfg/elx/config.toml".to_vec());
    assert_eq!(Config::config_path_in(Some(&[b'/', 0xff])), vec![b'/', 0xff, b'/', b'e', b'l', b'x', b'/', b'c', b'o', b'n', b'f', b'i', b'g', b'.', b't', b'o', b'm', b'l']);
    assert_eq!(Config::config_path_in(None), b"config.toml".to_vec());
    assert!(Config::get_default_config_template().contains("[long]"));
}

#[test]
fn options_on_a_terminal_follow_the_configuration() {
    let mut c = Config::default();
    c.ignore = vec!["*.log".to_string()];
    let o = DisplayOptions::new(&c, &cli(), true);
    assert!(o.icons && o.color && o.hyperlinks.enabled && !o.one_per_line && o.git_ignore);
    assert_eq!(o.ignore_globs, vec!["*.log".to_string()]);
}

#[test]
fn options_off_a_terminal_use_when_not_tty_and_drop_hyperlinks() {
    let c = Config::default();
    let o = DisplayOptions::new(&c, &cli(), false);
    assert!(!o.icons && !o.color && !o.hyperlinks.enabled && o.one_per_line);
}

#[test]
fn flags_override_configuration() {
    let c = Config::default();
    let mut a = cli();
    a.icons = true;
    a.no_icons = true;
    a.no_color = true;
    a.hyperlinks = true;
    a.no_git_ignore = true;
    a.classify = true;
    a.depth = Some(3);
    a.ignore = vec!["x".to_string()];
    let o = DisplayOptions::new(&c, &a, false);
    assert!(o.icons && !o.color && o.hyperlinks.enabled && !o.git_ignore && o.classify);
    assert_eq!(o.depth, Some(3));
    assert_eq!(o.ignore_globs, vec!["x".to_string()]);
    assert_eq!(a.icons_overridden(), Some(true));
    assert_eq!(a.color_overridden(), Some(false));
    assert_eq!(cli().hyperlinks_overridden(), None);
}

#[test]
fn unknown_terminal_width_is_eighty() {
    assert_eq!(terminal_width_or_default(None), 80);
    assert_eq!(terminal_width_or_default(Some(132)), 132);
}

#[test]
fn path_pieces() {
    assert_eq!(file_name("/a/b.tar.gz"), Some("b.tar.gz".to_string()));
    assert_eq!(file_name("/a/b/"), Some("b".to_string()));
    assert_eq!(file_name("/"), None);
    assert_eq!(file_name("a/.."), None);
    assert_eq!(extension("/a/b.tar.gz"), Some("gz".to_string()));
    assert_eq!(extension("/a/.bashrc"), None);
    assert_eq!(extension_of_file_name("x."), Some(String::new()));
    assert_eq!(join("/a", "b"), "/a/b");
    assert_eq!(join("/a/", "b"), "/a/b");
    assert_eq!(join("", "b"), "b");
    assert_eq!(named_components("//a/./b//"), vec!["a".to_string(), "b".to_string()]);
}

#[test]
fn small_text_helpers() {
    assert_eq!(decimal_string(0), "0");
    assert_eq!(decimal_string(18446744073709551615), "18446744073709551615");
    assert!(starts_with("customize", "cust"));
    assert!(!starts_with("cu", "cust"));
    assert!(text_eq("é", "é"));
    assert!(!text_eq("a", "b"));
}
