use elx::cli::Cli;
use elx::config::Config;
use elx::display::DisplayOptions;
use elx::fs::entry::{Entry, Metadata};
use elx::fs::walker::{listing_walker, sort_entries, text_less, Walker};
use elx::theme::colors::ColorManager;
use elx::theme::icons::IconManager;

fn named(name: &str, size: u64) -> Entry {
    Entry {
        path: name.to_string(),
        abs_path: name.as_bytes().to_vec(),
        mode: 0o100644,
        nlink: 1,
        uid: 0,
        gid: 0,
        size,
        owner: None,
        group: None,
        modified: String::new(),
        name: name.to_string(),
        link_target: None,
        children: None,
        git_status: None,
    }
}

#[test]
fn entries_sort_by_lowercase_name_and_keep_ties_in_order() {
    let sorted = sort_entries(vec![named("b", 0), named("A", 1), named("a", 2), named("C", 3), named("_x", 4)]);
    let names: Vec<(String, u64)> = sorted.iter().map(|e| (e.name.clone(), e.size)).collect();
    assert_eq!(
        names,
        vec![
                ("_x".to_string(), 4),
                ("A".to_string(), 1),
                ("a".to_string(), 2),
                ("b".to_string(), 0),
                ("C".to_string(), 3),
            ]
    );
    assert!(sort_entries(vec![]).is_empty());
}

#[test]
fn text_order_is_by_code_point() {
    assert!(text_less("a", "b"));
    assert!(text_less("ab", "abc"));
    assert!(!text_less("abc", "ab"));
    assert!(!text_less("a", "a"));
    assert!(text_less("Z", "a"));
}

#[test]
fn walker_negates_ignore_globs_and_stops_at_depth() {
    let w = Walker::new(".", false, true, 2, vec!["*.json".to_string(), "target".to_string()]);
    assert_eq!(w.override_globs(), vec!["!*.json".to_string(), "!target".to_string()]);
    assert!(w.descends(true, 1));
    assert!(!w.descends(true, 2));
    assert!(!w.descends(false, 0));
    assert_eq!(w.path(), ".");
    assert_eq!(w.max_depth(), 2);
}

#[test]
fn icons_by_name_then_extension_then_default() {
    let icons = IconManager::new();
    assert_eq!(icons.get_icon("src", true), "\u{f115}");
    assert_eq!(icons.get_icon("/p/Cargo.toml", false), "\u{e68b}");
    assert_eq!(icons.get_icon("/p/other.TOML", false), "\u{e615}");
    assert_eq!(icons.get_icon("/p/main.rs", false), "\u{e7a8}");
    assert_eq!(icons.get_icon("/p/.hidden", false), "\u{f016}");
    assert_eq!(icons.get_icon("/p/noext", false), "\u{f016}");
    assert_eq!(icons.get_icon("/p/README.MD", false), icons.get_icon("/q/readme.md", false));
    assert_eq!(icons.get_icon("/p/README.MD", false), "\u{e609}");
    assert_eq!(icons.get_icon("/p/Main.RS", false), icons.get_icon("/p/main.rs", false));
}

#[test]
fn names_are_colored_by_type() {
    let c = ColorManager::new();
    let dir = c.colorize("d", 0o040755);
    assert!(dir == "\x1b[38;5;12m\x1b[1md\x1b[0m" || dir == "\x1b[m\x1b[1md\x1b[0m", "{dir:?}");
    let exe = c.colorize("x", 0o100755);
    assert!(exe == "\x1b[38;5;10m\x1b[1mx\x1b[0m" || exe == "\x1b[m\x1b[1mx\x1b[0m", "{exe:?}");
    let link = c.colorize("l", 0o120777);
    assert!(link == "\x1b[38;5;14ml\x1b[39m" || link == "\x1b[ml\x1b[m", "{link:?}");
    let file = c.colorize("f", 0o100644);
    assert!(file == "\x1b[38;5;15mf\x1b[39m" || file == "\x1b[mf\x1b[m", "{file:?}");
}

#[test]
fn entries_take_their_file_name_and_keep_link_targets_of_links_only() {
    let meta = |mode: u32| Metadata {
        mode,
        nlink: 2,
        uid: 5,
        gid: 6,
        size: 9,
        owner: None,
        group: Some("staff".to_string()),
        modified: "Mar 04 05:06".to_string(),
    };
    let e = Entry::from_path("dir/sub/file.txt", b"/abs/dir/sub/file.txt".to_vec(), meta(0o100644), Some("t".to_string()));
    assert_eq!(e.name, "file.txt");
    assert_eq!(e.link_target, None);
    assert_eq!(e.size, 9);
    assert_eq!(e.group, Some("staff".to_string()));
    assert!(e.children.is_none() && e.git_status.is_none());
    let l = Entry::from_path("/", b"/".to_vec(), meta(0o120777), Some("t".to_string()));
    assert_eq!(l.name, "/");
    assert_eq!(l.link_target, Some("t".to_string()));
}

#[test]
fn tree_walks_as_deep_as_asked() {
    let mut cli = Cli {
        path: "src".to_string(),
        long: false,
        all: true,
        tree: true,
        depth: Some(2),
        no_icons: false,
        icons: false,
        no_color: false,
        color: false,
        no_hyperlinks: false,
        hyperlinks: false,
        classify: false,
        no_git_ignore: false,
        one_per_line: false,
        ignore: vec![],
        init_config: false,
        update_config: false,
        dry_run: false,
    };
    let options = DisplayOptions::new(&Config::default(), &cli, true);
    let w = listing_walker(&cli, &options);
    assert_eq!(w.max_depth(), 2);
    assert!(w.show_hidden());
    cli.depth = None;
    let options = DisplayOptions::new(&Config::default(), &cli, true);
    assert_eq!(listing_walker(&cli, &options).max_depth(), usize::MAX);
    cli.tree = false;
    assert_eq!(listing_walker(&cli, &options).max_depth(), 1);
}
