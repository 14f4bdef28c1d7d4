use elx::config::HyperlinkConfig;
use elx::display::formatter::{Column, ColumnFormatter};
use elx::display::grid::grid_listing;
use elx::display::long::LongView;
use elx::display::tree::TreeView;
use elx::display::DisplayOptions;
use elx::fs::entry::Entry;
use elx::git::GitStatus;
use elx::theme::Theme;

fn entry(name: &str, mode: u32, size: u64) -> Entry {
    Entry {
        path: format!("./{name}"),
        abs_path: format!("/home/u/{name}").into_bytes(),
        mode,
        nlink: 1,
        uid: 1000,
        gid: 1000,
        size,
        owner: Some("u".to_string()),
        group: None,
        modified: "Jan 02 03:04".to_string(),
        name: name.to_string(),
        link_target: None,
        children: None,
        git_status: None,
    }
}

fn plain_options() -> DisplayOptions {
    DisplayOptions {
        icons: false,
        color: false,
        hyperlinks: HyperlinkConfig { enabled: false, files: true, dirs: false, symlinks: true, executables: true },
        classify: false,
        git_ignore: true,
        one_per_line: false,
        long_view: false,
        depth: None,
        ignore_globs: vec![],
    }
}

#[test]
fn long_view_aligns_columns_under_headers() {
    let theme = Theme::new();
    let options = plain_options();
    let entries = vec![entry("a.txt", 0o100644, 1234), entry("bin", 0o040755, 4096)];
    let view = LongView::new(&entries, &theme, &options, vec![Column::Permissions, Column::Size, Column::Name], true, false);
    assert_eq!(
        view.render(),
        "Mode        Size Name\n-rw-r--r-- 1.2 K a.txt\ndrwxr-xr-x 4.0 K bin\n"
    );
}

#[test]
fn long_view_hides_an_empty_git_column() {
    let theme = Theme::new();
    let options = plain_options();
    let entries = vec![entry("a", 0o100644, 1)];
    let view = LongView::new(&entries, &theme, &options, vec![Column::Git, Column::Owner, Column::Group, Column::Name], false, true);
    assert_eq!(view.render(), "u    1000  a\n");
    let mut changed = entries;
    changed[0].git_status = Some(GitStatus::Modified);
    let view = LongView::new(&changed, &theme, &options, vec![Column::Git, Column::Links, Column::Name], false, true);
    assert_eq!(view.render(), "M      1 a\n");
}

#[test]
fn tree_view_draws_branches() {
    let theme = Theme::new();
    let options = plain_options();
    let mut dir = entry("d", 0o040755, 0);
    dir.children = Some(vec![entry("x", 0o100644, 0), entry("y", 0o100644, 0)]);
    let entries = vec![dir, entry("f", 0o100644, 0)];
    let view = TreeView::new(&entries, &theme, &options, vec![Column::Name], false, false);
    assert_eq!(
        view.render(),
        "\u{251c}\u{2500}\u{2500} d\n\u{2502}   \u{251c}\u{2500}\u{2500} x\n\u{2502}   \u{2514}\u{2500}\u{2500} y\n\u{2514}\u{2500}\u{2500} f\n"
    );
}

#[test]
fn tree_view_escapes_names_and_shows_link_targets() {
    let theme = Theme::new();
    let options = plain_options();
    let mut link = entry("evil\x1b[31m\nFAKE", 0o120777, 0);
    link.link_target = Some("t\x07".to_string());
    let entries = vec![link];
    let view = TreeView::new(&entries, &theme, &options, vec![Column::Name], false, false);
    assert_eq!(view.render(), "\u{2514}\u{2500}\u{2500} evil\\u{1b}[31m\\nFAKE -> t\\u{7}\n");
}

#[test]
fn name_cell_has_classify_suffix_and_hyperlink() {
    let theme = Theme::new();
    let mut options = plain_options();
    options.classify = true;
    options.hyperlinks.enabled = true;
    options.hyperlinks.dirs = true;
    let f = ColumnFormatter { theme: &theme, options: &options };
    let cell = f.format_column(Column::Name, &entry("my dir", 0o040755, 0));
    assert_eq!(cell.content, "\x1b]8;;file:///home/u/my%20dir\x1b\\my dir/\x1b]8;;\x1b\\");
    assert_eq!(cell.width, 7);
    let owner = f.format_column(Column::Group, &entry("x", 0o100644, 0));
    assert_eq!(owner.content, "1000");
    assert_eq!(owner.width, 4);
}

#[test]
fn grid_listing_puts_one_name_per_line_when_asked() {
    let theme = Theme::new();
    let mut options = plain_options();
    options.one_per_line = true;
    let entries = vec![entry("a", 0o100644, 0), entry("b", 0o100644, 0)];
    assert_eq!(grid_listing(&entries, &theme, &options, 80), Some("a\nb\n".to_string()));
    options.one_per_line = false;
    assert_eq!(grid_listing(&entries, &theme, &options, 80), Some("a  b\n".to_string()));
}

#[test]
fn wide_characters_count_two_columns() {
    let theme = Theme::new();
    let options = plain_options();
    let f = ColumnFormatter { theme: &theme, options: &options };
    let cell = f.format_column(Column::Name, &entry("界a", 0o100644, 0));
    assert_eq!(cell.width, 3);
    let entries = vec![entry("界界", 0o100644, 0), entry("b", 0o100644, 0)];
    assert_eq!(grid_listing(&entries, &theme, &options, 80), Some("界界  b\n".to_string()));
}

#[test]
fn colored_headers_are_underlined() {
    let theme = Theme::new();
    let mut options = plain_options();
    options.color = true;
    let entries = vec![entry("a", 0o100644, 7)];
    let view = LongView::new(&entries, &theme, &options, vec![Column::Size], true, false);
    let out = view.render();
    assert!(out.starts_with("\x1b[4mSize\x1b[0m\n"), "{out:?}");
}

#[test]
fn icons_take_their_width_and_a_space() {
    let theme = Theme::new();
    let mut options = plain_options();
    options.icons = true;
    let f = ColumnFormatter { theme: &theme, options: &options };
    let cell = f.format_column(Column::Name, &entry("main.rs", 0o100644, 0));
    assert_eq!(cell.content, "\u{e7a8} main.rs");
    assert_eq!(cell.width, 9);
}

#[test]
fn names_and_link_targets_cannot_break_lines_in_any_view() {
    let theme = Theme::new();
    let mut options = plain_options();
    let evil = entry("evil\x1b[31m\nFAKE", 0o100644, 0);
    let mut link = entry("link", 0o120777, 0);
    link.link_target = Some("target\x1b]2;injected\x07\nFAKE".to_string());
    let entries = vec![evil, link];
    let mut outputs = Vec::new();
    options.one_per_line = true;
    outputs.push(grid_listing(&entries, &theme, &options, 80).unwrap());
    options.one_per_line = false;
    outputs.push(LongView::new(&entries, &theme, &options, vec![Column::Permissions, Column::Name], false, false).render());
    outputs.push(TreeView::new(&entries, &theme, &options, vec![Column::Name], false, false).render());
    options.long_view = true;
    outputs.push(TreeView::new(&entries, &theme, &options, vec![Column::Size, Column::Name], false, false).render());
    for (i, out) in outputs.iter().enumerate() {
        assert!(!out.contains(['\x1b', '\x07', '\r']), "{out:?}");
        assert!(out.contains("evil\\u{1b}[31m\\nFAKE"), "{out:?}");
        assert_eq!(out.lines().count(), 2, "{out:?}");
        if i > 0 {
            assert!(out.contains("target\\u{1b}]2;injected\\u{7}\\nFAKE"), "{out:?}");
        }
    }
}
