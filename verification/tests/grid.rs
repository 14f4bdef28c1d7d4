use elx::display::grid::{render, GridEntry, GridOptions};

fn entry(name: &str) -> GridEntry {
    GridEntry { display_name: name.to_string(), display_width: name.chars().count() }
}

#[test]
fn test_empty_list() {
    let options = GridOptions { terminal_width: 80, entries: vec![] };
    assert_eq!(render(options), "");
}

#[test]
fn test_single_file() {
    let options = GridOptions {
        terminal_width: 80,
        entries: vec![GridEntry { display_name: "file1".to_string(), display_width: 5 }],
    };
    assert_eq!(render(options), "file1\n");
}

#[test]
fn test_exact_columns() {
    let entries = vec![
        GridEntry { display_name: "f1".to_string(), display_width: 2 },
        GridEntry { display_name: "f2".to_string(), display_width: 2 },
        GridEntry { display_name: "f3".to_string(), display_width: 2 },
        GridEntry { display_name: "f4".to_string(), display_width: 2 },
    ];
    let options = GridOptions { terminal_width: 8, entries };
    let expected = "f1  f3\nf2  f4\n";
    assert_eq!(render(options), expected);
}

#[test]
fn test_odd_number_of_files() {
    let entries = vec![
        GridEntry { display_name: "f1".to_string(), display_width: 2 },
        GridEntry { display_name: "f2".to_string(), display_width: 2 },
        GridEntry { display_name: "f3".to_string(), display_width: 2 },
        GridEntry { display_name: "f4".to_string(), display_width: 2 },
        GridEntry { display_name: "f5".to_string(), display_width: 2 },
    ];
    let options = GridOptions { terminal_width: 8, entries };
    let expected = "f1  f4\nf2  f5\nf3\n";
    assert_eq!(render(options), expected);
}

#[test]
fn narrow_terminal_gives_one_column() {
    let options = GridOptions { terminal_width: 3, entries: vec![entry("abc"), entry("de")] };
    assert_eq!(render(options), "abc\nde\n");
}

#[test]
fn zero_width_means_one_name_per_line() {
    let options = GridOptions { terminal_width: 0, entries: vec![entry("a"), entry("b"), entry("c")] };
    assert_eq!(render(options), "a\nb\nc\n");
}

#[test]
fn shorter_names_are_padded_to_the_widest() {
    let options = GridOptions { terminal_width: 20, entries: vec![entry("long"), entry("s")] };
    assert_eq!(render(options), "long  s\n");
}
