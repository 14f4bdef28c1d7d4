use elx::display::formatter::{escape_terminal_text, file_uri, format_permissions, wrap_hyperlink};

#[test]
fn file_uri_percent_encodes_unsafe_bytes() {
    assert_eq!(file_uri("/tmp/a b#c".as_bytes()), "file:///tmp/a%20b%23c");
}

#[test]
fn escapes_terminal_controls_and_preserves_readable_unicode() {
    assert_eq!(
        escape_terminal_text("файл界\n\r\t\x1b\x07\u{009b}\u{202e}"),
        "файл界\\n\\r\\t\\u{1b}\\u{7}\\u{9b}\\u{202e}"
    );
    assert_ne!(escape_terminal_text("a\n"), escape_terminal_text("a\\n"));
}

#[test]
fn permissions_show_special_bits_and_file_types() {
    for (mode, expected) in [
        (0o104755, "-rwsr-xr-x"),
        (0o102644, "-rw-r-Sr--"),
        (0o104644, "-rwSr--r--"),
        (0o102755, "-rwxr-sr-x"),
        (0o041777, "drwxrwxrwt"),
        (0o041766, "drwxrw-rwT"),
        (0o120777, "lrwxrwxrwx"),
        (0o010600, "prw-------"),
        (0o140600, "srw-------"),
        (0o020600, "crw-------"),
        (0o060600, "brw-------"),
    ] {
        assert_eq!(format_permissions(mode), expected);
    }
}

#[test]
fn escape_leaves_plain_text_alone() {
    assert_eq!(escape_terminal_text("plain name.txt"), "plain name.txt");
    assert_eq!(escape_terminal_text(""), "");
}

#[test]
fn escape_doubles_backslashes_and_hides_escape_sequences() {
    let out = escape_terminal_text("evil\x1b[31m\nFAKE");
    assert_eq!(out, "evil\\u{1b}[31m\\nFAKE");
    assert!(!out.contains('\x1b'));
    assert_eq!(escape_terminal_text("a\\b"), "a\\\\b");
}

#[test]
fn file_uri_keeps_unreserved_bytes_and_encodes_controls() {
    assert_eq!(file_uri("/home/u/x-y_z.~1".as_bytes()), "file:///home/u/x-y_z.~1");
    assert_eq!(file_uri("/a\x1b[b\n".as_bytes()), "file:///a%1B%5Bb%0A");
    assert_eq!(file_uri(&[b'/', 0xff]), "file:///%FF");
}

#[test]
fn hyperlink_wraps_text_in_osc8() {
    assert_eq!(
        wrap_hyperlink("file:///tmp/a", "a"),
        "\x1b]8;;file:///tmp/a\x1b\\a\x1b]8;;\x1b\\"
    );
}

#[test]
fn permissions_of_plain_files() {
    assert_eq!(format_permissions(0o100644), "-rw-r--r--");
    assert_eq!(format_permissions(0o040755), "drwxr-xr-x");
    assert_eq!(format_permissions(0o100000), "----------");
}

fn read_back(s: &str) -> String {
    let c: Vec<char> = s.chars().collect();
    let mut out = String::new();
    let mut i = 0;
    while i < c.len() {
        if c[i] == '\\' && i + 1 < c.len() {
            match c[i + 1] {
                '\\' => { out.push('\\'); i += 2; continue; }
                'n' => { out.push('\n'); i += 2; continue; }
                'r' => { out.push('\r'); i += 2; continue; }
                't' => { out.push('\t'); i += 2; continue; }
                'u' if i + 2 < c.len() && c[i + 2] == '{' => {
                    if let Some(off) = c[i + 3..].iter().position(|&x| x == '}') {
                        let hex: String = c[i + 3..i + 3 + off].iter().collect();
                        out.push(char::from_u32(u32::from_str_radix(&hex, 16).unwrap()).unwrap());
                        i += 4 + off;
                        continue;
                    }
                }
                _ => {}
            }
        }
        out.push(c[i]);
        i += 1;
    }
    out
}

fn percent_decode(s: &str) -> Vec<u8> {
    let b = s.as_bytes();
    let mut out = Vec::new();
    let mut i = 0;
    while i < b.len() {
        if b[i] == b'%' {
            out.push(u8::from_str_radix(std::str::from_utf8(&b[i + 1..i + 3]).unwrap(), 16).unwrap());
            i += 3;
        } else {
            out.push(b[i]);
            i += 1;
        }
    }
    out
}

#[test]
fn escaped_names_read_back_exactly() {
    for t in ["plain", "a\\nb", "a\nb", "\\u{1b}", "\x1b[31m", "x\u{202e}y\u{9b}", "tab\there\\", ""] {
        assert_eq!(read_back(&escape_terminal_text(t)), t);
    }
}

#[test]
fn file_uris_decode_to_the_path_bytes() {
    for p in [&b"/tmp/a b#c"[..], b"/x/evil\x1b[31m\nFAKE", &[b'/', 0xff, 0x00, b'%'], b""] {
        let uri = file_uri(p);
        assert!(uri.starts_with("file://"));
        assert_eq!(percent_decode(&uri[7..]), p.to_vec());
        let rest = uri[7..].as_bytes();
        for (j, &c) in rest.iter().enumerate() {
            let keep = c.is_ascii_alphanumeric() || b"-._~/".contains(&c);
            let upper_hex = |x: u8| x.is_ascii_digit() || (b'A'..=b'F').contains(&x);
            assert!(keep || (c == b'%' && j + 2 < rest.len() && upper_hex(rest[j + 1]) && upper_hex(rest[j + 2])));
        }
    }
}
