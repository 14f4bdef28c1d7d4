use elx::display::size::format_size;

fn reference(size: u64) -> String {
    let units = ["B", "K", "M", "G", "T"];
    let mut s = size as f64;
    let mut i = 0;
    while s >= 1024.0 && i < units.len() - 1 {
        s /= 1024.0;
        i += 1;
    }
    if i == 0 {
        format!("{:.0} {}", s, units[i])
    } else {
        format!("{:.1} {}", s, units[i])
    }
}

#[test]
fn sizes_in_bytes_and_units() {
    assert_eq!(format_size(0), "0 B");
    assert_eq!(format_size(512), "512 B");
    assert_eq!(format_size(1023), "1023 B");
    assert_eq!(format_size(1024), "1.0 K");
    assert_eq!(format_size(1536), "1.5 K");
    assert_eq!(format_size(1280), "1.2 K");
    assert_eq!(format_size(2304), "2.2 K");
    assert_eq!(format_size(1792), "1.8 K");
    assert_eq!(format_size(2816), "2.8 K");
    assert_eq!(format_size(1048575), "1024.0 K");
    assert_eq!(format_size(1048576), "1.0 M");
    assert_eq!(format_size(5 * 1024 * 1024 * 1024), "5.0 G");
    assert_eq!(format_size(u64::MAX), "16777216.0 T");
}

#[test]
fn sizes_agree_with_float_formatting() {
    let mut v: u64 = 1;
    while v < u64::MAX / 3 {
        for s in [v - 1, v, v + 1, v * 2 - 1, v + v / 2, v * 3 - 7] {
            assert_eq!(format_size(s), reference(s), "size {s}");
        }
        v = v * 3 + 1;
    }
    for k in 1..=4u32 {
        let d = 1024u64.pow(k);
        for m in 1..200u64 {
            let s = m * d / 4 + m * d / 2 + d / 20 * (m % 3);
            assert_eq!(format_size(s), reference(s), "size {s}");
            let tie = d / 20 * (2 * m + 1);
            assert_eq!(format_size(tie), reference(tie), "size {tie}");
            let quarter = d * m + d / 4 * (m % 4);
            assert_eq!(format_size(quarter), reference(quarter), "size {quarter}");
        }
    }
    for s in [1126u64, 1177, 1228, 1075, 1024 * 1024 * 10 + 52428, 999_999_999, 123_456_789_012] {
        assert_eq!(format_size(s), reference(s), "size {s}");
    }
}
