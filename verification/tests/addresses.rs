use cdn_attribution::extension::is_counted;
use cdn_attribution::ip::{parse_ipv4, parse_ipv6_top64, parse_source_address};

#[test]
fn ipv4_packs_little_endian() {
    assert_eq!(parse_source_address("1.2.3.4"), Some(67305985));
    assert_eq!(
        parse_source_address("1.2.3.4"),
        Some(u64::from_le_bytes([1, 2, 3, 4, 0, 0, 0, 0]))
    );
    assert_eq!(parse_source_address("0.0.0.0"), Some(0));
    assert_eq!(
        parse_source_address("255.255.255.255"),
        Some(u64::from_le_bytes([255, 255, 255, 255, 0, 0, 0, 0]))
    );
}

#[test]
fn ipv4_rejects_bad_quads() {
    for bad in [
        "", "1", "1.2.3", "1.2.3.4.5", "256.1.1.1", "1.2.3.256", "01.2.3.4", "1.2.3.04",
        "0.0.0.00", "1..2.3", ".1.2.3", "1.2.3.", "a.b.c.d", "1.2.3.4 ",
    ] {
        assert_eq!(parse_ipv4(bad), None, "accepted {bad:?}");
    }
}

#[test]
fn ipv6_truncates_to_top_64_bits() {
    assert_eq!(parse_source_address("::"), Some(0));
    assert_eq!(parse_source_address("::1"), Some(0));
    assert_eq!(
        parse_source_address("2001:db8::1"),
        Some(u64::from_le_bytes([0x20, 0x01, 0x0d, 0xb8, 0, 0, 0, 0]))
    );
    assert_eq!(
        parse_source_address("1:2:3:4:5:6:7:8"),
        Some(u64::from_le_bytes([0, 1, 0, 2, 0, 3, 0, 4]))
    );
    assert_eq!(
        parse_source_address("fe80::dead:beef"),
        Some(u64::from_le_bytes([0xfe, 0x80, 0, 0, 0, 0, 0, 0]))
    );
}

#[test]
fn ipv6_accepts_every_compression_position() {
    assert_eq!(
        parse_ipv6_top64("1::"),
        Some(u64::from_le_bytes([0, 1, 0, 0, 0, 0, 0, 0]))
    );
    assert_eq!(
        parse_ipv6_top64("1:2:3:4:5:6:7::"),
        Some(u64::from_le_bytes([0, 1, 0, 2, 0, 3, 0, 4]))
    );
    assert_eq!(
        parse_ipv6_top64("::1:2:3:4:5:6:7"),
        Some(u64::from_le_bytes([0, 0, 0, 1, 0, 2, 0, 3]))
    );
    assert_eq!(
        parse_ipv6_top64("a:b::c:d"),
        Some(u64::from_le_bytes([0, 0x0a, 0, 0x0b, 0, 0, 0, 0]))
    );
}

#[test]
fn ipv6_accepts_embedded_dotted_quad() {
    // "::ffff:1.2.3.4" has all its top 64 bits zero.
    assert_eq!(parse_ipv6_top64("::ffff:1.2.3.4"), Some(0));
    assert_eq!(
        parse_ipv6_top64("1:2:3:4:5:6:1.2.3.4"),
        Some(u64::from_le_bytes([0, 1, 0, 2, 0, 3, 0, 4]))
    );
}

#[test]
fn ipv6_hex_is_case_insensitive() {
    assert_eq!(parse_ipv6_top64("FE80::1"), parse_ipv6_top64("fe80::1"));
    assert_eq!(
        parse_ipv6_top64("AbCd::"),
        Some(u64::from_le_bytes([0xab, 0xcd, 0, 0, 0, 0, 0, 0]))
    );
}

#[test]
fn ipv6_rejects_malformed_texts() {
    for bad in [
        "", ":", "::::", ":::", "1:2", "1:2:3:4:5:6:7", "1:2:3:4:5:6:7:8:9", "12345::", "g::",
        "1::2::3", "::1::2", ":1:2:3:4:5:6:7", "1:2:3:4:5:6:7:", "::1:2:3:4:5:6:7:8",
        "1:2:3:4:5:6:7:8::", "1.2.3.4::", "1:2:3:4:5:6:7:1.2.3.4", "::ffff:1.2.3.256",
        "fe80::%eth0", "1:2:3:4:5:1.2.3.4:6",
    ] {
        assert_eq!(parse_ipv6_top64(bad), None, "accepted {bad:?}");
    }
}

#[test]
fn extension_exclusion_is_exact() {
    assert!(!is_counted(""));
    assert!(is_counted("mod.jar"));
    assert!(!is_counted("readme.md"));
    assert!(!is_counted("README.markdown"));
    // Matching is case-sensitive on the extension as extracted.
    assert!(is_counted("README.MD"));
    // No extension: always countable.
    assert!(is_counted("md"));
    assert!(is_counted("markdown"));
    assert!(is_counted(".md"));
    assert!(is_counted("file."));
    assert!(is_counted("x.mdx"));
    assert!(!is_counted("a.b.md"));
    assert!(!is_counted("dir/readme.md"));
    assert!(is_counted("dir.md/file"));
}

#[test]
fn extension_ignores_trailing_separators() {
    // Trailing separators and `.` components do not hide the extension.
    assert!(!is_counted("readme.md/"));
    assert!(!is_counted("readme.md///"));
    assert!(!is_counted("readme.md/."));
    assert!(!is_counted("readme.md/./"));
    assert!(!is_counted("readme.md/.//./"));
    assert!(is_counted("mod.jar/"));
    // A path naming a parent or current component has no extension.
    assert!(is_counted("x.md/.."));
    assert!(is_counted("x.md/../"));
    assert!(is_counted(".."));
    assert!(is_counted("."));
    assert!(is_counted("/."));
    assert!(is_counted("a/.md"));
}
