use cdn_attribution::cdn::{join_cdn_path, make_cdn_url, version_path};
use cdn_attribution::teapot::teapot;
use cdn_attribution::config::{config_from_env, report_threshold, ttl_seconds};
use cdn_attribution::report::{is_success_status, render_report, report_endpoint, DownloadReport};
use cdn_attribution::text::{parse_i64, u64_to_dec};

#[test]
fn join_trims_to_exactly_one_slash() {
    assert_eq!(join_cdn_path("https://cdn.example/", "/data/abc"), "https://cdn.example/data/abc");
    assert_eq!(join_cdn_path("https://cdn.example", "data/abc"), "https://cdn.example/data/abc");
    assert_eq!(join_cdn_path("a///", "///b"), "a/b");
    assert_eq!(join_cdn_path("", ""), "/");
}

#[test]
fn cdn_url_has_no_double_slash() {
    assert_eq!(
        make_cdn_url("https://cdn.example/", "/data/abc"),
        Some(String::from("https://cdn.example/data/abc"))
    );
}

#[test]
fn join_percent_encodes_plus() {
    // A literal `+` in the path is encoded so that no intermediate layer
    // decodes it as a space.
    assert_eq!(
        join_cdn_path("https://cdn.example", "/data/a+b.jar"),
        "https://cdn.example/data/a%2Bb.jar"
    );
    assert_eq!(join_cdn_path("c", "+x++"), "c/%2Bx%2B%2B");
    assert_eq!(
        make_cdn_url("https://cdn.example/", "data/a+b.jar"),
        Some(String::from("https://cdn.example/data/a%2Bb.jar"))
    );
}

#[test]
fn cdn_url_rejects_malformed_origin() {
    assert_eq!(make_cdn_url("notaurl", "data/abc"), None);
    assert_eq!(make_cdn_url("", "data/abc"), None);
}

#[test]
fn version_path_layout() {
    assert_eq!(version_path("h4sh", "1.0.0", "mod.jar"), "data/h4sh/versions/1.0.0/mod.jar");
}

#[test]
fn report_endpoint_under_base() {
    assert_eq!(
        report_endpoint("https://api.example/"),
        "https://api.example/v2/admin/_count-download"
    );
    assert_eq!(
        report_endpoint("https://api.example"),
        "https://api.example/v2/admin/_count-download"
    );
}

#[test]
fn report_payload_exact_bytes() {
    let r = DownloadReport {
        url: String::from("https://x/y?z=1"),
        project_id: String::from("abc"),
        version_name: String::from("1.0+build"),
        ip: String::from("1.2.3.4"),
        headers: vec![
            (String::from("user-agent"), String::from("quote\"back\\slash")),
            (String::from("x-multi"), String::from("line\nbreak\ttab")),
        ],
    };
    let expected = "{\"url\":\"https://x/y?z=1\",\"project_id\":\"abc\",\"version_name\":\"1.0+build\",\"ip\":\"1.2.3.4\",\"headers\":{\"user-agent\":\"quote\\\"back\\\\slash\",\"x-multi\":\"line\\nbreak\\ttab\"}}";
    assert_eq!(render_report(&r), expected);
}

#[test]
fn report_payload_escapes_control_characters() {
    let r = DownloadReport {
        url: String::from("u"),
        project_id: String::from("p"),
        version_name: String::from("v"),
        ip: String::from("i"),
        headers: vec![(String::from("k"), String::from("\u{1}\u{8}\u{c}\u{1f}"))],
    };
    let expected = "{\"url\":\"u\",\"project_id\":\"p\",\"version_name\":\"v\",\"ip\":\"i\",\"headers\":{\"k\":\"\\u0001\\b\\f\\u001f\"}}";
    assert_eq!(render_report(&r), expected);
}

#[test]
fn report_payload_empty_headers() {
    let r = DownloadReport {
        url: String::from("u"),
        project_id: String::from("p"),
        version_name: String::from("v"),
        ip: String::from("i"),
        headers: vec![],
    };
    assert_eq!(
        render_report(&r),
        "{\"url\":\"u\",\"project_id\":\"p\",\"version_name\":\"v\",\"ip\":\"i\",\"headers\":{}}"
    );
}

#[test]
fn teapot_is_short_and_stout() {
    let (code, body) = teapot();
    assert_eq!(code, 418);
    assert_eq!(body, "Error 418: I'm short and stout!");
}

#[test]
fn success_statuses_are_the_two_hundreds() {
    assert!(is_success_status(200));
    assert!(is_success_status(204));
    assert!(is_success_status(299));
    assert!(!is_success_status(199));
    assert!(!is_success_status(300));
    assert!(!is_success_status(404));
    assert!(!is_success_status(500));
}

#[test]
fn ttl_parses_minutes_into_seconds() {
    assert_eq!(ttl_seconds(Some("30")), (1800, false));
    assert_eq!(ttl_seconds(Some("0")), (0, false));
    assert_eq!(ttl_seconds(Some("360")), (21600, false));
}

#[test]
fn ttl_falls_back_and_warns() {
    assert_eq!(ttl_seconds(None), (21600, true));
    assert_eq!(ttl_seconds(Some("junk")), (21600, true));
    assert_eq!(ttl_seconds(Some("")), (21600, true));
    assert_eq!(ttl_seconds(Some("-5")), (21600, true));
    assert_eq!(ttl_seconds(Some("99999999999999999999")), (21600, true));
}

#[test]
fn threshold_parses_or_falls_back() {
    assert_eq!(report_threshold(Some("7")), (7, false));
    assert_eq!(report_threshold(Some("-3")), (-3, false));
    assert_eq!(report_threshold(None), (5, true));
    assert_eq!(report_threshold(Some("five")), (5, true));
}

#[test]
fn config_carries_both_values_and_warnings() {
    let (cfg, ttl_warn, thr_warn) = config_from_env(Some("30"), None);
    assert_eq!(cfg.ttl_seconds, 1800);
    assert_eq!(cfg.threshold, 5);
    assert!(!ttl_warn);
    assert!(thr_warn);
}

#[test]
fn signed_decimal_parsing_is_exact() {
    assert_eq!(parse_i64("0"), Some(0));
    assert_eq!(parse_i64("007"), Some(7));
    assert_eq!(parse_i64("+42"), Some(42));
    assert_eq!(parse_i64("-42"), Some(-42));
    assert_eq!(parse_i64("9223372036854775807"), Some(i64::MAX));
    assert_eq!(parse_i64("9223372036854775808"), None);
    assert_eq!(parse_i64("-9223372036854775808"), Some(i64::MIN));
    assert_eq!(parse_i64("-9223372036854775809"), None);
    assert_eq!(parse_i64(""), None);
    assert_eq!(parse_i64("-"), None);
    assert_eq!(parse_i64("+"), None);
    assert_eq!(parse_i64("1 "), None);
    assert_eq!(parse_i64("1.5"), None);
}

#[test]
fn decimal_rendering_is_exact() {
    assert_eq!(u64_to_dec(0), "0");
    assert_eq!(u64_to_dec(7), "7");
    assert_eq!(u64_to_dec(67305985), "67305985");
    assert_eq!(u64_to_dec(u64::MAX), "18446744073709551615");
}
