use cdn_attribution::codec::{decode_count, encode_count};
use cdn_attribution::engine::{
    attribute, attribution_key, plan_request, AttributionPlan, CounterRead, SkipReason,
};

#[test]
fn codec_round_trip_samples() {
    for v in [0u32, 1, 5, 255, 256, 65535, 4294967294, 4294967295] {
        let bytes = encode_count(v);
        assert_eq!(bytes.len(), 4);
        assert_eq!(decode_count(&bytes), Some(v));
    }
}

#[test]
fn codec_is_little_endian() {
    assert_eq!(encode_count(1), vec![1, 0, 0, 0]);
    assert_eq!(encode_count(0x01020304), vec![4, 3, 2, 1]);
    assert_eq!(decode_count(&vec![4, 3, 2, 1]), Some(0x01020304));
}

#[test]
fn codec_rejects_short_records() {
    assert_eq!(decode_count(&vec![]), None);
    assert_eq!(decode_count(&vec![1, 2, 3]), None);
}

#[test]
fn codec_ignores_extra_bytes() {
    assert_eq!(decode_count(&vec![7, 0, 0, 0, 99]), Some(7));
}

#[test]
fn absent_record_counts_as_zero() {
    let fresh = attribute(CounterRead::Absent, 5);
    let zero = attribute(CounterRead::Present(0), 5);
    assert_eq!(fresh, zero);
    assert_eq!(fresh.write, Some(1));
    assert!(fresh.report);
}

#[test]
fn threshold_caps_reports() {
    assert!(attribute(CounterRead::Present(4), 5).report);
    let at = attribute(CounterRead::Present(5), 5);
    assert!(!at.report);
    assert_eq!(at.write, Some(6));
    assert!(!attribute(CounterRead::Present(100), 5).report);
}

#[test]
fn negative_or_zero_threshold_never_reports() {
    assert!(!attribute(CounterRead::Present(0), 0).report);
    assert!(!attribute(CounterRead::Present(0), -1).report);
}

#[test]
fn saturated_counter_is_reasserted_and_silent() {
    let d = attribute(CounterRead::Present(u32::MAX), 5);
    assert_eq!(d.write, Some(u32::MAX));
    assert!(!d.report);
}

#[test]
fn counter_never_decreases_on_samples() {
    for v in [0u32, 1, 4, 5, 1000, u32::MAX - 1, u32::MAX] {
        let d = attribute(CounterRead::Present(v), 5);
        assert!(d.write.unwrap() >= v);
    }
}

#[test]
fn malformed_record_skips_attribution() {
    let d = attribute(CounterRead::Malformed, 5);
    assert_eq!(d.write, None);
    assert!(!d.report);
}

#[test]
fn six_requests_report_five_times() {
    // threshold 5: the first five countable requests report with
    // pre-increment values 0..4; the sixth does not, yet the stored
    // count still reaches 6.
    let threshold = 5i64;
    let mut store: Option<Vec<u8>> = None;
    let mut reported: Vec<u32> = Vec::new();
    for _ in 0..6 {
        let read = match &store {
            None => CounterRead::Absent,
            Some(bytes) => match decode_count(bytes) {
                Some(v) => CounterRead::Present(v),
                None => CounterRead::Malformed,
            },
        };
        let pre = match read {
            CounterRead::Present(v) => v,
            _ => 0,
        };
        let d = attribute(read, threshold);
        if let Some(v) = d.write {
            store = Some(encode_count(v));
        }
        if d.report {
            reported.push(pre);
        }
    }
    assert_eq!(reported, vec![0, 1, 2, 3, 4]);
    assert_eq!(decode_count(store.as_ref().unwrap()), Some(6));
}

#[test]
fn missing_source_header_skips_store() {
    let p = plan_request("art-1", "mod.jar", None);
    assert_eq!(p, AttributionPlan::Skip(SkipReason::NoSourceAddress));
}

#[test]
fn excluded_extension_skips_store() {
    let p = plan_request("art-1", "README.md", Some("1.2.3.4"));
    assert_eq!(p, AttributionPlan::Skip(SkipReason::ExcludedExtension));
    let p = plan_request("art-1", "notes.markdown", Some("1.2.3.4"));
    assert_eq!(p, AttributionPlan::Skip(SkipReason::ExcludedExtension));
}

#[test]
fn unparseable_address_skips_store() {
    let p = plan_request("art-1", "mod.jar", Some("999.1.1.1"));
    assert_eq!(p, AttributionPlan::Skip(SkipReason::UnusableSourceAddress));
    let p = plan_request("art-1", "mod.jar", Some("not an address"));
    assert_eq!(p, AttributionPlan::Skip(SkipReason::UnusableSourceAddress));
}

#[test]
fn countable_request_gets_composite_key() {
    let p = plan_request("art-1", "mod.jar", Some("1.2.3.4"));
    assert_eq!(p, AttributionPlan::Count(String::from("art-1-67305985")));
}

#[test]
fn key_is_artifact_dash_decimal() {
    assert_eq!(attribution_key("art-1", 67305985), "art-1-67305985");
    assert_eq!(attribution_key("p", 0), "p-0");
    assert_eq!(attribution_key("p", u64::MAX), "p-18446744073709551615");
}
