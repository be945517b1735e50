use stormdl::http::{
    accept_ranges_bytes, alt_svc_mentions_h3, calculate_segments, classify_fetch_status,
    content_range_total, filename_from_path, is_success, negotiate, parse_content_disposition,
    parse_u64_dec, percent_decode, plan_transfer, probe_metadata, range_header_value, trimmed,
    FetchClass, PreferredProtocol,
};
use stormdl::range::ByteRange;

#[test]
fn decimal_parsing() {
    assert_eq!(parse_u64_dec(b"0"), Some(0));
    assert_eq!(parse_u64_dec(b"1024"), Some(1024));
    assert_eq!(parse_u64_dec(b"18446744073709551615"), Some(u64::MAX));
    assert_eq!(parse_u64_dec(b"18446744073709551616"), None);
    assert_eq!(parse_u64_dec(b""), None);
    assert_eq!(parse_u64_dec(b"12a"), None);
}

#[test]
fn content_range_reads_the_total() {
    assert_eq!(content_range_total(b"bytes 0-0/1234"), Some(1234));
    assert_eq!(content_range_total(b"bytes 0-0/*"), None);
    assert_eq!(content_range_total(b"999"), Some(999));
    assert_eq!(content_range_total(b"bytes 0-0/"), None);
}

#[test]
fn range_header_rendering() {
    assert_eq!(range_header_value(ByteRange::new(0, 25)), b"bytes=0-24".to_vec());
    assert_eq!(range_header_value(ByteRange::new(75, 100)), b"bytes=75-99".to_vec());
    assert_eq!(range_header_value(ByteRange::new(0, 1)), b"bytes=0-0".to_vec());
}

#[test]
fn header_inspection() {
    assert!(accept_ranges_bytes(b"bytes"));
    assert!(!accept_ranges_bytes(b"none"));
    assert!(alt_svc_mentions_h3(b"h3=\":443\"; ma=86400"));
    assert!(alt_svc_mentions_h3(b"h2=\":443\", h3-29=\":443\""));
    assert!(!alt_svc_mentions_h3(b"clear"));
    assert_eq!(trimmed(b"  x y\t"), b"x y".to_vec());
}

#[test]
fn content_disposition_plain_filename() {
    assert_eq!(
        parse_content_disposition(b"attachment; filename=\"report.pdf\""),
        Some(b"report.pdf".to_vec())
    );
    assert_eq!(
        parse_content_disposition(b"attachment; filename=data.bin"),
        Some(b"data.bin".to_vec())
    );
    assert_eq!(parse_content_disposition(b"inline"), None);
}

#[test]
fn content_disposition_encoded_filename() {
    assert_eq!(
        parse_content_disposition(b"attachment; filename*=UTF-8''a%20b.txt"),
        Some(b"a b.txt".to_vec())
    );
    assert_eq!(parse_content_disposition(b"attachment; filename*=nomarker"), None);
    assert_eq!(percent_decode(b"%41%2Fx%zz"), b"A/x%zz".to_vec());
}

#[test]
fn filename_falls_back_to_the_path() {
    assert_eq!(filename_from_path(b"/a/b/file.iso"), Some(b"file.iso".to_vec()));
    assert_eq!(filename_from_path(b"/a/b/"), None);
    assert_eq!(filename_from_path(b"plain"), Some(b"plain".to_vec()));
}

#[test]
fn probe_partial_content_takes_content_range() {
    let cr = b"bytes 0-0/4096".to_vec();
    let meta = probe_metadata(206, Some(&cr), None, None);
    assert_eq!(meta.size, Some(4096));
    assert!(meta.supports_range);
}

#[test]
fn probe_plain_ok_reads_length_and_accept_ranges() {
    let cl = b"1024".to_vec();
    let ar = b"bytes".to_vec();
    let meta = probe_metadata(200, None, Some(&cl), Some(&ar));
    assert_eq!(meta.size, Some(1024));
    assert!(meta.supports_range);

    let meta = probe_metadata(200, None, Some(&cl), None);
    assert!(!meta.supports_range);
}

#[test]
fn single_small_file_plans_one_full_fetch() {
    // 200 OK, Content-Length 1024, no Accept-Ranges: one segment, no
    // range requests.
    let cl = b"1024".to_vec();
    let meta = probe_metadata(200, None, Some(&cl), None);
    let plan = plan_transfer(meta.size, meta.supports_range);
    assert!(!plan.segmented);
    assert_eq!(plan.num_segments, 1);
}

#[test]
fn probe_without_size_or_ranges_falls_back_to_single() {
    let meta = probe_metadata(200, None, None, None);
    assert_eq!(meta.size, None);
    assert!(!meta.supports_range);
    let plan = plan_transfer(meta.size, meta.supports_range);
    assert!(!plan.segmented);
    assert_eq!(plan.num_segments, 1);

    // A range-capable server with a stated size gets the bucket count.
    let plan = plan_transfer(Some(5_000_000), true);
    assert!(plan.segmented);
    assert_eq!(plan.num_segments, 4);
}

#[test]
fn status_classification() {
    assert_eq!(classify_fetch_status(206), FetchClass::Partial);
    assert_eq!(classify_fetch_status(200), FetchClass::NotRanged);
    assert_eq!(classify_fetch_status(429), FetchClass::RateLimited);
    assert_eq!(classify_fetch_status(503), FetchClass::HttpError);
    assert!(is_success(204));
    assert!(!is_success(301));
}

#[test]
fn protocol_negotiation() {
    assert_eq!(negotiate(PreferredProtocol::Http1, true), PreferredProtocol::Http1);
    assert_eq!(negotiate(PreferredProtocol::Auto, true), PreferredProtocol::Http3);
    assert_eq!(negotiate(PreferredProtocol::Auto, false), PreferredProtocol::Http2);
}

#[test]
fn segment_calculation_paths() {
    assert_eq!(calculate_segments(Some(10 << 20), None, Some(6), false), 6);
    assert_eq!(calculate_segments(Some(5_000_000), None, None, false), 4);
    assert_eq!(calculate_segments(Some(5_000_000), None, None, true), 8);
    // With a 100 ms RTT at the assumed 10 MB/s, the BDP hints 16, capped
    // by the 5 MB bucket at 4; turbo doubles it to 8.
    assert_eq!(calculate_segments(Some(5_000_000), Some(100), None, false), 4);
    assert_eq!(calculate_segments(Some(5_000_000), Some(100), None, true), 8);
}
