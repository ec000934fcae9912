use gcs_signing::headers::{extract_header_names, v4_sanitize_headers};
use gcs_signing::encoding::path_encode_v4;
use gcs_signing::options::{
    validate_options, OptionProblem, SignedURLError, SignedURLOptions, SigningScheme, URLStyleKind,
};
use gcs_signing::signer::{canonical_parts, signed_url, string_to_sign_text, BucketHandle, URLStyle, Url};

type Signer = fn(&[u8]) -> Result<Vec<u8>, SignedURLError>;

const NOW: i64 = 1_700_000_000;

fn fixed_signer(_b: &[u8]) -> Result<Vec<u8>, SignedURLError> {
    Ok(vec![0xab, 0x01])
}

fn failing_signer(_b: &[u8]) -> Result<Vec<u8>, SignedURLError> {
    Err(SignedURLError::SigningFailed)
}

fn strings(v: &[&str]) -> Vec<String> {
    v.iter().map(|s| s.to_string()).collect()
}

fn opts() -> SignedURLOptions<Signer> {
    SignedURLOptions {
        google_access_id: "svc@example.iam".to_string(),
        private_key: vec![],
        sign_bytes: Some(fixed_signer as Signer),
        method: "GET".to_string(),
        expires: NOW + 3600,
        content_type: String::new(),
        headers: vec![],
        query_parameters: vec![],
        md5: String::new(),
        style: URLStyleKind::PathStyle,
        insecure: false,
        scheme: SigningScheme::SigningSchemeV4,
    }
}

fn problem(o: &SignedURLOptions<Signer>, now: i64) -> Option<OptionProblem> {
    match validate_options(o, now) {
        Ok(()) => None,
        Err(SignedURLError::InvalidOption(p)) => Some(p),
        Err(_) => panic!("unexpected error"),
    }
}

#[test]
fn validate_accepts_complete_options() {
    assert_eq!(problem(&opts(), NOW), None);
}

#[test]
fn validate_rejects_missing_access_id() {
    let mut o = opts();
    o.google_access_id = String::new();
    assert_eq!(problem(&o, NOW), Some(OptionProblem::MissingAccessId));
}

#[test]
fn validate_rejects_no_or_two_signing_means() {
    let mut o = opts();
    o.sign_bytes = None;
    assert_eq!(problem(&o, NOW), Some(OptionProblem::SigningMeans));
    let mut o = opts();
    o.private_key = b"key".to_vec();
    assert_eq!(problem(&o, NOW), Some(OptionProblem::SigningMeans));
    let mut o = opts();
    o.sign_bytes = None;
    o.private_key = b"key".to_vec();
    assert_eq!(problem(&o, NOW), None);
}

#[test]
fn validate_method_is_case_insensitive() {
    for m in ["get", "Put", "delete", "HEAD", "post"] {
        let mut o = opts();
        o.method = m.to_string();
        assert_eq!(problem(&o, NOW), None, "{}", m);
    }
    for m in ["PATCH", "", "GETS", "OPTIONS"] {
        let mut o = opts();
        o.method = m.to_string();
        assert_eq!(problem(&o, NOW), Some(OptionProblem::InvalidMethod), "{}", m);
    }
}

#[test]
fn validate_rejects_missing_or_past_expiry() {
    let mut o = opts();
    o.expires = 0;
    assert_eq!(problem(&o, NOW), Some(OptionProblem::MissingExpiry));
    o.expires = NOW;
    assert_eq!(problem(&o, NOW), Some(OptionProblem::ExpiryNotInFuture));
    o.expires = NOW - 10;
    assert_eq!(problem(&o, NOW), Some(OptionProblem::ExpiryNotInFuture));
}

#[test]
fn validate_seven_day_boundary() {
    let mut o = opts();
    o.expires = NOW + 7 * 24 * 3600;
    assert_eq!(problem(&o, NOW), None);
    o.expires = NOW + 7 * 24 * 3600 + 1;
    assert_eq!(problem(&o, NOW), Some(OptionProblem::ExpiryTooFar));
}

#[test]
fn validate_md5_checks() {
    let mut o = opts();
    o.md5 = "not-base64!".to_string();
    assert_eq!(problem(&o, NOW), Some(OptionProblem::InvalidMd5));
    o.md5 = "AAAAAAAAAAAAAAAAAAAA".to_string();
    assert_eq!(problem(&o, NOW), Some(OptionProblem::InvalidMd5Length));
    o.md5 = "AAAAAAAAAAAAAAAAAAAAAA==".to_string();
    assert_eq!(problem(&o, NOW), None);
}

#[test]
fn error_messages_name_the_problem() {
    let e = SignedURLError::InvalidOption(OptionProblem::InvalidMethod);
    assert_eq!(e.to_string(), "invalid option storage: invalid HTTP method");
}

#[test]
fn sanitize_trims_lowercases_collapses_and_merges() {
    let out = v4_sanitize_headers(&strings(&[" X-Foo :  a   b\t\tc ", "x-foo:d", "nocolon", "x-empty:  "]));
    assert_eq!(out, strings(&["x-foo:a b\tc,d"]));
}

#[test]
fn sanitize_sorts_by_name() {
    let out = v4_sanitize_headers(&strings(&["b:1", "a:2", "c:3:4"]));
    assert_eq!(out, strings(&["a:2", "b:1", "c:3:4"]));
}

#[test]
fn sanitize_is_idempotent_on_example() {
    let once = v4_sanitize_headers(&strings(&["Z: q  r", "y:s", "Z:t"]));
    let twice = v4_sanitize_headers(&once);
    assert_eq!(once, twice);
}

#[test]
fn header_name_case_does_not_matter() {
    assert_eq!(v4_sanitize_headers(&strings(&["X-Foo:bar"])), v4_sanitize_headers(&strings(&["x-foo:bar"])));
    assert_eq!(extract_header_names(&strings(&["X-Foo:bar"])), extract_header_names(&strings(&["x-foo:bar"])));
}

#[test]
fn extract_names_sorted_once() {
    let names = extract_header_names(&strings(&["X-B:1", "x-a:2", "x-b:3"]));
    assert_eq!(names, strings(&["x-a", "x-b"]));
}

#[test]
fn path_encoding_keeps_slashes() {
    assert_eq!(path_encode_v4("bucket/a b/c+d"), "bucket/a%20b/c%20d");
    assert_eq!(path_encode_v4(""), "");
    let u = Url::new("a b");
    assert_eq!(u.raw_path, "a%20b");
    assert_eq!(u.schema, "https");
}

#[test]
fn signed_url_has_expected_shape() {
    let url = signed_url("bucket", "obj", &opts(), NOW).unwrap();
    assert!(url.starts_with("https://storage.googleapis.com/bucket/obj?X-Goog-Algorithm=GOOG4-RSA-SHA256&X-Goog-Credential=svc%40example.iam%2F20231114%2Fauto%2Fstorage%2Fgoog4_request&X-Goog-Date="), "{}", url);
    assert!(url.contains("&X-Goog-Expires=3600&X-Goog-SignedHeaders=host&X-Goog-Signature=ab01"), "{}", url);
    assert!(url.ends_with("&X-Goog-Signature=ab01"));
}

#[test]
fn signed_url_styles_and_scheme() {
    let mut o = opts();
    o.style = URLStyleKind::VirtualHostedStyle;
    o.insecure = true;
    let url = signed_url("bucket", "obj", &o, NOW).unwrap();
    assert!(url.starts_with("http://bucket.storage.googleapis.com/obj?"), "{}", url);
    let mut o = opts();
    o.style = URLStyleKind::BucketBoundHostname("cdn.example.com".to_string());
    let url = BucketHandle::new("bucket".to_string()).signed_url("obj", &o, NOW).unwrap();
    assert!(url.starts_with("https://cdn.example.com/obj?"), "{}", url);
}

#[test]
fn signed_url_lists_extra_headers_and_params() {
    let mut o = opts();
    o.headers = strings(&["X-Goog-Meta:1"]);
    o.content_type = "text/plain".to_string();
    o.query_parameters = vec![("a".to_string(), strings(&["1", "x y"]))];
    let url = signed_url("bucket", "obj", &o, NOW).unwrap();
    assert!(url.contains("X-Goog-SignedHeaders=content-type%3Bhost%3Bx-goog-meta"), "{}", url);
    assert!(url.contains("&a=1&a=x%20y&X-Goog-Signature="), "{}", url);
}

#[test]
fn signed_url_rejects_colliding_parameter() {
    let mut o = opts();
    o.query_parameters = vec![("X-Goog-Date".to_string(), strings(&["x"]))];
    assert_eq!(
        signed_url("bucket", "obj", &o, NOW),
        Err(SignedURLError::InvalidOption(OptionProblem::QueryCollision))
    );
}

#[test]
fn signed_url_reports_validation_and_signing_errors() {
    let mut o = opts();
    o.method = "PATCH".to_string();
    assert_eq!(signed_url("b", "o", &o, NOW), Err(SignedURLError::InvalidOption(OptionProblem::InvalidMethod)));
    let mut o = opts();
    o.sign_bytes = Some(failing_signer as Signer);
    assert_eq!(signed_url("b", "o", &o, NOW), Err(SignedURLError::SigningFailed));
    let mut o = opts();
    o.sign_bytes = None;
    o.private_key = b"not a pem key".to_vec();
    assert_eq!(signed_url("b", "o", &o, NOW), Err(SignedURLError::SigningFailed));
}

#[test]
fn different_instants_give_different_dates() {
    let mut o = opts();
    o.expires = NOW + 2 * 86400;
    let a = signed_url("bucket", "obj", &o, NOW).unwrap();
    let b = signed_url("bucket", "obj", &o, NOW + 86400).unwrap();
    assert_ne!(a, b);
    assert!(a.contains("X-Goog-Date=2023-11-14T22%3A13%3A20%2B00%3A00"), "{}", a);
    assert!(b.contains("X-Goog-Date=2023-11-15T22%3A13%3A20%2B00%3A00"), "{}", b);
    assert!(b.contains("%2F20231115%2F"), "{}", b);
}

#[test]
fn canonical_request_and_string_to_sign() {
    let p = canonical_parts("bucket", "obj", &opts(), NOW).unwrap();
    let expected = "GET\n/bucket/obj\nX-Goog-Algorithm=GOOG4-RSA-SHA256&X-Goog-Credential=svc%40example.iam%2F20231114%2Fauto%2Fstorage%2Fgoog4_request&X-Goog-Date=2023-11-14T22%3A13%3A20%2B00%3A00&X-Goog-Expires=3600&X-Goog-SignedHeaders=host\nhost:storage.googleapis.com\n\nhost\nUNSIGNED-PAYLOAD";
    assert_eq!(p.request, expected);
    assert_eq!(p.scope, "20231114/auto/storage/goog4_request");
    assert_eq!(p.timestamp, "2023-11-14T22:13:20+00:00");
    let digest = <sha2::Sha256 as sha2::Digest>::digest(expected.as_bytes());
    let hex: String = digest.iter().map(|b| format!("{:02x}", b)).collect();
    assert_eq!(
        string_to_sign_text(&p),
        format!("GOOG4-RSA-SHA256\n2023-11-14T22:13:20+00:00\n20231114/auto/storage/goog4_request\n{}", hex)
    );
}

#[test]
fn payload_hash_header_replaces_unsigned_payload() {
    let mut o = opts();
    o.headers = strings(&["X-Goog-Content-SHA256:abc123"]);
    let p = canonical_parts("bucket", "obj", &o, NOW).unwrap();
    assert!(p.request.ends_with("\nhost;x-goog-content-sha256\nabc123"), "{}", p.request);
}

#[test]
fn generated_headers_are_placed_as_given() {
    let mut o = opts();
    o.content_type = "a  b".to_string();
    let p = canonical_parts("bucket", "obj", &o, NOW).unwrap();
    assert!(p.request.contains("\ncontent-type:a  b\nhost:storage.googleapis.com\n\ncontent-type;host\n"), "{}", p.request);
    let mut o = opts();
    o.content_type = " ".to_string();
    let p = canonical_parts("bucket", "obj", &o, NOW).unwrap();
    assert!(p.request.contains("\ncontent-type: \nhost:storage.googleapis.com\n\ncontent-type;host\n"), "{}", p.request);
}

#[test]
fn caller_host_header_is_not_merged() {
    let mut o = opts();
    o.headers = strings(&["Host:other"]);
    let p = canonical_parts("bucket", "obj", &o, NOW).unwrap();
    assert!(p.request.contains("\nhost:other\nhost:storage.googleapis.com\n\nhost;host\n"), "{}", p.request);
}

#[test]
fn header_names_use_unicode_lower_case() {
    assert_eq!(v4_sanitize_headers(&strings(&["\u{c4}:1"])), strings(&["\u{e4}:1"]));
}

#[test]
fn method_check_uses_unicode_upper_case() {
    let mut o = opts();
    o.method = "po\u{17f}t".to_string();
    assert_eq!(problem(&o, NOW), None);
    let p = canonical_parts("bucket", "obj", &o, NOW).unwrap();
    assert!(p.request.starts_with("POST\n"), "{}", p.request);
}

#[test]
fn payload_hash_value_is_taken_verbatim() {
    let mut o = opts();
    o.headers = strings(&["x-goog-content-sha256: ab  cd "]);
    let p = canonical_parts("bucket", "obj", &o, NOW).unwrap();
    assert!(p.request.ends_with("\nhost;x-goog-content-sha256\n ab  cd "), "{:?}", p.request);
}

#[test]
fn style_trait_forms_host_and_path() {
    assert_eq!(URLStyleKind::PathStyle.host("b"), "storage.googleapis.com");
    assert_eq!(URLStyleKind::PathStyle.path("b", "o"), "b/o");
    assert_eq!(URLStyleKind::VirtualHostedStyle.host("b"), "b.storage.googleapis.com");
    assert_eq!(URLStyleKind::VirtualHostedStyle.path("b", "o"), "o");
}

#[test]
fn every_problem_has_its_message() {
    assert_eq!(OptionProblem::InvalidMd5.message(), "storage: invalid MD5 checksum");
    assert_eq!(OptionProblem::InvalidMd5Length.message(), "storage: invalid MD5 checksum length");
    assert_eq!(SignedURLError::SigningFailed.to_string(), "signing failed");
}

#[test]
fn path_encoding_keeps_segment_count() {
    let p = "a/b c/d+e/";
    assert_eq!(path_encode_v4(p).split('/').count(), p.split('/').count());
}
