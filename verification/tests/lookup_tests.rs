use hibp_check::digest::{compute_digest, split_digest};
use hibp_check::lookup::{prepare_query, resolve_response, LookupError};

const SUFFIX: &str = "1E4C9B93F3F0682250B6CF8331B7EE68FD8";

#[test]
fn matching_line_yields_its_count() {
    let body = "0018A45C4D1DEF81644B54AB7F969B88D65:1\n\
                1E4C9B93F3F0682250B6CF8331B7EE68FD8:21303723\n\
                011053FD0102E94D6AE2F8B83D76FAF94F6:3";
    assert_eq!(resolve_response(body, SUFFIX).unwrap(), 21303723);
}

#[test]
fn known_breach_count_is_large() {
    // the count published for the plaintext `password`
    let body = "1E4C9B93F3F0682250B6CF8331B7EE68FD8:21303723";
    assert!(resolve_response(body, SUFFIX).unwrap() > 20_000_000);
}

#[test]
fn matching_is_case_insensitive() {
    let lower = "1e4c9b93f3f0682250b6cf8331b7ee68fd8:42";
    assert_eq!(resolve_response(lower, SUFFIX).unwrap(), 42);
    let mixed = "1e4C9B93f3f0682250B6CF8331b7ee68FD8:42";
    assert_eq!(resolve_response(mixed, SUFFIX).unwrap(), 42);
}

#[test]
fn no_matching_line_resolves_to_zero() {
    let body = "0018A45C4D1DEF81644B54AB7F969B88D65:1\n\
                011053FD0102E94D6AE2F8B83D76FAF94F6:3";
    assert_eq!(resolve_response(body, SUFFIX).unwrap(), 0);
}

#[test]
fn unpublished_token_resolves_to_zero() {
    // a suffix for a random never-leaked token is in no response line
    let digest = compute_digest("vR7!kQz94mXw20LbT58c");
    let (_, suffix) = split_digest(&digest);
    let body = "0018A45C4D1DEF81644B54AB7F969B88D65:1\n\
                011053FD0102E94D6AE2F8B83D76FAF94F6:3";
    assert_eq!(resolve_response(body, &suffix).unwrap(), 0);
}

#[test]
fn empty_body_resolves_to_zero() {
    assert_eq!(resolve_response("", SUFFIX).unwrap(), 0);
}

#[test]
fn first_matching_line_wins() {
    let body = "1E4C9B93F3F0682250B6CF8331B7EE68FD8:7\n\
                1E4C9B93F3F0682250B6CF8331B7EE68FD8:9";
    assert_eq!(resolve_response(body, SUFFIX).unwrap(), 7);
}

#[test]
fn malformed_lines_are_skipped() {
    let body = "garbage without separator\n\
                \n\
                a:b:c\n\
                1E4C9B93F3F0682250B6CF8331B7EE68FD8:5";
    assert_eq!(resolve_response(body, SUFFIX).unwrap(), 5);
}

#[test]
fn line_with_extra_separator_never_matches() {
    let body = "1E4C9B93F3F0682250B6CF8331B7EE68FD8:5:6";
    assert_eq!(resolve_response(body, SUFFIX).unwrap(), 0);
}

#[test]
fn fields_are_trimmed_before_matching() {
    let body = " 1E4C9B93F3F0682250B6CF8331B7EE68FD8 : 12 ";
    assert_eq!(resolve_response(body, SUFFIX).unwrap(), 12);
}

#[test]
fn unparseable_count_is_an_error() {
    let body = "1E4C9B93F3F0682250B6CF8331B7EE68FD8:many";
    match resolve_response(body, SUFFIX) {
        Err(LookupError::InvalidCount(field)) => assert_eq!(field, "many"),
        other => panic!("expected an invalid-count error, got {:?}", other),
    }
}

#[test]
fn overflowing_count_is_an_error() {
    let body = "1E4C9B93F3F0682250B6CF8331B7EE68FD8:99999999999";
    assert!(matches!(
        resolve_response(body, SUFFIX),
        Err(LookupError::InvalidCount(_))
    ));
}

#[test]
fn query_url_holds_only_the_prefix() {
    let query = prepare_query("password", false);
    assert_eq!(query.url, "http://api.pwnedpasswords.com/range/5BAA6");
    assert_eq!(query.suffix, SUFFIX);
}

#[test]
fn prehashed_query_equals_plaintext_query() {
    let from_plain = prepare_query("password", false);
    let from_digest = prepare_query("5BAA61E4C9B93F3F0682250B6CF8331B7EE68FD8", true);
    assert_eq!(from_plain.url, from_digest.url);
    assert_eq!(from_plain.suffix, from_digest.suffix);
}

#[test]
fn prehashed_and_plaintext_results_agree() {
    let body = "1E4C9B93F3F0682250B6CF8331B7EE68FD8:21303723";
    let plain = prepare_query("password", false);
    let hashed = prepare_query("5BAA61E4C9B93F3F0682250B6CF8331B7EE68FD8", true);
    let a = resolve_response(body, &plain.suffix).unwrap();
    let b = resolve_response(body, &hashed.suffix).unwrap();
    assert_eq!(a, b);
    assert_eq!(a, 21303723);
}
