use compleet::matcher::compute;
use compleet::ByteRange;

#[test]
fn prefix_fo_candidate_foo_format_foo_bar() {
    let prefix = "fo".as_bytes().to_vec();
    let (matched_prefix, matched_bytes) = compute(&prefix, "foo", "foo(bar)");
    assert_eq!(matched_prefix, 2);
    assert_eq!(matched_bytes, vec![ByteRange { start: 0, end: 2 }]);
}

#[test]
fn empty_prefix_matches_zero_bytes() {
    let prefix: Vec<u8> = Vec::new();
    let (matched_prefix, matched_bytes) = compute(&prefix, "foo", "foo(bar)");
    assert_eq!(matched_prefix, 0);
    assert!(matched_bytes.is_empty());
}

#[test]
fn format_without_the_match_degrades_to_no_ranges() {
    let prefix = "fo".as_bytes().to_vec();
    let (matched_prefix, matched_bytes) = compute(&prefix, "foo", "bar");
    assert_eq!(matched_prefix, 2);
    assert!(matched_bytes.is_empty());
}

#[test]
fn partial_prefix_match_stops_at_first_difference() {
    let prefix = "fxo".as_bytes().to_vec();
    let (matched_prefix, matched_bytes) = compute(&prefix, "foo", "foo");
    assert_eq!(matched_prefix, 1);
    assert_eq!(matched_bytes, vec![ByteRange { start: 0, end: 1 }]);
}

#[test]
fn offsets_are_byte_offsets_under_multibyte_text() {
    // 'é' is two bytes in UTF-8; the match is located and measured in bytes.
    let prefix = "é".as_bytes().to_vec();
    let (matched_prefix, matched_bytes) = compute(&prefix, "éx", "aé");
    assert_eq!(matched_prefix, 2);
    assert_eq!(matched_bytes, vec![ByteRange { start: 1, end: 3 }]);
}

#[test]
fn first_occurrence_in_format_wins() {
    let prefix = "ab".as_bytes().to_vec();
    let (matched_prefix, matched_bytes) = compute(&prefix, "abc", "xababy");
    assert_eq!(matched_prefix, 2);
    assert_eq!(matched_bytes, vec![ByteRange { start: 1, end: 3 }]);
}

#[test]
fn ranges_stay_within_format_bounds() {
    // The matched run is longer than its occurrence's distance to the end
    // would allow anywhere but at the start.
    let prefix = "abcd".as_bytes().to_vec();
    let (matched_prefix, matched_bytes) = compute(&prefix, "abcd", "abcd");
    assert_eq!(matched_prefix, 4);
    assert_eq!(matched_bytes, vec![ByteRange { start: 0, end: 4 }]);
    for range in &matched_bytes {
        assert!(range.start < range.end);
        assert!(range.end <= "abcd".len());
    }
}

#[test]
fn empty_candidate_text_matches_nothing() {
    let prefix = "fo".as_bytes().to_vec();
    let (matched_prefix, matched_bytes) = compute(&prefix, "", "fo");
    assert_eq!(matched_prefix, 0);
    assert!(matched_bytes.is_empty());
}
