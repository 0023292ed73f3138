use compleet::{CompletionItem, Cursor, SourceConfig, SourceError, Sources};

fn item(text: &str, format: &str, source: &'static str) -> CompletionItem {
    CompletionItem {
        details: None,
        format: String::from(format),
        matched_prefix: 0,
        matched_bytes: Vec::new(),
        source,
        text: String::from(text),
    }
}

fn registry(names: &[&'static str]) -> Sources {
    let configs: Vec<SourceConfig> = names
        .iter()
        .map(|name| SourceConfig { name, enabled: true })
        .collect();
    Sources::from_configs(&configs).unwrap()
}

#[test]
fn equal_matches_keep_registry_order() {
    let sources = registry(&["A", "B"]);
    let cursor = Cursor::capture(String::from("fo"), 2);
    let outcomes = vec![
        Ok(vec![item("foo", "foo", "A")]),
        Ok(vec![item("foobar", "foobar", "B")]),
    ];
    let merged = sources.collect(&cursor, &Vec::new(), outcomes);
    assert_eq!(merged.len(), 2);
    assert_eq!(merged[0].source, "A");
    assert_eq!(merged[0].text, "foo");
    assert_eq!(merged[0].matched_prefix, 2);
    assert_eq!(merged[1].source, "B");
    assert_eq!(merged[1].text, "foobar");
    assert_eq!(merged[1].matched_prefix, 2);
}

#[test]
fn a_failing_source_costs_only_its_own_candidates() {
    let sources = registry(&["A", "B"]);
    let cursor = Cursor::capture(String::from("fo"), 2);
    let outcomes = vec![
        Err(SourceError {
            source: "A",
            message: String::from("provider crashed"),
        }),
        Ok(vec![item("foo", "foo", "B")]),
    ];
    let merged = sources.collect(&cursor, &Vec::new(), outcomes);
    assert_eq!(merged.len(), 1);
    assert_eq!(merged[0].source, "B");
    assert_eq!(merged[0].text, "foo");
}

#[test]
fn merged_list_is_sorted_by_match_length_descending() {
    let sources = registry(&["A"]);
    let cursor = Cursor::capture(String::from("ab"), 2);
    let outcomes = vec![Ok(vec![
        item("zzz", "zzz", "A"),
        item("abc", "abc", "A"),
        item("axe", "axe", "A"),
    ])];
    let merged = sources.collect(&cursor, &Vec::new(), outcomes);
    let texts: Vec<&str> = merged.iter().map(|m| m.text.as_str()).collect();
    assert_eq!(texts, vec!["abc", "axe", "zzz"]);
    let lengths: Vec<u16> = merged.iter().map(|m| m.matched_prefix).collect();
    assert_eq!(lengths, vec![2, 1, 0]);
}

#[test]
fn ties_keep_their_per_source_order() {
    let sources = registry(&["A"]);
    let cursor = Cursor::capture(String::from("ab"), 2);
    let outcomes = vec![Ok(vec![
        item("abel", "abel", "A"),
        item("zulu", "zulu", "A"),
        item("abort", "abort", "A"),
        item("yak", "yak", "A"),
    ])];
    let merged = sources.collect(&cursor, &Vec::new(), outcomes);
    let texts: Vec<&str> = merged.iter().map(|m| m.text.as_str()).collect();
    assert_eq!(texts, vec!["abel", "abort", "zulu", "yak"]);
}

#[test]
fn empty_word_prefix_matches_nothing_and_keeps_order() {
    let sources = registry(&["A", "B"]);
    // The cursor sits right after punctuation: no active completion context.
    let cursor = Cursor::capture(String::from("foo."), 4);
    let outcomes = vec![
        Ok(vec![item("foo", "foo", "A")]),
        Ok(vec![item("bar", "bar", "B")]),
    ];
    let merged = sources.collect(&cursor, &Vec::new(), outcomes);
    assert_eq!(merged.len(), 2);
    assert!(merged.iter().all(|m| m.matched_prefix == 0));
    assert!(merged.iter().all(|m| m.matched_bytes.is_empty()));
    assert_eq!(merged[0].source, "A");
    assert_eq!(merged[1].source, "B");
}

#[test]
fn all_sources_failing_yield_an_empty_list() {
    let sources = registry(&["A", "B"]);
    let cursor = Cursor::capture(String::from("fo"), 2);
    let outcomes = vec![
        Err(SourceError {
            source: "A",
            message: String::from("timed out"),
        }),
        Err(SourceError {
            source: "B",
            message: String::from("protocol error"),
        }),
    ];
    let merged = sources.collect(&cursor, &Vec::new(), outcomes);
    assert!(merged.is_empty());
}

#[test]
fn a_source_stamps_its_identity_on_every_candidate() {
    let sources = registry(&["A"]);
    // The provider claims a wrong identity; the adapter overrides it.
    let raw = vec![item("foo", "foo", "impostor"), item("bar", "bar", "impostor")];
    let stamped = sources.sources[0].attribute(raw);
    assert_eq!(stamped.len(), 2);
    assert!(stamped.iter().all(|c| c.source == "A"));
    assert_eq!(stamped[0].text, "foo");
    assert_eq!(stamped[1].text, "bar");
}

#[test]
fn details_and_display_text_survive_the_merge() {
    let sources = registry(&["A"]);
    let cursor = Cursor::capture(String::from("fo"), 2);
    let mut candidate = item("foo", " foo ", "A");
    candidate.details = Some(vec![String::from("a word"), String::from("of three letters")]);
    let merged = sources.collect(&cursor, &Vec::new(), vec![Ok(vec![candidate])]);
    assert_eq!(merged.len(), 1);
    assert_eq!(merged[0].format, " foo ");
    assert_eq!(
        merged[0].details,
        Some(vec![String::from("a word"), String::from("of three letters")])
    );
}

#[test]
fn highlighting_ranges_point_into_the_format_string() {
    let sources = registry(&["A"]);
    let cursor = Cursor::capture(String::from("fo"), 2);
    let outcomes = vec![Ok(vec![
        item("foo", "foo(bar)", "A"),
        item("four", "[four]", "A"),
    ])];
    let merged = sources.collect(&cursor, &Vec::new(), outcomes);
    for m in &merged {
        for range in &m.matched_bytes {
            assert!(range.start < range.end);
            assert!(range.end <= m.format.len());
        }
    }
    assert_eq!(merged[0].matched_bytes.len(), 1);
    assert_eq!(merged[1].matched_bytes[0].start, 1);
    assert_eq!(merged[1].matched_bytes[0].end, 3);
}
