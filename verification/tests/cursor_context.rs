use compleet::Cursor;

fn underscore() -> Vec<u8> {
    "_".as_bytes().to_vec()
}

#[test]
fn word_prefix_is_the_run_of_word_bytes_before_the_cursor() {
    let cursor = Cursor::capture(String::from("foo.ba"), 6);
    assert_eq!(cursor.word_prefix(&underscore()), "ba".as_bytes().to_vec());
}

#[test]
fn word_prefix_after_punctuation_is_empty() {
    let cursor = Cursor::capture(String::from("foo."), 4);
    assert!(cursor.word_prefix(&underscore()).is_empty());
}

#[test]
fn word_prefix_of_a_whole_word_line() {
    let cursor = Cursor::capture(String::from("hello"), 5);
    assert_eq!(cursor.word_prefix(&underscore()), "hello".as_bytes().to_vec());
}

#[test]
fn word_prefix_ignores_text_after_the_cursor() {
    let cursor = Cursor::capture(String::from("abc def"), 3);
    assert_eq!(cursor.word_prefix(&underscore()), "abc".as_bytes().to_vec());
}

#[test]
fn continuation_bytes_extend_the_word() {
    let with_underscore = Cursor::capture(String::from("snake_case"), 10);
    assert_eq!(
        with_underscore.word_prefix(&underscore()),
        "snake_case".as_bytes().to_vec()
    );
    let without = Cursor::capture(String::from("snake_case"), 10);
    assert_eq!(without.word_prefix(&Vec::new()), "case".as_bytes().to_vec());
}

#[test]
fn capture_clamps_an_offset_past_the_line_end() {
    let cursor = Cursor::capture(String::from("ab"), 10);
    assert_eq!(cursor.byte_offset, 2);
}

#[test]
fn word_prefix_stops_at_multibyte_text() {
    // 'é' is no ASCII word byte, so the word starts after it.
    let cursor = Cursor::capture(String::from("éabc"), 5);
    assert_eq!(cursor.word_prefix(&underscore()), "abc".as_bytes().to_vec());
}

#[test]
fn empty_line_has_an_empty_word_prefix() {
    let cursor = Cursor::capture(String::new(), 0);
    assert!(cursor.word_prefix(&underscore()).is_empty());
}
