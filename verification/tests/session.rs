use compleet::{Channel, ChannelState, CompletionItem, SourceConfig, Sources};

fn one_source_registry() -> Sources {
    Sources::from_configs(&vec![SourceConfig { name: "lipsum", enabled: true }]).unwrap()
}

fn candidate(text: &str) -> CompletionItem {
    CompletionItem {
        details: None,
        format: String::from(text),
        matched_prefix: 0,
        matched_bytes: Vec::new(),
        source: "lipsum",
        text: String::from(text),
    }
}

#[test]
fn a_new_channel_is_idle() {
    let channel = Channel::new(one_source_registry());
    assert_eq!(channel.state, ChannelState::Idle);
    assert_eq!(channel.next_seq, 1);
    assert_eq!(channel.last_delivered, 0);
}

#[test]
fn an_edit_event_starts_a_pending_request() {
    let mut channel = Channel::new(one_source_registry());
    let (seq, cursor) = channel.on_text_changed(String::from("fo"), 2);
    assert_eq!(seq, 1);
    assert_eq!(channel.state, ChannelState::Pending { seq: 1 });
    assert_eq!(channel.next_seq, 2);
    assert_eq!(cursor.byte_offset, 2);
}

#[test]
fn last_request_wins() {
    let mut channel = Channel::new(one_source_registry());
    let (first, _) = channel.on_text_changed(String::from("f"), 1);
    // The second request supersedes the first before its sources resolved.
    let (second, _) = channel.on_text_changed(String::from("fo"), 2);
    assert_ne!(first, second);
    // The first request's late result is discarded, never delivered.
    let stale = channel.resolve(first, vec![candidate("foo")]);
    assert!(stale.is_none());
    assert_eq!(channel.state, ChannelState::Pending { seq: second });
    // The live request's result goes through.
    let fresh = channel.resolve(second, vec![candidate("foo")]);
    assert!(fresh.is_some());
    assert_eq!(channel.state, ChannelState::Delivering { seq: second });
    channel.delivered();
    assert_eq!(channel.state, ChannelState::Idle);
    assert_eq!(channel.last_delivered, second);
}

#[test]
fn a_result_resolves_at_most_once() {
    let mut channel = Channel::new(one_source_registry());
    let (seq, _) = channel.on_text_changed(String::from("fo"), 2);
    let delivered = channel.resolve(seq, vec![candidate("foo")]);
    assert!(delivered.is_some());
    // While delivering, the same sequence number no longer resolves.
    let again = channel.resolve(seq, vec![candidate("foo")]);
    assert!(again.is_none());
    channel.delivered();
    // After delivery the stale sequence number still never resolves.
    let later = channel.resolve(seq, vec![candidate("foo")]);
    assert!(later.is_none());
}

#[test]
fn delivered_results_carry_the_merged_candidates() {
    let mut channel = Channel::new(one_source_registry());
    let (seq, _) = channel.on_text_changed(String::from("fo"), 2);
    let merged = vec![candidate("foo"), candidate("fob")];
    let delivered = channel.resolve(seq, merged).unwrap();
    assert_eq!(delivered.len(), 2);
    assert_eq!(delivered[0].text, "foo");
    assert_eq!(delivered[1].text, "fob");
}

#[test]
fn sequence_numbers_grow_across_requests() {
    let mut channel = Channel::new(one_source_registry());
    let (first, _) = channel.on_text_changed(String::from("a"), 1);
    let (second, _) = channel.on_text_changed(String::from("ab"), 2);
    let (third, _) = channel.on_text_changed(String::from("abc"), 3);
    assert_eq!((first, second, third), (1, 2, 3));
}
