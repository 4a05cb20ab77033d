use chat_client::bridge::JsonFields;
use chat_client::decoder::{events_from_fields, Decoder};
use chat_client::StreamResponse;

fn feed_str(d: &mut Decoder, s: &str) -> Vec<StreamResponse> {
    d.feed(&s.as_bytes().to_vec())
}

#[test]
fn data_line_with_response_not_done() {
    let mut d = Decoder::new();
    let evs = feed_str(&mut d, "data: {\"response\":\"hi\",\"done\":false}\n");
    assert_eq!(evs.len(), 1);
    assert_eq!(evs[0].text, "hi");
    assert!(!evs[0].done);
}

#[test]
fn data_line_with_response_done_yields_two_events() {
    let mut d = Decoder::new();
    let evs = feed_str(&mut d, "data: {\"response\":\"hi\",\"done\":true}\n");
    assert_eq!(evs.len(), 2);
    assert_eq!(evs[0].text, "hi");
    assert!(evs[0].done);
    assert_eq!(evs[1].text, "");
    assert!(evs[1].done);
}

#[test]
fn done_marker_yields_single_termination_event() {
    let mut d = Decoder::new();
    let evs = feed_str(&mut d, "data: [DONE]\n");
    assert_eq!(evs.len(), 1);
    assert_eq!(evs[0].text, "");
    assert!(evs[0].done);
}

#[test]
fn data_prefix_with_no_payload_degrades_to_raw_text() {
    // Trimming strips the trailing space, so the line no longer carries the
    // full `data: ` prefix and is treated as raw text.
    let mut d = Decoder::new();
    let evs = feed_str(&mut d, "data: \n");
    assert_eq!(evs.len(), 1);
    assert_eq!(evs[0].text, "data:");
    assert!(!evs[0].done);
}

#[test]
fn raw_line_without_prefix_is_text() {
    let mut d = Decoder::new();
    let evs = feed_str(&mut d, "hello world\n");
    assert_eq!(evs.len(), 1);
    assert_eq!(evs[0].text, "hello world");
    assert!(!evs[0].done);
}

#[test]
fn partial_line_is_retained_and_completed() {
    let mut d = Decoder::new();
    let evs = feed_str(&mut d, "data: {\"respo");
    assert_eq!(evs.len(), 0);
    let evs = feed_str(&mut d, "nse\":\"x\"}\n");
    assert_eq!(evs.len(), 1);
    assert_eq!(evs[0].text, "x");
    assert!(!evs[0].done);
}

#[test]
fn blank_and_whitespace_lines_yield_nothing() {
    let mut d = Decoder::new();
    assert_eq!(feed_str(&mut d, "\n").len(), 0);
    assert_eq!(feed_str(&mut d, "   \t \n").len(), 0);
}

#[test]
fn carriage_returns_are_trimmed_away() {
    let mut d = Decoder::new();
    let evs = feed_str(&mut d, "data: {\"response\":\"hi\"}\r\ndata: [DONE]\r\n");
    assert_eq!(evs.len(), 2);
    assert_eq!(evs[0].text, "hi");
    assert!(!evs[0].done);
    assert!(evs[1].done);
}

#[test]
fn unparseable_payload_is_silently_dropped() {
    let mut d = Decoder::new();
    let evs = feed_str(&mut d, "data: {not json}\n");
    assert_eq!(evs.len(), 0);
}

#[test]
fn done_without_response_yields_only_termination() {
    let mut d = Decoder::new();
    let evs = feed_str(&mut d, "data: {\"done\":true}\n");
    assert_eq!(evs.len(), 1);
    assert_eq!(evs[0].text, "");
    assert!(evs[0].done);
}

#[test]
fn payload_without_done_defaults_to_not_done() {
    let mut d = Decoder::new();
    let evs = feed_str(&mut d, "data: {\"response\":\"ok\"}\n");
    assert_eq!(evs.len(), 1);
    assert_eq!(evs[0].text, "ok");
    assert!(!evs[0].done);
}

#[test]
fn multiple_lines_in_one_chunk_keep_order() {
    let mut d = Decoder::new();
    let evs = feed_str(&mut d, "one\ntwo\ndata: [DONE]\n");
    assert_eq!(evs.len(), 3);
    assert_eq!(evs[0].text, "one");
    assert_eq!(evs[1].text, "two");
    assert!(evs[2].done);
}

#[test]
fn chunk_boundaries_do_not_change_events() {
    let content = "data: {\"response\":\"hi\",\"done\":false}\ndata: {\"response\":\"there\",\"done\":true}\nraw tail\ndata: [DONE]\nleftover";
    let bytes = content.as_bytes();
    let mut whole = Decoder::new();
    let reference: Vec<StreamResponse> = whole.feed(&bytes.to_vec());
    for split in 0..bytes.len() {
        let mut d = Decoder::new();
        let mut evs = d.feed(&bytes[..split].to_vec());
        evs.extend(d.feed(&bytes[split..].to_vec()));
        assert_eq!(evs.len(), reference.len(), "split at {}", split);
        for (a, b) in evs.iter().zip(reference.iter()) {
            assert_eq!(a.text, b.text, "split at {}", split);
            assert_eq!(a.done, b.done, "split at {}", split);
        }
    }
}

#[test]
fn multibyte_character_split_across_chunks_survives() {
    // "你\n" in UTF-8, split inside the three-byte character.
    let bytes = vec![0xE4u8, 0xBD, 0xA0, b'\n'];
    let mut d = Decoder::new();
    assert_eq!(d.feed(&bytes[..2].to_vec()).len(), 0);
    let evs = d.feed(&bytes[2..].to_vec());
    assert_eq!(evs.len(), 1);
    assert_eq!(evs[0].text, "\u{4F60}");
    assert!(!evs[0].done);
}

#[test]
fn invalid_utf8_is_replaced_not_fatal() {
    let bytes = vec![0xFFu8, b'a', b'\n'];
    let mut d = Decoder::new();
    let evs = d.feed(&bytes);
    assert_eq!(evs.len(), 1);
    assert_eq!(evs[0].text, "\u{FFFD}a");
    assert!(!evs[0].done);
}

#[test]
fn trailing_partial_line_stays_buffered() {
    let mut d = Decoder::new();
    let evs = feed_str(&mut d, "no newline here");
    assert_eq!(evs.len(), 0);
    // The stream ends here; the partial line is simply never emitted.
}

#[test]
fn events_from_fields_builds_exact_events() {
    let evs = events_from_fields(Some(JsonFields {
        response: Some("hi".to_string()),
        done: Some(true),
    }));
    assert_eq!(evs.len(), 2);
    assert_eq!(evs[0].text, "hi");
    assert!(evs[0].done);
    assert_eq!(evs[1].text, "");
    assert!(evs[1].done);

    let evs = events_from_fields(Some(JsonFields { response: None, done: None }));
    assert_eq!(evs.len(), 0);

    let evs = events_from_fields(None);
    assert_eq!(evs.len(), 0);
}
