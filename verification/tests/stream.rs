use openai_client::error::{ApiError, ParseError, ShapeError};
use openai_client::framing::decode_stream;
use openai_client::json::parse;
use openai_client::stream::{
    document_step, line_step, payload_step, text_step, Step, StreamDecoder, DATA_PREFIX, NEWLINE,
    SENTINEL,
};

fn fragments(items: &[Result<String, ApiError>]) -> Vec<String> {
    items.iter().map(|item| item.as_ref().unwrap().clone()).collect()
}

fn frame(content: &str) -> Vec<u8> {
    format!("data: {{\"choices\":[{{\"delta\":{{\"content\":\"{}\"}},\"finish_reason\":null}}]}}\n", content)
        .into_bytes()
}

#[test]
fn the_literals_of_the_framing() {
    assert_eq!(NEWLINE, b'\n');
    assert_eq!(DATA_PREFIX, "data: ");
    assert_eq!(SENTINEL, "[DONE]");
}

#[test]
fn a_frame_split_over_two_chunks_gives_one_fragment() {
    let mut decoder = StreamDecoder::new();
    let first = decoder.feed(b"data: {\"choices\":[{\"delta\":{\"content\":\"Hel");
    assert!(first.is_empty());
    assert!(!decoder.is_finished());
    let second = decoder.feed(b"lo\"},\"finish_reason\":null}]}\n");
    assert_eq!(fragments(&second), vec!["Hello".to_string()]);
    assert!(!decoder.is_finished());
    assert!(decoder.pending().is_empty());
    let third = decoder.feed(b"data: [DONE]\n");
    assert!(third.is_empty());
    assert!(decoder.is_finished());
}

#[test]
fn the_fragments_of_several_frames_come_in_order() {
    let mut stream = Vec::new();
    stream.extend_from_slice(b"data: {\"choices\":[{\"delta\":{\"role\":\"assistant\"}}]}\n");
    stream.extend_from_slice(&frame("The "));
    stream.extend_from_slice(b"data: {\"choices\":[{\"delta\":{\"content\":\"\"}}]}\n");
    stream.extend_from_slice(&frame("quick "));
    stream.extend_from_slice(b"data: {\"choices\":[{\"delta\":{\"content\":null}}]}\n");
    stream.extend_from_slice(b"data: {\"choices\":[]}\n");
    stream.extend_from_slice(&frame("fox"));
    stream.extend_from_slice(b"data: {\"choices\":[{\"delta\":{},\"finish_reason\":\"stop\"}]}\n");
    let mut decoder = StreamDecoder::new();
    let items = decoder.feed(&stream);
    assert_eq!(
        fragments(&items),
        vec!["The ".to_string(), "quick ".to_string(), "fox".to_string()]
    );
    assert_eq!(fragments(&items).concat(), "The quick fox");
    assert!(!decoder.is_finished());
    assert!(decoder.pending().is_empty());
}

#[test]
fn only_the_first_choice_of_a_frame_is_handed_out() {
    let mut decoder = StreamDecoder::new();
    let items = decoder.feed(
        b"data: {\"choices\":[{\"delta\":{\"content\":\"a\"}},{\"delta\":{\"content\":\"b\"}}]}\n",
    );
    assert_eq!(fragments(&items), vec!["a".to_string()]);
}

#[test]
fn single_bytes_give_what_the_whole_block_gives() {
    let mut stream = Vec::new();
    stream.extend_from_slice(b": keep-alive\n\n");
    stream.extend_from_slice(&frame("Hel"));
    stream.extend_from_slice(b"\n");
    stream.extend_from_slice(&frame("lo, "));
    stream.extend_from_slice(&frame("w\u{f6}rld"));
    stream.extend_from_slice(b"data: [DONE]\n");
    stream.extend_from_slice(&frame("never"));

    let mut whole = StreamDecoder::new();
    let at_once = fragments(&whole.feed(&stream));
    assert_eq!(at_once, vec!["Hel".to_string(), "lo, ".to_string(), "w\u{f6}rld".to_string()]);
    assert!(whole.is_finished());

    let mut bytewise = StreamDecoder::new();
    let mut one_by_one = Vec::new();
    for byte in &stream {
        one_by_one.extend(fragments(&bytewise.feed(&[*byte])));
    }
    assert_eq!(one_by_one, at_once);
    assert!(bytewise.is_finished());

    for size in 2..40 {
        let mut decoder = StreamDecoder::new();
        let mut pieces = Vec::new();
        for piece in stream.chunks(size) {
            pieces.extend(fragments(&decoder.feed(piece)));
        }
        assert_eq!(pieces, at_once);
        assert!(decoder.is_finished());
    }
}

#[test]
fn a_recorded_stream_gives_the_same_however_it_was_cut() {
    let mut stream = Vec::new();
    stream.extend_from_slice(&frame("a"));
    stream.extend_from_slice(&frame("b"));
    stream.extend_from_slice(b"data: [DONE]\n");
    let whole = fragments(&decode_stream(&vec![stream.clone()]));
    assert_eq!(whole, vec!["a".to_string(), "b".to_string()]);
    let halves = vec![stream[..30].to_vec(), Vec::new(), stream[30..].to_vec()];
    assert_eq!(fragments(&decode_stream(&halves)), whole);
    let bytes: Vec<Vec<u8>> = stream.iter().map(|byte| vec![*byte]).collect();
    assert_eq!(fragments(&decode_stream(&bytes)), whole);
    assert!(decode_stream(&Vec::new()).is_empty());
}

#[test]
fn the_sentinel_ends_the_stream_and_drops_what_follows() {
    let mut chunk = Vec::new();
    chunk.extend_from_slice(&frame("a"));
    chunk.extend_from_slice(b"data: [DONE]\n");
    chunk.extend_from_slice(&frame("b"));
    chunk.extend_from_slice(b"data: {broken\npartial");
    let mut decoder = StreamDecoder::new();
    let items = decoder.feed(&chunk);
    assert_eq!(fragments(&items), vec!["a".to_string()]);
    assert!(decoder.is_finished());
    assert!(decoder.pending().is_empty());
    assert!(decoder.feed(&frame("c")).is_empty());
    assert!(decoder.feed(b"data: {broken\n").is_empty());
    assert!(decoder.is_finished());
}

#[test]
fn a_stream_that_breaks_off_hands_out_no_partial_line() {
    let mut decoder = StreamDecoder::new();
    let mut chunk = frame("a");
    chunk.extend_from_slice(b"data: {\"choices\":[{\"delta\":{\"content\":\"b\"}}]}");
    let items = decoder.feed(&chunk);
    assert_eq!(fragments(&items), vec!["a".to_string()]);
    assert!(!decoder.is_finished());
    assert_eq!(decoder.pending(), &b"data: {\"choices\":[{\"delta\":{\"content\":\"b\"}}]}"[..]);
    decoder.finish();
    assert!(decoder.is_finished());
    assert!(decoder.pending().is_empty());
    assert!(decoder.feed(b"\n").is_empty());
}

#[test]
fn a_recorded_stream_that_breaks_off_gives_its_complete_frames() {
    let mut stream = frame("a");
    stream.extend_from_slice(b"data: {\"choices\":[{\"delta\":{\"content\":\"b\"}}]}");
    let items = decode_stream(&vec![stream]);
    assert_eq!(fragments(&items), vec!["a".to_string()]);
}

#[test]
fn a_frame_that_is_not_json_ends_the_stream_with_one_error() {
    let mut chunk = Vec::new();
    chunk.extend_from_slice(&frame("a"));
    chunk.extend_from_slice(b"data: {not json}\n");
    chunk.extend_from_slice(&frame("b"));
    chunk.extend_from_slice(b"data: [DONE]\n");
    let mut decoder = StreamDecoder::new();
    let items = decoder.feed(&chunk);
    assert_eq!(items.len(), 2);
    assert_eq!(items[0].as_ref().unwrap(), "a");
    assert!(matches!(&items[1], Err(ApiError::Parse(ParseError::Syntax(_)))));
    assert!(decoder.is_finished());
    assert!(decoder.pending().is_empty());
    assert!(decoder.feed(&frame("c")).is_empty());
}

#[test]
fn a_frame_of_another_shape_ends_the_stream_with_one_error() {
    let mut decoder = StreamDecoder::new();
    let items = decoder.feed(b"data: {\"error\":\"overloaded\"}\ndata: [DONE]\n");
    assert_eq!(items.len(), 1);
    assert!(matches!(
        &items[0],
        Err(ApiError::Parse(ParseError::Shape(ShapeError::MissingField)))
    ));
    assert!(decoder.is_finished());
}

#[test]
fn lines_that_are_no_frames_are_skipped() {
    let mut stream = Vec::new();
    stream.extend_from_slice(b"\n");
    stream.extend_from_slice(b": ping\n");
    stream.extend_from_slice(b"event: message\n");
    stream.extend_from_slice(b"data:{\"choices\":[{\"delta\":{\"content\":\"no space\"}}]}\n");
    stream.extend_from_slice(b" data: {\"choices\":[{\"delta\":{\"content\":\"indented\"}}]}\n");
    stream.extend_from_slice(b"DATA: {\"choices\":[{\"delta\":{\"content\":\"upper\"}}]}\n");
    stream.extend_from_slice(b"data\n");
    stream.extend_from_slice(b"\r\n");
    stream.extend_from_slice(b"{not json}\n");
    stream.extend_from_slice(&frame("kept"));
    stream.extend_from_slice(b"\n\n\n");
    let mut decoder = StreamDecoder::new();
    let items = decoder.feed(&stream);
    assert_eq!(fragments(&items), vec!["kept".to_string()]);
    assert!(!decoder.is_finished());
}

#[test]
fn malformed_bytes_are_replaced_and_do_not_end_the_stream() {
    let mut chunk = Vec::new();
    chunk.extend_from_slice(b"data: {\"choices\":[{\"delta\":{\"content\":\"a\xffb\"}}]}\n");
    chunk.extend_from_slice(b"\xff\xfe\n");
    chunk.extend_from_slice(&frame("c"));
    let mut decoder = StreamDecoder::new();
    let items = decoder.feed(&chunk);
    assert_eq!(fragments(&items), vec!["a\u{fffd}b".to_string(), "c".to_string()]);
    assert!(!decoder.is_finished());
}

#[test]
fn text_beyond_ascii_survives_a_cut_inside_a_character() {
    let stream = frame("gr\u{fc}\u{df}e \u{1f600}");
    let mut decoder = StreamDecoder::new();
    let mut all = Vec::new();
    for byte in &stream {
        all.extend(fragments(&decoder.feed(&[*byte])));
    }
    assert_eq!(all, vec!["gr\u{fc}\u{df}e \u{1f600}".to_string()]);
}

#[test]
fn a_carriage_return_belongs_to_the_line() {
    let mut decoder = StreamDecoder::new();
    let items = decoder.feed(b"data: {\"choices\":[{\"delta\":{\"content\":\"a\"}}]}\r\n");
    assert_eq!(fragments(&items), vec!["a".to_string()]);
    let items = decoder.feed(b"data: [DONE]\r\n");
    assert_eq!(items.len(), 1);
    assert!(matches!(&items[0], Err(ApiError::Parse(ParseError::Syntax(_)))));
    assert!(decoder.is_finished());
}

#[test]
fn the_prefix_is_stripped_once() {
    assert!(matches!(text_step("data: data: [DONE]"), Step::Fail(ParseError::Syntax(_))));
    assert!(matches!(text_step("data:  [DONE]"), Step::Fail(ParseError::Syntax(_))));
}

#[test]
fn a_transport_failure_is_the_last_item() {
    let mut decoder = StreamDecoder::new();
    assert_eq!(fragments(&decoder.feed(&frame("a"))), vec!["a".to_string()]);
    decoder.feed(b"data: {\"cho");
    match decoder.fail("connection reset".to_string()) {
        Some(ApiError::Transport(report)) => assert_eq!(report, "connection reset"),
        other => panic!("unexpected: {:?}", other),
    }
    assert!(decoder.is_finished());
    assert!(decoder.pending().is_empty());
    assert!(decoder.fail("again".to_string()).is_none());
    assert!(decoder.feed(&frame("b")).is_empty());
}

#[test]
fn a_stream_that_has_ended_reports_no_transport_failure() {
    let mut decoder = StreamDecoder::new();
    decoder.feed(b"data: [DONE]\n");
    assert!(decoder.fail("late".to_string()).is_none());
    let mut decoder = StreamDecoder::new();
    decoder.finish();
    assert!(decoder.fail("late".to_string()).is_none());
}

#[test]
fn a_fresh_decoder_holds_nothing() {
    let mut decoder = StreamDecoder::new();
    assert!(!decoder.is_finished());
    assert!(decoder.pending().is_empty());
    assert!(decoder.feed(b"").is_empty());
    assert!(decoder.pending().is_empty());
    assert!(decoder.feed(b"da").is_empty());
    assert_eq!(decoder.pending(), &b"da"[..]);
    assert!(decoder.feed(b"ta").is_empty());
    assert_eq!(decoder.pending(), &b"data"[..]);
}

#[test]
fn a_line_that_never_ends_is_kept_whole() {
    let mut decoder = StreamDecoder::new();
    let piece = vec![b'x'; 4096];
    for round in 1..=32 {
        assert!(decoder.feed(&piece).is_empty());
        assert_eq!(decoder.pending().len(), round * 4096);
    }
    assert!(!decoder.is_finished());
    assert!(decoder.feed(b"\n").is_empty());
    assert!(decoder.pending().is_empty());
    assert_eq!(fragments(&decoder.feed(&frame("after"))), vec!["after".to_string()]);
}

#[test]
fn a_line_step_decodes_and_classifies() {
    assert!(matches!(line_step(b""), Step::Skip));
    assert!(matches!(line_step(b"event: x"), Step::Skip));
    assert!(matches!(line_step(b"data: [DONE]"), Step::Done));
    assert!(matches!(line_step(b"data: [DONE] "), Step::Fail(ParseError::Syntax(_))));
    assert!(matches!(line_step(b"data: "), Step::Fail(ParseError::Syntax(_))));
    assert!(matches!(
        line_step(b"data: {\"choices\":[{\"delta\":{\"content\":\"x\"}}]}"),
        Step::Emit(text) if text == "x"
    ));
    assert!(matches!(line_step(b"data: {\"choices\":[]}"), Step::Skip));
    assert!(matches!(line_step(b"\xffdata: [DONE]"), Step::Skip));
}

#[test]
fn a_text_step_strips_the_prefix() {
    assert!(matches!(text_step("data: [DONE]"), Step::Done));
    assert!(matches!(text_step("[DONE]"), Step::Skip));
    assert!(matches!(text_step("data:[DONE]"), Step::Skip));
    assert!(matches!(text_step(""), Step::Skip));
    assert!(matches!(text_step("data: 1"), Step::Fail(ParseError::Shape(ShapeError::ExpectedObject))));
}

#[test]
fn a_payload_step_tells_the_sentinel_from_a_chunk() {
    assert!(matches!(payload_step("[DONE]"), Step::Done));
    assert!(matches!(payload_step("[DONE"), Step::Fail(ParseError::Syntax(_))));
    assert!(matches!(payload_step("[]"), Step::Fail(ParseError::Shape(ShapeError::ExpectedObject))));
    assert!(matches!(
        payload_step("{\"choices\":[{\"delta\":{\"content\":\"hi\"}}]}"),
        Step::Emit(text) if text == "hi"
    ));
    assert!(matches!(payload_step("{\"choices\":[{\"delta\":{\"content\":\"\"}}]}"), Step::Skip));
    assert!(matches!(payload_step("{\"choices\":[{\"delta\":{}}]}"), Step::Skip));
    assert!(matches!(
        payload_step("{\"choices\":[{}]}"),
        Step::Fail(ParseError::Shape(ShapeError::MissingField))
    ));
    assert!(matches!(
        payload_step("{\"choices\":[{\"delta\":{\"content\":[]}}]}"),
        Step::Fail(ParseError::Shape(ShapeError::ExpectedText))
    ));
    assert!(matches!(
        payload_step("{\"choices\":{}}"),
        Step::Fail(ParseError::Shape(ShapeError::ExpectedArray))
    ));
}

#[test]
fn a_document_step_takes_what_parsing_gave() {
    assert!(matches!(document_step(parse("{")), Step::Fail(ParseError::Syntax(_))));
    assert!(matches!(
        document_step(parse("null")),
        Step::Fail(ParseError::Shape(ShapeError::ExpectedObject))
    ));
    assert!(matches!(
        document_step(parse("{\"choices\":[{\"delta\":{\"content\":\"x\"}}]}")),
        Step::Emit(text) if text == "x"
    ));
    assert!(matches!(document_step(parse("{\"choices\":[]}")), Step::Skip));
}
