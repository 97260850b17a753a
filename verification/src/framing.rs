//! What holds of the decoder on every stream: the items it hands out depend
//! on the bytes alone, not on how they were cut into chunks; a sentinel or
//! an unreadable frame ends the stream for good; and only complete frames
//! are ever handed out.

use vstd::prelude::*;
use vstd::utf8::is_ascii_chars;
use crate::error::{ApiError, ApiFault, ParseFault};
use crate::json::json_parse;
use crate::schema::chunk_of;
use crate::stream::{
    after, emitted, feed_model, first_newline, fresh, halted, is_first_newline,
    lemma_first_newline, lemma_scan_wf, line_outcome, no_newline, scan, DecoderState, Item,
    Outcome, Progress, StreamDecoder, DATA_PREFIX, NEWLINE, SENTINEL,
};
use crate::text::{ascii_bytes, decoded_text, lemma_ascii_decodes};
use crate::types::CompletionChunkView;

verus! {

/// A well-formed decoder stays well-formed.
pub proof fn lemma_feed_wf(state: DecoderState, chunk: Seq<u8>)
    requires
        state.wf(),
    ensures
        feed_model(state, chunk).state.wf(),
{
    if !state.finished {
        lemma_scan_wf(state.pending + chunk);
    }
}

/// Bytes without a newline are kept, and nothing is handed out for them.
pub proof fn lemma_scan_partial(bytes: Seq<u8>)
    requires
        no_newline(bytes),
    ensures
        scan(bytes) == (Progress {
            items: Seq::empty(),
            state: DecoderState { pending: bytes, finished: false },
        }),
{
    lemma_first_newline(bytes);
    if first_newline(bytes) is Some {
        let at = first_newline(bytes)->0;
        assert(bytes[at] == NEWLINE);
    }
}

/// Bytes that follow what a decoder has seen are handled as if the decoder
/// had been given both at once.
pub proof fn lemma_scan_append(seen: Seq<u8>, next: Seq<u8>)
    ensures
        scan(seen + next) == after(scan(seen).items, feed_model(scan(seen).state, next)),
    decreases seen.len(),
{
    let both = seen + next;
    lemma_first_newline(seen);
    lemma_first_newline(both);
    match first_newline(seen) {
        None => {
            assert(scan(seen).items + scan(both).items =~= scan(both).items);
        },
        Some(at) => {
            assert(is_first_newline(both, at));
            let rest = seen.skip(at + 1);
            assert(both.take(at) =~= seen.take(at));
            assert(both.skip(at + 1) =~= rest + next);
            lemma_scan_append(rest, next);
            let later = feed_model(scan(rest).state, next);
            match line_outcome(seen.take(at)) {
                Outcome::Skip => {},
                Outcome::Emit(text) => {
                    let head = seq![Item::Fragment(text)];
                    assert(head + (scan(rest).items + later.items) =~= (head + scan(rest).items)
                        + later.items);
                },
                Outcome::Done => {
                    assert(Seq::<Item>::empty() + Seq::<Item>::empty() =~= Seq::<Item>::empty());
                },
                Outcome::Fail(fault) => {
                    let head = seq![Item::Failure(ApiFault::Parse(fault))];
                    assert(head + Seq::<Item>::empty() =~= head);
                },
            }
        },
    }
}

/// Feeding a stream in two pieces hands out the same items, and leaves the
/// decoder in the same state, as feeding it in one piece.
pub proof fn lemma_feed_split(state: DecoderState, first: Seq<u8>, second: Seq<u8>)
    ensures
        feed_model(state, first + second) == after(
            feed_model(state, first).items,
            feed_model(feed_model(state, first).state, second),
        ),
{
    if state.finished {
        assert(Seq::<Item>::empty() + Seq::<Item>::empty() =~= Seq::<Item>::empty());
    } else {
        assert(state.pending + (first + second) =~= (state.pending + first) + second);
        lemma_scan_append(state.pending + first, second);
    }
}

/// The chunks of a stream, one after the other.
pub open spec fn joined(chunks: Seq<Seq<u8>>) -> Seq<u8>
    decreases chunks.len(),
{
    if chunks.len() == 0 {
        Seq::empty()
    } else {
        joined(chunks.drop_last()) + chunks.last()
    }
}

/// What a decoder in `state` does with a run of chunks, fed one by one.
pub open spec fn feed_all(state: DecoderState, chunks: Seq<Seq<u8>>) -> Progress
    decreases chunks.len(),
{
    if chunks.len() == 0 {
        Progress { items: Seq::empty(), state }
    } else {
        let sofar = feed_all(state, chunks.drop_last());
        after(sofar.items, feed_model(sofar.state, chunks.last()))
    }
}

/// However a stream is cut into chunks, down to single bytes, the decoder
/// hands out what it would hand out for the whole stream in one chunk.
pub proof fn lemma_chunking_is_irrelevant(state: DecoderState, chunks: Seq<Seq<u8>>)
    requires
        state.wf(),
    ensures
        feed_all(state, chunks) == feed_model(state, joined(chunks)),
    decreases chunks.len(),
{
    if chunks.len() == 0 {
        if !state.finished {
            assert(state.pending + Seq::<u8>::empty() =~= state.pending);
            lemma_scan_partial(state.pending);
        }
    } else {
        lemma_chunking_is_irrelevant(state, chunks.drop_last());
        lemma_feed_split(state, joined(chunks.drop_last()), chunks.last());
    }
}

/// A stream cut into single bytes.
pub open spec fn bytewise(bytes: Seq<u8>) -> Seq<Seq<u8>> {
    Seq::new(bytes.len(), |i: int| seq![bytes[i]])
}

/// The single bytes of a stream, joined, are the stream.
pub proof fn lemma_joined_bytewise(bytes: Seq<u8>)
    ensures
        joined(bytewise(bytes)) == bytes,
    decreases bytes.len(),
{
    if bytes.len() > 0 {
        lemma_joined_bytewise(bytes.drop_last());
        assert(bytewise(bytes).drop_last() =~= bytewise(bytes.drop_last()));
        assert(joined(bytewise(bytes.drop_last())) + bytewise(bytes).last() =~= bytes);
    } else {
        assert(joined(bytewise(bytes)) =~= bytes);
    }
}

/// Fed one byte at a time, a stream gives what it gives in one block.
pub proof fn lemma_byte_by_byte(bytes: Seq<u8>)
    ensures
        feed_all(fresh(), bytewise(bytes)) == feed_model(fresh(), bytes),
{
    lemma_joined_bytewise(bytes);
    assert(no_newline(fresh().pending));
    lemma_chunking_is_irrelevant(fresh(), bytewise(bytes));
}

/// Whether a decoder that was given `bytes` stands at the start of a line
/// of a stream that has not ended.
pub open spec fn at_line_start(bytes: Seq<u8>) -> bool {
    scan(bytes).state == fresh()
}

/// What follows complete lines of a running stream is handled on its own.
pub proof fn lemma_scan_after_lines(before: Seq<u8>, next: Seq<u8>)
    requires
        at_line_start(before),
    ensures
        scan(before + next) == after(scan(before).items, scan(next)),
{
    lemma_scan_append(before, next);
    assert(fresh().pending + next =~= next);
}

/// What one complete line does to a decoder that holds nothing.
pub proof fn lemma_scan_line(line: Seq<u8>, rest: Seq<u8>)
    requires
        no_newline(line),
    ensures
        scan(line + seq![NEWLINE] + rest) == match line_outcome(line) {
            Outcome::Skip => scan(rest),
            Outcome::Emit(text) => after(seq![Item::Fragment(text)], scan(rest)),
            Outcome::Done => Progress { items: Seq::empty(), state: halted() },
            Outcome::Fail(fault) => Progress {
                items: seq![Item::Failure(ApiFault::Parse(fault))],
                state: halted(),
            },
        },
{
    let bytes = line + seq![NEWLINE] + rest;
    let at = line.len() as int;
    assert(is_first_newline(bytes, at));
    lemma_first_newline(bytes);
    assert(bytes.take(at) =~= line);
    assert(bytes.skip(at + 1) =~= rest);
}

/// The line that ends a stream.
pub open spec fn sentinel_line() -> Seq<u8> {
    ascii_bytes(DATA_PREFIX@ + SENTINEL@)
}

/// The sentinel line asks for the end of the stream.
pub proof fn lemma_sentinel_line()
    ensures
        no_newline(sentinel_line()),
        line_outcome(sentinel_line()) == Outcome::Done,
{
    reveal_strlit("data: ");
    reveal_strlit("[DONE]");
    let text = DATA_PREFIX@ + SENTINEL@;
    assert(is_ascii_chars(text));
    lemma_ascii_decodes(text);
    assert(text.subrange(0, DATA_PREFIX@.len() as int) =~= DATA_PREFIX@);
    assert(text.skip(DATA_PREFIX@.len() as int) =~= SENTINEL@);
}

/// The sentinel frame ends a running stream cleanly: nothing is handed out
/// for it, nor for whatever follows it.
pub proof fn lemma_sentinel_ends_stream(before: Seq<u8>, extra: Seq<u8>)
    requires
        at_line_start(before),
    ensures
        scan(before + (sentinel_line() + seq![NEWLINE] + extra)) == (Progress {
            items: scan(before).items,
            state: halted(),
        }),
{
    lemma_sentinel_line();
    lemma_scan_line(sentinel_line(), extra);
    lemma_scan_after_lines(before, sentinel_line() + seq![NEWLINE] + extra);
    assert(scan(before).items + Seq::<Item>::empty() =~= scan(before).items);
}

/// A stream that breaks off in the middle of a line hands out what its
/// complete lines gave, and keeps the unfinished line to itself.
pub proof fn lemma_unfinished_line_is_kept(before: Seq<u8>, partial: Seq<u8>)
    requires
        at_line_start(before),
        no_newline(partial),
    ensures
        scan(before + partial) == (Progress {
            items: scan(before).items,
            state: DecoderState { pending: partial, finished: false },
        }),
{
    lemma_scan_partial(partial);
    lemma_scan_after_lines(before, partial);
    assert(scan(before).items + Seq::<Item>::empty() =~= scan(before).items);
}

/// A frame that cannot be read ends a running stream with one error, and
/// nothing is handed out for whatever follows it.
pub proof fn lemma_unreadable_frame_ends_stream(
    before: Seq<u8>,
    line: Seq<u8>,
    extra: Seq<u8>,
    fault: ParseFault,
)
    requires
        at_line_start(before),
        no_newline(line),
        line_outcome(line) == Outcome::Fail(fault),
    ensures
        scan(before + (line + seq![NEWLINE] + extra)) == (Progress {
            items: scan(before).items.push(Item::Failure(ApiFault::Parse(fault))),
            state: halted(),
        }),
{
    lemma_scan_line(line, extra);
    lemma_scan_after_lines(before, line + seq![NEWLINE] + extra);
    assert(scan(before).items + seq![Item::Failure(ApiFault::Parse(fault))] =~= scan(
        before,
    ).items.push(Item::Failure(ApiFault::Parse(fault))));
}

/// A line that does not start with the frame prefix changes nothing.
pub proof fn lemma_other_line_is_skipped(before: Seq<u8>, line: Seq<u8>, rest: Seq<u8>)
    requires
        at_line_start(before),
        no_newline(line),
        !DATA_PREFIX@.is_prefix_of(decoded_text(line)),
    ensures
        scan(before + (line + seq![NEWLINE] + rest)) == scan(before + rest),
{
    lemma_scan_line(line, rest);
    lemma_scan_after_lines(before, line + seq![NEWLINE] + rest);
    lemma_scan_after_lines(before, rest);
}

/// An empty line, as sent to keep a connection alive, changes nothing.
pub proof fn lemma_blank_line_is_skipped(before: Seq<u8>, rest: Seq<u8>)
    requires
        at_line_start(before),
    ensures
        scan(before + (seq![NEWLINE] + rest)) == scan(before + rest),
{
    let line = Seq::<u8>::empty();
    reveal_strlit("data: ");
    assert(is_ascii_chars(Seq::<char>::empty()));
    lemma_ascii_decodes(Seq::<char>::empty());
    assert(ascii_bytes(Seq::<char>::empty()) =~= line);
    assert(line + seq![NEWLINE] + rest =~= seq![NEWLINE] + rest);
    lemma_other_line_is_skipped(before, line, rest);
}

/// An error is the last item, and the stream has ended with it.
pub proof fn lemma_failure_is_last(bytes: Seq<u8>, i: int)
    requires
        0 <= i < scan(bytes).items.len(),
        scan(bytes).items[i] is Failure,
    ensures
        i == scan(bytes).items.len() - 1,
        scan(bytes).state == halted(),
    decreases bytes.len(),
{
    lemma_first_newline(bytes);
    match first_newline(bytes) {
        None => {},
        Some(at) => {
            let rest = bytes.skip(at + 1);
            match line_outcome(bytes.take(at)) {
                Outcome::Skip => {
                    lemma_failure_is_last(rest, i);
                },
                Outcome::Emit(text) => {
                    lemma_failure_is_last(rest, i - 1);
                },
                Outcome::Done => {},
                Outcome::Fail(fault) => {},
            }
        },
    }
}

/// A stream that has not ended has handed out no error.
pub proof fn lemma_running_stream_has_no_failure(bytes: Seq<u8>)
    requires
        !scan(bytes).state.finished,
    ensures
        forall|i: int| 0 <= i < scan(bytes).items.len() ==> #[trigger] scan(bytes).items[i] is Fragment,
{
    assert forall|i: int| 0 <= i < scan(bytes).items.len() implies #[trigger] scan(
        bytes,
    ).items[i] is Fragment by {
        if scan(bytes).items[i] is Failure {
            lemma_failure_is_last(bytes, i);
        }
    }
}

/// Once a stream has ended, nothing is handed out any more, whatever
/// arrives.
pub proof fn lemma_ended_stream_is_silent(state: DecoderState, chunks: Seq<Seq<u8>>)
    requires
        state.finished,
    ensures
        feed_all(state, chunks) == (Progress { items: Seq::empty(), state }),
    decreases chunks.len(),
{
    if chunks.len() > 0 {
        lemma_ended_stream_is_silent(state, chunks.drop_last());
        assert(Seq::<Item>::empty() + Seq::<Item>::empty() =~= Seq::<Item>::empty());
    }
}

/// Lines, each ended by a newline, one after the other.
pub open spec fn framed(lines: Seq<Seq<u8>>) -> Seq<u8>
    decreases lines.len(),
{
    if lines.len() == 0 {
        Seq::empty()
    } else {
        lines.first() + seq![NEWLINE] + framed(lines.drop_first())
    }
}

/// The chunk that a line carries, if the line is a frame whose payload can
/// be read.
pub open spec fn frame_chunk(line: Seq<u8>) -> Option<CompletionChunkView> {
    let text = decoded_text(line);
    let payload = text.skip(DATA_PREFIX@.len() as int);
    if !DATA_PREFIX@.is_prefix_of(text) || payload == SENTINEL@ {
        None
    } else {
        match json_parse(payload) {
            None => None,
            Some(doc) => match chunk_of(doc) {
                Ok(chunk) => Some(chunk),
                Err(_) => None,
            },
        }
    }
}

/// The text that a chunk adds to the answer: the content of its first
/// choice's delta, and nothing where there is none.
pub open spec fn delta_text(chunk: CompletionChunkView) -> Seq<char> {
    if chunk.choices.len() == 0 {
        Seq::empty()
    } else {
        match chunk.choices[0].delta.content {
            Some(text) => text,
            None => Seq::empty(),
        }
    }
}

/// The fragments of the frames that add text, in order.
pub open spec fn frame_items(lines: Seq<Seq<u8>>) -> Seq<Item>
    decreases lines.len(),
{
    if lines.len() == 0 {
        Seq::empty()
    } else {
        let later = frame_items(lines.drop_first());
        match frame_chunk(lines.first()) {
            Some(chunk) => if delta_text(chunk).len() > 0 {
                seq![Item::Fragment(delta_text(chunk))] + later
            } else {
                later
            },
            None => later,
        }
    }
}

/// What the frames add to the answer, one after the other.
pub open spec fn frame_texts(lines: Seq<Seq<u8>>) -> Seq<char>
    decreases lines.len(),
{
    if lines.len() == 0 {
        Seq::empty()
    } else {
        let later = frame_texts(lines.drop_first());
        match frame_chunk(lines.first()) {
            Some(chunk) => delta_text(chunk) + later,
            None => later,
        }
    }
}

/// The fragments among `items`, one after the other.
pub open spec fn texts(items: Seq<Item>) -> Seq<char>
    decreases items.len(),
{
    if items.len() == 0 {
        Seq::empty()
    } else {
        match items.first() {
            Item::Fragment(text) => text + texts(items.drop_first()),
            Item::Failure(_) => texts(items.drop_first()),
        }
    }
}

/// A stream of frames that can all be read hands out, in order, the text of
/// each frame that has any; put together, the fragments are what the frames
/// add to the answer. The stream has not ended after them.
pub proof fn lemma_frames_give_their_text(lines: Seq<Seq<u8>>)
    requires
        forall|i: int| 0 <= i < lines.len() ==> no_newline(#[trigger] lines[i]),
        forall|i: int| 0 <= i < lines.len() ==> frame_chunk(#[trigger] lines[i]) is Some,
    ensures
        scan(framed(lines)) == (Progress { items: frame_items(lines), state: fresh() }),
        texts(frame_items(lines)) == frame_texts(lines),
    decreases lines.len(),
{
    if lines.len() == 0 {
        lemma_scan_partial(Seq::<u8>::empty());
    } else {
        let line = lines.first();
        let rest = lines.drop_first();
        assert(forall|i: int| 0 <= i < rest.len() ==> rest[i] == lines[i + 1]);
        lemma_frames_give_their_text(rest);
        lemma_scan_line(line, framed(rest));
        let chunk = frame_chunk(line)->0;
        let later = frame_items(rest);
        if delta_text(chunk).len() > 0 {
            let head = seq![Item::Fragment(delta_text(chunk))];
            assert((head + later).drop_first() =~= later);
        } else {
            assert(delta_text(chunk) + frame_texts(rest) =~= frame_texts(rest));
        }
    }
}

/// The views of the chunks of a recorded stream.
pub open spec fn chunk_views(chunks: Seq<Vec<u8>>) -> Seq<Seq<u8>> {
    Seq::new(chunks.len(), |i: int| chunks[i]@)
}

/// The items of `more`, after those of `items`.
proof fn lemma_emitted_append(
    items: Seq<Result<String, ApiError>>,
    more: Seq<Result<String, ApiError>>,
)
    ensures
        emitted(items + more) == emitted(items) + emitted(more),
{
    assert(emitted(items + more) =~= emitted(items) + emitted(more));
}

/// Decodes a stream that was recorded as the chunks in which it arrived,
/// up to the end of its source. The items are those of the stream as a
/// whole, however it was cut.
pub fn decode_stream(chunks: &Vec<Vec<u8>>) -> (items: Vec<Result<String, ApiError>>)
    ensures
        emitted(items@) == scan(joined(chunk_views(chunks@))).items,
{
    let ghost parts = chunk_views(chunks@);
    let mut decoder = StreamDecoder::new();
    let mut items: Vec<Result<String, ApiError>> = Vec::new();
    let mut i: usize = 0;
    proof {
        assert(emitted(items@) =~= Seq::<Item>::empty());
        assert(parts.take(0) =~= Seq::<Seq<u8>>::empty());
    }
    while i < chunks.len()
        invariant
            i <= chunks.len(),
            parts == chunk_views(chunks@),
            feed_all(fresh(), parts.take(i as int)) == (Progress {
                items: emitted(items@),
                state: decoder@,
            }),
        decreases chunks.len() - i,
    {
        let ghost before = items@;
        let mut more = decoder.feed(chunks[i].as_slice());
        proof {
            assert(parts.take(i + 1).drop_last() =~= parts.take(i as int));
            assert(parts.take(i + 1).last() == chunks@[i as int]@);
            lemma_emitted_append(before, more@);
        }
        items.append(&mut more);
        i += 1;
    }
    decoder.finish();
    proof {
        assert(parts.take(i as int) =~= parts);
        assert(fresh().wf());
        lemma_chunking_is_irrelevant(fresh(), parts);
        assert(fresh().pending + joined(parts) =~= joined(parts));
    }
    items
}

} // verus!
