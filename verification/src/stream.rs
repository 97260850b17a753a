//! The streaming decoder: from received bytes to text fragments.
//!
//! A streamed answer arrives as lines. A line that starts with `data: `
//! is a frame; its payload is either the end sentinel or the JSON of one
//! [`CompletionChunk`]. Every other line is ignored. The bytes arrive in
//! chunks that need not end where lines end, so the decoder keeps what it
//! has received of an unfinished line until the rest arrives.

use vstd::prelude::*;
use vstd::slice::slice_subrange;
use crate::error::{ApiError, ApiFault, ParseError, ParseFault};
use crate::json::{json_parse, parse, Json, JsonView};
use crate::schema::chunk_of;
use crate::text::{decode_lossy, decoded_text, same_text, strip_prefix};
use crate::types::{CompletionChunk, CompletionChunkView};

verus! {

/// The byte that ends a line.
pub const NEWLINE: u8 = 10;

/// What a line must start with to be a frame.
pub const DATA_PREFIX: &'static str = "data: ";

/// The payload that ends the stream.
pub const SENTINEL: &'static str = "[DONE]";

/// What one line asks the decoder to do.
pub ghost enum Outcome {
    /// Nothing: the line is no frame, or a frame without text.
    Skip,
    /// Hand out a fragment.
    Emit(Seq<char>),
    /// End the stream: the line is the sentinel frame.
    Done,
    /// Hand out an error and end the stream: the payload cannot be read.
    Fail(ParseFault),
}

/// What one line asks the decoder to do, as a value.
#[derive(Debug)]
pub enum Step {
    Skip,
    Emit(String),
    Done,
    Fail(ParseError),
}

impl View for Step {
    type V = Outcome;

    open spec fn view(&self) -> Outcome {
        match self {
            Step::Skip => Outcome::Skip,
            Step::Emit(text) => Outcome::Emit(text@),
            Step::Done => Outcome::Done,
            Step::Fail(error) => Outcome::Fail(error@),
        }
    }
}

/// The text that a frame payload contributes: the content of the first
/// choice's delta, unless there is none or it is empty.
pub open spec fn fragment_of(chunk: CompletionChunkView) -> Option<Seq<char>> {
    if chunk.choices.len() == 0 {
        None
    } else {
        match chunk.choices[0].delta.content {
            Some(text) => if text.len() > 0 {
                Some(text)
            } else {
                None
            },
            None => None,
        }
    }
}

/// What a payload asks for, given the document it parsed to (`None` where
/// it is not JSON).
pub open spec fn document_outcome(doc: Option<JsonView>) -> Outcome {
    match doc {
        None => Outcome::Fail(ParseFault::Syntax),
        Some(doc) => match chunk_of(doc) {
            Err(shape) => Outcome::Fail(ParseFault::Shape(shape)),
            Ok(chunk) => match fragment_of(chunk) {
                Some(text) => Outcome::Emit(text),
                None => Outcome::Skip,
            },
        },
    }
}

/// What the payload of a frame asks for.
pub open spec fn payload_outcome(payload: Seq<char>) -> Outcome {
    if payload == SENTINEL@ {
        Outcome::Done
    } else {
        document_outcome(json_parse(payload))
    }
}

/// What a line of text asks for.
pub open spec fn text_outcome(text: Seq<char>) -> Outcome {
    if DATA_PREFIX@.is_prefix_of(text) {
        payload_outcome(text.skip(DATA_PREFIX@.len() as int))
    } else {
        Outcome::Skip
    }
}

/// What a received line, without its newline, asks for.
pub open spec fn line_outcome(line: Seq<u8>) -> Outcome {
    text_outcome(decoded_text(line))
}

impl CompletionChunk {
    /// The text that this frame contributes, if any.
    pub fn fragment(&self) -> (text: Option<&String>)
        ensures
            text matches Some(s) ==> fragment_of(self@) == Some(s@),
            text is None ==> fragment_of(self@) is None,
    {
        if self.choices.len() == 0 {
            return None;
        }
        match &self.choices[0].delta.content {
            Some(text) => {
                if text.as_str().is_empty() {
                    None
                } else {
                    Some(text)
                }
            },
            None => None,
        }
    }
}

/// The model of the outcome of parsing.
pub open spec fn parsed_view(parsed: Result<Json, serde_json::Error>) -> Option<JsonView> {
    match parsed {
        Ok(doc) => Some(doc@),
        Err(_) => None,
    }
}

/// What a payload asks for, once it has been parsed.
pub fn document_step(parsed: Result<Json, serde_json::Error>) -> (step: Step)
    ensures
        step@ == document_outcome(parsed_view(parsed)),
{
    match parsed {
        Err(error) => Step::Fail(ParseError::Syntax(error)),
        Ok(doc) => match CompletionChunk::from_json(&doc) {
            Err(shape) => Step::Fail(ParseError::Shape(shape)),
            Ok(chunk) => match chunk.fragment() {
                Some(text) => Step::Emit(text.clone()),
                None => Step::Skip,
            },
        },
    }
}

/// What the payload of a frame asks for.
pub fn payload_step(payload: &str) -> (step: Step)
    ensures
        step@ == payload_outcome(payload@),
{
    if same_text(payload, SENTINEL) {
        Step::Done
    } else {
        document_step(parse(payload))
    }
}

/// What a line of text asks for.
pub fn text_step(text: &str) -> (step: Step)
    ensures
        step@ == text_outcome(text@),
{
    match strip_prefix(text, DATA_PREFIX) {
        Some(payload) => payload_step(payload),
        None => Step::Skip,
    }
}

/// What a received line, without its newline, asks for.
pub fn line_step(line: &[u8]) -> (step: Step)
    ensures
        step@ == line_outcome(line@),
{
    let text = decode_lossy(line);
    text_step(text.as_str())
}

/// What the decoder hands out: a fragment, or the error that ends the
/// stream.
pub ghost enum Item {
    Fragment(Seq<char>),
    Failure(ApiFault),
}

/// The model of one item.
pub open spec fn item_view(item: Result<String, ApiError>) -> Item {
    match item {
        Ok(text) => Item::Fragment(text@),
        Err(error) => Item::Failure(error@),
    }
}

/// The model of a list of items.
pub open spec fn emitted(items: Seq<Result<String, ApiError>>) -> Seq<Item> {
    Seq::new(items.len(), |i: int| item_view(items[i]))
}

/// What a decoder remembers between two chunks.
pub ghost struct DecoderState {
    /// The bytes of the line that has not ended yet.
    pub pending: Seq<u8>,
    /// Whether the stream has ended; nothing is handed out after that.
    pub finished: bool,
}

/// What the decoder did with some bytes: the items it handed out, and the
/// state it is left in.
pub ghost struct Progress {
    pub items: Seq<Item>,
    pub state: DecoderState,
}

/// The state of a decoder that has received nothing.
pub open spec fn fresh() -> DecoderState {
    DecoderState { pending: Seq::empty(), finished: false }
}

/// The state of a decoder whose stream has ended.
pub open spec fn halted() -> DecoderState {
    DecoderState { pending: Seq::empty(), finished: true }
}

/// `first`, handed out before what `then` hands out.
pub open spec fn after(first: Seq<Item>, then: Progress) -> Progress {
    Progress { items: first + then.items, state: then.state }
}

/// Where the first newline at or after `from` stands.
pub open spec fn newline_from(bytes: Seq<u8>, from: int) -> Option<int>
    decreases bytes.len() - from,
{
    if from < 0 || from >= bytes.len() {
        None
    } else if bytes[from] == NEWLINE {
        Some(from)
    } else {
        newline_from(bytes, from + 1)
    }
}

/// Where the first newline stands.
pub open spec fn first_newline(bytes: Seq<u8>) -> Option<int> {
    newline_from(bytes, 0)
}

/// Whether `at` is where the first newline stands.
pub open spec fn is_first_newline(bytes: Seq<u8>, at: int) -> bool {
    &&& 0 <= at < bytes.len()
    &&& bytes[at] == NEWLINE
    &&& forall|j: int| 0 <= j < at ==> bytes[j] != NEWLINE
}

/// Whether no byte is a newline.
pub open spec fn no_newline(bytes: Seq<u8>) -> bool {
    forall|j: int| 0 <= j < bytes.len() ==> bytes[j] != NEWLINE
}

proof fn lemma_newline_from(bytes: Seq<u8>, from: int)
    requires
        0 <= from <= bytes.len(),
    ensures
        match newline_from(bytes, from) {
            Some(at) => from <= at < bytes.len() && bytes[at] == NEWLINE && forall|j: int|
                from <= j < at ==> bytes[j] != NEWLINE,
            None => forall|j: int| from <= j < bytes.len() ==> bytes[j] != NEWLINE,
        },
    decreases bytes.len() - from,
{
    if from < bytes.len() && bytes[from] != NEWLINE {
        lemma_newline_from(bytes, from + 1);
    }
}

/// [`first_newline`] finds the first newline, and only that.
pub proof fn lemma_first_newline(bytes: Seq<u8>)
    ensures
        first_newline(bytes) matches Some(at) ==> is_first_newline(bytes, at),
        first_newline(bytes) is None ==> no_newline(bytes),
        forall|at: int| is_first_newline(bytes, at) ==> first_newline(bytes) == Some(at),
{
    lemma_newline_from(bytes, 0);
}

/// What a decoder that holds nothing does with `bytes`: it takes the
/// complete lines one by one, until one of them ends the stream, and keeps
/// what follows the last newline.
pub open spec fn scan(bytes: Seq<u8>) -> Progress
    decreases bytes.len(),
    via scan_decreases
{
    match first_newline(bytes) {
        None => Progress { items: Seq::empty(), state: DecoderState { pending: bytes, finished: false } },
        Some(at) => {
            let rest = bytes.skip(at + 1);
            match line_outcome(bytes.take(at)) {
                Outcome::Skip => scan(rest),
                Outcome::Emit(text) => after(seq![Item::Fragment(text)], scan(rest)),
                Outcome::Done => Progress { items: Seq::empty(), state: halted() },
                Outcome::Fail(fault) => Progress {
                    items: seq![Item::Failure(ApiFault::Parse(fault))],
                    state: halted(),
                },
            }
        },
    }
}

#[via_fn]
proof fn scan_decreases(bytes: Seq<u8>) {
    lemma_first_newline(bytes);
}

impl DecoderState {
    /// What holds of every decoder: it keeps no complete line, and keeps
    /// nothing at all once the stream has ended.
    pub open spec fn wf(self) -> bool {
        &&& no_newline(self.pending)
        &&& self.finished ==> self.pending.len() == 0
    }
}

/// Whatever it is given, a decoder is left in a well-formed state.
pub proof fn lemma_scan_wf(bytes: Seq<u8>)
    ensures
        scan(bytes).state.wf(),
    decreases bytes.len(),
{
    lemma_first_newline(bytes);
    match first_newline(bytes) {
        None => {},
        Some(at) => {
            lemma_scan_wf(bytes.skip(at + 1));
        },
    }
}

/// What a decoder in `state` does with the next chunk.
pub open spec fn feed_model(state: DecoderState, chunk: Seq<u8>) -> Progress {
    if state.finished {
        Progress { items: Seq::empty(), state }
    } else {
        scan(state.pending + chunk)
    }
}

/// Where the first newline at or after `from` stands.
fn find_newline(bytes: &[u8], from: usize) -> (found: Option<usize>)
    requires
        from <= bytes@.len(),
    ensures
        found matches Some(at) ==> from <= at < bytes@.len() && first_newline(
            bytes@.skip(from as int),
        ) == Some(at - from),
        found is None ==> first_newline(bytes@.skip(from as int)) is None,
{
    let ghost tail = bytes@.skip(from as int);
    let mut at: usize = from;
    while at < bytes.len()
        invariant
            from <= at <= bytes@.len(),
            tail == bytes@.skip(from as int),
            forall|j: int| 0 <= j < at - from ==> tail[j] != NEWLINE,
        decreases bytes@.len() - at,
    {
        if bytes[at] == NEWLINE {
            proof {
                assert(is_first_newline(tail, at - from));
                lemma_first_newline(tail);
            }
            return Some(at);
        }
        at += 1;
    }
    proof {
        lemma_first_newline(tail);
        if first_newline(tail) is Some {
            let found = first_newline(tail)->0;
            assert(tail[found] == NEWLINE);
        }
    }
    None
}

/// Reassembles the lines of a streamed answer and hands out its fragments.
///
/// The decoder keeps the bytes of the line that has not ended yet, and
/// nothing else. It sets no limit to that line: a source that never sends
/// a newline makes it grow with every chunk.
#[derive(Debug)]
pub struct StreamDecoder {
    buffer: Vec<u8>,
    finished: bool,
}

impl View for StreamDecoder {
    type V = DecoderState;

    closed spec fn view(&self) -> DecoderState {
        DecoderState { pending: self.buffer@, finished: self.finished }
    }
}

impl StreamDecoder {
    /// A decoder that has received nothing.
    pub fn new() -> (decoder: StreamDecoder)
        ensures
            decoder@ == fresh(),
            decoder@.wf(),
    {
        StreamDecoder { buffer: Vec::new(), finished: false }
    }

    /// Whether the stream has ended.
    pub fn is_finished(&self) -> (finished: bool)
        ensures
            finished == self@.finished,
    {
        self.finished
    }

    /// The bytes received of the line that has not ended yet.
    pub fn pending(&self) -> (bytes: &[u8])
        ensures
            bytes@ == self@.pending,
    {
        self.buffer.as_slice()
    }

    /// Takes the next chunk of the stream and returns what it completes:
    /// the fragments of the frames that end in it, in order, and last the
    /// error of a frame that cannot be read. After the sentinel frame or
    /// an error the stream has ended, and what follows is dropped.
    pub fn feed(&mut self, chunk: &[u8]) -> (items: Vec<Result<String, ApiError>>)
        ensures
            emitted(items@) == feed_model(old(self)@, chunk@).items,
            final(self)@ == feed_model(old(self)@, chunk@).state,
            old(self)@.wf() ==> final(self)@.wf(),
    {
        let mut items: Vec<Result<String, ApiError>> = Vec::new();
        proof {
            lemma_scan_wf(self@.pending + chunk@);
        }
        if self.finished {
            assert(emitted(items@) =~= Seq::<Item>::empty());
            return items;
        }
        self.buffer.extend_from_slice(chunk);
        let ghost whole = self.buffer@;
        proof {
            assert(whole =~= old(self)@.pending + chunk@);
            assert(whole.skip(0) =~= whole);
            assert(emitted(items@) =~= Seq::<Item>::empty());
            assert(Seq::<Item>::empty() + scan(whole).items =~= scan(whole).items);
        }
        let len: usize = self.buffer.len();
        let mut start: usize = 0;
        let mut done = false;
        let mut open = true;
        while open
            invariant
                len == whole.len(),
                start <= len,
                self.buffer@ == whole,
                done ==> !open,
                done ==> scan(whole) == (Progress { items: emitted(items@), state: halted() }),
                !done ==> scan(whole) == after(emitted(items@), scan(whole.skip(start as int))),
                !done && !open ==> first_newline(whole.skip(start as int)) is None,
            decreases whole.len() - start + (if open { 1int } else { 0int }),
        {
            let ghost tail = whole.skip(start as int);
            let ghost before = emitted(items@);
            match find_newline(self.buffer.as_slice(), start) {
                None => {
                    open = false;
                },
                Some(at) => {
                    let step = line_step(slice_subrange(self.buffer.as_slice(), start, at));
                    proof {
                        assert(tail.take(at - start) =~= whole.subrange(start as int, at as int));
                        assert(tail.skip(at - start + 1) =~= whole.skip(at + 1));
                    }
                    start = at + 1;
                    match step {
                        Step::Skip => {},
                        Step::Emit(text) => {
                            items.push(Ok(text));
                            proof {
                                assert(emitted(items@) =~= before + seq![Item::Fragment(text@)]);
                                assert((before + seq![Item::Fragment(text@)]) + scan(
                                    whole.skip(start as int),
                                ).items =~= before + (seq![Item::Fragment(text@)] + scan(
                                    whole.skip(start as int),
                                ).items));
                            }
                        },
                        Step::Done => {
                            done = true;
                            open = false;
                            proof {
                                assert(before + Seq::<Item>::empty() =~= before);
                            }
                        },
                        Step::Fail(error) => {
                            let ghost fault = error@;
                            items.push(Err(ApiError::Parse(error)));
                            done = true;
                            open = false;
                            proof {
                                assert(emitted(items@) =~= before + seq![
                                    Item::Failure(ApiFault::Parse(fault)),
                                ]);
                            }
                        },
                    }
                },
            }
        }
        if done {
            self.buffer.clear();
            self.finished = true;
        } else {
            let rest = self.buffer.split_off(start);
            self.buffer = rest;
            proof {
                assert(self.buffer@ =~= whole.skip(start as int));
                assert(emitted(items@) + Seq::<Item>::empty() =~= emitted(items@));
            }
        }
        items
    }

    /// Ends the stream because its source is exhausted. What was received
    /// of an unfinished line is dropped, and nothing is handed out for it.
    pub fn finish(&mut self)
        ensures
            final(self)@ == halted(),
            final(self)@.wf(),
    {
        self.buffer.clear();
        self.finished = true;
    }

    /// Ends the stream because its source failed, and returns the error to
    /// hand out last: the transport's `report`, unless the stream had
    /// ended before.
    pub fn fail(&mut self, report: String) -> (error: Option<ApiError>)
        ensures
            final(self)@ == halted(),
            final(self)@.wf(),
            old(self)@.finished ==> error is None,
            !old(self)@.finished ==> (error matches Some(e) && e@ == ApiFault::Transport(report@)),
    {
        let ended = self.finished;
        self.buffer.clear();
        self.finished = true;
        if ended {
            None
        } else {
            Some(ApiError::Transport(report))
        }
    }
}

} // verus!
