//! How the service writes its records in JSON, and how they are read back.

use vstd::prelude::*;
use crate::error::ShapeError;
use crate::json::{item_views, member, Json, JsonView};
use crate::types::{
    chunk_choice_views, choice_views, Choice, ChoiceView, ChunkChoice, ChunkChoiceView,
    CompletionChunk, CompletionChunkView, CompletionResponse, CompletionResponseView, Delta,
    DeltaView, Message, MessageView,
};

verus! {

/// A member that must be there and must be a string.
pub open spec fn text_member(doc: JsonView, name: Seq<char>) -> Result<Seq<char>, ShapeError> {
    match member(doc, name) {
        None => Err(ShapeError::MissingField),
        Some(JsonView::Text(text)) => Ok(text),
        Some(_) => Err(ShapeError::ExpectedText),
    }
}

/// A member that may be missing or `null`, and is a string otherwise.
pub open spec fn optional_text_member(doc: JsonView, name: Seq<char>) -> Result<
    Option<Seq<char>>,
    ShapeError,
> {
    match member(doc, name) {
        None => Ok(None),
        Some(JsonView::Null) => Ok(None),
        Some(JsonView::Text(text)) => Ok(Some(text)),
        Some(_) => Err(ShapeError::ExpectedText),
    }
}

/// A member that must be there and must be an array.
pub open spec fn array_member(doc: JsonView, name: Seq<char>) -> Result<
    Seq<JsonView>,
    ShapeError,
> {
    match member(doc, name) {
        None => Err(ShapeError::MissingField),
        Some(JsonView::Array(items)) => Ok(items),
        Some(_) => Err(ShapeError::ExpectedArray),
    }
}

/// A member that must be there.
pub open spec fn required_member(doc: JsonView, name: Seq<char>) -> Result<JsonView, ShapeError> {
    match member(doc, name) {
        None => Err(ShapeError::MissingField),
        Some(value) => Ok(value),
    }
}

/// Every element read by `read`, in order; the first error wins.
pub open spec fn read_each<T>(
    items: Seq<JsonView>,
    read: spec_fn(JsonView) -> Result<T, ShapeError>,
) -> Result<Seq<T>, ShapeError>
    decreases items.len(),
{
    if items.len() == 0 {
        Ok(Seq::empty())
    } else {
        match read_each(items.drop_last(), read) {
            Err(error) => Err(error),
            Ok(init) => match read(items.last()) {
                Err(error) => Err(error),
                Ok(last) => Ok(init.push(last)),
            },
        }
    }
}

/// An error among the first elements is the error of the whole list.
pub proof fn lemma_read_each_error<T>(
    items: Seq<JsonView>,
    read: spec_fn(JsonView) -> Result<T, ShapeError>,
    upto: int,
)
    requires
        0 <= upto <= items.len(),
        read_each(items.take(upto), read) is Err,
    ensures
        read_each(items, read) == read_each(items.take(upto), read),
    decreases items.len() - upto,
{
    if upto == items.len() {
        assert(items.take(upto) =~= items);
    } else {
        assert(items.take(upto + 1).drop_last() =~= items.take(upto));
        lemma_read_each_error(items, read, upto + 1);
    }
}

/// The message that a document writes.
pub open spec fn message_of(doc: JsonView) -> Result<MessageView, ShapeError> {
    if !(doc is Object) {
        Err(ShapeError::ExpectedObject)
    } else {
        match text_member(doc, "role"@) {
            Err(error) => Err(error),
            Ok(role) => match text_member(doc, "content"@) {
                Err(error) => Err(error),
                Ok(content) => Ok(MessageView { role, content }),
            },
        }
    }
}

/// The choice that a document writes.
pub open spec fn choice_of(doc: JsonView) -> Result<ChoiceView, ShapeError> {
    if !(doc is Object) {
        Err(ShapeError::ExpectedObject)
    } else {
        match required_member(doc, "message"@) {
            Err(error) => Err(error),
            Ok(inner) => match message_of(inner) {
                Err(error) => Err(error),
                Ok(message) => Ok(ChoiceView { message }),
            },
        }
    }
}

/// [`choice_of`] as a value.
pub open spec fn choice_reader() -> spec_fn(JsonView) -> Result<ChoiceView, ShapeError> {
    |doc: JsonView| choice_of(doc)
}

/// The choices that the elements of an array write.
pub open spec fn choices_of(items: Seq<JsonView>) -> Result<Seq<ChoiceView>, ShapeError> {
    read_each(items, choice_reader())
}

/// The complete answer that a document writes.
pub open spec fn response_of(doc: JsonView) -> Result<CompletionResponseView, ShapeError> {
    if !(doc is Object) {
        Err(ShapeError::ExpectedObject)
    } else {
        match array_member(doc, "choices"@) {
            Err(error) => Err(error),
            Ok(items) => match choices_of(items) {
                Err(error) => Err(error),
                Ok(choices) => Ok(CompletionResponseView { choices }),
            },
        }
    }
}

/// The increment that a document writes.
pub open spec fn delta_of(doc: JsonView) -> Result<DeltaView, ShapeError> {
    if !(doc is Object) {
        Err(ShapeError::ExpectedObject)
    } else {
        match optional_text_member(doc, "content"@) {
            Err(error) => Err(error),
            Ok(content) => Ok(DeltaView { content }),
        }
    }
}

/// The streamed choice that a document writes.
pub open spec fn chunk_choice_of(doc: JsonView) -> Result<ChunkChoiceView, ShapeError> {
    if !(doc is Object) {
        Err(ShapeError::ExpectedObject)
    } else {
        match required_member(doc, "delta"@) {
            Err(error) => Err(error),
            Ok(inner) => match delta_of(inner) {
                Err(error) => Err(error),
                Ok(delta) => match optional_text_member(doc, "finish_reason"@) {
                    Err(error) => Err(error),
                    Ok(finish_reason) => Ok(ChunkChoiceView { delta, finish_reason }),
                },
            },
        }
    }
}

/// [`chunk_choice_of`] as a value.
pub open spec fn chunk_choice_reader() -> spec_fn(JsonView) -> Result<ChunkChoiceView, ShapeError> {
    |doc: JsonView| chunk_choice_of(doc)
}

/// The streamed choices that the elements of an array write.
pub open spec fn chunk_choices_of(items: Seq<JsonView>) -> Result<
    Seq<ChunkChoiceView>,
    ShapeError,
> {
    read_each(items, chunk_choice_reader())
}

/// The frame payload that a document writes.
pub open spec fn chunk_of(doc: JsonView) -> Result<CompletionChunkView, ShapeError> {
    if !(doc is Object) {
        Err(ShapeError::ExpectedObject)
    } else {
        match array_member(doc, "choices"@) {
            Err(error) => Err(error),
            Ok(items) => match chunk_choices_of(items) {
                Err(error) => Err(error),
                Ok(choices) => Ok(CompletionChunkView { choices }),
            },
        }
    }
}

/// The model of what reading a record gave.
pub open spec fn read_view<T: View>(read: Result<T, ShapeError>) -> Result<T::V, ShapeError> {
    match read {
        Ok(value) => Ok(value@),
        Err(error) => Err(error),
    }
}

impl Json {
    /// The string member `name`, which must be there.
    pub fn text_member(&self, name: &str) -> (text: Result<String, ShapeError>)
        ensures
            read_view(text) == text_member(self@, name@),
    {
        match self.get(name) {
            None => Err(ShapeError::MissingField),
            Some(value) => match value.as_text() {
                Some(text) => Ok(text.clone()),
                None => Err(ShapeError::ExpectedText),
            },
        }
    }

    /// The string member `name`, which may be missing or `null`.
    pub fn optional_text_member(&self, name: &str) -> (text: Result<Option<String>, ShapeError>)
        ensures
            text matches Ok(Some(s)) ==> optional_text_member(self@, name@) == Ok::<
                Option<Seq<char>>,
                ShapeError,
            >(Some(s@)),
            text matches Ok(None) ==> optional_text_member(self@, name@) == Ok::<
                Option<Seq<char>>,
                ShapeError,
            >(None),
            text matches Err(error) ==> optional_text_member(self@, name@) == Err::<
                Option<Seq<char>>,
                ShapeError,
            >(error),
    {
        match self.get(name) {
            None => Ok(None),
            Some(value) => {
                if value.is_null() {
                    Ok(None)
                } else {
                    match value.as_text() {
                        Some(text) => Ok(Some(text.clone())),
                        None => Err(ShapeError::ExpectedText),
                    }
                }
            },
        }
    }

    /// The array member `name`, which must be there.
    pub fn array_member(&self, name: &str) -> (items: Result<&Vec<Json>, ShapeError>)
        ensures
            items matches Ok(v) ==> array_member(self@, name@) == Ok::<Seq<JsonView>, ShapeError>(
                item_views(v@),
            ),
            items matches Err(error) ==> array_member(self@, name@) == Err::<
                Seq<JsonView>,
                ShapeError,
            >(error),
    {
        match self.get(name) {
            None => Err(ShapeError::MissingField),
            Some(value) => match value.as_array() {
                Some(items) => Ok(items),
                None => Err(ShapeError::ExpectedArray),
            },
        }
    }

    /// The member `name`, which must be there.
    pub fn required_member(&self, name: &str) -> (value: Result<&Json, ShapeError>)
        ensures
            value matches Ok(v) ==> required_member(self@, name@) == Ok::<JsonView, ShapeError>(v@),
            value matches Err(error) ==> required_member(self@, name@) == Err::<
                JsonView,
                ShapeError,
            >(error),
    {
        match self.get(name) {
            None => Err(ShapeError::MissingField),
            Some(value) => Ok(value),
        }
    }
}

impl Message {
    /// Reads a message from the object that writes it.
    pub fn from_json(doc: &Json) -> (message: Result<Message, ShapeError>)
        ensures
            read_view(message) == message_of(doc@),
    {
        if !doc.is_object() {
            return Err(ShapeError::ExpectedObject);
        }
        let role = match doc.text_member("role") {
            Ok(role) => role,
            Err(error) => return Err(error),
        };
        let content = match doc.text_member("content") {
            Ok(content) => content,
            Err(error) => return Err(error),
        };
        Ok(Message { role, content })
    }
}

impl Choice {
    /// Reads a choice from the object that writes it.
    pub fn from_json(doc: &Json) -> (choice: Result<Choice, ShapeError>)
        ensures
            read_view(choice) == choice_of(doc@),
    {
        if !doc.is_object() {
            return Err(ShapeError::ExpectedObject);
        }
        let inner = match doc.required_member("message") {
            Ok(inner) => inner,
            Err(error) => return Err(error),
        };
        match Message::from_json(inner) {
            Ok(message) => Ok(Choice { message }),
            Err(error) => Err(error),
        }
    }
}

impl CompletionResponse {
    /// Reads a complete answer from the object that writes it.
    pub fn from_json(doc: &Json) -> (response: Result<CompletionResponse, ShapeError>)
        ensures
            read_view(response) == response_of(doc@),
    {
        if !doc.is_object() {
            return Err(ShapeError::ExpectedObject);
        }
        let items = match doc.array_member("choices") {
            Ok(items) => items,
            Err(error) => return Err(error),
        };
        let ghost docs = item_views(items@);
        let mut choices: Vec<Choice> = Vec::new();
        let mut i: usize = 0;
        proof {
            assert(docs.take(0) =~= Seq::<JsonView>::empty());
            assert(choice_views(choices@) =~= Seq::<ChoiceView>::empty());
        }
        while i < items.len()
            invariant
                i <= items.len(),
                docs == item_views(items@),
                doc@ is Object,
                array_member(doc@, "choices"@) == Ok::<Seq<JsonView>, ShapeError>(docs),
                choices_of(docs.take(i as int)) == Ok::<Seq<ChoiceView>, ShapeError>(
                    choice_views(choices@),
                ),
            decreases items.len() - i,
        {
            proof {
                assert(docs.take(i + 1).drop_last() =~= docs.take(i as int));
            }
            let ghost before = choice_views(choices@);
            match Choice::from_json(&items[i]) {
                Ok(choice) => {
                    choices.push(choice);
                    proof {
                        assert(choice_views(choices@) =~= before.push(choice@));
                    }
                },
                Err(error) => {
                    proof {
                        assert(docs.take(i + 1).last() == items@[i as int]@);
                        lemma_read_each_error(docs, choice_reader(), i + 1);
                    }
                    return Err(error);
                },
            }
            i += 1;
        }
        proof {
            assert(docs.take(i as int) =~= docs);
        }
        Ok(CompletionResponse { choices })
    }
}

impl Delta {
    /// Reads an increment from the object that writes it.
    pub fn from_json(doc: &Json) -> (delta: Result<Delta, ShapeError>)
        ensures
            read_view(delta) == delta_of(doc@),
    {
        if !doc.is_object() {
            return Err(ShapeError::ExpectedObject);
        }
        match doc.optional_text_member("content") {
            Ok(content) => Ok(Delta { content }),
            Err(error) => Err(error),
        }
    }
}

impl ChunkChoice {
    /// Reads a streamed choice from the object that writes it.
    pub fn from_json(doc: &Json) -> (choice: Result<ChunkChoice, ShapeError>)
        ensures
            read_view(choice) == chunk_choice_of(doc@),
    {
        if !doc.is_object() {
            return Err(ShapeError::ExpectedObject);
        }
        let inner = match doc.required_member("delta") {
            Ok(inner) => inner,
            Err(error) => return Err(error),
        };
        let delta = match Delta::from_json(inner) {
            Ok(delta) => delta,
            Err(error) => return Err(error),
        };
        match doc.optional_text_member("finish_reason") {
            Ok(finish_reason) => Ok(ChunkChoice { delta, finish_reason }),
            Err(error) => Err(error),
        }
    }
}

impl CompletionChunk {
    /// Reads a frame payload from the object that writes it.
    pub fn from_json(doc: &Json) -> (chunk: Result<CompletionChunk, ShapeError>)
        ensures
            read_view(chunk) == chunk_of(doc@),
    {
        if !doc.is_object() {
            return Err(ShapeError::ExpectedObject);
        }
        let items = match doc.array_member("choices") {
            Ok(items) => items,
            Err(error) => return Err(error),
        };
        let ghost docs = item_views(items@);
        let mut choices: Vec<ChunkChoice> = Vec::new();
        let mut i: usize = 0;
        proof {
            assert(docs.take(0) =~= Seq::<JsonView>::empty());
            assert(chunk_choice_views(choices@) =~= Seq::<ChunkChoiceView>::empty());
        }
        while i < items.len()
            invariant
                i <= items.len(),
                docs == item_views(items@),
                doc@ is Object,
                array_member(doc@, "choices"@) == Ok::<Seq<JsonView>, ShapeError>(docs),
                chunk_choices_of(docs.take(i as int)) == Ok::<Seq<ChunkChoiceView>, ShapeError>(
                    chunk_choice_views(choices@),
                ),
            decreases items.len() - i,
        {
            proof {
                assert(docs.take(i + 1).drop_last() =~= docs.take(i as int));
            }
            let ghost before = chunk_choice_views(choices@);
            match ChunkChoice::from_json(&items[i]) {
                Ok(choice) => {
                    choices.push(choice);
                    proof {
                        assert(chunk_choice_views(choices@) =~= before.push(choice@));
                    }
                },
                Err(error) => {
                    proof {
                        assert(docs.take(i + 1).last() == items@[i as int]@);
                        lemma_read_each_error(docs, chunk_choice_reader(), i + 1);
                    }
                    return Err(error);
                },
            }
            i += 1;
        }
        proof {
            assert(docs.take(i as int) =~= docs);
        }
        Ok(CompletionChunk { choices })
    }
}

} // verus!
