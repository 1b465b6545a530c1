//! The chat-completion records exchanged with clients and backends, as plain
//! values.
use vstd::prelude::*;

verus! {

/// One message of a conversation.
#[derive(Clone, Debug)]
pub struct Message {
    pub role: String,
    pub content: String,
}

/// A message as its role and content.
pub ghost struct MessageView {
    pub role: Seq<char>,
    pub content: Seq<char>,
}

impl View for Message {
    type V = MessageView;

    open spec fn view(&self) -> MessageView {
        MessageView { role: self.role@, content: self.content@ }
    }
}

pub open spec fn message_views(v: Seq<Message>) -> Seq<MessageView> {
    v.map_values(|m: Message| m@)
}

/// A chat-completion request.
#[derive(Clone, Debug)]
pub struct Request {
    pub model: String,
    pub messages: Vec<Message>,
    pub stream: Option<bool>,
}

/// One answer of a buffered response.
#[derive(Clone, Debug)]
pub struct Choice {
    pub message: Message,
    pub index: Option<usize>,
    pub finish_reason: Option<String>,
}

/// A buffered response: only its choices are kept.
#[derive(Clone, Debug)]
pub struct Response {
    pub choices: Vec<Choice>,
}

/// The fragment of a message that one streamed chunk carries.
#[derive(Clone, Debug)]
pub struct Delta {
    pub content: Option<String>,
    pub role: Option<String>,
}

/// One choice of a streamed chunk.
#[derive(Clone, Debug)]
pub struct StreamChoice {
    pub delta: Delta,
    pub index: Option<usize>,
    pub finish_reason: Option<String>,
}

/// One streamed chunk: only its choices are kept.
#[derive(Clone, Debug)]
pub struct ResponseStreamChunk {
    pub choices: Vec<StreamChoice>,
}

pub open spec fn text_view(s: Option<String>) -> Option<Seq<char>> {
    match s {
        Some(s) => Some(s@),
        None => None,
    }
}

/// A streamed choice as plain values.
pub ghost struct StreamChoiceView {
    pub content: Option<Seq<char>>,
    pub role: Option<Seq<char>>,
    pub index: Option<usize>,
    pub finish_reason: Option<Seq<char>>,
}

impl View for StreamChoice {
    type V = StreamChoiceView;

    open spec fn view(&self) -> StreamChoiceView {
        StreamChoiceView {
            content: text_view(self.delta.content),
            role: text_view(self.delta.role),
            index: self.index,
            finish_reason: text_view(self.finish_reason),
        }
    }
}

pub open spec fn stream_choice_views(v: Seq<StreamChoice>) -> Seq<StreamChoiceView> {
    v.map_values(|c: StreamChoice| c@)
}

} // verus!
