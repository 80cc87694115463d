//! Messages to and from the model.
use vstd::prelude::*;
use vstd::string::*;

use crate::excerpt::{CLOSING_FENCE, CODE_FENCE, CURSOR_MARKER};
use crate::pattern;

verus! {

/// A message of a chat with the model.
#[allow(inconsistent_fields)]
#[derive(Debug)]
pub enum RequestMessage {
    Assistant { content: Option<String> },
    User { content: String },
    System { content: String },
    Tool { content: String },
}

/// The contents of a [`RequestMessage`].
#[allow(inconsistent_fields)]
#[verifier::ext_equal]
pub enum MessageView {
    Assistant { content: Option<Seq<char>> },
    User { content: Seq<char> },
    System { content: Seq<char> },
    Tool { content: Seq<char> },
}

impl View for RequestMessage {
    type V = MessageView;

    open spec fn view(&self) -> MessageView {
        match self {
            RequestMessage::Assistant { content } => MessageView::Assistant {
                content: match content {
                    Some(content) => Some(content@),
                    None => None,
                },
            },
            RequestMessage::User { content } => MessageView::User { content: content@ },
            RequestMessage::System { content } => MessageView::System { content: content@ },
            RequestMessage::Tool { content } => MessageView::Tool { content: content@ },
        }
    }
}

/// What a list of messages says.
pub open spec fn messages_view(messages: Seq<RequestMessage>) -> Seq<MessageView> {
    messages.map_values(|m: RequestMessage| m@)
}

/// Text that the model is told to expect in its answer.
#[derive(Debug)]
pub enum Prediction {
    Content { content: String },
}

/// A request to the model. It offers the model no tools.
#[derive(Debug)]
pub struct Request {
    pub model: String,
    pub messages: Vec<RequestMessage>,
    /// Whether the answer is to come in pieces.
    pub stream: bool,
    pub max_tokens: Option<u32>,
    /// Where the model is to stop.
    pub stop: Vec<String>,
    pub prediction: Option<Prediction>,
}

/// Why no completion could be read from an answer.
#[derive(Clone, Copy, Debug, PartialEq, Eq, Structural)]
pub enum CompletionError {
    /// The answer offers no choice.
    InvalidResponse,
    /// The assistant said nothing.
    EmptyResponse,
    /// The model answered for a tool.
    UnexpectedToolUse,
    /// The line that opens a block of code does not end.
    MissingNewline,
    /// A block of code is opened and not closed.
    MissingCodeFence,
}

impl CompletionError {
    /// What the error says.
    pub open spec fn spec_message(self) -> Seq<char> {
        match self {
            CompletionError::InvalidResponse => "invalid response"@,
            CompletionError::EmptyResponse => "empty response from the assistant"@,
            CompletionError::UnexpectedToolUse => "unexpected tool use"@,
            CompletionError::MissingNewline => "could not find newline"@,
            CompletionError::MissingCodeFence => "could not find closing codefence"@,
        }
    }

    /// What the error says.
    pub fn message(&self) -> (r: &'static str)
        ensures
            r@ == self.spec_message(),
    {
        match self {
            CompletionError::InvalidResponse => "invalid response",
            CompletionError::EmptyResponse => "empty response from the assistant",
            CompletionError::UnexpectedToolUse => "unexpected tool use",
            CompletionError::MissingNewline => "could not find newline",
            CompletionError::MissingCodeFence => "could not find closing codefence",
        }
    }
}

/// What the model said: the content of the last choice that it offers.
pub open spec fn reply_content(choices: Seq<MessageView>) -> Result<Seq<char>, CompletionError> {
    if choices.len() == 0 {
        Err(CompletionError::InvalidResponse)
    } else {
        match choices.last() {
            MessageView::Assistant { content: Some(content) } => Ok(content),
            MessageView::Assistant { content: None } => Err(CompletionError::EmptyResponse),
            MessageView::User { content } => Ok(content),
            MessageView::System { content } => Ok(content),
            MessageView::Tool { content } => Err(CompletionError::UnexpectedToolUse),
        }
    }
}

/// What the model said, without the marks of a cursor.
pub open spec fn without_cursor(content: Seq<char>) -> Seq<char> {
    pattern::replace_all(content, CURSOR_MARKER@, seq![])
}

/// What stands in a block of code; `content` itself if it is no block of code.
pub open spec fn code_in(content: Seq<char>) -> Result<Seq<char>, CompletionError> {
    let newline = pattern::first_index(content, '\n');
    let body = pattern::trim_end(content.skip(newline + 1));
    if !CODE_FENCE@.is_prefix_of(content) {
        Ok(content)
    } else if newline >= content.len() {
        Err(CompletionError::MissingNewline)
    } else if CLOSING_FENCE@.is_suffix_of(body) {
        Ok(body.take(body.len() - CLOSING_FENCE@.len()))
    } else {
        Err(CompletionError::MissingCodeFence)
    }
}

/// The text that the model suggests in place of the excerpt.
pub open spec fn suggested_text(choices: Seq<MessageView>) -> Result<Seq<char>, CompletionError> {
    match reply_content(choices) {
        Ok(content) => code_in(without_cursor(content)),
        Err(error) => Err(error),
    }
}

/// What a string, or the reason why there is none, says.
pub open spec fn text_result(result: Result<String, CompletionError>) -> Result<
    Seq<char>,
    CompletionError,
> {
    match result {
        Ok(text) => Ok(text@),
        Err(error) => Err(error),
    }
}

/// What the model said.
pub fn response_content(choices: Vec<RequestMessage>) -> (r: Result<String, CompletionError>)
    ensures
        text_result(r) == reply_content(messages_view(choices@)),
{
    let ghost all = messages_view(choices@);
    let mut choices = choices;
    match choices.pop() {
        None => Err(CompletionError::InvalidResponse),
        Some(message) => {
            assert(all.last() == message@);
            match message {
                RequestMessage::Assistant { content } => match content {
                    Some(content) => Ok(content),
                    None => Err(CompletionError::EmptyResponse),
                },
                RequestMessage::User { content } => Ok(content),
                RequestMessage::System { content } => Ok(content),
                RequestMessage::Tool { .. } => Err(CompletionError::UnexpectedToolUse),
            }
        },
    }
}

/// What stands in a block of code; `content` itself if it is no block of code.
pub fn strip_code_fence(content: &str) -> (r: Result<String, CompletionError>)
    ensures
        text_result(r) == code_in(content@),
{
    if !pattern::starts_with(content, CODE_FENCE) {
        return Ok(content.to_string());
    }
    match pattern::after_first(content, '\n') {
        None => Err(CompletionError::MissingNewline),
        Some(rest) => match pattern::strip_suffix(pattern::trim_end_of(rest), CLOSING_FENCE) {
            None => Err(CompletionError::MissingCodeFence),
            Some(code) => Ok(code.to_string()),
        },
    }
}

/// The text that the model suggests in place of the excerpt.
pub fn extract_suggestion(choices: Vec<RequestMessage>) -> (r: Result<String, CompletionError>)
    ensures
        text_result(r) == suggested_text(messages_view(choices@)),
{
    match response_content(choices) {
        Err(error) => Err(error),
        Ok(content) => {
            let none: &str = "";
            proof {
                reveal_strlit("<|user_cursor_is_here|>");
                reveal_strlit("");
                assert(none@ =~= seq![]);
            }
            let content = pattern::replace(content.as_str(), CURSOR_MARKER, none);
            strip_code_fence(content.as_str())
        },
    }
}

} // verus!
