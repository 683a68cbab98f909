//! The call to the completion service: what is sent, and how the answer is
//! read. Sending is the caller's business; this module only builds the
//! request and judges what came back.

use crate::json::{parse_json, parsed_json, Json};
use vstd::prelude::*;
use vstd::string::StringExecFns;

verus! {

/// The instruction that goes with every prompt.
pub const SYSTEM_PROMPT: &'static str =
    "You are a helpful assistant. Please provide structured responses using markdown formatting. Use headers (# for main points), bullet points (- for lists), bold (**text**) for emphasis, and code blocks (```code```) for code examples. Organize your responses with clear sections and concise explanations.";

/// Where, under the service's base address, completions are asked for.
pub const COMPLETIONS_PATH: &'static str = "/chat/completions";

/// The role of the instruction.
pub const SYSTEM_ROLE: &'static str = "system";

/// The role of the prompt.
pub const USER_ROLE: &'static str = "user";

/// One message of a completion request.
#[derive(Debug, PartialEq, Eq)]
pub struct ChatMessage {
    pub role: String,
    pub content: String,
}

/// A [`ChatMessage`], as the contracts see it.
pub struct MessageView {
    pub role: Seq<char>,
    pub content: Seq<char>,
}

impl View for ChatMessage {
    type V = MessageView;

    open spec fn view(&self) -> MessageView {
        MessageView { role: self.role@, content: self.content@ }
    }
}

/// The body of a completion request.
#[derive(Debug, PartialEq, Eq)]
pub struct CompletionRequest {
    pub model: String,
    pub messages: Vec<ChatMessage>,
}

/// A [`CompletionRequest`], as the contracts see it.
pub struct CompletionRequestView {
    pub model: Seq<char>,
    pub messages: Seq<MessageView>,
}

impl View for CompletionRequest {
    type V = CompletionRequestView;

    open spec fn view(&self) -> CompletionRequestView {
        CompletionRequestView {
            model: self.model@,
            messages: Seq::new(self.messages@.len(), |i: int| self.messages@[i]@),
        }
    }
}

/// A call to make: the address to post to, and the body to post.
#[derive(Debug, PartialEq, Eq)]
pub struct UpstreamCall {
    pub url: String,
    pub body: CompletionRequest,
}

/// An [`UpstreamCall`], as the contracts see it.
pub struct UpstreamCallView {
    pub url: Seq<char>,
    pub body: CompletionRequestView,
}

impl View for UpstreamCall {
    type V = UpstreamCallView;

    open spec fn view(&self) -> UpstreamCallView {
        UpstreamCallView { url: self.url@, body: self.body@ }
    }
}

/// The call that asks the service at `base_url` to have `model` complete
/// `message`: the fixed instruction first, the prompt second.
pub open spec fn call_for(base_url: Seq<char>, model: Seq<char>, message: Seq<char>) -> UpstreamCallView {
    UpstreamCallView {
        url: base_url + COMPLETIONS_PATH@,
        body: CompletionRequestView {
            model,
            messages: seq![
                MessageView { role: SYSTEM_ROLE@, content: SYSTEM_PROMPT@ },
                MessageView { role: USER_ROLE@, content: message },
            ],
        },
    }
}

/// Builds the call that asks for a completion of `message`.
pub fn upstream_call(base_url: &str, model: &str, message: &str) -> (call: UpstreamCall)
    ensures
        call@ == call_for(base_url@, model@, message@),
{
    let mut messages: Vec<ChatMessage> = Vec::new();
    messages.push(
        ChatMessage { role: SYSTEM_ROLE.to_owned(), content: SYSTEM_PROMPT.to_owned() },
    );
    messages.push(ChatMessage { role: USER_ROLE.to_owned(), content: message.to_owned() });
    let call = UpstreamCall {
        url: base_url.to_owned().concat(COMPLETIONS_PATH),
        body: CompletionRequest { model: model.to_owned(), messages },
    };
    proof {
        assert(call@.body.messages =~= call_for(base_url@, model@, message@).body.messages);
    }
    call
}

/// How a call ended: without an answer, or with a status and a body.
#[derive(Debug, PartialEq, Eq)]
pub enum UpstreamOutcome {
    Unreachable,
    Answered { status: u16, body: Vec<u8> },
}

/// Why a call gave no completion.
#[derive(Clone, Copy, PartialEq, Eq, Structural, Debug)]
pub enum UpstreamFault {
    /// No answer came back.
    Unreachable,
    /// The service answered with a status other than success.
    Refused,
    /// The service answered with something other than a completion.
    Malformed,
}

/// Whether `status` reports success: 200 up to 299.
pub open spec fn is_success(status: u16) -> bool {
    200 <= status < 300
}

/// Whether `status` reports success.
pub fn status_is_success(status: u16) -> (success: bool)
    ensures
        success == is_success(status),
{
    200 <= status && status < 300
}

/// The completion that `document` carries: the text at `content`, in
/// `message`, in the first of `choices`.
pub open spec fn completion_in(document: Json) -> Option<Seq<char>> {
    match document.spec_member("choices"@) {
        Some(choices) => match choices.spec_element(0) {
            Some(choice) => match choice.spec_member("message"@) {
                Some(message) => match message.spec_member("content"@) {
                    Some(content) => content.spec_text(),
                    None => None,
                },
                None => None,
            },
            None => None,
        },
        None => None,
    }
}

/// The completion that `document` carries, if it has the shape of one.
pub fn completion_text(document: &Json) -> (text: Option<String>)
    ensures
        match text {
            Some(t) => completion_in(*document) == Some(t@),
            None => completion_in(*document) is None,
        },
{
    let choices = match document.member("choices") {
        Some(choices) => choices,
        None => { return None; },
    };
    let choice = match choices.element(0) {
        Some(choice) => choice,
        None => { return None; },
    };
    let message = match choice.member("message") {
        Some(message) => message,
        None => { return None; },
    };
    let content = match message.member("content") {
        Some(content) => content,
        None => { return None; },
    };
    match content.text() {
        Some(text) => Some(text.clone()),
        None => None,
    }
}

/// What an answer with `status` and, where the body was a JSON document,
/// `document` amounts to: its completion, or the reason there is none.
pub open spec fn answer_reading(status: u16, document: Option<Json>) -> Result<
    Seq<char>,
    UpstreamFault,
> {
    if !is_success(status) {
        Err(UpstreamFault::Refused)
    } else {
        match document {
            Some(doc) => match completion_in(doc) {
                Some(text) => Ok(text),
                None => Err(UpstreamFault::Malformed),
            },
            None => Err(UpstreamFault::Malformed),
        }
    }
}

/// What `outcome` amounts to.
pub open spec fn outcome_reading(outcome: UpstreamOutcome) -> Result<Seq<char>, UpstreamFault> {
    match outcome {
        UpstreamOutcome::Unreachable => Err(UpstreamFault::Unreachable),
        UpstreamOutcome::Answered { status, body } => answer_reading(status, parsed_json(body@)),
    }
}

/// The view of a reading.
pub open spec fn reading_of(reading: Result<String, UpstreamFault>) -> Result<
    Seq<char>,
    UpstreamFault,
> {
    match reading {
        Ok(text) => Ok(text@),
        Err(fault) => Err(fault),
    }
}

/// Reads an answer whose body has been parsed already: `document` is the
/// parsed body, or nothing where the body was no JSON document.
pub fn read_answer(status: u16, document: Option<&Json>) -> (reading: Result<String, UpstreamFault>)
    ensures
        reading_of(reading) == answer_reading(
            status,
            match document {
                Some(doc) => Some(*doc),
                None => None,
            },
        ),
{
    if !status_is_success(status) {
        return Err(UpstreamFault::Refused);
    }
    match document {
        Some(doc) => match completion_text(doc) {
            Some(text) => Ok(text),
            None => Err(UpstreamFault::Malformed),
        },
        None => Err(UpstreamFault::Malformed),
    }
}

/// Reads how a call ended. The body is parsed only where the status
/// reports success.
pub fn read_outcome(outcome: &UpstreamOutcome) -> (reading: Result<String, UpstreamFault>)
    ensures
        reading_of(reading) == outcome_reading(*outcome),
{
    match outcome {
        UpstreamOutcome::Unreachable => Err(UpstreamFault::Unreachable),
        UpstreamOutcome::Answered { status, body } => {
            if !status_is_success(*status) {
                return Err(UpstreamFault::Refused);
            }
            let document = parse_json(body.as_slice());
            read_answer(*status, document.as_ref())
        },
    }
}

} // verus!
