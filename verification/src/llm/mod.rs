//! The client of the chat service: what is sent, and what is made of what
//! comes back.
//!
//! The service speaks the chat-completions protocol. A streamed answer comes
//! as lines of the form `data: <payload>`; the line `data: [DONE]` ends it.
//! Sending requests and reading JSON is done by the caller.

use crate::text::{chars_of, contains, contains_text, find_char, first_index_of, has_prefix, opt_view, push_str, same_chars, slice, starts_with, str_views, string_of, trim, trimmed};
use vstd::prelude::*;

verus! {

/// The list of models that the service offers.
#[derive(Clone, Debug)]
pub struct ModelListResponse {
    pub data: Vec<ModelInfo>,
}

/// One model of the list.
#[derive(Clone, Debug)]
pub struct ModelInfo {
    pub id: String,
    pub context_length: Option<usize>,
}

/// One message of a conversation.
#[derive(Clone, Debug)]
pub struct ChatMessage {
    pub role: String,
    pub content: String,
    pub thinking_collapsed: bool,
}

/// A request for a completion. The temperature is given in thousandths.
#[derive(Clone, Debug)]
pub struct ChatRequest {
    pub model: String,
    pub messages: Vec<ChatMessage>,
    pub temperature_milli: u32,
    pub stream: Option<bool>,
}

/// An answer that came whole.
#[derive(Clone, Debug)]
pub struct ChatResponse {
    pub choices: Vec<ChatChoice>,
    pub usage: Option<Usage>,
}

/// One choice of an answer.
#[derive(Clone, Debug)]
pub struct ChatChoice {
    pub message: ChatMessage,
}

/// One piece of a streamed answer.
#[derive(Clone, Debug)]
pub struct ChatStreamResponse {
    pub choices: Vec<ChatStreamChoice>,
    pub usage: Option<Usage>,
}

/// One choice of a piece of a streamed answer.
#[derive(Clone, Debug)]
pub struct ChatStreamChoice {
    pub delta: ChatStreamDelta,
}

/// What a piece adds to the answer.
#[derive(Clone, Debug)]
pub struct ChatStreamDelta {
    pub content: Option<String>,
}

/// The tokens that a request took.
#[derive(Clone, Copy, Debug, PartialEq, Eq, Structural)]
pub struct Usage {
    pub prompt_tokens: usize,
    pub completion_tokens: usize,
    pub total_tokens: usize,
}

impl Default for Usage {
    fn default() -> (r: Self)
        ensures
            r == (Usage { prompt_tokens: 0, completion_tokens: 0, total_tokens: 0 }),
    {
        Usage { prompt_tokens: 0, completion_tokens: 0, total_tokens: 0 }
    }
}

/// What a streamed answer delivers.
#[derive(Clone, Debug)]
pub enum StreamEvent {
    /// More text of the answer.
    Content(String),
    /// The token accounting.
    Usage(Usage),
}

/// The model of a stream event.
pub enum StreamEventView {
    Content(Seq<char>),
    Usage(Usage),
}

impl View for StreamEvent {
    type V = StreamEventView;

    open spec fn view(&self) -> StreamEventView {
        match self {
            StreamEvent::Content(s) => StreamEventView::Content(s@),
            StreamEvent::Usage(u) => StreamEventView::Usage(*u),
        }
    }
}

/// The views of a list of stream events.
pub open spec fn event_views(events: Seq<StreamEvent>) -> Seq<StreamEventView> {
    Seq::new(events.len(), |i: int| events[i]@)
}

/// Why the service gave no answer.
#[derive(Clone, Debug)]
pub enum LlmError {
    /// The request failed; the text is what the service said.
    NetworkError(String),
    /// The answer holds no choice.
    NoChoices,
}

/// The number of tokens assumed for a model that does not tell its context
/// window.
pub const DEFAULT_CONTEXT_WINDOW: usize = 32768;

/// The temperature of every request, in thousandths: 0.7.
pub const TEMPERATURE_MILLI: u32 = 700;

// ---------------------------------------------------------------------------
// Settings and requests
// ---------------------------------------------------------------------------

/// Where the service is, which model is asked, and the key that opens it.
#[derive(Clone, Debug)]
pub struct LlmClient {
    pub base_url: String,
    pub model: String,
    pub api_key: Option<String>,
}

/// The header fields of a request, as pairs of name and value.
pub open spec fn headers(base_url: Seq<char>, api_key: Option<Seq<char>>, chat: bool) -> Seq<
    (Seq<char>, Seq<char>),
> {
    match api_key {
        Some(key) => {
            let auth = seq![("Authorization"@, "Bearer "@ + key)];
            if chat && contains_text(base_url, "openrouter"@) {
                auth + seq![
                    ("HTTP-Referer"@, "http://localhost:8080"@),
                    ("X-Title"@, "PoliRag"@),
                ]
            } else {
                auth
            }
        },
        None => Seq::empty(),
    }
}

/// The views of a list of header fields.
pub open spec fn header_views(h: Seq<(String, String)>) -> Seq<(Seq<char>, Seq<char>)> {
    Seq::new(h.len(), |i: int| (h[i].0@, h[i].1@))
}

impl LlmClient {
    /// The settings of a client; a local service and the model `local-model`
    /// where nothing else is given.
    pub fn new(base_url: Option<String>, model: Option<String>, api_key: Option<String>) -> (r:
        Self)
        ensures
            r.base_url@ == match base_url {
                Some(u) => u@,
                None => "http://localhost:1234/v1"@,
            },
            r.model@ == match model {
                Some(m) => m@,
                None => "local-model"@,
            },
            r.api_key == api_key,
    {
        LlmClient {
            base_url: match base_url {
                Some(u) => u,
                None => string_of(&chars_of("http://localhost:1234/v1")),
            },
            model: match model {
                Some(m) => m,
                None => string_of(&chars_of("local-model")),
            },
            api_key,
        }
    }

    /// Chooses the model.
    pub fn set_model(&mut self, model: &str)
        ensures
            final(self).model@ == model@,
            final(self).base_url == old(self).base_url,
            final(self).api_key == old(self).api_key,
    {
        self.model = string_of(&chars_of(model));
    }

    /// Chooses the service and the key for it.
    pub fn set_auth(&mut self, base_url: &str, api_key: Option<String>)
        ensures
            final(self).base_url@ == base_url@,
            final(self).api_key == api_key,
            final(self).model == old(self).model,
    {
        self.base_url = string_of(&chars_of(base_url));
        self.api_key = api_key;
    }

    /// The address of the list of models.
    pub fn models_url(&self) -> (r: String)
        ensures
            r@ == self.base_url@ + "/models"@,
    {
        let mut out = chars_of(self.base_url.as_str());
        push_str(&mut out, "/models");
        string_of(&out)
    }

    /// The address that completions are asked from.
    pub fn chat_url(&self) -> (r: String)
        ensures
            r@ == self.base_url@ + "/chat/completions"@,
    {
        let mut out = chars_of(self.base_url.as_str());
        push_str(&mut out, "/chat/completions");
        string_of(&out)
    }

    /// The header fields of a request: the key as a bearer token where there
    /// is one, and with it, for a completion asked of OpenRouter, the fields
    /// that name the asking program.
    pub fn request_headers(&self, chat: bool) -> (r: Vec<(String, String)>)
        ensures
            header_views(r@) == headers(self.base_url@, opt_view(self.api_key), chat),
    {
        let mut out: Vec<(String, String)> = Vec::new();
        match &self.api_key {
            Some(key) => {
                let mut bearer = chars_of("Bearer ");
                push_str(&mut bearer, key.as_str());
                out.push((string_of(&chars_of("Authorization")), string_of(&bearer)));
                let base = chars_of(self.base_url.as_str());
                let mark = chars_of("openrouter");
                if chat && contains(&base, &mark) {
                    out.push(
                        (
                            string_of(&chars_of("HTTP-Referer")),
                            string_of(&chars_of("http://localhost:8080")),
                        ),
                    );
                    out.push((string_of(&chars_of("X-Title")), string_of(&chars_of("PoliRag"))));
                }
            },
            None => {},
        }
        assert(header_views(out@) =~= headers(self.base_url@, opt_view(self.api_key), chat));
        out
    }

    /// The request for a completion of the conversation.
    pub fn chat_request(&self, messages: Vec<ChatMessage>, stream: bool) -> (r: ChatRequest)
        ensures
            r.model@ == self.model@,
            r.messages == messages,
            r.temperature_milli == 700,
            r.stream == if stream {
                Some(true)
            } else {
                None::<bool>
            },
    {
        ChatRequest {
            model: self.model.clone(),
            messages,
            temperature_milli: TEMPERATURE_MILLI,
            stream: if stream {
                Some(true)
            } else {
                None
            },
        }
    }

    /// The context window of the chosen model, by the list of models if it
    /// could be had.
    pub fn context_window(&self, models: &Option<ModelListResponse>) -> (r: usize)
        ensures
            r == match models {
                Some(list) => context_length_of(list.data@, self.model@, list.data@.len() as int),
                None => 32768,
            },
    {
        match models {
            Some(list) => context_window_for(list, self.model.as_str()),
            None => DEFAULT_CONTEXT_WINDOW,
        }
    }
}

/// The ids of the models of a list, in order.
pub fn model_ids(list: &ModelListResponse) -> (r: Vec<String>)
    ensures
        r@.len() == list.data@.len(),
        forall|i: int| 0 <= i < r@.len() ==> (#[trigger] r@[i])@ == list.data@[i].id@,
{
    let mut out: Vec<String> = Vec::new();
    let mut i: usize = 0;
    while i < list.data.len()
        invariant
            i <= list.data.len(),
            out@.len() == i,
            forall|k: int| 0 <= k < i ==> (#[trigger] out@[k])@ == list.data@[k].id@,
        decreases list.data.len() - i,
    {
        out.push(list.data[i].id.clone());
        i += 1;
    }
    out
}

/// The context window that the first `n` models of a list tell for `model`:
/// that of the first of them with this id that tells one; 32768 where none
/// does.
pub open spec fn context_length_of(models: Seq<ModelInfo>, model: Seq<char>, n: int) -> usize
    decreases n,
{
    if n <= 0 {
        32768
    } else {
        let before = first_told(models, model, n - 1);
        if before.is_some() {
            before->0
        } else if models[n - 1].id@ == model && models[n - 1].context_length.is_some() {
            models[n - 1].context_length->0
        } else {
            32768
        }
    }
}

/// The context window that the first of the first `n` models with this id
/// tells, if any of them tells one.
pub open spec fn first_told(models: Seq<ModelInfo>, model: Seq<char>, n: int) -> Option<usize>
    decreases n,
{
    if n <= 0 {
        None
    } else {
        let before = first_told(models, model, n - 1);
        if before.is_some() {
            before
        } else if models[n - 1].id@ == model && models[n - 1].context_length.is_some() {
            models[n - 1].context_length
        } else {
            None
        }
    }
}

/// The context window of `model` by the list of models.
pub fn context_window_for(list: &ModelListResponse, model: &str) -> (r: usize)
    ensures
        r == context_length_of(list.data@, model@, list.data@.len() as int),
{
    let mut i: usize = 0;
    while i < list.data.len()
        invariant
            i <= list.data.len(),
            first_told(list.data@, model@, i as int).is_none(),
        decreases list.data.len() - i,
    {
        if list.data[i].id.as_str().eq(model) {
            match list.data[i].context_length {
                Some(n) => {
                    proof {
                        lemma_first_told_stays(list.data@, model@, i + 1, list.data@.len() as int);
                    }
                    return n;
                },
                None => {},
            }
        }
        i += 1;
    }
    DEFAULT_CONTEXT_WINDOW
}

/// What was told first stays what was told first.
pub proof fn lemma_first_told_stays(models: Seq<ModelInfo>, model: Seq<char>, n: int, m: int)
    requires
        0 < n <= m,
        first_told(models, model, n).is_some(),
    ensures
        first_told(models, model, m) == first_told(models, model, n),
        context_length_of(models, model, m) == first_told(models, model, n)->0,
    decreases m - n,
{
    if n < m {
        lemma_first_told_stays(models, model, n, m - 1);
    }
}

/// What an answer that came whole holds: the content of its first choice and
/// the token accounting.
pub fn chat_result(response: ChatResponse) -> (r: Result<(String, Option<Usage>), LlmError>)
    ensures
        match r {
            Ok(pair) => response.choices@.len() > 0 && pair.0@
                == response.choices@[0].message.content@ && pair.1 == response.usage,
            Err(e) => response.choices@.len() == 0 && e is NoChoices,
        },
{
    if response.choices.len() == 0 {
        return Err(LlmError::NoChoices);
    }
    let content = response.choices[0].message.content.clone();
    Ok((content, response.usage))
}

/// What a request that the service refused becomes.
pub fn request_failed(what: &str, said: &str) -> (r: LlmError)
    ensures
        match r {
            LlmError::NetworkError(text) => text@ == what@ + ": "@ + said@,
            LlmError::NoChoices => false,
        },
{
    let mut out = chars_of(what);
    push_str(&mut out, ": ");
    push_str(&mut out, said);
    assert(out@ =~= what@ + ": "@ + said@);
    LlmError::NetworkError(string_of(&out))
}

// ---------------------------------------------------------------------------
// Streamed answers
// ---------------------------------------------------------------------------

/// The events that one piece of a streamed answer delivers: the text that its
/// first choice adds, where it adds any, then the token accounting, where it
/// is there.
pub open spec fn events_of(piece: ChatStreamResponse) -> Seq<StreamEventView> {
    let text = if piece.choices@.len() > 0 && piece.choices@[0].delta.content.is_some()
        && piece.choices@[0].delta.content->0@.len() > 0 {
        seq![StreamEventView::Content(piece.choices@[0].delta.content->0@)]
    } else {
        Seq::empty()
    };
    let usage = match piece.usage {
        Some(u) => seq![StreamEventView::Usage(u)],
        None => Seq::empty(),
    };
    text + usage
}

/// The events that one piece of a streamed answer delivers.
pub fn stream_events(piece: &ChatStreamResponse) -> (r: Vec<StreamEvent>)
    ensures
        event_views(r@) == events_of(*piece),
{
    let mut out: Vec<StreamEvent> = Vec::new();
    if piece.choices.len() > 0 {
        match &piece.choices[0].delta.content {
            Some(text) => {
                let t = chars_of(text.as_str());
                if t.len() > 0 {
                    out.push(StreamEvent::Content(string_of(&t)));
                }
            },
            None => {},
        }
    }
    match piece.usage {
        Some(u) => {
            out.push(StreamEvent::Usage(u));
        },
        None => {},
    }
    assert(event_views(out@) =~= events_of(*piece));
    out
}

/// The payload of a line of a streamed answer: what follows `data: `,
/// trimmed; nothing for a line that does not begin so.
pub open spec fn payload(line: Seq<char>) -> Option<Seq<char>> {
    if has_prefix(line, "data: "@) {
        Some(trimmed(line.subrange(6, line.len() as int)))
    } else {
        None
    }
}

/// What is read from a buffer: the payloads of its complete lines up to the
/// line that ends the answer, what is left of the buffer, and whether the
/// answer has ended. After the end nothing is left.
pub struct Drained {
    pub payloads: Seq<Seq<char>>,
    pub rest: Seq<char>,
    pub done: bool,
}

/// Reads a buffer line by line.
pub open spec fn drain(buffer: Seq<char>) -> Drained
    decreases buffer.len(),
    via drain_decreases
{
    match first_index_of(buffer, '\n') {
        None => Drained { payloads: Seq::empty(), rest: buffer, done: false },
        Some(pos) => {
            let line = trimmed(buffer.subrange(0, pos));
            let rest = buffer.subrange(pos + 1, buffer.len() as int);
            match payload(line) {
                Some(data) => if data == "[DONE]"@ {
                    Drained { payloads: Seq::empty(), rest: Seq::empty(), done: true }
                } else {
                    let next = drain(rest);
                    Drained {
                        payloads: seq![data] + next.payloads,
                        rest: next.rest,
                        done: next.done,
                    }
                },
                None => drain(rest),
            }
        },
    }
}

#[via_fn]
proof fn drain_decreases(buffer: Seq<char>) {
    crate::text::lemma_first_index_of(buffer, '\n');
}

/// The reader of a streamed answer: what came and is not yet a complete line,
/// and whether the answer has ended.
#[derive(Clone, Debug)]
pub struct SseDecoder {
    pub buffer: String,
    pub done: bool,
}

impl SseDecoder {
    /// A reader at the start of an answer.
    pub fn new() -> (r: Self)
        ensures
            r.buffer@ == Seq::<char>::empty(),
            !r.done,
    {
        SseDecoder { buffer: String::new(), done: false }
    }

    /// Takes a chunk of the answer and returns the payloads of the lines that
    /// it completes. Once the line `data: [DONE]` has come, the answer has
    /// ended, and whatever comes after it is ignored.
    pub fn feed(&mut self, chunk: &str) -> (r: Vec<String>)
        ensures
            old(self).done ==> r@.len() == 0 && final(self).done && final(self).buffer@
                == old(self).buffer@,
            !old(self).done ==> {
                let d = drain(old(self).buffer@ + chunk@);
                &&& str_views(r@) == d.payloads
                &&& final(self).buffer@ == d.rest
                &&& final(self).done == d.done
            },
    {
        let mut out: Vec<String> = Vec::new();
        if self.done {
            return out;
        }
        let mut buffer = chars_of(self.buffer.as_str());
        push_str(&mut buffer, chunk);
        let ghost all = buffer@;
        let prefix = chars_of("data: ");
        let end_mark = chars_of("[DONE]");
        let mut from: usize = 0;
        assert(all.subrange(0, all.len() as int) =~= all);
        assert(str_views(out@) =~= Seq::<Seq<char>>::empty());
        proof {
            reveal_strlit("data: ");
        }
        loop
            invariant
                from <= buffer.len(),
                !old(self).done,
                prefix@.len() == 6,
                buffer@ == all,
                all == old(self).buffer@ + chunk@,
                prefix@ == "data: "@,
                end_mark@ == "[DONE]"@,
                !self.done,
                drain(all) == (Drained {
                    payloads: str_views(out@) + drain(
                        all.subrange(from as int, all.len() as int),
                    ).payloads,
                    rest: drain(all.subrange(from as int, all.len() as int)).rest,
                    done: drain(all.subrange(from as int, all.len() as int)).done,
                }),
            decreases buffer.len() - from,
        {
            let rest = slice(&buffer, from, buffer.len());
            match find_char(&rest, '\n') {
                None => {
                    self.buffer = string_of(&rest);
                    proof {
                        assert(str_views(out@) + Seq::<Seq<char>>::empty() =~= str_views(out@));
                    }
                    return out;
                },
                Some(pos) => {
                    let line = trim(&slice(&rest, 0, pos));
                    let ghost tail = rest@.subrange(pos + 1, rest@.len() as int);
                    proof {
                        assert(tail =~= all.subrange(from + pos + 1, all.len() as int));
                    }
                    if starts_with(&line, &prefix) {
                        let data = trim(&slice(&line, 6, line.len()));
                        if same_chars(&data, &end_mark) {
                            self.buffer = String::new();
                            self.done = true;
                            proof {
                                assert(str_views(out@) + Seq::<Seq<char>>::empty() =~= str_views(
                                    out@,
                                ));
                            }
                            return out;
                        }
                        let ghost before = str_views(out@);
                        out.push(string_of(&data));
                        proof {
                            assert(str_views(out@) =~= before + seq![data@]);
                            assert(before + (seq![data@] + drain(tail).payloads) =~= (before
                                + seq![data@]) + drain(tail).payloads);
                        }
                    }
                    from = from + pos + 1;
                },
            }
        }
    }
}

} // verus!
