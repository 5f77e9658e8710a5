//! The query pipeline: what the user typed, the prompt that the sources are
//! put into, and how a streamed answer enters the conversation.

use crate::llm::ChatMessage;
use crate::rag::document::Score;
use crate::rag::system::source_views;
use crate::text::{chars_of, find_char, first_index_of, has_prefix, push_str, slice, starts_with, string_of, trim, trimmed};
use vstd::prelude::*;

verus! {

/// The number of sources asked for a question.
pub const QUERY_SOURCES: usize = 10;

/// The model of a message.
pub struct MessageView {
    pub role: Seq<char>,
    pub content: Seq<char>,
    pub thinking_collapsed: bool,
}

/// The model of a message.
pub open spec fn message_view(m: ChatMessage) -> MessageView {
    MessageView { role: m.role@, content: m.content@, thinking_collapsed: m.thinking_collapsed }
}

/// The views of a conversation.
pub open spec fn message_views(messages: Seq<ChatMessage>) -> Seq<MessageView> {
    Seq::new(messages.len(), |i: int| message_view(messages[i]))
}

// ---------------------------------------------------------------------------
// What the user typed
// ---------------------------------------------------------------------------

/// What a line typed into the chat asks for.
#[derive(Clone, Debug)]
pub enum ChatCommand {
    /// Nothing was typed.
    Nothing,
    /// The model of this name is to be used.
    SetModel(String),
    /// The name of the model in use is to be shown.
    ShowModel,
    /// The assistant is asked this question.
    Ask(String),
}

/// The model of a command.
pub enum ChatCommandView {
    Nothing,
    SetModel(Seq<char>),
    ShowModel,
    Ask(Seq<char>),
}

impl View for ChatCommand {
    type V = ChatCommandView;

    open spec fn view(&self) -> ChatCommandView {
        match self {
            ChatCommand::Nothing => ChatCommandView::Nothing,
            ChatCommand::SetModel(m) => ChatCommandView::SetModel(m@),
            ChatCommand::ShowModel => ChatCommandView::ShowModel,
            ChatCommand::Ask(q) => ChatCommandView::Ask(q@),
        }
    }
}

/// What a line asks for. A line that begins with `/model` chooses the model
/// named after its first space, or shows the model in use where no name
/// follows; any other line is a question.
pub open spec fn command_of(input: Seq<char>) -> ChatCommandView {
    let line = trimmed(input);
    if line.len() == 0 {
        ChatCommandView::Nothing
    } else if has_prefix(line, "/model"@) {
        match first_index_of(line, ' ') {
            Some(i) => {
                let name = trimmed(line.subrange(i + 1, line.len() as int));
                if name.len() > 0 {
                    ChatCommandView::SetModel(name)
                } else {
                    ChatCommandView::ShowModel
                }
            },
            None => ChatCommandView::ShowModel,
        }
    } else {
        ChatCommandView::Ask(line)
    }
}

/// Reads a line typed into the chat.
pub fn parse_chat_input(input: &str) -> (r: ChatCommand)
    ensures
        r@ == command_of(input@),
{
    let line = trim(&chars_of(input));
    if line.len() == 0 {
        return ChatCommand::Nothing;
    }
    if starts_with(&line, &chars_of("/model")) {
        match find_char(&line, ' ') {
            Some(i) => {
                let name = trim(&slice(&line, i + 1, line.len()));
                if name.len() > 0 {
                    ChatCommand::SetModel(string_of(&name))
                } else {
                    ChatCommand::ShowModel
                }
            },
            None => ChatCommand::ShowModel,
        }
    } else {
        ChatCommand::Ask(string_of(&line))
    }
}

// ---------------------------------------------------------------------------
// The prompt
// ---------------------------------------------------------------------------

/// The first `n` sources as they are shown to the model: a heading, then
/// each source under its name.
pub open spec fn context_text(sources: Seq<(Seq<char>, Seq<char>, Score)>, n: int) -> Seq<char>
    decreases n,
{
    if n <= 0 {
        "Relevant context from your documents:\n"@
    } else {
        context_text(sources, n - 1) + "\n["@ + sources[n - 1].0 + "]:\n"@ + sources[n - 1].1
            + seq!['\n']
    }
}

/// The prompt for a question: the question itself where there is no source,
/// else the sources, a rule, and the question.
pub open spec fn prompt(sources: Seq<(Seq<char>, Seq<char>, Score)>, question: Seq<char>) -> Seq<
    char,
> {
    if sources.len() == 0 {
        question
    } else {
        context_text(sources, sources.len() as int) + "\n\n---\nUser question: "@ + question
    }
}

/// Puts the sources and the question into a prompt.
pub fn assemble_prompt(sources: &Vec<(String, String, Score)>, question: &str) -> (r: String)
    ensures
        r@ == prompt(source_views(sources@), question@),
{
    if sources.len() == 0 {
        return string_of(&chars_of(question));
    }
    let ghost s = source_views(sources@);
    let mut out: Vec<char> = Vec::new();
    push_str(&mut out, "Relevant context from your documents:\n");
    let mut i: usize = 0;
    assert(out@ =~= context_text(s, 0));
    while i < sources.len()
        invariant
            i <= sources.len(),
            s == source_views(sources@),
            out@ == context_text(s, i as int),
        decreases sources.len() - i,
    {
        let ghost before = out@;
        assert(s[i as int].0 == sources@[i as int].0@);
        assert(s[i as int].1 == sources@[i as int].1@);
        push_str(&mut out, "\n[");
        push_str(&mut out, sources[i].0.as_str());
        push_str(&mut out, "]:\n");
        push_str(&mut out, sources[i].1.as_str());
        out.push('\n');
        i += 1;
        assert(out@ =~= context_text(s, i as int));
    }
    push_str(&mut out, "\n\n---\nUser question: ");
    push_str(&mut out, question);
    assert(out@ =~= prompt(s, question@));
    string_of(&out)
}

/// A copy of a message.
pub fn copy_message(m: &ChatMessage) -> (r: ChatMessage)
    ensures
        message_view(r) == message_view(*m),
{
    ChatMessage {
        role: m.role.clone(),
        content: m.content.clone(),
        thinking_collapsed: m.thinking_collapsed,
    }
}

/// The conversation as it is sent: the history without its last message,
/// which is the place kept for the answer, and with the prompt as the content
/// of the message before it.
pub open spec fn outgoing(history: Seq<MessageView>, prompt: Seq<char>) -> Seq<MessageView> {
    if history.len() == 0 {
        history
    } else {
        let kept = history.drop_last();
        if kept.len() == 0 {
            kept
        } else {
            kept.update(
                kept.len() - 1,
                MessageView {
                    role: kept.last().role,
                    content: prompt,
                    thinking_collapsed: kept.last().thinking_collapsed,
                },
            )
        }
    }
}

/// The conversation as it is sent to the model.
pub fn outgoing_messages(history: &Vec<ChatMessage>, prompt: &str) -> (r: Vec<ChatMessage>)
    ensures
        message_views(r@) == outgoing(message_views(history@), prompt@),
{
    let ghost h = message_views(history@);
    let mut out: Vec<ChatMessage> = Vec::new();
    if history.len() == 0 {
        assert(message_views(out@) =~= outgoing(h, prompt@));
        return out;
    }
    let n: usize = history.len() - 1;
    let mut i: usize = 0;
    while i < n
        invariant
            i <= n,
            n == history.len() - 1,
            h == message_views(history@),
            out@.len() == i,
            forall|k: int| 0 <= k < i ==> message_view(#[trigger] out@[k]) == outgoing(h, prompt@)[k],
        decreases n - i,
    {
        assert(h[i as int] == message_view(history@[i as int]));
        assert(h.drop_last()[i as int] == h[i as int]);
        if i + 1 == n {
            out.push(
                ChatMessage {
                    role: history[i].role.clone(),
                    content: string_of(&chars_of(prompt)),
                    thinking_collapsed: history[i].thinking_collapsed,
                },
            );
        } else {
            out.push(copy_message(&history[i]));
        }
        i += 1;
    }
    assert(message_views(out@) =~= outgoing(h, prompt@));
    out
}

// ---------------------------------------------------------------------------
// The answer
// ---------------------------------------------------------------------------

/// The conversation after more text of the answer came: the text is added to
/// the last message where that is the assistant's.
pub open spec fn with_content(messages: Seq<MessageView>, text: Seq<char>) -> Seq<MessageView> {
    if messages.len() > 0 && messages.last().role == "assistant"@ {
        messages.update(
            messages.len() - 1,
            MessageView {
                role: messages.last().role,
                content: messages.last().content + text,
                thinking_collapsed: messages.last().thinking_collapsed,
            },
        )
    } else {
        messages
    }
}

/// The conversation after the answer has ended: the last message is trimmed
/// where it is the assistant's.
pub open spec fn finished(messages: Seq<MessageView>) -> Seq<MessageView> {
    if messages.len() > 0 && messages.last().role == "assistant"@ {
        messages.update(
            messages.len() - 1,
            MessageView {
                role: messages.last().role,
                content: trimmed(messages.last().content),
                thinking_collapsed: messages.last().thinking_collapsed,
            },
        )
    } else {
        messages
    }
}

/// Adds text of the answer to the conversation.
pub fn append_content(messages: &mut Vec<ChatMessage>, text: &str)
    ensures
        message_views(final(messages)@) == with_content(message_views(old(messages)@), text@),
{
    let ghost before = message_views(messages@);
    if messages.len() == 0 {
        return ;
    }
    let last = messages.pop().unwrap();
    assert(message_view(last) == before.last());
    let ghost kept = message_views(messages@);
    assert(kept =~= before.drop_last());
    if last.role.as_str().eq("assistant") {
        let mut content = chars_of(last.content.as_str());
        push_str(&mut content, text);
        messages.push(
            ChatMessage {
                role: last.role,
                content: string_of(&content),
                thinking_collapsed: last.thinking_collapsed,
            },
        );
    } else {
        messages.push(last);
    }
    assert(message_views(messages@) =~= with_content(before, text@));
}

/// Ends the answer.
pub fn finish_answer(messages: &mut Vec<ChatMessage>)
    ensures
        message_views(final(messages)@) == finished(message_views(old(messages)@)),
{
    let ghost before = message_views(messages@);
    if messages.len() == 0 {
        return ;
    }
    let last = messages.pop().unwrap();
    assert(message_view(last) == before.last());
    let ghost kept = message_views(messages@);
    assert(kept =~= before.drop_last());
    if last.role.as_str().eq("assistant") {
        let content = trim(&chars_of(last.content.as_str()));
        messages.push(
            ChatMessage {
                role: last.role,
                content: string_of(&content),
                thinking_collapsed: last.thinking_collapsed,
            },
        );
    } else {
        messages.push(last);
    }
    assert(message_views(messages@) =~= finished(before));
}

/// The message that tells the user of a failure.
pub fn error_message(what: &str) -> (r: ChatMessage)
    ensures
        r.role@ == "assistant"@,
        r.content@ == "Error: "@ + what@,
        !r.thinking_collapsed,
{
    let mut content = chars_of("Error: ");
    push_str(&mut content, what);
    ChatMessage {
        role: string_of(&chars_of("assistant")),
        content: string_of(&content),
        thinking_collapsed: false,
    }
}

} // verus!
