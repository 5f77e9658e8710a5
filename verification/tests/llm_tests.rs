use polirag::config::{Config, LlmProvider};
use polirag::error::{
    disposition, kind_of_embed_error, kind_of_login_error, kind_of_processing_error,
    on_auth_expired, Disposition, ErrorKind,
};
use polirag::llm::{
    chat_result, context_window_for, model_ids, request_failed, stream_events, ChatChoice,
    ChatMessage, ChatResponse, ChatStreamChoice, ChatStreamDelta, ChatStreamResponse, LlmClient,
    LlmError, ModelInfo, ModelListResponse, SseDecoder, StreamEvent, Usage,
};
use polirag::query::{
    append_content, assemble_prompt, error_message, finish_answer, outgoing_messages,
    parse_chat_input, ChatCommand,
};
use polirag::rag::embeddings::EmbedError;
use polirag::scrapper::auth::LoginError;
use polirag::scrapper::processing::ProcessingError;

fn msg(role: &str, content: &str) -> ChatMessage {
    ChatMessage { role: role.to_string(), content: content.to_string(), thinking_collapsed: false }
}

fn piece(content: Option<&str>, usage: Option<Usage>) -> ChatStreamResponse {
    ChatStreamResponse {
        choices: vec![ChatStreamChoice { delta: ChatStreamDelta { content: content.map(|c| c.to_string()) } }],
        usage,
    }
}

#[test]
fn client_defaults_and_settings() {
    let mut client = LlmClient::new(None, None, None);
    assert_eq!(client.base_url, "http://localhost:1234/v1");
    assert_eq!(client.model, "local-model");
    assert!(client.api_key.is_none());
    assert_eq!(client.models_url(), "http://localhost:1234/v1/models");
    assert_eq!(client.chat_url(), "http://localhost:1234/v1/chat/completions");
    client.set_model("gemma");
    client.set_auth(LlmProvider::OpenRouter.base_url(), Some("key".to_string()));
    assert_eq!(client.model, "gemma");
    assert_eq!(client.chat_url(), "https://openrouter.ai/api/v1/chat/completions");
    let custom = LlmClient::new(Some("http://h/v1".to_string()), Some("m".to_string()), Some("k".to_string()));
    assert_eq!((custom.base_url.as_str(), custom.model.as_str()), ("http://h/v1", "m"));
}

#[test]
fn request_headers_carry_the_key() {
    let local = LlmClient::new(None, None, None);
    assert!(local.request_headers(true).is_empty());
    let keyed = LlmClient::new(Some("http://h/v1".to_string()), None, Some("abc".to_string()));
    assert_eq!(keyed.request_headers(true), vec![("Authorization".to_string(), "Bearer abc".to_string())]);
    let router = LlmClient::new(Some("https://openrouter.ai/api/v1".to_string()), None, Some("abc".to_string()));
    assert_eq!(
        router.request_headers(true),
        vec![
            ("Authorization".to_string(), "Bearer abc".to_string()),
            ("HTTP-Referer".to_string(), "http://localhost:8080".to_string()),
            ("X-Title".to_string(), "PoliRag".to_string()),
        ]
    );
    assert_eq!(router.request_headers(false), vec![("Authorization".to_string(), "Bearer abc".to_string())]);
}

#[test]
fn chat_request_has_the_default_temperature() {
    let client = LlmClient::new(None, Some("m".to_string()), None);
    let whole = client.chat_request(vec![msg("user", "hi")], false);
    assert_eq!(whole.model, "m");
    assert_eq!(whole.temperature_milli, 700);
    assert_eq!(whole.stream, None);
    assert_eq!(whole.messages.len(), 1);
    let streamed = client.chat_request(Vec::new(), true);
    assert_eq!(streamed.stream, Some(true));
}

#[test]
fn context_window_falls_back() {
    let list = ModelListResponse {
        data: vec![
            ModelInfo { id: "a".to_string(), context_length: Some(4096) },
            ModelInfo { id: "b".to_string(), context_length: None },
            ModelInfo { id: "b".to_string(), context_length: Some(8192) },
            ModelInfo { id: "b".to_string(), context_length: Some(1) },
        ],
    };
    assert_eq!(context_window_for(&list, "a"), 4096);
    assert_eq!(context_window_for(&list, "b"), 8192);
    assert_eq!(context_window_for(&list, "c"), 32768);
    assert_eq!(context_window_for(&ModelListResponse { data: Vec::new() }, "a"), 32768);
    assert_eq!(model_ids(&list), vec!["a", "b", "b", "b"]);
    let client = LlmClient::new(None, Some("a".to_string()), None);
    assert_eq!(client.context_window(&Some(list)), 4096);
    assert_eq!(client.context_window(&None), 32768);
}

#[test]
fn chat_result_takes_the_first_choice() {
    let usage = Usage { prompt_tokens: 1, completion_tokens: 2, total_tokens: 3 };
    let response = ChatResponse {
        choices: vec![ChatChoice { message: msg("assistant", "first") }, ChatChoice { message: msg("assistant", "second") }],
        usage: Some(usage),
    };
    match chat_result(response) {
        Ok((content, u)) => {
            assert_eq!(content, "first");
            assert_eq!(u, Some(usage));
        }
        Err(_) => panic!("expected an answer"),
    }
    assert!(matches!(chat_result(ChatResponse { choices: Vec::new(), usage: None }), Err(LlmError::NoChoices)));
    match request_failed("Chat request failed", "quota") {
        LlmError::NetworkError(text) => assert_eq!(text, "Chat request failed: quota"),
        _ => panic!("expected a network error"),
    }
    assert_eq!(Usage::default().total_tokens, 0);
}

#[test]
fn stream_events_of_a_piece() {
    let usage = Usage { prompt_tokens: 5, completion_tokens: 6, total_tokens: 11 };
    let events = stream_events(&piece(Some("hel"), Some(usage)));
    assert_eq!(events.len(), 2);
    assert!(matches!(&events[0], StreamEvent::Content(t) if t == "hel"));
    assert!(matches!(&events[1], StreamEvent::Usage(u) if *u == usage));
    assert!(stream_events(&piece(Some(""), None)).is_empty());
    assert!(stream_events(&piece(None, None)).is_empty());
    assert_eq!(stream_events(&ChatStreamResponse { choices: Vec::new(), usage: Some(usage) }).len(), 1);
}

#[test]
fn decoder_frames_lines_across_chunks() {
    let mut d = SseDecoder::new();
    assert!(d.feed("data: {\"a\"").is_empty());
    assert_eq!(d.buffer, "data: {\"a\"");
    assert_eq!(d.feed(":1}\n\ndata:  {\"b\":2} \r\nda"), vec!["{\"a\":1}", "{\"b\":2}"]);
    assert_eq!(d.buffer, "da");
    assert_eq!(d.feed("ta: x\n: comment\nevent: y\ndata:z\n"), vec!["x"]);
    assert!(!d.done);
    assert_eq!(d.feed("data: last\ndata: [DONE]\ndata: after\n"), vec!["last"]);
    assert!(d.done);
    assert_eq!(d.buffer, "");
    assert!(d.feed("data: ignored\n").is_empty());
    assert!(d.done);
}

#[test]
fn decoder_keeps_an_unfinished_line() {
    let mut d = SseDecoder::new();
    assert!(d.feed("").is_empty());
    assert!(d.feed("data: [DONE]").is_empty());
    assert!(!d.done);
    assert!(d.feed("\n").is_empty());
    assert!(d.done);
}

#[test]
fn chat_input_commands() {
    assert!(matches!(parse_chat_input("   "), ChatCommand::Nothing));
    assert!(matches!(parse_chat_input(" what is x? "), ChatCommand::Ask(q) if q == "what is x?"));
    assert!(matches!(parse_chat_input("/model  gemma-3 "), ChatCommand::SetModel(m) if m == "gemma-3"));
    assert!(matches!(parse_chat_input("/model"), ChatCommand::ShowModel));
    assert!(matches!(parse_chat_input("/model   "), ChatCommand::ShowModel));
    assert!(matches!(parse_chat_input("/modelx y"), ChatCommand::SetModel(m) if m == "y"));
    assert!(matches!(parse_chat_input("a /model b"), ChatCommand::Ask(_)));
}

#[test]
fn prompt_holds_sources_and_question() {
    assert_eq!(assemble_prompt(&Vec::new(), "why?"), "why?");
    let sources = vec![
        ("a.pdf".to_string(), "first".to_string(), 900_000),
        ("CS101".to_string(), "second".to_string(), 400_000),
    ];
    assert_eq!(
        assemble_prompt(&sources, "why?"),
        "Relevant context from your documents:\n\n[a.pdf]:\nfirst\n\n[CS101]:\nsecond\n\n\n---\nUser question: why?"
    );
}

#[test]
fn outgoing_messages_replace_the_question() {
    let history = vec![msg("system", "be kind"), msg("user", "why?"), msg("assistant", "")];
    let sent = outgoing_messages(&history, "PROMPT");
    assert_eq!(sent.len(), 2);
    assert_eq!((sent[0].role.as_str(), sent[0].content.as_str()), ("system", "be kind"));
    assert_eq!((sent[1].role.as_str(), sent[1].content.as_str()), ("user", "PROMPT"));
    assert!(outgoing_messages(&Vec::new(), "P").is_empty());
    assert!(outgoing_messages(&vec![msg("assistant", "")], "P").is_empty());
}

#[test]
fn answers_grow_and_are_trimmed() {
    let mut messages = vec![msg("user", "why?"), msg("assistant", "")];
    append_content(&mut messages, " be");
    append_content(&mut messages, "cause \n");
    assert_eq!(messages[1].content, " because \n");
    finish_answer(&mut messages);
    assert_eq!(messages[1].content, "because");
    let mut only_user = vec![msg("user", " q ")];
    append_content(&mut only_user, "x");
    finish_answer(&mut only_user);
    assert_eq!(only_user[0].content, " q ");
    let mut none: Vec<ChatMessage> = Vec::new();
    append_content(&mut none, "x");
    assert!(none.is_empty());
    let e = error_message("timeout");
    assert_eq!((e.role.as_str(), e.content.as_str()), ("assistant", "Error: timeout"));
}

#[test]
fn every_kind_of_failure_has_its_disposition() {
    assert_eq!(disposition(ErrorKind::IoError), Disposition::Propagate);
    assert_eq!(disposition(ErrorKind::EmbedderError), Disposition::SkipItem);
    assert_eq!(disposition(ErrorKind::NetworkError), Disposition::Propagate);
    assert_eq!(disposition(ErrorKind::AuthExpired), Disposition::Reauthenticate);
    assert_eq!(disposition(ErrorKind::LoginFailed), Disposition::ForgetCredentials);
    assert_eq!(disposition(ErrorKind::PdfExtractionFailed), Disposition::SkipItem);
    assert_eq!(disposition(ErrorKind::DecodeError), Disposition::StartEmpty);
    assert_eq!(disposition(ErrorKind::InvalidInput), Disposition::Propagate);
    assert_eq!(on_auth_expired(false), Disposition::Reauthenticate);
    assert_eq!(on_auth_expired(true), Disposition::Propagate);
    assert_eq!(kind_of_embed_error(EmbedError::InvalidInput), ErrorKind::InvalidInput);
    assert_eq!(kind_of_embed_error(EmbedError::EmbedderError), ErrorKind::EmbedderError);
    assert_eq!(kind_of_login_error(LoginError::SessionTimeout), ErrorKind::LoginFailed);
    assert_eq!(kind_of_processing_error(ProcessingError::PdfExtractionFailed(2)), ErrorKind::PdfExtractionFailed);
}

#[test]
fn config_paths_and_choices() {
    assert_eq!(Config::get_index_path("/d/polirag"), "/d/polirag/polirag.index");
    assert_eq!(Config::get_documents_path("/d/polirag/polirag.index"), "/d/polirag/polirag.index.data");
    assert_eq!(Config::get_graph_path("/d/polirag/polirag.index"), "/d/polirag/polirag.index.hnsw.graph");
    assert_eq!(Config::get_scraped_data_dir("/d/polirag"), "/d/polirag/data");
    assert_eq!(Config::config_path("/d/polirag"), "/d/polirag/config.json");
    assert_eq!(Config::legacy_config_path("/home/u"), "/home/u/.polirag.json");
    let mut legacy = Config::default();
    legacy.save_model("old");
    let mut current = Config::default();
    current.save_model("new");
    assert_eq!(Config::load(Some(legacy.clone()), Some(current.clone())).get_last_model(), Some("old".to_string()));
    assert_eq!(Config::load(None, Some(current)).get_last_model(), Some("new".to_string()));
    assert_eq!(Config::load(None, None).get_last_model(), None);
    let mut c = Config::default();
    c.save_provider_config(LlmProvider::OpenRouter, Some("k".to_string()), None);
    c.save_provider_config(LlmProvider::OpenRouter, None, Some("m".to_string()));
    assert!(c.llm_provider == LlmProvider::OpenRouter);
    assert_eq!(c.openrouter_api_key, Some("k".to_string()));
    assert_eq!(c.openrouter_model, Some("m".to_string()));
    c.save_provider_config(LlmProvider::LmStudio, None, None);
    assert_eq!(c.openrouter_api_key, Some("k".to_string()));
}
