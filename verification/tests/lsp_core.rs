use mq_edit::analyzer::DefinitionLookup;
use mq_edit::analyzer::MarkdownLsp;
use mq_edit::analyzer::is_heading;
use mq_edit::client::ProcessClientCore;
use mq_edit::codec::DecodedMessage;
use mq_edit::codec::decode_body;
use mq_edit::codec::encode_notification;
use mq_edit::codec::encode_request;
use mq_edit::codec::frame_message;
use mq_edit::codec::parse_content_length;
use mq_edit::diagnostics::DiagnosticsManager;
use mq_edit::events::Diagnostic;
use mq_edit::events::Event;
use mq_edit::events::Position;
use mq_edit::events::Range;
use mq_edit::events::Severity;
use mq_edit::json::Json;
use mq_edit::manager::LspManager;
use mq_edit::manager::LspServerConfig;

fn create_test_lsp() -> MarkdownLsp {
    MarkdownLsp::new("/tmp".to_owned())
}

#[test]
fn markdown_lsp_test_heading_slug() {
    assert_eq!(MarkdownLsp::make_heading_slug("Hello World"), "hello-world");
    assert_eq!(MarkdownLsp::make_heading_slug("Getting Started"), "getting-started");
    assert_eq!(MarkdownLsp::make_heading_slug("Test - Special & Chars!"), "test-special-chars");
}

#[test]
fn test_slug_idempotent() {
    let once = MarkdownLsp::make_heading_slug("Test - Special & Chars!");
    let twice = MarkdownLsp::make_heading_slug(&once);
    assert_eq!(once, twice);
    let h = MarkdownLsp::make_heading_slug("hello-world");
    assert_eq!(h, "hello-world");
}

#[test]
fn markdown_lsp_test_parse_document() {
    let mut lsp = create_test_lsp();
    let content = "# Hello\n\nWorld";
    lsp.parse_document("file:///test.md", content);

    assert!(lsp.documents.iter().any(|(k, _)| k == "file:///test.md"));
    let doc = &lsp.documents.iter().find(|(k, _)| k == "file:///test.md").unwrap().1;
    assert_eq!(doc.content, content);
    assert!(doc.nodes.is_some());
}

#[test]
fn markdown_lsp_test_heading_completions() {
    let mut lsp = create_test_lsp();
    lsp.parse_document("file:///test.md", "#");

    let completions = lsp.get_completions("file:///test.md", 0, 1);
    assert!(!completions.is_empty());
    assert!(completions.iter().any(|c| c.label.contains("Heading 1")));
}

#[test]
fn markdown_lsp_test_link_completions() {
    let mut lsp = create_test_lsp();
    lsp.parse_document("file:///test.md", "[");

    let completions = lsp.get_completions("file:///test.md", 0, 1);
    assert!(completions.iter().any(|c| c.label.contains("text](url)")));
}

#[test]
fn markdown_lsp_test_anchor_completions() {
    let mut lsp = create_test_lsp();
    let content = "# First Heading\n\n## Second Heading\n\n[link](#";
    lsp.parse_document("file:///test.md", content);

    let completions = lsp.get_completions("file:///test.md", 4, 8);
    assert!(completions.iter().any(|c| c.label.contains("first-heading")));
    assert!(completions.iter().any(|c| c.label.contains("second-heading")));
}

#[test]
fn test_completion_suppressed_in_code_block() {
    let mut lsp = create_test_lsp();
    let content = "```\ntext [\nmore\n```\n";
    lsp.parse_document("file:///test.md", content);

    let completions = lsp.get_completions("file:///test.md", 1, 6);
    assert!(completions.is_empty());
}

#[test]
fn test_references_from_heading() {
    let mut lsp = create_test_lsp();
    let content = "# First Heading\n\n[link1](#first-heading)\n\n[link2](#first-heading)";
    lsp.parse_document("file:///test.md", content);

    let refs = lsp.get_references("file:///test.md", 0, 5, true);
    assert_eq!(refs.len(), 3);
    assert_eq!(refs[0].range.start.line, 0);
}

#[test]
fn test_references_from_heading_without_declaration() {
    let mut lsp = create_test_lsp();
    let content = "# First Heading\n\n[link1](#first-heading)\n\n[link2](#first-heading)";
    lsp.parse_document("file:///test.md", content);

    let refs = lsp.get_references("file:///test.md", 0, 5, false);
    assert_eq!(refs.len(), 2);
}

#[test]
fn test_references_from_link() {
    let mut lsp = create_test_lsp();
    let content = "# First Heading\n\n[link1](#first-heading)\n\n[link2](#first-heading)";
    lsp.parse_document("file:///test.md", content);

    let refs = lsp.get_references("file:///test.md", 2, 10, true);
    assert_eq!(refs.len(), 3);
}

#[test]
fn test_references_no_matches() {
    let mut lsp = create_test_lsp();
    let content = "Just some text\n\nMore text";
    lsp.parse_document("file:///test.md", content);

    let refs = lsp.get_references("file:///test.md", 0, 5, true);
    assert!(refs.is_empty());
}

#[test]
fn markdown_lsp_test_definition_heading_anchor() {
    let mut lsp = create_test_lsp();
    let content = "# First Heading\n\n[link](#first-heading)";
    lsp.parse_document("file:///test.md", content);

    let definition = lsp.get_definition("file:///test.md", 2, 10);
    match definition {
        DefinitionLookup::AnchorFound { range } => {
            assert_eq!(range.start.line, 0);
        },
        _ => panic!("expected a resolved anchor"),
    }
}

#[test]
fn test_definition_file_candidate() {
    let mut lsp = create_test_lsp();
    let content = "[other](other.md)";
    lsp.parse_document("file:///test.md", content);

    let definition = lsp.get_definition("file:///test.md", 0, 3);
    match definition {
        DefinitionLookup::FileCandidate { target } => {
            assert_eq!(target, "other.md");
        },
        _ => panic!("expected a file candidate"),
    }
}

#[test]
fn test_broken_anchor_diagnostic() {
    let mut lsp = create_test_lsp();
    let content = "[dead](#missing)";
    lsp.parse_document("file:///test.md", content);

    let events = lsp.drain_events();
    let mut found = 0;
    for e in &events {
        if let Event::Diagnostics { uri, diagnostics } = e {
            assert_eq!(uri, "file:///test.md");
            assert_eq!(diagnostics.len(), 1);
            assert_eq!(diagnostics[0].severity, Some(Severity::Warning));
            assert!(diagnostics[0].message.contains("missing"));
            found += 1;
        }
    }
    assert_eq!(found, 1);
}

#[test]
fn test_is_heading() {
    assert_eq!(is_heading("# Heading 1"), Some(1));
    assert_eq!(is_heading("## Heading 2"), Some(2));
    assert_eq!(is_heading("### Heading 3"), Some(3));
    assert_eq!(is_heading("Not a heading"), None);
    assert_eq!(is_heading("#NoSpace"), None);
}

fn create_default_configs() -> Vec<(String, LspServerConfig)> {
    vec![
        (
            "markdown".to_owned(),
            LspServerConfig {
                command: String::new(),
                args: vec![],
                embedded: true,
                enable_completion: true,
                enable_diagnostics: false,
                enable_goto_definition: true,
            },
        ),
    ]
}

#[test]
fn manager_test_lsp_manager_creation() {
    let configs = create_default_configs();
    let manager = LspManager::new(configs, "/tmp/test".to_owned());

    assert_eq!(manager.backends.len(), 0);
    assert!(!manager.has_client("rust"));
}

#[test]
fn test_is_enabled() {
    let mut configs = create_default_configs();
    configs.push(
        (
            "rust".to_owned(),
            LspServerConfig {
                command: "rust-analyzer".to_owned(),
                args: vec![],
                embedded: false,
                enable_completion: true,
                enable_diagnostics: true,
                enable_goto_definition: true,
            },
        ),
    );

    let manager = LspManager::new(configs, "/tmp/test".to_owned());

    assert!(manager.is_enabled("rust"));
    assert!(manager.is_enabled("markdown"));
    assert!(!manager.is_enabled("unknown"));
}

#[test]
fn manager_test_poll_events_empty() {
    let configs = create_default_configs();
    let mut manager = LspManager::new(configs, "/tmp/test".to_owned());

    let events = manager.poll_events();
    assert_eq!(events.len(), 0);
}

#[test]
fn test_markdown_embedded_lsp() {
    let configs = create_default_configs();
    let mut manager = LspManager::new(configs, "/tmp/test".to_owned());

    let result = manager.get_or_create_backend("markdown");
    assert!(result.is_ok());

    assert!(manager.has_client("markdown"));

    let before = manager.backends.len();
    let again = manager.get_or_create_backend("markdown");
    assert!(again.is_ok());
    assert_eq!(manager.backends.len(), before);
}

#[test]
fn test_unconfigured_language_error() {
    let configs = create_default_configs();
    let mut manager = LspManager::new(configs, "/tmp/test".to_owned());

    let result = manager.get_or_create_backend("rust");
    assert!(result.is_err());
    assert!(!manager.has_client("rust"));
    assert!(result.err().unwrap().text().contains("rust"));
}

#[test]
fn test_remove_backend() {
    let configs = create_default_configs();
    let mut manager = LspManager::new(configs, "/tmp/test".to_owned());
    assert!(manager.get_or_create_backend("markdown").is_ok());
    assert!(manager.has_client("markdown"));
    manager.remove_backend("markdown");
    assert!(!manager.has_client("markdown"));
    manager.remove_backend("markdown");
    assert!(!manager.has_client("markdown"));
}

#[test]
fn test_poll_events_fifo_and_consume_once() {
    let configs = create_default_configs();
    let mut manager = LspManager::new(configs, "/tmp/test".to_owned());
    manager.did_open("markdown", "/tmp/test/a.md", "[dead](#missing)").unwrap();
    let events = manager.poll_events();
    // The handshake's initialized event arrives before the diagnostics that
    // opening the document produced.
    assert_eq!(events.len(), 2);
    assert_eq!(events[0].0, "markdown");
    assert!(matches!(events[0].1, Event::Initialized { .. }));
    assert!(matches!(events[1].1, Event::Diagnostics { .. }));
    // Consumed exactly once: a second poll with no new activity is empty.
    assert_eq!(manager.poll_events().len(), 0);
}

#[test]
fn test_is_trigger_character() {
    let configs = create_default_configs();
    let mut manager = LspManager::new(configs, "/tmp/test".to_owned());

    manager.set_trigger_characters("markdown", vec!["#".to_owned(), "[".to_owned()]);

    assert!(manager.is_trigger_character("markdown", '#'));
    assert!(manager.is_trigger_character("markdown", '['));
    assert!(!manager.is_trigger_character("markdown", '.'));
    assert!(!manager.is_trigger_character("rust", '#'));
}

fn create_diagnostic(line: u32, severity: Severity, message: &str) -> Diagnostic {
    Diagnostic {
        range: Range {
            start: Position { line, character: 0 },
            end: Position { line, character: 10 },
        },
        severity: Some(severity),
        message: message.to_owned(),
    }
}

#[test]
fn test_diagnostics_manager_creation() {
    let manager = DiagnosticsManager::new();
    assert!(!manager.has_diagnostics());
    assert_eq!(manager.error_count(), 0);
    assert_eq!(manager.warning_count(), 0);
}

#[test]
fn test_update_diagnostics() {
    let mut manager = DiagnosticsManager::new();

    let diagnostics = vec![
        create_diagnostic(0, Severity::Error, "Error on line 0"),
        create_diagnostic(0, Severity::Warning, "Warning on line 0"),
        create_diagnostic(5, Severity::Warning, "Warning on line 5"),
    ];

    manager.update(diagnostics);

    assert!(manager.has_diagnostics());
    assert_eq!(manager.error_count(), 1);
    assert_eq!(manager.warning_count(), 2);
    assert_eq!(manager.get_for_line(0).unwrap().len(), 2);
    assert_eq!(manager.get_for_line(5).unwrap().len(), 1);
    assert!(manager.get_for_line(10).is_none());
}

#[test]
fn test_clear_diagnostics() {
    let mut manager = DiagnosticsManager::new();
    manager.update(vec![create_diagnostic(0, Severity::Error, "Error")]);

    assert!(manager.has_diagnostics());

    manager.clear();

    assert!(!manager.has_diagnostics());
    assert_eq!(manager.error_count(), 0);
}

#[test]
fn test_most_severe_for_line() {
    let mut manager = DiagnosticsManager::new();

    let diagnostics = vec![
        create_diagnostic(0, Severity::Warning, "Warning"),
        create_diagnostic(0, Severity::Error, "Error"),
        create_diagnostic(0, Severity::Hint, "Hint"),
    ];

    manager.update(diagnostics);

    let most_severe = manager.most_severe_for_line(0).unwrap();
    assert_eq!(most_severe.severity, Some(Severity::Error));
    assert_eq!(most_severe.message, "Error");
}

#[test]
fn test_message_serialization() {
    let json = encode_request(1, "initialize", Json::Obj(vec![]));
    assert!(json.contains("\"jsonrpc\":\"2.0\""));
    assert!(json.contains("\"id\":1"));
    assert!(json.contains("\"method\":\"initialize\""));
}

#[test]
fn test_notification_message() {
    let json = encode_notification("textDocument/didOpen", Json::Obj(vec![]));
    assert!(json.contains("\"method\":\"textDocument/didOpen\""));
    assert!(!json.contains("\"id\""));
}

#[test]
fn test_request_round_trip() {
    let params = Json::Obj(vec![("value".to_owned(), Json::Num { neg: false, mag: 42 })]);
    let body = encode_request(7, "textDocument/completion", params);
    match decode_body(&body) {
        Some(DecodedMessage::Request { id, method, .. }) => {
            assert_eq!(id, 7);
            assert_eq!(method, "textDocument/completion");
        },
        _ => panic!("expected the request back"),
    }
}

#[test]
fn test_request_ids_strictly_increase() {
    let mut core = ProcessClientCore::new("rust".to_owned(), "/tmp".to_owned());
    let a = core.send_request("initialize", Json::Obj(vec![]));
    let b = core.send_request("textDocument/completion", Json::Obj(vec![]));
    let c = core.send_request("textDocument/definition", Json::Obj(vec![]));
    assert!(a < b && b < c);
    assert_eq!(core.take_outbox().len(), 3);
}

#[test]
fn test_handle_publish_diagnostics() {
    let mut core = ProcessClientCore::new("rust".to_owned(), "/tmp".to_owned());
    let body = "{\"jsonrpc\":\"2.0\",\"method\":\"textDocument/publishDiagnostics\",\"params\":{\"uri\":\"file:///a.rs\",\"diagnostics\":[{\"range\":{\"start\":{\"line\":3,\"character\":0},\"end\":{\"line\":3,\"character\":5}},\"severity\":1,\"message\":\"bad\"}]}}";
    core.handle_frame(body);
    let events = core.drain_events();
    assert_eq!(events.len(), 1);
    match &events[0] {
        Event::Diagnostics { uri, diagnostics } => {
            assert_eq!(uri, "file:///a.rs");
            assert_eq!(diagnostics.len(), 1);
            assert_eq!(diagnostics[0].range.start.line, 3);
            assert_eq!(diagnostics[0].severity, Some(Severity::Error));
            assert_eq!(diagnostics[0].message, "bad");
        },
        _ => panic!("expected diagnostics"),
    }
}

#[test]
fn test_response_routing_by_pending_method() {
    let mut core = ProcessClientCore::new("rust".to_owned(), "/tmp".to_owned());
    let id = core.send_request("textDocument/references", Json::Obj(vec![]));
    let body = format!(
        "{{\"jsonrpc\":\"2.0\",\"id\":{},\"result\":[{{\"uri\":\"file:///a.rs\",\"range\":{{\"start\":{{\"line\":1,\"character\":2}},\"end\":{{\"line\":1,\"character\":9}}}}}}]}}",
        id
    );
    core.handle_frame(&body);
    let events = core.drain_events();
    assert_eq!(events.len(), 1);
    match &events[0] {
        Event::References { locations } => {
            assert_eq!(locations.len(), 1);
            assert_eq!(locations[0].uri, "file:///a.rs");
            assert_eq!(locations[0].range.start.line, 1);
        },
        _ => panic!("expected references"),
    }
    core.handle_frame(&body);
    assert_eq!(core.drain_events().len(), 0);
}

#[test]
fn test_error_response_becomes_error_event() {
    let mut core = ProcessClientCore::new("rust".to_owned(), "/tmp".to_owned());
    let id = core.send_request("textDocument/completion", Json::Obj(vec![]));
    let body = format!(
        "{{\"jsonrpc\":\"2.0\",\"id\":{},\"error\":{{\"code\":-32601,\"message\":\"nope\"}}}}",
        id
    );
    core.handle_frame(&body);
    let events = core.drain_events();
    assert_eq!(events.len(), 1);
    match &events[0] {
        Event::Error { message } => {
            assert_eq!(message, "LSP error: nope (code: -32601)");
        },
        _ => panic!("expected an error event"),
    }
    // The errored request's entry was released: a second reply under the
    // same id is a stray and is dropped.
    core.handle_frame(&body);
    assert_eq!(core.drain_events().len(), 0);
}

#[test]
fn test_unknown_id_error_response_dropped() {
    let mut core = ProcessClientCore::new("rust".to_owned(), "/tmp".to_owned());
    let body = "{\"jsonrpc\":\"2.0\",\"id\":9,\"error\":{\"code\":-1,\"message\":\"late\"}}";
    core.handle_frame(body);
    assert_eq!(core.drain_events().len(), 0);
}

#[test]
fn test_frame_and_content_length() {
    let framed = frame_message("{\"a\":1}");
    assert_eq!(framed, "Content-Length: 7\r\n\r\n{\"a\":1}");
    assert_eq!(parse_content_length("Content-Length: 7"), Some(7));
    assert_eq!(parse_content_length("Content-Length:  42 "), Some(42));
    assert_eq!(parse_content_length("Content-Type: foo"), None);
    assert_eq!(parse_content_length("Content-Length: x"), None);
}
