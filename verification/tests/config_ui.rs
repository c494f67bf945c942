use mq_edit::config::Config;
use mq_edit::config::KeyBinding;
use mq_edit::config::KeyCodeInput;
use mq_edit::config::KeyInput;
use mq_edit::config::LspConfig;
use mq_edit::dialog::GotoLineDialog;
use mq_edit::dialog::QuitDialog;
use mq_edit::dialog::SaveAsDialog;
use mq_edit::document_type::DocumentType;
use mq_edit::file_browser::FileTreeItem;
use mq_edit::file_type::FileType;
use mq_edit::query_dialog::MqQueryDialog;
use mq_edit::renderer::PlainTextRenderer;
use mq_edit::renderer::SemanticToken;
use mq_edit::renderer::decode_semantic_tokens;
use mq_edit::search_dialog::SearchDialog;
use mq_edit::search_dialog::SearchField;
use mq_edit::search_dialog::SearchMode;

#[test]
fn test_keybinding_matches() {
    let kb = KeyBinding { code: "q".to_owned(), modifiers: vec!["ctrl".to_owned()] };

    let key = KeyInput { code: KeyCodeInput::Character('q'), ctrl: true, shift: false, alt: false };
    assert!(kb.matches(&key));

    let key2 = KeyInput { code: KeyCodeInput::Character('q'), ctrl: true, shift: true, alt: false };
    assert!(!kb.matches(&key2));
}

#[test]
fn test_keybinding_display() {
    let kb = KeyBinding { code: "s".to_owned(), modifiers: vec!["ctrl".to_owned()] };
    assert_eq!(kb.display(), "Ctrl+S");

    let kb2 = KeyBinding { code: "q".to_owned(), modifiers: vec!["ctrl".to_owned()] };
    assert_eq!(kb2.display(), "Ctrl+Q");
}

#[test]
fn test_default_config() {
    let config = Config::default();
    assert_eq!(config.keybindings.save.code, "s");
    assert_eq!(config.keybindings.quit.code, "q");
    assert_eq!(config.keybindings.quit.modifiers.len(), 1);
    assert_eq!(config.keybindings.quit_alt.code, "esc");
    assert_eq!(config.keybindings.quit_alt.modifiers.len(), 0);
}

#[test]
fn test_lsp_config_default() {
    let lsp_config = LspConfig::default();

    assert!(lsp_config.servers.contains_key("rust"));
    assert!(lsp_config.servers.contains_key("python"));

    let rust_config = lsp_config.servers.get("rust").unwrap();
    assert_eq!(rust_config.command, "rust-analyzer");
    assert!(rust_config.args.is_empty());
    assert!(rust_config.enable_completion);
    assert!(rust_config.enable_diagnostics);
    assert!(rust_config.enable_goto_definition);

    let python_config = lsp_config.servers.get("python").unwrap();
    assert_eq!(python_config.command, "pyright-langserver");
    assert_eq!(python_config.args, vec!["--stdio"]);
    assert!(python_config.enable_completion);
    assert!(python_config.enable_diagnostics);
    assert!(python_config.enable_goto_definition);
}

#[test]
fn test_config_with_lsp() {
    let config = Config::default();

    assert!(!config.lsp.servers.is_empty());
    assert!(config.lsp.servers.contains_key("rust"));
}

#[test]
fn test_plain_text_renderer() {
    let renderer = PlainTextRenderer::new();
    assert!(!renderer.supports_wysiwyg());
}

#[test]
fn test_markdown_document_creation() {
    let doc = DocumentType::new_markdown("# Hello World").unwrap();
    assert!(doc.has_ast());
    assert!(doc.markdown_ast().is_some());
    assert!(doc.line_map().is_some());
    assert_eq!(doc.file_type(), FileType::Markdown);
}

#[test]
fn test_code_document_creation() {
    let doc = DocumentType::new_code("rust".to_owned());
    assert!(!doc.has_ast());
    assert_eq!(doc.language(), Some("rust"));
    assert_eq!(doc.file_type(), FileType::Code("rust".to_owned()));
}

#[test]
fn test_plain_text_document_creation() {
    let doc = DocumentType::new_plain_text();
    assert!(!doc.has_ast());
    assert_eq!(doc.file_type(), FileType::PlainText);
}

#[test]
fn test_markdown_rebuild() {
    let mut doc = DocumentType::new_markdown("# Title").unwrap();
    doc.rebuild("## Subtitle").unwrap();
    assert!(doc.markdown_ast().is_some());
}

#[test]
fn test_quit_dialog_area() {
    let _dialog = QuitDialog::new();
    let area = QuitDialog::dialog_area(100, 40);
    assert_eq!(area.width, 50);
    assert_eq!(area.height, 7);
    assert_eq!(area.x, 25);
}

#[test]
fn test_save_as_dialog() {
    let dialog = SaveAsDialog::new("notes.md");
    assert_eq!(dialog.filename, "notes.md");
    let area = SaveAsDialog::dialog_area(100, 40);
    assert_eq!(area.width, 60);
    assert_eq!(area.height, 7);
}

#[test]
fn test_goto_line_dialog() {
    let dialog = GotoLineDialog::new("12", 3, 100);
    assert_eq!(dialog.line_number, "12");
    assert_eq!(dialog.current_line, 3);
    assert_eq!(dialog.total_lines, 100);
    let area = GotoLineDialog::dialog_area(10, 5, );
    assert!(area.width <= 10);
}

#[test]
fn test_search_dialog_states() {
    let d = SearchDialog::new("needle", 4, Some(1));
    assert_eq!(d.mode, SearchMode::Find);
    assert_eq!(d.active_field, SearchField::Search);
    let d = d.with_replace("thread");
    assert_eq!(d.mode, SearchMode::Replace);
    assert_eq!(d.replace_query, "thread");
    let d = d.with_active_field(SearchField::Replace);
    assert_eq!(d.active_field, SearchField::Replace);
    let area = SearchDialog::dialog_area(100, 40, SearchMode::Replace);
    assert_eq!(area.y, 2);
    assert_eq!(area.height, 10);
}

#[test]
fn test_query_dialog() {
    let d = MqQueryDialog::new(".h1", None);
    assert_eq!(d.query, ".h1");
    assert!(d.result.is_none());
    let area = MqQueryDialog::dialog_area(100, 40, false);
    assert_eq!(area.height, 5);
    let area = MqQueryDialog::dialog_area(100, 40, true);
    assert_eq!(area.height, 7);
}

#[test]
fn test_file_tree_item() {
    let item = FileTreeItem::new("src/main.rs".to_owned(), false, 1);
    assert_eq!(item.name, "main.rs");
    assert_eq!(item.depth, 1);
    assert!(!item.expanded);
    let dir = FileTreeItem::new("src".to_owned(), true, 0);
    assert_eq!(dir.name, "src");
    assert!(dir.is_dir);
}

#[test]
fn test_semantic_tokens_decoding() {
    let data: Vec<u32> = vec![0, 2, 3, 1, 0, 1, 4, 2, 5, 0];
    let tokens = decode_semantic_tokens(&data);
    assert_eq!(tokens.len(), 2);
    assert_eq!(tokens[0].0, 0);
    assert_eq!(
        tokens[0].1,
        SemanticToken { start: 2, length: 3, token_type: 1, modifiers: 0 }
    );
    assert_eq!(tokens[1].0, 1);
    assert_eq!(
        tokens[1].1,
        SemanticToken { start: 4, length: 2, token_type: 5, modifiers: 0 }
    );
}
