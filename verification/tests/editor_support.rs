use mq_edit::cursor::Cursor;
use mq_edit::cursor::LineMap;
use mq_edit::file_type::FileType;
use mq_edit::history::EditAction;
use mq_edit::history::EditHistory;
use mq_edit::line_analyzer::LineAnalyzer;
use mq_edit::line_analyzer::LineType;
use mq_edit::line_analyzer::TableAlignment;
use mq_edit::navigation::FileLocation;
use mq_edit::navigation::NavigationHistory;

#[test]
fn test_cursor_creation() {
    let cursor = Cursor::new();
    assert_eq!(cursor.line, 0);
    assert_eq!(cursor.column, 0);
    assert_eq!(cursor.desired_column, 0);
}

#[test]
fn test_cursor_with_position() {
    let cursor = Cursor::with_position(5, 10);
    assert_eq!(cursor.line, 5);
    assert_eq!(cursor.column, 10);
    assert_eq!(cursor.desired_column, 10);
}

#[test]
fn test_linemap_creation() {
    let linemap = LineMap::new();
    assert_eq!(linemap.line_count(), 0);
}

#[test]
fn test_markdown_detection() {
    assert_eq!(FileType::from_path("file.md"), FileType::Markdown);
    assert_eq!(FileType::from_path("README.markdown"), FileType::Markdown);
}

#[test]
fn test_code_detection() {
    assert_eq!(FileType::from_path("main.rs"), FileType::Code("rust".to_owned()));
    assert_eq!(FileType::from_path("script.py"), FileType::Code("python".to_owned()));
    assert_eq!(FileType::from_path("app.ts"), FileType::Code("typescript".to_owned()));
    assert_eq!(FileType::from_path("query.mq"), FileType::Code("mq".to_owned()));
}

#[test]
fn test_plain_text_detection() {
    assert_eq!(FileType::from_path("notes.txt"), FileType::PlainText);
    assert_eq!(FileType::from_path("file.unknown"), FileType::PlainText);
}

#[test]
fn test_lsp_language_id() {
    assert_eq!(FileType::Code("rust".to_owned()).lsp_language_id(), Some("rust"));
    assert_eq!(FileType::Markdown.lsp_language_id(), Some("markdown"));
    assert_eq!(FileType::PlainText.lsp_language_id(), None);
}

#[test]
fn test_push_and_undo() {
    let mut history = EditHistory::new();
    let cursor = Cursor::new();

    history.push(EditAction::InsertChar { line: 0, column: 0, c: 'a' }, cursor);

    let entry = history.undo().unwrap();
    match entry.action {
        EditAction::InsertChar { c, .. } => assert_eq!(c, 'a'),
        _ => panic!("expected an inserted character"),
    }
}

#[test]
fn test_undo_empty() {
    let mut history = EditHistory::new();
    assert!(history.undo().is_none());
}

#[test]
fn test_redo_after_undo() {
    let mut history = EditHistory::new();
    let cursor = Cursor::new();

    history.push(EditAction::InsertChar { line: 0, column: 0, c: 'x' }, cursor);

    history.undo();
    let entry = history.redo().unwrap();
    match entry.action {
        EditAction::InsertChar { c, .. } => assert_eq!(c, 'x'),
        _ => panic!("expected an inserted character"),
    }
}

#[test]
fn test_new_action_clears_redo() {
    let mut history = EditHistory::new();
    let cursor = Cursor::new();

    history.push(EditAction::InsertChar { line: 0, column: 0, c: 'a' }, cursor);
    history.undo();

    history.push(EditAction::InsertChar { line: 0, column: 0, c: 'b' }, cursor);

    assert!(history.redo().is_none());
}

#[test]
fn test_max_history() {
    let mut history = EditHistory::new();
    history.max_history = 3;
    let cursor = Cursor::new();

    for i in 0..5 {
        history.push(EditAction::InsertChar { line: 0, column: i, c: 'a' }, cursor);
    }

    assert_eq!(history.undo_stack.len(), 3);
}

#[test]
fn test_heading_detection() {
    assert_eq!(LineAnalyzer::analyze_line("# Heading 1"), LineType::Heading(1));
    assert_eq!(LineAnalyzer::analyze_line("## Heading 2"), LineType::Heading(2));
    assert_eq!(LineAnalyzer::analyze_line("### Heading 3"), LineType::Heading(3));
}

#[test]
fn test_list_detection() {
    assert_eq!(LineAnalyzer::analyze_line("- Item"), LineType::ListItem);
    assert_eq!(LineAnalyzer::analyze_line("* Item"), LineType::ListItem);
    assert_eq!(LineAnalyzer::analyze_line("1. Item"), LineType::OrderedListItem);
}

#[test]
fn test_task_list() {
    assert_eq!(LineAnalyzer::analyze_line("- [ ] Todo"), LineType::TaskListItem(false));
    assert_eq!(LineAnalyzer::analyze_line("- [x] Done"), LineType::TaskListItem(true));
}

#[test]
fn test_blockquote() {
    assert_eq!(LineAnalyzer::analyze_line("> Quote"), LineType::Blockquote);
}

#[test]
fn test_code_fence() {
    assert_eq!(
        LineAnalyzer::analyze_line("```rust"),
        LineType::CodeFence(Some("rust".to_owned()))
    );
    assert_eq!(LineAnalyzer::analyze_line("```"), LineType::CodeFence(None));
}

#[test]
fn test_is_table_row() {
    assert!(LineAnalyzer::is_table_row("| Name | Age |"));
    assert!(LineAnalyzer::is_table_row("|Name|Age|"));
    assert!(LineAnalyzer::is_table_row("| Name | Age | City |"));
    assert!(!LineAnalyzer::is_table_row("Normal text"));
    assert!(!LineAnalyzer::is_table_row("```|code|```"));
}

#[test]
fn test_is_table_separator() {
    assert!(LineAnalyzer::is_table_separator("|---|---|"));
    assert!(LineAnalyzer::is_table_separator("| --- | --- |"));
    assert!(LineAnalyzer::is_table_separator("| :--- | ---: |"));
    assert!(LineAnalyzer::is_table_separator("|:---:|:---:|"));
    assert!(LineAnalyzer::is_table_separator("| :--- | :---: | ---: |"));
    assert!(!LineAnalyzer::is_table_separator("| Name | Age |"));
    assert!(!LineAnalyzer::is_table_separator("Normal text"));
}

#[test]
fn test_parse_table_cells() {
    let cells = LineAnalyzer::parse_table_cells("| Name | Age |");
    assert_eq!(cells, vec!["Name", "Age"]);

    let cells = LineAnalyzer::parse_table_cells("|Name|Age|");
    assert_eq!(cells, vec!["Name", "Age"]);

    let cells = LineAnalyzer::parse_table_cells("| Name | Age | City |");
    assert_eq!(cells, vec!["Name", "Age", "City"]);

    let cells = LineAnalyzer::parse_table_cells("|  Spaced  |  Content  |");
    assert_eq!(cells, vec!["Spaced", "Content"]);
}

#[test]
fn test_parse_table_alignment() {
    let alignments = LineAnalyzer::parse_table_alignment("| :--- | ---: | :---: | --- |");
    assert_eq!(
        alignments,
        vec![
            TableAlignment::Left,
            TableAlignment::Right,
            TableAlignment::Center,
            TableAlignment::NotAligned,
        ]
    );

    let alignments = LineAnalyzer::parse_table_alignment("|:---|---:|:---:|---|");
    assert_eq!(
        alignments,
        vec![
            TableAlignment::Left,
            TableAlignment::Right,
            TableAlignment::Center,
            TableAlignment::NotAligned,
        ]
    );
}

#[test]
fn test_front_matter_delimiter() {
    assert_eq!(LineAnalyzer::analyze_line("---"), LineType::FrontMatterDelimiter);
    assert_eq!(LineAnalyzer::analyze_line("+++"), LineType::FrontMatterDelimiter);
    assert_eq!(LineAnalyzer::analyze_line("--- "), LineType::HorizontalRule);
    assert_eq!(LineAnalyzer::analyze_line(" ---"), LineType::HorizontalRule);
}

#[test]
fn test_navigation_history_creation() {
    let history = NavigationHistory::new();
    assert!(history.is_empty());
    assert_eq!(history.len(), 0);
    assert!(!history.can_go_back());
    assert!(!history.can_go_forward());
}

#[test]
fn test_push_location() {
    let mut history = NavigationHistory::new();
    let loc1 = FileLocation::new("file1.rs".to_owned(), 10, 5);

    history.push(loc1.clone());
    assert_eq!(history.len(), 1);
    assert_eq!(history.current(), Some(&loc1));
    assert!(!history.can_go_back());
    assert!(!history.can_go_forward());
}

#[test]
fn test_push_multiple_locations() {
    let mut history = NavigationHistory::new();
    let loc1 = FileLocation::new("file1.rs".to_owned(), 10, 5);
    let loc2 = FileLocation::new("file2.rs".to_owned(), 20, 10);
    let loc3 = FileLocation::new("file3.rs".to_owned(), 30, 15);

    history.push(loc1.clone());
    history.push(loc2.clone());
    history.push(loc3.clone());

    assert_eq!(history.len(), 3);
    assert_eq!(history.current(), Some(&loc3));
    assert!(history.can_go_back());
    assert!(!history.can_go_forward());
}

#[test]
fn test_duplicate_consecutive_locations() {
    let mut history = NavigationHistory::new();
    let loc1 = FileLocation::new("file1.rs".to_owned(), 10, 5);

    history.push(loc1.clone());
    history.push(loc1.clone());
    history.push(loc1.clone());

    assert_eq!(history.len(), 1);
}

#[test]
fn test_back_navigation() {
    let mut history = NavigationHistory::new();
    let loc1 = FileLocation::new("file1.rs".to_owned(), 10, 5);
    let loc2 = FileLocation::new("file2.rs".to_owned(), 20, 10);
    let loc3 = FileLocation::new("file3.rs".to_owned(), 30, 15);

    history.push(loc1.clone());
    history.push(loc2.clone());
    history.push(loc3.clone());

    assert_eq!(history.back(), Some(&loc2));
    assert_eq!(history.current(), Some(&loc2));
    assert!(history.can_go_back());
    assert!(history.can_go_forward());

    assert_eq!(history.back(), Some(&loc1));
    assert_eq!(history.current(), Some(&loc1));
    assert!(!history.can_go_back());
    assert!(history.can_go_forward());

    assert_eq!(history.back(), None);
}

#[test]
fn test_forward_navigation() {
    let mut history = NavigationHistory::new();
    let loc1 = FileLocation::new("file1.rs".to_owned(), 10, 5);
    let loc2 = FileLocation::new("file2.rs".to_owned(), 20, 10);
    let loc3 = FileLocation::new("file3.rs".to_owned(), 30, 15);

    history.push(loc1.clone());
    history.push(loc2.clone());
    history.push(loc3.clone());

    history.back();
    history.back();

    assert_eq!(history.forward(), Some(&loc2));
    assert_eq!(history.current(), Some(&loc2));

    assert_eq!(history.forward(), Some(&loc3));
    assert_eq!(history.current(), Some(&loc3));

    assert_eq!(history.forward(), None);
}

#[test]
fn test_truncate_forward_history() {
    let mut history = NavigationHistory::new();
    let loc1 = FileLocation::new("file1.rs".to_owned(), 10, 5);
    let loc2 = FileLocation::new("file2.rs".to_owned(), 20, 10);
    let loc3 = FileLocation::new("file3.rs".to_owned(), 30, 15);
    let loc4 = FileLocation::new("file4.rs".to_owned(), 40, 20);

    history.push(loc1.clone());
    history.push(loc2.clone());
    history.push(loc3.clone());

    history.back();
    history.back();

    history.push(loc4.clone());

    assert_eq!(history.len(), 2);
    assert_eq!(history.current(), Some(&loc4));
    assert!(!history.can_go_forward());
}

#[test]
fn test_clear_history() {
    let mut history = NavigationHistory::new();
    let loc1 = FileLocation::new("file1.rs".to_owned(), 10, 5);
    let loc2 = FileLocation::new("file2.rs".to_owned(), 20, 10);

    history.push(loc1);
    history.push(loc2);

    history.clear();

    assert!(history.is_empty());
    assert_eq!(history.len(), 0);
    assert!(!history.can_go_back());
    assert!(!history.can_go_forward());
    assert_eq!(history.current(), None);
}
