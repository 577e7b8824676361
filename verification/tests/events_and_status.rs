use cgraph::analysis::{AnalysisBackend, AnalysisPhase, AnalysisStatus};
use cgraph::app::{App, Command};
use cgraph::canvas::Rect;
use cgraph::events::{handle_help_wheel, handle_key_event, help_rows, HELP_ROW_COUNT};
use cgraph::input::InteractionRequest;
use cgraph::keys::{KeyCode, KeyEvent, KeyModifiers};
use cgraph::messages::MessageViewState;
use cgraph::progress::LspStatusUpdate;
use cgraph::state::{HierarchyKind, SourceLocation, SymbolIdentity};
use cgraph::status::{apply_lsp_status, canvas_heading, status_line};

fn call_app(symbol: &str) -> App {
    App::from_cli(".".to_owned(), Some(Command::Call { symbol: symbol.to_owned() }))
}

fn send(app: &mut App, view: &mut Option<MessageViewState>, code: KeyCode, modifiers: KeyModifiers) -> Option<InteractionRequest> {
    handle_key_event(app, view, KeyEvent::new(code, modifiers), true, Rect::new(0, 0, 110, 40))
}

#[test]
fn question_mark_help_lists_commands_scrolls_and_captures_canvas_input() {
    let mut app = call_app("root");
    app.viewport.offset_x = 7;
    let mut view = None;

    send(&mut app, &mut view, KeyCode::Char('?'), KeyModifiers::shift());
    assert!(app.help.is_some());
    let rows = help_rows();
    assert!(rows.iter().any(|(_, text)| text.contains("edit .cgraph.toml")));
    assert!(rows.iter().any(|(keys, _)| keys.contains("PageUp / PageDown")));

    send(&mut app, &mut view, KeyCode::Char('d'), KeyModifiers::none());
    assert_eq!(app.pending_key, None);
    assert_eq!(app.graph.anchors().len(), 1);
    handle_help_wheel(&mut app, true);
    assert_eq!(app.help.as_ref().unwrap().scroll, 3);
    send(&mut app, &mut view, KeyCode::End, KeyModifiers::none());
    assert_eq!(app.help.as_ref().unwrap().scroll, HELP_ROW_COUNT - 1);
    let shown = &rows[app.help.as_ref().unwrap().scroll.saturating_sub(8)..];
    assert!(shown.iter().any(|(keys, _)| keys.contains("mouse wheel")));
    assert!(shown.iter().any(|(_, text)| text.contains("close help")));
    send(&mut app, &mut view, KeyCode::Char('?'), KeyModifiers::shift());
    assert!(app.help.is_none());
    assert!(!app.should_quit);
    assert_eq!(app.viewport.offset_x, 7);
}

#[test]
fn help_scrolls_within_its_rows() {
    let mut app = call_app("root");
    let mut view = None;
    send(&mut app, &mut view, KeyCode::Char('?'), KeyModifiers::none());
    send(&mut app, &mut view, KeyCode::Up, KeyModifiers::none());
    assert_eq!(app.help.as_ref().unwrap().scroll, 0);
    send(&mut app, &mut view, KeyCode::PageDown, KeyModifiers::none());
    assert_eq!(app.help.as_ref().unwrap().scroll, 10);
    send(&mut app, &mut view, KeyCode::Char('j'), KeyModifiers::none());
    assert_eq!(app.help.as_ref().unwrap().scroll, 11);
    send(&mut app, &mut view, KeyCode::Home, KeyModifiers::none());
    assert_eq!(app.help.as_ref().unwrap().scroll, 0);
    send(&mut app, &mut view, KeyCode::Esc, KeyModifiers::none());
    assert!(app.help.is_none());
    assert_eq!(help_rows().len(), HELP_ROW_COUNT);
}

#[test]
fn the_save_dialog_takes_text_and_asks_to_write_on_enter() {
    let mut app = call_app("root");
    let mut view = None;
    send(&mut app, &mut view, KeyCode::Char('w'), KeyModifiers::none());
    for c in "graph.txtx".chars() {
        send(&mut app, &mut view, KeyCode::Char(c), KeyModifiers::none());
    }
    send(&mut app, &mut view, KeyCode::Char('c'), KeyModifiers::control());
    send(&mut app, &mut view, KeyCode::Backspace, KeyModifiers::none());
    assert_eq!(app.save.as_ref().unwrap().input, "graph.txt");
    let request = send(&mut app, &mut view, KeyCode::Enter, KeyModifiers::none());
    assert!(matches!(request, Some(InteractionRequest::SaveGraph(path)) if path == "graph.txt"));
    assert!(app.save.is_some());
    send(&mut app, &mut view, KeyCode::Esc, KeyModifiers::none());
    assert!(app.save.is_none());
    assert!(!app.should_quit);
}

#[test]
fn the_pager_takes_keys_first_and_closes_on_q() {
    let mut app = call_app("root");
    let mut view = Some(MessageViewState::from_messages(&["one".to_owned()]));
    assert!(send(&mut app, &mut view, KeyCode::Char('d'), KeyModifiers::none()).is_none());
    assert_eq!(app.pending_key, None);
    send(&mut app, &mut view, KeyCode::Char('q'), KeyModifiers::none());
    assert!(view.is_none());
    assert!(!app.should_quit);
    send(&mut app, &mut view, KeyCode::Char('q'), KeyModifiers::none());
    assert!(app.should_quit);
}

#[test]
fn maps_lsp_progress_without_losing_server_identity() {
    let mut app = App::from_cli(".".to_owned(), None);
    app.set_analysis_status(AnalysisStatus::lsp("rust-analyzer", AnalysisPhase::Ready));

    apply_lsp_status(
        &mut app,
        LspStatusUpdate::Progress {
            title: "Roots Scanned".to_owned(),
            message: Some("68/251".to_owned()),
            percentage: Some(127),
        },
    );

    assert_eq!(app.analysis_status.backend, AnalysisBackend::Lsp("rust-analyzer".to_owned()));
    assert_eq!(app.analysis_status.phase, AnalysisPhase::Working);
    assert_eq!(app.analysis_status.message.as_deref(), Some("Roots Scanned: 68/251"));
    assert_eq!(app.analysis_status.percentage, Some(100));
}

#[test]
fn diagnostics_become_notices_and_errors_keep_the_server() {
    let mut app = App::from_cli(".".to_owned(), None);
    apply_lsp_status(&mut app, LspStatusUpdate::Diagnostic("unused import".to_owned()));
    assert_eq!(app.canvas_notice.as_deref(), Some("unused import"));
    assert_eq!(app.analysis_status.backend, AnalysisBackend::NoBackend);
    apply_lsp_status(&mut app, LspStatusUpdate::Error("server crashed".to_owned()));
    assert_eq!(app.analysis_status.backend, AnalysisBackend::Lsp("LSP".to_owned()));
    assert_eq!(app.analysis_status.phase, AnalysisPhase::Error);
    assert_eq!(app.canvas_notice.as_deref(), Some("server crashed"));
    assert!(app.canvas_notice_is_error);
}

#[test]
fn the_status_line_names_backend_phase_percentage_and_message() {
    let status = AnalysisStatus {
        backend: AnalysisBackend::Lsp("rust-analyzer".to_owned()),
        phase: AnalysisPhase::Working,
        message: Some("Indexing".to_owned()),
        percentage: Some(68),
    };
    assert_eq!(status_line(&status), "LSP: rust-analyzer · Working 68% · Indexing");
    let none = AnalysisStatus {
        backend: AnalysisBackend::NoBackend,
        phase: AnalysisPhase::Inactive,
        message: Some(String::new()),
        percentage: None,
    };
    assert_eq!(status_line(&none), "Backend: none · Inactive");
    let syntax = AnalysisStatus::tree_sitter("Rust", AnalysisPhase::Ready);
    assert!(status_line(&syntax).starts_with("Tree-sitter: Rust · Ready"));
}

#[test]
fn canvas_heading_uses_the_default_label_or_selected_node_uri() {
    let mut app = App::from_cli(".".to_owned(), None);
    assert_eq!(canvas_heading(&app), "CALL GRAPH");

    let node = app.graph.pin_symbol(SymbolIdentity {
        symbol: "main".to_owned(),
        kind: HierarchyKind::Call,
        location: Some(SourceLocation {
            uri: "file:///workspace/src/main.rs".to_owned(),
            line: Some(4),
            character: Some(0),
        }),
    });
    app.selected = Some(node);
    assert_eq!(canvas_heading(&app), "file:///workspace/src/main.rs");
}
