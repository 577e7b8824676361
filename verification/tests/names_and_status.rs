use cgraph::profile::{append_configured_args, apply_default_args, ServerProfile};
use cgraph::progress::{LspProgressTracker, LspStatusUpdate, ProgressToken, WorkDone};
use cgraph::search::{atom_score, container_label, score, SearchItem};
use cgraph::sources::{utf16_column, TreeSitterLanguage, WorkspaceMarkers};
use cgraph::symbol_names::SymbolNameAdapter;

const METHOD: u32 = 6;
const FUNCTION: u32 = 12;

#[test]
fn treats_spaces_as_readable_fuzzy_query_separators() {
    assert!(score("prs thrd", "ParserService::thread_worker").is_some());
    assert!(score("thrd prs", "ParserService::thread_worker").is_none());
}

#[test]
fn delegates_unicode_subsequence_matching_to_nucleo() {
    assert!(atom_score("mfn", "main_function").is_some());
    assert!(atom_score("方", "方法").is_some());
    assert!(atom_score("xyz", "main_function").is_none());
}

#[test]
fn normalizes_tree_sitter_byte_columns_to_utf16() {
    assert_eq!(utf16_column("é😀name", 6, 6).unwrap(), 3);
}

#[test]
fn hides_container_when_the_provider_name_is_already_qualified() {
    let mut item = SearchItem {
        name: "Worker::run".to_owned(),
        container_name: Some("Worker".to_owned()),
        location: "src/lib.rs:1".to_owned(),
        source: None,
    };
    assert_eq!(container_label(&item), None);

    item.name = "Worker.run".to_owned();
    assert_eq!(container_label(&item), None);

    item.name = "run".to_owned();
    assert_eq!(container_label(&item), Some("Worker"));
}

#[test]
fn detects_rust_analyzer_from_program_or_server_name() {
    assert_eq!(SymbolNameAdapter::detect("/tools/rust-analyzer", None), SymbolNameAdapter::RustAnalyzer);
    assert_eq!(SymbolNameAdapter::detect("lsp-wrapper", Some("rust-analyzer")), SymbolNameAdapter::RustAnalyzer);
    assert_eq!(SymbolNameAdapter::detect("clangd", Some("clangd")), SymbolNameAdapter::Standard);
}

#[test]
fn detects_and_qualifies_pyrefly_methods() {
    assert_eq!(SymbolNameAdapter::detect("/tools/pyrefly", None), SymbolNameAdapter::Pyrefly);
    assert_eq!(SymbolNameAdapter::detect("lsp-wrapper", Some("pyrefly-lsp")), SymbolNameAdapter::Pyrefly);

    let adapter = SymbolNameAdapter::Pyrefly;
    assert_eq!(adapter.workspace_symbol("run", METHOD, Some("worker.Worker")), "Worker.run");
    assert_eq!(adapter.call_hierarchy_item("run", METHOD, Some("worker.Worker.run"), None), "Worker.run");
    assert_eq!(adapter.call_hierarchy_item("run", FUNCTION, Some("worker.run"), None), "run");
    assert_eq!(adapter.call_hierarchy_item("run", METHOD, Some("/workspace/worker.py"), None), "run");
}

#[test]
fn qualifies_rust_methods_with_their_impl_type() {
    let adapter = SymbolNameAdapter::RustAnalyzer;
    assert_eq!(adapter.workspace_symbol("run", METHOD, Some("impl worker::Worker")), "Worker::run");
    assert_eq!(adapter.workspace_symbol("new", FUNCTION, Some("impl worker::Worker")), "Worker::new");
    assert_eq!(
        adapter.call_hierarchy_item("run", FUNCTION, Some("pub fn run(&self)"), Some("impl worker::Worker")),
        "Worker::run"
    );
    for (detail, expected) in [
        ("impl Worker", "Worker::run"),
        ("impl<T> Worker<T>", "Worker::run"),
        ("impl Job for crate::worker::Worker", "Worker::run"),
        ("impl<T> Job<T> for worker::Worker<T>", "Worker::run"),
        ("<worker::Worker as Job>", "Worker::run"),
        ("trait Job", "Job::run"),
    ] {
        assert_eq!(adapter.call_hierarchy_item("run", FUNCTION, Some(detail), None), expected);
    }
}

#[test]
fn preserves_names_without_a_safe_rust_type() {
    let adapter = SymbolNameAdapter::RustAnalyzer;
    for detail in [None, Some("fn run(&self)"), Some("/workspace/src/main.rs"), Some("impl<T Worker<T>")] {
        assert_eq!(adapter.call_hierarchy_item("run", METHOD, detail, None), "run");
    }
    assert_eq!(adapter.call_hierarchy_item("Worker::run", METHOD, Some("impl Worker"), None), "Worker::run");
    assert_eq!(adapter.call_hierarchy_item("run", FUNCTION, Some("fn run(&self)"), None), "run");
}

#[test]
fn does_not_interpret_generic_call_hierarchy_detail() {
    let adapter = SymbolNameAdapter::Standard;
    assert_eq!(adapter.call_hierarchy_item("run", METHOD, Some("Service"), None), "run");
    assert_eq!(adapter.workspace_symbol("run", METHOD, Some("Service")), "Service::run");
}

#[test]
fn enables_clangd_background_index_by_default() {
    let mut args: Vec<String> = Vec::new();
    apply_default_args(&mut args, ServerProfile::Clangd);
    apply_default_args(&mut args, ServerProfile::Clangd);

    assert_eq!(args, ["--background-index"]);
}

#[test]
fn preserves_explicit_clangd_background_index_policy() {
    let mut args = vec!["--background-index".to_owned()];
    append_configured_args(&mut args, vec!["--no-background-index".to_owned()], ServerProfile::Clangd);

    assert_eq!(args, ["--no-background-index"]);
}

#[test]
fn tracks_work_done_progress_until_the_last_operation_ends() {
    let mut tracker = LspProgressTracker::new();
    let token = ProgressToken::Text("index".to_owned());
    assert_eq!(
        tracker.update(
            token.clone(),
            WorkDone::Begin {
                title: "Indexing".to_owned(),
                message: Some("1/2 crates".to_owned()),
                percentage: Some(50),
            }
        ),
        Some(LspStatusUpdate::Progress {
            title: "Indexing".to_owned(),
            message: Some("1/2 crates".to_owned()),
            percentage: Some(50),
        })
    );
    assert_eq!(
        tracker.update(token, WorkDone::End { message: Some("Indexed".to_owned()) }),
        Some(LspStatusUpdate::Ready { message: Some("Indexed".to_owned()) })
    );
}

#[test]
fn translates_rust_analyzer_server_status() {
    let tracker = LspProgressTracker::new();
    assert_eq!(
        tracker.server_status(Some("warning"), Some(true), Some("proc macro unavailable".to_owned())),
        LspStatusUpdate::Warning("proc macro unavailable".to_owned())
    );
}

#[test]
fn detects_supported_workspace_languages() {
    let markers = WorkspaceMarkers {
        cargo_toml: false,
        compile_commands: false,
        cmake_lists: false,
        pyproject: false,
        setup_py: false,
        requirements: false,
        extensions: vec!["cpp".to_owned()],
    };
    assert_eq!(TreeSitterLanguage::detect(&markers), Some(TreeSitterLanguage::Cpp));
}
