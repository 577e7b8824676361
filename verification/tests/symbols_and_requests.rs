use cgraph::app::App;
use cgraph::input::SearchKind;
use cgraph::normalize::{
    call_item_identity, deduplicate_identities, deduplicate_symbols, document_position, find_document_symbol_container,
    normalize_symbols, search_item, symbol_kind_matches_hierarchy, symbol_leaf_name, symbol_matches_search,
    uri_belongs_to_workspace, workspace_symbol_is_visible, CallItem, DocumentSymbolOwner, Position, Range, ReportedSymbol,
    WorkspaceSymbolMatch, normalize_document_symbols, NestedDocumentSymbol, ReportedDocumentSymbols,
};
use cgraph::protocol::{IpcRequest, IpcResponse};
use cgraph::remote::{apply_ipc_request, report_open_location, report_response_failure};
use cgraph::state::{HierarchyKind, SourceLocation, SymbolIdentity};
use cgraph::symbol_names::{SymbolNameAdapter, SYMBOL_KIND_FUNCTION, SYMBOL_KIND_METHOD, SYMBOL_KIND_STRUCT};

fn symbol(uri: &str) -> WorkspaceSymbolMatch {
    WorkspaceSymbolMatch {
        name: "symbol".to_owned(),
        kind: SYMBOL_KIND_FUNCTION,
        container_name: None,
        uri: uri.to_owned(),
        range: None,
    }
}

fn range(start: (u32, u32), end: (u32, u32)) -> Range {
    Range {
        start: Position { line: start.0, character: start.1 },
        end: Position { line: end.0, character: end.1 },
    }
}

#[test]
fn deduplicates_identical_workspace_symbols() {
    let duplicate = symbol("file:///workspace/src/main.rs");
    assert_eq!(
        deduplicate_symbols(&vec![duplicate.clone(), duplicate.clone(), duplicate]),
        vec![symbol("file:///workspace/src/main.rs")]
    );
}

#[test]
fn filters_workspace_symbols_by_search_kind() {
    assert!(symbol_matches_search(SearchKind::Call, SYMBOL_KIND_FUNCTION));
    assert!(symbol_matches_search(SearchKind::Type, SYMBOL_KIND_STRUCT));
    assert!(!symbol_matches_search(SearchKind::Call, SYMBOL_KIND_STRUCT));
    assert!(!symbol_matches_search(SearchKind::Type, SYMBOL_KIND_FUNCTION));
    let method = search_item(WorkspaceSymbolMatch {
        name: "App::run".to_owned(),
        kind: SYMBOL_KIND_METHOD,
        container_name: Some("App".to_owned()),
        uri: "file:///workspace/src/main.rs".to_owned(),
        range: None,
    });
    assert_eq!(method.name, "App::run");
}

#[test]
fn python_and_rust_symbol_leaf_names() {
    assert_eq!(symbol_leaf_name("Worker.run"), "run");
    assert_eq!(symbol_leaf_name("Worker::run"), "run");
    assert_eq!(symbol_leaf_name("run"), "run");
    assert_eq!(symbol_leaf_name("a::B.c::d"), "d");
    assert_eq!(symbol_leaf_name("pkg.Mod::f"), "f");
}

#[test]
fn search_rows_show_local_paths_and_one_based_lines() {
    let item = search_item(WorkspaceSymbolMatch {
        name: "run".to_owned(),
        kind: SYMBOL_KIND_FUNCTION,
        container_name: None,
        uri: "file:///workspace/src/main.rs".to_owned(),
        range: Some(range((9, 4), (12, 1))),
    });
    assert_eq!(item.location, "/workspace/src/main.rs:10");
    let source = item.source.unwrap();
    assert_eq!((source.line, source.character), (Some(9), Some(4)));
    let remote = search_item(symbol("https://example.com/lib.rs"));
    assert_eq!(remote.location, "https://example.com/lib.rs");
}

#[test]
fn workspace_membership_goes_by_whole_path_components() {
    assert!(uri_belongs_to_workspace("file:///workspace/src/main.rs", "/workspace"));
    assert!(!uri_belongs_to_workspace("file:///workspace-other/main.rs", "/workspace"));
    assert!(!uri_belongs_to_workspace("not a uri", "/workspace"));
    let outside = symbol("file:///usr/lib/std.rs");
    assert!(workspace_symbol_is_visible(&outside, "/workspace", false));
    assert!(!workspace_symbol_is_visible(&outside, "/workspace", true));
}

#[test]
fn the_narrowest_enclosing_function_names_the_container() {
    let owners = vec![
        DocumentSymbolOwner { name: "run".to_owned(), kind: SYMBOL_KIND_METHOD, range: range((0, 0), (50, 0)), container_name: Some("Outer".to_owned()) },
        DocumentSymbolOwner { name: "run".to_owned(), kind: SYMBOL_KIND_METHOD, range: range((10, 0), (20, 0)), container_name: Some("Inner".to_owned()) },
        DocumentSymbolOwner { name: "run".to_owned(), kind: SYMBOL_KIND_STRUCT, range: range((12, 0), (13, 0)), container_name: Some("Type".to_owned()) },
        DocumentSymbolOwner { name: "run".to_owned(), kind: SYMBOL_KIND_METHOD, range: range((30, 0), (40, 0)), container_name: Some("Later".to_owned()) },
    ];
    let item = CallItem {
        name: "run".to_owned(),
        kind: SYMBOL_KIND_METHOD,
        detail: None,
        uri: "file:///workspace/src/main.rs".to_owned(),
        selection_range: range((12, 4), (12, 7)),
    };
    assert_eq!(find_document_symbol_container(&owners, &item).as_deref(), Some("Inner"));
    let elsewhere = CallItem { selection_range: range((60, 0), (60, 3)), ..item.clone() };
    assert_eq!(find_document_symbol_container(&owners, &elsewhere), None);

    let identity = call_item_identity(item, SymbolNameAdapter::Standard, Some("Inner"));
    assert_eq!(identity.kind, HierarchyKind::Call);
    assert_eq!(identity.location.as_ref().unwrap().line, Some(12));
    assert_eq!(identity.location.as_ref().unwrap().character, Some(4));
}

#[test]
fn reported_symbols_keep_their_order_and_identities_lose_repeats() {
    let reported = vec![
        ReportedSymbol { name: "b".to_owned(), kind: SYMBOL_KIND_FUNCTION, container_name: None, uri: "file:///w/b.rs".to_owned(), range: None },
        ReportedSymbol { name: "a".to_owned(), kind: SYMBOL_KIND_FUNCTION, container_name: None, uri: "file:///w/a.rs".to_owned(), range: Some(range((1, 0), (2, 0))) },
    ];
    let normalized = normalize_symbols(reported, SymbolNameAdapter::Standard);
    assert_eq!(normalized.iter().map(|m| m.uri.as_str()).collect::<Vec<_>>(), ["file:///w/b.rs", "file:///w/a.rs"]);
    assert!(symbol_kind_matches_hierarchy(HierarchyKind::Type, SYMBOL_KIND_STRUCT));
    assert!(!symbol_kind_matches_hierarchy(HierarchyKind::Call, SYMBOL_KIND_STRUCT));

    let location = document_position("file:///w/a.rs".to_owned(), Position { line: 3, character: 7 });
    assert_eq!((location.line, location.character), (Some(3), Some(7)));
    let one = SymbolIdentity { symbol: "f".to_owned(), kind: HierarchyKind::Call, location: Some(location.clone()) };
    let two = SymbolIdentity { symbol: "g".to_owned(), kind: HierarchyKind::Call, location: Some(location) };
    let unique = deduplicate_identities(&vec![one.clone(), two.clone(), one.clone()]);
    assert_eq!(unique, vec![one, two]);
}

#[test]
fn ipc_focus_commands_mutate_app_and_return_matching_responses() {
    let mut app = App::from_cli(".".to_owned(), None);
    let request = IpcRequest::FocusSymbol {
        hierarchy: HierarchyKind::Call,
        symbol: "main".to_owned(),
        location: Some(SourceLocation {
            uri: "file:///workspace/src/main.rs".to_owned(),
            line: Some(4),
            character: Some(2),
        }),
    };
    let response = apply_ipc_request(&mut app, 17, request);
    let selected = app.selected.unwrap();
    assert_eq!(app.graph.node(selected).unwrap().symbol, "main");
    assert!(app.graph.is_anchor(selected));
    assert_eq!(response, IpcResponse::Accepted);
    assert_eq!(app.canvas_notice.as_deref(), Some("IPC request 17 focused call symbol \"main\""));

    let response = apply_ipc_request(
        &mut app,
        18,
        IpcRequest::FocusSymbol { hierarchy: HierarchyKind::Type, symbol: String::new(), location: None },
    );
    let IpcResponse::Error { message } = response else {
        panic!("invalid focus request must return an error");
    };
    assert!(message.contains("symbol must not be empty"));
    assert!(app.canvas_notice_is_error);
    assert_eq!(app.canvas_notice.as_deref(), Some("IPC request 18 rejected: symbol must not be empty"));
}

#[test]
fn sending_a_location_reports_how_many_editors_got_it() {
    let mut app = App::from_cli(".".to_owned(), None);
    report_open_location(&mut app, None);
    assert_eq!(app.canvas_notice.as_deref(), Some("IPC is not enabled; start cgraph with --ipc-socket <PATH>"));
    report_open_location(&mut app, Some(Ok(1)));
    assert_eq!(app.canvas_notice.as_deref(), Some("Sent source location to 1 IPC client"));
    report_open_location(&mut app, Some(Ok(3)));
    assert_eq!(app.canvas_notice.as_deref(), Some("Sent source location to 3 IPC clients"));
    report_open_location(&mut app, Some(Err("broken pipe".to_owned())));
    assert_eq!(app.canvas_notice.as_deref(), Some("IPC open-location failed: broken pipe"));
    assert!(app.canvas_notice_is_error);
    report_response_failure(&mut app, 4, "closed");
    assert_eq!(app.canvas_notice.as_deref(), Some("IPC response 4 failed: closed"));
}

fn nested(name: &str, kind: u32, from: (u32, u32), to: (u32, u32), children: Option<Vec<NestedDocumentSymbol>>) -> NestedDocumentSymbol {
    NestedDocumentSymbol { name: name.to_owned(), kind, range: range(from, to), children }
}

#[test]
fn nested_document_symbols_are_flattened_with_their_parents_as_containers() {
    let response = ReportedDocumentSymbols::Nested(vec![
        nested(
            "Outer",
            SYMBOL_KIND_STRUCT,
            (0, 0),
            (50, 0),
            Some(vec![
                nested("run", SYMBOL_KIND_METHOD, (10, 0), (20, 0), Some(vec![nested("step", SYMBOL_KIND_FUNCTION, (12, 0), (13, 0), None)])),
                nested("stop", SYMBOL_KIND_METHOD, (30, 0), (40, 0), Some(Vec::new())),
            ]),
        ),
        nested("main", SYMBOL_KIND_FUNCTION, (60, 0), (70, 0), None),
    ]);
    let owners = normalize_document_symbols(response);
    let seen: Vec<(&str, Option<&str>)> =
        owners.iter().map(|owner| (owner.name.as_str(), owner.container_name.as_deref())).collect();
    assert_eq!(
        seen,
        vec![("Outer", None), ("run", Some("Outer")), ("step", Some("run")), ("stop", Some("Outer")), ("main", None)]
    );
    assert_eq!(owners[2].range, range((12, 0), (13, 0)));
    assert_eq!(owners[2].kind, SYMBOL_KIND_FUNCTION);

    let flat = vec![DocumentSymbolOwner {
        name: "run".to_owned(),
        kind: SYMBOL_KIND_METHOD,
        range: range((1, 0), (2, 0)),
        container_name: Some("Impl".to_owned()),
    }];
    assert_eq!(normalize_document_symbols(ReportedDocumentSymbols::Flat(flat.clone())), flat);
}
