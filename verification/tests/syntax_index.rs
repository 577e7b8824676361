use cgraph::index::{
    call_owner, definition_kind, definition_name, resolve_symbol, IndexedSymbol, PendingCall, PendingTypeRelation,
    ProjectIndex,
};
use cgraph::protocol::{FetchSource, HierarchyQuery};
use cgraph::state::{HierarchyDirection, HierarchyKind, SourceLocation, SymbolIdentity};
use cgraph::symbol_names::{SYMBOL_KIND_CLASS, SYMBOL_KIND_FUNCTION, SYMBOL_KIND_METHOD};

fn identity(symbol: &str, kind: HierarchyKind, file: &str, line: u32) -> SymbolIdentity {
    SymbolIdentity {
        symbol: symbol.to_owned(),
        kind,
        location: Some(SourceLocation {
            uri: format!("file:///workspace/{file}"),
            line: Some(line),
            character: Some(4),
        }),
    }
}

fn function(name: &str, container: Option<&str>, file: &str, line: u32, scope: (usize, usize)) -> IndexedSymbol {
    let symbol = match container {
        Some(c) => format!("{c}.{name}"),
        None => name.to_owned(),
    };
    IndexedSymbol {
        identity: identity(&symbol, HierarchyKind::Call, file, line),
        simple_name: name.to_owned(),
        container_name: container.map(str::to_owned),
        symbol_kind: if container.is_some() { SYMBOL_KIND_METHOD } else { SYMBOL_KIND_FUNCTION },
        path: format!("/workspace/{file}"),
        scope_start: scope.0,
        scope_end: scope.1,
    }
}

fn class(name: &str, file: &str, line: u32) -> IndexedSymbol {
    IndexedSymbol {
        identity: identity(name, HierarchyKind::Type, file, line),
        simple_name: name.to_owned(),
        container_name: None,
        symbol_kind: SYMBOL_KIND_CLASS,
        path: format!("/workspace/{file}"),
        scope_start: 0,
        scope_end: 0,
    }
}

fn call(owner: &IndexedSymbol, target: &str, container: Option<&str>) -> PendingCall {
    PendingCall {
        owner: owner.identity.clone(),
        target_name: target.to_owned(),
        path: owner.path.clone(),
        preferred_container: container.map(str::to_owned),
    }
}

fn names(children: &[SymbolIdentity]) -> Vec<&str> {
    children.iter().map(|child| child.symbol.as_str()).collect()
}

#[test]
fn self_calls_prefer_the_method_on_the_current_class() {
    let symbols = vec![
        function("run", Some("Worker"), "a.py", 1, (0, 100)),
        function("helper", Some("Worker"), "a.py", 5, (100, 200)),
        function("helper", Some("Other"), "a.py", 9, (200, 300)),
    ];
    assert_eq!(resolve_symbol(&symbols, "helper", HierarchyKind::Call, "/workspace/a.py", Some("Worker")), Some(1));
    assert_eq!(resolve_symbol(&symbols, "helper", HierarchyKind::Call, "/workspace/a.py", None), None);
    assert_eq!(resolve_symbol(&symbols, "run", HierarchyKind::Call, "/workspace/b.py", None), Some(0));
    assert_eq!(resolve_symbol(&symbols, "run", HierarchyKind::Type, "/workspace/a.py", None), None);
}

#[test]
fn same_file_definitions_win_and_ambiguous_targets_stay_unbound() {
    let symbols = vec![
        function("main", None, "main.rs", 1, (0, 50)),
        function("parse", None, "main.rs", 10, (50, 80)),
        function("parse", None, "other.rs", 3, (0, 40)),
        function("log", None, "x.rs", 1, (0, 10)),
        function("log", None, "y.rs", 1, (0, 10)),
    ];
    let calls = vec![call(&symbols[0], "parse", None), call(&symbols[0], "log", None), call(&symbols[0], "parse", None)];
    let index = ProjectIndex::link(symbols.clone(), &calls, &Vec::new());
    assert_eq!(index.edges.len(), 2);
    let response = index
        .hierarchy(HierarchyQuery { symbol: symbols[0].identity.clone(), direction: HierarchyDirection::Outgoing })
        .unwrap();
    assert_eq!(names(&response.children), ["parse"]);
    assert_eq!(response.children[0].location.as_ref().unwrap().line, Some(10));
    assert_eq!(response.source, FetchSource::TreeSitter);
    let callers = index
        .hierarchy(HierarchyQuery { symbol: symbols[1].identity.clone(), direction: HierarchyDirection::Incoming })
        .unwrap();
    assert_eq!(names(&callers.children), ["main"]);
}

#[test]
fn type_relations_link_parents_to_children_both_ways() {
    let symbols = vec![class("Base", "a.py", 1), class("Child", "a.py", 5), function("f", None, "a.py", 9, (0, 5))];
    let relations = vec![PendingTypeRelation {
        parent_name: "Base".to_owned(),
        child_name: "Child".to_owned(),
        path: "/workspace/a.py".to_owned(),
    }];
    let index = ProjectIndex::link(symbols.clone(), &Vec::new(), &relations);
    let down = index
        .hierarchy(HierarchyQuery { symbol: symbols[0].identity.clone(), direction: HierarchyDirection::Outgoing })
        .unwrap();
    assert_eq!(names(&down.children), ["Child"]);
    let up = index
        .hierarchy(HierarchyQuery { symbol: symbols[1].identity.clone(), direction: HierarchyDirection::Incoming })
        .unwrap();
    assert_eq!(names(&up.children), ["Base"]);
}

#[test]
fn queries_need_an_exact_location_or_a_unique_name() {
    let symbols = vec![
        function("run", Some("A"), "a.py", 1, (0, 10)),
        function("run", Some("B"), "a.py", 5, (10, 20)),
        function("main", None, "a.py", 9, (20, 30)),
    ];
    let index = ProjectIndex::link(symbols.clone(), &Vec::new(), &Vec::new());
    let by_name = SymbolIdentity { symbol: "main".to_owned(), kind: HierarchyKind::Call, location: None };
    assert_eq!(index.resolve_query_symbol(&by_name).unwrap().symbol, "main");
    let qualified = SymbolIdentity { symbol: "pkg::main".to_owned(), kind: HierarchyKind::Call, location: None };
    assert_eq!(index.resolve_query_symbol(&qualified).unwrap().symbol, "main");
    let ambiguous = SymbolIdentity { symbol: "run".to_owned(), kind: HierarchyKind::Call, location: None };
    assert_eq!(
        index.resolve_query_symbol(&ambiguous).unwrap_err(),
        "symbol \"run\" is ambiguous; add it through ac/at to select an exact location"
    );
    let missing = SymbolIdentity { symbol: "gone".to_owned(), kind: HierarchyKind::Call, location: None };
    assert_eq!(
        index.resolve_query_symbol(&missing).unwrap_err(),
        "could not resolve \"gone\" in the Tree-sitter project index"
    );
    let elsewhere = identity("run", HierarchyKind::Call, "a.py", 7);
    assert_eq!(
        index.resolve_query_symbol(&elsewhere).unwrap_err(),
        "Tree-sitter index has no symbol at file:///workspace/a.py:8:5"
    );
    let exact = identity("A.run", HierarchyKind::Call, "a.py", 1);
    assert_eq!(index.resolve_query_symbol(&exact).unwrap().symbol, "A.run");
}

#[test]
fn workspace_symbols_list_definitions_with_empty_ranges() {
    let symbols = vec![function("main", None, "main.rs", 3, (0, 10))];
    let index = ProjectIndex::link(symbols, &Vec::new(), &Vec::new());
    let listed = index.workspace_symbols();
    assert_eq!(listed.len(), 1);
    assert_eq!(listed[0].name, "main");
    let range = listed[0].range.unwrap();
    assert_eq!((range.start.line, range.start.character), (3, 4));
    assert_eq!(range.start, range.end);
}

#[test]
fn calls_belong_to_the_narrowest_enclosing_function() {
    let symbols = vec![
        function("outer", None, "a.rs", 1, (0, 100)),
        function("inner", None, "a.rs", 2, (10, 50)),
        class("T", "a.rs", 3),
    ];
    assert_eq!(call_owner(&symbols, 20, 25), Some(1));
    assert_eq!(call_owner(&symbols, 60, 65), Some(0));
    assert_eq!(call_owner(&symbols, 120, 125), None);
}

#[test]
fn definition_captures_and_names() {
    assert_eq!(definition_kind("definition.method"), Some((HierarchyKind::Call, SYMBOL_KIND_METHOD)));
    assert_eq!(definition_kind("definition.class"), Some((HierarchyKind::Type, SYMBOL_KIND_CLASS)));
    assert_eq!(definition_kind("reference.call"), None);
    assert_eq!(definition_name(Some("Worker"), "run", true), "Worker.run");
    assert_eq!(definition_name(Some("Worker"), "run", false), "Worker::run");
    assert_eq!(definition_name(None, "run", false), "run");
}
