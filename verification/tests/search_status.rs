use cgraph::search::{SearchItem, SearchState, SearchStatus, StatusTone};

fn item(name: &str) -> SearchItem {
    SearchItem { name: name.to_owned(), container_name: None, location: "src/main.rs:1".to_owned(), source: None }
}

#[test]
fn the_status_line_says_what_the_search_waits_for_or_found() {
    let mut state = SearchState {
        candidates: vec![item("alpha"), item("beta"), item("gamma")],
        symbol_query: String::new(),
        uri_query: String::new(),
        items: Vec::new(),
        selected: None,
    };
    assert_eq!(state.status_line(&SearchStatus::Debouncing), ("Waiting for typing pause…".to_owned(), StatusTone::Muted));
    assert_eq!(state.status_line(&SearchStatus::Loading), ("Searching workspace symbols…".to_owned(), StatusTone::Busy));
    assert_eq!(
        state.status_line(&SearchStatus::Ready),
        ("3 from provider · 0 matches · Tab switches field".to_owned(), StatusTone::Muted)
    );
    state.items = vec![item("alpha")];
    assert_eq!(
        state.status_line(&SearchStatus::Ready),
        ("3 from provider · 1 matches · Tab switches field".to_owned(), StatusTone::Found)
    );
    assert_eq!(
        state.status_line(&SearchStatus::Error("timed out".to_owned())),
        ("timed out".to_owned(), StatusTone::Failed)
    );
}
