use cgraph::startup::{
    accept_server, bootstrap_choice, server_label, start_step, started_report, workspace_name, workspace_url,
    BootstrapKind, Offer, ServerIdentity, ServerTraitsInput, StartAction, StartEvent, StartPhase,
};

fn answer(encoding: Option<&str>, symbols: Offer, calls: Offer) -> ServerTraitsInput {
    ServerTraitsInput {
        position_encoding: encoding.map(str::to_owned),
        workspace_symbol: symbols,
        call_hierarchy: calls,
        server_info: None,
    }
}

#[test]
fn the_workspace_gets_a_directory_uri_and_a_name() {
    assert_eq!(workspace_url("/work/project").unwrap(), "file:///work/project/");
    assert_eq!(workspace_url("relative/path").unwrap_err(), "workspace root cannot be represented as a file URI: relative/path");
    assert_eq!(workspace_name("/work/project"), "project");
    assert_eq!(workspace_name("/"), "workspace");
}

#[test]
fn servers_must_count_in_utf16_and_answer_workspace_symbols() {
    let ok = accept_server(&answer(None, Offer::Flag(true), Offer::Options)).unwrap();
    assert!(ok.call_hierarchy);
    let ok = accept_server(&answer(Some("utf-16"), Offer::Options, Offer::Absent)).unwrap();
    assert!(!ok.call_hierarchy);
    assert_eq!(
        accept_server(&answer(Some("utf-8"), Offer::Flag(true), Offer::Absent)).unwrap_err(),
        "language server selected a position encoding other than UTF-16"
    );
    assert_eq!(
        accept_server(&answer(None, Offer::Flag(false), Offer::Absent)).unwrap_err(),
        "language server does not support workspace/symbol"
    );
    assert_eq!(
        accept_server(&answer(None, Offer::Absent, Offer::Flag(true))).unwrap_err(),
        "language server does not support workspace/symbol"
    );
}

#[test]
fn the_start_is_reported_with_label_bootstrap_and_log() {
    let named = Some(ServerIdentity { name: "clangd".to_owned(), version: Some("18.1".to_owned()) });
    assert_eq!(server_label(&named, "/usr/bin/clangd"), "clangd 18.1");
    let unversioned = Some(ServerIdentity { name: "pyrefly".to_owned(), version: None });
    assert_eq!(server_label(&unversioned, "pyrefly"), "pyrefly");
    assert_eq!(server_label(&None, "/opt/ls"), "/opt/ls");
    assert_eq!(
        started_report("clangd 18.1", "/work", Some("file:///work/a.c"), None),
        "LSP initialized: clangd 18.1; workspace=/work; bootstrap=file:///work/a.c; stderr_log=disabled"
    );
    assert_eq!(
        started_report("x", "/w", None, Some("/w/log")),
        "LSP initialized: x; workspace=/w; bootstrap=none; stderr_log=/w/log"
    );
}

#[test]
fn bootstrap_documents_follow_the_server_profile() {
    assert_eq!(bootstrap_choice("pyrefly", None, None), BootstrapKind::Pyrefly);
    assert_eq!(bootstrap_choice("/usr/bin/clangd", None, None), BootstrapKind::Clangd);
    assert_eq!(bootstrap_choice("wrapper", Some("clangd"), None), BootstrapKind::Clangd);
    assert_eq!(bootstrap_choice("wrapper", None, Some("clangd")), BootstrapKind::Clangd);
    assert_eq!(bootstrap_choice("wrapper", None, Some("pyrefly")), BootstrapKind::Pyrefly);
    assert_eq!(bootstrap_choice("rust-analyzer", None, None), BootstrapKind::NoDocument);
}

#[test]
fn a_start_runs_from_root_to_ready_and_stops_at_the_first_failure() {
    let (phase, action) =
        start_step(StartPhase::Resolving, StartEvent::RootResolved { root: "/work/app".to_owned(), is_directory: true });
    assert_eq!(phase, StartPhase::Spawning);
    assert!(matches!(action, StartAction::Spawn { ref workspace_uri, ref workspace_name }
        if workspace_uri == "file:///work/app/" && workspace_name == "app"));
    let (phase, action) = start_step(phase, StartEvent::Spawned);
    assert_eq!(phase, StartPhase::Initializing);
    assert!(matches!(action, StartAction::SendInitialize));
    let (phase, action) =
        start_step(phase, StartEvent::Answered(answer(None, Offer::Flag(true), Offer::Flag(true))));
    assert_eq!(phase, StartPhase::Notifying);
    assert!(matches!(action, StartAction::SendInitialized { call_hierarchy: true }));
    let (phase, action) = start_step(phase, StartEvent::Notified);
    assert_eq!(phase, StartPhase::Ready);
    assert!(matches!(action, StartAction::Finish));
    let (phase, action) = start_step(phase, StartEvent::Spawned);
    assert_eq!(phase, StartPhase::Ready);
    assert!(matches!(action, StartAction::Ignore));

    let (phase, action) =
        start_step(StartPhase::Resolving, StartEvent::RootResolved { root: "/work/file.rs".to_owned(), is_directory: false });
    assert_eq!(phase, StartPhase::Failed);
    assert!(matches!(action, StartAction::Fail(ref e) if e == "workspace root is not a directory: /work/file.rs"));
    let (phase, action) = start_step(StartPhase::Spawning, StartEvent::SpawnFailed { program: "ls-x".to_owned() });
    assert_eq!(phase, StartPhase::Failed);
    assert!(matches!(action, StartAction::Fail(ref e) if e == "failed to start language server ls-x"));
    let (_, action) =
        start_step(StartPhase::Initializing, StartEvent::Answered(answer(Some("utf-32"), Offer::Flag(true), Offer::Absent)));
    assert!(matches!(action, StartAction::Fail(ref e) if e == "language server selected a position encoding other than UTF-16"));
}
