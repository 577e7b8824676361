//! What starting a language server decides: the file URI and name of the
//! workspace, whether the server's answer to `initialize` can be used, which
//! index document is opened first, and how the start is reported. Spawning
//! the server and talking to it stay with the caller, which hands in what
//! it saw and performs the actions `start_step` returns.
use vstd::prelude::*;

use crate::config::file_name;
use crate::profile::{from_name, from_program, profile_of, ServerProfile};
use crate::symbol_names::{adapter_for, SymbolNameAdapter};
use crate::text::{append_text, chars_of, str_eq, string_of};

verus! {

/// What `url::Url::from_directory_path` makes of a path, as its
/// serialization: `None` when the crate refuses the path (it is not
/// absolute).
pub uninterp spec fn directory_url(path: Seq<char>) -> Option<Seq<char>>;

/// Calls `url::Url::from_directory_path` and takes the URL's text; the
/// outcome is named `directory_url`. The crate ends the text of a
/// directory URL with `/`.
#[verifier::external_body]
fn directory_url_of(root: &str) -> (r: Option<String>)
    ensures
        match r {
            Some(u) => directory_url(root@) == Some(u@) && u@.len() > 0 && u@.last() == '/',
            None => directory_url(root@) is None,
        },
{
    url::Url::from_directory_path(root).ok().map(|u| u.as_str().to_owned())
}

/// The error for a workspace root without a file URI.
pub open spec fn no_uri_text(root: Seq<char>) -> Seq<char> {
    "workspace root cannot be represented as a file URI: "@ + root
}

/// The file URI of the workspace root (ending in `/`), or why there is
/// none.
pub fn workspace_url(root: &str) -> (r: Result<String, String>)
    ensures
        match r {
            Ok(u) => directory_url(root@) == Some(u@) && u@.len() > 0 && u@.last() == '/',
            Err(e) => directory_url(root@) is None && e@ == no_uri_text(root@),
        },
{
    match directory_url_of(root) {
        Some(u) => Ok(u),
        None => Err(append_text(String::from_str("workspace root cannot be represented as a file URI: "), root)),
    }
}

/// The name of the workspace: the last component of its root, or
/// `workspace` when the root has none.
pub open spec fn workspace_name_of(root: Seq<char>) -> Seq<char> {
    match file_name(root) {
        Some(n) => n,
        None => "workspace"@,
    }
}

/// The name the workspace folder is announced under.
pub fn workspace_name(root: &str) -> (r: String)
    ensures
        r@ == workspace_name_of(root@),
{
    let chars = chars_of(root);
    match crate::config::path_file_name(chars.as_slice()) {
        Some(n) => string_of(n.as_slice(), 0, n.len()),
        None => String::from_str("workspace"),
    }
}

/// How a server offers a capability: not at all, by a flag, or with
/// options.
#[derive(Clone, Copy, Debug, PartialEq, Eq, Structural)]
pub enum Offer {
    Absent,
    Flag(bool),
    Options,
}

/// Whether an offer supports the capability: a set flag or any options.
pub open spec fn supported(o: Offer) -> bool {
    match o {
        Offer::Absent => false,
        Offer::Flag(b) => b,
        Offer::Options => true,
    }
}

fn is_supported(o: Offer) -> (b: bool)
    ensures
        b == supported(o),
{
    match o {
        Offer::Absent => false,
        Offer::Flag(b) => b,
        Offer::Options => true,
    }
}

/// The name and version a server reports about itself.
#[derive(Clone, Debug)]
pub struct ServerIdentity {
    pub name: String,
    pub version: Option<String>,
}

/// What the server answered to `initialize`, as far as starting needs it.
#[derive(Clone, Debug)]
pub struct ServerTraitsInput {
    pub position_encoding: Option<String>,
    pub workspace_symbol: Offer,
    pub call_hierarchy: Offer,
    pub server_info: Option<ServerIdentity>,
}

/// What is kept of an acceptable answer.
#[derive(Clone, Copy, Debug, PartialEq, Eq, Structural)]
pub struct ServerTraits {
    pub call_hierarchy: bool,
}

/// The error for a server that counts positions otherwise than in UTF-16.
pub open spec fn encoding_text() -> Seq<char> {
    "language server selected a position encoding other than UTF-16"@
}

/// The error for a server without `workspace/symbol`.
pub open spec fn no_workspace_symbol_text() -> Seq<char> {
    "language server does not support workspace/symbol"@
}

/// Whether the answer can be used: positions must be counted in UTF-16
/// (the default when the server names no encoding), and `workspace/symbol`
/// must be supported; then whether call hierarchies are.
pub open spec fn capability_verdict(c: ServerTraitsInput) -> Result<ServerTraits, Seq<char>> {
    if c.position_encoding matches Some(e) && e@ != "utf-16"@ {
        Err(encoding_text())
    } else if !supported(c.workspace_symbol) {
        Err(no_workspace_symbol_text())
    } else {
        Ok(ServerTraits { call_hierarchy: supported(c.call_hierarchy) })
    }
}

/// Checks the server's answer to `initialize` (see `capability_verdict`).
pub fn accept_server(caps: &ServerTraitsInput) -> (r: Result<ServerTraits, String>)
    ensures
        match r {
            Ok(t) => capability_verdict(*caps) == Ok::<ServerTraits, Seq<char>>(t),
            Err(e) => capability_verdict(*caps) == Err::<ServerTraits, Seq<char>>(e@),
        },
{
    match &caps.position_encoding {
        Some(e) => {
            if !str_eq(e.as_str(), "utf-16") {
                return Err(String::from_str("language server selected a position encoding other than UTF-16"));
            }
        },
        None => {},
    }
    if !is_supported(caps.workspace_symbol) {
        return Err(String::from_str("language server does not support workspace/symbol"));
    }
    Ok(ServerTraits { call_hierarchy: is_supported(caps.call_hierarchy) })
}

/// How the server is named in the report: its reported name and version,
/// its name alone, or the program when it reported nothing.
pub open spec fn label_of(info: Option<ServerIdentity>, program: Seq<char>) -> Seq<char> {
    match info {
        None => program,
        Some(i) => match i.version {
            Some(v) => i.name@ + " "@ + v@,
            None => i.name@,
        },
    }
}

/// The name the server is reported under (see `label_of`).
pub fn server_label(info: &Option<ServerIdentity>, program: &str) -> (r: String)
    ensures
        r@ == label_of(*info, program@),
{
    match info {
        None => String::from_str(program),
        Some(i) => {
            let name = String::from_str(i.name.as_str());
            match &i.version {
                Some(v) => {
                    let t = append_text(name, " ");
                    append_text(t, v.as_str())
                },
                None => name,
            }
        },
    }
}

/// Which document is opened first so that the server indexes the
/// workspace.
#[derive(Clone, Copy, Debug, PartialEq, Eq, Structural)]
pub enum BootstrapKind {
    Pyrefly,
    Clangd,
    NoDocument,
}

/// A name, if given, selects the clangd profile.
pub open spec fn names_clangd(name: Option<Seq<char>>) -> bool {
    match name {
        Some(n) => profile_of(n) == ServerProfile::Clangd,
        None => false,
    }
}

/// The bootstrap document: pyrefly's when the names are read as pyrefly's
/// (by the configured server name, else the name the server reported, else
/// the program); clangd's when the program, the configured name or the
/// reported name is clangd; none otherwise.
pub open spec fn bootstrap_of(program: Seq<char>, configured: Option<Seq<char>>, reported: Option<Seq<char>>) -> BootstrapKind {
    let detected = match configured {
        Some(n) => Some(n),
        None => reported,
    };
    let adapter = adapter_for(
        match detected {
            Some(n) => profile_of(n),
            None => profile_of(program),
        },
    );
    if adapter == SymbolNameAdapter::Pyrefly {
        BootstrapKind::Pyrefly
    } else if profile_of(program) == ServerProfile::Clangd || names_clangd(configured) || names_clangd(reported) {
        BootstrapKind::Clangd
    } else {
        BootstrapKind::NoDocument
    }
}

fn opt_view(s: Option<&str>) -> (r: Option<&str>)
    ensures
        r == s,
{
    s
}

/// Whether a name, if given, selects the clangd profile.
fn is_clangd_name(name: Option<&str>) -> (b: bool)
    ensures
        b == names_clangd(
            match name {
                Some(n) => Some(n@),
                None => None,
            },
        ),
{
    match name {
        Some(n) => from_name(n) == ServerProfile::Clangd,
        None => false,
    }
}

/// Which bootstrap document to open (see `bootstrap_of`).
pub fn bootstrap_choice(program: &str, configured: Option<&str>, reported: Option<&str>) -> (r: BootstrapKind)
    ensures
        r == bootstrap_of(
            program@,
            match configured {
                Some(n) => Some(n@),
                None => None,
            },
            match reported {
                Some(n) => Some(n@),
                None => None,
            },
        ),
{
    let detected = match configured {
        Some(n) => Some(n),
        None => opt_view(reported),
    };
    let adapter = SymbolNameAdapter::detect(program, detected);
    if adapter.is_pyrefly() {
        BootstrapKind::Pyrefly
    } else if from_program(program) == ServerProfile::Clangd || is_clangd_name(configured) || is_clangd_name(reported) {
        BootstrapKind::Clangd
    } else {
        BootstrapKind::NoDocument
    }
}

/// The report of a finished start.
pub open spec fn started_text(
    label: Seq<char>,
    root: Seq<char>,
    bootstrap: Option<Seq<char>>,
    stderr_log: Option<Seq<char>>,
) -> Seq<char> {
    "LSP initialized: "@ + label + "; workspace="@ + root + "; bootstrap="@ + match bootstrap {
        Some(b) => b,
        None => "none"@,
    } + "; stderr_log="@ + match stderr_log {
        Some(p) => p,
        None => "disabled"@,
    }
}

/// Reports a finished start: the server, the workspace, the bootstrap
/// document and where the server's errors are logged.
pub fn started_report(label: &str, root: &str, bootstrap: Option<&str>, stderr_log: Option<&str>) -> (r: String)
    ensures
        r@ == started_text(
            label@,
            root@,
            match bootstrap {
                Some(b) => Some(b@),
                None => None,
            },
            match stderr_log {
                Some(p) => Some(p@),
                None => None,
            },
        ),
{
    let t = append_text(String::from_str("LSP initialized: "), label);
    let t = append_text(t, "; workspace=");
    let t = append_text(t, root);
    let t = append_text(t, "; bootstrap=");
    let t = match bootstrap {
        Some(b) => append_text(t, b),
        None => append_text(t, "none"),
    };
    let t = append_text(t, "; stderr_log=");
    match stderr_log {
        Some(p) => append_text(t, p),
        None => append_text(t, "disabled"),
    }
}


/// How far starting a server has come.
#[derive(Clone, Copy, Debug, PartialEq, Eq, Structural)]
pub enum StartPhase {
    Resolving,
    Spawning,
    Initializing,
    Notifying,
    Ready,
    Failed,
}

/// What the caller saw while starting the server.
#[derive(Clone, Debug)]
pub enum StartEvent {
    /// The workspace root was made canonical; whether it is a directory.
    RootResolved { root: String, is_directory: bool },
    /// The workspace root could not be made canonical.
    RootFailed { root: String },
    /// The server process runs.
    Spawned,
    /// The server program could not be started.
    SpawnFailed { program: String },
    /// The server answered `initialize`.
    Answered(ServerTraitsInput),
    /// `initialize` failed.
    AnswerFailed,
    /// `initialized` was sent.
    Notified,
    /// `initialized` could not be sent.
    NotifyFailed,
}

/// What the caller does next.
#[derive(Clone, Debug)]
pub enum StartAction {
    /// Start the server in the workspace, announcing it under this URI and
    /// name.
    Spawn { workspace_uri: String, workspace_name: String },
    /// Send `initialize`.
    SendInitialize,
    /// Send `initialized`; whether the server offers call hierarchies.
    SendInitialized { call_hierarchy: bool },
    /// The server is ready.
    Finish,
    /// Give up with this error.
    Fail(String),
    /// The event does not belong to this phase; nothing to do.
    Ignore,
}

/// An action by value.
pub enum StartActionView {
    Spawn(Seq<char>, Seq<char>),
    SendInitialize,
    SendInitialized(bool),
    Finish,
    Fail(Seq<char>),
    Ignore,
}

/// An action by value.
pub open spec fn action_view(a: StartAction) -> StartActionView {
    match a {
        StartAction::Spawn { workspace_uri, workspace_name } => StartActionView::Spawn(workspace_uri@, workspace_name@),
        StartAction::SendInitialize => StartActionView::SendInitialize,
        StartAction::SendInitialized { call_hierarchy } => StartActionView::SendInitialized(call_hierarchy),
        StartAction::Finish => StartActionView::Finish,
        StartAction::Fail(e) => StartActionView::Fail(e@),
        StartAction::Ignore => StartActionView::Ignore,
    }
}

/// The next phase and action of a start: a root that is a directory with
/// a file URI is spawned in; a running server is initialized; an acceptable
/// answer is acknowledged with `initialized`, after which the server is
/// ready; every failure ends the start with its error; an event that does
/// not belong to the phase changes nothing.
pub open spec fn start_next(phase: StartPhase, e: StartEvent) -> (StartPhase, StartActionView) {
    match (phase, e) {
        (StartPhase::Resolving, StartEvent::RootResolved { root, is_directory }) => if !is_directory {
            (StartPhase::Failed, StartActionView::Fail("workspace root is not a directory: "@ + root@))
        } else {
            match directory_url(root@) {
                Some(u) => (StartPhase::Spawning, StartActionView::Spawn(u, workspace_name_of(root@))),
                None => (StartPhase::Failed, StartActionView::Fail(no_uri_text(root@))),
            }
        },
        (StartPhase::Resolving, StartEvent::RootFailed { root }) => (
            StartPhase::Failed,
            StartActionView::Fail("failed to resolve workspace root "@ + root@),
        ),
        (StartPhase::Spawning, StartEvent::Spawned) => (StartPhase::Initializing, StartActionView::SendInitialize),
        (StartPhase::Spawning, StartEvent::SpawnFailed { program }) => (
            StartPhase::Failed,
            StartActionView::Fail("failed to start language server "@ + program@),
        ),
        (StartPhase::Initializing, StartEvent::Answered(caps)) => match capability_verdict(caps) {
            Ok(t) => (StartPhase::Notifying, StartActionView::SendInitialized(t.call_hierarchy)),
            Err(m) => (StartPhase::Failed, StartActionView::Fail(m)),
        },
        (StartPhase::Initializing, StartEvent::AnswerFailed) => (
            StartPhase::Failed,
            StartActionView::Fail("language server initialization failed"@),
        ),
        (StartPhase::Notifying, StartEvent::Notified) => (StartPhase::Ready, StartActionView::Finish),
        (StartPhase::Notifying, StartEvent::NotifyFailed) => (
            StartPhase::Failed,
            StartActionView::Fail("failed to notify language server that initialization completed"@),
        ),
        (p, _) => (p, StartActionView::Ignore),
    }
}

/// One step of starting a server (see `start_next`).
pub fn start_step(phase: StartPhase, e: StartEvent) -> (r: (StartPhase, StartAction))
    ensures
        (r.0, action_view(r.1)) == start_next(phase, e),
{
    match (phase, e) {
        (StartPhase::Resolving, StartEvent::RootResolved { root, is_directory }) => {
            if !is_directory {
                return (
                    StartPhase::Failed,
                    StartAction::Fail(append_text(String::from_str("workspace root is not a directory: "), root.as_str())),
                );
            }
            match workspace_url(root.as_str()) {
                Ok(u) => (StartPhase::Spawning, StartAction::Spawn { workspace_uri: u, workspace_name: workspace_name(root.as_str()) }),
                Err(m) => (StartPhase::Failed, StartAction::Fail(m)),
            }
        },
        (StartPhase::Resolving, StartEvent::RootFailed { root }) => (
            StartPhase::Failed,
            StartAction::Fail(append_text(String::from_str("failed to resolve workspace root "), root.as_str())),
        ),
        (StartPhase::Spawning, StartEvent::Spawned) => (StartPhase::Initializing, StartAction::SendInitialize),
        (StartPhase::Spawning, StartEvent::SpawnFailed { program }) => (
            StartPhase::Failed,
            StartAction::Fail(append_text(String::from_str("failed to start language server "), program.as_str())),
        ),
        (StartPhase::Initializing, StartEvent::Answered(caps)) => match accept_server(&caps) {
            Ok(t) => (StartPhase::Notifying, StartAction::SendInitialized { call_hierarchy: t.call_hierarchy }),
            Err(m) => (StartPhase::Failed, StartAction::Fail(m)),
        },
        (StartPhase::Initializing, StartEvent::AnswerFailed) => (
            StartPhase::Failed,
            StartAction::Fail(String::from_str("language server initialization failed")),
        ),
        (StartPhase::Notifying, StartEvent::Notified) => (StartPhase::Ready, StartAction::Finish),
        (StartPhase::Notifying, StartEvent::NotifyFailed) => (
            StartPhase::Failed,
            StartAction::Fail(String::from_str("failed to notify language server that initialization completed")),
        ),
        (p, _) => (p, StartAction::Ignore),
    }
}


/// A start that is ready or has failed stays so, whatever is seen.
pub proof fn lemma_start_ends(phase: StartPhase, e: StartEvent)
    requires
        phase == StartPhase::Ready || phase == StartPhase::Failed,
    ensures
        start_next(phase, e).0 == phase,
        start_next(phase, e).1 is Ignore,
{
}

} // verus!
