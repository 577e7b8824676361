//! The status that the active source-analysis backend reports, apart from
//! any terminal.
use vstd::prelude::*;

verus! {

/// The backend that analyses the sources, with the server or language it
/// runs.
#[derive(Clone, Debug, PartialEq, Eq)]
pub enum AnalysisBackend {
    Lsp(String),
    TreeSitter(String),
    NoBackend,
}

/// The phase the backend is in.
#[derive(Clone, Copy, Debug, PartialEq, Eq, Structural)]
pub enum AnalysisPhase {
    Inactive,
    Ready,
    Working,
    Warning,
    Error,
    Disconnected,
}

/// The status of the analysis backend.
///
/// It is kept apart from the status of the workspace search: a language
/// server can still be indexing after one request completed, and Tree-sitter
/// has no request lifecycle at all.
#[derive(Clone, Debug, PartialEq, Eq)]
pub struct AnalysisStatus {
    pub backend: AnalysisBackend,
    pub phase: AnalysisPhase,
    pub message: Option<String>,
    pub percentage: Option<u32>,
}

impl AnalysisStatus {
    /// No backend, with a message saying why.
    pub fn inactive(message: &str) -> (r: Self)
        ensures
            r.backend == AnalysisBackend::NoBackend,
            r.phase == AnalysisPhase::Inactive,
            r.message matches Some(m) && m@ == message@,
            r.percentage is None,
    {
        AnalysisStatus {
            backend: AnalysisBackend::NoBackend,
            phase: AnalysisPhase::Inactive,
            message: Some(message.to_string()),
            percentage: None,
        }
    }

    /// A language server in the given phase.
    pub fn lsp(server: &str, phase: AnalysisPhase) -> (r: Self)
        ensures
            r.backend matches AnalysisBackend::Lsp(s) && s@ == server@,
            r.phase == phase,
            r.message is None,
            r.percentage is None,
    {
        AnalysisStatus {
            backend: AnalysisBackend::Lsp(server.to_string()),
            phase,
            message: None,
            percentage: None,
        }
    }

    /// Tree-sitter for the given language, in the given phase.
    pub fn tree_sitter(language: &str, phase: AnalysisPhase) -> (r: Self)
        ensures
            r.backend matches AnalysisBackend::TreeSitter(s) && s@ == language@,
            r.phase == phase,
            r.message is None,
            r.percentage is None,
    {
        AnalysisStatus {
            backend: AnalysisBackend::TreeSitter(language.to_string()),
            phase,
            message: None,
            percentage: None,
        }
    }
}

/// What the canvas shows for a status: its message as an error when the
/// backend failed or went away, as a notice when it warns, else nothing.
pub open spec fn status_notice(phase: AnalysisPhase, message: Option<Seq<char>>) -> Option<(Seq<char>, bool)> {
    match message {
        Some(m) => if m.len() > 0 && (phase == AnalysisPhase::Warning || phase == AnalysisPhase::Error
            || phase == AnalysisPhase::Disconnected) {
            Some((m, phase != AnalysisPhase::Warning))
        } else {
            None
        },
        None => None,
    }
}

impl AnalysisStatus {
    /// The message the canvas shows for this status, and whether it is an
    /// error rather than a notice.
    pub fn canvas_message(&self) -> (r: Option<(String, bool)>)
        ensures
            match (r, status_notice(self.phase, match self.message {
                Some(m) => Some(m@),
                None => None,
            })) {
                (Some((m, e)), Some((m2, e2))) => m@ == m2 && e == e2,
                (None, None) => true,
                _ => false,
            },
    {
        match &self.message {
            Some(m) => {
                let problem = match self.phase {
                    AnalysisPhase::Warning => true,
                    AnalysisPhase::Error => true,
                    AnalysisPhase::Disconnected => true,
                    _ => false,
                };
                if problem && m.unicode_len() > 0 {
                    let is_error = match self.phase {
                        AnalysisPhase::Warning => false,
                        _ => true,
                    };
                    Some((m.clone(), is_error))
                } else {
                    None
                }
            },
            None => None,
        }
    }
}

} // verus!
