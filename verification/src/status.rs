//! What the footer and the heading of the canvas say: the analysis status a
//! language server reports, the status line, and the heading.
use vstd::prelude::*;

use crate::analysis::{AnalysisBackend, AnalysisPhase, AnalysisStatus};
use crate::app::{kept, noticed, quiet, App};
use crate::analysis::status_notice;
use crate::graph::text_view;
use crate::progress::LspStatusUpdate;
use crate::relation::{node_of, resolve};
use crate::text::{append_text, trim, trimmed};

verus! {

/// The name of the server a status is for: the language server's, else
/// "LSP".
pub open spec fn server_name(b: AnalysisBackend) -> Seq<char> {
    match b {
        AnalysisBackend::Lsp(s) => s@,
        _ => "LSP"@,
    }
}

/// `x`, at most 100.
pub open spec fn capped(x: u32) -> u32 {
    if x > 100 {
        100
    } else {
        x
    }
}

/// The phase, message and percentage a status event of the server gives;
/// `None` for a diagnostic, which is a notice instead.
pub open spec fn reported(update: LspStatusUpdate) -> Option<(AnalysisPhase, Option<Seq<char>>, Option<u32>)> {
    match update {
        LspStatusUpdate::Ready { message } => Some((AnalysisPhase::Ready, text_view(message), None)),
        LspStatusUpdate::Progress { title, message, percentage } => Some(
            (
                AnalysisPhase::Working,
                Some(
                    match message {
                        Some(m) => title@ + ": "@ + m@,
                        None => title@,
                    },
                ),
                match percentage {
                    Some(p) => Some(capped(p)),
                    None => None,
                },
            ),
        ),
        LspStatusUpdate::Warning(m) => Some((AnalysisPhase::Warning, Some(m@), None)),
        LspStatusUpdate::Error(m) => Some((AnalysisPhase::Error, Some(m@), None)),
        LspStatusUpdate::Disconnected(m) => Some((AnalysisPhase::Disconnected, Some(m@), None)),
        LspStatusUpdate::Diagnostic(_) => None,
    }
}

/// The name of the server a status is for.
fn server_of(backend: &AnalysisBackend) -> (r: String)
    ensures
        r@ == server_name(*backend),
{
    match backend {
        AnalysisBackend::Lsp(server) => server.clone(),
        _ => String::from_str("LSP"),
    }
}

/// Takes a status event of the language server: a diagnostic becomes a
/// notice; any other event becomes the analysis status of the same server,
/// a progress with its title and message and its percentage at most 100.
pub fn apply_lsp_status(app: &mut App, update: LspStatusUpdate)
    ensures
        final(app).graph == old(app).graph,
        final(app).selected == old(app).selected,
        final(app).viewport == old(app).viewport,
        match reported(update) {
            None => match update {
                LspStatusUpdate::Diagnostic(m) => {
                    &&& noticed(*old(app), *final(app), m@, false)
                    &&& kept(*old(app), *final(app))
                },
                _ => false,
            },
            Some((phase, message, percentage)) => {
                let s = final(app).analysis_status;
                &&& s.backend matches AnalysisBackend::Lsp(name) && name@ == server_name(old(app).analysis_status.backend)
                &&& s.phase == phase
                &&& text_view(s.message) == message
                &&& s.percentage == percentage
                &&& kept(App { analysis_status: s, ..*old(app) }, *final(app))
                &&& match status_notice(phase, message) {
                    Some((m, is_error)) => noticed(*old(app), *final(app), m, is_error),
                    None => quiet(*old(app), *final(app)),
                }
            },
        },
{
    let server = server_of(&app.analysis_status.backend);
    let status = match update {
        LspStatusUpdate::Diagnostic(message) => {
            app.set_canvas_notice(message);
            return;
        },
        LspStatusUpdate::Ready { message } => AnalysisStatus {
            backend: AnalysisBackend::Lsp(server),
            phase: AnalysisPhase::Ready,
            message,
            percentage: None,
        },
        LspStatusUpdate::Progress { title, message, percentage } => AnalysisStatus {
            backend: AnalysisBackend::Lsp(server),
            phase: AnalysisPhase::Working,
            message: Some(
                match message {
                    Some(message) => {
                        let t = append_text(title, ": ");
                        append_text(t, message.as_str())
                    },
                    None => title,
                },
            ),
            percentage: match percentage {
                Some(p) => Some(
                    if p > 100 {
                        100
                    } else {
                        p
                    },
                ),
                None => None,
            },
        },
        LspStatusUpdate::Warning(message) => AnalysisStatus {
            backend: AnalysisBackend::Lsp(server),
            phase: AnalysisPhase::Warning,
            message: Some(message),
            percentage: None,
        },
        LspStatusUpdate::Error(message) => AnalysisStatus {
            backend: AnalysisBackend::Lsp(server),
            phase: AnalysisPhase::Error,
            message: Some(message),
            percentage: None,
        },
        LspStatusUpdate::Disconnected(message) => AnalysisStatus {
            backend: AnalysisBackend::Lsp(server),
            phase: AnalysisPhase::Disconnected,
            message: Some(message),
            percentage: None,
        },
    };
    app.set_analysis_status(status);
}

/// The name of a phase.
pub open spec fn phase_name(p: AnalysisPhase) -> Seq<char> {
    match p {
        AnalysisPhase::Inactive => "Inactive"@,
        AnalysisPhase::Ready => "Ready"@,
        AnalysisPhase::Working => "Working"@,
        AnalysisPhase::Warning => "Warning"@,
        AnalysisPhase::Error => "Error"@,
        AnalysisPhase::Disconnected => "Disconnected"@,
    }
}

/// The decimal numeral of `n`.
pub open spec fn numeral(n: u32) -> Seq<char> {
    crate::export::decimal(n as nat)
}

/// The backend as the status line names it.
pub open spec fn backend_text(b: AnalysisBackend) -> Seq<char> {
    match b {
        AnalysisBackend::Lsp(server) => "LSP: "@ + server@,
        AnalysisBackend::TreeSitter(language) => "Tree-sitter: "@ + language@,
        AnalysisBackend::NoBackend => "Backend: none"@,
    }
}

/// The percentage as the status line shows it, if any.
pub open spec fn percentage_text(p: Option<u32>) -> Seq<char> {
    match p {
        Some(p) => " "@ + numeral(p) + "%"@,
        None => Seq::empty(),
    }
}

/// The message as the status line shows it, if it says something.
pub open spec fn message_text(m: Option<String>) -> Seq<char> {
    match m {
        Some(m) => if m@.len() > 0 {
            " · "@ + m@
        } else {
            Seq::empty()
        },
        None => Seq::empty(),
    }
}

/// The status line: the backend, the phase, the percentage and the message
/// when there is one.
pub open spec fn status_line_of(s: AnalysisStatus) -> Seq<char> {
    backend_text(s.backend) + " · "@ + phase_name(s.phase) + percentage_text(s.percentage) + message_text(s.message)
}

fn push_backend(out: String, b: &AnalysisBackend) -> (r: String)
    ensures
        r@ == out@ + backend_text(*b),
{
    match b {
        AnalysisBackend::Lsp(server) => {
            let t = append_text(out, "LSP: ");
            let r = append_text(t, server.as_str());
            assert(r@ =~= out@ + backend_text(*b));
            r
        },
        AnalysisBackend::TreeSitter(language) => {
            let t = append_text(out, "Tree-sitter: ");
            let r = append_text(t, language.as_str());
            assert(r@ =~= out@ + backend_text(*b));
            r
        },
        AnalysisBackend::NoBackend => append_text(out, "Backend: none"),
    }
}

fn push_phase(out: String, p: AnalysisPhase) -> (r: String)
    ensures
        r@ == out@ + phase_name(p),
{
    match p {
        AnalysisPhase::Inactive => append_text(out, "Inactive"),
        AnalysisPhase::Ready => append_text(out, "Ready"),
        AnalysisPhase::Working => append_text(out, "Working"),
        AnalysisPhase::Warning => append_text(out, "Warning"),
        AnalysisPhase::Error => append_text(out, "Error"),
        AnalysisPhase::Disconnected => append_text(out, "Disconnected"),
    }
}

fn push_percentage(out: String, p: Option<u32>) -> (r: String)
    ensures
        r@ == out@ + percentage_text(p),
{
    match p {
        Some(p) => {
            let mut t = append_text(out, " ");
            crate::export::push_decimal(&mut t, p as u64);
            let r = append_text(t, "%");
            assert(r@ =~= out@ + percentage_text(Some(p)));
            r
        },
        None => {
            assert(out@ + percentage_text(None) =~= out@);
            out
        },
    }
}

fn push_message(out: String, m: &Option<String>) -> (r: String)
    ensures
        r@ == out@ + message_text(*m),
{
    match m {
        Some(m) => if m.as_str().unicode_len() > 0 {
            let t = append_text(out, " · ");
            let r = append_text(t, m.as_str());
            assert(r@ =~= out@ + (" · "@ + m@));
            r
        } else {
            assert(out@ + Seq::<char>::empty() =~= out@);
            out
        },
        None => {
            assert(out@ + Seq::<char>::empty() =~= out@);
            out
        },
    }
}

/// The status line: the backend, the phase, the percentage and the message
/// when there is one.
pub fn status_line(status: &AnalysisStatus) -> (r: String)
    ensures
        r@ == status_line_of(*status),
{
    let out = push_backend(String::new(), &status.backend);
    let out = append_text(out, " · ");
    let out = push_phase(out, status.phase);
    let out = push_percentage(out, status.percentage);
    let r = push_message(out, &status.message);
    assert(r@ =~= status_line_of(*status));
    r
}

/// The heading of the canvas: the trimmed URI of the selected node's
/// location, else "CALL GRAPH".
pub open spec fn heading_of(a: App) -> Seq<char> {
    let uri = match a.selected {
        Some(s) => match resolve(a.graph@, s) {
            Some(x) => match node_of(a.graph@, x.0).location {
                Some(l) => Some(trimmed(l.uri)),
                None => None,
            },
            None => None,
        },
        None => None,
    };
    match uri {
        Some(u) => if u.len() > 0 {
            u
        } else {
            "CALL GRAPH"@
        },
        None => "CALL GRAPH"@,
    }
}

/// The heading of the canvas: the trimmed URI of the selected node's
/// location, else "CALL GRAPH".
pub fn canvas_heading(app: &App) -> (r: String)
    requires
        app.graph.well_formed(),
    ensures
        r@ == heading_of(*app),
{
    let uri = match app.selected {
        Some(s) => match app.graph.node(s) {
            Some(node) => match &node.location {
                Some(l) => Some(trim(l.uri.as_str())),
                None => None,
            },
            None => None,
        },
        None => None,
    };
    match uri {
        Some(u) => if u.as_str().unicode_len() > 0 {
            u
        } else {
            String::from_str("CALL GRAPH")
        },
        None => String::from_str("CALL GRAPH"),
    }
}

} // verus!
