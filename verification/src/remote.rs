//! What the viewer does with what editors ask over its socket, and what it
//! says about what it sent them.
use vstd::prelude::*;

use crate::app::{focused, kept, noticed, App};
use crate::export::{decimal, push_decimal};
use crate::protocol::{IpcRequest, IpcResponse};
use crate::relation::RelationGraph;
use crate::state::{location_view, HierarchyKind, IdentityView, NodeId, SymbolIdentity};
use crate::text::{append_text, debug_text, str_debug};

verus! {

/// The word for a kind of hierarchy.
pub open spec fn hierarchy_word(k: HierarchyKind) -> Seq<char> {
    match k {
        HierarchyKind::Call => "call"@,
        HierarchyKind::Type => "type"@,
    }
}

/// What the canvas says when a request focused a symbol.
pub open spec fn focused_text(request_id: u64, kind: HierarchyKind, symbol: Seq<char>) -> Seq<char> {
    "IPC request "@ + decimal(request_id as nat) + " focused "@ + hierarchy_word(kind) + " symbol "@ + str_debug(symbol)
}

/// What the canvas says when a request was refused.
pub open spec fn rejected_text(request_id: u64, message: Seq<char>) -> Seq<char> {
    "IPC request "@ + decimal(request_id as nat) + " rejected: "@ + message
}

/// The text "IPC request <id>".
fn request_label(request_id: u64) -> (r: String)
    ensures
        r@ == "IPC request "@ + decimal(request_id as nat),
{
    let mut t = String::from_str("IPC request ");
    push_decimal(&mut t, request_id);
    t
}

/// Carries out what an editor asks: focusing a symbol pins and selects its
/// node and says so on the canvas, and the answer is `Accepted`; a refused
/// request is answered with the reason, which the canvas shows as an error.
pub fn apply_ipc_request(app: &mut App, request_id: u64, request: IpcRequest) -> (r: IpcResponse)
    requires
        old(app).well_formed(),
        old(app).graph.room(1, 0),
    ensures
        final(app).well_formed(),
        final(app).graph.nodes_used() <= old(app).graph.nodes_used() + 1,
        kept(*old(app), *final(app)),
        match request {
            IpcRequest::FocusSymbol { hierarchy, symbol, location } => {
                let identity = IdentityView { symbol: symbol@, kind: hierarchy, location: location_view(location) };
                exists|res: Result<NodeId, Seq<char>>|
                    #![trigger focused(old(app).graph@, final(app).graph@, identity, res)]
                    {
                        &&& focused(old(app).graph@, final(app).graph@, identity, res)
                        &&& match res {
                            Ok(id) => {
                                &&& r is Accepted
                                &&& final(app).selected == Some(id)
                                &&& final(app).viewport.offset_x == 0
                                &&& final(app).viewport.offset_y == 0
                                &&& noticed(*old(app), *final(app), focused_text(request_id, hierarchy, symbol@), false)
                            },
                            Err(m) => {
                                &&& r matches IpcResponse::Error { message } && message@ == m
                                &&& final(app).selected == old(app).selected
                                &&& final(app).viewport == old(app).viewport
                                &&& noticed(*old(app), *final(app), rejected_text(request_id, m), true)
                            },
                        }
                    }
            },
        },
{
    match request {
        IpcRequest::FocusSymbol { hierarchy, symbol, location } => {
            let shown = debug_text(symbol.as_str());
            let ghost identity = IdentityView { symbol: symbol@, kind: hierarchy, location: location_view(location) };
            let ghost before = *app;
            let result = app.focus_symbol(SymbolIdentity { symbol, kind: hierarchy, location });
            match result {
                Ok(id) => {
                    let t = append_text(request_label(request_id), " focused ");
                    let t = match hierarchy {
                        HierarchyKind::Call => append_text(t, "call"),
                        HierarchyKind::Type => append_text(t, "type"),
                    };
                    let t = append_text(t, " symbol ");
                    let t = append_text(t, shown.as_str());
                    app.set_canvas_notice(t);
                    assert(focused(before.graph@, app.graph@, identity, Ok::<NodeId, Seq<char>>(id)));
                    IpcResponse::Accepted
                },
                Err(message) => {
                    let t = append_text(request_label(request_id), " rejected: ");
                    let t = append_text(t, message.as_str());
                    app.set_canvas_error(t);
                    let ghost m = message@;
                    assert(focused(before.graph@, app.graph@, identity, Err::<NodeId, Seq<char>>(m)));
                    IpcResponse::Error { message }
                },
            }
        },
    }
}

/// What the canvas says when an answer could not be sent.
pub fn report_response_failure(app: &mut App, request_id: u64, error: &str)
    ensures
        noticed(*old(app), *final(app), "IPC response "@ + decimal(request_id as nat) + " failed: "@ + error@, true),
        final(app).graph == old(app).graph,
        final(app).selected == old(app).selected,
        final(app).viewport == old(app).viewport,
        kept(*old(app), *final(app)),
{
    let mut t = String::from_str("IPC response ");
    push_decimal(&mut t, request_id);
    let t = append_text(t, " failed: ");
    let t = append_text(t, error);
    app.set_canvas_error(t);
}

/// What the canvas says about sending a source location to the editors:
/// that the socket is off, to how many editors it went, or why it failed.
pub open spec fn open_location_text(sent: Option<Result<usize, String>>) -> (Seq<char>, bool) {
    match sent {
        None => ("IPC is not enabled; start cgraph with --ipc-socket <PATH>"@, false),
        Some(Ok(n)) => if n == 1 {
            ("Sent source location to 1 IPC client"@, false)
        } else {
            ("Sent source location to "@ + decimal(n as nat) + " IPC clients"@, false)
        },
        Some(Err(e)) => ("IPC open-location failed: "@ + e@, true),
    }
}

/// Says on the canvas what became of sending a source location: `None`
/// when the socket is off, else how many editors got it or why it failed.
pub fn report_open_location(app: &mut App, sent: Option<Result<usize, String>>)
    ensures
        noticed(*old(app), *final(app), open_location_text(sent).0, open_location_text(sent).1),
        final(app).graph == old(app).graph,
        final(app).selected == old(app).selected,
        final(app).viewport == old(app).viewport,
        kept(*old(app), *final(app)),
{
    match sent {
        None => app.set_canvas_notice(String::from_str("IPC is not enabled; start cgraph with --ipc-socket <PATH>")),
        Some(Ok(n)) => {
            if n == 1 {
                app.set_canvas_notice(String::from_str("Sent source location to 1 IPC client"));
            } else {
                let mut t = String::from_str("Sent source location to ");
                push_decimal(&mut t, n as u64);
                let t = append_text(t, " IPC clients");
                app.set_canvas_notice(t);
            }
        },
        Some(Err(e)) => {
            let t = append_text(String::from_str("IPC open-location failed: "), e.as_str());
            app.set_canvas_error(t);
        },
    }
}

} // verus!
