//! The state of the viewer apart from any terminal: the selection, the
//! dialogs, the notices shown on the canvas and the hierarchy loads in
//! flight, so that every transition can be checked without a terminal.
use vstd::prelude::*;

use crate::analysis::{status_notice, AnalysisStatus};
use crate::filter::FilterConfig;
use crate::graph::{identity_key, text_view};
use crate::relation::{key_owner, live, named, node_added, node_of, pinned, resolve, unpinned, RelationGraph, RelationModel};
use crate::state::{HierarchyKind, IdentityView, NodeId, SymbolIdentity, Viewport};
use crate::text::{append_text, char_is_control, has_prefix, is_control, pop_char, push_char, str_eq, trim, trimmed};

verus! {

/// What the command line asks to show first.
#[derive(Clone, Debug, PartialEq, Eq)]
pub enum Command {
    /// A call hierarchy rooted at a function or method.
    Call { symbol: String },
    /// A type hierarchy rooted at a type.
    Type { symbol: String },
}

/// The complete help, scrolled to a row.
#[derive(Clone, Copy, Debug, PartialEq, Eq, Structural)]
pub struct HelpState {
    pub scroll: usize,
}

impl Default for HelpState {
    fn default() -> (r: Self)
        ensures
            r.scroll == 0,
    {
        HelpState { scroll: 0 }
    }
}

/// Whether the save dialog is being edited or shows the last failure.
#[derive(Clone, Debug, PartialEq, Eq)]
pub enum SaveStatus {
    Editing,
    Error(String),
}

/// The destination typed into the save dialog.
#[derive(Clone, Debug, PartialEq, Eq)]
pub struct SaveState {
    pub input: String,
    pub status: SaveStatus,
}

/// Everything the viewer shows and remembers between events.
pub struct App {
    pub should_quit: bool,
    pub workspace: String,
    pub graph: RelationGraph,
    pub selected: Option<NodeId>,
    pub pending_key: Option<char>,
    pub save: Option<SaveState>,
    pub help: Option<HelpState>,
    pub analysis_status: AnalysisStatus,
    pub message_history: Vec<String>,
    pub viewport: Viewport,
    pub canvas_notice: Option<String>,
    pub canvas_notice_is_error: bool,
    pub filters: FilterConfig,
    pub analysis_error: Option<String>,
    pub next_hierarchy_request_id: u64,
}

/// The texts of a list of strings.
pub open spec fn texts(v: Seq<String>) -> Seq<Seq<char>> {
    Seq::new(v.len(), |i: int| v[i]@)
}

/// The message history after a message: the message is appended unless it
/// repeats the last one.
pub open spec fn recorded(history: Seq<Seq<char>>, message: Seq<char>) -> Seq<Seq<char>> {
    if history.len() > 0 && history.last() == message {
        history
    } else {
        history.push(message)
    }
}

impl App {
    /// The state the viewer keeps: a well formed graph.
    pub open spec fn well_formed(&self) -> bool {
        self.graph.well_formed()
    }
}

/// The fields that no transition of the canvas touches are the same.
pub open spec fn kept(a: App, b: App) -> bool {
    &&& a.should_quit == b.should_quit
    &&& a.workspace@ == b.workspace@
    &&& a.pending_key == b.pending_key
    &&& a.save == b.save
    &&& a.help == b.help
    &&& a.analysis_status == b.analysis_status
    &&& a.filters@ == b.filters@
    &&& text_view(a.analysis_error) == text_view(b.analysis_error)
    &&& a.next_hierarchy_request_id == b.next_hierarchy_request_id
}

/// Nothing was said on the canvas.
pub open spec fn quiet(a: App, b: App) -> bool {
    &&& texts(b.message_history@) == texts(a.message_history@)
    &&& text_view(b.canvas_notice) == text_view(a.canvas_notice)
    &&& b.canvas_notice_is_error == a.canvas_notice_is_error
}

/// The canvas shows `message`, as an error or not, and the history records it.
pub open spec fn noticed(a: App, b: App, message: Seq<char>, is_error: bool) -> bool {
    &&& texts(b.message_history@) == recorded(texts(a.message_history@), message)
    &&& text_view(b.canvas_notice) == Some(message)
    &&& b.canvas_notice_is_error == is_error
}

/// The canvas notice was taken away; the history stays.
pub open spec fn unnoticed(a: App, b: App) -> bool {
    &&& texts(b.message_history@) == texts(a.message_history@)
    &&& b.canvas_notice is None
    &&& !b.canvas_notice_is_error
}

/// The symbol and kind a command asks for.
pub open spec fn command_root(command: Command) -> (Seq<char>, HierarchyKind) {
    match command {
        Command::Call { symbol } => (symbol@, HierarchyKind::Call),
        Command::Type { symbol } => (symbol@, HierarchyKind::Type),
    }
}

/// The identity a command asks for: its symbol, without a location.
pub open spec fn command_identity(command: Command) -> IdentityView {
    IdentityView { symbol: command_root(command).0, kind: command_root(command).1, location: None }
}

/// The message with which the canvas notices are opened when there is no
/// analysis backend yet.
pub open spec fn no_backend_text() -> Seq<char> {
    "No analysis backend"@
}

impl App {
    /// The viewer for a workspace, with the root that the command line asks
    /// for pinned and selected.
    pub fn from_cli(workspace: String, command: Option<Command>) -> (r: Self)
        ensures
            r.well_formed(),
            r.graph.room(u32::MAX - 3, u32::MAX - 1),
            !r.should_quit,
            r.workspace@ == workspace@,
            r.pending_key is None,
            r.save is None,
            r.help is None,
            r.analysis_status.message matches Some(m) && m@ == no_backend_text(),
            r.analysis_status.phase == crate::analysis::AnalysisPhase::Inactive,
            r.analysis_status.backend == crate::analysis::AnalysisBackend::NoBackend,
            r.analysis_status.percentage is None,
            r.message_history@.len() == 0,
            r.viewport.offset_x == 0 && r.viewport.offset_y == 0,
            r.canvas_notice is None,
            !r.canvas_notice_is_error,
            r.filters@.rules.len() == 0,
            !r.filters@.workspace_only,
            r.analysis_error is None,
            r.next_hierarchy_request_id == 1,
            r.graph@.edges.len() == 0,
            r.graph@.redirects == Map::<u64, u64>::empty(),
            match command {
                None => r.selected is None && r.graph@.index_of.len() == 0 && r.graph@.anchors.len() == 0
                    && r.graph@.nodes == Map::<u32, crate::graph::NodeView>::empty(),
                Some(c) => r.selected matches Some(id) && r.graph@.anchors == seq![id]
                    && r.graph@.index_of.dom() == set![id.0]
                    && r.graph@.nodes.dom() == set![r.graph@.index_of[id.0]]
                    && node_of(r.graph@, id.0) == crate::graph::fresh_node(id, command_identity(c))
                    && crate::graph::node_identity(node_of(r.graph@, id.0)) == command_identity(c),
            },
    {
        let mut graph = RelationGraph::new();
        let selected = match command {
            Some(c) => {
                let (symbol, kind) = match c {
                    Command::Call { symbol } => (symbol, HierarchyKind::Call),
                    Command::Type { symbol } => (symbol, HierarchyKind::Type),
                };
                let ghost m0 = graph@;
                let id = graph.pin_symbol(SymbolIdentity { symbol, kind, location: None });
                proof {
                    assert(graph@.index_of.dom() =~= set![id.0]);
                    assert(graph@.anchors =~= seq![id]);
                    assert(graph@.nodes.dom() =~= set![graph@.index_of[id.0]]);
                }
                Some(id)
            },
            None => None,
        };
        let no_rules: Vec<&str> = Vec::new();
        let filters = match FilterConfig::from_rules(no_rules.as_slice(), false) {
            Ok(c) => c,
            Err(_) => FilterConfig::new_default(),
        };
        App {
            should_quit: false,
            workspace,
            graph,
            selected,
            pending_key: None,
            save: None,
            help: None,
            analysis_status: AnalysisStatus::inactive("No analysis backend"),
            message_history: Vec::new(),
            viewport: Viewport::default(),
            canvas_notice: None,
            canvas_notice_is_error: false,
            filters,
            analysis_error: None,
            next_hierarchy_request_id: 1,
        }
    }
}

impl App {
    /// Marks the viewer to quit.
    pub fn quit(&mut self)
        ensures
            final(self).should_quit,
            final(self).graph == old(self).graph,
            final(self).selected == old(self).selected,
            final(self).viewport == old(self).viewport,
            kept(App { should_quit: true, ..*old(self) }, *final(self)),
            quiet(*old(self), *final(self)),
    {
        self.should_quit = true;
    }

    /// Moves the viewport, stopping at the ends of the coordinate range.
    pub fn pan_viewport(&mut self, delta_x: i32, delta_y: i32)
        ensures
            final(self).viewport.offset_x == saturated(old(self).viewport.offset_x + delta_x),
            final(self).viewport.offset_y == saturated(old(self).viewport.offset_y + delta_y),
            final(self).graph == old(self).graph,
            final(self).selected == old(self).selected,
            kept(*old(self), *final(self)),
            quiet(*old(self), *final(self)),
    {
        self.viewport.offset_x = saturating_add_i32(self.viewport.offset_x, delta_x);
        self.viewport.offset_y = saturating_add_i32(self.viewport.offset_y, delta_y);
    }

    /// Appends a message to the history unless it repeats the last one.
    fn record_message(&mut self, message: &String)
        ensures
            texts(final(self).message_history@) == recorded(texts(old(self).message_history@), message@),
            final(self).graph == old(self).graph,
            final(self).selected == old(self).selected,
            final(self).viewport == old(self).viewport,
            final(self).canvas_notice == old(self).canvas_notice,
            final(self).canvas_notice_is_error == old(self).canvas_notice_is_error,
            kept(*old(self), *final(self)),
    {
        let n = self.message_history.len();
        if n > 0 && str_eq(self.message_history[n - 1].as_str(), message.as_str()) {
            assert(texts(old(self).message_history@).last() == message@);
            return;
        }
        let ghost before = self.message_history@;
        self.message_history.push(message.clone());
        assert(texts(self.message_history@) =~= texts(before).push(message@));
    }

    /// Shows a notice on the canvas and records it.
    pub fn set_canvas_notice(&mut self, message: String)
        ensures
            noticed(*old(self), *final(self), message@, false),
            final(self).graph == old(self).graph,
            final(self).selected == old(self).selected,
            final(self).viewport == old(self).viewport,
            kept(*old(self), *final(self)),
    {
        self.record_message(&message);
        self.canvas_notice = Some(message);
        self.canvas_notice_is_error = false;
    }

    /// Shows an error on the canvas and records it.
    pub fn set_canvas_error(&mut self, message: String)
        ensures
            noticed(*old(self), *final(self), message@, true),
            final(self).graph == old(self).graph,
            final(self).selected == old(self).selected,
            final(self).viewport == old(self).viewport,
            kept(*old(self), *final(self)),
    {
        self.record_message(&message);
        self.canvas_notice = Some(message);
        self.canvas_notice_is_error = true;
    }

    /// Takes the notice off the canvas; the history keeps it.
    pub fn clear_canvas_notice(&mut self)
        ensures
            unnoticed(*old(self), *final(self)),
            final(self).graph == old(self).graph,
            final(self).selected == old(self).selected,
            final(self).viewport == old(self).viewport,
            kept(*old(self), *final(self)),
    {
        self.canvas_notice = None;
        self.canvas_notice_is_error = false;
    }

    /// Whether the notice on the canvas reports an error.
    pub fn canvas_notice_is_error(&self) -> (r: bool)
        ensures
            r == self.canvas_notice_is_error,
    {
        self.canvas_notice_is_error
    }
}

/// The sum, held to the range of `i32`.
pub open spec fn saturated(x: int) -> i32 {
    if x > i32::MAX {
        i32::MAX
    } else if x < i32::MIN {
        i32::MIN
    } else {
        x as i32
    }
}

/// `a + b`, held to the range of `i32`.
pub fn saturating_add_i32(a: i32, b: i32) -> (r: i32)
    ensures
        r == saturated(a + b),
{
    let sum: i64 = a as i64 + b as i64;
    if sum > i32::MAX as i64 {
        i32::MAX
    } else if sum < i32::MIN as i64 {
        i32::MIN
    } else {
        sum as i32
    }
}

/// The save dialog as text: the input and, after a failure, its message.
pub open spec fn save_view(s: Option<SaveState>) -> Option<(Seq<char>, Option<Seq<char>>)> {
    match s {
        Some(st) => Some((st.input@, match st.status {
            SaveStatus::Editing => None,
            SaveStatus::Error(e) => Some(e@),
        })),
        None => None,
    }
}

/// What the canvas says when a save failed.
pub open spec fn save_failed_text(error: Seq<char>) -> Seq<char> {
    "Save failed: "@ + error
}

/// What the canvas says once the graph was saved.
pub open spec fn saved_text(path: Seq<char>) -> Seq<char> {
    "Saved graph to "@ + path
}

/// Everything but the save dialog, the pending key and the notices is the
/// same.
pub open spec fn same_but_dialogs(a: App, b: App) -> bool {
    &&& a.should_quit == b.should_quit
    &&& a.workspace@ == b.workspace@
    &&& a.graph == b.graph
    &&& a.selected == b.selected
    &&& a.viewport == b.viewport
    &&& a.analysis_status == b.analysis_status
    &&& a.filters@ == b.filters@
    &&& text_view(a.analysis_error) == text_view(b.analysis_error)
    &&& a.next_hierarchy_request_id == b.next_hierarchy_request_id
}

impl App {
    /// Opens an empty save dialog; a pending key and the canvas notice go.
    pub fn open_save(&mut self)
        ensures
            final(self).pending_key is None,
            save_view(final(self).save) == Some((Seq::<char>::empty(), None::<Seq<char>>)),
            final(self).help == old(self).help,
            unnoticed(*old(self), *final(self)),
            same_but_dialogs(*old(self), *final(self)),
    {
        self.pending_key = None;
        self.clear_canvas_notice();
        self.save = Some(SaveState { input: String::new(), status: SaveStatus::Editing });
    }

    /// Closes the save dialog.
    pub fn close_save(&mut self)
        ensures
            final(self).save is None,
            final(self).pending_key == old(self).pending_key,
            final(self).help == old(self).help,
            quiet(*old(self), *final(self)),
            same_but_dialogs(*old(self), *final(self)),
    {
        self.save = None;
    }

    /// Types a character into the save dialog, which returns to editing.
    pub fn push_save_char(&mut self, character: char)
        ensures
            save_view(final(self).save) == match save_view(old(self).save) {
                Some((input, _)) => Some((input.push(character), None::<Seq<char>>)),
                None => None,
            },
            final(self).pending_key == old(self).pending_key,
            final(self).help == old(self).help,
            quiet(*old(self), *final(self)),
            same_but_dialogs(*old(self), *final(self)),
    {
        match &mut self.save {
            Some(save) => {
                push_char(&mut save.input, character);
                save.status = SaveStatus::Editing;
            },
            None => {},
        }
    }

    /// Erases the last character of the save dialog, which returns to
    /// editing.
    pub fn pop_save_char(&mut self)
        ensures
            save_view(final(self).save) == match save_view(old(self).save) {
                Some((input, _)) => Some((
                    if input.len() > 0 {
                        input.drop_last()
                    } else {
                        input
                    },
                    None::<Seq<char>>,
                )),
                None => None,
            },
            final(self).pending_key == old(self).pending_key,
            final(self).help == old(self).help,
            quiet(*old(self), *final(self)),
            same_but_dialogs(*old(self), *final(self)),
    {
        match &mut self.save {
            Some(save) => {
                pop_char(&mut save.input);
                save.status = SaveStatus::Editing;
            },
            None => {},
        }
    }

    /// Reports a failed save: the open dialog shows the error, and the canvas
    /// says that saving failed.
    pub fn fail_save(&mut self, error: String)
        ensures
            save_view(final(self).save) == match save_view(old(self).save) {
                Some((input, _)) => Some((input, Some(error@))),
                None => None,
            },
            noticed(*old(self), *final(self), save_failed_text(error@), true),
            final(self).pending_key == old(self).pending_key,
            final(self).help == old(self).help,
            same_but_dialogs(*old(self), *final(self)),
    {
        match &mut self.save {
            Some(save) => {
                save.status = SaveStatus::Error(error.clone());
            },
            None => {},
        }
        let message = append_text("Save failed: ".to_string(), error.as_str());
        self.set_canvas_error(message);
    }

    /// Closes the save dialog after the graph was saved to `path`.
    pub fn complete_save(&mut self, path: &str)
        ensures
            final(self).save is None,
            noticed(*old(self), *final(self), saved_text(path@), false),
            final(self).pending_key == old(self).pending_key,
            final(self).help == old(self).help,
            same_but_dialogs(*old(self), *final(self)),
    {
        self.save = None;
        let message = append_text("Saved graph to ".to_string(), path);
        self.set_canvas_notice(message);
    }

    /// Opens the complete help at its first row; a pending key goes.
    pub fn open_help(&mut self)
        ensures
            final(self).help == Some(HelpState { scroll: 0 }),
            final(self).pending_key is None,
            final(self).save == old(self).save,
            quiet(*old(self), *final(self)),
            same_but_dialogs(*old(self), *final(self)),
    {
        self.pending_key = None;
        self.help = Some(HelpState::default());
    }

    /// Closes the complete help.
    pub fn close_help(&mut self)
        ensures
            final(self).help is None,
            final(self).pending_key == old(self).pending_key,
            final(self).save == old(self).save,
            quiet(*old(self), *final(self)),
            same_but_dialogs(*old(self), *final(self)),
    {
        self.help = None;
    }

    /// Replaces the filters that hierarchy results pass through.
    pub fn set_filters(&mut self, filters: FilterConfig)
        ensures
            final(self).filters@ == filters@,
            final(self).graph == old(self).graph,
            final(self).selected == old(self).selected,
            final(self).viewport == old(self).viewport,
            kept(App { filters: final(self).filters, ..*old(self) }, *final(self)),
            quiet(*old(self), *final(self)),
    {
        self.filters = filters;
    }

    /// Remembers an error of the analysis backend and shows it.
    pub fn set_analysis_error(&mut self, error: String)
        ensures
            text_view(final(self).analysis_error) == Some(error@),
            noticed(*old(self), *final(self), error@, true),
            final(self).graph == old(self).graph,
            final(self).selected == old(self).selected,
            final(self).viewport == old(self).viewport,
            kept(App { analysis_error: final(self).analysis_error, ..*old(self) }, *final(self)),
    {
        self.analysis_error = Some(error.clone());
        self.set_canvas_error(error);
    }

    /// Takes the status the analysis backend reports; a warning shows as a
    /// notice, an error or a lost connection as an error, when it says
    /// something.
    pub fn set_analysis_status(&mut self, status: AnalysisStatus)
        ensures
            final(self).analysis_status == status,
            match status_notice(status.phase, text_view(status.message)) {
                Some((m, is_error)) => noticed(*old(self), *final(self), m, is_error),
                None => quiet(*old(self), *final(self)),
            },
            final(self).graph == old(self).graph,
            final(self).selected == old(self).selected,
            final(self).viewport == old(self).viewport,
            kept(App { analysis_status: status, ..*old(self) }, *final(self)),
    {
        match status.canvas_message() {
            Some((m, is_error)) => {
                if is_error {
                    self.set_canvas_error(m);
                } else {
                    self.set_canvas_notice(m);
                }
            },
            None => {},
        }
        self.analysis_status = status;
    }
}

/// What the canvas says when the selected node is no anchor.
pub open spec fn not_anchor_text() -> Seq<char> {
    "Selected node is not an anchor"@
}

/// The node selected after the anchors changed: the last anchor, if any.
pub open spec fn last_anchor(anchors: Seq<NodeId>) -> Option<NodeId> {
    if anchors.len() > 0 {
        Some(anchors.last())
    } else {
        None
    }
}

/// Why a focus request is refused: an empty symbol, or a location that is
/// no file URI with an exact line and character.
pub open spec fn focus_error(identity: IdentityView) -> Option<Seq<char>> {
    if trimmed(identity.symbol).len() == 0 {
        Some("symbol must not be empty"@)
    } else {
        match identity.location {
            Some(l) => if location_unusable(l) {
                Some("location must contain a file URI and exact zero-based line/character"@)
            } else {
                None
            },
            None => None,
        }
    }
}

/// A location that cannot be opened exactly: no file URI, a control
/// character in it, or no line or character.
pub open spec fn location_unusable(l: crate::state::LocationView) -> bool {
    ||| !has_prefix(l.uri, "file://"@)
    ||| l.uri.len() == 7
    ||| (exists|i: int| 0 <= i < l.uri.len() && #[trigger] char_is_control(l.uri[i]))
    ||| l.line is None
    ||| l.character is None
}

/// What a focus request without a location is refused with when several
/// nodes carry its name.
pub open spec fn ambiguous_text(symbol: Seq<char>) -> Seq<char> {
    "symbol "@ + crate::text::str_debug(symbol) + " is ambiguous; include an exact source location"@
}

/// The nodes of the graph with this name and kind.
pub open spec fn named_nodes(m: RelationModel, symbol: Seq<char>, kind: HierarchyKind) -> Set<NodeId> {
    Set::new(|n: NodeId| live(m, n.0) && named(node_of(m, n.0), symbol, kind))
}

/// The graph `m2` is `m` with the node for `identity` pinned, and that node
/// is `id`: the node that already has its key, else a new one.
pub open spec fn pinned_to(m: RelationModel, m2: RelationModel, identity: IdentityView, id: NodeId) -> bool {
    &&& m2.anchors == pinned(m.anchors, id)
    &&& match key_owner(m, identity_key(identity)) {
        Some(e) => id == e && m2 == (RelationModel { anchors: m2.anchors, ..m }),
        None => node_added(m, RelationModel { anchors: m.anchors, ..m2 }, id, identity),
    }
}

/// What a focus request is answered: the refusal, or the node that was
/// focused with the graph after it.
pub open spec fn focused(m: RelationModel, m2: RelationModel, identity: IdentityView, r: Result<NodeId, Seq<char>>) -> bool {
    match focus_error(identity) {
        Some(e) => r == Err::<NodeId, Seq<char>>(e) && m2 == m,
        None => match identity.location {
            Some(_) => r matches Ok(id) && pinned_to(m, m2, identity, id),
            None => {
                let c = named_nodes(m, identity.symbol, identity.kind);
                if c.len() == 0 {
                    r matches Ok(id) && pinned_to(m, m2, identity, id)
                } else if c.len() == 1 {
                    r == Ok::<NodeId, Seq<char>>(c.choose()) && m2 == (RelationModel {
                        anchors: pinned(m.anchors, c.choose()),
                        ..m
                    })
                } else {
                    r == Err::<NodeId, Seq<char>>(ambiguous_text(identity.symbol)) && m2 == m
                }
            },
        },
    }
}

/// The result with its error taken as text.
pub open spec fn result_view(r: Result<NodeId, String>) -> Result<NodeId, Seq<char>> {
    match r {
        Ok(id) => Ok(id),
        Err(e) => Err(e@),
    }
}

/// A list without repeats that holds exactly the elements of a set is as
/// long as the set is large.
proof fn lemma_listed_set_len(s: Seq<NodeId>, c: Set<NodeId>)
    requires
        s.no_duplicates(),
        forall|n: NodeId| #[trigger] c.contains(n) <==> s.contains(n),
    ensures
        c.finite(),
        c.len() == s.len(),
        s.len() == 1 ==> c.choose() == s[0],
{
    assert(s.to_set() =~= c);
    s.unique_seq_to_set();
    if s.len() == 1 {
        assert(c.contains(s[0]));
        assert(c =~= set![s[0]]);
        assert(c.contains(c.choose()));
    }
}

/// What deleting the selected anchor does: it is unpinned and the last
/// anchor left selected; a selected node that is no anchor is reported.
pub open spec fn anchor_deleted(a: App, b: App, r: bool) -> bool {
    &&& b.viewport == a.viewport
    &&& kept(a, b)
    &&& match a.selected {
                    None => !r && b == a,
                    Some(s) => match resolve(a.graph@, s) {
                        Some(x) => if a.graph@.anchors.contains(x) {
                            &&& r
                            &&& b.graph@ == (RelationModel {
                                anchors: unpinned(a.graph@.anchors, x),
                                ..a.graph@
                            })
                            &&& b.selected == last_anchor(b.graph@.anchors)
                            &&& unnoticed(a, b)
                        } else {
                            &&& !r
                            &&& b.graph@ == a.graph@
                            &&& b.selected == a.selected
                            &&& noticed(a, b, not_anchor_text(), false)
                        },
                        None => {
                            &&& !r
                            &&& b.graph@ == a.graph@
                            &&& b.selected == a.selected
                            &&& noticed(a, b, not_anchor_text(), false)
                        },
                    },
                }
}

impl App {
    /// Unpins the selected node and selects the last anchor left; when the
    /// selected node is no anchor, the canvas says so and nothing else
    /// changes.
    pub fn delete_selected_anchor(&mut self) -> (r: bool)
        requires
            old(self).well_formed(),
        ensures
            final(self).well_formed(),
            final(self).graph.nodes_used() == old(self).graph.nodes_used(),
            anchor_deleted(*old(self), *final(self), r),
    {
        let selected = match self.selected {
            Some(s) => s,
            None => {
                return false;
            },
        };
        if !self.graph.unpin(selected) {
            self.set_canvas_notice("Selected node is not an anchor".to_string());
            return false;
        }
        self.clear_canvas_notice();
        let anchors = self.graph.anchors();
        self.selected = if anchors.len() > 0 {
            Some(anchors[anchors.len() - 1])
        } else {
            None
        };
        true
    }

    /// Selects the node an id stands for; `false`, with nothing changed,
    /// when it stands for none.
    pub fn select_node(&mut self, node_id: NodeId) -> (r: bool)
        requires
            old(self).well_formed(),
        ensures
            r == resolve(old(self).graph@, node_id) is Some,
            final(self).selected == match resolve(old(self).graph@, node_id) {
                Some(x) => Some(x),
                None => old(self).selected,
            },
            final(self).graph == old(self).graph,
            final(self).viewport == old(self).viewport,
            kept(*old(self), *final(self)),
            quiet(*old(self), *final(self)),
    {
        match self.graph.resolve_id(node_id) {
            Some(x) => {
                self.selected = Some(x);
                true
            },
            None => false,
        }
    }

    /// Focuses a symbol that an editor asks for: its node is pinned and
    /// selected, and the viewport returns to the origin. Without a location
    /// the one node of that name and kind is reused; several are ambiguous.
    pub fn focus_symbol(&mut self, identity: SymbolIdentity) -> (r: Result<NodeId, String>)
        requires
            old(self).well_formed(),
            old(self).graph.room(1, 0),
        ensures
            final(self).well_formed(),
            final(self).graph.nodes_used() <= old(self).graph.nodes_used() + 1,
            final(self).graph.edges_used() == old(self).graph.edges_used(),
            focused(old(self).graph@, final(self).graph@, identity@, result_view(r)),
            kept(*old(self), *final(self)),
            match r {
                Ok(id) => {
                    &&& final(self).selected == Some(id)
                    &&& final(self).viewport.offset_x == 0
                    &&& final(self).viewport.offset_y == 0
                    &&& unnoticed(*old(self), *final(self))
                },
                Err(_) => {
                    &&& final(self).selected == old(self).selected
                    &&& final(self).viewport == old(self).viewport
                    &&& quiet(*old(self), *final(self))
                },
            },
    {
        let symbol_text = trim(identity.symbol.as_str());
        if symbol_text.unicode_len() == 0 {
            return Err("symbol must not be empty".to_string());
        }
        let has_location = match &identity.location {
            Some(location) => {
                if !location_usable(location) {
                    return Err("location must contain a file URI and exact zero-based line/character".to_string());
                }
                true
            },
            None => false,
        };
        let node_id = if has_location {
            self.graph.pin_symbol(identity)
        } else {
            let ghost m = self.graph@;
            let found = self.graph.nodes_named(identity.symbol.as_str(), identity.kind);
            proof {
                lemma_listed_set_len(found@, named_nodes(m, identity@.symbol, identity@.kind));
            }
            if found.len() == 0 {
                self.graph.pin_symbol(identity)
            } else if found.len() == 1 {
                let only = found[0];
                self.graph.pin(only);
                proof {
                    crate::relation::lemma_live_resolves(&self.graph, only.0);
                }
                only
            } else {
                let quoted = crate::text::debug_text(identity.symbol.as_str());
                let head = append_text("symbol ".to_string(), quoted.as_str());
                return Err(append_text(head, " is ambiguous; include an exact source location"));
            }
        };
        self.selected = Some(node_id);
        self.viewport = Viewport::default();
        self.clear_canvas_notice();
        Ok(node_id)
    }
}

/// Whether a location can be opened exactly.
fn location_usable(location: &crate::state::SourceLocation) -> (r: bool)
    ensures
        r == !location_unusable(location@),
{
    let uri = crate::text::chars_of(location.uri.as_str());
    let scheme = crate::text::chars_of("file://");
    proof {
        reveal_strlit("file://");
    }
    if !crate::text::starts_with(uri.as_slice(), scheme.as_slice()) || uri.len() == 7 {
        return false;
    }
    let mut i: usize = 0;
    while i < uri.len()
        invariant
            i <= uri@.len(),
            uri@ == location@.uri,
            forall|j: int| 0 <= j < i ==> !char_is_control(#[trigger] uri@[j]),
        decreases uri@.len() - i,
    {
        if is_control(uri[i]) {
            assert(char_is_control(location@.uri[i as int]));
            return false;
        }
        i = i + 1;
    }
    location.line.is_some() && location.character.is_some()
}

} // verus!
