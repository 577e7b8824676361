//! Work-done progress from a language server, collapsed into the one status
//! update that is most useful now.
use vstd::prelude::*;

use crate::text::str_eq;

verus! {

/// A status event of the language server, apart from request results.
#[derive(Clone, Debug, PartialEq, Eq)]
pub enum LspStatusUpdate {
    Ready { message: Option<String> },
    Progress { title: String, message: Option<String>, percentage: Option<u32> },
    Warning(String),
    Error(String),
    Disconnected(String),
    Diagnostic(String),
}

/// The token by which the server names one task.
#[derive(Clone, Debug, PartialEq, Eq)]
pub enum ProgressToken {
    Number(i32),
    Text(String),
}

/// A token with its text taken as characters.
pub enum TokenView {
    Number(i32),
    Text(Seq<char>),
}

impl View for ProgressToken {
    type V = TokenView;

    open spec fn view(&self) -> TokenView {
        match self {
            ProgressToken::Number(n) => TokenView::Number(*n),
            ProgressToken::Text(s) => TokenView::Text(s@),
        }
    }
}

/// One work-done notification.
#[derive(Clone, Debug, PartialEq, Eq)]
pub enum WorkDone {
    Begin { title: String, message: Option<String>, percentage: Option<u32> },
    Report { message: Option<String>, percentage: Option<u32> },
    End { message: Option<String> },
}

/// A task that began and has not ended.
#[derive(Clone, Debug)]
pub struct ActiveProgress {
    pub sequence: u64,
    pub title: String,
    pub message: Option<String>,
    pub percentage: Option<u32>,
}

/// The tasks in flight, each under its token, with the counter that orders
/// their notifications.
#[derive(Debug)]
pub struct LspProgressTracker {
    next_sequence: u64,
    active: Vec<(ProgressToken, ActiveProgress)>,
}

/// The view of an optional text.
pub open spec fn opt_view(t: Option<String>) -> Option<Seq<char>> {
    match t {
        Some(s) => Some(s@),
        None => None,
    }
}

/// A task as plain values: sequence, title, message, percentage.
pub type TaskView = (u64, Seq<char>, Option<Seq<char>>, Option<u32>);

/// The view of a task.
pub open spec fn task_view(p: ActiveProgress) -> TaskView {
    (p.sequence, p.title@, opt_view(p.message), p.percentage)
}

/// A status update as plain values, for contracts.
pub enum UpdateView {
    Ready(Option<Seq<char>>),
    Progress(Seq<char>, Option<Seq<char>>, Option<u32>),
    Warning(Seq<char>),
    Error(Seq<char>),
    Disconnected(Seq<char>),
    Diagnostic(Seq<char>),
}

impl View for LspStatusUpdate {
    type V = UpdateView;

    open spec fn view(&self) -> UpdateView {
        match self {
            LspStatusUpdate::Ready { message } => UpdateView::Ready(opt_view(*message)),
            LspStatusUpdate::Progress { title, message, percentage } => UpdateView::Progress(
                title@,
                opt_view(*message),
                *percentage,
            ),
            LspStatusUpdate::Warning(m) => UpdateView::Warning(m@),
            LspStatusUpdate::Error(m) => UpdateView::Error(m@),
            LspStatusUpdate::Disconnected(m) => UpdateView::Disconnected(m@),
            LspStatusUpdate::Diagnostic(m) => UpdateView::Diagnostic(m@),
        }
    }
}

/// The view of an optional update.
pub open spec fn update_view(u: Option<LspStatusUpdate>) -> Option<UpdateView> {
    match u {
        Some(x) => Some(x@),
        None => None,
    }
}

/// The tracker as plain values: the counter and the tasks in order.
pub struct TrackerView {
    pub next_sequence: u64,
    pub tasks: Seq<(TokenView, TaskView)>,
}

impl View for LspProgressTracker {
    type V = TrackerView;

    closed spec fn view(&self) -> TrackerView {
        TrackerView {
            next_sequence: self.next_sequence,
            tasks: self.active@.map_values(|e: (ProgressToken, ActiveProgress)| (e.0@, task_view(e.1))),
        }
    }
}

/// Each token names at most one task.
pub open spec fn tokens_unique(tasks: Seq<(TokenView, TaskView)>) -> bool {
    forall|i: int, j: int| 0 <= i < tasks.len() && 0 <= j < tasks.len() && #[trigger] tasks[i].0 == #[trigger] tasks[j].0 ==> i == j
}

/// Task `i` is that of `token`.
pub open spec fn token_at(tasks: Seq<(TokenView, TaskView)>, i: int, token: TokenView) -> bool {
    0 <= i < tasks.len() && tasks[i].0 == token
}

/// Where the task of a token is.
pub open spec fn task_index(tasks: Seq<(TokenView, TaskView)>, token: TokenView) -> Option<int> {
    if exists|i: int| #[trigger] token_at(tasks, i, token) {
        Some(choose|i: int| #[trigger] token_at(tasks, i, token))
    } else {
        None
    }
}

/// The task that was touched last: the first of those with the highest
/// sequence.
pub open spec fn latest_index(tasks: Seq<(TokenView, TaskView)>, i: int) -> bool {
    &&& 0 <= i < tasks.len()
    &&& forall|j: int| 0 <= j < tasks.len() ==> (#[trigger] tasks[j]).1.0 <= tasks[i].1.0
    &&& forall|j: int| 0 <= j < i ==> (#[trigger] tasks[j]).1.0 < tasks[i].1.0
}

/// The update that reports the latest task, if there is a task.
pub open spec fn latest_update(tasks: Seq<(TokenView, TaskView)>) -> Option<UpdateView> {
    if tasks.len() == 0 {
        None
    } else {
        let i = choose|i: int| latest_index(tasks, i);
        Some(UpdateView::Progress(tasks[i].1.1, tasks[i].1.2, tasks[i].1.3))
    }
}

/// Whether two tokens are the same.
pub fn same_token(a: &ProgressToken, b: &ProgressToken) -> (r: bool)
    ensures
        r == (a@ == b@),
{
    match (a, b) {
        (ProgressToken::Number(x), ProgressToken::Number(y)) => *x == *y,
        (ProgressToken::Text(x), ProgressToken::Text(y)) => str_eq(x.as_str(), y.as_str()),
        _ => false,
    }
}

/// A copy of an optional text.
fn copy_text(t: &Option<String>) -> (r: Option<String>)
    ensures
        opt_view(r) == opt_view(*t),
{
    match t {
        Some(s) => Some(s.clone()),
        None => None,
    }
}

impl LspProgressTracker {
    /// No task in flight.
    pub fn new() -> (r: Self)
        ensures
            r@.tasks.len() == 0,
            r@.next_sequence == 0,
    {
        LspProgressTracker { next_sequence: 0, active: Vec::new() }
    }

    /// The tracker's invariant: tokens are unique.
    pub closed spec fn well_formed(&self) -> bool {
        tokens_unique(self@.tasks)
    }

    fn find(&self, token: &ProgressToken) -> (r: Option<usize>)
        ensures
            match r {
                Some(i) => token_at(self@.tasks, i as int, token@),
                None => forall|i: int| !#[trigger] token_at(self@.tasks, i, token@),
            },
    {
        let mut i: usize = 0;
        while i < self.active.len()
            invariant
                i <= self.active@.len(),
                forall|j: int| j < i ==> !#[trigger] token_at(self@.tasks, j, token@),
            decreases self.active@.len() - i,
        {
            if same_token(&self.active[i].0, token) {
                assert(token_at(self@.tasks, i as int, token@));
                return Some(i);
            }
            assert(!token_at(self@.tasks, i as int, token@));
            i = i + 1;
        }
        None
    }

    /// The update that reports the task touched last, if any task is in
    /// flight.
    pub fn emit_latest(&self) -> (r: Option<LspStatusUpdate>)
        ensures
            update_view(r) == latest_update(self@.tasks),
    {
        if self.active.len() == 0 {
            return None;
        }
        let mut best: usize = 0;
        let mut i: usize = 1;
        while i < self.active.len()
            invariant
                1 <= i <= self.active@.len(),
                best < i,
                forall|j: int| 0 <= j < i ==> (#[trigger] self@.tasks[j]).1.0 <= self@.tasks[best as int].1.0,
                forall|j: int| 0 <= j < best ==> (#[trigger] self@.tasks[j]).1.0 < self@.tasks[best as int].1.0,
            decreases self.active@.len() - i,
        {
            if self.active[i].1.sequence > self.active[best].1.sequence {
                best = i;
            }
            i = i + 1;
        }
        let p = &self.active[best].1;
        proof {
            let tasks = self@.tasks;
            assert(latest_index(tasks, best as int));
            let c = choose|c: int| latest_index(tasks, c);
            if c < best {
                assert(tasks[c].1.0 < tasks[best as int].1.0);
            }
            if c > best {
                assert(tasks[best as int].1.0 < tasks[c].1.0);
            }
        }
        Some(LspStatusUpdate::Progress {
            title: p.title.clone(),
            message: copy_text(&p.message),
            percentage: p.percentage,
        })
    }
}

/// The tasks after a notification for `token` under sequence `seq`.
pub open spec fn tasks_after(tasks: Seq<(TokenView, TaskView)>, token: TokenView, seq: u64, w: WorkDoneView) -> Seq<(TokenView, TaskView)> {
    match w {
        WorkDoneView::Begin(title, message, percentage) => match task_index(tasks, token) {
            Some(i) => tasks.update(i, (token, (seq, title, message, percentage))),
            None => tasks.push((token, (seq, title, message, percentage))),
        },
        WorkDoneView::Report(message, percentage) => match task_index(tasks, token) {
            Some(i) => tasks.update(
                i,
                (
                    token,
                    (
                        seq,
                        tasks[i].1.1,
                        if message is Some { message } else { tasks[i].1.2 },
                        if percentage is Some { percentage } else { tasks[i].1.3 },
                    ),
                ),
            ),
            None => tasks,
        },
        WorkDoneView::End(_) => match task_index(tasks, token) {
            Some(i) => tasks.remove(i),
            None => tasks,
        },
    }
}

/// A notification as plain values.
pub enum WorkDoneView {
    Begin(Seq<char>, Option<Seq<char>>, Option<u32>),
    Report(Option<Seq<char>>, Option<u32>),
    End(Option<Seq<char>>),
}

impl View for WorkDone {
    type V = WorkDoneView;

    open spec fn view(&self) -> WorkDoneView {
        match self {
            WorkDone::Begin { title, message, percentage } => WorkDoneView::Begin(
                title@,
                opt_view(*message),
                *percentage,
            ),
            WorkDone::Report { message, percentage } => WorkDoneView::Report(
                opt_view(*message),
                *percentage,
            ),
            WorkDone::End { message } => WorkDoneView::End(opt_view(*message)),
        }
    }
}

/// What a notification makes the tracker report: the latest task after a
/// begin or a report of a known task, the latest task or readiness after an
/// end, nothing after a report of an unknown task.
pub open spec fn update_after(tasks: Seq<(TokenView, TaskView)>, token: TokenView, tasks2: Seq<(TokenView, TaskView)>, w: WorkDoneView) -> Option<UpdateView> {
    match w {
        WorkDoneView::Begin(..) => latest_update(tasks2),
        WorkDoneView::Report(..) => if task_index(tasks, token) is Some {
            latest_update(tasks2)
        } else {
            None
        },
        WorkDoneView::End(message) => if tasks2.len() > 0 {
            latest_update(tasks2)
        } else {
            Some(UpdateView::Ready(message))
        },
    }
}

impl LspProgressTracker {
    /// Records a work-done notification and returns the update to report.
    pub fn update(&mut self, token: ProgressToken, progress: WorkDone) -> (r: Option<LspStatusUpdate>)
        requires
            old(self).well_formed(),
        ensures
            final(self).well_formed(),
            final(self)@.next_sequence == old(self)@.next_sequence.wrapping_add(1),
            final(self)@.tasks == tasks_after(
                old(self)@.tasks,
                token@,
                final(self)@.next_sequence,
                progress@,
            ),
            update_view(r) == update_after(old(self)@.tasks, token@, final(self)@.tasks, progress@),
    {
        let ghost tasks0 = self@.tasks;
        let ghost token_view = token@;
        self.next_sequence = self.next_sequence.wrapping_add(1);
        let seq = self.next_sequence;
        let found = self.find(&token);
        proof {
            assert(self@.tasks == tasks0);
            assert(token@ == token_view);
            match found {
                Some(i) => {
                    assert(task_index(tasks0, token_view) == Some(i as int)) by {
                        let c = choose|c: int| #[trigger] token_at(tasks0, c, token_view);
                        assert(tasks0[c].0 == tasks0[i as int].0);
                    }
                },
                None => {
                    assert(task_index(tasks0, token_view) is None);
                },
            }
        }
        match progress {
            WorkDone::Begin { title, message, percentage } => {
                let entry = ActiveProgress { sequence: seq, title, message, percentage };
                match found {
                    Some(i) => {
                        self.active.set(i, (token, entry));
                        proof {
                            assert(self@.tasks =~= tasks0.update(i as int, (token_view, task_view(entry))));
                            assert forall|a: int, b: int|
                                0 <= a < self@.tasks.len() && 0 <= b < self@.tasks.len() && #[trigger] self@.tasks[a].0
                                    == #[trigger] self@.tasks[b].0 implies a == b by {
                                assert(self@.tasks[a].0 == tasks0[a].0);
                                assert(self@.tasks[b].0 == tasks0[b].0);
                            }
                        }
                    },
                    None => {
                        self.active.push((token, entry));
                        proof {
                            assert(self@.tasks =~= tasks0.push((token_view, task_view(entry))));
                            assert forall|a: int, b: int|
                                0 <= a < self@.tasks.len() && 0 <= b < self@.tasks.len() && #[trigger] self@.tasks[a].0
                                    == #[trigger] self@.tasks[b].0 implies a == b by {
                                if a < tasks0.len() {
                                    assert(self@.tasks[a] == tasks0[a]);
                                    assert(!token_at(tasks0, a, token_view));
                                }
                                if b < tasks0.len() {
                                    assert(self@.tasks[b] == tasks0[b]);
                                    assert(!token_at(tasks0, b, token_view));
                                }
                            }
                        }
                    },
                }
                self.emit_latest()
            },
            WorkDone::Report { message, percentage } => {
                match found {
                    Some(i) => {
                        let ghost before = self@.tasks;
                        let (t, mut entry) = self.active.remove(i);
                        entry.sequence = seq;
                        if message.is_some() {
                            entry.message = message;
                        }
                        if percentage.is_some() {
                            entry.percentage = percentage;
                        }
                        self.active.insert(i, (t, entry));
                        proof {
                            assert(self@.tasks =~= tasks0.update(
                                i as int,
                                (
                                    token_view,
                                    (
                                        seq,
                                        tasks0[i as int].1.1,
                                        if opt_view(message) is Some { opt_view(message) } else { tasks0[i as int].1.2 },
                                        if percentage is Some { percentage } else { tasks0[i as int].1.3 },
                                    ),
                                ),
                            ));
                            assert forall|a: int, b: int|
                                0 <= a < self@.tasks.len() && 0 <= b < self@.tasks.len() && #[trigger] self@.tasks[a].0
                                    == #[trigger] self@.tasks[b].0 implies a == b by {
                                assert(self@.tasks[a].0 == tasks0[a].0);
                                assert(self@.tasks[b].0 == tasks0[b].0);
                            }
                        }
                        self.emit_latest()
                    },
                    None => None,
                }
            },
            WorkDone::End { message } => {
                match found {
                    Some(i) => {
                        self.active.remove(i);
                        proof {
                            assert(self@.tasks =~= tasks0.remove(i as int));
                            assert forall|a: int, b: int|
                                0 <= a < self@.tasks.len() && 0 <= b < self@.tasks.len() && #[trigger] self@.tasks[a].0
                                    == #[trigger] self@.tasks[b].0 implies a == b by {
                                let a0 = if a < i { a } else { a + 1 };
                                let b0 = if b < i { b } else { b + 1 };
                                assert(self@.tasks[a] == tasks0[a0]);
                                assert(self@.tasks[b] == tasks0[b0]);
                            }
                        }
                    },
                    None => {},
                }
                match self.emit_latest() {
                    Some(u) => Some(u),
                    None => Some(LspStatusUpdate::Ready { message }),
                }
            },
        }
    }

    /// What a server-status notification makes the tracker report: a
    /// warning or an error as the server words it, else the latest task,
    /// else readiness when the server is quiescent or background work when
    /// it is not.
    pub fn server_status(&self, health: Option<&str>, quiescent: Option<bool>, message: Option<String>) -> (r: LspStatusUpdate)
        ensures
            ({
                let h = match health {
                    Some(x) => x@,
                    None => "ok"@,
                };
                if h == "warning"@ {
                    r@ == UpdateView::Warning(match message {
                        Some(m) => m@,
                        None => "Language server reported a warning"@,
                    })
                } else if h == "error"@ {
                    r@ == UpdateView::Error(match message {
                        Some(m) => m@,
                        None => "Language server reported an error"@,
                    })
                } else if self@.tasks.len() > 0 {
                    Some(r@) == latest_update(self@.tasks)
                } else if quiescent == Some(true) {
                    r@ == UpdateView::Ready(opt_view(message))
                } else {
                    r@ == UpdateView::Progress(
                        "rust-analyzer"@,
                        Some(match message {
                            Some(m) => m@,
                            None => "Background work in progress"@,
                        }),
                        None,
                    )
                }
            }),
    {
        let h = match health {
            Some(x) => x,
            None => "ok",
        };
        if str_eq(h, "warning") {
            return LspStatusUpdate::Warning(match message {
                Some(m) => m,
                None => "Language server reported a warning".to_string(),
            });
        }
        if str_eq(h, "error") {
            return LspStatusUpdate::Error(match message {
                Some(m) => m,
                None => "Language server reported an error".to_string(),
            });
        }
        match self.emit_latest() {
            Some(u) => {
                return u;
            },
            None => {},
        }
        if quiescent == Some(true) {
            LspStatusUpdate::Ready { message }
        } else {
            LspStatusUpdate::Progress {
                title: "rust-analyzer".to_string(),
                message: Some(match message {
                    Some(m) => m,
                    None => "Background work in progress".to_string(),
                }),
                percentage: None,
            }
        }
    }
}

} // verus!
