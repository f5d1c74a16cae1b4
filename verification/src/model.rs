//! Application state for the TUI: focus cycling, run state, activity feed,
//! the artifact / workspace / git / diff-preview panes, task output, and the
//! session / task / composer-draft selection logic.

use vstd::prelude::*;

verus! {

// ---------------------------------------------------------------------------
// Focus
// ---------------------------------------------------------------------------

#[derive(Debug, Clone, Copy, PartialEq, Eq, Structural)]
pub enum FocusPane {
    Sessions,
    Tasks,
    Artifacts,
    Transcript,
    Workspace,
    Git,
    Composer,
}

/// The pane that follows `f` in the focus cycle.
pub open spec fn focus_after(f: FocusPane) -> FocusPane {
    match f {
        FocusPane::Sessions => FocusPane::Tasks,
        FocusPane::Tasks => FocusPane::Artifacts,
        FocusPane::Artifacts => FocusPane::Transcript,
        FocusPane::Transcript => FocusPane::Workspace,
        FocusPane::Workspace => FocusPane::Git,
        FocusPane::Git => FocusPane::Composer,
        FocusPane::Composer => FocusPane::Sessions,
    }
}

/// `f` advanced `n` times through the focus cycle.
pub open spec fn focus_advance(f: FocusPane, n: nat) -> FocusPane
    decreases n,
{
    if n == 0 {
        f
    } else {
        focus_advance(focus_after(f), (n - 1) as nat)
    }
}

impl FocusPane {
    pub fn next(self) -> (r: Self)
        ensures
            r == focus_after(self),
    {
        match self {
            Self::Sessions => Self::Tasks,
            Self::Tasks => Self::Artifacts,
            Self::Artifacts => Self::Transcript,
            Self::Transcript => Self::Workspace,
            Self::Workspace => Self::Git,
            Self::Git => Self::Composer,
            Self::Composer => Self::Sessions,
        }
    }
}

/// Seven steps of the focus cycle visit every pane once and return to the
/// starting pane.
pub proof fn law_focus_cycle_returns(f: FocusPane)
    ensures
        focus_advance(f, 7) == f,
        forall|i: nat, j: nat| i < j < 7 ==> focus_advance(f, i) != focus_advance(f, j),
{
    reveal_with_fuel(focus_advance, 8);
}

// ---------------------------------------------------------------------------
// Run state
// ---------------------------------------------------------------------------

#[derive(Debug, Clone, PartialEq, Eq)]
pub enum SessionRunState {
    Idle,
    InProgress,
    Blocked { message: String },
    Success,
    Error { message: String },
}

impl SessionRunState {
    pub fn label(&self) -> (s: &'static str)
        ensures
            s@ == match self {
                SessionRunState::Idle => "idle"@,
                SessionRunState::InProgress => "running"@,
                SessionRunState::Blocked { .. } => "blocked"@,
                SessionRunState::Success => "done"@,
                SessionRunState::Error { .. } => "error"@,
            },
    {
        match self {
            Self::Idle => "idle",
            Self::InProgress => "running",
            Self::Blocked { .. } => "blocked",
            Self::Success => "done",
            Self::Error { .. } => "error",
        }
    }

    pub fn detail(&self) -> (d: Option<&str>)
        ensures
            match self {
                SessionRunState::Blocked { message } => d matches Some(m) && m@ == message@,
                SessionRunState::Error { message } => d matches Some(m) && m@ == message@,
                _ => d is None,
            },
    {
        match self {
            Self::Blocked { message } => Some(message.as_str()),
            Self::Error { message } => Some(message.as_str()),
            Self::Idle | Self::InProgress | Self::Success => None,
        }
    }
}

impl Default for SessionRunState {
    fn default() -> (s: Self)
        ensures
            s is Idle,
    {
        Self::Idle
    }
}

// ---------------------------------------------------------------------------
// Activity kinds and approval actions
// ---------------------------------------------------------------------------

#[derive(Debug, Clone, Copy, PartialEq, Eq, Structural)]
pub enum ActivityKind {
    Tool,
    Progress,
    Approval,
    Warning,
    Error,
}

impl ActivityKind {
    pub fn label(self) -> (s: &'static str)
        ensures
            s@ == match self {
                ActivityKind::Tool => "tool"@,
                ActivityKind::Progress => "progress"@,
                ActivityKind::Approval => "approval"@,
                ActivityKind::Warning => "warning"@,
                ActivityKind::Error => "error"@,
            },
    {
        match self {
            Self::Tool => "tool",
            Self::Progress => "progress",
            Self::Approval => "approval",
            Self::Warning => "warning",
            Self::Error => "error",
        }
    }
}

/// A decision sent back for a pending approval.
#[derive(Debug, Clone, Copy, PartialEq, Eq, Structural)]
pub enum ApprovalDecision {
    Approve,
    Deny,
}

/// The approval-scope strings of the UI protocol.
pub const APPROVAL_SCOPE_REQUEST: &'static str = "request";
pub const APPROVAL_SCOPE_SESSION: &'static str = "session";

#[derive(Debug, Clone, Copy, PartialEq, Eq, Structural)]
pub enum ApprovalModalAction {
    ApproveRequest,
    ApproveSession,
    DenyRequest,
}

impl ApprovalModalAction {
    pub fn decision(self) -> (d: ApprovalDecision)
        ensures
            d == (match self {
                ApprovalModalAction::DenyRequest => ApprovalDecision::Deny,
                _ => ApprovalDecision::Approve,
            }),
    {
        match self {
            Self::ApproveRequest | Self::ApproveSession => ApprovalDecision::Approve,
            Self::DenyRequest => ApprovalDecision::Deny,
        }
    }

    pub fn approval_scope(self) -> (s: &'static str)
        ensures
            s@ == match self {
                ApprovalModalAction::ApproveSession => "session"@,
                _ => "request"@,
            },
    {
        match self {
            Self::ApproveRequest | Self::DenyRequest => APPROVAL_SCOPE_REQUEST,
            Self::ApproveSession => APPROVAL_SCOPE_SESSION,
        }
    }

    pub fn status_label(self) -> (s: &'static str)
        ensures
            s@ == match self {
                ApprovalModalAction::ApproveRequest => "approved for this request"@,
                ApprovalModalAction::ApproveSession => "approved for this session"@,
                ApprovalModalAction::DenyRequest => "denied"@,
            },
    {
        match self {
            Self::ApproveRequest => "approved for this request",
            Self::ApproveSession => "approved for this session",
            Self::DenyRequest => "denied",
        }
    }
}

// ---------------------------------------------------------------------------
// Cyclic selection
// ---------------------------------------------------------------------------

/// The index after `sel` in a list of `len` entries, wrapping to the start.
pub open spec fn cyclic_next(sel: int, len: int) -> int {
    (sel + 1) % len
}

/// The index before `sel` in a list of `len` entries, wrapping to the end.
pub open spec fn cyclic_prev(sel: int, len: int) -> int {
    if sel == 0 {
        len - 1
    } else {
        sel - 1
    }
}

/// Moving the selection forward then back (or back then forward) returns to
/// the same entry, and both moves stay within the list.
pub proof fn law_cyclic_selection_round_trip(sel: int, len: int)
    requires
        0 <= sel < len,
    ensures
        0 <= cyclic_next(sel, len) < len,
        0 <= cyclic_prev(sel, len) < len,
        cyclic_prev(cyclic_next(sel, len), len) == sel,
        cyclic_next(cyclic_prev(sel, len), len) == sel,
{
    lemma_cyclic_next_value(sel, len);
    lemma_cyclic_next_value(cyclic_prev(sel, len), len);
}

proof fn law_cyclic_selection_bounds(sel: int, len: int)
    requires
        0 <= sel,
        0 < len,
    ensures
        0 <= cyclic_next(sel, len) < len,
{
}

proof fn lemma_cyclic_next_value(sel: int, len: int)
    requires
        0 <= sel < len,
    ensures
        cyclic_next(sel, len) == if sel + 1 == len { 0 } else { sel + 1 },
{
    if sel + 1 == len {
        vstd::arithmetic::div_mod::lemma_mod_self_0(len);
    } else {
        vstd::arithmetic::div_mod::lemma_small_mod((sel + 1) as nat, len as nat);
    }
}

/// Scrolling down by `n` then up by `n` restores a top-origin scroll offset
/// whenever the first move did not saturate.
pub proof fn law_scroll_round_trip(scroll: usize, n: usize)
    requires
        scroll + n <= usize::MAX,
    ensures
        (scroll.saturating_add(n)).saturating_sub(n) == scroll,
        scroll >= n ==> (scroll.saturating_sub(n)).saturating_add(n) == scroll,
{
}

// ---------------------------------------------------------------------------
// Artifact pane
// ---------------------------------------------------------------------------

#[derive(Debug, PartialEq, Eq)]
pub struct ArtifactItem {
    pub title: String,
    pub kind: String,
    pub source: String,
    pub status: String,
}

/// The text of an artifact row.
pub struct ArtifactItemView {
    pub title: Seq<char>,
    pub kind: Seq<char>,
    pub source: Seq<char>,
    pub status: Seq<char>,
}

impl View for ArtifactItem {
    type V = ArtifactItemView;

    open spec fn view(&self) -> ArtifactItemView {
        ArtifactItemView {
            title: self.title@,
            kind: self.kind@,
            source: self.source@,
            status: self.status@,
        }
    }
}

impl Clone for ArtifactItem {
    fn clone(&self) -> (r: Self)
        ensures
            r == *self,
    {
        ArtifactItem {
            title: self.title.clone(),
            kind: self.kind.clone(),
            source: self.source.clone(),
            status: self.status.clone(),
        }
    }
}

#[derive(Debug, Clone, PartialEq, Eq)]
pub struct ArtifactPaneState {
    pub items: Vec<ArtifactItem>,
    pub selected: usize,
}

impl Default for ArtifactPaneState {
    fn default() -> (s: Self)
        ensures
            s.items@.len() == 0,
            s.selected == 0,
    {
        ArtifactPaneState { items: Vec::new(), selected: 0 }
    }
}

impl ArtifactPaneState {
    pub fn select_next(&mut self)
        requires
            old(self).items@.len() == 0 || old(self).selected < usize::MAX,
        ensures
            final(self).items == old(self).items,
            final(self).selected == if old(self).items@.len() == 0 {
                old(self).selected as int
            } else {
                cyclic_next(old(self).selected as int, old(self).items@.len() as int)
            },
    {
        if self.items.len() == 0 {
            return;
        }
        self.selected = (self.selected + 1) % self.items.len();
    }

    pub fn select_prev(&mut self)
        ensures
            final(self).items == old(self).items,
            final(self).selected == if old(self).items@.len() == 0 {
                old(self).selected as int
            } else {
                cyclic_prev(old(self).selected as int, old(self).items@.len() as int)
            },
    {
        if self.items.len() == 0 {
            return;
        }
        if self.selected == 0 {
            self.selected = self.items.len() - 1;
        } else {
            self.selected = self.selected - 1;
        }
    }
}

// ---------------------------------------------------------------------------
// Workspace pane
// ---------------------------------------------------------------------------

#[derive(Debug, PartialEq, Eq)]
pub struct WorkspaceEntry {
    pub depth: usize,
    pub label: String,
    pub detail: String,
}

/// The text of a workspace row.
pub struct WorkspaceEntryView {
    pub depth: usize,
    pub label: Seq<char>,
    pub detail: Seq<char>,
}

impl View for WorkspaceEntry {
    type V = WorkspaceEntryView;

    open spec fn view(&self) -> WorkspaceEntryView {
        WorkspaceEntryView { depth: self.depth, label: self.label@, detail: self.detail@ }
    }
}

impl Clone for WorkspaceEntry {
    fn clone(&self) -> (r: Self)
        ensures
            r == *self,
    {
        WorkspaceEntry { depth: self.depth, label: self.label.clone(), detail: self.detail.clone() }
    }
}

#[derive(Debug, Clone, PartialEq, Eq)]
pub struct WorkspacePaneState {
    pub root: String,
    pub contract: Vec<String>,
    pub entries: Vec<WorkspaceEntry>,
    pub selected: usize,
    pub scroll: usize,
}

impl Default for WorkspacePaneState {
    fn default() -> (s: Self)
        ensures
            s.root@.len() == 0,
            s.contract@.len() == 0,
            s.entries@.len() == 0,
            s.selected == 0,
            s.scroll == 0,
    {
        WorkspacePaneState {
            root: String::new(),
            contract: Vec::new(),
            entries: Vec::new(),
            selected: 0,
            scroll: 0,
        }
    }
}

impl WorkspacePaneState {
    pub fn select_next(&mut self)
        requires
            old(self).entries@.len() == 0 || old(self).selected < usize::MAX,
        ensures
            final(self).root == old(self).root,
            final(self).contract == old(self).contract,
            final(self).entries == old(self).entries,
            old(self).entries@.len() == 0 ==> *final(self) == *old(self),
            old(self).entries@.len() > 0 ==> final(self).selected == cyclic_next(
                old(self).selected as int,
                old(self).entries@.len() as int,
            ) && final(self).scroll == final(self).selected.saturating_sub(4),
    {
        if self.entries.len() == 0 {
            return;
        }
        self.selected = (self.selected + 1) % self.entries.len();
        self.scroll = self.selected.saturating_sub(4);
    }

    pub fn select_prev(&mut self)
        ensures
            final(self).root == old(self).root,
            final(self).contract == old(self).contract,
            final(self).entries == old(self).entries,
            old(self).entries@.len() == 0 ==> *final(self) == *old(self),
            old(self).entries@.len() > 0 ==> final(self).selected == cyclic_prev(
                old(self).selected as int,
                old(self).entries@.len() as int,
            ) && final(self).scroll == final(self).selected.saturating_sub(4),
    {
        if self.entries.len() == 0 {
            return;
        }
        if self.selected == 0 {
            self.selected = self.entries.len() - 1;
        } else {
            self.selected = self.selected - 1;
        }
        self.scroll = self.selected.saturating_sub(4);
    }

    pub fn scroll_up(&mut self, lines: usize)
        ensures
            *final(self) == (WorkspacePaneState {
                scroll: old(self).scroll.saturating_sub(lines),
                ..*old(self)
            }),
    {
        self.scroll = self.scroll.saturating_sub(lines);
    }

    pub fn scroll_down(&mut self, lines: usize)
        ensures
            *final(self) == (WorkspacePaneState {
                scroll: old(self).scroll.saturating_add(lines),
                ..*old(self)
            }),
    {
        self.scroll = self.scroll.saturating_add(lines);
    }
}

// ---------------------------------------------------------------------------
// Git pane
// ---------------------------------------------------------------------------

#[derive(Debug, PartialEq, Eq)]
pub struct GitStatusItem {
    pub code: String,
    pub path: String,
    pub detail: String,
}

/// The text of a git status row.
pub struct GitStatusView {
    pub code: Seq<char>,
    pub path: Seq<char>,
    pub detail: Seq<char>,
}

impl View for GitStatusItem {
    type V = GitStatusView;

    open spec fn view(&self) -> GitStatusView {
        GitStatusView { code: self.code@, path: self.path@, detail: self.detail@ }
    }
}

impl Clone for GitStatusItem {
    fn clone(&self) -> (r: Self)
        ensures
            r == *self,
    {
        GitStatusItem { code: self.code.clone(), path: self.path.clone(), detail: self.detail.clone() }
    }
}

#[derive(Debug, PartialEq, Eq)]
pub struct GitHistoryItem {
    pub commit: String,
    pub summary: String,
}

/// The text of a git history row.
pub struct GitHistoryView {
    pub commit: Seq<char>,
    pub summary: Seq<char>,
}

impl View for GitHistoryItem {
    type V = GitHistoryView;

    open spec fn view(&self) -> GitHistoryView {
        GitHistoryView { commit: self.commit@, summary: self.summary@ }
    }
}

impl Clone for GitHistoryItem {
    fn clone(&self) -> (r: Self)
        ensures
            r == *self,
    {
        GitHistoryItem { commit: self.commit.clone(), summary: self.summary.clone() }
    }
}

#[derive(Debug, Clone, PartialEq, Eq)]
pub struct GitPaneState {
    pub branch: String,
    pub head: Option<String>,
    pub status: Vec<GitStatusItem>,
    pub history: Vec<GitHistoryItem>,
    pub selected: usize,
    pub scroll: usize,
}

impl Default for GitPaneState {
    fn default() -> (s: Self)
        ensures
            s.branch@.len() == 0,
            s.head is None,
            s.status@.len() == 0,
            s.history@.len() == 0,
            s.selected == 0,
            s.scroll == 0,
    {
        GitPaneState {
            branch: String::new(),
            head: None,
            status: Vec::new(),
            history: Vec::new(),
            selected: 0,
            scroll: 0,
        }
    }
}

impl GitPaneState {
    /// Number of selectable rows: status entries then history entries.
    pub open spec fn selectable_len_spec(&self) -> int {
        (self.status@.len() + self.history@.len()) as int
    }

    pub fn selectable_len(&self) -> (n: usize)
        requires
            self.selectable_len_spec() <= usize::MAX,
        ensures
            n == self.selectable_len_spec(),
    {
        self.status.len() + self.history.len()
    }

    pub fn select_next(&mut self)
        requires
            old(self).selectable_len_spec() <= usize::MAX,
            old(self).selectable_len_spec() == 0 || old(self).selected < usize::MAX,
        ensures
            final(self).branch == old(self).branch,
            final(self).head == old(self).head,
            final(self).status == old(self).status,
            final(self).history == old(self).history,
            old(self).selectable_len_spec() == 0 ==> *final(self) == *old(self),
            old(self).selectable_len_spec() > 0 ==> final(self).selected == cyclic_next(
                old(self).selected as int,
                old(self).selectable_len_spec(),
            ) && final(self).scroll == final(self).selected.saturating_sub(4),
    {
        let len = self.selectable_len();
        if len == 0 {
            return;
        }
        self.selected = (self.selected + 1) % len;
        self.scroll = self.selected.saturating_sub(4);
    }

    pub fn select_prev(&mut self)
        requires
            old(self).selectable_len_spec() <= usize::MAX,
        ensures
            final(self).branch == old(self).branch,
            final(self).head == old(self).head,
            final(self).status == old(self).status,
            final(self).history == old(self).history,
            old(self).selectable_len_spec() == 0 ==> *final(self) == *old(self),
            old(self).selectable_len_spec() > 0 ==> final(self).selected == cyclic_prev(
                old(self).selected as int,
                old(self).selectable_len_spec(),
            ) && final(self).scroll == final(self).selected.saturating_sub(4),
    {
        let len = self.selectable_len();
        if len == 0 {
            return;
        }
        if self.selected == 0 {
            self.selected = len - 1;
        } else {
            self.selected = self.selected - 1;
        }
        self.scroll = self.selected.saturating_sub(4);
    }

    pub fn scroll_up(&mut self, lines: usize)
        ensures
            *final(self) == (GitPaneState { scroll: old(self).scroll.saturating_sub(lines), ..*old(self) }),
    {
        self.scroll = self.scroll.saturating_sub(lines);
    }

    pub fn scroll_down(&mut self, lines: usize)
        ensures
            *final(self) == (GitPaneState { scroll: old(self).scroll.saturating_add(lines), ..*old(self) }),
    {
        self.scroll = self.scroll.saturating_add(lines);
    }
}

// ---------------------------------------------------------------------------
// Protocol identifiers and session data
// ---------------------------------------------------------------------------

/// A session identifier.
#[derive(Debug, PartialEq, Eq, Hash)]
pub struct SessionKey(pub String);

impl Clone for SessionKey {
    fn clone(&self) -> (r: Self)
        ensures
            r == *self,
    {
        SessionKey(self.0.clone())
    }
}

/// A task identifier.
#[derive(Debug, PartialEq, Eq, Hash)]
pub struct TaskId(pub String);

impl Clone for TaskId {
    fn clone(&self) -> (r: Self)
        ensures
            r == *self,
    {
        TaskId(self.0.clone())
    }
}

/// A turn identifier.
#[derive(Debug, PartialEq, Eq, Hash)]
pub struct TurnId(pub String);

impl Clone for TurnId {
    fn clone(&self) -> (r: Self)
        ensures
            r == *self,
    {
        TurnId(self.0.clone())
    }
}

/// A diff-preview identifier: a UUID in its canonical hyphenated lower-case
/// text form.
#[derive(Debug, PartialEq, Eq, Hash)]
pub struct PreviewId(pub String);

impl Clone for PreviewId {
    fn clone(&self) -> (r: Self)
        ensures
            r == *self,
    {
        PreviewId(self.0.clone())
    }
}

/// A position in a task's output stream.
#[derive(Debug, Clone, Copy, PartialEq, Eq)]
pub struct OutputCursor(pub u64);

/// Whether two identifiers name the same thing (their text is equal).
pub open spec fn same_key(a: SessionKey, b: SessionKey) -> bool {
    a.0@ == b.0@
}

pub open spec fn same_task(a: TaskId, b: TaskId) -> bool {
    a.0@ == b.0@
}

pub fn session_key_eq(a: &SessionKey, b: &SessionKey) -> (r: bool)
    ensures
        r == same_key(*a, *b),
{
    a.0 == b.0
}

pub fn task_id_eq(a: &TaskId, b: &TaskId) -> (r: bool)
    ensures
        r == same_task(*a, *b),
{
    a.0 == b.0
}

/// The author of a transcript message.
#[derive(Debug, Clone, Copy, PartialEq, Eq, Structural)]
pub enum MessageRole {
    System,
    User,
    Assistant,
    Tool,
}

/// One committed transcript message.
#[derive(Debug, PartialEq, Eq)]
pub struct Message {
    pub role: MessageRole,
    pub content: String,
}

impl Clone for Message {
    fn clone(&self) -> (r: Self)
        ensures
            r == *self,
    {
        Message { role: self.role, content: self.content.clone() }
    }
}

impl Message {
    pub fn system(content: &str) -> (m: Self)
        ensures
            m.role == MessageRole::System,
            m.content@ == content@,
    {
        Message { role: MessageRole::System, content: content.to_owned() }
    }

    pub fn user(content: &str) -> (m: Self)
        ensures
            m.role == MessageRole::User,
            m.content@ == content@,
    {
        Message { role: MessageRole::User, content: content.to_owned() }
    }

    pub fn assistant(content: &str) -> (m: Self)
        ensures
            m.role == MessageRole::Assistant,
            m.content@ == content@,
    {
        Message { role: MessageRole::Assistant, content: content.to_owned() }
    }
}

/// Lifecycle of a background task.
#[derive(Debug, Clone, Copy, PartialEq, Eq, Structural)]
pub enum TaskRuntimeState {
    Pending,
    Running,
    Completed,
    Failed,
}

/// Label for a task's runtime state.
pub fn task_state_label(state: TaskRuntimeState) -> (s: &'static str)
    ensures
        s@ == match state {
            TaskRuntimeState::Pending => "pending"@,
            TaskRuntimeState::Running => "running"@,
            TaskRuntimeState::Completed => "done"@,
            TaskRuntimeState::Failed => "failed"@,
        },
{
    match state {
        TaskRuntimeState::Pending => "pending",
        TaskRuntimeState::Running => "running",
        TaskRuntimeState::Completed => "done",
        TaskRuntimeState::Failed => "failed",
    }
}

/// A background task as the session view shows it.
#[derive(Debug, PartialEq, Eq)]
pub struct TaskView {
    pub id: TaskId,
    pub title: String,
    pub state: TaskRuntimeState,
    pub runtime_detail: Option<String>,
    pub output_tail: String,
}

impl Clone for TaskView {
    fn clone(&self) -> (r: Self)
        ensures
            r == *self,
    {
        TaskView {
            id: self.id.clone(),
            title: self.title.clone(),
            state: self.state,
            runtime_detail: self.runtime_detail.clone(),
            output_tail: self.output_tail.clone(),
        }
    }
}

/// The assistant reply currently streaming in.
#[derive(Debug, PartialEq, Eq)]
pub struct LiveReply {
    pub turn_id: TurnId,
    pub text: String,
}

impl Clone for LiveReply {
    fn clone(&self) -> (r: Self)
        ensures
            r == *self,
    {
        LiveReply { turn_id: self.turn_id.clone(), text: self.text.clone() }
    }
}

/// One session: its transcript, tasks and in-flight reply.
#[derive(Debug, Clone, PartialEq, Eq)]
pub struct SessionView {
    pub id: SessionKey,
    pub title: String,
    pub profile_id: Option<String>,
    pub messages: Vec<Message>,
    pub tasks: Vec<TaskView>,
    pub live_reply: Option<LiveReply>,
}

/// The bootstrap snapshot a backend hands the UI.
#[derive(Debug, Clone, PartialEq, Eq)]
pub struct AppUiSnapshot {
    pub sessions: Vec<SessionView>,
    pub selected_session: usize,
    pub status: String,
    pub target: Option<String>,
    pub readonly: bool,
}

// ---------------------------------------------------------------------------
// Activity feed
// ---------------------------------------------------------------------------

#[verifier::external_type_specification]
#[verifier::external_body]
pub struct ExJsonValue(serde_json::Value);

#[derive(Debug, Clone, PartialEq, Eq)]
pub struct ActivityItem {
    pub kind: ActivityKind,
    pub title: String,
    pub status: String,
    pub detail: Option<String>,
    pub arguments: Option<serde_json::Value>,
    pub output_preview: Option<String>,
    pub success: Option<bool>,
    pub duration_ms: Option<u64>,
    pub turn_id: Option<TurnId>,
    pub tool_call_id: Option<String>,
}

impl ActivityItem {
    pub fn new(kind: ActivityKind, title: &str, status: &str) -> (a: Self)
        ensures
            a.kind == kind,
            a.title@ == title@,
            a.status@ == status@,
            a.detail is None,
            a.arguments is None,
            a.output_preview is None,
            a.success is None,
            a.duration_ms is None,
            a.turn_id is None,
            a.tool_call_id is None,
    {
        Self {
            kind,
            title: title.to_owned(),
            status: status.to_owned(),
            detail: None,
            arguments: None,
            output_preview: None,
            success: None,
            duration_ms: None,
            turn_id: None,
            tool_call_id: None,
        }
    }

    pub fn with_detail(self, detail: &str) -> (a: Self)
        ensures
            a.detail matches Some(d) && d@ == detail@,
            a == (ActivityItem { detail: a.detail, ..self }),
    {
        let mut s = self;
        s.detail = Some(detail.to_owned());
        s
    }

    pub fn with_turn(self, turn_id: TurnId) -> (a: Self)
        ensures
            a == (ActivityItem { turn_id: Some(turn_id), ..self }),
    {
        let mut s = self;
        s.turn_id = Some(turn_id);
        s
    }

    pub fn with_tool_call(self, tool_call_id: &str) -> (a: Self)
        ensures
            a.tool_call_id matches Some(d) && d@ == tool_call_id@,
            a == (ActivityItem { tool_call_id: a.tool_call_id, ..self }),
    {
        let mut s = self;
        s.tool_call_id = Some(tool_call_id.to_owned());
        s
    }

    pub fn with_arguments(self, arguments: serde_json::Value) -> (a: Self)
        ensures
            a == (ActivityItem { arguments: Some(arguments), ..self }),
    {
        let mut s = self;
        s.arguments = Some(arguments);
        s
    }

    pub fn with_output_preview(self, output_preview: &str) -> (a: Self)
        ensures
            a.output_preview matches Some(d) && d@ == output_preview@,
            a == (ActivityItem { output_preview: a.output_preview, ..self }),
    {
        let mut s = self;
        s.output_preview = Some(output_preview.to_owned());
        s
    }

    pub fn with_success(self, success: bool) -> (a: Self)
        ensures
            a == (ActivityItem { success: Some(success), ..self }),
    {
        let mut s = self;
        s.success = Some(success);
        s
    }

    pub fn with_duration_ms(self, duration_ms: u64) -> (a: Self)
        ensures
            a == (ActivityItem { duration_ms: Some(duration_ms), ..self }),
    {
        let mut s = self;
        s.duration_ms = Some(duration_ms);
        s
    }
}

// ---------------------------------------------------------------------------
// Approval modal
// ---------------------------------------------------------------------------

/// The diff attached to a typed approval.
#[derive(Debug, Clone, PartialEq, Eq)]
pub struct ApprovalDiffDetails {
    pub preview_id: PreviewId,
}

/// Structured details of an approval request.
#[derive(Debug, Clone, PartialEq, Eq)]
pub struct ApprovalTypedDetails {
    pub diff: Option<ApprovalDiffDetails>,
}

/// The `approval/requested` event as the UI receives it.
#[derive(Debug, Clone, PartialEq, Eq)]
pub struct ApprovalRequestedEvent {
    pub session_id: SessionKey,
    pub approval_id: String,
    pub turn_id: TurnId,
    pub tool_name: String,
    pub title: String,
    pub body: String,
    pub approval_kind: Option<String>,
    pub risk: Option<String>,
    pub typed_details: Option<ApprovalTypedDetails>,
}

#[derive(Debug, Clone, PartialEq, Eq)]
pub struct ApprovalModalState {
    pub session_id: SessionKey,
    pub approval_id: String,
    pub turn_id: TurnId,
    pub tool_name: String,
    pub title: String,
    pub body: String,
    pub approval_kind: Option<String>,
    pub risk: Option<String>,
    pub typed_details: Option<ApprovalTypedDetails>,
    pub visible: bool,
}

impl ApprovalModalState {
    pub fn from_event(event: ApprovalRequestedEvent) -> (m: Self)
        ensures
            m.session_id == event.session_id,
            m.approval_id == event.approval_id,
            m.turn_id == event.turn_id,
            m.tool_name == event.tool_name,
            m.title == event.title,
            m.body == event.body,
            m.approval_kind == event.approval_kind,
            m.risk == event.risk,
            m.typed_details == event.typed_details,
            m.visible,
    {
        Self {
            session_id: event.session_id,
            approval_id: event.approval_id,
            turn_id: event.turn_id,
            tool_name: event.tool_name,
            title: event.title,
            body: event.body,
            approval_kind: event.approval_kind,
            risk: event.risk,
            typed_details: event.typed_details,
            visible: true,
        }
    }

    pub fn diff_preview_id(&self) -> (p: Option<PreviewId>)
        ensures
            p == match self.typed_details {
                Some(d) => match d.diff {
                    Some(diff) => Some(diff.preview_id),
                    None => None,
                },
                None => None,
            },
    {
        match &self.typed_details {
            Some(details) => match &details.diff {
                Some(diff) => Some(diff.preview_id.clone()),
                None => None,
            },
            None => None,
        }
    }
}

// ---------------------------------------------------------------------------
// Task output detail view
// ---------------------------------------------------------------------------

#[derive(Debug, Clone, PartialEq, Eq)]
pub struct TaskOutputDetailState {
    pub active: bool,
    pub session_id: Option<SessionKey>,
    pub task_id: Option<TaskId>,
    pub title: String,
    pub output: String,
    pub cursor: Option<OutputCursor>,
    pub scroll: usize,
}

impl TaskOutputDetailState {
    /// The closed state: inactive, nothing selected, empty text, no cursor.
    pub open spec fn is_closed(&self) -> bool {
        &&& !self.active
        &&& self.session_id is None
        &&& self.task_id is None
        &&& self.title@.len() == 0
        &&& self.output@.len() == 0
        &&& self.cursor is None
        &&& self.scroll == 0
    }
}

impl Default for TaskOutputDetailState {
    fn default() -> (s: Self)
        ensures
            s.is_closed(),
    {
        TaskOutputDetailState {
            active: false,
            session_id: None,
            task_id: None,
            title: String::new(),
            output: String::new(),
            cursor: None,
            scroll: 0,
        }
    }
}

impl TaskOutputDetailState {
    pub fn open(
        &mut self,
        session_id: SessionKey,
        task_id: TaskId,
        title: String,
        output: String,
        cursor: Option<OutputCursor>,
    )
        ensures
            *final(self) == (TaskOutputDetailState {
                active: true,
                session_id: Some(session_id),
                task_id: Some(task_id),
                title,
                output,
                cursor,
                scroll: 0,
            }),
    {
        self.active = true;
        self.session_id = Some(session_id);
        self.task_id = Some(task_id);
        self.title = title;
        self.output = output;
        self.cursor = cursor;
        self.scroll = 0;
    }

    pub fn close(&mut self)
        ensures
            final(self).is_closed(),
    {
        *self = Self::default();
    }

    /// Whether the open detail view shows `task_id` of `session_id`.
    pub open spec fn is_for_spec(&self, session_id: SessionKey, task_id: TaskId) -> bool {
        &&& self.active
        &&& self.session_id matches Some(s) && same_key(s, session_id)
        &&& self.task_id matches Some(t) && same_task(t, task_id)
    }

    pub fn is_for(&self, session_id: &SessionKey, task_id: &TaskId) -> (b: bool)
        ensures
            b == self.is_for_spec(*session_id, *task_id),
    {
        if !self.active {
            return false;
        }
        let same_session = match &self.session_id {
            Some(s) => session_key_eq(s, session_id),
            None => false,
        };
        let same_task_id = match &self.task_id {
            Some(t) => task_id_eq(t, task_id),
            None => false,
        };
        same_session && same_task_id
    }

    pub fn append_output(&mut self, text: &str, cursor: OutputCursor)
        ensures
            final(self).output@ == old(self).output@ + text@,
            final(self).cursor == Some(cursor),
            final(self).scroll == 0,
            final(self).active == old(self).active,
            final(self).session_id == old(self).session_id,
            final(self).task_id == old(self).task_id,
            final(self).title == old(self).title,
    {
        self.output.append(text);
        self.cursor = Some(cursor);
        self.scroll = 0;
    }

    pub fn scroll_up(&mut self, lines: usize)
        ensures
            *final(self) == (TaskOutputDetailState {
                scroll: old(self).scroll.saturating_sub(lines),
                ..*old(self)
            }),
    {
        self.scroll = self.scroll.saturating_sub(lines);
    }

    pub fn scroll_down(&mut self, lines: usize)
        ensures
            *final(self) == (TaskOutputDetailState {
                scroll: old(self).scroll.saturating_add(lines),
                ..*old(self)
            }),
    {
        self.scroll = self.scroll.saturating_add(lines);
    }
}

/// The last output position seen for one task of one session.
#[derive(Debug, Clone, PartialEq, Eq)]
pub struct TaskOutputCursor {
    pub session_id: SessionKey,
    pub task_id: TaskId,
    pub cursor: OutputCursor,
}

// ---------------------------------------------------------------------------
// Diff preview
// ---------------------------------------------------------------------------

#[derive(Debug, PartialEq, Eq)]
pub struct DiffPreviewLine {
    pub kind: String,
    pub content: String,
    pub old_line: Option<u32>,
    pub new_line: Option<u32>,
}

impl Clone for DiffPreviewLine {
    fn clone(&self) -> (r: Self)
        ensures
            r == *self,
    {
        DiffPreviewLine {
            kind: self.kind.clone(),
            content: self.content.clone(),
            old_line: self.old_line,
            new_line: self.new_line,
        }
    }
}

#[derive(Debug, Clone, PartialEq, Eq)]
pub struct DiffPreviewHunk {
    pub header: String,
    pub lines: Vec<DiffPreviewLine>,
}

#[derive(Debug, Clone, PartialEq, Eq)]
pub struct DiffPreviewFile {
    pub path: String,
    pub old_path: Option<String>,
    pub status: String,
    pub hunks: Vec<DiffPreviewHunk>,
}

#[derive(Debug, Clone, PartialEq, Eq)]
pub struct DiffPreview {
    pub session_id: SessionKey,
    pub preview_id: PreviewId,
    pub title: Option<String>,
    pub files: Vec<DiffPreviewFile>,
}

#[derive(Debug, Clone, PartialEq, Eq)]
pub struct DiffPreviewGetResult {
    pub status: String,
    pub source: String,
    pub preview: DiffPreview,
}

#[derive(Debug, Clone, PartialEq, Eq)]
pub struct DiffHunkContext {
    pub path: String,
    pub old_path: Option<String>,
    pub file_status: String,
    pub hunk_header: String,
    pub lines: Vec<DiffPreviewLine>,
}

/// The label a diff file carries when its status is absent: `unknown`.
pub fn unknown_label() -> (s: String)
    ensures
        s@ == "unknown"@,
{
    "unknown".to_owned()
}

/// The label a diff line carries when its kind is absent: `context`.
pub fn context_label() -> (s: String)
    ensures
        s@ == "context"@,
{
    "context".to_owned()
}

/// Every `(file, hunk)` position of `files[f..]`, file by file, hunks in order.
pub open spec fn hunk_locs_from(files: Seq<DiffPreviewFile>, f: int) -> Seq<(usize, usize)>
    decreases files.len() - f,
{
    if f < 0 || f >= files.len() {
        Seq::empty()
    } else {
        Seq::new(files[f].hunks@.len(), |h: int| (f as usize, h as usize)) + hunk_locs_from(
            files,
            f + 1,
        )
    }
}

/// Position of the first `t` in `s`, or -1.
pub open spec fn index_of(s: Seq<(usize, usize)>, t: (usize, usize)) -> int
    decreases s.len(),
{
    if s.len() == 0 {
        -1
    } else if s[0] == t {
        0
    } else if index_of(s.drop_first(), t) < 0 {
        -1
    } else {
        index_of(s.drop_first(), t) + 1
    }
}

proof fn lemma_index_of(s: Seq<(usize, usize)>, t: (usize, usize), k: int)
    requires
        0 <= k <= s.len(),
        forall|j: int| 0 <= j < k ==> s[j] != t,
        k < s.len() ==> s[k] == t,
    ensures
        index_of(s, t) == if k < s.len() { k } else { -1 },
    decreases s.len(),
{
    if s.len() > 0 && k > 0 {
        assert forall|j: int| 0 <= j < k - 1 implies s.drop_first()[j] != t by {
            assert(s.drop_first()[j] == s[j + 1]);
        }
        lemma_index_of(s.drop_first(), t, k - 1);
    }
}

#[derive(Debug, Clone, PartialEq, Eq)]
pub struct DiffPreviewPaneState {
    pub active: bool,
    pub loading: bool,
    pub requested_preview_id: Option<PreviewId>,
    pub status: Option<String>,
    pub source: Option<String>,
    pub preview: Option<DiffPreview>,
    pub error: Option<String>,
    pub scroll: usize,
    pub selected_file: usize,
    pub selected_hunk: usize,
}

impl DiffPreviewPaneState {
    /// The closed (default) state.
    pub open spec fn is_closed(&self) -> bool {
        &&& !self.active
        &&& !self.loading
        &&& self.requested_preview_id is None
        &&& self.status is None
        &&& self.source is None
        &&& self.preview is None
        &&& self.error is None
        &&& self.scroll == 0
        &&& self.selected_file == 0
        &&& self.selected_hunk == 0
    }

    /// Every hunk position of the loaded preview, in display order.
    pub open spec fn locations(&self) -> Seq<(usize, usize)> {
        match self.preview {
            Some(p) => hunk_locs_from(p.files@, 0),
            None => Seq::empty(),
        }
    }

    /// The index of the current selection among [`Self::locations`], or 0
    /// when the selection is not one of them.
    pub open spec fn current_location(&self) -> int {
        let i = index_of(self.locations(), (self.selected_file, self.selected_hunk));
        if i < 0 {
            0
        } else {
            i
        }
    }
}

impl Default for DiffPreviewPaneState {
    fn default() -> (s: Self)
        ensures
            s.is_closed(),
    {
        DiffPreviewPaneState {
            active: false,
            loading: false,
            requested_preview_id: None,
            status: None,
            source: None,
            preview: None,
            error: None,
            scroll: 0,
            selected_file: 0,
            selected_hunk: 0,
        }
    }
}

impl DiffPreviewPaneState {
    pub fn open_loading(&mut self, preview_id: PreviewId)
        ensures
            final(self).active,
            final(self).loading,
            final(self).requested_preview_id == Some(preview_id),
            final(self).status matches Some(st) && st@ == "loading"@,
            final(self).source is None,
            final(self).preview is None,
            final(self).error is None,
            final(self).scroll == 0,
            final(self).selected_file == 0,
            final(self).selected_hunk == 0,
    {
        *self = Self {
            active: true,
            loading: true,
            requested_preview_id: Some(preview_id),
            status: Some("loading".to_owned()),
            source: None,
            preview: None,
            error: None,
            scroll: 0,
            selected_file: 0,
            selected_hunk: 0,
        };
    }

    fn hunk_locations(&self) -> (v: Vec<(usize, usize)>)
        ensures
            v@ == self.locations(),
    {
        let mut out: Vec<(usize, usize)> = Vec::new();
        match &self.preview {
            None => {},
            Some(preview) => {
                let files = &preview.files;
                let n = files.len();
                let mut f: usize = 0;
                while f < n
                    invariant
                        n == files@.len(),
                        f <= n,
                        hunk_locs_from(files@, 0) == out@ + hunk_locs_from(files@, f as int),
                    decreases n - f,
                {
                    let m = files[f].hunks.len();
                    let ghost before = out@;
                    let mut h: usize = 0;
                    while h < m
                        invariant
                            f < n,
                            n == files@.len(),
                            m == files@[f as int].hunks@.len(),
                            h <= m,
                            out@ == before + Seq::new(h as nat, |k: int| (f as usize, k as usize)),
                        decreases m - h,
                    {
                        out.push((f, h));
                        h = h + 1;
                        assert(out@ =~= before + Seq::new(h as nat, |k: int| (f as usize, k as usize)));
                    }
                    assert(Seq::new(m as nat, |k: int| (f as usize, k as usize)) =~= Seq::new(
                        files@[f as int].hunks@.len(),
                        |k: int| (f as usize, k as usize),
                    ));
                    f = f + 1;
                }
                assert(hunk_locs_from(files@, n as int) =~= Seq::<(usize, usize)>::empty());
            },
        }
        assert(self.preview is None ==> out@ =~= self.locations());
        out
    }

    fn selected_location_index(&self, hunks: &Vec<(usize, usize)>) -> (r: Option<usize>)
        ensures
            r matches Some(i) ==> i == index_of(hunks@, (self.selected_file, self.selected_hunk)),
            r is None ==> index_of(hunks@, (self.selected_file, self.selected_hunk)) == -1,
    {
        let n = hunks.len();
        let mut i: usize = 0;
        while i < n
            invariant
                n == hunks@.len(),
                i <= n,
                forall|j: int| 0 <= j < i ==> hunks@[j] != (self.selected_file, self.selected_hunk),
            decreases n - i,
        {
            let (fi, hi) = hunks[i];
            if fi == self.selected_file && hi == self.selected_hunk {
                proof {
                    lemma_index_of(hunks@, (self.selected_file, self.selected_hunk), i as int);
                }
                return Some(i);
            }
            i = i + 1;
        }
        proof {
            lemma_index_of(hunks@, (self.selected_file, self.selected_hunk), n as int);
        }
        None
    }

    fn clamp_selection(&mut self)
        ensures
            final(self).preview == old(self).preview,
            old(self).locations().len() > 0 ==> (final(self).selected_file, final(self).selected_hunk)
                == old(self).locations()[0],
            old(self).locations().len() == 0 ==> final(self).selected_file == 0
                && final(self).selected_hunk == 0,
            *final(self) == (DiffPreviewPaneState {
                selected_file: final(self).selected_file,
                selected_hunk: final(self).selected_hunk,
                ..*old(self)
            }),
    {
        let hunks = self.hunk_locations();
        if hunks.len() > 0 {
            let (file_idx, hunk_idx) = hunks[0];
            self.selected_file = file_idx;
            self.selected_hunk = hunk_idx;
        } else {
            self.selected_file = 0;
            self.selected_hunk = 0;
        }
    }

    pub fn apply_result(&mut self, result: DiffPreviewGetResult)
        ensures
            final(self).active,
            !final(self).loading,
            final(self).requested_preview_id == Some(result.preview.preview_id),
            final(self).status == Some(result.status),
            final(self).source == Some(result.source),
            final(self).preview == Some(result.preview),
            final(self).error is None,
            final(self).scroll == 0,
            final(self).locations().len() > 0 ==> (final(self).selected_file, final(self).selected_hunk)
                == final(self).locations()[0],
            final(self).locations().len() == 0 ==> final(self).selected_file == 0
                && final(self).selected_hunk == 0,
    {
        self.active = true;
        self.loading = false;
        self.requested_preview_id = Some(result.preview.preview_id.clone());
        self.status = Some(result.status);
        self.source = Some(result.source);
        self.preview = Some(result.preview);
        self.error = None;
        self.scroll = 0;
        self.clamp_selection();
    }

    pub fn close(&mut self)
        ensures
            final(self).is_closed(),
    {
        *self = Self::default();
    }

    /// Scrolls toward older lines (the preview is bottom-anchored).
    pub fn scroll_up(&mut self, lines: usize)
        ensures
            *final(self) == (DiffPreviewPaneState {
                scroll: old(self).scroll.saturating_add(lines),
                ..*old(self)
            }),
    {
        self.scroll = self.scroll.saturating_add(lines);
    }

    pub fn scroll_down(&mut self, lines: usize)
        ensures
            *final(self) == (DiffPreviewPaneState {
                scroll: old(self).scroll.saturating_sub(lines),
                ..*old(self)
            }),
    {
        self.scroll = self.scroll.saturating_sub(lines);
    }

    pub fn select_next_hunk(&mut self)
        ensures
            old(self).locations().len() == 0 ==> *final(self) == *old(self),
            old(self).locations().len() > 0 ==> *final(self) == (DiffPreviewPaneState {
                selected_file: old(self).locations()[cyclic_next(
                    old(self).current_location(),
                    old(self).locations().len() as int,
                )].0,
                selected_hunk: old(self).locations()[cyclic_next(
                    old(self).current_location(),
                    old(self).locations().len() as int,
                )].1,
                ..*old(self)
            }),
    {
        let hunks = self.hunk_locations();
        if hunks.len() == 0 {
            return;
        }
        let current = match self.selected_location_index(&hunks) {
            Some(i) => i,
            None => 0,
        };
        proof {
            lemma_index_of_bounds(hunks@, (self.selected_file, self.selected_hunk));
        }
        let (file_idx, hunk_idx) = hunks[(current + 1) % hunks.len()];
        self.selected_file = file_idx;
        self.selected_hunk = hunk_idx;
    }

    pub fn select_prev_hunk(&mut self)
        ensures
            old(self).locations().len() == 0 ==> *final(self) == *old(self),
            old(self).locations().len() > 0 ==> *final(self) == (DiffPreviewPaneState {
                selected_file: old(self).locations()[cyclic_prev(
                    old(self).current_location(),
                    old(self).locations().len() as int,
                )].0,
                selected_hunk: old(self).locations()[cyclic_prev(
                    old(self).current_location(),
                    old(self).locations().len() as int,
                )].1,
                ..*old(self)
            }),
    {
        let hunks = self.hunk_locations();
        if hunks.len() == 0 {
            return;
        }
        let current = match self.selected_location_index(&hunks) {
            Some(i) => i,
            None => 0,
        };
        proof {
            lemma_index_of_bounds(hunks@, (self.selected_file, self.selected_hunk));
        }
        let next = if current == 0 {
            hunks.len() - 1
        } else {
            current - 1
        };
        let (file_idx, hunk_idx) = hunks[next];
        self.selected_file = file_idx;
        self.selected_hunk = hunk_idx;
    }

    /// The file and hunk under the selection, when both exist.
    pub open spec fn selected_hunk_spec(&self) -> Option<DiffHunkContext> {
        match self.preview {
            Some(p) => if self.selected_file < p.files@.len() && self.selected_hunk
                < p.files@[self.selected_file as int].hunks@.len() {
                let file = p.files@[self.selected_file as int];
                let hunk = file.hunks@[self.selected_hunk as int];
                Some(
                    DiffHunkContext {
                        path: file.path,
                        old_path: file.old_path,
                        file_status: file.status,
                        hunk_header: hunk.header,
                        lines: hunk.lines,
                    },
                )
            } else {
                None
            },
            None => None,
        }
    }

    pub fn selected_hunk_context(&self) -> (r: Option<DiffHunkContext>)
        ensures
            match (r, self.selected_hunk_spec()) {
                (Some(a), Some(b)) => a.path == b.path && a.old_path == b.old_path && a.file_status
                    == b.file_status && a.hunk_header == b.hunk_header && a.lines@ == b.lines@,
                (None, None) => true,
                _ => false,
            },
    {
        let preview = match &self.preview {
            Some(p) => p,
            None => return None,
        };
        if self.selected_file >= preview.files.len() {
            return None;
        }
        let file = &preview.files[self.selected_file];
        if self.selected_hunk >= file.hunks.len() {
            return None;
        }
        let hunk = &file.hunks[self.selected_hunk];
        let lines = hunk.lines.clone();
        assert(lines@ =~= hunk.lines@);
        Some(
            DiffHunkContext {
                path: file.path.clone(),
                old_path: file.old_path.clone(),
                file_status: file.status.clone(),
                hunk_header: hunk.header.clone(),
                lines,
            },
        )
    }
}

proof fn lemma_index_of_bounds(s: Seq<(usize, usize)>, t: (usize, usize))
    ensures
        -1 <= index_of(s, t) < s.len(),
    decreases s.len(),
{
    if s.len() > 0 {
        lemma_index_of_bounds(s.drop_first(), t);
    }
}

// ---------------------------------------------------------------------------
// Application state
// ---------------------------------------------------------------------------

/// The app-ui API the TUI speaks.
pub const APP_UI_API_V1: &'static str = "app-ui/v1";

/// The most recent activity items kept in the feed.
pub const MAX_ACTIVITY_ITEMS: usize = 80;

/// A composer draft kept for a session that is not selected.
#[derive(Debug, PartialEq, Eq)]
pub struct ComposerDraft {
    pub session_id: SessionKey,
    pub text: String,
}

impl Clone for ComposerDraft {
    fn clone(&self) -> (r: Self)
        ensures
            r == *self,
    {
        ComposerDraft { session_id: self.session_id.clone(), text: self.text.clone() }
    }
}

/// The selected task, with the session it belongs to.
#[derive(Debug, Clone, PartialEq, Eq)]
pub struct SelectedTaskContext {
    pub session_id: SessionKey,
    pub task_id: TaskId,
    pub title: String,
    pub output_tail: String,
}

#[derive(Debug, Clone)]
pub struct AppState {
    pub sessions: Vec<SessionView>,
    pub selected_session: usize,
    pub selected_task: usize,
    pub transcript_scroll: usize,
    pub focus: FocusPane,
    pub artifacts: ArtifactPaneState,
    pub workspace: WorkspacePaneState,
    pub git: GitPaneState,
    pub composer: String,
    pub composer_drafts: Vec<ComposerDraft>,
    pub pending_messages: Vec<String>,
    pub status: String,
    pub target: Option<String>,
    pub readonly: bool,
    pub protocol_version: &'static str,
    pub run_state: SessionRunState,
    pub approval_auto_open: bool,
    pub approval: Option<ApprovalModalState>,
    pub task_output: TaskOutputDetailState,
    pub task_output_cursors: Vec<TaskOutputCursor>,
    pub diff_preview: DiffPreviewPaneState,
    pub activity: Vec<ActivityItem>,
}

/// The run state a freshly selected session starts in: running while it has
/// a streaming reply, idle otherwise.
pub open spec fn initial_run_state_spec(sessions: Seq<SessionView>, selected: int) -> SessionRunState {
    if 0 <= selected < sessions.len() && sessions[selected].live_reply is Some {
        SessionRunState::InProgress
    } else {
        SessionRunState::Idle
    }
}

pub(crate) fn initial_run_state(sessions: &[SessionView], selected_session: usize) -> (r: SessionRunState)
    ensures
        r == initial_run_state_spec(sessions@, selected_session as int),
{
    if selected_session < sessions.len() && sessions[selected_session].live_reply.is_some() {
        SessionRunState::InProgress
    } else {
        SessionRunState::Idle
    }
}

/// Index of the first draft kept for `id`, or -1.
pub open spec fn draft_index(drafts: Seq<ComposerDraft>, id: SessionKey) -> int
    decreases drafts.len(),
{
    if drafts.len() == 0 {
        -1
    } else if same_key(drafts[0].session_id, id) {
        0
    } else if draft_index(drafts.drop_first(), id) < 0 {
        -1
    } else {
        draft_index(drafts.drop_first(), id) + 1
    }
}

proof fn lemma_draft_index(drafts: Seq<ComposerDraft>, id: SessionKey, k: int)
    requires
        0 <= k <= drafts.len(),
        forall|j: int| 0 <= j < k ==> !same_key(#[trigger] drafts[j].session_id, id),
        k < drafts.len() ==> same_key(drafts[k].session_id, id),
    ensures
        draft_index(drafts, id) == if k < drafts.len() { k } else { -1 },
    decreases drafts.len(),
{
    if drafts.len() > 0 && k > 0 {
        assert forall|j: int| 0 <= j < k - 1 implies !same_key(
            #[trigger] drafts.drop_first()[j].session_id,
            id,
        ) by {
            assert(drafts.drop_first()[j] == drafts[j + 1]);
        }
        lemma_draft_index(drafts.drop_first(), id, k - 1);
    }
}

fn find_draft(drafts: &Vec<ComposerDraft>, id: &SessionKey) -> (r: Option<usize>)
    ensures
        r matches Some(i) ==> i == draft_index(drafts@, *id) && i < drafts@.len(),
        r is None ==> draft_index(drafts@, *id) == -1,
{
    let n = drafts.len();
    let mut i: usize = 0;
    while i < n
        invariant
            n == drafts@.len(),
            i <= n,
            forall|j: int| 0 <= j < i ==> !same_key(#[trigger] drafts@[j].session_id, *id),
        decreases n - i,
    {
        if session_key_eq(&drafts[i].session_id, id) {
            proof {
                lemma_draft_index(drafts@, *id, i as int);
            }
            return Some(i);
        }
        i = i + 1;
    }
    proof {
        lemma_draft_index(drafts@, *id, n as int);
    }
    None
}

/// Drafts with text, in order.
pub open spec fn non_empty_drafts(drafts: Seq<ComposerDraft>) -> Seq<ComposerDraft>
    decreases drafts.len(),
{
    if drafts.len() == 0 {
        Seq::empty()
    } else if drafts.last().text@.len() > 0 {
        non_empty_drafts(drafts.drop_last()).push(drafts.last())
    } else {
        non_empty_drafts(drafts.drop_last())
    }
}

/// Drafts that do not belong to `id`, in order.
pub open spec fn drafts_without(drafts: Seq<ComposerDraft>, id: SessionKey) -> Seq<ComposerDraft>
    decreases drafts.len(),
{
    if drafts.len() == 0 {
        Seq::empty()
    } else if !same_key(drafts.last().session_id, id) {
        drafts_without(drafts.drop_last(), id).push(drafts.last())
    } else {
        drafts_without(drafts.drop_last(), id)
    }
}

/// The drafts after saving `text` as the draft of `id`: an existing draft
/// for `id` takes the text, otherwise a new draft is added when the text is
/// not empty; drafts left empty are dropped.
pub open spec fn drafts_after_persist(
    drafts: Seq<ComposerDraft>,
    id: SessionKey,
    text: String,
) -> Seq<ComposerDraft> {
    let i = draft_index(drafts, id);
    let updated = if i >= 0 {
        drafts.update(i, ComposerDraft { session_id: drafts[i].session_id, text })
    } else if text@.len() > 0 {
        drafts.push(ComposerDraft { session_id: id, text })
    } else {
        drafts
    };
    non_empty_drafts(updated)
}

/// The composer text restored for `id`: its draft, or empty.
pub open spec fn draft_text(drafts: Seq<ComposerDraft>, id: SessionKey) -> Seq<char> {
    let i = draft_index(drafts, id);
    if 0 <= i < drafts.len() {
        drafts[i].text@
    } else {
        Seq::empty()
    }
}

proof fn lemma_draft_index_bounds(drafts: Seq<ComposerDraft>, id: SessionKey)
    ensures
        -1 <= draft_index(drafts, id) < drafts.len(),
    decreases drafts.len(),
{
    if drafts.len() > 0 {
        lemma_draft_index_bounds(drafts.drop_first(), id);
    }
}

fn keep_non_empty(drafts: &Vec<ComposerDraft>) -> (r: Vec<ComposerDraft>)
    ensures
        r@ == non_empty_drafts(drafts@),
{
    let mut r: Vec<ComposerDraft> = Vec::new();
    let n = drafts.len();
    let mut i: usize = 0;
    assert(drafts@.take(0) =~= Seq::<ComposerDraft>::empty());
    while i < n
        invariant
            n == drafts@.len(),
            i <= n,
            r@ == non_empty_drafts(drafts@.take(i as int)),
        decreases n - i,
    {
        assert(drafts@.take(i + 1).drop_last() =~= drafts@.take(i as int));
        if !drafts[i].text.as_str().is_empty() {
            r.push(drafts[i].clone());
        }
        i = i + 1;
    }
    assert(drafts@.take(n as int) =~= drafts@);
    r
}

fn drop_drafts_of(drafts: &Vec<ComposerDraft>, id: &SessionKey) -> (r: Vec<ComposerDraft>)
    ensures
        r@ == drafts_without(drafts@, *id),
{
    let mut r: Vec<ComposerDraft> = Vec::new();
    let n = drafts.len();
    let mut i: usize = 0;
    assert(drafts@.take(0) =~= Seq::<ComposerDraft>::empty());
    while i < n
        invariant
            n == drafts@.len(),
            i <= n,
            r@ == drafts_without(drafts@.take(i as int), *id),
        decreases n - i,
    {
        assert(drafts@.take(i + 1).drop_last() =~= drafts@.take(i as int));
        if !session_key_eq(&drafts[i].session_id, id) {
            r.push(drafts[i].clone());
        }
        i = i + 1;
    }
    assert(drafts@.take(n as int) =~= drafts@);
    r
}

/// Index of the last activity item carrying `tool_call_id`, or -1.
pub open spec fn last_tool_activity(items: Seq<ActivityItem>, tool_call_id: Seq<char>) -> int
    decreases items.len(),
{
    if items.len() == 0 {
        -1
    } else if items.last().tool_call_id matches Some(t) && t@ == tool_call_id {
        items.len() - 1
    } else {
        last_tool_activity(items.drop_last(), tool_call_id)
    }
}

proof fn lemma_last_tool_activity(items: Seq<ActivityItem>, id: Seq<char>, k: int)
    requires
        -1 <= k < items.len(),
        forall|j: int|
            k < j < items.len() ==> !(#[trigger] items[j].tool_call_id matches Some(t) && t@ == id),
        k >= 0 ==> (items[k].tool_call_id matches Some(t) && t@ == id),
    ensures
        last_tool_activity(items, id) == k,
    decreases items.len(),
{
    if items.len() > 0 && k < items.len() - 1 {
        let d = items.drop_last();
        assert forall|j: int| k < j < d.len() implies !(#[trigger] d[j].tool_call_id matches Some(
            t,
        ) && t@ == id) by {
            assert(d[j] == items[j]);
        }
        assert(!(items[items.len() - 1].tool_call_id matches Some(t) && t@ == id));
        lemma_last_tool_activity(d, id, k);
    }
}

/// The activity feed after appending `item`, keeping the newest
/// [`MAX_ACTIVITY_ITEMS`] entries.
pub open spec fn activity_after_push(items: Seq<ActivityItem>, item: ActivityItem) -> Seq<
    ActivityItem,
> {
    let pushed = items.push(item);
    if pushed.len() > MAX_ACTIVITY_ITEMS {
        pushed.skip(pushed.len() - MAX_ACTIVITY_ITEMS)
    } else {
        pushed
    }
}

/// The activity feed stays within `MAX_ACTIVITY_ITEMS`: a push keeps the
/// newest item last and drops only the oldest ones.
pub proof fn law_activity_feed_bounded(items: Seq<ActivityItem>, item: ActivityItem)
    requires
        items.len() <= MAX_ACTIVITY_ITEMS,
    ensures
        activity_after_push(items, item).len() <= MAX_ACTIVITY_ITEMS,
        activity_after_push(items, item).last() == item,
        activity_after_push(items, item) == items.push(item).skip(
            items.len() + 1 - activity_after_push(items, item).len(),
        ),
{
    let pushed = items.push(item);
    if pushed.len() <= MAX_ACTIVITY_ITEMS {
        assert(pushed.skip(0) =~= pushed);
    }
}

/// An activity item updated with a tool's progress: the status always, each
/// other field only when a value is given.
pub open spec fn updated_tool_item(
    item: ActivityItem,
    status: String,
    detail: Option<String>,
    output_preview: Option<String>,
    success: Option<bool>,
    duration_ms: Option<u64>,
) -> ActivityItem {
    ActivityItem {
        status,
        detail: if detail is Some { detail } else { item.detail },
        output_preview: if output_preview is Some { output_preview } else { item.output_preview },
        success: if success is Some { success } else { item.success },
        duration_ms: if duration_ms is Some { duration_ms } else { item.duration_ms },
        ..item
    }
}

/// A tool's progress update sets the status, replaces each other field it
/// gives a value for, keeps each field it gives none for (`None` never
/// erases what the item had), and leaves the item's kind, title, arguments,
/// turn and call id alone.
pub proof fn law_tool_update_keeps_what_is_not_given(
    item: ActivityItem,
    status: String,
    detail: Option<String>,
    output_preview: Option<String>,
    success: Option<bool>,
    duration_ms: Option<u64>,
)
    ensures
        ({
            let u = updated_tool_item(item, status, detail, output_preview, success, duration_ms);
            &&& u.status == status
            &&& detail is None ==> u.detail == item.detail
            &&& detail is Some ==> u.detail == detail
            &&& output_preview is None ==> u.output_preview == item.output_preview
            &&& output_preview is Some ==> u.output_preview == output_preview
            &&& success is None ==> u.success == item.success
            &&& success is Some ==> u.success == success
            &&& duration_ms is None ==> u.duration_ms == item.duration_ms
            &&& duration_ms is Some ==> u.duration_ms == duration_ms
            &&& u.kind == item.kind && u.title == item.title && u.arguments == item.arguments
            &&& u.turn_id == item.turn_id && u.tool_call_id == item.tool_call_id
        }),
{
}

/// Index of the cursor entry for `(session_id, task_id)`, or -1.
pub open spec fn cursor_index(entries: Seq<TaskOutputCursor>, session_id: SessionKey, task_id: TaskId) -> int
    decreases entries.len(),
{
    if entries.len() == 0 {
        -1
    } else if same_key(entries[0].session_id, session_id) && same_task(entries[0].task_id, task_id) {
        0
    } else if cursor_index(entries.drop_first(), session_id, task_id) < 0 {
        -1
    } else {
        cursor_index(entries.drop_first(), session_id, task_id) + 1
    }
}

proof fn lemma_cursor_index(entries: Seq<TaskOutputCursor>, s: SessionKey, t: TaskId, k: int)
    requires
        0 <= k <= entries.len(),
        forall|j: int|
            0 <= j < k ==> !(same_key(#[trigger] entries[j].session_id, s) && same_task(
                entries[j].task_id,
                t,
            )),
        k < entries.len() ==> same_key(entries[k].session_id, s) && same_task(entries[k].task_id, t),
    ensures
        cursor_index(entries, s, t) == if k < entries.len() { k } else { -1 },
    decreases entries.len(),
{
    if entries.len() > 0 && k > 0 {
        let d = entries.drop_first();
        assert forall|j: int| 0 <= j < k - 1 implies !(same_key(#[trigger] d[j].session_id, s)
            && same_task(d[j].task_id, t)) by {
            assert(d[j] == entries[j + 1]);
        }
        lemma_cursor_index(d, s, t, k - 1);
    }
}

fn find_cursor(entries: &Vec<TaskOutputCursor>, session_id: &SessionKey, task_id: &TaskId) -> (r:
    Option<usize>)
    ensures
        r matches Some(i) ==> i == cursor_index(entries@, *session_id, *task_id) && i
            < entries@.len(),
        r is None ==> cursor_index(entries@, *session_id, *task_id) == -1,
{
    let n = entries.len();
    let mut i: usize = 0;
    while i < n
        invariant
            n == entries@.len(),
            i <= n,
            forall|j: int|
                0 <= j < i ==> !(same_key(#[trigger] entries@[j].session_id, *session_id)
                    && same_task(entries@[j].task_id, *task_id)),
        decreases n - i,
    {
        if session_key_eq(&entries[i].session_id, session_id) && task_id_eq(
            &entries[i].task_id,
            task_id,
        ) {
            proof {
                lemma_cursor_index(entries@, *session_id, *task_id, i as int);
            }
            return Some(i);
        }
        i = i + 1;
    }
    proof {
        lemma_cursor_index(entries@, *session_id, *task_id, n as int);
    }
    None
}

fn find_last_tool(items: &Vec<ActivityItem>, tool_call_id: &str) -> (r: Option<usize>)
    ensures
        r matches Some(k) ==> k < items@.len() && (items@[k as int].tool_call_id matches Some(t)
            && t@ == tool_call_id@) && forall|j: int|
            k < j < items@.len() ==> !(#[trigger] items@[j].tool_call_id matches Some(t) && t@
                == tool_call_id@),
        r is None ==> forall|j: int|
            0 <= j < items@.len() ==> !(#[trigger] items@[j].tool_call_id matches Some(t) && t@
                == tool_call_id@),
{
    let n = items.len();
    let mut i = n;
    while i > 0
        invariant
            n == items@.len(),
            i <= n,
            forall|j: int|
                i <= j < n ==> !(#[trigger] items@[j].tool_call_id matches Some(t) && t@
                    == tool_call_id@),
        decreases i,
    {
        let matches = match &items[i - 1].tool_call_id {
            Some(t) => crate::text::str_eq(t.as_str(), tool_call_id),
            None => false,
        };
        if matches {
            return Some(i - 1);
        }
        i = i - 1;
    }
    None
}

impl AppState {
    /// The selected session, when the selection points at one.
    pub open spec fn active_session_spec(&self) -> Option<SessionView> {
        if self.selected_session < self.sessions@.len() {
            Some(self.sessions@[self.selected_session as int])
        } else {
            None
        }
    }

    /// The selected task of the selected session, when both exist.
    pub open spec fn active_task_spec(&self) -> Option<TaskView> {
        match self.active_session_spec() {
            Some(s) => if self.selected_task < s.tasks@.len() {
                Some(s.tasks@[self.selected_task as int])
            } else {
                None
            },
            None => None,
        }
    }

    pub fn active_session(&self) -> (r: Option<&SessionView>)
        ensures
            r matches Some(s) ==> self.active_session_spec() == Some(*s),
            r is None ==> self.active_session_spec() is None,
    {
        if self.selected_session < self.sessions.len() {
            Some(&self.sessions[self.selected_session])
        } else {
            None
        }
    }

    /// The selected session, for in-place updates.
    pub fn active_session_mut(&mut self) -> (r: Option<&mut SessionView>)
        ensures
            old(self).selected_session < old(self).sessions@.len() ==> (r matches Some(s) && {
                &&& *s == old(self).sessions@[old(self).selected_session as int]
                &&& final(self).sessions@ == old(self).sessions@.update(
                    old(self).selected_session as int,
                    *final(s),
                )
                &&& *final(self) == (AppState { sessions: final(self).sessions, ..*old(self) })
            }),
            old(self).selected_session >= old(self).sessions@.len() ==> r is None && *final(self)
                == *old(self),
    {
        let sel = self.selected_session;
        if sel < self.sessions.len() {
            Some(&mut self.sessions[sel])
        } else {
            None
        }
    }

    pub fn active_turn(&self) -> (r: Option<(&SessionKey, &TurnId)>)
        ensures
            match self.active_session_spec() {
                Some(s) => match s.live_reply {
                    Some(live) => r matches Some((k, t)) && *k == s.id && *t == live.turn_id,
                    None => r is None,
                },
                None => r is None,
            },
    {
        let session = match self.active_session() {
            Some(s) => s,
            None => return None,
        };
        match &session.live_reply {
            Some(live) => Some((&session.id, &live.turn_id)),
            None => None,
        }
    }

    pub fn has_pending_messages(&self) -> (b: bool)
        ensures
            b == (self.pending_messages@.len() > 0),
    {
        self.pending_messages.len() > 0
    }

    pub fn active_task(&self) -> (r: Option<&TaskView>)
        ensures
            r matches Some(t) ==> self.active_task_spec() == Some(*t),
            r is None ==> self.active_task_spec() is None,
    {
        let session = match self.active_session() {
            Some(s) => s,
            None => return None,
        };
        if self.selected_task < session.tasks.len() {
            Some(&session.tasks[self.selected_task])
        } else {
            None
        }
    }

    pub fn active_task_context(&self) -> (r: Option<SelectedTaskContext>)
        ensures
            match (self.active_session_spec(), self.active_task_spec()) {
                (Some(s), Some(t)) => r == Some(
                    SelectedTaskContext {
                        session_id: s.id,
                        task_id: t.id,
                        title: t.title,
                        output_tail: t.output_tail,
                    },
                ),
                _ => r is None,
            },
    {
        let session = match self.active_session() {
            Some(s) => s,
            None => return None,
        };
        if self.selected_task >= session.tasks.len() {
            return None;
        }
        let task = &session.tasks[self.selected_task];
        Some(
            SelectedTaskContext {
                session_id: session.id.clone(),
                task_id: task.id.clone(),
                title: task.title.clone(),
                output_tail: task.output_tail.clone(),
            },
        )
    }

    pub fn select_next_task(&mut self)
        requires
            (old(self).active_session_spec() matches Some(s) && s.tasks@.len() > 0) ==> old(self).selected_task < usize::MAX,
        ensures
            *final(self) == (AppState {
                selected_task: match old(self).active_session_spec() {
                    Some(s) => if s.tasks@.len() == 0 {
                        old(self).selected_task
                    } else {
                        cyclic_next(old(self).selected_task as int, s.tasks@.len() as int) as usize
                    },
                    None => old(self).selected_task,
                },
                ..*old(self)
            }),
    {
        let len = match self.active_session() {
            Some(session) => session.tasks.len(),
            None => return,
        };
        if len == 0 {
            return;
        }
        self.selected_task = (self.selected_task + 1) % len;
    }

    pub fn select_prev_task(&mut self)
        ensures
            *final(self) == (AppState {
                selected_task: match old(self).active_session_spec() {
                    Some(s) => if s.tasks@.len() == 0 {
                        old(self).selected_task
                    } else {
                        cyclic_prev(old(self).selected_task as int, s.tasks@.len() as int) as usize
                    },
                    None => old(self).selected_task,
                },
                ..*old(self)
            }),
    {
        let len = match self.active_session() {
            Some(session) => session.tasks.len(),
            None => return,
        };
        if len == 0 {
            return;
        }
        if self.selected_task == 0 {
            self.selected_task = len - 1;
        } else {
            self.selected_task = self.selected_task - 1;
        }
    }

    pub fn select_next_artifact(&mut self)
        requires
            old(self).artifacts.items@.len() == 0 || old(self).artifacts.selected < usize::MAX,
        ensures
            final(self).artifacts.items == old(self).artifacts.items,
            final(self).artifacts.selected == if old(self).artifacts.items@.len() == 0 {
                old(self).artifacts.selected as int
            } else {
                cyclic_next(old(self).artifacts.selected as int, old(self).artifacts.items@.len() as int)
            },
            *final(self) == (AppState { artifacts: final(self).artifacts, ..*old(self) }),
    {
        self.artifacts.select_next();
    }

    pub fn select_prev_artifact(&mut self)
        ensures
            final(self).artifacts.items == old(self).artifacts.items,
            final(self).artifacts.selected == if old(self).artifacts.items@.len() == 0 {
                old(self).artifacts.selected as int
            } else {
                cyclic_prev(old(self).artifacts.selected as int, old(self).artifacts.items@.len() as int)
            },
            *final(self) == (AppState { artifacts: final(self).artifacts, ..*old(self) }),
    {
        self.artifacts.select_prev();
    }

    pub fn select_next_workspace_entry(&mut self)
        requires
            old(self).workspace.entries@.len() == 0 || old(self).workspace.selected < usize::MAX,
        ensures
            final(self).workspace.entries == old(self).workspace.entries,
            old(self).workspace.entries@.len() == 0 ==> final(self).workspace
                == old(self).workspace,
            old(self).workspace.entries@.len() > 0 ==> final(self).workspace.selected
                == cyclic_next(
                old(self).workspace.selected as int,
                old(self).workspace.entries@.len() as int,
            ) && final(self).workspace.scroll == final(self).workspace.selected.saturating_sub(4),
            *final(self) == (AppState { workspace: final(self).workspace, ..*old(self) }),
    {
        self.workspace.select_next();
    }

    pub fn select_prev_workspace_entry(&mut self)
        ensures
            final(self).workspace.entries == old(self).workspace.entries,
            old(self).workspace.entries@.len() == 0 ==> final(self).workspace
                == old(self).workspace,
            old(self).workspace.entries@.len() > 0 ==> final(self).workspace.selected
                == cyclic_prev(
                old(self).workspace.selected as int,
                old(self).workspace.entries@.len() as int,
            ) && final(self).workspace.scroll == final(self).workspace.selected.saturating_sub(4),
            *final(self) == (AppState { workspace: final(self).workspace, ..*old(self) }),
    {
        self.workspace.select_prev();
    }

    pub fn select_next_git_entry(&mut self)
        requires
            old(self).git.selectable_len_spec() <= usize::MAX,
            old(self).git.selectable_len_spec() == 0 || old(self).git.selected < usize::MAX,
        ensures
            final(self).git.status == old(self).git.status,
            final(self).git.history == old(self).git.history,
            old(self).git.selectable_len_spec() == 0 ==> final(self).git == old(self).git,
            old(self).git.selectable_len_spec() > 0 ==> final(self).git.selected == cyclic_next(
                old(self).git.selected as int,
                old(self).git.selectable_len_spec(),
            ) && final(self).git.scroll == final(self).git.selected.saturating_sub(4),
            *final(self) == (AppState { git: final(self).git, ..*old(self) }),
    {
        self.git.select_next();
    }

    pub fn select_prev_git_entry(&mut self)
        requires
            old(self).git.selectable_len_spec() <= usize::MAX,
        ensures
            final(self).git.status == old(self).git.status,
            final(self).git.history == old(self).git.history,
            old(self).git.selectable_len_spec() == 0 ==> final(self).git == old(self).git,
            old(self).git.selectable_len_spec() > 0 ==> final(self).git.selected == cyclic_prev(
                old(self).git.selected as int,
                old(self).git.selectable_len_spec(),
            ) && final(self).git.scroll == final(self).git.selected.saturating_sub(4),
            *final(self) == (AppState { git: final(self).git, ..*old(self) }),
    {
        self.git.select_prev();
    }

    /// Scrolls the transcript toward older messages (bottom-anchored offset).
    pub fn scroll_transcript_up(&mut self, lines: usize)
        ensures
            *final(self) == (AppState {
                transcript_scroll: old(self).transcript_scroll.saturating_add(lines),
                ..*old(self)
            }),
    {
        self.transcript_scroll = self.transcript_scroll.saturating_add(lines);
    }

    pub fn scroll_transcript_down(&mut self, lines: usize)
        ensures
            *final(self) == (AppState {
                transcript_scroll: old(self).transcript_scroll.saturating_sub(lines),
                ..*old(self)
            }),
    {
        self.transcript_scroll = self.transcript_scroll.saturating_sub(lines);
    }

    pub fn scroll_transcript_to_latest(&mut self)
        ensures
            *final(self) == (AppState { transcript_scroll: 0, ..*old(self) }),
    {
        self.transcript_scroll = 0;
    }

    pub fn set_task_output_cursor(&mut self, session_id: SessionKey, task_id: TaskId, cursor: OutputCursor)
        ensures
            ({
                let i = cursor_index(old(self).task_output_cursors@, session_id, task_id);
                final(self).task_output_cursors@ == if i >= 0 {
                    old(self).task_output_cursors@.update(
                        i,
                        TaskOutputCursor { cursor, ..old(self).task_output_cursors@[i] },
                    )
                } else {
                    old(self).task_output_cursors@.push(TaskOutputCursor { session_id, task_id, cursor })
                }
            }),
            *final(self) == (AppState { task_output_cursors: final(self).task_output_cursors, ..*old(self) }),
    {
        match find_cursor(&self.task_output_cursors, &session_id, &task_id) {
            Some(i) => {
                let mut entry = self.task_output_cursors.remove(i);
                entry.cursor = cursor;
                self.task_output_cursors.insert(i, entry);
                assert(self.task_output_cursors@ =~= old(self).task_output_cursors@.update(
                    i as int,
                    TaskOutputCursor { cursor, ..old(self).task_output_cursors@[i as int] },
                ));
            },
            None => {
                self.task_output_cursors.push(TaskOutputCursor { session_id, task_id, cursor });
            },
        }
    }

    pub fn task_output_cursor(&self, session_id: &SessionKey, task_id: &TaskId) -> (r: Option<OutputCursor>)
        ensures
            ({
                let i = cursor_index(self.task_output_cursors@, *session_id, *task_id);
                r == if i >= 0 {
                    Some(self.task_output_cursors@[i].cursor)
                } else {
                    None::<OutputCursor>
                }
            }),
    {
        match find_cursor(&self.task_output_cursors, session_id, task_id) {
            Some(i) => Some(self.task_output_cursors[i].cursor),
            None => None,
        }
    }

    pub fn push_activity(&mut self, item: ActivityItem)
        ensures
            final(self).activity@ == activity_after_push(old(self).activity@, item),
            *final(self) == (AppState { activity: final(self).activity, ..*old(self) }),
    {
        self.activity.push(item);
        if self.activity.len() > MAX_ACTIVITY_ITEMS {
            let excess = self.activity.len() - MAX_ACTIVITY_ITEMS;
            let kept = self.activity.split_off(excess);
            self.activity = kept;
        }
    }

    pub fn update_tool_activity(
        &mut self,
        tool_call_id: &str,
        status: String,
        detail: Option<String>,
        output_preview: Option<String>,
        success: Option<bool>,
        duration_ms: Option<u64>,
    )
        ensures
            ({
                let i = last_tool_activity(old(self).activity@, tool_call_id@);
                final(self).activity@ == if i >= 0 {
                    old(self).activity@.update(
                        i,
                        updated_tool_item(
                            old(self).activity@[i],
                            status,
                            detail,
                            output_preview,
                            success,
                            duration_ms,
                        ),
                    )
                } else {
                    old(self).activity@
                }
            }),
            *final(self) == (AppState { activity: final(self).activity, ..*old(self) }),
    {
        let found = find_last_tool(&self.activity, tool_call_id);
        match found {
            Some(k) => {
                proof {
                    lemma_last_tool_activity(old(self).activity@, tool_call_id@, k as int);
                }
                let mut item = self.activity.remove(k);
                item.status = status;
                if detail.is_some() {
                    item.detail = detail;
                }
                if output_preview.is_some() {
                    item.output_preview = output_preview;
                }
                if success.is_some() {
                    item.success = success;
                }
                if duration_ms.is_some() {
                    item.duration_ms = duration_ms;
                }
                self.activity.insert(k, item);
                assert(self.activity@ =~= old(self).activity@.update(k as int, item));
            },
            None => {
                proof {
                    lemma_last_tool_activity(old(self).activity@, tool_call_id@, -1);
                }
            },
        }
    }

    pub fn set_run_state_idle(&mut self)
        ensures
            *final(self) == (AppState { run_state: SessionRunState::Idle, ..*old(self) }),
    {
        self.run_state = SessionRunState::Idle;
    }

    pub fn set_run_state_in_progress(&mut self)
        ensures
            *final(self) == (AppState { run_state: SessionRunState::InProgress, ..*old(self) }),
    {
        self.run_state = SessionRunState::InProgress;
    }

    pub fn set_run_state_blocked(&mut self, message: String)
        ensures
            *final(self) == (AppState { run_state: SessionRunState::Blocked { message }, ..*old(self) }),
    {
        self.run_state = SessionRunState::Blocked { message };
    }

    pub fn set_run_state_success(&mut self)
        ensures
            *final(self) == (AppState { run_state: SessionRunState::Success, ..*old(self) }),
    {
        self.run_state = SessionRunState::Success;
    }

    pub fn set_run_state_error(&mut self, message: String)
        ensures
            *final(self) == (AppState { run_state: SessionRunState::Error { message }, ..*old(self) }),
    {
        self.run_state = SessionRunState::Error { message };
    }

    pub fn refresh_run_state_from_selection(&mut self)
        ensures
            *final(self) == (AppState {
                run_state: initial_run_state_spec(old(self).sessions@, old(self).selected_session as int),
                ..*old(self)
            }),
    {
        self.run_state = initial_run_state(self.sessions.as_slice(), self.selected_session);
    }

    /// The drafts after saving the composer as the selected session's draft.
    pub open spec fn persisted_drafts(&self) -> Seq<ComposerDraft> {
        match self.active_session_spec() {
            Some(s) => drafts_after_persist(self.composer_drafts@, s.id, self.composer),
            None => self.composer_drafts@,
        }
    }

    /// The state after switching the selection to session `sel` (of a
    /// non-empty list): the outgoing composer is kept as a draft, the incoming
    /// session's draft is restored, task selection and transcript scroll
    /// reset, and the run state follows the new session.
    pub open spec fn switched_to(&self, sel: int, next: AppState) -> bool {
        &&& next == (AppState {
            selected_session: sel as usize,
            selected_task: 0,
            transcript_scroll: 0,
            composer: next.composer,
            composer_drafts: next.composer_drafts,
            run_state: initial_run_state_spec(self.sessions@, sel),
            ..*self
        })
        &&& next.composer_drafts@ == self.persisted_drafts()
        &&& next.composer@ == if 0 <= sel < self.sessions@.len() {
            draft_text(self.persisted_drafts(), self.sessions@[sel].id)
        } else {
            Seq::empty()
        }
    }

    /// After a switch the run state follows the newly selected session: in
    /// progress exactly when that session is streaming a reply, idle
    /// otherwise.
    pub proof fn law_switch_run_state_follows_live_reply(&self, sel: int, next: AppState)
        requires
            self.switched_to(sel, next),
            0 <= sel < self.sessions@.len(),
        ensures
            next.selected_session == sel,
            next.sessions@ == self.sessions@,
            next.run_state == SessionRunState::InProgress <==> next.sessions@[sel].live_reply is Some,
            next.run_state == SessionRunState::Idle <==> next.sessions@[sel].live_reply is None,
    {
        assert(self.sessions@.len() == self.sessions.len());
    }

    pub fn select_next_session(&mut self)
        requires
            old(self).sessions@.len() == 0 || old(self).selected_session < usize::MAX,
        ensures
            old(self).sessions@.len() == 0 ==> *final(self) == *old(self),
            old(self).sessions@.len() > 0 ==> old(self).switched_to(
                cyclic_next(old(self).selected_session as int, old(self).sessions@.len() as int),
                *final(self),
            ),
    {
        if self.sessions.len() == 0 {
            return;
        }
        self.persist_composer_draft_for_selected_session();
        self.selected_session = (self.selected_session + 1) % self.sessions.len();
        self.selected_task = 0;
        self.transcript_scroll = 0;
        proof {
            law_cyclic_selection_bounds(old(self).selected_session as int, old(self).sessions@.len() as int);
        }
        self.load_composer_draft_for_selected_session();
        self.refresh_run_state_from_selection();
    }

    pub fn select_prev_session(&mut self)
        ensures
            old(self).sessions@.len() == 0 ==> *final(self) == *old(self),
            old(self).sessions@.len() > 0 ==> old(self).switched_to(
                cyclic_prev(old(self).selected_session as int, old(self).sessions@.len() as int),
                *final(self),
            ),
    {
        if self.sessions.len() == 0 {
            return;
        }
        self.persist_composer_draft_for_selected_session();
        if self.selected_session == 0 {
            self.selected_session = self.sessions.len() - 1;
        } else {
            self.selected_session = self.selected_session - 1;
        }
        self.selected_task = 0;
        self.transcript_scroll = 0;
        self.load_composer_draft_for_selected_session();
        self.refresh_run_state_from_selection();
    }

    pub fn persist_composer_draft_for_selected_session(&mut self)
        ensures
            match old(self).active_session_spec() {
                Some(s) => *final(self) == (AppState {
                    composer_drafts: final(self).composer_drafts,
                    ..*old(self)
                }) && final(self).composer_drafts@ == drafts_after_persist(
                    old(self).composer_drafts@,
                    s.id,
                    old(self).composer,
                ),
                None => *final(self) == *old(self),
            },
    {
        let session_id = match self.active_session() {
            Some(session) => session.id.clone(),
            None => return,
        };
        let text = self.composer.clone();
        proof {
            lemma_draft_index_bounds(self.composer_drafts@, session_id);
        }
        match find_draft(&self.composer_drafts, &session_id) {
            Some(i) => {
                let mut draft = self.composer_drafts.remove(i);
                draft.text = text;
                self.composer_drafts.insert(i, draft);
                assert(self.composer_drafts@ =~= old(self).composer_drafts@.update(
                    i as int,
                    ComposerDraft {
                        session_id: old(self).composer_drafts@[i as int].session_id,
                        text: old(self).composer,
                    },
                ));
            },
            None => {
                if !self.composer.as_str().is_empty() {
                    self.composer_drafts.push(ComposerDraft { session_id, text });
                }
            },
        }
        let kept = keep_non_empty(&self.composer_drafts);
        self.composer_drafts = kept;
    }

    pub fn load_composer_draft_for_selected_session(&mut self)
        ensures
            *final(self) == (AppState { composer: final(self).composer, ..*old(self) }),
            final(self).composer@ == match old(self).active_session_spec() {
                Some(s) => draft_text(old(self).composer_drafts@, s.id),
                None => Seq::<char>::empty(),
            },
    {
        let session_id = match self.active_session() {
            Some(session) => session.id.clone(),
            None => {
                self.composer = String::new();
                return;
            },
        };
        proof {
            lemma_draft_index_bounds(self.composer_drafts@, session_id);
        }
        self.composer = match find_draft(&self.composer_drafts, &session_id) {
            Some(i) => self.composer_drafts[i].text.clone(),
            None => String::new(),
        };
    }

    pub fn clear_current_composer_draft(&mut self)
        ensures
            final(self).composer@.len() == 0,
            final(self).composer_drafts@ == match old(self).active_session_spec() {
                Some(s) => drafts_without(old(self).composer_drafts@, s.id),
                None => old(self).composer_drafts@,
            },
            *final(self) == (AppState {
                composer: final(self).composer,
                composer_drafts: final(self).composer_drafts,
                ..*old(self)
            }),
    {
        let session_id = match self.active_session() {
            Some(session) => Some(session.id.clone()),
            None => None,
        };
        self.composer = String::new();
        if let Some(id) = session_id {
            let kept = drop_drafts_of(&self.composer_drafts, &id);
            self.composer_drafts = kept;
        }
    }
}

// ---------------------------------------------------------------------------
// Laws of composer drafts
// ---------------------------------------------------------------------------

/// No two drafts belong to the same session.
pub open spec fn unique_draft_ids(d: Seq<ComposerDraft>) -> bool {
    forall|i: int, j: int|
        0 <= i < j < d.len() ==> !same_key(#[trigger] d[i].session_id, #[trigger] d[j].session_id)
}

proof fn lemma_non_empty_subset(s: Seq<ComposerDraft>)
    ensures
        forall|x: ComposerDraft| #[trigger] non_empty_drafts(s).contains(x) ==> s.contains(x)
            && x.text@.len() > 0,
        forall|j: int| 0 <= j < s.len() && (#[trigger] s[j]).text@.len() > 0 ==> non_empty_drafts(
            s,
        ).contains(s[j]),
    decreases s.len(),
{
    if s.len() > 0 {
        let d = s.drop_last();
        lemma_non_empty_subset(d);
        assert forall|x: ComposerDraft| #[trigger] non_empty_drafts(s).contains(x) implies s.contains(x)
            && x.text@.len() > 0 by {
            let k = choose|k: int| 0 <= k < non_empty_drafts(s).len() && non_empty_drafts(s)[k] == x;
            if s.last().text@.len() > 0 && k == non_empty_drafts(d).len() {
                assert(s[s.len() - 1] == x);
            } else {
                assert(non_empty_drafts(d)[k] == x);
                assert(non_empty_drafts(d).contains(x));
                let m = choose|m: int| 0 <= m < d.len() && d[m] == x;
                assert(s[m] == x);
            }
        }
        assert forall|j: int| 0 <= j < s.len() && (#[trigger] s[j]).text@.len() > 0 implies non_empty_drafts(
            s,
        ).contains(s[j]) by {
            if j == s.len() - 1 {
                assert(non_empty_drafts(s)[non_empty_drafts(d).len() as int] == s[j]);
            } else {
                assert(d[j] == s[j]);
                assert(non_empty_drafts(d).contains(d[j]));
                let k = choose|k: int| 0 <= k < non_empty_drafts(d).len() && non_empty_drafts(d)[k] == d[j];
                assert(non_empty_drafts(s)[k] == s[j]);
            }
        }
    }
}

proof fn lemma_non_empty_unique(s: Seq<ComposerDraft>)
    requires
        unique_draft_ids(s),
    ensures
        unique_draft_ids(non_empty_drafts(s)),
    decreases s.len(),
{
    if s.len() > 0 {
        let d = s.drop_last();
        assert(unique_draft_ids(d)) by {
            assert forall|i: int, j: int| 0 <= i < j < d.len() implies !same_key(
                #[trigger] d[i].session_id,
                #[trigger] d[j].session_id,
            ) by {
                assert(d[i] == s[i] && d[j] == s[j]);
            }
        }
        lemma_non_empty_unique(d);
        lemma_non_empty_subset(d);
        if s.last().text@.len() > 0 {
            let r = non_empty_drafts(d);
            let t = non_empty_drafts(s);
            assert(t == r.push(s.last()));
            assert forall|i: int, j: int| 0 <= i < j < t.len() implies !same_key(
                #[trigger] t[i].session_id,
                #[trigger] t[j].session_id,
            ) by {
                if j == t.len() - 1 {
                    assert(t[i] == r[i]);
                    assert(r.contains(r[i]));
                    let m = choose|m: int| 0 <= m < d.len() && d[m] == r[i];
                    assert(s[m] == d[m]);
                    assert(!same_key(s[m].session_id, s[s.len() - 1].session_id));
                } else {
                    assert(t[i] == r[i] && t[j] == r[j]);
                }
            }
        }
    }
}

proof fn lemma_draft_index_found(t: Seq<ComposerDraft>, id: SessionKey)
    ensures
        draft_index(t, id) >= 0 ==> draft_index(t, id) < t.len() && same_key(
            t[draft_index(t, id)].session_id,
            id,
        ),
        draft_index(t, id) < 0 ==> forall|k: int| 0 <= k < t.len() ==> !same_key(#[trigger] t[k].session_id, id),
    decreases t.len(),
{
    if t.len() > 0 {
        lemma_draft_index_found(t.drop_first(), id);
        if draft_index(t, id) < 0 {
            assert forall|k: int| 0 <= k < t.len() implies !same_key(#[trigger] t[k].session_id, id) by {
                if k > 0 {
                    assert(t[k] == t.drop_first()[k - 1]);
                }
            }
        } else if !same_key(t[0].session_id, id) {
            assert(t[draft_index(t, id)] == t.drop_first()[draft_index(t.drop_first(), id)]);
        }
    }
}

proof fn lemma_draft_text_unique(t: Seq<ComposerDraft>, id: SessionKey)
    requires
        unique_draft_ids(t),
    ensures
        forall|k: int|
            0 <= k < t.len() && same_key(#[trigger] t[k].session_id, id) ==> draft_text(t, id)
                == t[k].text@,
        (forall|k: int| 0 <= k < t.len() ==> !same_key(#[trigger] t[k].session_id, id)) ==> draft_text(
            t,
            id,
        ) == Seq::<char>::empty(),
{
    lemma_draft_index_found(t, id);
    assert forall|k: int| 0 <= k < t.len() && same_key(#[trigger] t[k].session_id, id) implies draft_text(
        t,
        id,
    ) == t[k].text@ by {
        let di = draft_index(t, id);
        if di != k {
            if di < k {
                assert(!same_key(t[di].session_id, t[k].session_id));
            } else {
                assert(!same_key(t[k].session_id, t[di].session_id));
            }
        }
    }
}

/// Saving a composer draft and reading it back gives the saved text, other
/// sessions' drafts read back unchanged, and drafts stay one per session.
pub proof fn law_draft_round_trip(drafts: Seq<ComposerDraft>, id: SessionKey, text: String, other: SessionKey)
    requires
        unique_draft_ids(drafts),
    ensures
        unique_draft_ids(drafts_after_persist(drafts, id, text)),
        draft_text(drafts_after_persist(drafts, id, text), id) == text@,
        !same_key(other, id) ==> draft_text(drafts_after_persist(drafts, id, text), other)
            == draft_text(drafts, other),
{
    let i = draft_index(drafts, id);
    lemma_draft_index_found(drafts, id);
    let updated = if i >= 0 {
        drafts.update(i, ComposerDraft { session_id: drafts[i].session_id, text })
    } else if text@.len() > 0 {
        drafts.push(ComposerDraft { session_id: id, text })
    } else {
        drafts
    };
    let after = drafts_after_persist(drafts, id, text);
    assert(after == non_empty_drafts(updated));
    assert(unique_draft_ids(updated)) by {
        assert forall|a: int, b: int| 0 <= a < b < updated.len() implies !same_key(
            #[trigger] updated[a].session_id,
            #[trigger] updated[b].session_id,
        ) by {
            if i < 0 && text@.len() > 0 && b == drafts.len() {
                assert(updated[a] == drafts[a]);
            } else {
                assert(updated[a].session_id == drafts[a].session_id);
                assert(updated[b].session_id == drafts[b].session_id);
            }
        }
    }
    lemma_non_empty_unique(updated);
    lemma_non_empty_subset(updated);
    lemma_draft_text_unique(after, id);
    lemma_draft_text_unique(after, other);
    lemma_draft_text_unique(drafts, other);
    // the saved session
    if text@.len() > 0 {
        let k = if i >= 0 { i } else { drafts.len() as int };
        assert(updated[k].session_id.0@ == id.0@);
        assert(updated[k].text == text);
        assert(after.contains(updated[k]));
        let m = choose|m: int| 0 <= m < after.len() && after[m] == updated[k];
        assert(same_key(after[m].session_id, id));
    } else {
        assert forall|m: int| 0 <= m < after.len() implies !same_key(#[trigger] after[m].session_id, id) by {
            assert(after.contains(after[m]));
            let q = choose|q: int| 0 <= q < updated.len() && updated[q] == after[m];
            if same_key(after[m].session_id, id) {
                if i >= 0 {
                    if q != i {
                        assert(same_key(drafts[q].session_id, drafts[i].session_id));
                        if q < i {
                            assert(!same_key(drafts[q].session_id, drafts[i].session_id));
                        } else {
                            assert(!same_key(drafts[i].session_id, drafts[q].session_id));
                        }
                    }
                } else {
                    assert(same_key(drafts[q].session_id, id));
                }
            }
        }
    }
    // every other session
    if same_key(other, id) {
    } else if exists|k: int| 0 <= k < drafts.len() && same_key(#[trigger] drafts[k].session_id, other) {
        let k = choose|k: int| 0 <= k < drafts.len() && same_key(#[trigger] drafts[k].session_id, other);
        assert(k != i);
        assert(updated[k] == drafts[k]);
        if drafts[k].text@.len() > 0 {
            assert(after.contains(updated[k]));
            let m = choose|m: int| 0 <= m < after.len() && after[m] == updated[k];
            assert(same_key(after[m].session_id, other));
        } else {
            assert forall|m: int| 0 <= m < after.len() implies !same_key(#[trigger] after[m].session_id, other) by {
                assert(after.contains(after[m]));
                let q = choose|q: int| 0 <= q < updated.len() && updated[q] == after[m];
                if same_key(after[m].session_id, other) {
                    if q != k {
                        if q < k {
                            assert(!same_key(updated[q].session_id, updated[k].session_id));
                        } else {
                            assert(!same_key(updated[k].session_id, updated[q].session_id));
                        }
                    }
                }
            }
        }
    } else {
        assert forall|m: int| 0 <= m < after.len() implies !same_key(#[trigger] after[m].session_id, other) by {
            assert(after.contains(after[m]));
            let q = choose|q: int| 0 <= q < updated.len() && updated[q] == after[m];
            if q < drafts.len() && !(i >= 0 && q == i) {
                assert(updated[q] == drafts[q]);
            }
        }
    }
}

/// Switching to the next session and back restores the selection and the
/// composer text (saved as a draft on the way out, restored on the way
/// back), with task selection and transcript scroll reset; every kept draft
/// has text and drafts stay one per session.
pub proof fn law_session_switch_round_trip(st0: AppState, st1: AppState, st2: AppState)
    requires
        st0.sessions@.len() > 0,
        st0.selected_session < st0.sessions@.len(),
        forall|i: int, j: int|
            0 <= i < j < st0.sessions@.len() ==> !same_key(
                #[trigger] st0.sessions@[i].id,
                #[trigger] st0.sessions@[j].id,
            ),
        unique_draft_ids(st0.composer_drafts@),
        st0.switched_to(cyclic_next(st0.selected_session as int, st0.sessions@.len() as int), st1),
        st1.switched_to(cyclic_prev(st1.selected_session as int, st1.sessions@.len() as int), st2),
    ensures
        st2.selected_session == st0.selected_session,
        st2.composer@ == st0.composer@,
        st2.selected_task == 0,
        st2.transcript_scroll == 0,
        st2.sessions == st0.sessions,
        unique_draft_ids(st2.composer_drafts@),
        forall|k: int| 0 <= k < st2.composer_drafts@.len() ==> (#[trigger] st2.composer_drafts@[k]).text@.len() > 0,
{
    let n = st0.sessions@.len() as int;
    let s0 = st0.selected_session as int;
    let s1 = cyclic_next(s0, n);
    law_cyclic_selection_round_trip(s0, n);
    let id0 = st0.sessions@[s0].id;
    let id1 = st0.sessions@[s1].id;
    let d0 = st0.composer_drafts@;
    let d1 = drafts_after_persist(d0, id0, st0.composer);
    law_draft_round_trip(d0, id0, st0.composer, id1);
    assert(st1.composer_drafts@ == d1);
    assert(st1.composer@ == draft_text(d1, id1));
    assert(st0.sessions@.len() == st0.sessions.len());
    assert(0 <= s1 < n);
    assert(st1.selected_session as int == s1);
    assert(st1.sessions == st0.sessions);
    assert(st1.active_session_spec() == Some(st0.sessions@[s1]));
    assert(cyclic_prev(st1.selected_session as int, st1.sessions@.len() as int) == s0);
    assert(st1.persisted_drafts() == drafts_after_persist(d1, id1, st1.composer));
    let d2 = drafts_after_persist(d1, id1, st1.composer);
    law_draft_round_trip(d1, id1, st1.composer, id0);
    assert(st2.composer_drafts@ == d2);
    if s1 == s0 {
        assert(id1 == id0);
    } else if s0 < s1 {
        assert(!same_key(id0, id1));
    } else {
        assert(!same_key(id1, id0));
    }
    assert(st2.composer@ == draft_text(d2, id0));
    let i = draft_index(d1, id1);
    let updated = if i >= 0 {
        d1.update(i, ComposerDraft { session_id: d1[i].session_id, text: st1.composer })
    } else if st1.composer@.len() > 0 {
        d1.push(ComposerDraft { session_id: id1, text: st1.composer })
    } else {
        d1
    };
    lemma_non_empty_subset(updated);
    assert forall|k: int| 0 <= k < d2.len() implies (#[trigger] d2[k]).text@.len() > 0 by {
        assert(d2.contains(d2[k]));
    }
}

} // verus!
