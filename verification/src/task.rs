//! Tasks: what they hold and the transitions that they go through.
use vstd::prelude::*;
use vstd::string::*;

use std::sync::Arc;

use crate::outside;
use crate::outside::{debug_of, lossy_text_of, millis_since_epoch};
use crate::path::LocalPath;
use crate::text::same_text;
use crate::views;
use crate::workspace::{TaskWorkspace, TaskWorkspaceView, WorkspaceId};

verus! {

/// How far the work on a task has come.
#[derive(Clone, Copy, Debug, Eq, PartialEq, Structural)]
pub enum TaskStatus {
    Pending,
    InProgress,
    ReviewRequired,
    AttentionRequired,
    Done,
}

/// How urgent a task is.
#[derive(Clone, Copy, Debug, Eq, PartialEq, Structural)]
pub enum TaskPriority {
    High,
    Normal,
    Low,
}

impl Default for TaskPriority {
    fn default() -> (priority: TaskPriority)
        ensures
            priority == TaskPriority::Normal,
    {
        TaskPriority::Normal
    }
}

/// The agent that works on a task.
#[derive(Clone, Copy, Debug, Eq, PartialEq, Structural)]
pub enum AgentKind {
    Codex,
    ClaudeCode,
}

impl Default for AgentKind {
    fn default() -> (agent: AgentKind)
        ensures
            agent == AgentKind::Codex,
    {
        AgentKind::Codex
    }
}

impl AgentKind {
    pub open spec fn wrapper_name_spec(self) -> Seq<char> {
        match self {
            AgentKind::Codex => "codexauto"@,
            AgentKind::ClaudeCode => "claudeauto"@,
        }
    }

    /// The command that starts the agent.
    pub fn wrapper_name(self) -> (name: &'static str)
        ensures
            name@ == self.wrapper_name_spec(),
    {
        match self {
            AgentKind::Codex => "codexauto",
            AgentKind::ClaudeCode => "claudeauto",
        }
    }
}

impl TaskStatus {
    /// The name of the status in messages.
    pub open spec fn debug_name_spec(self) -> Seq<char> {
        match self {
            TaskStatus::Pending => "Pending"@,
            TaskStatus::InProgress => "InProgress"@,
            TaskStatus::ReviewRequired => "ReviewRequired"@,
            TaskStatus::AttentionRequired => "AttentionRequired"@,
            TaskStatus::Done => "Done"@,
        }
    }

    /// The name of the status in messages.
    pub fn debug_name(self) -> (name: &'static str)
        ensures
            name@ == self.debug_name_spec(),
    {
        match self {
            TaskStatus::Pending => "Pending",
            TaskStatus::InProgress => "InProgress",
            TaskStatus::ReviewRequired => "ReviewRequired",
            TaskStatus::AttentionRequired => "AttentionRequired",
            TaskStatus::Done => "Done",
        }
    }
}

/// The identity of a task.
#[derive(Debug, Eq, Hash, PartialEq)]
pub struct TaskId(pub String);

impl View for TaskId {
    type V = Seq<char>;

    open spec fn view(&self) -> Seq<char> {
        self.0@
    }
}

impl Clone for TaskId {
    fn clone(&self) -> (id: TaskId)
        ensures
            id@ == self@,
    {
        TaskId(self.0.clone())
    }
}

impl TaskId {
    /// The identity with this text.
    pub fn new(value: &str) -> (id: TaskId)
        ensures
            id@ == value@,
    {
        TaskId(value.to_owned())
    }

    /// Whether two identities are the same.
    pub fn is(&self, other: &TaskId) -> (same: bool)
        ensures
            same == (self@ == other@),
    {
        same_text(self.0.as_str(), other.0.as_str())
    }
}

/// A file that belongs to a task: at a path, or held in memory until the task is
/// stored.
#[derive(Debug, Eq, PartialEq)]
pub struct TaskAttachment {
    pub path: LocalPath,
    pub file_name: Option<String>,
    pub contents: Option<Arc<Vec<u8>>>,
}

/// What an attachment says.
pub ghost struct AttachmentView {
    pub path: Seq<u8>,
    pub file_name: Option<Seq<char>>,
    pub contents: Option<Seq<u8>>,
}

impl View for TaskAttachment {
    type V = AttachmentView;

    open spec fn view(&self) -> AttachmentView {
        AttachmentView {
            path: self.path@,
            file_name: views::option_view(self.file_name),
            contents: match self.contents {
                Some(bytes) => Some((*bytes)@),
                None => None,
            },
        }
    }
}

/// A copy of an optional text.
pub fn clone_text(text: &Option<String>) -> (copy: Option<String>)
    ensures
        views::option_view(copy) == views::option_view(*text),
{
    match text {
        Some(text) => Some(text.clone()),
        None => None,
    }
}

impl Clone for TaskAttachment {
    fn clone(&self) -> (attachment: TaskAttachment)
        ensures
            attachment@ == self@,
    {
        TaskAttachment {
            path: self.path.clone(),
            file_name: clone_text(&self.file_name),
            contents: match &self.contents {
                Some(bytes) => Some(Arc::clone(bytes)),
                None => None,
            },
        }
    }
}

impl TaskAttachment {
    /// The file at a path.
    pub fn new(path: LocalPath) -> (attachment: TaskAttachment)
        ensures
            attachment@ == (AttachmentView { path: path@, file_name: None, contents: None }),
    {
        TaskAttachment { path, file_name: None, contents: None }
    }

    /// Bytes held in memory, under the name that they are to be stored by.
    pub fn from_memory(file_name: &str, contents: Arc<Vec<u8>>) -> (attachment: TaskAttachment)
        ensures
            attachment@ == (AttachmentView {
                path: vstd::utf8::encode_utf8(file_name@),
                file_name: Some(file_name@),
                contents: Some((*contents)@),
            }),
    {
        TaskAttachment {
            path: LocalPath::from_text(file_name),
            file_name: Some(file_name.to_owned()),
            contents: Some(contents),
        }
    }

    /// Names the stored attachment independently of its path. Whether the name is
    /// safe is checked when the task is stored, before any byte is copied.
    pub fn with_file_name(self, file_name: &str) -> (attachment: TaskAttachment)
        ensures
            attachment@ == (AttachmentView { file_name: Some(file_name@), ..self@ }),
    {
        let mut attachment = self;
        attachment.file_name = Some(file_name.to_owned());
        attachment
    }
}

/// A copy of a list of attachments.
pub fn clone_attachments(attachments: &Vec<TaskAttachment>) -> (copy: Vec<TaskAttachment>)
    ensures
        views::views(copy@) == views::views(attachments@),
{
    let copy = attachments.clone();
    assert(views::views(copy@) =~= views::views(attachments@));
    copy
}

/// A copy of an optional workspace.
pub fn clone_workspace(workspace: &Option<TaskWorkspace>) -> (copy: Option<TaskWorkspace>)
    ensures
        views::option_view(copy) == views::option_view(*workspace),
{
    match workspace {
        Some(workspace) => Some(workspace.clone()),
        None => None,
    }
}

/// What a new task is made from.
#[derive(Debug, Eq, PartialEq)]
pub struct NewTaskInput {
    pub workspace_id: WorkspaceId,
    pub workspace: Option<TaskWorkspace>,
    pub title: String,
    pub description: String,
    pub priority: TaskPriority,
    pub agent_kind: AgentKind,
    pub attachments: Vec<TaskAttachment>,
}

/// What the input for a task says.
pub ghost struct NewTaskView {
    pub workspace_id: Seq<char>,
    pub workspace: Option<TaskWorkspaceView>,
    pub title: Seq<char>,
    pub description: Seq<char>,
    pub priority: TaskPriority,
    pub agent_kind: AgentKind,
    pub attachments: Seq<AttachmentView>,
}

impl View for NewTaskInput {
    type V = NewTaskView;

    open spec fn view(&self) -> NewTaskView {
        NewTaskView {
            workspace_id: self.workspace_id@,
            workspace: views::option_view(self.workspace),
            title: self.title@,
            description: self.description@,
            priority: self.priority,
            agent_kind: self.agent_kind,
            attachments: views::views(self.attachments@),
        }
    }
}

impl Clone for NewTaskInput {
    fn clone(&self) -> (input: NewTaskInput)
        ensures
            input@ == self@,
    {
        NewTaskInput {
            workspace_id: self.workspace_id.clone(),
            workspace: clone_workspace(&self.workspace),
            title: self.title.clone(),
            description: self.description.clone(),
            priority: self.priority,
            agent_kind: self.agent_kind,
            attachments: clone_attachments(&self.attachments),
        }
    }
}

impl NewTaskInput {
    /// A task with a title in a workspace: no context and no attachments, of
    /// normal priority, for Codex.
    pub fn new(workspace_id: WorkspaceId, title: &str) -> (input: NewTaskInput)
        ensures
            input@ == (NewTaskView {
                workspace_id: workspace_id@,
                workspace: None,
                title: title@,
                description: Seq::empty(),
                priority: TaskPriority::Normal,
                agent_kind: AgentKind::Codex,
                attachments: Seq::empty(),
            }),
    {
        let input = NewTaskInput {
            workspace_id,
            workspace: None,
            title: title.to_owned(),
            description: String::new(),
            priority: TaskPriority::Normal,
            agent_kind: AgentKind::Codex,
            attachments: Vec::new(),
        };
        assert(input@.attachments =~= Seq::empty());
        input
    }

    pub fn with_description(self, description: &str) -> (input: NewTaskInput)
        ensures
            input@ == (NewTaskView { description: description@, ..self@ }),
    {
        let mut input = self;
        input.description = description.to_owned();
        input
    }

    /// Sets the workspace and its identity.
    pub fn with_workspace(self, workspace: TaskWorkspace) -> (input: NewTaskInput)
        ensures
            input@ == (NewTaskView {
                workspace_id: workspace@.id,
                workspace: Some(workspace@),
                ..self@
            }),
    {
        let mut input = self;
        input.workspace_id = workspace.id.clone();
        input.workspace = Some(workspace);
        input
    }

    pub fn with_priority(self, priority: TaskPriority) -> (input: NewTaskInput)
        ensures
            input@ == (NewTaskView { priority, ..self@ }),
    {
        let mut input = self;
        input.priority = priority;
        input
    }

    pub fn with_agent_kind(self, agent_kind: AgentKind) -> (input: NewTaskInput)
        ensures
            input@ == (NewTaskView { agent_kind, ..self@ }),
    {
        let mut input = self;
        input.agent_kind = agent_kind;
        input
    }

    pub fn with_attachments(self, attachments: Vec<TaskAttachment>) -> (input: NewTaskInput)
        ensures
            input@ == (NewTaskView { attachments: views::views(attachments@), ..self@ }),
    {
        let mut input = self;
        input.attachments = attachments;
        input
    }
}

/// Why an operation on the queue was refused.
#[derive(Debug, Eq, PartialEq)]
pub enum TaskQueueError {
    HomeDirectoryUnavailable,
    InvalidTaskTransition { action: &'static str, status: TaskStatus },
    WorkspaceNotFound(WorkspaceId),
    TaskNotFound(TaskId),
    RelativeTaskMarkdownPath(LocalPath),
    InvalidTaskMarkdownPath(LocalPath),
}

/// What a refusal says.
pub ghost enum TaskQueueErrorView {
    HomeDirectoryUnavailable,
    InvalidTaskTransition { action: Seq<char>, status: TaskStatus },
    WorkspaceNotFound(Seq<char>),
    TaskNotFound(Seq<char>),
    RelativeTaskMarkdownPath(Seq<u8>),
    InvalidTaskMarkdownPath(Seq<u8>),
}

impl View for TaskQueueError {
    type V = TaskQueueErrorView;

    open spec fn view(&self) -> TaskQueueErrorView {
        match self {
            TaskQueueError::HomeDirectoryUnavailable => TaskQueueErrorView::HomeDirectoryUnavailable,
            TaskQueueError::InvalidTaskTransition {
                action,
                status,
            } => TaskQueueErrorView::InvalidTaskTransition { action: action@, status: *status },
            TaskQueueError::WorkspaceNotFound(id) => TaskQueueErrorView::WorkspaceNotFound(id@),
            TaskQueueError::TaskNotFound(id) => TaskQueueErrorView::TaskNotFound(id@),
            TaskQueueError::RelativeTaskMarkdownPath(
                path,
            ) => TaskQueueErrorView::RelativeTaskMarkdownPath(path@),
            TaskQueueError::InvalidTaskMarkdownPath(
                path,
            ) => TaskQueueErrorView::InvalidTaskMarkdownPath(path@),
        }
    }
}

/// The text of a refusal.
pub open spec fn queue_error_text(error: TaskQueueErrorView) -> Seq<char> {
    match error {
        TaskQueueErrorView::HomeDirectoryUnavailable =>
            "could not determine the home directory for the task queue"@,
        TaskQueueErrorView::InvalidTaskTransition { action, status } => "cannot "@ + action
            + " a task in "@ + status.debug_name_spec() + " status"@,
        TaskQueueErrorView::WorkspaceNotFound(id) => "workspace WorkspaceId("@ + outside::debug_text(id)
            + ") is not discovered"@,
        TaskQueueErrorView::TaskNotFound(id) => "task TaskId("@ + outside::debug_text(id)
            + ") is not in the queue"@,
        TaskQueueErrorView::RelativeTaskMarkdownPath(path) =>
            "task Markdown path must be absolute: "@ + outside::shown_text(path),
        TaskQueueErrorView::InvalidTaskMarkdownPath(path) =>
            "task Markdown path must be named task.md: "@ + outside::shown_text(path),
    }
}

impl TaskQueueError {
    /// The text of the refusal.
    pub fn message(&self) -> (text: String)
        ensures
            text@ == queue_error_text(self@),
    {
        match self {
            TaskQueueError::HomeDirectoryUnavailable =>
                "could not determine the home directory for the task queue".to_owned(),
            TaskQueueError::InvalidTaskTransition { action, status } => {
                let mut text = "cannot ".to_owned();
                text.append(action);
                text.append(" a task in ");
                text.append(status.debug_name());
                text.append(" status");
                text
            },
            TaskQueueError::WorkspaceNotFound(id) => {
                let mut text = "workspace WorkspaceId(".to_owned();
                text.append(debug_of(id.0.as_str()).as_str());
                text.append(") is not discovered");
                text
            },
            TaskQueueError::TaskNotFound(id) => {
                let mut text = "task TaskId(".to_owned();
                text.append(debug_of(id.0.as_str()).as_str());
                text.append(") is not in the queue");
                text
            },
            TaskQueueError::RelativeTaskMarkdownPath(path) => {
                let mut text = "task Markdown path must be absolute: ".to_owned();
                text.append(lossy_text_of(path.as_bytes()).as_str());
                text
            },
            TaskQueueError::InvalidTaskMarkdownPath(path) => {
                let mut text = "task Markdown path must be named task.md: ".to_owned();
                text.append(lossy_text_of(path.as_bytes()).as_str());
                text
            },
        }
    }
}

/// A task of the queue.
#[derive(Debug, Eq, PartialEq)]
pub struct Task {
    pub id: TaskId,
    pub workspace_id: WorkspaceId,
    pub workspace: Option<TaskWorkspace>,
    pub title: String,
    pub description: String,
    pub priority: TaskPriority,
    pub agent_kind: AgentKind,
    pub attachments: Vec<TaskAttachment>,
    pub status: TaskStatus,
    pub terminal_pane_id: Option<String>,
    pub attention_reason: Option<String>,
    pub created_at_ms: u64,
    pub updated_at_ms: u64,
}

/// What a task says.
pub ghost struct TaskView {
    pub id: Seq<char>,
    pub workspace_id: Seq<char>,
    pub workspace: Option<TaskWorkspaceView>,
    pub title: Seq<char>,
    pub description: Seq<char>,
    pub priority: TaskPriority,
    pub agent_kind: AgentKind,
    pub attachments: Seq<AttachmentView>,
    pub status: TaskStatus,
    pub terminal_pane_id: Option<Seq<char>>,
    pub attention_reason: Option<Seq<char>>,
    pub created_at_ms: u64,
    pub updated_at_ms: u64,
}

impl View for Task {
    type V = TaskView;

    open spec fn view(&self) -> TaskView {
        TaskView {
            id: self.id@,
            workspace_id: self.workspace_id@,
            workspace: views::option_view(self.workspace),
            title: self.title@,
            description: self.description@,
            priority: self.priority,
            agent_kind: self.agent_kind,
            attachments: views::views(self.attachments@),
            status: self.status,
            terminal_pane_id: views::option_view(self.terminal_pane_id),
            attention_reason: views::option_view(self.attention_reason),
            created_at_ms: self.created_at_ms,
            updated_at_ms: self.updated_at_ms,
        }
    }
}

impl Clone for Task {
    fn clone(&self) -> (task: Task)
        ensures
            task@ == self@,
    {
        Task {
            id: self.id.clone(),
            workspace_id: self.workspace_id.clone(),
            workspace: clone_workspace(&self.workspace),
            title: self.title.clone(),
            description: self.description.clone(),
            priority: self.priority,
            agent_kind: self.agent_kind,
            attachments: clone_attachments(&self.attachments),
            status: self.status,
            terminal_pane_id: clone_text(&self.terminal_pane_id),
            attention_reason: clone_text(&self.attention_reason),
            created_at_ms: self.created_at_ms,
            updated_at_ms: self.updated_at_ms,
        }
    }
}

/// A time in milliseconds as a task keeps it: zero where the clock stands before
/// the epoch, and the largest number where the time does not fit.
pub open spec fn timestamp_of(millis: Option<u128>) -> u64 {
    match millis {
        Some(millis) => if millis <= u64::MAX {
            millis as u64
        } else {
            u64::MAX
        },
        None => 0,
    }
}

/// A time in milliseconds as a task keeps it.
pub fn timestamp_from_millis(millis: Option<u128>) -> (timestamp: u64)
    ensures
        timestamp == timestamp_of(millis),
{
    match millis {
        Some(millis) => if millis <= u64::MAX as u128 {
            millis as u64
        } else {
            u64::MAX
        },
        None => 0,
    }
}

/// The current time as a task keeps it. It is read off the clock, so no value is
/// stated.
pub fn task_timestamp_now() -> (timestamp: u64) {
    let millis = millis_since_epoch();
    timestamp_from_millis(millis)
}

/// The task made from an input: pending, linked to no session.
pub open spec fn new_task(
    id: Seq<char>,
    input: NewTaskView,
    created_at_ms: u64,
    updated_at_ms: u64,
) -> TaskView {
    TaskView {
        id,
        workspace_id: input.workspace_id,
        workspace: input.workspace,
        title: input.title,
        description: input.description,
        priority: input.priority,
        agent_kind: input.agent_kind,
        attachments: input.attachments,
        status: TaskStatus::Pending,
        terminal_pane_id: None,
        attention_reason: None,
        created_at_ms,
        updated_at_ms,
    }
}

/// The action named in a refused transition, with the status it was refused in.
pub open spec fn refused(action: Seq<char>, status: TaskStatus) -> TaskQueueErrorView {
    TaskQueueErrorView::InvalidTaskTransition { action, status }
}

/// The task once its agent runs in a session. Only a pending task and one that
/// requires attention can be launched.
pub open spec fn launched(task: TaskView, terminal_pane_id: Seq<char>) -> Result<
    TaskView,
    TaskQueueErrorView,
> {
    match task.status {
        TaskStatus::Pending | TaskStatus::AttentionRequired => Ok(
            TaskView {
                terminal_pane_id: Some(terminal_pane_id),
                status: TaskStatus::InProgress,
                attention_reason: None,
                ..task
            },
        ),
        status => Err(refused("launch"@, status)),
    }
}

/// Why a task requires attention whose command failed.
pub open spec fn command_failed_reason() -> Seq<char> {
    "The command did not complete successfully."@
}

/// The task once its command has ended: to be reviewed after a success,
/// requiring attention after a failure.
pub open spec fn command_finished(task: TaskView, success: bool) -> Result<
    TaskView,
    TaskQueueErrorView,
> {
    if task.status == TaskStatus::InProgress {
        if success {
            Ok(TaskView { status: TaskStatus::ReviewRequired, attention_reason: None, ..task })
        } else {
            Ok(
                TaskView {
                    status: TaskStatus::AttentionRequired,
                    attention_reason: Some(command_failed_reason()),
                    ..task
                },
            )
        }
    } else {
        Err(refused("record command completion"@, task.status))
    }
}

/// The task once it requires attention for a reason.
pub open spec fn needing_attention(task: TaskView, reason: Seq<char>) -> Result<
    TaskView,
    TaskQueueErrorView,
> {
    match task.status {
        TaskStatus::Pending | TaskStatus::InProgress | TaskStatus::ReviewRequired => Ok(
            TaskView {
                status: TaskStatus::AttentionRequired,
                attention_reason: Some(reason),
                ..task
            },
        ),
        status => Err(refused("require attention"@, status)),
    }
}

/// The task once its user has confirmed the reviewed work.
pub open spec fn completed(task: TaskView) -> Result<TaskView, TaskQueueErrorView> {
    if task.status == TaskStatus::ReviewRequired {
        Ok(TaskView { status: TaskStatus::Done, ..task })
    } else {
        Err(refused("complete"@, task.status))
    }
}

/// Whether a transition gave `after` from `before` and said so: on success the
/// task is as `expected` says, on refusal it is unchanged.
pub open spec fn transition(
    expected: Result<TaskView, TaskQueueErrorView>,
    before: TaskView,
    after: TaskView,
    result: Result<(), TaskQueueErrorView>,
) -> bool {
    match expected {
        Ok(task) => after == task && result is Ok,
        Err(error) => after == before && result == Err::<(), TaskQueueErrorView>(error),
    }
}

impl Task {
    /// The task made from an input at given times.
    pub fn new_at(
        id: TaskId,
        input: NewTaskInput,
        created_at_ms: u64,
        updated_at_ms: u64,
    ) -> (task: Task)
        ensures
            task@ == new_task(id@, input@, created_at_ms, updated_at_ms),
    {
        Task {
            id,
            workspace_id: input.workspace_id,
            workspace: input.workspace,
            title: input.title,
            description: input.description,
            priority: input.priority,
            agent_kind: input.agent_kind,
            attachments: input.attachments,
            status: TaskStatus::Pending,
            terminal_pane_id: None,
            attention_reason: None,
            created_at_ms,
            updated_at_ms,
        }
    }

    /// The task made from an input now. The times are read off the clock.
    pub fn new(id: TaskId, input: NewTaskInput) -> (task: Task)
        ensures
            task@ == new_task(id@, input@, task@.created_at_ms, task@.updated_at_ms),
    {
        let created = task_timestamp_now();
        let updated = task_timestamp_now();
        Task::new_at(id, input, created, updated)
    }

    /// Records the session in which the agent was started.
    pub fn mark_launched(&mut self, terminal_pane_id: &str) -> (result: Result<(), TaskQueueError>)
        ensures
            transition(
                launched(old(self)@, terminal_pane_id@),
                old(self)@,
                final(self)@,
                views::result_view(result),
            ),
    {
        match self.status {
            TaskStatus::Pending | TaskStatus::AttentionRequired => {
                self.terminal_pane_id = Some(terminal_pane_id.to_owned());
                self.status = TaskStatus::InProgress;
                self.attention_reason = None;
                Ok(())
            },
            status => Err(TaskQueueError::InvalidTaskTransition { action: "launch", status }),
        }
    }

    /// Records how the command in the session ended.
    pub fn mark_command_finished(&mut self, success: bool) -> (result: Result<(), TaskQueueError>)
        ensures
            transition(
                command_finished(old(self)@, success),
                old(self)@,
                final(self)@,
                views::result_view(result),
            ),
    {
        match self.require_status(TaskStatus::InProgress, "record command completion") {
            Ok(()) => {},
            Err(error) => {
                return Err(error);
            },
        }
        if success {
            self.status = TaskStatus::ReviewRequired;
            self.attention_reason = None;
        } else {
            self.status = TaskStatus::AttentionRequired;
            self.attention_reason = Some("The command did not complete successfully.".to_owned());
        }
        Ok(())
    }

    /// Records why the task cannot go on by itself.
    pub fn mark_attention_required(&mut self, reason: &str) -> (result: Result<(), TaskQueueError>)
        ensures
            transition(
                needing_attention(old(self)@, reason@),
                old(self)@,
                final(self)@,
                views::result_view(result),
            ),
    {
        match self.status {
            TaskStatus::Pending | TaskStatus::InProgress | TaskStatus::ReviewRequired => {
                self.status = TaskStatus::AttentionRequired;
                self.attention_reason = Some(reason.to_owned());
                Ok(())
            },
            status => Err(
                TaskQueueError::InvalidTaskTransition { action: "require attention", status },
            ),
        }
    }

    /// Completes a task whose result was reviewed.
    pub fn mark_done(&mut self) -> (result: Result<(), TaskQueueError>)
        ensures
            transition(completed(old(self)@), old(self)@, final(self)@, views::result_view(result)),
    {
        match self.require_status(TaskStatus::ReviewRequired, "complete") {
            Ok(()) => {},
            Err(error) => {
                return Err(error);
            },
        }
        self.status = TaskStatus::Done;
        Ok(())
    }

    /// Refuses an action in any status but one.
    pub fn require_status(&self, expected: TaskStatus, action: &'static str) -> (result: Result<
        (),
        TaskQueueError,
    >)
        ensures
            result is Ok <==> self@.status == expected,
            result is Err ==> result->Err_0@ == refused(action@, self@.status),
    {
        if self.status == expected {
            Ok(())
        } else {
            Err(TaskQueueError::InvalidTaskTransition { action, status: self.status })
        }
    }
}

/// One of the transitions of a task.
pub ghost enum TaskStep {
    Launch { terminal_pane_id: Seq<char> },
    Finish { success: bool },
    RequireAttention { reason: Seq<char> },
    Complete,
}

/// What a transition does to a task.
pub open spec fn stepped(task: TaskView, step: TaskStep) -> Result<TaskView, TaskQueueErrorView> {
    match step {
        TaskStep::Launch { terminal_pane_id } => launched(task, terminal_pane_id),
        TaskStep::Finish { success } => command_finished(task, success),
        TaskStep::RequireAttention { reason } => needing_attention(task, reason),
        TaskStep::Complete => completed(task),
    }
}

/// No transition changes anything but the status, the linked session and the
/// reason for attention: context and attachments survive every failure.
pub proof fn law_steps_keep_the_work(task: TaskView, step: TaskStep)
    requires
        stepped(task, step) is Ok,
    ensures
        stepped(task, step)->Ok_0 == (TaskView {
            status: stepped(task, step)->Ok_0.status,
            terminal_pane_id: stepped(task, step)->Ok_0.terminal_pane_id,
            attention_reason: stepped(task, step)->Ok_0.attention_reason,
            ..task
        }),
        step is Launch || stepped(task, step)->Ok_0.terminal_pane_id == task.terminal_pane_id,
{
}

/// A task is done only by an explicit completion, and only after a review was
/// asked for.
pub proof fn law_done_only_after_review(task: TaskView, step: TaskStep)
    requires
        stepped(task, step) is Ok,
    ensures
        stepped(task, step)->Ok_0.status == TaskStatus::Done <==> step is Complete,
        step is Complete ==> task.status == TaskStatus::ReviewRequired,
{
}

/// A review is asked for only when a running command has succeeded, and a task
/// is in progress only once it was launched.
pub proof fn law_review_only_after_success(task: TaskView, step: TaskStep)
    requires
        stepped(task, step) is Ok,
    ensures
        stepped(task, step)->Ok_0.status == TaskStatus::ReviewRequired <==> (step matches
            TaskStep::Finish { success } && success),
        step is Finish ==> task.status == TaskStatus::InProgress,
        stepped(task, step)->Ok_0.status == TaskStatus::InProgress <==> step is Launch,
{
}

/// A task that is done stays as it is: every transition is refused.
pub proof fn law_done_is_final(task: TaskView, step: TaskStep)
    requires
        task.status == TaskStatus::Done,
    ensures
        stepped(task, step) is Err,
{
}

/// Whether a task gives a reason for attention exactly when it requires some.
pub open spec fn reason_fits(task: TaskView) -> bool {
    task.attention_reason is Some <==> task.status == TaskStatus::AttentionRequired
}

/// A task gives a reason for attention exactly when it requires some: a new task
/// does, and every transition keeps it so.
pub proof fn law_reason_fits(
    id: Seq<char>,
    input: NewTaskView,
    created_at_ms: u64,
    updated_at_ms: u64,
    task: TaskView,
    step: TaskStep,
)
    requires
        reason_fits(task),
        stepped(task, step) is Ok,
    ensures
        reason_fits(new_task(id, input, created_at_ms, updated_at_ms)),
        reason_fits(stepped(task, step)->Ok_0),
{
}

/// A task whose command failed can be launched again.
pub proof fn law_failed_task_can_be_retried(task: TaskView, terminal_pane_id: Seq<char>)
    requires
        task.status == TaskStatus::InProgress,
    ensures
        command_finished(task, false) is Ok,
        launched(command_finished(task, false)->Ok_0, terminal_pane_id) is Ok,
{
}

/// A launched task is not launched a second time until its command has ended or
/// attention was required.
pub proof fn law_no_second_launch(task: TaskView, first: Seq<char>, second: Seq<char>)
    requires
        launched(task, first) is Ok,
    ensures
        launched(launched(task, first)->Ok_0, second) is Err,
{
}

/// A new task says what was asked for, under the identifier and with the times that
/// it was given; it is pending, no session is linked to it, and nothing is amiss.
pub proof fn law_new_task_keeps_the_input(
    id: Seq<char>,
    input: NewTaskView,
    created_at_ms: u64,
    updated_at_ms: u64,
)
    ensures
        ({
            let task = new_task(id, input, created_at_ms, updated_at_ms);
            &&& task.id == id
            &&& task.workspace_id == input.workspace_id
            &&& task.workspace == input.workspace
            &&& task.title == input.title
            &&& task.description == input.description
            &&& task.priority == input.priority
            &&& task.agent_kind == input.agent_kind
            &&& task.attachments == input.attachments
            &&& task.status == TaskStatus::Pending
            &&& task.terminal_pane_id is None
            &&& task.attention_reason is None
            &&& task.created_at_ms == created_at_ms
            &&& task.updated_at_ms == updated_at_ms
        }),
{
}

/// A task can be launched exactly while it is pending or requires attention. It is
/// then in progress, in the session that was given, and nothing is amiss any more.
pub proof fn law_launching(task: TaskView, terminal_pane_id: Seq<char>)
    ensures
        stepped(task, TaskStep::Launch { terminal_pane_id }) is Ok <==> task.status
            == TaskStatus::Pending || task.status == TaskStatus::AttentionRequired,
        stepped(task, TaskStep::Launch { terminal_pane_id }) matches Ok(after) ==> after.status
            == TaskStatus::InProgress && after.terminal_pane_id == Some(terminal_pane_id)
            && after.attention_reason is None,
{
}

/// The end of a command is recorded exactly while the task is in progress: after a
/// success the task awaits review and nothing is amiss, after a failure it
/// requires attention and says why.
pub proof fn law_finishing(task: TaskView, success: bool)
    ensures
        stepped(task, TaskStep::Finish { success }) is Ok <==> task.status
            == TaskStatus::InProgress,
        stepped(task, TaskStep::Finish { success }) matches Ok(after) ==> after.status == (
        if success {
            TaskStatus::ReviewRequired
        } else {
            TaskStatus::AttentionRequired
        }) && (after.attention_reason is None <==> success) && (!success
            ==> after.attention_reason->0.len() > 0),
{
    reveal_strlit("The command did not complete successfully.");
}

/// Attention can be required exactly of a task that is pending, in progress or to
/// be reviewed; the task then gives the reason that was given.
pub proof fn law_requiring_attention(task: TaskView, reason: Seq<char>)
    ensures
        stepped(task, TaskStep::RequireAttention { reason }) is Ok <==> task.status
            == TaskStatus::Pending || task.status == TaskStatus::InProgress || task.status
            == TaskStatus::ReviewRequired,
        stepped(task, TaskStep::RequireAttention { reason }) matches Ok(after) ==> after.status
            == TaskStatus::AttentionRequired && after.attention_reason == Some(reason),
{
}

/// A task can be completed exactly while it awaits review; only its status
/// changes.
pub proof fn law_completing(task: TaskView)
    ensures
        stepped(task, TaskStep::Complete) is Ok <==> task.status == TaskStatus::ReviewRequired,
        stepped(task, TaskStep::Complete) matches Ok(after) ==> after == (TaskView {
            status: TaskStatus::Done,
            ..task
        }),
{
}

/// A refused transition names the status that it was refused in, and different
/// transitions are named differently.
pub proof fn law_refusal_names_the_status(task: TaskView, step: TaskStep)
    requires
        stepped(task, step) is Err,
    ensures
        stepped(task, step)->Err_0 matches TaskQueueErrorView::InvalidTaskTransition {
            action,
            status,
        } && status == task.status && action == match step {
            TaskStep::Launch { .. } => "launch"@,
            TaskStep::Finish { .. } => "record command completion"@,
            TaskStep::RequireAttention { .. } => "require attention"@,
            TaskStep::Complete => "complete"@,
        },
{
}

/// The life of a task that goes well: launched, finished, reviewed and completed.
/// It ends as it began but for its status and its session.
pub proof fn law_work_can_be_done(task: TaskView, terminal_pane_id: Seq<char>)
    requires
        task.status == TaskStatus::Pending,
    ensures
        ({
            let running = launched(task, terminal_pane_id);
            let finished = command_finished(running->Ok_0, true);
            let done = completed(finished->Ok_0);
            &&& running is Ok
            &&& finished is Ok
            &&& done is Ok
            &&& done->Ok_0 == (TaskView {
                status: TaskStatus::Done,
                terminal_pane_id: Some(terminal_pane_id),
                attention_reason: None,
                ..task
            })
        }),
{
}

/// A time is kept as it is wherever it fits into 64 bits, and a later time is never
/// kept as an earlier one.
pub proof fn law_timestamps(earlier: u128, later: u128)
    requires
        earlier <= later,
    ensures
        timestamp_of(None) == 0,
        earlier <= 0xffff_ffff_ffff_ffff ==> timestamp_of(Some(earlier)) as int == earlier,
        earlier > 0xffff_ffff_ffff_ffff ==> timestamp_of(Some(earlier)) == 0xffff_ffff_ffff_ffff,
        timestamp_of(Some(earlier)) <= timestamp_of(Some(later)),
{
}

} // verus!
