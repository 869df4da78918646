//! The panel that shows the task queue: what is selected in it, and what it
//! shows of workspaces, tasks and sessions.
use vstd::prelude::*;
use vstd::string::*;

use crate::discovery;
use crate::numbers;
use crate::numbers::decimal_text;
use crate::order;
use crate::order::{compare_texts, stable_sort, Order, Standing};
use crate::outside;
use crate::outside::{lossy_text_of, lowercase_of};
use crate::queue;
use crate::queue::{QueueView, TaskQueueModel};
use crate::task::{AgentKind, AttachmentView, Task, TaskId, TaskPriority, TaskStatus, TaskView};
use crate::text;
use crate::text::{chars_of, text_contains, trim_text};
use crate::views;
use crate::workspace::{DiscoveredView, DiscoveredWorkspace, WorkspaceId, WorkspaceSource};

verus! {

/// What is selected in the panel of one window. It is not kept with the tasks.
#[derive(Debug, Eq, PartialEq)]
pub struct TaskPanelSelection {
    selected_workspace_id: Option<WorkspaceId>,
    selected_task_id: Option<TaskId>,
}

/// What is selected in the panel.
pub ghost struct SelectionView {
    pub workspace_id: Option<Seq<char>>,
    pub task_id: Option<Seq<char>>,
}

impl View for TaskPanelSelection {
    type V = SelectionView;

    closed spec fn view(&self) -> SelectionView {
        SelectionView {
            workspace_id: views::option_view(self.selected_workspace_id),
            task_id: views::option_view(self.selected_task_id),
        }
    }
}

impl Clone for TaskPanelSelection {
    fn clone(&self) -> (selection: TaskPanelSelection)
        ensures
            selection@ == self@,
    {
        TaskPanelSelection {
            selected_workspace_id: match &self.selected_workspace_id {
                Some(id) => Some(id.clone()),
                None => None,
            },
            selected_task_id: match &self.selected_task_id {
                Some(id) => Some(id.clone()),
                None => None,
            },
        }
    }
}

impl Default for TaskPanelSelection {
    fn default() -> (selection: TaskPanelSelection)
        ensures
            selection@ == (SelectionView { workspace_id: None, task_id: None }),
    {
        TaskPanelSelection { selected_workspace_id: None, selected_task_id: None }
    }
}

impl TaskPanelSelection {
    /// Selects a workspace, and no task.
    pub fn select_workspace(&mut self, workspace_id: WorkspaceId)
        ensures
            final(self)@ == (SelectionView { workspace_id: Some(workspace_id@), task_id: None }),
    {
        self.selected_workspace_id = Some(workspace_id);
        self.selected_task_id = None;
    }

    /// Selects a task and its workspace.
    pub fn select_task_in_workspace(&mut self, workspace_id: WorkspaceId, task_id: TaskId)
        ensures
            final(self)@ == (SelectionView {
                workspace_id: Some(workspace_id@),
                task_id: Some(task_id@),
            }),
    {
        self.selected_workspace_id = Some(workspace_id);
        self.selected_task_id = Some(task_id);
    }

    /// The selected workspace.
    pub fn selected_workspace_id(&self) -> (id: Option<&WorkspaceId>)
        ensures
            views::option_view(id) == self@.workspace_id,
    {
        self.selected_workspace_id.as_ref()
    }

    /// The selected task.
    pub fn selected_task_id(&self) -> (id: Option<&TaskId>)
        ensures
            views::option_view(id) == self@.task_id,
    {
        self.selected_task_id.as_ref()
    }
}

/// How the priority and the status of a task are shown.
#[derive(Clone, Copy, Debug, Eq, PartialEq)]
pub struct TaskPresentation {
    pub priority_label: &'static str,
    pub status_label: &'static str,
}

/// How a priority is shown.
pub open spec fn priority_label(priority: TaskPriority) -> Seq<char> {
    match priority {
        TaskPriority::High => "Alta"@,
        TaskPriority::Normal => "Normal"@,
        TaskPriority::Low => "Baja"@,
    }
}

/// How a status is shown.
pub open spec fn status_label(status: TaskStatus) -> Seq<char> {
    match status {
        TaskStatus::Pending => "Pendiente"@,
        TaskStatus::InProgress => "En curso"@,
        TaskStatus::ReviewRequired => "Pendiente de revisión"@,
        TaskStatus::AttentionRequired => "Requiere atención"@,
        TaskStatus::Done => "Terminada"@,
    }
}

/// How the priority and the status of a task are shown.
pub fn task_presentation(priority: TaskPriority, status: TaskStatus) -> (shown: TaskPresentation)
    ensures
        shown.priority_label@ == priority_label(priority),
        shown.status_label@ == status_label(status),
{
    let priority_label = match priority {
        TaskPriority::High => "Alta",
        TaskPriority::Normal => "Normal",
        TaskPriority::Low => "Baja",
    };
    let status_label = match status {
        TaskStatus::Pending => "Pendiente",
        TaskStatus::InProgress => "En curso",
        TaskStatus::ReviewRequired => "Pendiente de revisión",
        TaskStatus::AttentionRequired => "Requiere atención",
        TaskStatus::Done => "Terminada",
    };
    TaskPresentation { priority_label, status_label }
}

/// The tasks of the selected workspace; none where no workspace is selected.
pub open spec fn selected_tasks(tasks: Seq<TaskView>, selected: Option<Seq<char>>) -> Seq<TaskView> {
    match selected {
        Some(workspace_id) => queue::tasks_of(tasks, workspace_id),
        None => Seq::empty(),
    }
}

/// The tasks of the selected workspace.
pub fn tasks_for_selected_workspace<'a>(
    tasks: &'a [Task],
    selected_workspace_id: Option<&WorkspaceId>,
) -> (selected: Vec<&'a Task>)
    ensures
        views::views(selected@) == selected_tasks(
            views::views(tasks@),
            views::option_view(selected_workspace_id),
        ),
{
    let mut selected: Vec<&'a Task> = Vec::new();
    let ghost all = views::views(tasks@);
    let workspace_id = match selected_workspace_id {
        Some(workspace_id) => workspace_id,
        None => {
            assert(views::views(selected@) =~= Seq::empty());
            return selected;
        },
    };
    let mut i: usize = 0;
    proof {
        reveal(Seq::filter);
        assert(all.take(0) =~= Seq::empty());
    }
    while i < tasks.len()
        invariant
            i <= tasks@.len(),
            all == views::views(tasks@),
            views::views(selected@) =~= queue::tasks_of(all.take(i as int), workspace_id@),
        decreases tasks@.len() - i,
    {
        let task = &tasks[i];
        let ghost before = views::views(selected@);
        proof {
            reveal(Seq::filter);
            assert(all.take(i + 1).drop_last() =~= all.take(i as int));
            assert(all[i as int] == task@);
        }
        if task.workspace_id.is(workspace_id) {
            selected.push(task);
            assert(views::views(selected@) =~= before.push(task@));
        }
        i += 1;
    }
    assert(all.take(i as int) =~= all);
    selected
}

/// A session, and the task that it was started for, where it was.
#[derive(Clone, Debug, Eq, PartialEq)]
pub struct TaskSessionRow<T> {
    pub session: T,
    pub task_id: Option<TaskId>,
}

impl<T> TaskSessionRow<T> {
    /// A session that belongs to no task.
    pub fn ordinary(session: T) -> (row: TaskSessionRow<T>)
        ensures
            row.session == session,
            row.task_id is None,
    {
        TaskSessionRow { session, task_id: None }
    }

    /// A session that was started for a task.
    pub fn linked(session: T, task_id: TaskId) -> (row: TaskSessionRow<T>)
        ensures
            row.session == session,
            row.task_id == Some(task_id),
    {
        TaskSessionRow { session, task_id: Some(task_id) }
    }
}

/// A session that was started for a task.
#[derive(Clone, Debug, Eq, PartialEq)]
pub struct LinkedTaskSession<T> {
    pub session: T,
    pub task_id: TaskId,
}

/// Sessions that belong to no task, and those that were started for one.
#[derive(Clone, Debug, Eq, PartialEq)]
pub struct TaskSessionPartition<T> {
    pub ordinary: Vec<T>,
    pub linked: Vec<LinkedTaskSession<T>>,
}

/// The sessions that belong to no task, in order.
pub open spec fn ordinary_sessions<T>(rows: Seq<TaskSessionRow<T>>) -> Seq<T>
    decreases rows.len(),
{
    if rows.len() == 0 {
        Seq::empty()
    } else {
        match rows.last().task_id {
            Some(_) => ordinary_sessions(rows.drop_last()),
            None => ordinary_sessions(rows.drop_last()).push(rows.last().session),
        }
    }
}

/// The sessions that were started for a task, in order.
pub open spec fn linked_sessions<T>(rows: Seq<TaskSessionRow<T>>) -> Seq<LinkedTaskSession<T>>
    decreases rows.len(),
{
    if rows.len() == 0 {
        Seq::empty()
    } else {
        match rows.last().task_id {
            Some(task_id) => linked_sessions(rows.drop_last()).push(
                LinkedTaskSession { session: rows.last().session, task_id },
            ),
            None => linked_sessions(rows.drop_last()),
        }
    }
}

/// Parts the sessions that were started for a task from the others. Only what a
/// row says counts; nothing is inferred from a session.
pub fn partition_task_linked_sessions<T>(sessions: Vec<TaskSessionRow<T>>) -> (partition:
    TaskSessionPartition<T>)
    ensures
        partition.ordinary@ == ordinary_sessions(sessions@),
        partition.linked@ == linked_sessions(sessions@),
{
    let ghost all = sessions@;
    let mut ordinary: Vec<T> = Vec::new();
    let mut linked: Vec<LinkedTaskSession<T>> = Vec::new();
    assert(all.take(0) =~= Seq::empty());
    for row in it: sessions
        invariant
            all == it.seq(),
            it.index() <= all.len(),
            ordinary@ == ordinary_sessions(all.take(it.index() as int)),
            linked@ == linked_sessions(all.take(it.index() as int)),
    {
        let ghost at = it.index() as int;
        assert(all.take(at + 1).drop_last() =~= all.take(at));
        assert(all.take(at + 1).last() == row);
        match row.task_id {
            Some(task_id) => linked.push(LinkedTaskSession { session: row.session, task_id }),
            None => ordinary.push(row.session),
        }
    }
    assert(all.take(all.len() as int) =~= all);
    TaskSessionPartition { ordinary, linked }
}

/// The rows of some sessions that belong to no task.
pub open spec fn ordinary_rows<T>(sessions: Seq<T>) -> Seq<TaskSessionRow<T>> {
    sessions.map_values(|session: T| TaskSessionRow { session, task_id: None })
}

/// The rows of some sessions that were started for a task.
pub open spec fn linked_rows<T>(sessions: Seq<LinkedTaskSession<T>>) -> Seq<TaskSessionRow<T>> {
    sessions.map_values(
        |linked: LinkedTaskSession<T>|
            TaskSessionRow { session: linked.session, task_id: Some(linked.task_id) },
    )
}

/// No session is lost, none is counted twice, and each keeps its task: the two
/// parts together have the rows that were parted.
pub proof fn law_partition_is_complete<T>(rows: Seq<TaskSessionRow<T>>)
    ensures
        ordinary_rows(ordinary_sessions(rows)).to_multiset().add(
            linked_rows(linked_sessions(rows)).to_multiset(),
        ) == rows.to_multiset(),
    decreases rows.len(),
{
    broadcast use vstd::seq_lib::group_to_multiset_ensures;

    if rows.len() > 0 {
        let earlier = rows.drop_last();
        let row = rows.last();
        law_partition_is_complete(earlier);
        assert(rows =~= earlier.push(row));
        let ordinary = ordinary_rows(ordinary_sessions(earlier));
        let linked = linked_rows(linked_sessions(earlier));
        match row.task_id {
            Some(_) => {
                assert(linked_rows(linked_sessions(rows)) =~= linked.push(row));
                assert(ordinary.to_multiset().add(linked.to_multiset().insert(row))
                    =~= ordinary.to_multiset().add(linked.to_multiset()).insert(row));
            },
            None => {
                assert(ordinary_rows(ordinary_sessions(rows)) =~= ordinary.push(row));
                assert(ordinary.to_multiset().insert(row).add(linked.to_multiset())
                    =~= ordinary.to_multiset().add(linked.to_multiset()).insert(row));
            },
        }
    } else {
        assert(ordinary_rows(ordinary_sessions(rows)) =~= rows);
        assert(linked_rows(linked_sessions(rows)) =~= rows);
        assert(rows.to_multiset().add(rows.to_multiset()) =~= rows.to_multiset());
    }
}

/// What the user asks for in the panel.
#[derive(Debug, Eq, PartialEq)]
pub enum WorkspaceAction {
    ShowTaskQueue,
    SelectTask(TaskId),
    LaunchTask { task_id: TaskId, agent: AgentKind },
    OpenLinkedTaskSession(TaskId),
    MarkTaskDone(TaskId),
}

/// What the user asks for in the panel.
pub ghost enum WorkspaceActionView {
    ShowTaskQueue,
    SelectTask(Seq<char>),
    LaunchTask { task_id: Seq<char>, agent: AgentKind },
    OpenLinkedTaskSession(Seq<char>),
    MarkTaskDone(Seq<char>),
}

impl View for WorkspaceAction {
    type V = WorkspaceActionView;

    open spec fn view(&self) -> WorkspaceActionView {
        match self {
            WorkspaceAction::ShowTaskQueue => WorkspaceActionView::ShowTaskQueue,
            WorkspaceAction::SelectTask(id) => WorkspaceActionView::SelectTask(id@),
            WorkspaceAction::LaunchTask { task_id, agent } => WorkspaceActionView::LaunchTask {
                task_id: task_id@,
                agent: *agent,
            },
            WorkspaceAction::OpenLinkedTaskSession(
                id,
            ) => WorkspaceActionView::OpenLinkedTaskSession(id@),
            WorkspaceAction::MarkTaskDone(id) => WorkspaceActionView::MarkTaskDone(id@),
        }
    }
}

impl Clone for WorkspaceAction {
    fn clone(&self) -> (action: WorkspaceAction)
        ensures
            action@ == self@,
    {
        match self {
            WorkspaceAction::ShowTaskQueue => WorkspaceAction::ShowTaskQueue,
            WorkspaceAction::SelectTask(id) => WorkspaceAction::SelectTask(id.clone()),
            WorkspaceAction::LaunchTask { task_id, agent } => WorkspaceAction::LaunchTask {
                task_id: task_id.clone(),
                agent: *agent,
            },
            WorkspaceAction::OpenLinkedTaskSession(id) => WorkspaceAction::OpenLinkedTaskSession(
                id.clone(),
            ),
            WorkspaceAction::MarkTaskDone(id) => WorkspaceAction::MarkTaskDone(id.clone()),
        }
    }
}

/// What the user can ask for with a task.
#[derive(Clone, Debug, Eq, PartialEq)]
pub struct TaskPanelActions {
    pub select: WorkspaceAction,
    pub launch_codex: WorkspaceAction,
    pub launch_claude_code: WorkspaceAction,
    pub open_linked_session: WorkspaceAction,
    pub mark_done: WorkspaceAction,
}

/// What the user can ask for with a task.
pub fn task_actions_for(task_id: TaskId) -> (actions: TaskPanelActions)
    ensures
        actions.select@ == WorkspaceActionView::SelectTask(task_id@),
        actions.launch_codex@ == (WorkspaceActionView::LaunchTask {
            task_id: task_id@,
            agent: AgentKind::Codex,
        }),
        actions.launch_claude_code@ == (WorkspaceActionView::LaunchTask {
            task_id: task_id@,
            agent: AgentKind::ClaudeCode,
        }),
        actions.open_linked_session@ == WorkspaceActionView::OpenLinkedTaskSession(task_id@),
        actions.mark_done@ == WorkspaceActionView::MarkTaskDone(task_id@),
{
    TaskPanelActions {
        select: WorkspaceAction::SelectTask(task_id.clone()),
        launch_codex: WorkspaceAction::LaunchTask {
            task_id: task_id.clone(),
            agent: AgentKind::Codex,
        },
        launch_claude_code: WorkspaceAction::LaunchTask {
            task_id: task_id.clone(),
            agent: AgentKind::ClaudeCode,
        },
        open_linked_session: WorkspaceAction::OpenLinkedTaskSession(task_id.clone()),
        mark_done: WorkspaceAction::MarkTaskDone(task_id),
    }
}

/// The color in which the status of a task is shown.
#[derive(Clone, Copy, Debug, Eq, PartialEq, Structural)]
pub enum StatusTone {
    Red,
    Yellow,
    Green,
    Muted,
}

/// The color for a status.
pub open spec fn tone_of(status: TaskStatus) -> StatusTone {
    match status {
        TaskStatus::AttentionRequired => StatusTone::Red,
        TaskStatus::ReviewRequired => StatusTone::Yellow,
        TaskStatus::Done => StatusTone::Green,
        TaskStatus::Pending | TaskStatus::InProgress => StatusTone::Muted,
    }
}

/// The color for a status.
pub fn task_status_color(status: TaskStatus) -> (tone: StatusTone)
    ensures
        tone == tone_of(status),
{
    match status {
        TaskStatus::AttentionRequired => StatusTone::Red,
        TaskStatus::ReviewRequired => StatusTone::Yellow,
        TaskStatus::Done => StatusTone::Green,
        TaskStatus::Pending | TaskStatus::InProgress => StatusTone::Muted,
    }
}

/// The order of tasks in the panel: the last changed first, then by title and by
/// identifier.
pub struct ByRecency;

/// How two tasks of the panel stand to each other.
pub open spec fn recency_order(a: TaskView, b: TaskView) -> Standing {
    if a.updated_at_ms > b.updated_at_ms {
        Standing::Earlier
    } else if a.updated_at_ms < b.updated_at_ms {
        Standing::Later
    } else {
        match order::text_order(a.title, b.title) {
            Standing::Same => order::text_order(a.id, b.id),
            standing => standing,
        }
    }
}

impl Order<Task> for ByRecency {
    open spec fn le(a: TaskView, b: TaskView) -> bool {
        recency_order(a, b) != Standing::Later
    }

    proof fn total(a: TaskView, b: TaskView) {
        order::lemma_text_order_same(a.title, b.title);
        order::lemma_text_order_same(b.title, a.title);
        order::lemma_text_order_total(a.title, b.title);
        order::lemma_text_order_total(a.id, b.id);
        assert(Self::le(a, b) == (recency_order(a, b) != Standing::Later));
        assert(Self::le(b, a) == (recency_order(b, a) != Standing::Later));
    }

    proof fn transitive(a: TaskView, b: TaskView, c: TaskView) {
        order::lemma_text_order_same(a.title, b.title);
        order::lemma_text_order_same(b.title, c.title);
        order::lemma_text_order_same(a.title, c.title);
        if a.updated_at_ms == b.updated_at_ms && b.updated_at_ms == c.updated_at_ms {
            order::lemma_text_order_transitive(a.title, b.title, c.title);
            if a.title == c.title {
                order::lemma_text_order_antisymmetric(a.title, b.title);
                order::lemma_text_order_transitive(a.id, b.id, c.id);
            }
        }
    }

    fn in_order(a: &Task, b: &Task) -> (ordered: bool) {
        if a.updated_at_ms > b.updated_at_ms {
            return true;
        }
        if a.updated_at_ms < b.updated_at_ms {
            return false;
        }
        match compare_texts(a.title.as_str(), b.title.as_str()) {
            Standing::Earlier => true,
            Standing::Later => false,
            Standing::Same => match compare_texts(a.id.0.as_str(), b.id.0.as_str()) {
                Standing::Later => false,
                _ => true,
            },
        }
    }
}

/// What is searched for: without the white space around it, in lower case.
pub open spec fn search_text(query: Seq<char>) -> Seq<char> {
    outside::lowercase(text::trim(query))
}

/// Whether a task is shown for a search: what is searched for is in its title or
/// description, without regard to case.
pub open spec fn matches_search(task: TaskView, wanted: Seq<char>) -> bool {
    ||| wanted.len() == 0
    ||| text::contains_text(outside::lowercase(task.title), wanted)
    ||| text::contains_text(outside::lowercase(task.description), wanted)
}

/// The tasks that the panel shows.
pub open spec fn shown_tasks(tasks: Seq<TaskView>, workspace_id: Seq<char>, query: Seq<char>) -> Seq<
    TaskView,
> {
    order::stably_sorted::<Task, ByRecency>(queue::tasks_of(tasks, workspace_id)).filter(
        |task: TaskView| matches_search(task, search_text(query)),
    )
}

/// The tasks that the panel shows.
pub fn panel_tasks(queue: &TaskQueueModel, workspace_id: &WorkspaceId, query: &str) -> (shown: Vec<
    Task,
>)
    ensures
        views::views(shown@) == shown_tasks(queue@.tasks, workspace_id@, query@),
{
    let wanted = lowercase_of(trim_text(query).as_str());
    let found = queue.tasks_for_workspace(workspace_id);
    let ghost all = queue::tasks_of(queue@.tasks, workspace_id@);
    let mut copies: Vec<Task> = Vec::new();
    let mut i: usize = 0;
    while i < found.len()
        invariant
            i <= found@.len(),
            all == views::views(found@),
            views::views(copies@) =~= all.take(i as int),
        decreases found@.len() - i,
    {
        let ghost before = views::views(copies@);
        let copy = found[i].clone();
        assert(all[i as int] == found@[i as int]@);
        copies.push(copy);
        assert(views::views(copies@) =~= before.push(copy@));
        i += 1;
    }
    assert(all.take(i as int) =~= all);
    let sorted = stable_sort::<Task, ByRecency>(copies);
    let ghost in_order = views::views(sorted@);
    let mut shown: Vec<Task> = Vec::new();
    proof {
        reveal(Seq::filter);
        assert(in_order.take(0) =~= Seq::empty());
    }
    for task in it: sorted
        invariant
            in_order == views::views(it.seq()),
            it.index() <= in_order.len(),
            wanted@ == search_text(query@),
            views::views(shown@) =~= in_order.take(it.index() as int).filter(
                |task: TaskView| matches_search(task, search_text(query@)),
            ),
    {
        let ghost at = it.index() as int;
        let ghost before = views::views(shown@);
        proof {
            reveal(Seq::filter);
            assert(in_order.take(at + 1).drop_last() =~= in_order.take(at));
            assert(in_order[at] == task@);
        }
        if wanted.as_str().is_empty() || text_contains(
            lowercase_of(task.title.as_str()).as_str(),
            wanted.as_str(),
        ) || text_contains(lowercase_of(task.description.as_str()).as_str(), wanted.as_str()) {
            shown.push(task);
            assert(views::views(shown@) =~= before.push(task@));
        }
    }
    assert(in_order.take(in_order.len() as int) =~= in_order);
    shown
}

/// A workspace as it is listed in the panel.
#[derive(Debug, Eq, PartialEq)]
pub struct WorkspaceRow {
    pub workspace_id: WorkspaceId,
    pub label: String,
    pub is_available: bool,
    pub is_selected: bool,
}

/// A workspace as it is listed in the panel.
pub ghost struct WorkspaceRowView {
    pub workspace_id: Seq<char>,
    pub label: Seq<char>,
    pub is_available: bool,
    pub is_selected: bool,
}

impl View for WorkspaceRow {
    type V = WorkspaceRowView;

    open spec fn view(&self) -> WorkspaceRowView {
        WorkspaceRowView {
            workspace_id: self.workspace_id@,
            label: self.label@,
            is_available: self.is_available,
            is_selected: self.is_selected,
        }
    }
}

/// How a workspace is listed: one that is not available says so.
pub open spec fn workspace_row(
    workspace: DiscoveredView,
    selected: Option<Seq<char>>,
) -> WorkspaceRowView {
    WorkspaceRowView {
        workspace_id: workspace.id,
        label: if workspace.is_available {
            workspace.display_name
        } else {
            workspace.display_name + " (no disponible)"@
        },
        is_available: workspace.is_available,
        is_selected: selected == Some(workspace.id),
    }
}

/// How a workspace is listed.
pub fn render_workspace_row(
    workspace: &DiscoveredWorkspace,
    selected_workspace_id: Option<&WorkspaceId>,
) -> (row: WorkspaceRow)
    ensures
        row@ == workspace_row(workspace@, views::option_view(selected_workspace_id)),
{
    let mut label = workspace.display_name.clone();
    if !workspace.is_available {
        label.append(" (no disponible)");
    }
    let is_selected = match selected_workspace_id {
        Some(id) => id.is(&workspace.id),
        None => false,
    };
    WorkspaceRow {
        workspace_id: workspace.id.clone(),
        label,
        is_available: workspace.is_available,
        is_selected,
    }
}

/// A group of workspaces in the panel. An empty one has a notice in their place.
#[derive(Debug, Eq, PartialEq)]
pub struct WorkspaceSection {
    pub heading: &'static str,
    pub rows: Vec<WorkspaceRow>,
    pub notice: Option<&'static str>,
}

/// A group of workspaces in the panel.
pub ghost struct WorkspaceSectionView {
    pub heading: Seq<char>,
    pub rows: Seq<WorkspaceRowView>,
    pub notice: Option<Seq<char>>,
}

impl View for WorkspaceSection {
    type V = WorkspaceSectionView;

    open spec fn view(&self) -> WorkspaceSectionView {
        WorkspaceSectionView {
            heading: self.heading@,
            rows: views::views(self.rows@),
            notice: match self.notice {
                Some(notice) => Some(notice@),
                None => None,
            },
        }
    }
}

/// What heads a group of workspaces.
pub open spec fn section_heading(source: WorkspaceSource) -> Seq<char> {
    match source {
        WorkspaceSource::Github => "GitHub"@,
        WorkspaceSource::ActiveProjects => "01_Proyectos_Activos"@,
    }
}

/// How a group of workspaces is listed.
pub open spec fn workspace_section(
    queue: QueueView,
    source: WorkspaceSource,
    selected: Option<Seq<char>>,
) -> WorkspaceSectionView {
    let found = discovery::of_source(queue.workspaces, source);
    WorkspaceSectionView {
        heading: section_heading(source),
        rows: found.map_values(
            |workspace: DiscoveredView| workspace_row(workspace, selected),
        ),
        notice: if found.len() == 0 {
            Some("No se han encontrado proyectos."@)
        } else {
            None
        },
    }
}

fn render_workspace_section(
    queue: &TaskQueueModel,
    source: WorkspaceSource,
    heading: &'static str,
    selected_workspace_id: Option<&WorkspaceId>,
) -> (section: WorkspaceSection)
    requires
        heading@ == section_heading(source),
    ensures
        section@ == workspace_section(queue@, source, views::option_view(selected_workspace_id)),
{
    let found = queue.workspaces_for_source(source);
    let ghost selected = views::option_view(selected_workspace_id);
    let ghost workspaces = discovery::of_source(queue@.workspaces, source);
    let ghost all = workspaces.map_values(
        |workspace: DiscoveredView| workspace_row(workspace, selected),
    );
    let mut rows: Vec<WorkspaceRow> = Vec::new();
    let mut i: usize = 0;
    while i < found.len()
        invariant
            i <= found@.len(),
            workspaces == views::views(found@),
            selected == views::option_view(selected_workspace_id),
            all == workspaces.map_values(
                |workspace: DiscoveredView| workspace_row(workspace, selected),
            ),
            views::views(rows@) =~= all.take(i as int),
        decreases found@.len() - i,
    {
        let ghost before = views::views(rows@);
        let row = render_workspace_row(found[i], selected_workspace_id);
        assert(workspaces[i as int] == found@[i as int]@);
        assert(row@ == all[i as int]);
        rows.push(row);
        assert(views::views(rows@) =~= before.push(row@));
        i += 1;
    }
    assert(all.take(i as int) =~= all);
    let notice = if found.len() == 0 {
        Some("No se han encontrado proyectos.")
    } else {
        None
    };
    WorkspaceSection { heading, rows, notice }
}

/// The groups of workspaces in the panel.
pub open spec fn workspace_sections(queue: QueueView, selected: Option<Seq<char>>) -> Seq<
    WorkspaceSectionView,
> {
    seq![
        workspace_section(queue, WorkspaceSource::Github, selected),
        workspace_section(queue, WorkspaceSource::ActiveProjects, selected),
    ]
}

/// The groups of workspaces in the panel.
pub fn render_workspace_selector(
    queue: &TaskQueueModel,
    selected_workspace_id: Option<&WorkspaceId>,
) -> (sections: Vec<WorkspaceSection>)
    ensures
        views::views(sections@) == workspace_sections(
            queue@,
            views::option_view(selected_workspace_id),
        ),
{
    let mut sections: Vec<WorkspaceSection> = Vec::new();
    sections.push(
        render_workspace_section(
            queue,
            WorkspaceSource::Github,
            "GitHub",
            selected_workspace_id,
        ),
    );
    sections.push(
        render_workspace_section(
            queue,
            WorkspaceSource::ActiveProjects,
            "01_Proyectos_Activos",
            selected_workspace_id,
        ),
    );
    assert(views::views(sections@) =~= workspace_sections(
        queue@,
        views::option_view(selected_workspace_id),
    ));
    sections
}

/// Takes over that a workspace was clicked on, and tells what is to be shown.
pub fn click_workspace_row(selection: &mut TaskPanelSelection, workspace_id: WorkspaceId) -> (action:
    WorkspaceAction)
    ensures
        final(selection)@ == (SelectionView { workspace_id: Some(workspace_id@), task_id: None }),
        action@ == WorkspaceActionView::ShowTaskQueue,
{
    selection.select_workspace(workspace_id);
    WorkspaceAction::ShowTaskQueue
}

/// A task as it is listed in the panel.
#[derive(Debug, Eq, PartialEq)]
pub struct TaskRow {
    pub title: String,
    pub metadata: String,
    pub tone: StatusTone,
    pub is_selected: bool,
    pub action: WorkspaceAction,
}

/// A task as it is listed in the panel.
pub ghost struct TaskRowView {
    pub title: Seq<char>,
    pub metadata: Seq<char>,
    pub tone: StatusTone,
    pub is_selected: bool,
    pub action: WorkspaceActionView,
}

impl View for TaskRow {
    type V = TaskRowView;

    open spec fn view(&self) -> TaskRowView {
        TaskRowView {
            title: self.title@,
            metadata: self.metadata@,
            tone: self.tone,
            is_selected: self.is_selected,
            action: self.action@,
        }
    }
}

/// How a task is listed.
pub open spec fn task_row(task: TaskView, selected: Option<Seq<char>>) -> TaskRowView {
    TaskRowView {
        title: task.title,
        metadata: priority_label(task.priority) + " · "@ + status_label(task.status),
        tone: tone_of(task.status),
        is_selected: selected == Some(task.id),
        action: WorkspaceActionView::SelectTask(task.id),
    }
}

/// How a task is listed.
pub fn render_task_row(task: &Task, selected_task_id: Option<&TaskId>) -> (row: TaskRow)
    ensures
        row@ == task_row(task@, views::option_view(selected_task_id)),
{
    let shown = task_presentation(task.priority, task.status);
    let mut metadata = shown.priority_label.to_owned();
    metadata.append(" · ");
    metadata.append(shown.status_label);
    let is_selected = match selected_task_id {
        Some(id) => id.is(&task.id),
        None => false,
    };
    TaskRow {
        title: task.title.clone(),
        metadata,
        tone: task_status_color(task.status),
        is_selected,
        action: task_actions_for(task.id.clone()).select,
    }
}

/// The name of an agent, written as one word.
pub open spec fn agent_word(agent: AgentKind) -> Seq<char> {
    match agent {
        AgentKind::Codex => "Codex"@,
        AgentKind::ClaudeCode => "ClaudeCode"@,
    }
}

/// A name written as one word, with a space before each inner capital letter.
pub open spec fn spaced(word: Seq<char>) -> Seq<char>
    decreases word.len(),
{
    if word.len() == 0 {
        Seq::empty()
    } else if word.len() > 1 && 'A' <= word.last() <= 'Z' {
        spaced(word.drop_last()).push(' ').push(word.last())
    } else {
        spaced(word.drop_last()).push(word.last())
    }
}

/// What the button that starts an agent says.
pub open spec fn launch_label(agent: AgentKind) -> Seq<char> {
    "Abrir con "@ + spaced(agent_word(agent))
}

fn label_of_launch(agent: AgentKind) -> (label: String)
    ensures
        label@ == launch_label(agent),
{
    let word = match agent {
        AgentKind::Codex => "Codex",
        AgentKind::ClaudeCode => "ClaudeCode",
    };
    let chars = chars_of(word);
    let mut label = "Abrir con ".to_owned();
    let mut i: usize = 0;
    assert(chars@.take(0) =~= Seq::empty());
    assert(label@ =~= "Abrir con "@ + spaced(chars@.take(0)));
    while i < chars.len()
        invariant
            i <= chars@.len(),
            label@ == "Abrir con "@ + spaced(chars@.take(i as int)),
        decreases chars@.len() - i,
    {
        let c = chars[i];
        assert(chars@.take(i + 1).drop_last() =~= chars@.take(i as int));
        if i > 0 && 'A' <= c && c <= 'Z' {
            label.push(' ');
        }
        label.push(c);
        assert(label@ =~= "Abrir con "@ + spaced(chars@.take(i + 1)));
        i += 1;
    }
    assert(chars@.take(i as int) =~= chars@);
    label
}

/// A button in the panel.
#[derive(Debug, Eq, PartialEq)]
pub struct TaskButton {
    pub label: String,
    pub action: WorkspaceAction,
    pub is_primary: bool,
    pub is_enabled: bool,
}

/// A button in the panel.
pub ghost struct TaskButtonView {
    pub label: Seq<char>,
    pub action: WorkspaceActionView,
    pub is_primary: bool,
    pub is_enabled: bool,
}

impl View for TaskButton {
    type V = TaskButtonView;

    open spec fn view(&self) -> TaskButtonView {
        TaskButtonView {
            label: self.label@,
            action: self.action@,
            is_primary: self.is_primary,
            is_enabled: self.is_enabled,
        }
    }
}

/// How a button is colored.
#[derive(Clone, Copy, Debug, Eq, PartialEq, Structural)]
pub enum ButtonTone {
    Disabled,
    Primary,
    Plain,
}

/// How a button is colored.
pub open spec fn tone_of_button(button: TaskButtonView) -> ButtonTone {
    if !button.is_enabled {
        ButtonTone::Disabled
    } else if button.is_primary {
        ButtonTone::Primary
    } else {
        ButtonTone::Plain
    }
}

impl TaskButton {
    /// How the button is colored.
    pub fn tone(&self) -> (tone: ButtonTone)
        ensures
            tone == tone_of_button(self@),
    {
        if !self.is_enabled {
            ButtonTone::Disabled
        } else if self.is_primary {
            ButtonTone::Primary
        } else {
            ButtonTone::Plain
        }
    }

    /// What is asked for when the button is clicked on; nothing where it is
    /// disabled.
    pub fn clicked(self) -> (action: Option<WorkspaceAction>)
        ensures
            views::option_view(action) == if self@.is_enabled {
                Some(self@.action)
            } else {
                None
            },
    {
        if self.is_enabled {
            Some(self.action)
        } else {
            None
        }
    }
}

/// The buttons for a task. An agent can be started only where the workspace is
/// available, a session opened only where there is one, and the task completed
/// only where it awaits review.
pub open spec fn task_buttons(task: TaskView, workspace_is_available: bool) -> Seq<TaskButtonView> {
    let launch = seq![
        TaskButtonView {
            label: launch_label(AgentKind::Codex),
            action: WorkspaceActionView::LaunchTask { task_id: task.id, agent: AgentKind::Codex },
            is_primary: true,
            is_enabled: workspace_is_available,
        },
        TaskButtonView {
            label: launch_label(AgentKind::ClaudeCode),
            action: WorkspaceActionView::LaunchTask {
                task_id: task.id,
                agent: AgentKind::ClaudeCode,
            },
            is_primary: false,
            is_enabled: workspace_is_available,
        },
    ];
    let open = if task.terminal_pane_id is Some {
        seq![
            TaskButtonView {
                label: "Abrir sesión"@,
                action: WorkspaceActionView::OpenLinkedTaskSession(task.id),
                is_primary: false,
                is_enabled: true,
            },
        ]
    } else {
        Seq::empty()
    };
    let complete = if task.status == TaskStatus::ReviewRequired {
        seq![
            TaskButtonView {
                label: "Marcar terminada"@,
                action: WorkspaceActionView::MarkTaskDone(task.id),
                is_primary: false,
                is_enabled: true,
            },
        ]
    } else {
        Seq::empty()
    };
    launch + open + complete
}

/// The buttons for a task.
pub fn render_task_buttons(task: &Task, workspace_is_available: bool) -> (buttons: Vec<TaskButton>)
    ensures
        views::views(buttons@) == task_buttons(task@, workspace_is_available),
{
    let actions = task_actions_for(task.id.clone());
    let mut buttons: Vec<TaskButton> = Vec::new();
    buttons.push(
        TaskButton {
            label: label_of_launch(AgentKind::Codex),
            action: actions.launch_codex,
            is_primary: true,
            is_enabled: workspace_is_available,
        },
    );
    buttons.push(
        TaskButton {
            label: label_of_launch(AgentKind::ClaudeCode),
            action: actions.launch_claude_code,
            is_primary: false,
            is_enabled: workspace_is_available,
        },
    );
    if task.terminal_pane_id.is_some() {
        buttons.push(
            TaskButton {
                label: "Abrir sesión".to_owned(),
                action: actions.open_linked_session,
                is_primary: false,
                is_enabled: true,
            },
        );
    }
    if task.status == TaskStatus::ReviewRequired {
        buttons.push(
            TaskButton {
                label: "Marcar terminada".to_owned(),
                action: actions.mark_done,
                is_primary: false,
                is_enabled: true,
            },
        );
    }
    assert(views::views(buttons@) =~= task_buttons(task@, workspace_is_available));
    buttons
}

/// What the panel says about one task.
#[derive(Debug, Eq, PartialEq)]
pub struct TaskDetail {
    pub heading: &'static str,
    pub title: String,
    pub summary: String,
    pub context: String,
    pub attachments_heading: String,
    pub attachments: Vec<String>,
    pub buttons: Vec<TaskButton>,
}

/// What the panel says about one task.
pub ghost struct TaskDetailView {
    pub heading: Seq<char>,
    pub title: Seq<char>,
    pub summary: Seq<char>,
    pub context: Seq<char>,
    pub attachments_heading: Seq<char>,
    pub attachments: Seq<Seq<char>>,
    pub buttons: Seq<TaskButtonView>,
}

impl View for TaskDetail {
    type V = TaskDetailView;

    open spec fn view(&self) -> TaskDetailView {
        TaskDetailView {
            heading: self.heading@,
            title: self.title@,
            summary: self.summary@,
            context: self.context@,
            attachments_heading: self.attachments_heading@,
            attachments: views::views(self.attachments@),
            buttons: views::views(self.buttons@),
        }
    }
}

/// What the panel says about one task.
pub open spec fn task_detail(task: TaskView, workspace_is_available: bool) -> TaskDetailView {
    TaskDetailView {
        heading: "Detalle de tarea"@,
        title: task.title,
        summary: "Prioridad: "@ + priority_label(task.priority) + " · Estado: "@ + status_label(
            task.status,
        ),
        context: if text::trim(task.description).len() == 0 {
            "Contexto: sin contexto"@
        } else {
            "Contexto: "@ + task.description
        },
        attachments_heading: "Adjuntos: "@ + numbers::decimal(task.attachments.len()),
        attachments: task.attachments.map_values(
            |attachment: AttachmentView| "• "@ + outside::shown_text(attachment.path),
        ),
        buttons: task_buttons(task, workspace_is_available),
    }
}

/// What the panel says about one task.
pub fn render_task_detail(task: &Task, workspace_is_available: bool) -> (detail: TaskDetail)
    ensures
        detail@ == task_detail(task@, workspace_is_available),
{
    let shown = task_presentation(task.priority, task.status);
    let mut summary = "Prioridad: ".to_owned();
    summary.append(shown.priority_label);
    summary.append(" · Estado: ");
    summary.append(shown.status_label);
    let context = if trim_text(task.description.as_str()).as_str().is_empty() {
        "Contexto: sin contexto".to_owned()
    } else {
        let mut context = "Contexto: ".to_owned();
        context.append(task.description.as_str());
        context
    };
    let mut attachments_heading = "Adjuntos: ".to_owned();
    attachments_heading.append(decimal_text(task.attachments.len() as u64).as_str());
    assert(task@.attachments.len() == task.attachments@.len());
    let ghost all = task@.attachments.map_values(
        |attachment: AttachmentView| "• "@ + outside::shown_text(attachment.path),
    );
    let mut attachments: Vec<String> = Vec::new();
    let mut i: usize = 0;
    while i < task.attachments.len()
        invariant
            i <= task.attachments@.len(),
            all == task@.attachments.map_values(
                |attachment: AttachmentView| "• "@ + outside::shown_text(attachment.path),
            ),
            views::views(attachments@) =~= all.take(i as int),
        decreases task.attachments@.len() - i,
    {
        let ghost before = views::views(attachments@);
        let mut line = "• ".to_owned();
        line.append(lossy_text_of(task.attachments[i].path.as_bytes()).as_str());
        assert(task@.attachments[i as int] == task.attachments@[i as int]@);
        assert(line@ == all[i as int]);
        attachments.push(line);
        assert(views::views(attachments@) =~= before.push(line@));
        i += 1;
    }
    assert(all.take(i as int) =~= all);
    TaskDetail {
        heading: "Detalle de tarea",
        title: task.title.clone(),
        summary,
        context,
        attachments_heading,
        attachments,
        buttons: render_task_buttons(task, workspace_is_available),
    }
}

/// What the panel shows below the workspaces.
#[derive(Debug, Eq, PartialEq)]
pub struct TaskSection {
    pub heading: Option<&'static str>,
    pub rows: Vec<TaskRow>,
    pub notice: Option<&'static str>,
    pub detail: Option<TaskDetail>,
}

/// What the panel shows below the workspaces.
pub ghost struct TaskSectionView {
    pub heading: Option<Seq<char>>,
    pub rows: Seq<TaskRowView>,
    pub notice: Option<Seq<char>>,
    pub detail: Option<TaskDetailView>,
}

impl View for TaskSection {
    type V = TaskSectionView;

    open spec fn view(&self) -> TaskSectionView {
        TaskSectionView {
            heading: match self.heading {
                Some(heading) => Some(heading@),
                None => None,
            },
            rows: views::views(self.rows@),
            notice: match self.notice {
                Some(notice) => Some(notice@),
                None => None,
            },
            detail: views::option_view(self.detail),
        }
    }
}

/// The panel.
#[derive(Debug, Eq, PartialEq)]
pub struct TaskQueuePanel {
    pub heading: &'static str,
    pub workspaces: Vec<WorkspaceSection>,
    pub tasks: TaskSection,
}

/// The panel.
pub ghost struct PanelView {
    pub heading: Seq<char>,
    pub workspaces: Seq<WorkspaceSectionView>,
    pub tasks: TaskSectionView,
}

impl View for TaskQueuePanel {
    type V = PanelView;

    open spec fn view(&self) -> PanelView {
        PanelView {
            heading: self.heading@,
            workspaces: views::views(self.workspaces@),
            tasks: self.tasks@,
        }
    }
}

/// The task whose details are shown: the selected one, where it is in the queue
/// and belongs to the selected workspace.
pub open spec fn detailed_task(
    queue: QueueView,
    workspace_id: Seq<char>,
    selected: Option<Seq<char>>,
) -> Option<TaskView> {
    match selected {
        Some(id) => match queue::task_with(queue.tasks, id) {
            Some(task) => if task.workspace_id == workspace_id {
                Some(task)
            } else {
                None
            },
            None => None,
        },
        None => None,
    }
}

/// Whether the workspace with an identifier is there and available.
pub open spec fn is_available(queue: QueueView, workspace_id: Seq<char>) -> bool {
    match queue::workspace_with(queue.workspaces, workspace_id) {
        Some(workspace) => workspace.is_available,
        None => false,
    }
}

/// What the panel shows below the workspaces.
pub open spec fn task_section(
    queue: QueueView,
    selection: SelectionView,
    query: Seq<char>,
) -> TaskSectionView {
    match selection.workspace_id {
        None => TaskSectionView {
            heading: None,
            rows: Seq::empty(),
            notice: Some("Selecciona un espacio de trabajo para ver sus tareas."@),
            detail: None,
        },
        Some(workspace_id) => {
            let shown = shown_tasks(queue.tasks, workspace_id, query);
            TaskSectionView {
                heading: Some("Tareas"@),
                rows: shown.map_values(|task: TaskView| task_row(task, selection.task_id)),
                notice: if shown.len() > 0 {
                    None
                } else if search_text(query).len() == 0 {
                    Some("No hay tareas para este espacio de trabajo."@)
                } else {
                    Some("No hay tareas que coincidan con la búsqueda."@)
                },
                detail: match detailed_task(queue, workspace_id, selection.task_id) {
                    Some(task) => Some(task_detail(task, is_available(queue, workspace_id))),
                    None => None,
                },
            }
        },
    }
}

fn render_task_section(queue: &TaskQueueModel, selection: &TaskPanelSelection, query: &str) -> (
    section: TaskSection)
    ensures
        section@ == task_section(queue@, selection@, query@),
{
    let mut rows: Vec<TaskRow> = Vec::new();
    let workspace_id = match selection.selected_workspace_id() {
        Some(workspace_id) => workspace_id,
        None => {
            assert(views::views(rows@) =~= Seq::empty());
            return TaskSection {
                heading: None,
                rows,
                notice: Some("Selecciona un espacio de trabajo para ver sus tareas."),
                detail: None,
            };
        },
    };
    let shown = panel_tasks(queue, workspace_id, query);
    let ghost selected = selection@.task_id;
    let ghost tasks = views::views(shown@);
    let ghost all = tasks.map_values(|task: TaskView| task_row(task, selected));
    let mut i: usize = 0;
    while i < shown.len()
        invariant
            i <= shown@.len(),
            tasks == views::views(shown@),
            selected == selection@.task_id,
            all == tasks.map_values(|task: TaskView| task_row(task, selected)),
            views::views(rows@) =~= all.take(i as int),
        decreases shown@.len() - i,
    {
        let ghost before = views::views(rows@);
        let row = render_task_row(&shown[i], selection.selected_task_id());
        assert(tasks[i as int] == shown@[i as int]@);
        assert(row@ == all[i as int]);
        rows.push(row);
        assert(views::views(rows@) =~= before.push(row@));
        i += 1;
    }
    assert(all.take(i as int) =~= all);
    let notice = if shown.len() > 0 {
        None
    } else if lowercase_of(trim_text(query).as_str()).as_str().is_empty() {
        Some("No hay tareas para este espacio de trabajo.")
    } else {
        Some("No hay tareas que coincidan con la búsqueda.")
    };
    let detail = match selection.selected_task_id() {
        Some(id) => match queue.task(id) {
            Some(task) => {
                if task.workspace_id.is(workspace_id) {
                    let available = match queue.workspace(workspace_id) {
                        Some(workspace) => workspace.is_available,
                        None => false,
                    };
                    Some(render_task_detail(task, available))
                } else {
                    None
                }
            },
            None => None,
        },
        None => None,
    };
    TaskSection { heading: Some("Tareas"), rows, notice, detail }
}

/// The panel.
pub fn render_task_queue_panel(
    queue: &TaskQueueModel,
    selection: &TaskPanelSelection,
    search_query: &str,
) -> (panel: TaskQueuePanel)
    ensures
        panel@ == (PanelView {
            heading: "Espacios de trabajo"@,
            workspaces: workspace_sections(queue@, selection@.workspace_id),
            tasks: task_section(queue@, selection@, search_query@),
        }),
{
    TaskQueuePanel {
        heading: "Espacios de trabajo",
        workspaces: render_workspace_selector(queue, selection.selected_workspace_id()),
        tasks: render_task_section(queue, selection, search_query),
    }
}

/// The panel lists exactly those tasks of the selected workspace that match what
/// is searched for.
pub proof fn law_panel_lists_matching_tasks(
    tasks: Seq<TaskView>,
    workspace_id: Seq<char>,
    query: Seq<char>,
    task: TaskView,
)
    ensures
        shown_tasks(tasks, workspace_id, query).contains(task) <==> tasks.contains(task)
            && task.workspace_id == workspace_id && matches_search(task, search_text(query)),
{
    broadcast use vstd::seq_lib::group_filter_ensures;

    let of_workspace = |task: TaskView| task.workspace_id == workspace_id;
    let matching = |task: TaskView| matches_search(task, search_text(query));
    let own = queue::tasks_of(tasks, workspace_id);
    let sorted = order::stably_sorted::<Task, ByRecency>(own);
    let shown = shown_tasks(tasks, workspace_id, query);
    assert(own == tasks.filter(of_workspace));
    assert(shown == sorted.filter(matching));
    order::lemma_sort_keeps::<Task, ByRecency>(own);
    assert(sorted.contains(task) <==> own.contains(task));
    if shown.contains(task) {
        sorted.lemma_filter_contains_rev(matching, task);
        let i = choose|i: int| 0 <= i < shown.len() && shown[i] == task;
        assert(matching(sorted.filter(matching)[i]));
        tasks.lemma_filter_contains_rev(of_workspace, task);
        let k = choose|k: int| 0 <= k < own.len() && own[k] == task;
        assert(of_workspace(tasks.filter(of_workspace)[k]));
    }
    if tasks.contains(task) && task.workspace_id == workspace_id && matches_search(
        task,
        search_text(query),
    ) {
        let i = choose|i: int| 0 <= i < tasks.len() && tasks[i] == task;
        assert(of_workspace(tasks[i]));
        assert(tasks.filter(of_workspace).contains(tasks[i]));
        let k = choose|k: int| 0 <= k < sorted.len() && sorted[k] == task;
        assert(matching(sorted[k]));
        assert(sorted.filter(matching).contains(sorted[k]));
    }
}

/// Where the workspace of a task is not available, no agent can be started on it.
pub proof fn law_no_launch_without_workspace(task: TaskView, index: int)
    requires
        0 <= index < task_buttons(task, false).len(),
        task_buttons(task, false)[index].action is LaunchTask,
    ensures
        !task_buttons(task, false)[index].is_enabled,
{
}

/// The panel offers to complete a task exactly where the task can be completed.
pub proof fn law_done_is_offered_after_review(task: TaskView, workspace_is_available: bool)
    ensures
        (exists|i: int|
            0 <= i < task_buttons(task, workspace_is_available).len() && (
            #[trigger] task_buttons(task, workspace_is_available)[i]).action
                == WorkspaceActionView::MarkTaskDone(task.id)) <==> crate::task::completed(
            task,
        ) is Ok,
{
    let buttons = task_buttons(task, workspace_is_available);
    if task.status == TaskStatus::ReviewRequired {
        let last = buttons.len() - 1;
        assert(buttons[last].action == WorkspaceActionView::MarkTaskDone(task.id));
    }
}

} // verus!
