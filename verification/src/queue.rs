//! The task queue in memory: the workspaces that were found, the tasks, and what
//! is selected.
use vstd::prelude::*;

use crate::creation;
use crate::creation::TaskCreation;
use crate::discovery;
use crate::discovery::{discover_workspaces, SourceScan, SourceScanView};
use crate::outside;
use crate::path::LocalPath;
use crate::store::{TaskList, TaskLoadError, TaskStore};
use crate::store_error::{StoreErrorView, TaskStoreError};
use crate::task;
use crate::task::{
    NewTaskInput, NewTaskView, Task, TaskId, TaskQueueError, TaskQueueErrorView, TaskView,
};
use crate::views;
use crate::workspace;
use crate::workspace::{
    default_sources, DiscoveredView, DiscoveredWorkspace, TaskWorkspace, WorkspaceId,
    WorkspaceRoot, WorkspaceRootView, WorkspaceSource,
};

verus! {

/// The task queue in memory. It is always in order: each task stands in it once,
/// and what is selected is there.
pub struct TaskQueueModel {
    sources: Vec<WorkspaceRoot>,
    workspaces: Vec<DiscoveredWorkspace>,
    tasks: Vec<Task>,
    selected_workspace_id: Option<WorkspaceId>,
    selected_task_id: Option<TaskId>,
    initialization_error: Option<TaskQueueError>,
}

/// What a task queue holds. The tasks stand in the order in which their
/// identifiers came in.
pub ghost struct QueueView {
    pub sources: Seq<WorkspaceRootView>,
    pub workspaces: Seq<DiscoveredView>,
    pub tasks: Seq<TaskView>,
    pub selected_workspace_id: Option<Seq<char>>,
    pub selected_task_id: Option<Seq<char>>,
    pub initialization_error: Option<TaskQueueErrorView>,
}

impl View for TaskQueueModel {
    type V = QueueView;

    closed spec fn view(&self) -> QueueView {
        QueueView {
            sources: views::views(self.sources@),
            workspaces: views::views(self.workspaces@),
            tasks: views::views(self.tasks@),
            selected_workspace_id: views::option_view(self.selected_workspace_id),
            selected_task_id: views::option_view(self.selected_task_id),
            initialization_error: views::option_view(self.initialization_error),
        }
    }
}

/// A queue with nothing in it.
pub open spec fn empty_queue() -> QueueView {
    QueueView {
        sources: Seq::empty(),
        workspaces: Seq::empty(),
        tasks: Seq::empty(),
        selected_workspace_id: None,
        selected_task_id: None,
        initialization_error: None,
    }
}

/// Where the first workspace with an identifier stands, from `from` on; the
/// number of workspaces where none does.
pub open spec fn workspace_position(
    workspaces: Seq<DiscoveredView>,
    id: Seq<char>,
    from: int,
) -> int
    decreases workspaces.len() - from,
{
    if from >= workspaces.len() {
        workspaces.len() as int
    } else if workspaces[from].id == id {
        from
    } else {
        workspace_position(workspaces, id, from + 1)
    }
}

/// The first workspace with an identifier.
pub open spec fn workspace_with(workspaces: Seq<DiscoveredView>, id: Seq<char>) -> Option<
    DiscoveredView,
> {
    let at = workspace_position(workspaces, id, 0);
    if 0 <= at < workspaces.len() {
        Some(workspaces[at])
    } else {
        None
    }
}

/// Where the first task with an identifier stands, from `from` on; the number of
/// tasks where none does.
pub open spec fn task_position(tasks: Seq<TaskView>, id: Seq<char>, from: int) -> int
    decreases tasks.len() - from,
{
    if from >= tasks.len() {
        tasks.len() as int
    } else if tasks[from].id == id {
        from
    } else {
        task_position(tasks, id, from + 1)
    }
}

/// The task with an identifier.
pub open spec fn task_with(tasks: Seq<TaskView>, id: Seq<char>) -> Option<TaskView> {
    let at = task_position(tasks, id, 0);
    if 0 <= at < tasks.len() {
        Some(tasks[at])
    } else {
        None
    }
}

/// The tasks with one put in: it replaces the one with its identifier.
pub open spec fn put_task(tasks: Seq<TaskView>, task: TaskView) -> Seq<TaskView> {
    let at = task_position(tasks, task.id, 0);
    if 0 <= at < tasks.len() {
        tasks.update(at, task)
    } else {
        tasks.push(task)
    }
}

/// Tasks put in one after the other.
pub open spec fn put_tasks(tasks: Seq<TaskView>) -> Seq<TaskView>
    decreases tasks.len(),
{
    if tasks.len() == 0 {
        Seq::empty()
    } else {
        put_task(put_tasks(tasks.drop_last()), tasks.last())
    }
}

/// The tasks of a workspace.
pub open spec fn tasks_of(tasks: Seq<TaskView>, workspace_id: Seq<char>) -> Seq<TaskView> {
    tasks.filter(|task: TaskView| task.workspace_id == workspace_id)
}

/// The roots that were searched.
pub open spec fn roots_of(scans: Seq<SourceScanView>) -> Seq<WorkspaceRootView> {
    scans.map_values(|scan: SourceScanView| scan.root)
}

/// A queue after the roots were searched again: a selected workspace stays
/// selected if it was found again.
pub open spec fn rediscovered(queue: QueueView, scans: Seq<SourceScanView>) -> QueueView {
    let workspaces = discovery::discovered(scans);
    QueueView {
        sources: roots_of(scans),
        workspaces,
        selected_workspace_id: match queue.selected_workspace_id {
            Some(id) => if workspace_with(workspaces, id) is Some {
                Some(id)
            } else {
                None
            },
            None => None,
        },
        ..queue
    }
}

/// A queue after stored tasks were loaded in place of those it had: a selected
/// task stays selected if it was loaded again.
pub open spec fn reloaded(queue: QueueView, loaded: Seq<TaskView>) -> QueueView {
    let tasks = put_tasks(loaded);
    QueueView {
        tasks,
        selected_task_id: match queue.selected_task_id {
            Some(id) => if task_with(tasks, id) is Some {
                Some(id)
            } else {
                None
            },
            None => None,
        },
        ..queue
    }
}

/// What the store is given for a new task: an input without a workspace gets the
/// one that was found under its identifier.
pub open spec fn resolved_input(queue: QueueView, input: NewTaskView) -> Result<
    NewTaskView,
    StoreErrorView,
> {
    if input.workspace is Some {
        Ok(input)
    } else {
        match workspace_with(queue.workspaces, input.workspace_id) {
            Some(found) => Ok(
                NewTaskView {
                    workspace_id: found.id,
                    workspace: Some(workspace::kept_workspace(found)),
                    ..input
                },
            ),
            None => Err(StoreErrorView::WorkspaceMetadataMissing),
        }
    }
}

/// Whether no two tasks share an identifier.
pub open spec fn each_task_once(tasks: Seq<TaskView>) -> bool {
    forall|i: int, j: int|
        0 <= i < j < tasks.len() ==> (#[trigger] tasks[i]).id != (#[trigger] tasks[j]).id
}

/// Whether a queue is in order: each task stands in it once, and what is selected
/// is there.
pub open spec fn is_in_order(queue: QueueView) -> bool {
    &&& each_task_once(queue.tasks)
    &&& queue.selected_workspace_id matches Some(id) ==> workspace_with(
        queue.workspaces,
        id,
    ) is Some
    &&& queue.selected_task_id matches Some(id) ==> task_with(queue.tasks, id) is Some
}

/// How a queue starts: with the roots that are to be searched, or at once.
pub enum QueueStart {
    Search(Vec<WorkspaceRoot>),
    Ready(TaskQueueModel),
}

fn find_workspace<'a>(workspaces: &'a Vec<DiscoveredWorkspace>, id: &WorkspaceId) -> (found: Option<
    &'a DiscoveredWorkspace,
>)
    ensures
        views::option_view(found) == workspace_with(views::views(workspaces@), id@),
{
    let ghost all = views::views(workspaces@);
    let mut i: usize = 0;
    while i < workspaces.len()
        invariant
            i <= workspaces@.len(),
            all == views::views(workspaces@),
            workspace_position(all, id@, 0) == workspace_position(all, id@, i as int),
        decreases workspaces@.len() - i,
    {
        assert(all[i as int] == workspaces@[i as int]@);
        if workspaces[i].id.is(id) {
            return Some(&workspaces[i]);
        }
        i += 1;
    }
    None
}

fn find_task(tasks: &Vec<Task>, id: &TaskId) -> (at: usize)
    ensures
        at == task_position(views::views(tasks@), id@, 0),
        at <= tasks@.len(),
{
    let ghost all = views::views(tasks@);
    let mut i: usize = 0;
    while i < tasks.len() && !tasks[i].id.is(id)
        invariant
            i <= tasks@.len(),
            all == views::views(tasks@),
            task_position(all, id@, 0) == task_position(all, id@, i as int),
        decreases tasks@.len() - i,
    {
        assert(all[i as int] == tasks@[i as int]@);
        i += 1;
    }
    if i < tasks.len() {
        assert(all[i as int] == tasks@[i as int]@);
    }
    i
}

fn replace_or_push(tasks: &mut Vec<Task>, task: Task)
    ensures
        views::views(final(tasks)@) == put_task(views::views(old(tasks)@), task@),
{
    let ghost before = views::views(tasks@);
    let at: usize = find_task(tasks, &task.id);
    if at < tasks.len() {
        tasks[at] = task;
        assert(views::views(tasks@) =~= before.update(at as int, task@));
    } else {
        tasks.push(task);
        assert(views::views(tasks@) =~= before.push(task@));
    }
}

impl Default for TaskQueueModel {
    fn default() -> (queue: TaskQueueModel)
        ensures
            queue@ == empty_queue(),
            is_in_order(queue@),
    {
        let queue = TaskQueueModel {
            sources: Vec::new(),
            workspaces: Vec::new(),
            tasks: Vec::new(),
            selected_workspace_id: None,
            selected_task_id: None,
            initialization_error: None,
        };
        assert(queue@.sources =~= Seq::empty());
        assert(queue@.workspaces =~= Seq::empty());
        assert(queue@.tasks =~= Seq::empty());
        queue
    }
}

impl TaskQueueModel {
    #[verifier::type_invariant]
    closed spec fn is_valid(self) -> bool {
        is_in_order(self@)
    }

    /// Takes out all that the queue holds.
    fn take(&mut self) -> (queue: TaskQueueModel)
        ensures
            queue@ == old(self)@,
            is_in_order(queue@),
            final(self)@ == empty_queue(),
    {
        proof {
            use_type_invariant(&*self);
        }
        let mut queue = TaskQueueModel::new();
        std::mem::swap(self, &mut queue);
        queue
    }

    /// A queue with nothing in it.
    pub fn new() -> (queue: TaskQueueModel)
        ensures
            queue@ == empty_queue(),
            is_in_order(queue@),
    {
        TaskQueueModel::default()
    }

    /// A queue with the workspaces below some roots.
    pub fn from_roots(scans: Vec<SourceScan>) -> (queue: TaskQueueModel)
        ensures
            queue@ == rediscovered(empty_queue(), views::views(scans@)),
            is_in_order(queue@),
    {
        let mut queue = TaskQueueModel::new();
        queue.discover(scans);
        queue
    }

    /// How a queue starts for a home folder: with the default roots in it, or,
    /// where it is not known, empty and with that error.
    pub fn from_home(home: Option<LocalPath>) -> (start: QueueStart)
        ensures
            match home {
                Some(home) => start matches QueueStart::Search(roots) && views::views(roots@)
                    == workspace::default_roots(home@),
                None => start matches QueueStart::Ready(queue) && queue@ == (QueueView {
                    initialization_error: Some(TaskQueueErrorView::HomeDirectoryUnavailable),
                    ..empty_queue()
                }) && is_in_order(queue@),
            },
    {
        match home {
            Some(home) => QueueStart::Search(default_sources(&home)),
            None => {
                let mut queue = TaskQueueModel::new();
                queue.initialization_error = Some(TaskQueueError::HomeDirectoryUnavailable);
                QueueStart::Ready(queue)
            },
        }
    }

    /// Why the queue could not be set up, where it could not.
    pub fn initialization_error(&self) -> (error: Option<&TaskQueueError>)
        ensures
            views::option_view(error) == self@.initialization_error,
    {
        self.initialization_error.as_ref()
    }

    /// Takes over the workspaces below some roots.
    pub fn discover(&mut self, scans: Vec<SourceScan>)
        ensures
            final(self)@ == rediscovered(old(self)@, views::views(scans@)),
            is_in_order(final(self)@),
    {
        let ghost all = views::views(scans@);
        let workspaces = discover_workspaces(&scans);
        let mut sources: Vec<WorkspaceRoot> = Vec::new();
        let mut i: usize = 0;
        while i < scans.len()
            invariant
                i <= scans@.len(),
                all == views::views(scans@),
                views::views(sources@) =~= roots_of(all).take(i as int),
            decreases scans@.len() - i,
        {
            let ghost before = views::views(sources@);
            sources.push(scans[i].root.clone());
            assert(all[i as int] == scans@[i as int]@);
            assert(views::views(sources@) =~= before.push(roots_of(all)[i as int]));
            i += 1;
        }
        assert(roots_of(all).take(i as int) =~= roots_of(all));
        let queue = self.take();
        let selected_workspace_id = match queue.selected_workspace_id {
            Some(id) => if find_workspace(&workspaces, &id).is_some() {
                Some(id)
            } else {
                None
            },
            None => None,
        };
        *self =
        TaskQueueModel {
            sources,
            workspaces,
            tasks: queue.tasks,
            selected_workspace_id,
            selected_task_id: queue.selected_task_id,
            initialization_error: queue.initialization_error,
        };
    }

    /// The roots that were searched.
    pub fn sources(&self) -> (sources: &[WorkspaceRoot])
        ensures
            views::views(sources@) == self@.sources,
    {
        self.sources.as_slice()
    }

    /// The workspaces that were found.
    pub fn workspaces(&self) -> (workspaces: &[DiscoveredWorkspace])
        ensures
            views::views(workspaces@) == self@.workspaces,
    {
        self.workspaces.as_slice()
    }

    /// The workspaces of one group.
    pub fn workspaces_for_source(&self, source: WorkspaceSource) -> (workspaces: Vec<
        &DiscoveredWorkspace,
    >)
        ensures
            views::views(workspaces@) == discovery::of_source(self@.workspaces, source),
    {
        let mut workspaces: Vec<&DiscoveredWorkspace> = Vec::new();
        let ghost all = self@.workspaces;
        let mut i: usize = 0;
        proof {
            reveal(Seq::filter);
            assert(all.take(0) =~= Seq::empty());
        }
        while i < self.workspaces.len()
            invariant
                i <= self.workspaces@.len(),
                all == views::views(self.workspaces@),
                views::views(workspaces@) =~= discovery::of_source(all.take(i as int), source),
            decreases self.workspaces@.len() - i,
        {
            let workspace = &self.workspaces[i];
            let ghost before = views::views(workspaces@);
            proof {
                reveal(Seq::filter);
                assert(all.take(i + 1).drop_last() =~= all.take(i as int));
                assert(all[i as int] == workspace@);
            }
            if workspace.source == source {
                workspaces.push(workspace);
                assert(views::views(workspaces@) =~= before.push(workspace@));
            }
            i += 1;
        }
        assert(all.take(i as int) =~= all);
        workspaces
    }

    /// The workspace with an identifier.
    pub fn workspace(&self, id: &WorkspaceId) -> (found: Option<&DiscoveredWorkspace>)
        ensures
            views::option_view(found) == workspace_with(self@.workspaces, id@),
    {
        find_workspace(&self.workspaces, id)
    }

    /// Selects a workspace that was found.
    pub fn select_workspace(&mut self, workspace_id: WorkspaceId) -> (result: Result<
        (),
        TaskQueueError,
    >)
        ensures
            match result {
                Ok(()) => workspace_with(old(self)@.workspaces, workspace_id@) is Some
                    && final(self)@ == (QueueView {
                    selected_workspace_id: Some(workspace_id@),
                    ..old(self)@
                }),
                Err(error) => workspace_with(old(self)@.workspaces, workspace_id@) is None
                    && error@ == TaskQueueErrorView::WorkspaceNotFound(workspace_id@)
                    && final(self)@ == old(self)@,
            },
            is_in_order(final(self)@),
    {
        proof {
            use_type_invariant(&*self);
        }
        if self.workspace(&workspace_id).is_some() {
            self.selected_workspace_id = Some(workspace_id);
            Ok(())
        } else {
            Err(TaskQueueError::WorkspaceNotFound(workspace_id))
        }
    }

    /// The selected workspace.
    pub fn selected_workspace_id(&self) -> (id: Option<&WorkspaceId>)
        ensures
            views::option_view(id) == self@.selected_workspace_id,
            id matches Some(id) ==> workspace_with(self@.workspaces, id@) is Some,
    {
        proof {
            use_type_invariant(self);
        }
        self.selected_workspace_id.as_ref()
    }

    /// Puts a task in; it replaces the one with its identifier.
    pub fn insert_task(&mut self, task: Task)
        ensures
            final(self)@ == (QueueView {
                tasks: put_task(old(self)@.tasks, task@),
                ..old(self)@
            }),
            is_in_order(final(self)@),
    {
        let queue = self.take();
        proof {
            law_insert_keeps_order(queue@, task@);
        }
        let mut tasks = queue.tasks;
        replace_or_push(&mut tasks, task);
        *self =
        TaskQueueModel {
            sources: queue.sources,
            workspaces: queue.workspaces,
            tasks,
            selected_workspace_id: queue.selected_workspace_id,
            selected_task_id: queue.selected_task_id,
            initialization_error: queue.initialization_error,
        };
    }

    /// What the store is given for a new task.
    pub fn resolve_input(&self, input: NewTaskInput) -> (resolved: Result<
        NewTaskInput,
        TaskStoreError,
    >)
        ensures
            views::result_view(resolved) == resolved_input(self@, input@),
    {
        if input.workspace.is_some() {
            return Ok(input);
        }
        match self.workspace(&input.workspace_id) {
            Some(found) => Ok(input.with_workspace(TaskWorkspace::from_discovered(found))),
            None => Err(TaskStoreError::WorkspaceMetadataMissing),
        }
    }

    /// Begins to store a new task. The queue takes the task over once it is
    /// stored, and not before, so that it holds no task that is lost with it.
    pub fn create_with_store(&self, store: &TaskStore, input: NewTaskInput) -> (creation: Result<
        TaskCreation,
        TaskStoreError,
    >)
        ensures
            match (resolved_input(self@, input@), creation) {
                (Err(error), Ok(_)) => false,
                (Err(error), Err(other)) => other@ == error,
                (Ok(resolved), Err(error)) => creation::refused_input(resolved) == Some(error@),
                (Ok(resolved), Ok(creation)) => creation::refused_input(resolved) is None
                    && outside::is_random_id(creation@.task.id) && creation@ == creation::started(
                    store@,
                    task::new_task(
                        creation@.task.id,
                        resolved,
                        creation@.task.created_at_ms,
                        creation@.task.updated_at_ms,
                    ),
                    resolved.workspace->0,
                ),
            },
    {
        match self.resolve_input(input) {
            Ok(resolved) => store.create(resolved),
            Err(error) => Err(error),
        }
    }

    /// Takes over the outcome of storing a new task: a stored task is put in, a
    /// failure leaves the queue as it was.
    pub fn record_created(&mut self, outcome: Result<Task, TaskStoreError>) -> (recorded: Result<
        Task,
        TaskStoreError,
    >)
        ensures
            views::result_view(recorded) == views::result_view(outcome),
            match outcome {
                Ok(task) => final(self)@ == (QueueView {
                    tasks: put_task(old(self)@.tasks, task@),
                    ..old(self)@
                }),
                Err(_) => final(self)@ == old(self)@,
            },
            is_in_order(final(self)@),
    {
        proof {
            use_type_invariant(&*self);
        }
        match outcome {
            Ok(task) => {
                self.insert_task(task.clone());
                Ok(task)
            },
            Err(error) => Err(error),
        }
    }

    /// Takes over what was loaded from the store, in place of the tasks so far,
    /// and hands back what could not be loaded. If nothing could be listed, the
    /// queue stays as it was.
    pub fn load_from_store(&mut self, loaded: Result<TaskList, TaskStoreError>) -> (errors: Result<
        Vec<TaskLoadError>,
        TaskStoreError,
    >)
        ensures
            match (loaded, errors) {
                (Ok(list), Ok(errors)) => views::views(errors@) == list@.errors && final(self)@
                    == reloaded(old(self)@, list@.tasks),
                (Err(error), Err(other)) => other@ == error@ && final(self)@ == old(self)@,
                _ => false,
            },
            is_in_order(final(self)@),
    {
        proof {
            use_type_invariant(&*self);
        }
        let list = match loaded {
            Ok(list) => list,
            Err(error) => return Err(error),
        };
        let ghost all = list@.tasks;
        let mut tasks: Vec<Task> = Vec::new();
        assert(all.take(0) =~= Seq::empty());
        assert(views::views(tasks@) =~= Seq::empty());
        for task in it: list.tasks
            invariant
                all == views::views(it.seq()),
                it.index() <= all.len(),
                views::views(tasks@) == put_tasks(all.take(it.index() as int)),
        {
            let ghost at = it.index() as int;
            assert(all.take(at + 1).drop_last() =~= all.take(at));
            assert(all[at] == task@);
            replace_or_push(&mut tasks, task);
        }
        assert(all.take(all.len() as int) =~= all);
        let queue = self.take();
        proof {
            law_load_keeps_order(queue@, all);
        }
        let selected_task_id = match queue.selected_task_id {
            Some(id) => if find_task(&tasks, &id) < tasks.len() {
                Some(id)
            } else {
                None
            },
            None => None,
        };
        *self =
        TaskQueueModel {
            sources: queue.sources,
            workspaces: queue.workspaces,
            tasks,
            selected_workspace_id: queue.selected_workspace_id,
            selected_task_id,
            initialization_error: queue.initialization_error,
        };
        Ok(list.errors)
    }

    /// The task with an identifier.
    pub fn task(&self, task_id: &TaskId) -> (found: Option<&Task>)
        ensures
            views::option_view(found) == task_with(self@.tasks, task_id@),
    {
        let at: usize = find_task(&self.tasks, task_id);
        if at < self.tasks.len() {
            assert(self@.tasks[at as int] == self.tasks@[at as int]@);
            Some(&self.tasks[at])
        } else {
            None
        }
    }

    /// The tasks of a workspace.
    pub fn tasks_for_workspace(&self, workspace_id: &WorkspaceId) -> (tasks: Vec<&Task>)
        ensures
            views::views(tasks@) == tasks_of(self@.tasks, workspace_id@),
            each_task_once(views::views(tasks@)),
            forall|i: int|
                0 <= i < tasks@.len() ==> task_with(self@.tasks, (#[trigger] tasks@[i])@.id)
                    == Some(tasks@[i]@),
    {
        proof {
            use_type_invariant(self);
            lemma_tasks_of(self@.tasks, workspace_id@);
        }
        let mut tasks: Vec<&Task> = Vec::new();
        let ghost all = self@.tasks;
        let mut i: usize = 0;
        proof {
            reveal(Seq::filter);
            assert(all.take(0) =~= Seq::empty());
        }
        while i < self.tasks.len()
            invariant
                i <= self.tasks@.len(),
                all == views::views(self.tasks@),
                views::views(tasks@) =~= tasks_of(all.take(i as int), workspace_id@),
            decreases self.tasks@.len() - i,
        {
            let task = &self.tasks[i];
            let ghost before = views::views(tasks@);
            proof {
                reveal(Seq::filter);
                assert(all.take(i + 1).drop_last() =~= all.take(i as int));
                assert(all[i as int] == task@);
            }
            if task.workspace_id.is(workspace_id) {
                tasks.push(task);
                assert(views::views(tasks@) =~= before.push(task@));
            }
            i += 1;
        }
        assert(all.take(i as int) =~= all);
        assert forall|i: int| 0 <= i < tasks@.len() implies task_with(
            self@.tasks,
            (#[trigger] tasks@[i])@.id,
        ) == Some(tasks@[i]@) by {
            assert(tasks_of(all, workspace_id@)[i] == tasks@[i]@);
        }
        tasks
    }

    /// Selects a task of the queue.
    pub fn select_task(&mut self, task_id: TaskId) -> (result: Result<(), TaskQueueError>)
        ensures
            match result {
                Ok(()) => task_with(old(self)@.tasks, task_id@) is Some && final(self)@
                    == (QueueView { selected_task_id: Some(task_id@), ..old(self)@ }),
                Err(error) => task_with(old(self)@.tasks, task_id@) is None && error@
                    == TaskQueueErrorView::TaskNotFound(task_id@) && final(self)@ == old(self)@,
            },
            is_in_order(final(self)@),
    {
        proof {
            use_type_invariant(&*self);
        }
        if self.task(&task_id).is_some() {
            self.selected_task_id = Some(task_id);
            Ok(())
        } else {
            Err(TaskQueueError::TaskNotFound(task_id))
        }
    }

    /// The selected task.
    pub fn selected_task_id(&self) -> (id: Option<&TaskId>)
        ensures
            views::option_view(id) == self@.selected_task_id,
            id matches Some(id) ==> task_with(self@.tasks, id@) is Some,
    {
        proof {
            use_type_invariant(self);
        }
        self.selected_task_id.as_ref()
    }
}

proof fn lemma_task_position(tasks: Seq<TaskView>, id: Seq<char>, from: int)
    requires
        0 <= from <= tasks.len(),
    ensures
        from <= task_position(tasks, id, from) <= tasks.len(),
        task_position(tasks, id, from) < tasks.len() ==> tasks[task_position(tasks, id, from)].id
            == id,
        forall|i: int| from <= i < task_position(tasks, id, from) ==> (#[trigger] tasks[i]).id
            != id,
    decreases tasks.len() - from,
{
    if from < tasks.len() && tasks[from].id != id {
        lemma_task_position(tasks, id, from + 1);
    }
}

/// A task that was put in is found under its identifier, and every other task is
/// found as before.
pub proof fn law_put_task(tasks: Seq<TaskView>, task: TaskView, id: Seq<char>)
    ensures
        task_with(put_task(tasks, task), id) == if id == task.id {
            Some(task)
        } else {
            task_with(tasks, id)
        },
{
    let after = put_task(tasks, task);
    let at = task_position(tasks, task.id, 0);
    lemma_task_position(tasks, task.id, 0);
    lemma_task_position(tasks, id, 0);
    lemma_task_position(after, id, 0);
    let here = task_position(after, id, 0);
    let there = task_position(tasks, id, 0);
    if id == task.id {
        assert(after[at] == task);
        assert(here == at) by {
            if here < at {
                assert(after[here] == tasks[here]);
            }
        }
    } else {
        if there < tasks.len() {
            assert(after[there] == tasks[there]);
            if here < there {
                if here != at {
                    assert(after[here] == tasks[here]);
                }
            }
        } else if here < after.len() {
            if here < tasks.len() && here != at {
                assert(after[here] == tasks[here]);
            }
        }
    }
}

proof fn lemma_put_task_distinct(tasks: Seq<TaskView>, task: TaskView)
    requires
        each_task_once(tasks),
    ensures
        each_task_once(put_task(tasks, task)),
{
    let after = put_task(tasks, task);
    lemma_task_position(tasks, task.id, 0);
    assert forall|i: int, j: int| 0 <= i < j < after.len() implies (#[trigger] after[i]).id != (
    #[trigger] after[j]).id by {
        if i < tasks.len() {
            assert(after[i].id == tasks[i].id);
        }
        if j < tasks.len() {
            assert(after[j].id == tasks[j].id);
        }
    }
}

/// The tasks of a workspace are tasks of the queue, each once.
proof fn lemma_tasks_of(tasks: Seq<TaskView>, workspace_id: Seq<char>)
    requires
        each_task_once(tasks),
    ensures
        each_task_once(tasks_of(tasks, workspace_id)),
        forall|i: int|
            0 <= i < tasks_of(tasks, workspace_id).len() ==> task_with(
                tasks,
                (#[trigger] tasks_of(tasks, workspace_id)[i]).id,
            ) == Some(tasks_of(tasks, workspace_id)[i]),
    decreases tasks.len(),
{
    reveal(Seq::filter);
    if tasks.len() > 0 {
        let before = tasks.drop_last();
        let last = tasks.last();
        let found = tasks_of(tasks, workspace_id);
        let earlier = tasks_of(before, workspace_id);
        lemma_tasks_of(before, workspace_id);
        assert(tasks == put_task(before, last)) by {
            lemma_task_position(before, last.id, 0);
            assert(before.push(last) =~= tasks);
        }
        assert(found == if last.workspace_id == workspace_id {
            earlier.push(last)
        } else {
            earlier
        });
        assert forall|i: int| 0 <= i < found.len() implies task_with(
            tasks,
            (#[trigger] found[i]).id,
        ) == Some(found[i]) by {
            law_put_task(before, last, found[i].id);
            law_put_task(before, last, last.id);
            lemma_task_position(before, last.id, 0);
            if i < earlier.len() {
                assert(found[i] == earlier[i]);
            }
        }
        assert(each_task_once(found)) by {
            lemma_task_position(before, last.id, 0);
            assert forall|i: int, j: int| 0 <= i < j < found.len() implies (
            #[trigger] found[i]).id != (#[trigger] found[j]).id by {
                assert(found[i] == earlier[i]);
                if j < earlier.len() {
                    assert(found[j] == earlier[j]);
                }
            }
        }
    }
}

/// A new queue is in order.
pub proof fn law_new_queue_is_in_order()
    ensures
        is_in_order(empty_queue()),
{
}

/// Selecting what is in a queue keeps the queue in order.
pub proof fn law_selecting_keeps_order(queue: QueueView, workspace_id: Seq<char>, task_id: Seq<char>)
    requires
        is_in_order(queue),
    ensures
        workspace_with(queue.workspaces, workspace_id) is Some ==> is_in_order(
            QueueView { selected_workspace_id: Some(workspace_id), ..queue },
        ),
        task_with(queue.tasks, task_id) is Some ==> is_in_order(
            QueueView { selected_task_id: Some(task_id), ..queue },
        ),
{
}

/// Putting a task in keeps a queue in order.
pub proof fn law_insert_keeps_order(queue: QueueView, task: TaskView)
    requires
        is_in_order(queue),
    ensures
        is_in_order(QueueView { tasks: put_task(queue.tasks, task), ..queue }),
{
    lemma_put_task_distinct(queue.tasks, task);
    if let Some(id) = queue.selected_task_id {
        law_put_task(queue.tasks, task, id);
    }
}

/// Searching the roots again keeps a queue in order.
pub proof fn law_discover_keeps_order(queue: QueueView, scans: Seq<SourceScanView>)
    requires
        is_in_order(queue),
    ensures
        is_in_order(rediscovered(queue, scans)),
{
}

proof fn lemma_put_tasks_distinct(tasks: Seq<TaskView>)
    ensures
        each_task_once(put_tasks(tasks)),
    decreases tasks.len(),
{
    if tasks.len() > 0 {
        lemma_put_tasks_distinct(tasks.drop_last());
        lemma_put_task_distinct(put_tasks(tasks.drop_last()), tasks.last());
    }
}

/// Loading tasks keeps a queue in order.
pub proof fn law_load_keeps_order(queue: QueueView, loaded: Seq<TaskView>)
    requires
        is_in_order(queue),
    ensures
        is_in_order(reloaded(queue, loaded)),
{
    lemma_put_tasks_distinct(loaded);
}

/// Of the tasks that were loaded, each is found under its identifier, unless a
/// later one has the same.
pub proof fn law_loaded_tasks_are_found(loaded: Seq<TaskView>, n: int)
    requires
        0 <= n < loaded.len(),
        forall|i: int| n < i < loaded.len() ==> (#[trigger] loaded[i]).id != loaded[n].id,
    ensures
        task_with(put_tasks(loaded), loaded[n].id) == Some(loaded[n]),
    decreases loaded.len(),
{
    let before = loaded.drop_last();
    law_put_task(put_tasks(before), loaded.last(), loaded[n].id);
    if n < before.len() {
        assert forall|i: int| n < i < before.len() implies (#[trigger] before[i]).id
            != before[n].id by {
            assert(before[i] == loaded[i]);
        }
        law_loaded_tasks_are_found(before, n);
        assert(loaded[loaded.len() - 1].id != loaded[n].id);
    }
}

proof fn lemma_workspace_position(workspaces: Seq<DiscoveredView>, id: Seq<char>, from: int)
    requires
        0 <= from <= workspaces.len(),
    ensures
        from <= workspace_position(workspaces, id, from) <= workspaces.len(),
        workspace_position(workspaces, id, from) < workspaces.len() ==> workspaces[workspace_position(
            workspaces,
            id,
            from,
        )].id == id,
        forall|i: int|
            from <= i < workspace_position(workspaces, id, from) ==> (#[trigger] workspaces[i]).id
                != id,
    decreases workspaces.len() - from,
{
    if from < workspaces.len() && workspaces[from].id != id {
        lemma_workspace_position(workspaces, id, from + 1);
    }
}

/// Looking a workspace up by its identifier finds the first one that has it, and
/// finds one wherever there is one.
pub proof fn law_workspace_is_found(workspaces: Seq<DiscoveredView>, id: Seq<char>, n: int)
    requires
        0 <= n <= workspaces.len(),
        forall|i: int| 0 <= i < n ==> (#[trigger] workspaces[i]).id != id,
        n < workspaces.len() ==> workspaces[n].id == id,
    ensures
        workspace_with(workspaces, id) == if n < workspaces.len() {
            Some(workspaces[n])
        } else {
            None
        },
{
    lemma_workspace_position(workspaces, id, 0);
}

/// Looking a task up by its identifier finds the first one that has it, and finds
/// one wherever there is one.
pub proof fn law_task_is_found(tasks: Seq<TaskView>, id: Seq<char>, n: int)
    requires
        0 <= n <= tasks.len(),
        forall|i: int| 0 <= i < n ==> (#[trigger] tasks[i]).id != id,
        n < tasks.len() ==> tasks[n].id == id,
    ensures
        task_with(tasks, id) == if n < tasks.len() {
            Some(tasks[n])
        } else {
            None
        },
{
    lemma_task_position(tasks, id, 0);
}

/// An input without a workspace gets the one that was found under its identifier,
/// and keeps everything else that was entered.
pub proof fn law_resolving_fills_in_the_workspace(queue: QueueView, input: NewTaskView, n: int)
    requires
        input.workspace is None,
        0 <= n < queue.workspaces.len(),
        queue.workspaces[n].id == input.workspace_id,
        forall|i: int| 0 <= i < n ==> (#[trigger] queue.workspaces[i]).id != input.workspace_id,
    ensures
        resolved_input(queue, input) matches Ok(resolved) && {
            &&& resolved.title == input.title
            &&& resolved.description == input.description
            &&& resolved.priority == input.priority
            &&& resolved.agent_kind == input.agent_kind
            &&& resolved.attachments == input.attachments
            &&& resolved.workspace_id == input.workspace_id
            &&& resolved.workspace matches Some(workspace) && {
                &&& workspace.id == input.workspace_id
                &&& workspace.path == queue.workspaces[n].path
                &&& workspace.source == queue.workspaces[n].source
                &&& workspace.display_name == queue.workspaces[n].display_name
            }
        },
{
    law_workspace_is_found(queue.workspaces, input.workspace_id, n);
}

/// An input that comes with its workspace is not changed. One without a workspace
/// is refused where none was found under its identifier.
pub proof fn law_resolving_otherwise(queue: QueueView, input: NewTaskView)
    requires
        input.workspace is None ==> forall|i: int|
            0 <= i < queue.workspaces.len() ==> (#[trigger] queue.workspaces[i]).id
                != input.workspace_id,
    ensures
        resolved_input(queue, input) == if input.workspace is Some {
            Ok(input)
        } else {
            Err(StoreErrorView::WorkspaceMetadataMissing)
        },
{
    if input.workspace is None {
        law_workspace_is_found(
            queue.workspaces,
            input.workspace_id,
            queue.workspaces.len() as int,
        );
    }
}

/// The task that is stored for an input says what was entered, belongs to the
/// workspace that was entered, and is pending.
pub proof fn law_created_task_says_what_was_entered(
    queue: QueueView,
    input: NewTaskView,
    id: Seq<char>,
    created_at_ms: u64,
    updated_at_ms: u64,
)
    requires
        resolved_input(queue, input) is Ok,
    ensures
        ({
            let task = task::new_task(
                id,
                resolved_input(queue, input)->Ok_0,
                created_at_ms,
                updated_at_ms,
            );
            &&& task.id == id
            &&& task.workspace_id == input.workspace_id
            &&& task.workspace is Some
            &&& task.title == input.title
            &&& task.description == input.description
            &&& task.priority == input.priority
            &&& task.agent_kind == input.agent_kind
            &&& task.attachments == input.attachments
            &&& task.status == task::TaskStatus::Pending
        }),
{
    lemma_workspace_position(queue.workspaces, input.workspace_id, 0);
}

/// Searching the roots again changes what was found and where it was searched for.
/// The tasks and the selected task stay, and so does the selected workspace
/// exactly where it was found again.
pub proof fn law_discovering(queue: QueueView, scans: Seq<SourceScanView>, n: int)
    requires
        0 <= n < scans.len(),
    ensures
        ({
            let after = rediscovered(queue, scans);
            &&& after.tasks == queue.tasks
            &&& after.selected_task_id == queue.selected_task_id
            &&& after.initialization_error == queue.initialization_error
            &&& after.workspaces == discovery::discovered(scans)
            &&& after.sources.len() == scans.len()
            &&& after.sources[n] == scans[n].root
            &&& after.selected_workspace_id is Some <==> queue.selected_workspace_id is Some
                && exists|i: int|
                0 <= i < after.workspaces.len() && (#[trigger] after.workspaces[i]).id
                    == queue.selected_workspace_id->0
            &&& after.selected_workspace_id is Some ==> after.selected_workspace_id
                == queue.selected_workspace_id
        }),
{
    let workspaces = discovery::discovered(scans);
    if let Some(id) = queue.selected_workspace_id {
        lemma_workspace_position(workspaces, id, 0);
        if workspace_with(workspaces, id) is Some {
            let at = workspace_position(workspaces, id, 0);
            assert(rediscovered(queue, scans).workspaces[at].id == id);
        }
    }
}

proof fn lemma_put_tasks_come_from(loaded: Seq<TaskView>, task: TaskView)
    requires
        put_tasks(loaded).contains(task),
    ensures
        loaded.contains(task),
    decreases loaded.len(),
{
    if loaded.len() > 0 {
        let before = put_tasks(loaded.drop_last());
        let after = put_tasks(loaded);
        lemma_task_position(before, loaded.last().id, 0);
        let i = choose|i: int| 0 <= i < after.len() && after[i] == task;
        if task == loaded.last() {
            assert(loaded[loaded.len() - 1] == task);
        } else {
            assert(before[i] == task);
            lemma_put_tasks_come_from(loaded.drop_last(), task);
            let k = choose|k: int| 0 <= k < loaded.len() - 1 && loaded.drop_last()[k] == task;
            assert(loaded[k] == task);
        }
    }
}

/// The last of the loaded tasks with an identifier is found under it.
proof fn lemma_loaded_is_found(loaded: Seq<TaskView>, n: int)
    requires
        0 <= n < loaded.len(),
    ensures
        task_with(put_tasks(loaded), loaded[n].id) is Some,
    decreases loaded.len() - n,
{
    if exists|i: int| n < i < loaded.len() && (#[trigger] loaded[i]).id == loaded[n].id {
        let i = choose|i: int| n < i < loaded.len() && (#[trigger] loaded[i]).id == loaded[n].id;
        lemma_loaded_is_found(loaded, i);
    } else {
        law_loaded_tasks_are_found(loaded, n);
    }
}

/// Loading puts the loaded tasks in the place of those that were there: nothing
/// else is in the queue, and each of them is, unless a later one has its
/// identifier. The workspaces and what is selected of them stay, and the selected
/// task stays selected exactly where it was loaded again.
pub proof fn law_loading(queue: QueueView, loaded: Seq<TaskView>, task: TaskView)
    ensures
        ({
            let after = reloaded(queue, loaded);
            &&& after.workspaces == queue.workspaces
            &&& after.sources == queue.sources
            &&& after.selected_workspace_id == queue.selected_workspace_id
            &&& after.initialization_error == queue.initialization_error
            &&& after.tasks.contains(task) ==> loaded.contains(task)
            &&& loaded.contains(task) ==> task_with(after.tasks, task.id) is Some
            &&& after.selected_task_id is Some <==> queue.selected_task_id is Some && exists|
                i: int,
            |
                0 <= i < loaded.len() && (#[trigger] loaded[i]).id == queue.selected_task_id->0
            &&& after.selected_task_id is Some ==> after.selected_task_id
                == queue.selected_task_id
        }),
{
    let after = reloaded(queue, loaded);
    if after.tasks.contains(task) {
        lemma_put_tasks_come_from(loaded, task);
    }
    if loaded.contains(task) {
        let n = choose|n: int| 0 <= n < loaded.len() && loaded[n] == task;
        lemma_loaded_is_found(loaded, n);
    }
    if let Some(id) = queue.selected_task_id {
        lemma_task_position(after.tasks, id, 0);
        if task_with(after.tasks, id) is Some {
            let found = after.tasks[task_position(after.tasks, id, 0)];
            assert(after.tasks.contains(found));
            lemma_put_tasks_come_from(loaded, found);
            let n = choose|n: int| 0 <= n < loaded.len() && loaded[n] == found;
            assert(loaded[n].id == id);
        }
        if exists|i: int| 0 <= i < loaded.len() && (#[trigger] loaded[i]).id == id {
            let i = choose|i: int| 0 <= i < loaded.len() && (#[trigger] loaded[i]).id == id;
            lemma_loaded_is_found(loaded, i);
        }
    }
}

/// The tasks of a workspace are those with its identifier, in the order in which
/// they stand.
pub proof fn law_tasks_of(tasks: Seq<TaskView>, task: TaskView, workspace_id: Seq<char>)
    ensures
        tasks_of(Seq::empty(), workspace_id) == Seq::<TaskView>::empty(),
        tasks_of(tasks.push(task), workspace_id) == if task.workspace_id == workspace_id {
            tasks_of(tasks, workspace_id).push(task)
        } else {
            tasks_of(tasks, workspace_id)
        },
{
    reveal(Seq::filter);
    assert(tasks.push(task).drop_last() =~= tasks);
}

/// A task that is put in takes the place of the one with its identifier, or comes
/// last; every other task stays where it was.
pub proof fn law_put_task_keeps_places(tasks: Seq<TaskView>, task: TaskView)
    requires
        each_task_once(tasks),
    ensures
        forall|i: int|
            0 <= i < tasks.len() ==> #[trigger] put_task(tasks, task)[i] == if tasks[i].id
                == task.id {
                task
            } else {
                tasks[i]
            },
        (exists|i: int| 0 <= i < tasks.len() && (#[trigger] tasks[i]).id == task.id) ==> put_task(
            tasks,
            task,
        ).len() == tasks.len(),
        (forall|i: int| 0 <= i < tasks.len() ==> (#[trigger] tasks[i]).id != task.id) ==> put_task(
            tasks,
            task,
        ) == tasks.push(task),
{
    lemma_task_position(tasks, task.id, 0);
    let at = task_position(tasks, task.id, 0);
    assert forall|i: int| 0 <= i < tasks.len() implies #[trigger] put_task(tasks, task)[i]
        == if tasks[i].id == task.id {
        task
    } else {
        tasks[i]
    } by {
        if at < tasks.len() && i != at {
            assert(tasks[i].id != tasks[at].id) by {
                if i < at {
                    assert(tasks[i].id != task.id);
                } else {
                    assert(tasks[at].id != tasks[i].id);
                }
            }
        }
    }
}

} // verus!
