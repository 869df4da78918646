//! Where tasks are stored, how stored tasks are loaded and listed, and the index
//! of their workspaces.
use vstd::prelude::*;
use vstd::string::*;
use vstd::utf8::*;

use crate::attachment;
use crate::creation_scope;
use crate::front_matter;
use crate::markdown;
use crate::markdown::parse_task_markdown;
use crate::order;
use crate::order::{compare_texts, stable_sort, Order, Standing};
use crate::outside;
use crate::outside::lossy_text_of;
use crate::path;
use crate::path::{ByPath, LocalPath};
use crate::store_error;
use crate::store_error::{StoreErrorView, TaskStoreError};
use crate::task::{Task, TaskId, TaskStatus, TaskView};
use crate::views;
use crate::workspace::{TaskWorkspace, TaskWorkspaceView, WorkspaceId};

verus! {

/// Stored tasks below a private folder of the application. No path in it is
/// derived from the folder of a workspace.
#[derive(Debug)]
pub struct TaskStore {
    root: LocalPath,
}

impl View for TaskStore {
    type V = Seq<u8>;

    closed spec fn view(&self) -> Seq<u8> {
        self.root@
    }
}

impl Clone for TaskStore {
    fn clone(&self) -> (store: TaskStore)
        ensures
            store@ == self@,
    {
        TaskStore { root: self.root.clone() }
    }
}

/// The folder of a store within a folder for application data.
pub open spec fn store_root(data: Seq<u8>) -> Seq<u8> {
    path::join(path::join(data, encode_utf8("TaskQueue"@)), encode_utf8("v1"@))
}

/// The folder of all tasks.
pub open spec fn tasks_folder(root: Seq<u8>) -> Seq<u8> {
    path::join(root, encode_utf8("tasks"@))
}

/// The folder of the tasks of a workspace.
pub open spec fn workspace_folder(root: Seq<u8>, workspace_id: Seq<char>) -> Seq<u8> {
    path::join(tasks_folder(root), encode_utf8(workspace_id))
}

/// The folder of a task.
pub open spec fn task_folder(root: Seq<u8>, workspace_id: Seq<char>, task_id: Seq<char>) -> Seq<
    u8,
> {
    path::join(workspace_folder(root, workspace_id), encode_utf8(task_id))
}

/// The file in the folder of a task that holds the task.
pub open spec fn task_file(folder: Seq<u8>) -> Seq<u8> {
    path::join(folder, encode_utf8("task.md"@))
}

impl TaskStore {
    /// The store within a folder for application data.
    pub fn open(data: &LocalPath) -> (store: TaskStore)
        ensures
            store@ == store_root(data@),
    {
        TaskStore { root: data.join_text("TaskQueue").join_text("v1") }
    }

    /// The folder of the store.
    pub fn root(&self) -> (root: &LocalPath)
        ensures
            root@ == self@,
    {
        &self.root
    }

    /// The folder of all tasks.
    pub fn tasks_root(&self) -> (folder: LocalPath)
        ensures
            folder@ == tasks_folder(self@),
    {
        self.root.join_text("tasks")
    }

    /// The folder of a task.
    pub fn task_directory(&self, workspace_id: &WorkspaceId, task_id: &TaskId) -> (folder:
        LocalPath)
        ensures
            folder@ == task_folder(self@, workspace_id@, task_id@),
    {
        self.tasks_root().join_text(workspace_id.0.as_str()).join_text(task_id.0.as_str())
    }

    /// The file in the folder of a task that holds the task.
    pub fn task_file_in(&self, folder: &LocalPath) -> (file: LocalPath)
        ensures
            file@ == task_file(folder@),
    {
        folder.join_text("task.md")
    }
}

/// The file system refused an operation on a path.
pub fn io_error(path: &LocalPath, source: &str) -> (error: TaskStoreError)
    ensures
        error@ == (StoreErrorView::Io { path: path@, source: source@ }),
{
    TaskStoreError::Io { path: path.clone(), source: source.to_owned() }
}

/// What a list of folders, or the text of the error that came in its place, says:
/// the folders in order, or that the folder could not be read.
pub open spec fn listed_folders(
    path: Seq<u8>,
    entries: Result<Seq<Seq<u8>>, Seq<char>>,
) -> Result<Seq<Seq<u8>>, StoreErrorView> {
    match entries {
        Ok(entries) => Ok(order::stably_sorted::<LocalPath, ByPath>(entries)),
        Err(source) => Err(StoreErrorView::Io { path, source }),
    }
}

/// The view of a list that was read.
pub open spec fn list_view<T: View, E: View>(list: Result<Vec<T>, E>) -> Result<Seq<T::V>, E::V> {
    match list {
        Ok(items) => Ok(views::views(items@)),
        Err(error) => Err(error@),
    }
}

/// The folders in a folder, in order, from what listing it gave.
pub fn read_directories(path: &LocalPath, entries: Result<Vec<LocalPath>, String>) -> (folders:
    Result<Vec<LocalPath>, TaskStoreError>)
    ensures
        list_view(folders) == listed_folders(path@, list_view(entries)),
{
    match entries {
        Ok(entries) => Ok(stable_sort::<LocalPath, ByPath>(entries)),
        Err(source) => Err(io_error(path, source.as_str())),
    }
}

/// The task that a task file holds, from what reading the file gave.
pub open spec fn loaded_task(
    path: Seq<u8>,
    contents: Result<Seq<char>, Seq<char>>,
) -> Result<TaskView, StoreErrorView> {
    match contents {
        Ok(contents) => front_matter::at_path(path, markdown::parsed_task(contents)),
        Err(source) => Err(StoreErrorView::Io { path, source }),
    }
}

/// The task that a task file holds, from what reading the file gave.
pub fn load_task(task_file: &LocalPath, contents: Result<String, String>) -> (task: Result<
    Task,
    TaskStoreError,
>)
    ensures
        views::result_view(task) == loaded_task(task_file@, views::result_view(contents)),
{
    match contents {
        Ok(contents) => parse_task_markdown(task_file, contents.as_str()),
        Err(source) => Err(io_error(task_file, source.as_str())),
    }
}

/// A loaded task, once it is known whether the folder of its workspace is there:
/// where it is not, the task needs attention for that reason.
pub open spec fn with_workspace_checked(task: TaskView, is_directory: bool) -> TaskView {
    if task.workspace is Some && !is_directory {
        TaskView {
            status: TaskStatus::AttentionRequired,
            attention_reason: Some(
                "workspace_path_missing: "@ + outside::shown_text(task.workspace->0.path)
                    + " is not available"@,
            ),
            ..task
        }
    } else {
        task
    }
}

/// Marks a loaded task whose workspace has no folder.
pub fn check_workspace(task: Task, is_directory: bool) -> (checked: Task)
    ensures
        checked@ == with_workspace_checked(task@, is_directory),
{
    let mut task = task;
    if !is_directory {
        let missing = match &task.workspace {
            Some(workspace) => {
                let mut reason = "workspace_path_missing: ".to_owned();
                reason.append(lossy_text_of(workspace.path.as_bytes()).as_str());
                reason.append(" is not available");
                Some(reason)
            },
            None => None,
        };
        if missing.is_some() {
            task.status = TaskStatus::AttentionRequired;
            task.attention_reason = missing;
        }
    }
    task
}

/// A task file that could not be loaded, and why.
#[derive(Debug, Eq, PartialEq)]
pub struct TaskLoadError {
    pub path: LocalPath,
    pub reason: String,
}

/// A task file that could not be loaded, and why.
pub ghost struct LoadErrorView {
    pub path: Seq<u8>,
    pub reason: Seq<char>,
}

impl View for TaskLoadError {
    type V = LoadErrorView;

    open spec fn view(&self) -> LoadErrorView {
        LoadErrorView { path: self.path@, reason: self.reason@ }
    }
}

impl Clone for TaskLoadError {
    fn clone(&self) -> (error: TaskLoadError)
        ensures
            error@ == self@,
    {
        TaskLoadError { path: self.path.clone(), reason: self.reason.clone() }
    }
}

/// The stored tasks, and the task files that could not be loaded.
#[derive(Debug, Eq, PartialEq)]
pub struct TaskList {
    pub tasks: Vec<Task>,
    pub errors: Vec<TaskLoadError>,
}

/// The stored tasks, and the task files that could not be loaded.
pub ghost struct TaskListView {
    pub tasks: Seq<TaskView>,
    pub errors: Seq<LoadErrorView>,
}

impl View for TaskList {
    type V = TaskListView;

    open spec fn view(&self) -> TaskListView {
        TaskListView { tasks: views::views(self.tasks@), errors: views::views(self.errors@) }
    }
}

/// A task file and what loading it gave.
pub struct StoredTask {
    pub path: LocalPath,
    pub task: Result<Task, TaskStoreError>,
}

/// A task file and what loading it gave.
pub ghost struct StoredTaskView {
    pub path: Seq<u8>,
    pub task: Result<TaskView, StoreErrorView>,
}

impl View for StoredTask {
    type V = StoredTaskView;

    open spec fn view(&self) -> StoredTaskView {
        StoredTaskView { path: self.path@, task: views::result_view(self.task) }
    }
}

/// The order of task files by path.
pub struct ByFile;

impl Order<StoredTask> for ByFile {
    open spec fn le(a: StoredTaskView, b: StoredTaskView) -> bool {
        <ByPath as Order<LocalPath>>::le(a.path, b.path)
    }

    proof fn total(a: StoredTaskView, b: StoredTaskView) {
        <ByPath as Order<LocalPath>>::total(a.path, b.path);
    }

    proof fn transitive(a: StoredTaskView, b: StoredTaskView, c: StoredTaskView) {
        <ByPath as Order<LocalPath>>::transitive(a.path, b.path, c.path);
    }

    fn in_order(a: &StoredTask, b: &StoredTask) -> (ordered: bool) {
        <ByPath as Order<LocalPath>>::in_order(&a.path, &b.path)
    }
}

/// The order of tasks by identifier.
pub struct ByTaskId;

impl Order<Task> for ByTaskId {
    open spec fn le(a: TaskView, b: TaskView) -> bool {
        order::text_order(a.id, b.id) != Standing::Later
    }

    proof fn total(a: TaskView, b: TaskView) {
        order::lemma_text_order_total(a.id, b.id);
    }

    proof fn transitive(a: TaskView, b: TaskView, c: TaskView) {
        order::lemma_text_order_transitive(a.id, b.id, c.id);
    }

    fn in_order(a: &Task, b: &Task) -> (ordered: bool) {
        match compare_texts(a.id.0.as_str(), b.id.0.as_str()) {
            Standing::Later => false,
            _ => true,
        }
    }
}

/// The tasks among loaded files.
pub open spec fn loaded_tasks(files: Seq<StoredTaskView>) -> Seq<TaskView>
    decreases files.len(),
{
    if files.len() == 0 {
        Seq::empty()
    } else {
        match files.last().task {
            Ok(task) => loaded_tasks(files.drop_last()).push(task),
            Err(_) => loaded_tasks(files.drop_last()),
        }
    }
}

/// The failures among loaded files.
pub open spec fn load_errors(files: Seq<StoredTaskView>) -> Seq<LoadErrorView>
    decreases files.len(),
{
    if files.len() == 0 {
        Seq::empty()
    } else {
        match files.last().task {
            Ok(_) => load_errors(files.drop_last()),
            Err(error) => load_errors(files.drop_last()).push(
                LoadErrorView {
                    path: files.last().path,
                    reason: store_error::store_error_text(error),
                },
            ),
        }
    }
}

/// What a store holds: the tasks in the order of their identifiers, and the
/// failures in the order of their paths.
pub open spec fn task_list(files: Seq<StoredTaskView>) -> TaskListView {
    let sorted = order::stably_sorted::<StoredTask, ByFile>(files);
    TaskListView {
        tasks: order::stably_sorted::<Task, ByTaskId>(loaded_tasks(sorted)),
        errors: load_errors(sorted),
    }
}

/// What is listed of a store, from what loading its files gave.
pub open spec fn listed(files: Result<Seq<StoredTaskView>, StoreErrorView>) -> Result<
    TaskListView,
    StoreErrorView,
> {
    match files {
        Ok(files) => Ok(task_list(files)),
        Err(error) => Err(error),
    }
}

impl TaskStore {
    /// What the store holds, from what loading its task files gave. A task file
    /// that could not be loaded does not hide the others.
    pub fn list(&self, files: Result<Vec<StoredTask>, TaskStoreError>) -> (list: Result<
        TaskList,
        TaskStoreError,
    >)
        ensures
            views::result_view(list) == listed(list_view(files)),
    {
        let files = match files {
            Ok(files) => files,
            Err(error) => return Err(error),
        };
        let sorted = stable_sort::<StoredTask, ByFile>(files);
        let ghost all = views::views(sorted@);
        let mut tasks: Vec<Task> = Vec::new();
        let mut errors: Vec<TaskLoadError> = Vec::new();
        assert(all.take(0) =~= Seq::empty());
        assert(views::views(tasks@) =~= Seq::empty());
        assert(views::views(errors@) =~= Seq::empty());
        for file in it: sorted
            invariant
                all == views::views(it.seq()),
                it.index() <= all.len(),
                views::views(tasks@) == loaded_tasks(all.take(it.index() as int)),
                views::views(errors@) == load_errors(all.take(it.index() as int)),
        {
            let ghost at = it.index() as int;
            assert(all.take(at + 1).drop_last() =~= all.take(at));
            assert(all[at] == file@);
            let ghost before_tasks = views::views(tasks@);
            let ghost before_errors = views::views(errors@);
            match file.task {
                Ok(task) => {
                    tasks.push(task);
                    assert(views::views(tasks@) =~= before_tasks.push(task@));
                },
                Err(error) => {
                    let failure = TaskLoadError { path: file.path, reason: error.message() };
                    errors.push(failure);
                    assert(views::views(errors@) =~= before_errors.push(failure@));
                },
            }
        }
        assert(all.take(all.len() as int) =~= all);
        Ok(TaskList { tasks: stable_sort::<Task, ByTaskId>(tasks), errors })
    }
}

proof fn lemma_loaded(files: Seq<StoredTaskView>, file: StoredTaskView)
    requires
        files.contains(file),
    ensures
        match file.task {
            Ok(task) => loaded_tasks(files).contains(task),
            Err(error) => load_errors(files).contains(
                LoadErrorView {
                    path: file.path,
                    reason: store_error::store_error_text(error),
                },
            ),
        },
    decreases files.len(),
{
    let i = choose|i: int| 0 <= i < files.len() && files[i] == file;
    let before = files.drop_last();
    if i < before.len() {
        assert(before[i] == file);
        lemma_loaded(before, file);
        match file.task {
            Ok(task) => {
                let tasks = loaded_tasks(before);
                let k = choose|k: int| 0 <= k < tasks.len() && tasks[k] == task;
                assert(loaded_tasks(files)[k] == task);
            },
            Err(error) => {
                let shown = LoadErrorView {
                    path: file.path,
                    reason: store_error::store_error_text(error),
                };
                let errors = load_errors(before);
                let k = choose|k: int| 0 <= k < errors.len() && errors[k] == shown;
                assert(load_errors(files)[k] == shown);
            },
        }
    } else {
        match file.task {
            Ok(task) => {
                assert(loaded_tasks(files)[loaded_tasks(before).len() as int] == task);
            },
            Err(error) => {
                assert(load_errors(files)[load_errors(before).len() as int].path == file.path);
            },
        }
    }
}

proof fn lemma_loaded_sizes(files: Seq<StoredTaskView>)
    ensures
        loaded_tasks(files).len() + load_errors(files).len() == files.len(),
    decreases files.len(),
{
    if files.len() > 0 {
        lemma_loaded_sizes(files.drop_last());
    }
}

/// Every task file is accounted for: a file that was loaded is among the tasks,
/// one that was not is among the failures with its path, and there is nothing
/// else. A bad file thus hides no other.
pub proof fn law_list_accounts_for_every_file(files: Seq<StoredTaskView>, file: StoredTaskView)
    requires
        files.contains(file),
    ensures
        match file.task {
            Ok(task) => task_list(files).tasks.contains(task),
            Err(error) => task_list(files).errors.contains(
                LoadErrorView {
                    path: file.path,
                    reason: store_error::store_error_text(error),
                },
            ),
        },
        task_list(files).tasks.len() + task_list(files).errors.len() == files.len(),
{
    let sorted = order::stably_sorted::<StoredTask, ByFile>(files);
    order::lemma_sort_keeps::<StoredTask, ByFile>(files);
    assert(sorted.contains(file));
    lemma_loaded(sorted, file);
    lemma_loaded_sizes(sorted);
    order::lemma_sort_keeps::<Task, ByTaskId>(loaded_tasks(sorted));
}

/// The order of workspaces in the index: by identifier.
pub struct ByWorkspaceId;

impl Order<TaskWorkspace> for ByWorkspaceId {
    open spec fn le(a: TaskWorkspaceView, b: TaskWorkspaceView) -> bool {
        order::text_order(a.id, b.id) != Standing::Later
    }

    proof fn total(a: TaskWorkspaceView, b: TaskWorkspaceView) {
        order::lemma_text_order_total(a.id, b.id);
    }

    proof fn transitive(a: TaskWorkspaceView, b: TaskWorkspaceView, c: TaskWorkspaceView) {
        order::lemma_text_order_transitive(a.id, b.id, c.id);
    }

    fn in_order(a: &TaskWorkspace, b: &TaskWorkspace) -> (ordered: bool) {
        match compare_texts(a.id.0.as_str(), b.id.0.as_str()) {
            Standing::Later => false,
            _ => true,
        }
    }
}

/// Where the first workspace with an identifier stands, from `from` on; the
/// length of the list where none does.
pub open spec fn position_of(index: Seq<TaskWorkspaceView>, id: Seq<char>, from: int) -> int
    decreases index.len() - from,
{
    if from >= index.len() {
        index.len() as int
    } else if index[from].id == id {
        from
    } else {
        position_of(index, id, from + 1)
    }
}

/// An index with a workspace put in: in the place of the first one with its
/// identifier, else at the end.
pub open spec fn put_workspace(
    index: Seq<TaskWorkspaceView>,
    workspace: TaskWorkspaceView,
) -> Seq<TaskWorkspaceView> {
    let at = position_of(index, workspace.id, 0);
    if 0 <= at < index.len() {
        index.update(at, workspace)
    } else {
        index.push(workspace)
    }
}

/// An index with a workspace put in, in the order of the identifiers.
pub open spec fn upserted(
    index: Seq<TaskWorkspaceView>,
    workspace: TaskWorkspaceView,
) -> Seq<TaskWorkspaceView> {
    order::stably_sorted::<TaskWorkspace, ByWorkspaceId>(put_workspace(index, workspace))
}

/// Puts a workspace into the index.
pub fn upsert_workspace(index: Vec<TaskWorkspace>, workspace: &TaskWorkspace) -> (updated: Vec<
    TaskWorkspace,
>)
    ensures
        views::views(updated@) == upserted(views::views(index@), workspace@),
{
    let mut index = index;
    let ghost before = views::views(index@);
    let size: usize = index.len();
    let mut at: usize = 0;
    while at < size && !index[at].id.is(&workspace.id)
        invariant
            at <= size,
            size == index@.len(),
            before == views::views(index@),
            position_of(before, workspace@.id, 0) == position_of(before, workspace@.id, at as int),
        decreases size - at,
    {
        assert(before[at as int] == index@[at as int]@);
        at += 1;
    }
    if at < size {
        assert(before[at as int] == index@[at as int]@);
        index[at] = workspace.clone();
        assert(views::views(index@) =~= before.update(at as int, workspace@));
    } else {
        index.push(workspace.clone());
        assert(views::views(index@) =~= before.push(workspace@));
    }
    stable_sort::<TaskWorkspace, ByWorkspaceId>(index)
}

proof fn lemma_position_of(index: Seq<TaskWorkspaceView>, id: Seq<char>, from: int)
    requires
        0 <= from <= index.len(),
    ensures
        from <= position_of(index, id, from) <= index.len(),
        position_of(index, id, from) < index.len() ==> index[position_of(index, id, from)].id
            == id,
        forall|i: int| from <= i < position_of(index, id, from) ==> (#[trigger] index[i]).id != id,
    decreases index.len() - from,
{
    if from < index.len() && index[from].id != id {
        lemma_position_of(index, id, from + 1);
    }
}

/// Putting a workspace into the index makes it stand there, and changes no entry
/// with another identifier.
pub proof fn law_index_update(
    index: Seq<TaskWorkspaceView>,
    workspace: TaskWorkspaceView,
    other: TaskWorkspaceView,
)
    ensures
        upserted(index, workspace).contains(workspace),
        other.id != workspace.id ==> (upserted(index, workspace).contains(other)
            <==> index.contains(other)),
{
    let put = put_workspace(index, workspace);
    let at = position_of(index, workspace.id, 0);
    lemma_position_of(index, workspace.id, 0);
    order::lemma_sort_keeps::<TaskWorkspace, ByWorkspaceId>(put);
    assert(put[at] == workspace);
    assert(put.contains(workspace));
    assert(upserted(index, workspace).contains(workspace));
    if other.id != workspace.id {
        if index.contains(other) {
            let i = choose|i: int| 0 <= i < index.len() && index[i] == other;
            assert(put[i] == other);
        }
        if put.contains(other) {
            let i = choose|i: int| 0 <= i < put.len() && put[i] == other;
            assert(index[i] == other);
        }
        assert(upserted(index, workspace).contains(other) <==> put.contains(other));
    }
}

/// Whether no two workspaces of an index share an identifier.
pub open spec fn has_distinct_ids(index: Seq<TaskWorkspaceView>) -> bool {
    forall|i: int, j: int|
        0 <= i < j < index.len() ==> (#[trigger] index[i]).id != (#[trigger] index[j]).id
}

/// An index in which no two entries share an identifier stays one.
pub proof fn law_index_stays_distinct(index: Seq<TaskWorkspaceView>, workspace: TaskWorkspaceView)
    requires
        has_distinct_ids(index),
    ensures
        has_distinct_ids(upserted(index, workspace)),
{
    let put = put_workspace(index, workspace);
    let after = upserted(index, workspace);
    let at = position_of(index, workspace.id, 0);
    lemma_position_of(index, workspace.id, 0);
    assert forall|i: int, j: int| 0 <= i < j < put.len() implies (#[trigger] put[i]).id != (
    #[trigger] put[j]).id by {
        if i < index.len() {
            assert(put[i].id == index[i].id);
        }
        if j < index.len() {
            assert(put[j].id == index[j].id);
        }
    }
    order::lemma_sort_exists::<TaskWorkspace, ByWorkspaceId>(put);
    let places = choose|places: Seq<int>|
        order::sorted_from::<TaskWorkspace, ByWorkspaceId>(after, put, places);
    assert forall|i: int, j: int| 0 <= i < j < after.len() implies (#[trigger] after[i]).id != (
    #[trigger] after[j]).id by {
        assert(after[i] == put[places[i]]);
        assert(after[j] == put[places[j]]);
        assert(places[i] != places[j]);
    }
}

/// A loaded task whose workspace has no folder any more requires attention,
/// whatever its status was, and its reason names the path of the workspace; nothing
/// else in it changes.
pub proof fn law_missing_workspace_is_flagged(task: TaskView)
    requires
        task.workspace is Some,
    ensures
        ({
            let checked = with_workspace_checked(task, false);
            &&& checked.status == TaskStatus::AttentionRequired
            &&& checked.attention_reason == Some(
                "workspace_path_missing: "@ + outside::shown_text(task.workspace->0.path)
                    + " is not available"@,
            )
            &&& checked.id == task.id
            &&& checked.workspace_id == task.workspace_id
            &&& checked.workspace == task.workspace
            &&& checked.title == task.title
            &&& checked.description == task.description
            &&& checked.priority == task.priority
            &&& checked.agent_kind == task.agent_kind
            &&& checked.attachments == task.attachments
            &&& checked.terminal_pane_id == task.terminal_pane_id
            &&& checked.created_at_ms == task.created_at_ms
            &&& checked.updated_at_ms == task.updated_at_ms
        }),
{
}

/// A loaded task whose workspace has its folder is listed as it was stored.
pub proof fn law_present_workspace_changes_nothing(task: TaskView)
    ensures
        with_workspace_checked(task, true) == task,
        task.workspace is None ==> with_workspace_checked(task, false) == task,
{
}

/// A task file that could not be read is reported with its path and the reason; one
/// that could be read gives the task that its text says, or is reported with its
/// path.
pub proof fn law_loaded_task(path: Seq<u8>, contents: Seq<char>, source: Seq<char>)
    ensures
        loaded_task(path, Err(source)) == Err::<TaskView, StoreErrorView>(
            StoreErrorView::Io { path, source },
        ),
        match markdown::parsed_task(contents) {
            Ok(task) => loaded_task(path, Ok(contents)) == Ok::<TaskView, StoreErrorView>(task),
            Err(reason) => loaded_task(path, Ok(contents)) == Err::<TaskView, StoreErrorView>(
                StoreErrorView::Invalid { path, reason },
            ),
        },
{
}

proof fn lemma_listed_comes_from(files: Seq<StoredTaskView>, task: TaskView, error: LoadErrorView)
    ensures
        loaded_tasks(files).contains(task) ==> exists|i: int|
            0 <= i < files.len() && (#[trigger] files[i]).task == Ok::<TaskView, StoreErrorView>(
                task,
            ),
        load_errors(files).contains(error) ==> exists|i: int|
            0 <= i < files.len() && (#[trigger] files[i]).task is Err && files[i].path
                == error.path && error.reason == store_error::store_error_text(
                files[i].task->Err_0,
            ),
    decreases files.len(),
{
    if files.len() > 0 {
        let before = files.drop_last();
        let last = files.len() - 1;
        lemma_listed_comes_from(before, task, error);
        if loaded_tasks(files).contains(task) {
            if loaded_tasks(before).contains(task) {
                let i = choose|i: int|
                    0 <= i < before.len() && (#[trigger] before[i]).task == Ok::<
                        TaskView,
                        StoreErrorView,
                    >(task);
                assert(files[i].task == Ok::<TaskView, StoreErrorView>(task));
            } else {
                let k = choose|k: int|
                    0 <= k < loaded_tasks(files).len() && loaded_tasks(files)[k] == task;
                if k < loaded_tasks(before).len() {
                    assert(loaded_tasks(before)[k] == task);
                }
                assert(files[last].task == Ok::<TaskView, StoreErrorView>(task));
            }
        }
        if load_errors(files).contains(error) {
            if load_errors(before).contains(error) {
                let i = choose|i: int|
                    0 <= i < before.len() && (#[trigger] before[i]).task is Err && before[i].path
                        == error.path && error.reason == store_error::store_error_text(
                        before[i].task->Err_0,
                    );
                assert(files[i].task is Err && files[i].path == error.path);
            } else {
                let k = choose|k: int|
                    0 <= k < load_errors(files).len() && load_errors(files)[k] == error;
                if k < load_errors(before).len() {
                    assert(load_errors(before)[k] == error);
                }
                assert(files[last].task is Err && files[last].path == error.path);
            }
        }
    }
}

/// Nothing is listed but what was loaded: each listed task is that of a file, and
/// each failure is that of a file, with its path and its reason.
pub proof fn law_list_adds_nothing(
    files: Seq<StoredTaskView>,
    task: TaskView,
    error: LoadErrorView,
)
    ensures
        task_list(files).tasks.contains(task) ==> exists|file: StoredTaskView| #[trigger]
            files.contains(file) && file.task == Ok::<TaskView, StoreErrorView>(task),
        task_list(files).errors.contains(error) ==> exists|file: StoredTaskView| #[trigger]
            files.contains(file) && file.task is Err && file.path == error.path && error.reason
                == store_error::store_error_text(file.task->Err_0),
{
    let sorted = order::stably_sorted::<StoredTask, ByFile>(files);
    order::lemma_sort_keeps::<StoredTask, ByFile>(files);
    order::lemma_sort_keeps::<Task, ByTaskId>(loaded_tasks(sorted));
    lemma_listed_comes_from(sorted, task, error);
    if task_list(files).tasks.contains(task) {
        let i = choose|i: int|
            0 <= i < sorted.len() && (#[trigger] sorted[i]).task == Ok::<TaskView, StoreErrorView>(
                task,
            );
        assert(sorted.contains(sorted[i]));
        assert(files.contains(sorted[i]));
    }
    if task_list(files).errors.contains(error) {
        let i = choose|i: int|
            0 <= i < sorted.len() && (#[trigger] sorted[i]).task is Err && sorted[i].path
                == error.path && error.reason == store_error::store_error_text(
                sorted[i].task->Err_0,
            );
        assert(sorted.contains(sorted[i]));
        assert(files.contains(sorted[i]));
    }
}

proof fn lemma_errors_in_order(files: Seq<StoredTaskView>)
    requires
        forall|i: int, j: int|
            0 <= i < j < files.len() ==> path::path_order(
                (#[trigger] files[i]).path,
                (#[trigger] files[j]).path,
            ) != Standing::Later,
    ensures
        forall|i: int, j: int|
            0 <= i < j < load_errors(files).len() ==> path::path_order(
                (#[trigger] load_errors(files)[i]).path,
                (#[trigger] load_errors(files)[j]).path,
            ) != Standing::Later,
        forall|i: int|
            0 <= i < load_errors(files).len() ==> exists|k: int|
                0 <= k < files.len() && #[trigger] files[k].path == (#[trigger] load_errors(
                    files,
                )[i]).path,
    decreases files.len(),
{
    if files.len() > 0 {
        let before = files.drop_last();
        let last = files.len() - 1;
        assert forall|i: int, j: int| 0 <= i < j < before.len() implies path::path_order(
            (#[trigger] before[i]).path,
            (#[trigger] before[j]).path,
        ) != Standing::Later by {
            assert(before[i] == files[i] && before[j] == files[j]);
        }
        lemma_errors_in_order(before);
        let errors = load_errors(files);
        let earlier = load_errors(before);
        assert forall|i: int| 0 <= i < errors.len() implies exists|k: int|
            0 <= k < files.len() && #[trigger] files[k].path == (#[trigger] errors[i]).path by {
            if i < earlier.len() {
                assert(errors[i] == earlier[i]);
                let k = choose|k: int|
                    0 <= k < before.len() && #[trigger] before[k].path == earlier[i].path;
                assert(files[k].path == errors[i].path);
            } else {
                assert(files[last].path == errors[i].path);
            }
        }
        assert forall|i: int, j: int| 0 <= i < j < errors.len() implies path::path_order(
            (#[trigger] errors[i]).path,
            (#[trigger] errors[j]).path,
        ) != Standing::Later by {
            assert(errors[i] == earlier[i]);
            if j < earlier.len() {
                assert(errors[j] == earlier[j]);
            } else {
                let k = choose|k: int|
                    0 <= k < before.len() && #[trigger] before[k].path == earlier[i].path;
                assert(files[k] == before[k]);
                assert(errors[j].path == files[last].path);
            }
        }
    }
}

/// The tasks are listed in the order of their identifiers, the failures in that of
/// their paths.
pub proof fn law_list_is_in_order(files: Seq<StoredTaskView>, i: int, j: int)
    requires
        0 <= i < j,
    ensures
        j < task_list(files).tasks.len() ==> order::byte_order(
            encode_utf8(task_list(files).tasks[i].id),
            encode_utf8(task_list(files).tasks[j].id),
        ) != Standing::Later,
        j < task_list(files).errors.len() ==> path::path_order(
            task_list(files).errors[i].path,
            task_list(files).errors[j].path,
        ) != Standing::Later,
{
    let sorted = order::stably_sorted::<StoredTask, ByFile>(files);
    order::lemma_sort_keeps::<StoredTask, ByFile>(files);
    order::lemma_sort_keeps::<Task, ByTaskId>(loaded_tasks(sorted));
    assert forall|a: int, b: int| 0 <= a < b < sorted.len() implies path::path_order(
        (#[trigger] sorted[a]).path,
        (#[trigger] sorted[b]).path,
    ) != Standing::Later by {
        assert(<ByFile as Order<StoredTask>>::le(sorted[a], sorted[b]));
    }
    lemma_errors_in_order(sorted);
    if j < task_list(files).tasks.len() {
        let tasks = order::stably_sorted::<Task, ByTaskId>(loaded_tasks(sorted));
        assert(<ByTaskId as Order<Task>>::le(tasks[i], tasks[j]));
    }
}

/// Where the store could not be read, that is what is said; where it could, the
/// files are listed.
pub proof fn law_listed(files: Seq<StoredTaskView>, error: StoreErrorView)
    ensures
        listed(Err(error)) == Err::<TaskListView, StoreErrorView>(error),
        listed(Ok(files)) == Ok::<TaskListView, StoreErrorView>(task_list(files)),
{
}

/// The folders in a folder are all taken over, in order; where they could not be
/// listed, the folder and the reason are reported.
pub proof fn law_listed_folders(
    path: Seq<u8>,
    entries: Seq<Seq<u8>>,
    source: Seq<char>,
    i: int,
    j: int,
)
    requires
        0 <= i < j < entries.len(),
    ensures
        listed_folders(path, Ok(entries)) matches Ok(folders) && folders.to_multiset()
            == entries.to_multiset() && folders.len() == entries.len() && path::path_order(
            folders[i],
            folders[j],
        ) != Standing::Later,
        listed_folders(path, Err(source)) == Err::<Seq<Seq<u8>>, StoreErrorView>(
            StoreErrorView::Io { path, source },
        ),
{
    order::lemma_sort_keeps_count::<LocalPath, ByPath>(entries);
    order::lemma_sort_keeps::<LocalPath, ByPath>(entries);
    let folders = order::stably_sorted::<LocalPath, ByPath>(entries);
    assert(<ByPath as Order<LocalPath>>::le(folders[i], folders[j]));
}

/// The index is in the order of the identifiers, and has an entry more exactly
/// where the workspace was not in it.
pub proof fn law_index_is_in_order(
    index: Seq<TaskWorkspaceView>,
    workspace: TaskWorkspaceView,
    i: int,
    j: int,
)
    requires
        0 <= i < j < upserted(index, workspace).len(),
    ensures
        order::byte_order(
            encode_utf8(upserted(index, workspace)[i].id),
            encode_utf8(upserted(index, workspace)[j].id),
        ) != Standing::Later,
        upserted(index, workspace).len() == if exists|k: int|
            0 <= k < index.len() && (#[trigger] index[k]).id == workspace.id {
            index.len()
        } else {
            index.len() + 1
        },
{
    let put = put_workspace(index, workspace);
    lemma_position_of(index, workspace.id, 0);
    order::lemma_sort_keeps::<TaskWorkspace, ByWorkspaceId>(put);
    let after = upserted(index, workspace);
    assert(<ByWorkspaceId as Order<TaskWorkspace>>::le(after[i], after[j]));
}

/// The file of a task lies in the folder of the task, which lies in that of its
/// workspace, which lies in that of all tasks, below the folder of the store.
pub proof fn law_task_file_place(root: Seq<u8>, workspace_id: Seq<char>, task_id: Seq<char>)
    requires
        path::open_stem(root),
        path::proper_name(encode_utf8(workspace_id)),
        path::proper_name(encode_utf8(task_id)),
    ensures
        path::components(task_file(task_folder(root, workspace_id, task_id))) == path::components(
            root,
        ) + seq![
            path::ComponentView::Normal(encode_utf8("tasks"@)),
            path::ComponentView::Normal(encode_utf8(workspace_id)),
            path::ComponentView::Normal(encode_utf8(task_id)),
            path::ComponentView::Normal(encode_utf8("task.md"@)),
        ],
{
    creation_scope::lemma_fixed_names_are_safe();
    attachment::lemma_safe_is_proper("tasks"@);
    attachment::lemma_safe_is_proper("task.md"@);
    let tasks = tasks_folder(root);
    let workspace = workspace_folder(root, workspace_id);
    let folder = task_folder(root, workspace_id, task_id);
    path::law_joined_name(root, encode_utf8("tasks"@));
    path::lemma_components_of_join(root, encode_utf8("tasks"@));
    path::law_joined_name(tasks, encode_utf8(workspace_id));
    path::lemma_components_of_join(tasks, encode_utf8(workspace_id));
    path::law_joined_name(workspace, encode_utf8(task_id));
    path::lemma_components_of_join(workspace, encode_utf8(task_id));
    path::law_joined_name(folder, encode_utf8("task.md"@));
    assert(path::components(task_file(folder)) =~= path::components(root) + seq![
        path::ComponentView::Normal(encode_utf8("tasks"@)),
        path::ComponentView::Normal(encode_utf8(workspace_id)),
        path::ComponentView::Normal(encode_utf8(task_id)),
        path::ComponentView::Normal(encode_utf8("task.md"@)),
    ]);
}

} // verus!
