//! The creation of a stored task, step by step. The creation names one operation
//! of the file system after the other and is told what came of it.
use vstd::prelude::*;
use vstd::string::*;
use vstd::utf8::*;

use std::sync::Arc;

use crate::attachment;
use crate::attachment::{attachment_filename, validate_path_component};
use crate::markdown;
use crate::markdown::render_task_markdown;
use crate::outside;
use crate::outside::random_id;
use crate::path;
use crate::path::LocalPath;
use crate::store;
use crate::store::{io_error, upsert_workspace, TaskStore};
use crate::store_error::{invalid, StoreErrorView, TaskStoreError};
use crate::task;
use crate::task::{AttachmentView, NewTaskInput, NewTaskView, Task, TaskAttachment, TaskId, TaskView};
use crate::text::same_text;
use crate::views;
use crate::workspace::{TaskWorkspace, TaskWorkspaceView};

verus! {

/// One operation of the file system.
pub enum StoreAction {
    /// Creates a folder and those above it, where they are missing.
    CreateDirectory(LocalPath),
    /// Copies a file.
    CopyFile { from: LocalPath, to: LocalPath },
    /// Writes a file and waits until it is on disk.
    WriteBytes { path: LocalPath, bytes: Arc<Vec<u8>> },
    /// Writes a text file and waits until it is on disk.
    WriteText { path: LocalPath, text: String },
    /// Waits until a file is on disk.
    SyncFile(LocalPath),
    /// Reads the index of workspaces. A missing index is an empty one.
    ReadIndex(LocalPath),
    /// Writes an index of workspaces and waits until it is on disk.
    WriteIndex { path: LocalPath, workspaces: Vec<TaskWorkspace> },
    /// Moves a file or folder to another place, in one step.
    Rename { from: LocalPath, to: LocalPath },
    /// Looks whether there is anything at a path.
    CheckExists(LocalPath),
    /// Removes a folder with what it holds.
    RemoveDirectory(LocalPath),
}

/// What an operation is.
pub ghost enum ActionView {
    CreateDirectory(Seq<u8>),
    CopyFile { from: Seq<u8>, to: Seq<u8> },
    WriteBytes { path: Seq<u8>, bytes: Seq<u8> },
    WriteText { path: Seq<u8>, text: Seq<char> },
    SyncFile(Seq<u8>),
    ReadIndex(Seq<u8>),
    WriteIndex { path: Seq<u8>, workspaces: Seq<TaskWorkspaceView> },
    Rename { from: Seq<u8>, to: Seq<u8> },
    CheckExists(Seq<u8>),
    RemoveDirectory(Seq<u8>),
}

impl View for StoreAction {
    type V = ActionView;

    open spec fn view(&self) -> ActionView {
        match self {
            StoreAction::CreateDirectory(path) => ActionView::CreateDirectory(path@),
            StoreAction::CopyFile { from, to } => ActionView::CopyFile { from: from@, to: to@ },
            StoreAction::WriteBytes { path, bytes } => ActionView::WriteBytes {
                path: path@,
                bytes: (**bytes)@,
            },
            StoreAction::WriteText { path, text } => ActionView::WriteText {
                path: path@,
                text: text@,
            },
            StoreAction::SyncFile(path) => ActionView::SyncFile(path@),
            StoreAction::ReadIndex(path) => ActionView::ReadIndex(path@),
            StoreAction::WriteIndex { path, workspaces } => ActionView::WriteIndex {
                path: path@,
                workspaces: views::views(workspaces@),
            },
            StoreAction::Rename { from, to } => ActionView::Rename { from: from@, to: to@ },
            StoreAction::CheckExists(path) => ActionView::CheckExists(path@),
            StoreAction::RemoveDirectory(path) => ActionView::RemoveDirectory(path@),
        }
    }
}

/// What came of an operation.
pub enum StoreReply {
    /// It succeeded.
    Done,
    /// The file system refused it, with this text.
    Failed(String),
    /// The index of workspaces that was read.
    Index(Vec<TaskWorkspace>),
    /// The index could not be read from, or written as, its text.
    Malformed(String),
    /// Whether there is anything at the path.
    Exists(bool),
}

/// What came of an operation.
pub ghost enum ReplyView {
    Done,
    Failed(Seq<char>),
    Index(Seq<TaskWorkspaceView>),
    Malformed(Seq<char>),
    Exists(bool),
}

impl View for StoreReply {
    type V = ReplyView;

    open spec fn view(&self) -> ReplyView {
        match self {
            StoreReply::Done => ReplyView::Done,
            StoreReply::Failed(source) => ReplyView::Failed(source@),
            StoreReply::Index(index) => ReplyView::Index(views::views(index@)),
            StoreReply::Malformed(source) => ReplyView::Malformed(source@),
            StoreReply::Exists(exists) => ReplyView::Exists(*exists),
        }
    }
}

/// Whether a reply can come of an operation.
pub open spec fn answers(action: ActionView, reply: ReplyView) -> bool {
    match action {
        ActionView::ReadIndex(_) => reply is Index || reply is Failed || reply is Malformed,
        ActionView::WriteIndex { .. } => reply is Done || reply is Failed || reply is Malformed,
        ActionView::CheckExists(_) => reply is Exists,
        _ => reply is Done || reply is Failed,
    }
}

/// How far the creation of a task has come: the operation that is next, or the
/// outcome.
enum Stage {
    Root,
    StagingRoot,
    Staging,
    Attachments,
    Store,
    Sync,
    TaskFile(String),
    ReadIndex,
    WriteIndex(Vec<TaskWorkspace>),
    ReplaceIndex,
    WorkspaceFolder,
    CheckFinal,
    Publish,
    Discard(TaskStoreError),
    Finished(Result<Task, TaskStoreError>),
}

/// How far the creation of a task has come.
pub ghost enum StageView {
    /// The folder of the store.
    Root,
    /// The folder for tasks in the making.
    StagingRoot,
    /// The folder for one task in the making.
    Staging,
    /// The folder for its attachments.
    Attachments,
    /// The attachment whose name was taken last.
    Store,
    /// The same attachment, once it is stored.
    Sync,
    /// The task file, with its text.
    TaskFile(Seq<char>),
    ReadIndex,
    /// The index next to its final place, with its entries.
    WriteIndex(Seq<TaskWorkspaceView>),
    ReplaceIndex,
    /// The folder of the tasks of the workspace.
    WorkspaceFolder,
    CheckFinal,
    /// The move of the folder in the making to its final place.
    Publish,
    /// The removal of the folder in the making, after an error.
    Discard(StoreErrorView),
    Finished(Result<TaskView, StoreErrorView>),
}

impl View for Stage {
    type V = StageView;

    closed spec fn view(&self) -> StageView {
        match self {
            Stage::Root => StageView::Root,
            Stage::StagingRoot => StageView::StagingRoot,
            Stage::Staging => StageView::Staging,
            Stage::Attachments => StageView::Attachments,
            Stage::Store => StageView::Store,
            Stage::Sync => StageView::Sync,
            Stage::TaskFile(text) => StageView::TaskFile(text@),
            Stage::ReadIndex => StageView::ReadIndex,
            Stage::WriteIndex(index) => StageView::WriteIndex(views::views(index@)),
            Stage::ReplaceIndex => StageView::ReplaceIndex,
            Stage::WorkspaceFolder => StageView::WorkspaceFolder,
            Stage::CheckFinal => StageView::CheckFinal,
            Stage::Publish => StageView::Publish,
            Stage::Discard(error) => StageView::Discard(error@),
            Stage::Finished(outcome) => StageView::Finished(views::result_view(*outcome)),
        }
    }
}

/// The creation of a stored task.
pub struct TaskCreation {
    root: LocalPath,
    task: Task,
    workspace: TaskWorkspace,
    names: Vec<String>,
    stage: Stage,
}

/// The creation of a stored task: the folder of the store, the task as it was
/// asked for, its workspace, the names of the attachments so far, and the stage.
pub ghost struct CreationView {
    pub root: Seq<u8>,
    pub task: TaskView,
    pub workspace: TaskWorkspaceView,
    pub names: Seq<Seq<char>>,
    pub stage: StageView,
}

impl View for TaskCreation {
    type V = CreationView;

    closed spec fn view(&self) -> CreationView {
        CreationView {
            root: self.root@,
            task: self.task@,
            workspace: self.workspace@,
            names: views::views(self.names@),
            stage: self.stage@,
        }
    }
}

/// The folder for tasks in the making.
pub open spec fn staging_root(root: Seq<u8>) -> Seq<u8> {
    path::join(root, encode_utf8(".staging"@))
}

/// The folder for one task in the making.
pub open spec fn staging_folder(root: Seq<u8>, id: Seq<char>) -> Seq<u8> {
    path::join(staging_root(root), encode_utf8("create-"@ + id))
}

/// The index of workspaces.
pub open spec fn index_file(root: Seq<u8>) -> Seq<u8> {
    path::join(root, encode_utf8("workspaces.json"@))
}

/// The index of workspaces before it replaces the one before it.
pub open spec fn new_index_file(root: Seq<u8>) -> Seq<u8> {
    path::join(root, encode_utf8("workspaces.json.tmp"@))
}

impl CreationView {
    /// The folder for the task in the making.
    pub open spec fn staging(self) -> Seq<u8> {
        staging_folder(self.root, self.task.id)
    }

    /// The folder for its attachments.
    pub open spec fn attachments(self) -> Seq<u8> {
        path::join(self.staging(), encode_utf8(attachment::attachments_directory()))
    }

    /// The place of an attachment.
    pub open spec fn place(self, n: int) -> Seq<u8> {
        path::join(self.attachments(), encode_utf8(self.names[n]))
    }

    /// The folder of the task once it is stored.
    pub open spec fn home(self) -> Seq<u8> {
        store::task_folder(self.root, self.task.workspace_id, self.task.id)
    }

    /// The same creation at another stage.
    pub open spec fn at(self, stage: StageView) -> CreationView {
        CreationView { stage, ..self }
    }
}

/// How a stored task refers to an attachment.
pub open spec fn stored_attachment(name: Seq<char>) -> AttachmentView {
    AttachmentView { path: attachment::reference_path(name), file_name: None, contents: None }
}

/// The task as it is stored: it refers to its attachments by their names.
pub open spec fn stored_task(task: TaskView, names: Seq<Seq<char>>) -> TaskView {
    TaskView {
        attachments: names.map_values(|name: Seq<char>| stored_attachment(name)),
        ..task
    }
}

/// The operation that stores an attachment: its file is copied, or the bytes
/// that it holds are written.
pub open spec fn store_attachment(attachment: AttachmentView, place: Seq<u8>) -> ActionView {
    match attachment.contents {
        Some(bytes) => ActionView::WriteBytes { path: place, bytes },
        None => ActionView::CopyFile { from: attachment.path, to: place },
    }
}

/// The operation that is next.
pub open spec fn next_action(creation: CreationView) -> Option<ActionView> {
    let last = creation.names.len() - 1;
    match creation.stage {
        StageView::Root => Some(ActionView::CreateDirectory(creation.root)),
        StageView::StagingRoot => Some(ActionView::CreateDirectory(staging_root(creation.root))),
        StageView::Staging => Some(ActionView::CreateDirectory(creation.staging())),
        StageView::Attachments => Some(ActionView::CreateDirectory(creation.attachments())),
        StageView::Store => Some(
            store_attachment(creation.task.attachments[last], creation.place(last)),
        ),
        StageView::Sync => Some(ActionView::SyncFile(creation.place(last))),
        StageView::TaskFile(text) => Some(
            ActionView::WriteText { path: store::task_file(creation.staging()), text },
        ),
        StageView::ReadIndex => Some(ActionView::ReadIndex(index_file(creation.root))),
        StageView::WriteIndex(workspaces) => Some(
            ActionView::WriteIndex { path: new_index_file(creation.root), workspaces },
        ),
        StageView::ReplaceIndex => Some(
            ActionView::Rename {
                from: new_index_file(creation.root),
                to: index_file(creation.root),
            },
        ),
        StageView::WorkspaceFolder => Some(
            ActionView::CreateDirectory(
                store::workspace_folder(creation.root, creation.task.workspace_id),
            ),
        ),
        StageView::CheckFinal => Some(ActionView::CheckExists(creation.home())),
        StageView::Publish => Some(
            ActionView::Rename { from: creation.staging(), to: creation.home() },
        ),
        StageView::Discard(_) => Some(ActionView::RemoveDirectory(creation.staging())),
        StageView::Finished(_) => None,
    }
}

/// The path that an error of the file system is reported for.
pub open spec fn reported_path(creation: CreationView) -> Seq<u8> {
    let last = creation.names.len() - 1;
    match creation.stage {
        StageView::Root => creation.root,
        StageView::StagingRoot => staging_root(creation.root),
        StageView::Staging => creation.staging(),
        StageView::Attachments => creation.attachments(),
        StageView::Store => match creation.task.attachments[last].contents {
            Some(_) => creation.place(last),
            None => creation.task.attachments[last].path,
        },
        StageView::Sync => creation.place(last),
        StageView::TaskFile(_) => store::task_file(creation.staging()),
        StageView::ReadIndex => index_file(creation.root),
        StageView::WriteIndex(_) => new_index_file(creation.root),
        StageView::ReplaceIndex => index_file(creation.root),
        StageView::WorkspaceFolder => store::workspace_folder(
            creation.root,
            creation.task.workspace_id,
        ),
        _ => creation.home(),
    }
}

/// The creation after an error: once there is a folder for the task in the
/// making, it is removed; before, there is nothing to remove.
pub open spec fn failed(creation: CreationView, error: StoreErrorView) -> CreationView {
    match creation.stage {
        StageView::Root | StageView::StagingRoot | StageView::Staging => creation.at(
            StageView::Finished(Err(error)),
        ),
        _ => creation.at(StageView::Discard(error)),
    }
}

/// The creation once there is nothing left to do for the attachments so far: the
/// next one gets its name, which must be safe and new; after the last one the
/// task file follows.
pub open spec fn next_attachment(creation: CreationView) -> CreationView {
    let n = creation.names.len() as int;
    if n >= creation.task.attachments.len() {
        match markdown::rendered(stored_task(creation.task, creation.names)) {
            Ok(text) => creation.at(StageView::TaskFile(text)),
            Err(error) => creation.at(StageView::Discard(error)),
        }
    } else {
        match attachment::stored_name(creation.task.attachments[n]) {
            Err(error) => creation.at(StageView::Discard(error)),
            Ok(name) => if creation.names.contains(name) {
                creation.at(
                    StageView::Discard(StoreErrorView::DuplicateAttachmentFilename(name)),
                )
            } else {
                CreationView {
                    names: creation.names.push(name),
                    stage: StageView::Store,
                    ..creation
                }
            },
        }
    }
}

/// The creation after an operation that succeeded.
pub open spec fn succeeded(creation: CreationView, reply: ReplyView) -> CreationView {
    match creation.stage {
        StageView::Root => creation.at(StageView::StagingRoot),
        StageView::StagingRoot => creation.at(StageView::Staging),
        StageView::Staging => creation.at(StageView::Attachments),
        StageView::Attachments => next_attachment(creation),
        StageView::Store => creation.at(StageView::Sync),
        StageView::Sync => next_attachment(creation),
        StageView::TaskFile(_) => creation.at(StageView::ReadIndex),
        StageView::ReadIndex => match reply {
            ReplyView::Index(index) => creation.at(
                StageView::WriteIndex(store::upserted(index, creation.workspace)),
            ),
            _ => creation,
        },
        StageView::WriteIndex(_) => creation.at(StageView::ReplaceIndex),
        StageView::ReplaceIndex => creation.at(StageView::WorkspaceFolder),
        StageView::WorkspaceFolder => creation.at(StageView::CheckFinal),
        StageView::CheckFinal => match reply {
            ReplyView::Exists(true) => failed(
                creation,
                StoreErrorView::Invalid {
                    path: creation.home(),
                    reason: "generated task ID already exists"@,
                },
            ),
            _ => creation.at(StageView::Publish),
        },
        StageView::Publish => creation.at(
            StageView::Finished(Ok(stored_task(creation.task, creation.names))),
        ),
        StageView::Discard(error) => creation.at(StageView::Finished(Err(error))),
        StageView::Finished(_) => creation,
    }
}

/// The creation after an operation, by what came of it.
pub open spec fn advanced(creation: CreationView, reply: ReplyView) -> CreationView {
    match reply {
        ReplyView::Failed(source) => match creation.stage {
            StageView::Discard(error) => creation.at(StageView::Finished(Err(error))),
            _ => failed(
                creation,
                StoreErrorView::Io { path: reported_path(creation), source },
            ),
        },
        ReplyView::Malformed(source) => failed(
            creation,
            StoreErrorView::Invalid {
                path: index_file(creation.root),
                reason: (if creation.stage is ReadIndex {
                    "could not parse workspace index: "@
                } else {
                    "could not serialize workspace index: "@
                }) + source,
            },
        ),
        _ => succeeded(creation, reply),
    }
}

/// Whether the attachment that is stored at a stage is there to be stored.
pub open spec fn is_consistent(creation: CreationView) -> bool {
    &&& creation.names.len() <= creation.task.attachments.len()
    &&& creation.stage is Store || creation.stage is Sync ==> creation.names.len() > 0
}

/// The creation of a task at its start.
pub open spec fn started(root: Seq<u8>, task: TaskView, workspace: TaskWorkspaceView) -> CreationView {
    CreationView { root, task, workspace, names: Seq::empty(), stage: StageView::Root }
}

impl TaskCreation {
    /// What the steps of a creation rely on.
    #[verifier::type_invariant]
    closed spec fn is_valid(self) -> bool {
        is_consistent(self@)
    }

    fn staging(&self) -> (folder: LocalPath)
        ensures
            folder@ == self@.staging(),
    {
        let mut name = "create-".to_owned();
        name.append(self.task.id.0.as_str());
        self.root.join_text(".staging").join_text(name.as_str())
    }

    fn attachments_folder(&self) -> (folder: LocalPath)
        ensures
            folder@ == self@.attachments(),
    {
        self.staging().join_text("attachments")
    }

    fn place(&self) -> (place: LocalPath)
        requires
            self@.names.len() > 0,
        ensures
            place@ == self@.place(self@.names.len() - 1),
    {
        let last: usize = self.names.len() - 1;
        assert(self@.names[last as int] == self.names@[last as int]@);
        self.attachments_folder().join_text(self.names[last].as_str())
    }

    fn home(&self) -> (folder: LocalPath)
        ensures
            folder@ == self@.home(),
    {
        self.workspace_folder().join_text(self.task.id.0.as_str())
    }

    fn workspace_folder(&self) -> (folder: LocalPath)
        ensures
            folder@ == store::workspace_folder(self@.root, self@.task.workspace_id),
    {
        self.root.join_text("tasks").join_text(self.task.workspace_id.0.as_str())
    }

    fn index(&self) -> (file: LocalPath)
        ensures
            file@ == index_file(self@.root),
    {
        self.root.join_text("workspaces.json")
    }

    fn new_index(&self) -> (file: LocalPath)
        ensures
            file@ == new_index_file(self@.root),
    {
        self.root.join_text("workspaces.json.tmp")
    }

    /// The operation that is next; none once the creation has an outcome.
    pub fn action(&self) -> (action: Option<StoreAction>)
        ensures
            views::option_view(action) == next_action(self@),
    {
        proof {
            use_type_invariant(self);
        }
        match &self.stage {
            Stage::Root => Some(StoreAction::CreateDirectory(self.root.clone())),
            Stage::StagingRoot => Some(
                StoreAction::CreateDirectory(self.root.join_text(".staging")),
            ),
            Stage::Staging => Some(StoreAction::CreateDirectory(self.staging())),
            Stage::Attachments => Some(StoreAction::CreateDirectory(self.attachments_folder())),
            Stage::Store => {
                let last: usize = self.names.len() - 1;
                let attachment = &self.task.attachments[last];
                assert(self@.task.attachments[last as int] == attachment@);
                match &attachment.contents {
                    Some(bytes) => Some(
                        StoreAction::WriteBytes { path: self.place(), bytes: Arc::clone(bytes) },
                    ),
                    None => Some(
                        StoreAction::CopyFile { from: attachment.path.clone(), to: self.place() },
                    ),
                }
            },
            Stage::Sync => Some(StoreAction::SyncFile(self.place())),
            Stage::TaskFile(text) => Some(
                StoreAction::WriteText {
                    path: self.staging().join_text("task.md"),
                    text: text.clone(),
                },
            ),
            Stage::ReadIndex => Some(StoreAction::ReadIndex(self.index())),
            Stage::WriteIndex(workspaces) => {
                let copy = workspaces.clone();
                assert(views::views(copy@) =~= views::views(workspaces@));
                Some(StoreAction::WriteIndex { path: self.new_index(), workspaces: copy })
            },
            Stage::ReplaceIndex => Some(
                StoreAction::Rename { from: self.new_index(), to: self.index() },
            ),
            Stage::WorkspaceFolder => Some(
                StoreAction::CreateDirectory(self.workspace_folder()),
            ),
            Stage::CheckFinal => Some(StoreAction::CheckExists(self.home())),
            Stage::Publish => Some(
                StoreAction::Rename { from: self.staging(), to: self.home() },
            ),
            Stage::Discard(_) => Some(StoreAction::RemoveDirectory(self.staging())),
            Stage::Finished(_) => None,
        }
    }

    /// The outcome of the creation: the stored task, or why it was not stored.
    pub fn outcome(self) -> (outcome: Option<Result<Task, TaskStoreError>>)
        ensures
            match outcome {
                Some(outcome) => self@.stage == StageView::Finished(views::result_view(outcome)),
                None => !(self@.stage is Finished),
            },
    {
        match self.stage {
            Stage::Finished(outcome) => Some(outcome),
            _ => None,
        }
    }
}

impl TaskCreation {
    fn with_stage(self, stage: Stage) -> (creation: TaskCreation)
        requires
            is_consistent(self@.at(stage@)),
        ensures
            creation@ == self@.at(stage@),
    {
        TaskCreation {
            root: self.root,
            task: self.task,
            workspace: self.workspace,
            names: self.names,
            stage,
        }
    }

    fn fail(self, error: TaskStoreError) -> (creation: TaskCreation)
        ensures
            creation@ == failed(self@, error@),
    {
        proof {
            use_type_invariant(&self);
        }
        match self.stage {
            Stage::Root | Stage::StagingRoot | Stage::Staging => self.with_stage(
                Stage::Finished(Err(error)),
            ),
            _ => self.with_stage(Stage::Discard(error)),
        }
    }

    fn has_name(&self, name: &str) -> (known: bool)
        ensures
            known == self@.names.contains(name@),
    {
        let mut i: usize = 0;
        while i < self.names.len()
            invariant
                i <= self.names@.len(),
                forall|k: int| 0 <= k < i ==> #[trigger] self@.names[k] != name@,
            decreases self.names@.len() - i,
        {
            assert(self@.names[i as int] == self.names@[i as int]@);
            if same_text(self.names[i].as_str(), name) {
                return true;
            }
            i += 1;
        }
        false
    }

    /// The task as it is stored.
    fn stored(&self) -> (task: Task)
        ensures
            task@ == stored_task(self@.task, self@.names),
    {
        let mut attachments: Vec<TaskAttachment> = Vec::new();
        let ghost names = self@.names;
        let ghost all = stored_task(self@.task, names).attachments;
        let mut i: usize = 0;
        while i < self.names.len()
            invariant
                i <= self.names@.len(),
                names == views::views(self.names@),
                all == stored_task(self@.task, names).attachments,
                views::views(attachments@) == all.take(i as int),
            decreases self.names@.len() - i,
        {
            let place = LocalPath::from_text("attachments").join_text(self.names[i].as_str());
            let ghost before = views::views(attachments@);
            attachments.push(TaskAttachment::new(place));
            assert(names[i as int] == self.names@[i as int]@);
            assert(views::views(attachments@) =~= before.push(all[i as int]));
            assert(all.take(i + 1) =~= all.take(i as int).push(all[i as int]));
            i += 1;
        }
        assert(all.take(i as int) =~= all);
        let mut task = self.task.clone();
        task.attachments = attachments;
        task
    }

    fn begin_attachment(self) -> (creation: TaskCreation)
        ensures
            creation@ == next_attachment(self@),
    {
        proof {
            use_type_invariant(&self);
        }
        let n: usize = self.names.len();
        if n >= self.task.attachments.len() {
            match render_task_markdown(&self.stored()) {
                Ok(text) => self.with_stage(Stage::TaskFile(text)),
                Err(error) => self.with_stage(Stage::Discard(error)),
            }
        } else {
            assert(self@.task.attachments[n as int] == self.task.attachments@[n as int]@);
            match attachment_filename(&self.task.attachments[n]) {
                Err(error) => self.with_stage(Stage::Discard(error)),
                Ok(name) => {
                    if self.has_name(name.as_str()) {
                        return self.with_stage(
                            Stage::Discard(TaskStoreError::DuplicateAttachmentFilename(name)),
                        );
                    }
                    let mut names = self.names;
                    let ghost known = views::views(names@);
                    names.push(name);
                    assert(views::views(names@) =~= known.push(name@));
                    TaskCreation {
                        root: self.root,
                        task: self.task,
                        workspace: self.workspace,
                        names,
                        stage: Stage::Store,
                    }
                },
            }
        }
    }

    /// The path that an error of the file system is reported for.
    fn reported(&self) -> (path: LocalPath)
        ensures
            path@ == reported_path(self@),
    {
        proof {
            use_type_invariant(self);
        }
        match &self.stage {
            Stage::Root => self.root.clone(),
            Stage::StagingRoot => self.root.join_text(".staging"),
            Stage::Staging => self.staging(),
            Stage::Attachments => self.attachments_folder(),
            Stage::Store => {
                let last: usize = self.names.len() - 1;
                assert(self@.task.attachments[last as int] == self.task.attachments@[last as int]@);
                match &self.task.attachments[last].contents {
                    Some(_) => self.place(),
                    None => self.task.attachments[last].path.clone(),
                }
            },
            Stage::Sync => self.place(),
            Stage::TaskFile(_) => self.staging().join_text("task.md"),
            Stage::ReadIndex => self.index(),
            Stage::WriteIndex(_) => self.new_index(),
            Stage::ReplaceIndex => self.index(),
            Stage::WorkspaceFolder => self.workspace_folder(),
            _ => self.home(),
        }
    }

    fn discarded(self) -> (creation: TaskCreation)
        ensures
            match self@.stage {
                StageView::Discard(error) => creation@ == self@.at(
                    StageView::Finished(Err(error)),
                ),
                _ => creation@ == self@,
            },
    {
        proof {
            use_type_invariant(&self);
        }
        let stage = match self.stage {
            Stage::Discard(error) => Stage::Finished(Err(error)),
            stage => stage,
        };
        TaskCreation {
            root: self.root,
            task: self.task,
            workspace: self.workspace,
            names: self.names,
            stage,
        }
    }

    fn succeed(self, reply: StoreReply) -> (creation: TaskCreation)
        ensures
            creation@ == succeeded(self@, reply@),
    {
        proof {
            use_type_invariant(&self);
        }
        match &self.stage {
            Stage::Root => self.with_stage(Stage::StagingRoot),
            Stage::StagingRoot => self.with_stage(Stage::Staging),
            Stage::Staging => self.with_stage(Stage::Attachments),
            Stage::Attachments => self.begin_attachment(),
            Stage::Store => self.with_stage(Stage::Sync),
            Stage::Sync => self.begin_attachment(),
            Stage::TaskFile(_) => self.with_stage(Stage::ReadIndex),
            Stage::ReadIndex => match reply {
                StoreReply::Index(index) => {
                    let updated = upsert_workspace(index, &self.workspace);
                    self.with_stage(Stage::WriteIndex(updated))
                },
                _ => self,
            },
            Stage::WriteIndex(_) => self.with_stage(Stage::ReplaceIndex),
            Stage::ReplaceIndex => self.with_stage(Stage::WorkspaceFolder),
            Stage::WorkspaceFolder => self.with_stage(Stage::CheckFinal),
            Stage::CheckFinal => match reply {
                StoreReply::Exists(true) => {
                    let error = invalid(&self.home(), "generated task ID already exists");
                    self.fail(error)
                },
                _ => self.with_stage(Stage::Publish),
            },
            Stage::Publish => {
                let task = self.stored();
                self.with_stage(Stage::Finished(Ok(task)))
            },
            Stage::Discard(_) => self.discarded(),
            Stage::Finished(_) => self,
        }
    }

    /// Goes on after the operation that was next, by what came of it.
    pub fn advance(self, reply: StoreReply) -> (creation: TaskCreation)
        requires
            next_action(self@) is Some,
            answers(next_action(self@)->0, reply@),
        ensures
            creation@ == advanced(self@, reply@),
    {
        match reply {
            StoreReply::Failed(source) => match &self.stage {
                Stage::Discard(_) => self.discarded(),
                _ => {
                    let error = io_error(&self.reported(), source.as_str());
                    self.fail(error)
                },
            },
            StoreReply::Malformed(source) => {
                let mut reason = match &self.stage {
                    Stage::ReadIndex => "could not parse workspace index: ".to_owned(),
                    _ => "could not serialize workspace index: ".to_owned(),
                };
                reason.append(source.as_str());
                let error = invalid(&self.index(), reason.as_str());
                self.fail(error)
            },
            reply => self.succeed(reply),
        }
    }
}

/// Why a task is refused before anything is written, where it is: it must come
/// with its workspace, under the identifier of that workspace, and the identifier
/// must be able to name a folder.
pub open spec fn refused_input(input: NewTaskView) -> Option<StoreErrorView> {
    match input.workspace {
        None => Some(StoreErrorView::WorkspaceMetadataMissing),
        Some(workspace) => if workspace.id != input.workspace_id {
            Some(StoreErrorView::WorkspaceMetadataMismatch)
        } else if !attachment::is_safe_component(workspace.id) {
            Some(StoreErrorView::UnsafePathComponent(workspace.id))
        } else {
            None
        },
    }
}

impl TaskStore {
    /// Begins the creation of a stored task with a given identifier and given
    /// times.
    pub fn create_at(
        &self,
        id: TaskId,
        input: NewTaskInput,
        created_at_ms: u64,
        updated_at_ms: u64,
    ) -> (creation: Result<TaskCreation, TaskStoreError>)
        ensures
            match creation {
                Err(error) => refused_input(input@) == Some(error@),
                Ok(creation) => refused_input(input@) is None && creation@ == started(
                    self@,
                    task::new_task(id@, input@, created_at_ms, updated_at_ms),
                    input@.workspace->0,
                ),
            },
    {
        let workspace = match &input.workspace {
            Some(workspace) => workspace.clone(),
            None => return Err(TaskStoreError::WorkspaceMetadataMissing),
        };
        if !workspace.id.is(&input.workspace_id) {
            return Err(TaskStoreError::WorkspaceMetadataMismatch);
        }
        match validate_path_component(workspace.id.0.as_str()) {
            Ok(()) => {},
            Err(error) => return Err(error),
        }
        let names: Vec<String> = Vec::new();
        assert(views::views(names@) =~= Seq::empty());
        Ok(
            TaskCreation {
                root: self.root().clone(),
                task: Task::new_at(id, input, created_at_ms, updated_at_ms),
                workspace,
                names,
                stage: Stage::Root,
            },
        )
    }

    /// Begins the creation of a stored task, with a random identifier and the
    /// current time.
    pub fn create(&self, input: NewTaskInput) -> (creation: Result<TaskCreation, TaskStoreError>)
        ensures
            match creation {
                Err(error) => refused_input(input@) == Some(error@),
                Ok(creation) => refused_input(input@) is None && outside::is_random_id(
                    creation@.task.id,
                ) && creation@ == started(
                    self@,
                    task::new_task(
                        creation@.task.id,
                        input@,
                        creation@.task.created_at_ms,
                        creation@.task.updated_at_ms,
                    ),
                    input@.workspace->0,
                ),
            },
    {
        let id = random_id();
        let created_at_ms: u64 = task::task_timestamp_now();
        let updated_at_ms: u64 = task::task_timestamp_now();
        self.create_at(TaskId::new(id.as_str()), input, created_at_ms, updated_at_ms)
    }
}

} // verus!
