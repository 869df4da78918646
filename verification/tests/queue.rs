use std::path::Path;

use task_queue::creation::{StoreAction, StoreReply, TaskCreation};
use task_queue::discovery::{ScannedDirectory, SourceScan};
use task_queue::path::LocalPath;
use task_queue::queue::{QueueStart, TaskQueueModel};
use task_queue::store::{TaskList, TaskLoadError, TaskStore};
use task_queue::store_error::TaskStoreError;
use task_queue::task::{
    AgentKind, NewTaskInput, Task, TaskAttachment, TaskId, TaskPriority, TaskQueueError, TaskStatus,
};
use task_queue::workspace::{
    default_sources, DiscoveredWorkspace, TaskWorkspace, WorkspaceId, WorkspaceRoot,
    WorkspaceSource,
};

fn local(path: &Path) -> LocalPath {
    LocalPath::from_bytes(path.as_os_str().as_encoded_bytes().to_vec())
}

fn folder(parent: &Path, name: &str) -> tempfile::TempDir {
    tempfile::Builder::new()
        .prefix(name)
        .rand_bytes(0)
        .tempdir_in(parent)
        .expect("folder should be created")
}

fn scan(source: WorkspaceSource, root: &Path) -> SourceScan {
    let directories = match root.read_dir() {
        Ok(entries) => {
            let mut directories = Vec::new();
            for entry in entries.flatten() {
                if entry.file_type().map(|kind| kind.is_dir()).unwrap_or(false) {
                    directories.push(match entry.path().canonicalize() {
                        Ok(path) => ScannedDirectory { path: local(&path), is_available: true },
                        Err(_) => ScannedDirectory {
                            path: local(&entry.path()),
                            is_available: false,
                        },
                    });
                }
            }
            Some(directories)
        }
        Err(_) => None,
    };
    SourceScan { root: WorkspaceRoot::new(source, local(root)), directories }
}

fn listed(source: WorkspaceSource, root: &str, names: &[&str]) -> SourceScan {
    let root = LocalPath::from_text(root);
    let directories = names
        .iter()
        .map(|name| ScannedDirectory { path: root.join_text(name), is_available: true })
        .collect();
    SourceScan { root: WorkspaceRoot::new(source, root), directories: Some(directories) }
}

fn names(workspaces: &[&DiscoveredWorkspace]) -> Vec<String> {
    workspaces.iter().map(|workspace| workspace.display_name.clone()).collect()
}

#[test]
fn discovers_direct_child_workspaces_in_their_source_groups() {
    let home = tempfile::tempdir().expect("home directory should be created");
    let documents = folder(home.path(), "Documents");
    let github = folder(documents.path(), "GitHub");
    let desktop = folder(home.path(), "Desktop");
    let active_projects = folder(desktop.path(), "01_Proyectos_Activos");
    let portal = folder(github.path(), "MGA-Portal");
    let _portal_git = folder(portal.path(), ".git");
    let warp = folder(active_projects.path(), "warp");
    let _warp_git = folder(warp.path(), ".git");
    let _readme = tempfile::Builder::new()
        .prefix("README.md")
        .rand_bytes(0)
        .tempfile_in(github.path())
        .expect("file should be created");

    let sources = default_sources(&local(home.path()));
    assert_eq!(sources.len(), 2);
    assert_eq!(
        sources,
        vec![
            WorkspaceRoot::new(WorkspaceSource::Github, local(github.path())),
            WorkspaceRoot::new(WorkspaceSource::ActiveProjects, local(active_projects.path())),
        ]
    );

    let mut model = TaskQueueModel::new();
    model.discover(vec![
        scan(WorkspaceSource::Github, github.path()),
        scan(WorkspaceSource::ActiveProjects, active_projects.path()),
    ]);
    assert_eq!(model.sources(), sources);

    let github_workspaces = model.workspaces_for_source(WorkspaceSource::Github);
    assert_eq!(github_workspaces.len(), 1);
    assert_eq!(github_workspaces[0].display_name, "MGA-Portal");

    let active_workspaces = model.workspaces_for_source(WorkspaceSource::ActiveProjects);
    assert_eq!(active_workspaces.len(), 1);
    assert_eq!(active_workspaces[0].display_name, "warp");
}

#[test]
fn task_requires_explicit_review_before_completion() {
    let workspace_id = WorkspaceId::new("workspace-1");
    let mut task = Task::new(
        TaskId::new("task-1"),
        NewTaskInput::new(workspace_id, "Implement task queue")
            .with_priority(TaskPriority::High)
            .with_agent_kind(AgentKind::Codex),
    );

    assert_eq!(task.status, TaskStatus::Pending);
    task.mark_launched("terminal-pane-1")
        .expect("pending task should launch");
    assert_eq!(task.status, TaskStatus::InProgress);
    task.mark_command_finished(true)
        .expect("launched task should record a successful command");
    assert_eq!(task.status, TaskStatus::ReviewRequired);
    task.mark_done()
        .expect("review-required task should be explicitly completed");
    assert_eq!(task.status, TaskStatus::Done);
}

#[test]
fn discovery_sorts_case_insensitively_and_ids_include_the_path() {
    let roots = tempfile::tempdir().expect("workspace roots should be created");
    let github = folder(roots.path(), "github");
    let active_projects = folder(roots.path(), "active");
    let _zebra = folder(github.path(), "zebra");
    let _upper = folder(github.path(), "Alpha");
    let _lower = folder(active_projects.path(), "alpha");

    let mut model = TaskQueueModel::new();
    model.discover(vec![
        scan(WorkspaceSource::Github, github.path()),
        scan(WorkspaceSource::ActiveProjects, active_projects.path()),
    ]);

    let github_workspaces = model.workspaces_for_source(WorkspaceSource::Github);
    assert_eq!(github_workspaces[0].display_name, "Alpha");
    assert_eq!(github_workspaces[1].display_name, "zebra");

    let active_workspace = &model.workspaces_for_source(WorkspaceSource::ActiveProjects)[0];
    assert_ne!(github_workspaces[0].id, active_workspace.id);
}

#[test]
fn unavailable_workspace_roots_remain_visible() {
    let unavailable = tempfile::tempdir()
        .expect("temporary directory should be created")
        .path()
        .join("missing");
    let mut model = TaskQueueModel::new();
    model.discover(vec![scan(WorkspaceSource::Github, &unavailable)]);

    let workspace = &model.workspaces_for_source(WorkspaceSource::Github)[0];
    assert_eq!(workspace.path, local(&unavailable));
    assert!(!workspace.is_available);
}

#[test]
fn task_queue_selects_discovered_workspaces_in_memory() {
    let root = tempfile::tempdir().expect("workspace root should be created");
    let github = folder(root.path(), "github");
    let _portal = folder(github.path(), "MGA-Portal");

    let mut model = TaskQueueModel::new();
    model.discover(vec![scan(WorkspaceSource::Github, github.path())]);
    let workspace_id = model.workspaces()[0].id.clone();

    model
        .select_workspace(workspace_id.clone())
        .expect("discovered workspace should be selectable");

    assert_eq!(model.selected_workspace_id(), Some(&workspace_id));
}

#[test]
fn invalid_task_transitions_preserve_attention_reason() {
    let mut task = Task::new(
        TaskId::new("task-1"),
        NewTaskInput::new(WorkspaceId::new("workspace-1"), "Handle a failure"),
    );
    task.mark_launched("terminal-pane-1")
        .expect("pending task should launch");
    task.mark_command_finished(false)
        .expect("launched task should record a failed command");

    assert_eq!(task.status, TaskStatus::AttentionRequired);
    let reason = task.attention_reason.clone();
    assert!(task.mark_done().is_err());
    assert_eq!(task.status, TaskStatus::AttentionRequired);
    assert_eq!(task.attention_reason, reason);
}

#[test]
fn task_queue_keeps_tasks_and_selection_in_memory() {
    let workspace_id = WorkspaceId::new("workspace-1");
    let attachment = TaskAttachment::new(LocalPath::from_text("notes.md"));
    let mut task = Task::new(
        TaskId::new("task-1"),
        NewTaskInput::new(workspace_id.clone(), "Review task queue")
            .with_description("Use the local Markdown task queue")
            .with_attachments(vec![attachment]),
    );
    task.mark_launched("terminal-pane-1")
        .expect("pending task should launch");
    task.mark_attention_required("Review the command output")
        .expect("in-progress task should be able to require attention");

    let task_id = task.id.clone();
    let mut model = TaskQueueModel::new();
    model.insert_task(task);

    assert_eq!(
        model
            .task(&task_id)
            .expect("task should be stored")
            .description,
        "Use the local Markdown task queue"
    );
    assert_eq!(model.tasks_for_workspace(&workspace_id).len(), 1);
    model
        .select_task(task_id.clone())
        .expect("stored task should be selectable");
    assert_eq!(model.selected_task_id(), Some(&task_id));
    assert!(model.select_task(TaskId::new("missing-task")).is_err());
}

#[test]
fn agent_kinds_map_to_the_expected_wrappers() {
    assert_eq!(AgentKind::Codex.wrapper_name(), "codexauto");
    assert_eq!(AgentKind::ClaudeCode.wrapper_name(), "claudeauto");
}

#[test]
fn groups_stand_in_the_order_of_their_first_root() {
    let model = TaskQueueModel::from_roots(vec![
        listed(WorkspaceSource::ActiveProjects, "/a", &["one"]),
        listed(WorkspaceSource::Github, "/g", &["Zoo", "apple"]),
        listed(WorkspaceSource::ActiveProjects, "/b", &["Able"]),
    ]);
    let all: Vec<&DiscoveredWorkspace> = model.workspaces().iter().collect();
    assert_eq!(names(&all), vec!["Able", "one", "apple", "Zoo"]);
}

#[test]
fn names_that_tie_are_ordered_by_path() {
    let model = TaskQueueModel::from_roots(vec![
        listed(WorkspaceSource::Github, "/b", &["same", "SAME"]),
        listed(WorkspaceSource::Github, "/a", &["Same"]),
    ]);
    let paths: Vec<Vec<u8>> = model
        .workspaces()
        .iter()
        .map(|workspace| workspace.path.as_bytes().to_vec())
        .collect();
    assert_eq!(paths, vec![b"/a/Same".to_vec(), b"/b/SAME".to_vec(), b"/b/same".to_vec()]);
}

#[test]
fn lower_case_follows_unicode() {
    let model = TaskQueueModel::from_roots(vec![listed(
        WorkspaceSource::Github,
        "/r",
        &["Éclair", "échec", "Zeta"],
    )]);
    let all: Vec<&DiscoveredWorkspace> = model.workspaces().iter().collect();
    assert_eq!(names(&all), vec!["Zeta", "échec", "Éclair"]);
}

#[test]
fn a_selected_workspace_is_kept_only_while_it_is_found() {
    let mut model =
        TaskQueueModel::from_roots(vec![listed(WorkspaceSource::Github, "/g", &["one", "two"])]);
    let one = model.workspaces()[0].id.clone();
    model.select_workspace(one.clone()).expect("found workspace is selectable");
    model.discover(vec![listed(WorkspaceSource::Github, "/g", &["one"])]);
    assert_eq!(model.selected_workspace_id(), Some(&one));
    model.discover(vec![listed(WorkspaceSource::Github, "/g", &["two"])]);
    assert_eq!(model.selected_workspace_id(), None);
    assert_eq!(
        model.select_workspace(one.clone()),
        Err(TaskQueueError::WorkspaceNotFound(one))
    );
}

#[test]
fn a_missing_home_is_reported() {
    match TaskQueueModel::from_home(None) {
        QueueStart::Ready(model) => {
            assert_eq!(
                model.initialization_error(),
                Some(&TaskQueueError::HomeDirectoryUnavailable)
            );
            assert!(model.workspaces().is_empty());
        }
        QueueStart::Search(_) => panic!("there is nothing to search"),
    }
    match TaskQueueModel::from_home(Some(LocalPath::from_text("/home/u"))) {
        QueueStart::Search(roots) => {
            assert_eq!(roots[0].path.as_bytes(), b"/home/u/Documents/GitHub");
            assert_eq!(roots[1].path.as_bytes(), b"/home/u/Desktop/01_Proyectos_Activos");
        }
        QueueStart::Ready(_) => panic!("the default roots are to be searched"),
    }
}

#[test]
fn inserting_replaces_the_task_with_the_same_identifier() {
    let mut model = TaskQueueModel::new();
    let input = |title: &str| NewTaskInput::new(WorkspaceId::new("w"), title);
    model.insert_task(Task::new(TaskId::new("a"), input("first")));
    model.insert_task(Task::new(TaskId::new("b"), input("other")));
    model.insert_task(Task::new(TaskId::new("a"), input("second")));
    assert_eq!(model.tasks_for_workspace(&WorkspaceId::new("w")).len(), 2);
    assert_eq!(model.task(&TaskId::new("a")).map(|task| task.title.as_str()), Some("second"));
    assert_eq!(model.task(&TaskId::new("b")).map(|task| task.title.as_str()), Some("other"));
    assert!(model.task(&TaskId::new("c")).is_none());
}

#[test]
fn loading_replaces_the_tasks_and_drops_a_lost_selection() {
    let mut model = TaskQueueModel::new();
    let input = NewTaskInput::new(WorkspaceId::new("w"), "title");
    model.insert_task(Task::new(TaskId::new("a"), input.clone()));
    model.select_task(TaskId::new("a")).expect("stored task is selectable");
    let failure = TaskLoadError { path: LocalPath::from_text("/x"), reason: "bad".to_string() };
    let list = TaskList {
        tasks: vec![Task::new(TaskId::new("b"), input)],
        errors: vec![failure.clone()],
    };
    assert_eq!(model.load_from_store(Ok(list)).expect("list is taken over"), vec![failure]);
    assert!(model.task(&TaskId::new("a")).is_none());
    assert!(model.task(&TaskId::new("b")).is_some());
    assert_eq!(model.selected_task_id(), None);

    let refused = model.load_from_store(Err(TaskStoreError::WorkspaceMetadataMissing));
    assert!(refused.is_err());
    assert!(model.task(&TaskId::new("b")).is_some());
}

#[test]
fn a_selection_and_every_listed_task_are_in_the_queue() {
    let mut model = TaskQueueModel::from_roots(vec![listed(
        WorkspaceSource::Github,
        "/home/u/GitHub",
        &["one"],
    )]);
    let workspace = model.workspaces()[0].id.clone();
    model.select_workspace(workspace.clone()).expect("a found workspace is selectable");
    let task = |id: &str, title: &str| {
        Task::new(TaskId::new(id), NewTaskInput::new(workspace.clone(), title))
    };
    let list = TaskList {
        tasks: vec![task("a", "first"), task("b", "other"), task("a", "second")],
        errors: Vec::new(),
    };
    assert!(model.load_from_store(Ok(list)).expect("list is taken over").is_empty());
    model.select_task(TaskId::new("a")).expect("a loaded task is selectable");
    model.insert_task(task("a", "third"));

    let shown = model.tasks_for_workspace(&workspace);
    let titles: Vec<&str> = shown.iter().map(|task| task.title.as_str()).collect();
    assert_eq!(titles, ["third", "other"]);
    for task in shown {
        assert_eq!(model.task(&task.id).map(|found| &found.title), Some(&task.title));
    }
    let selected = model.selected_task_id().expect("the task stays selected");
    assert_eq!(model.task(selected).map(|task| task.title.as_str()), Some("third"));
    let selected = model.selected_workspace_id().expect("the workspace stays selected");
    assert!(model.workspace(selected).is_some());
}

fn begin(model: &TaskQueueModel, input: NewTaskInput) -> Result<TaskCreation, TaskStoreError> {
    let store = TaskStore::open(&LocalPath::from_text("/data"));
    model.create_with_store(&store, input)
}

#[test]
fn a_new_task_gets_the_workspace_that_was_found() {
    let model =
        TaskQueueModel::from_roots(vec![listed(WorkspaceSource::Github, "/g", &["one"])]);
    let id = model.workspaces()[0].id.clone();
    let mut creation = begin(&model, NewTaskInput::new(id.clone(), "New")).expect("it is accepted");
    let mut replies = 0;
    while let Some(action) = creation.action() {
        let reply = match action {
            StoreAction::ReadIndex(_) => StoreReply::Index(Vec::new()),
            StoreAction::CheckExists(_) => StoreReply::Exists(false),
            _ => StoreReply::Done,
        };
        creation = creation.advance(reply);
        replies += 1;
    }
    assert_eq!(replies, 11);
    let outcome = creation.outcome().expect("it is finished");
    let mut model = model;
    let task = model.record_created(outcome).expect("it is stored");
    assert_eq!(
        task.workspace,
        Some(TaskWorkspace::new(
            id.clone(),
            WorkspaceSource::Github,
            LocalPath::from_text("/g/one"),
            "one"
        ))
    );
    assert_eq!(model.tasks_for_workspace(&id).len(), 1);
    assert_eq!(task.id.0.len(), 36);
    assert_eq!(task.status, TaskStatus::Pending);
}

#[test]
fn a_task_for_an_unknown_workspace_is_refused() {
    let model = TaskQueueModel::new();
    let refused = begin(&model, NewTaskInput::new(WorkspaceId::new("nowhere"), "New"));
    assert_eq!(refused.err(), Some(TaskStoreError::WorkspaceMetadataMissing));
}

#[test]
fn a_failed_write_leaves_the_queue_as_it_was() {
    let mut model = TaskQueueModel::new();
    let refused = model.record_created(Err(TaskStoreError::WorkspaceMetadataMismatch));
    assert!(refused.is_err());
    assert!(model.tasks_for_workspace(&WorkspaceId::new("w")).is_empty());
}

#[test]
fn refused_transitions_say_what_was_refused() {
    let mut task = Task::new(
        TaskId::new("t"),
        NewTaskInput::new(WorkspaceId::new("w"), "title"),
    );
    let refused = task.mark_done().expect_err("pending task is not reviewed");
    assert_eq!(refused.message(), "cannot complete a task in Pending status");
    let refused = task.mark_command_finished(true).expect_err("nothing runs");
    assert_eq!(refused.message(), "cannot record command completion a task in Pending status");
    task.mark_launched("p").expect("pending task launches");
    let refused = task.mark_launched("q").expect_err("it runs already");
    assert_eq!(refused.message(), "cannot launch a task in InProgress status");
    assert_eq!(task.terminal_pane_id.as_deref(), Some("p"));
    task.mark_command_finished(true).expect("it ran");
    task.mark_done().expect("it was reviewed");
    let refused = task.mark_attention_required("late").expect_err("it is done");
    assert_eq!(refused.message(), "cannot require attention a task in Done status");
}

#[test]
fn queue_errors_name_what_is_missing() {
    assert_eq!(
        TaskQueueError::HomeDirectoryUnavailable.message(),
        "could not determine the home directory for the task queue"
    );
    assert_eq!(
        TaskQueueError::WorkspaceNotFound(WorkspaceId::new("w\n1")).message(),
        "workspace WorkspaceId(\"w\\n1\") is not discovered"
    );
    assert_eq!(
        TaskQueueError::TaskNotFound(TaskId::new("t")).message(),
        "task TaskId(\"t\") is not in the queue"
    );
}

#[test]
fn a_failed_command_needs_attention_and_can_be_retried() {
    let mut task = Task::new(
        TaskId::new("t"),
        NewTaskInput::new(WorkspaceId::new("w"), "title"),
    );
    task.mark_launched("p").expect("pending task launches");
    task.mark_command_finished(false).expect("it ran");
    assert_eq!(
        task.attention_reason.as_deref(),
        Some("The command did not complete successfully.")
    );
    task.mark_launched("q").expect("it is retried");
    assert_eq!(task.status, TaskStatus::InProgress);
    assert_eq!(task.attention_reason, None);
    assert_eq!(task.terminal_pane_id.as_deref(), Some("q"));
}
