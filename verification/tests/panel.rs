use std::path::PathBuf;

use task_queue::discovery::{ScannedDirectory, SourceScan};
use task_queue::panel::{
    click_workspace_row, partition_task_linked_sessions, render_task_queue_panel,
    task_actions_for, task_presentation, task_status_color, tasks_for_selected_workspace,
    ButtonTone, StatusTone, TaskButton, TaskPanelSelection, TaskSessionRow, WorkspaceAction,
};
use task_queue::path::LocalPath;
use task_queue::queue::TaskQueueModel;
use task_queue::task::{
    AgentKind, Task, TaskAttachment, TaskId, TaskPriority, TaskStatus,
};
use task_queue::workspace::{WorkspaceId, WorkspaceRoot, WorkspaceSource};

fn task(id: &str, workspace_id: &WorkspaceId, priority: TaskPriority, status: TaskStatus) -> Task {
    Task {
        id: TaskId::new(id),
        workspace_id: workspace_id.clone(),
        workspace: None,
        title: format!("Task {id}"),
        description: String::new(),
        priority,
        agent_kind: AgentKind::Codex,
        attachments: Vec::<TaskAttachment>::new(),
        status,
        terminal_pane_id: None,
        attention_reason: None,
        created_at_ms: 0,
        updated_at_ms: 0,
    }
}

#[test]
fn task_rows_only_list_tasks_for_the_selected_workspace() {
    let github_workspace = WorkspaceId::new("github-project");
    let active_project_workspace = WorkspaceId::new("active-project");
    let tasks = vec![
        task(
            "github-task",
            &github_workspace,
            TaskPriority::High,
            TaskStatus::Pending,
        ),
        task(
            "active-project-task",
            &active_project_workspace,
            TaskPriority::Low,
            TaskStatus::Done,
        ),
    ];

    let selected = tasks_for_selected_workspace(&tasks, Some(&github_workspace));

    assert_eq!(selected.len(), 1);
    assert_eq!(selected[0].id, TaskId::new("github-task"));
}

#[test]
fn task_priority_and_status_presentation_are_deterministic() {
    assert_eq!(
        task_presentation(TaskPriority::High, TaskStatus::AttentionRequired),
        task_presentation(TaskPriority::High, TaskStatus::AttentionRequired),
    );
    assert_eq!(
        task_presentation(TaskPriority::High, TaskStatus::AttentionRequired).priority_label,
        "Alta",
    );
    assert_eq!(
        task_presentation(TaskPriority::High, TaskStatus::AttentionRequired).status_label,
        "Requiere atención",
    );
}

#[test]
fn session_partition_separates_explicitly_linked_tasks_without_changing_ordinary_rows() {
    let ordinary_path = PathBuf::from("ordinary-session");
    let linked_path = PathBuf::from("linked-session");
    let rows = vec![
        TaskSessionRow::ordinary(ordinary_path.clone()),
        TaskSessionRow::linked(linked_path.clone(), TaskId::new("linked-task")),
    ];

    let partition = partition_task_linked_sessions(rows);

    assert_eq!(partition.ordinary, vec![ordinary_path]);
    assert_eq!(partition.linked.len(), 1);
    assert_eq!(partition.linked[0].session, linked_path);
    assert_eq!(partition.linked[0].task_id, TaskId::new("linked-task"));
}

#[test]
fn task_panel_selection_only_selects_and_action_mapping_is_deterministic() {
    let task_id = TaskId::new("task-42");
    let actions = task_actions_for(task_id.clone());

    assert!(matches!(actions.select, WorkspaceAction::SelectTask(id) if id == task_id));
    assert!(matches!(
        actions.launch_codex,
        WorkspaceAction::LaunchTask { task_id: id, agent: AgentKind::Codex } if id == task_id
    ));
    assert!(matches!(
        actions.launch_claude_code,
        WorkspaceAction::LaunchTask { task_id: id, agent: AgentKind::ClaudeCode } if id == task_id
    ));
    assert!(matches!(
        actions.open_linked_session,
        WorkspaceAction::OpenLinkedTaskSession(id) if id == task_id
    ));
    assert!(matches!(
        actions.mark_done,
        WorkspaceAction::MarkTaskDone(id) if id == task_id
    ));
}

#[test]
fn no_workspace_means_no_tasks() {
    let tasks = vec![task(
        "t",
        &WorkspaceId::new("w"),
        TaskPriority::Normal,
        TaskStatus::Pending,
    )];
    assert!(tasks_for_selected_workspace(&tasks, None).is_empty());
}

#[test]
fn every_priority_and_status_has_a_label() {
    let label = |status| task_presentation(TaskPriority::Low, status).status_label;
    assert_eq!(label(TaskStatus::Pending), "Pendiente");
    assert_eq!(label(TaskStatus::InProgress), "En curso");
    assert_eq!(label(TaskStatus::ReviewRequired), "Pendiente de revisión");
    assert_eq!(label(TaskStatus::Done), "Terminada");
    assert_eq!(
        task_presentation(TaskPriority::Low, TaskStatus::Done).priority_label,
        "Baja"
    );
    assert_eq!(
        task_presentation(TaskPriority::Normal, TaskStatus::Done).priority_label,
        "Normal"
    );
    assert_eq!(task_status_color(TaskStatus::AttentionRequired), StatusTone::Red);
    assert_eq!(task_status_color(TaskStatus::ReviewRequired), StatusTone::Yellow);
    assert_eq!(task_status_color(TaskStatus::Done), StatusTone::Green);
    assert_eq!(task_status_color(TaskStatus::InProgress), StatusTone::Muted);
}

fn queue() -> TaskQueueModel {
    let root = LocalPath::from_text("/g");
    let mut queue = TaskQueueModel::from_roots(vec![SourceScan {
        root: WorkspaceRoot::new(WorkspaceSource::Github, root.clone()),
        directories: Some(vec![
            ScannedDirectory { path: root.join_text("one"), is_available: true },
            ScannedDirectory { path: root.join_text("two"), is_available: false },
        ]),
    }]);
    let one = queue.workspaces()[0].id.clone();
    let two = queue.workspaces()[1].id.clone();
    let mut first = task("first", &one, TaskPriority::High, TaskStatus::ReviewRequired);
    first.updated_at_ms = 5;
    first.terminal_pane_id = Some("pane".to_string());
    first.description = "Fix the ÉCLAIR".to_string();
    first.attachments = vec![TaskAttachment::new(LocalPath::from_text("attachments/a.png"))];
    let mut second = task("second", &one, TaskPriority::Low, TaskStatus::Pending);
    second.updated_at_ms = 9;
    let mut third = task("third", &one, TaskPriority::Normal, TaskStatus::Done);
    third.updated_at_ms = 5;
    third.title = "A title".to_string();
    let other = task("other", &two, TaskPriority::Normal, TaskStatus::Pending);
    for each in [first, second, third, other] {
        queue.insert_task(each);
    }
    queue
}

#[test]
fn the_panel_asks_for_a_workspace_first() {
    let panel = render_task_queue_panel(&queue(), &TaskPanelSelection::default(), "");
    assert_eq!(
        panel.tasks.notice,
        Some("Selecciona un espacio de trabajo para ver sus tareas.")
    );
    assert!(panel.tasks.rows.is_empty());
    assert_eq!(panel.workspaces[0].heading, "GitHub");
    assert_eq!(panel.workspaces[0].rows[0].label, "one");
    assert_eq!(panel.workspaces[0].rows[1].label, "two (no disponible)");
    assert_eq!(panel.workspaces[1].heading, "01_Proyectos_Activos");
    assert_eq!(panel.workspaces[1].notice, Some("No se han encontrado proyectos."));
}

#[test]
fn tasks_are_listed_by_last_change_then_title() {
    let queue = queue();
    let one = queue.workspaces()[0].id.clone();
    let mut selection = TaskPanelSelection::default();
    assert_eq!(
        click_workspace_row(&mut selection, one.clone()),
        WorkspaceAction::ShowTaskQueue
    );
    let panel = render_task_queue_panel(&queue, &selection, "  ");
    let titles: Vec<&str> = panel.tasks.rows.iter().map(|row| row.title.as_str()).collect();
    assert_eq!(titles, vec!["Task second", "A title", "Task first"]);
    assert_eq!(panel.tasks.rows[0].metadata, "Baja · Pendiente");
    assert!(panel.workspaces[0].rows[0].is_selected);
    assert!(!panel.workspaces[0].rows[1].is_selected);
    assert_eq!(panel.tasks.notice, None);
    assert_eq!(panel.tasks.detail, None);
}

#[test]
fn the_search_ignores_case_and_surrounding_space() {
    let queue = queue();
    let one = queue.workspaces()[0].id.clone();
    let mut selection = TaskPanelSelection::default();
    selection.select_workspace(one);
    let panel = render_task_queue_panel(&queue, &selection, " éclair ");
    assert_eq!(panel.tasks.rows.len(), 1);
    assert_eq!(panel.tasks.rows[0].title, "Task first");
    let panel = render_task_queue_panel(&queue, &selection, "TASK S");
    assert_eq!(panel.tasks.rows[0].title, "Task second");
    let panel = render_task_queue_panel(&queue, &selection, "nothing");
    assert_eq!(
        panel.tasks.notice,
        Some("No hay tareas que coincidan con la búsqueda.")
    );
}

#[test]
fn details_offer_what_can_be_done() {
    let queue = queue();
    let one = queue.workspaces()[0].id.clone();
    let two = queue.workspaces()[1].id.clone();
    let mut selection = TaskPanelSelection::default();
    selection.select_task_in_workspace(one, TaskId::new("first"));
    let detail = render_task_queue_panel(&queue, &selection, "")
        .tasks
        .detail
        .expect("the selected task is shown");
    assert_eq!(detail.summary, "Prioridad: Alta · Estado: Pendiente de revisión");
    assert_eq!(detail.context, "Contexto: Fix the ÉCLAIR");
    assert_eq!(detail.attachments_heading, "Adjuntos: 1");
    assert_eq!(detail.attachments, vec!["• attachments/a.png".to_string()]);
    let labels: Vec<&str> = detail.buttons.iter().map(|button| button.label.as_str()).collect();
    assert_eq!(labels[0], "Abrir con Codex");
    let word_lengths: Vec<usize> = labels[1].split(' ').map(str::len).collect();
    assert_eq!(labels[1].replace(' ', ""), "AbrirconClaudeCode");
    assert_eq!(word_lengths, vec![5, 3, 6, 4]);
    assert_eq!(labels[2..], ["Abrir sesión", "Marcar terminada"]);
    assert!(detail.buttons[0].is_primary && detail.buttons[0].is_enabled);

    selection.select_task_in_workspace(two.clone(), TaskId::new("other"));
    let detail = render_task_queue_panel(&queue, &selection, "")
        .tasks
        .detail
        .expect("the selected task is shown");
    assert_eq!(detail.context, "Contexto: sin contexto");
    assert_eq!(detail.buttons.len(), 2);
    assert!(!detail.buttons[0].is_enabled && !detail.buttons[1].is_enabled);

    selection.select_task_in_workspace(two, TaskId::new("first"));
    assert_eq!(render_task_queue_panel(&queue, &selection, "").tasks.detail, None);
}

#[test]
fn selecting_a_workspace_drops_the_task() {
    let mut selection = TaskPanelSelection::default();
    selection.select_task_in_workspace(WorkspaceId::new("w"), TaskId::new("t"));
    assert_eq!(selection.selected_task_id(), Some(&TaskId::new("t")));
    selection.select_workspace(WorkspaceId::new("v"));
    assert_eq!(selection.selected_workspace_id(), Some(&WorkspaceId::new("v")));
    assert_eq!(selection.selected_task_id(), None);
}

#[test]
fn a_disabled_button_does_nothing() {
    let queue = queue();
    let one = queue.workspaces()[0].id.clone();
    let two = queue.workspaces()[1].id.clone();
    let mut selection = TaskPanelSelection::default();
    selection.select_task_in_workspace(one, TaskId::new("first"));
    let panel = render_task_queue_panel(&queue, &selection, "");
    assert_eq!(panel.heading, "Espacios de trabajo");
    assert_eq!(panel.tasks.heading, Some("Tareas"));
    let detail = panel.tasks.detail.expect("the selected task is shown");
    assert_eq!(detail.heading, "Detalle de tarea");
    assert_eq!(detail.title, "Task first");
    let tones: Vec<ButtonTone> = detail.buttons.iter().map(TaskButton::tone).collect();
    assert_eq!(
        tones,
        vec![ButtonTone::Primary, ButtonTone::Plain, ButtonTone::Plain, ButtonTone::Plain]
    );
    let actions = task_actions_for(TaskId::new("first"));
    let clicked: Vec<Option<WorkspaceAction>> =
        detail.buttons.into_iter().map(TaskButton::clicked).collect();
    assert_eq!(
        clicked,
        vec![
            Some(actions.launch_codex.clone()),
            Some(actions.launch_claude_code),
            Some(actions.open_linked_session),
            Some(actions.mark_done),
        ]
    );
    assert_eq!(actions.select, WorkspaceAction::SelectTask(TaskId::new("first")));

    selection.select_task_in_workspace(two, TaskId::new("other"));
    let panel = render_task_queue_panel(&queue, &selection, "");
    assert!(panel.tasks.rows[0].is_selected);
    let detail = panel.tasks.detail.expect("the selected task is shown");
    for button in detail.buttons {
        assert_eq!(button.tone(), ButtonTone::Disabled);
        assert_eq!(button.clicked(), None);
    }
}
