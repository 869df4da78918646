//! What holds of all that the panel shows: which tasks and in which order, the
//! details of a task, and what can be done with it.
use vstd::prelude::*;
use vstd::string::*;
use vstd::utf8::*;

use crate::discovery;
use crate::numbers;
use crate::order;
use crate::order::{Order, Standing};
use crate::outside;
use crate::panel;
use crate::panel::{
    ByRecency, ButtonTone, LinkedTaskSession, SelectionView, StatusTone, TaskButtonView,
    TaskSessionRow, WorkspaceActionView,
};
use crate::queue;
use crate::queue::QueueView;
use crate::task::{AgentKind, Task, TaskPriority, TaskStatus, TaskView};
use crate::text;
use crate::workspace::{DiscoveredView, WorkspaceSource};

verus! {

proof fn lemma_filter_count<A>(items: Seq<A>, wanted: spec_fn(A) -> bool, item: A)
    ensures
        items.filter(wanted).to_multiset().count(item) == if wanted(item) {
            items.to_multiset().count(item)
        } else {
            0
        },
    decreases items.len(),
{
    broadcast use vstd::seq_lib::group_to_multiset_ensures;

    reveal(Seq::filter);
    if items.len() > 0 {
        let before = items.drop_last();
        lemma_filter_count(before, wanted, item);
        assert(items =~= before.push(items.last()));
    } else {
        assert(items.filter(wanted) =~= items);
    }
}

/// The panel shows a task of the selected workspace exactly where what is searched
/// for, without the white space around it and without regard to case, stands
/// somewhere in its title or in its description, and as often as it is there.
/// Where nothing is searched for, that is the case of every task.
pub proof fn law_search(
    tasks: Seq<TaskView>,
    workspace_id: Seq<char>,
    query: Seq<char>,
    task: TaskView,
)
    ensures
        ({
            let wanted = outside::lowercase(text::trim(query));
            let found = task.workspace_id == workspace_id && ((exists|
                before: Seq<char>,
                after: Seq<char>,
            |
                outside::lowercase(task.title) == #[trigger] (before + wanted + after)) || (exists|
                before: Seq<char>,
                after: Seq<char>,
            |
                outside::lowercase(task.description) == #[trigger] (before + wanted + after)));
            &&& panel::shown_tasks(tasks, workspace_id, query).to_multiset().count(task) == if found {
                tasks.to_multiset().count(task)
            } else {
                0
            }
            &&& panel::shown_tasks(tasks, workspace_id, query).contains(task) <==> tasks.contains(
                task,
            ) && found
            &&& wanted.len() == 0 && task.workspace_id == workspace_id ==> found
        }),
{
    let wanted = outside::lowercase(text::trim(query));
    text::law_contains_text(outside::lowercase(task.title), wanted);
    text::law_contains_text(outside::lowercase(task.description), wanted);
    if wanted.len() == 0 {
        let title = outside::lowercase(task.title);
        assert(title =~= Seq::<char>::empty() + wanted + title);
    }
    let own = |task: TaskView| task.workspace_id == workspace_id;
    let matching = |task: TaskView| panel::matches_search(task, panel::search_text(query));
    let mine = queue::tasks_of(tasks, workspace_id);
    assert(mine == tasks.filter(own));
    let sorted = order::stably_sorted::<Task, ByRecency>(mine);
    lemma_filter_count(tasks, own, task);
    lemma_filter_count(sorted, matching, task);
    order::lemma_sort_keeps_count::<Task, ByRecency>(mine);
    assert(panel::shown_tasks(tasks, workspace_id, query) == sorted.filter(matching));
    panel::law_panel_lists_matching_tasks(tasks, workspace_id, query, task);
}

/// Whether a task comes before another in the panel: it was changed later, or at
/// the same time and its title comes first, or with the same title and its
/// identifier does not come last.
pub open spec fn precedes(a: TaskView, b: TaskView) -> bool {
    ||| a.updated_at_ms > b.updated_at_ms
    ||| a.updated_at_ms == b.updated_at_ms && order::byte_order(
        encode_utf8(a.title),
        encode_utf8(b.title),
    ) == Standing::Earlier
    ||| a.updated_at_ms == b.updated_at_ms && a.title == b.title && order::byte_order(
        encode_utf8(a.id),
        encode_utf8(b.id),
    ) != Standing::Later
}

proof fn lemma_filter_keeps_order<A>(
    items: Seq<A>,
    wanted: spec_fn(A) -> bool,
    le: spec_fn(A, A) -> bool,
)
    requires
        forall|i: int, j: int|
            0 <= i < j < items.len() ==> le(#[trigger] items[i], #[trigger] items[j]),
    ensures
        forall|i: int, j: int|
            0 <= i < j < items.filter(wanted).len() ==> le(
                #[trigger] items.filter(wanted)[i],
                #[trigger] items.filter(wanted)[j],
            ),
        forall|i: int|
            0 <= i < items.filter(wanted).len() ==> items.contains(
                #[trigger] items.filter(wanted)[i],
            ),
    decreases items.len(),
{
    reveal(Seq::filter);
    if items.len() > 0 {
        let before = items.drop_last();
        let last = items.len() - 1;
        assert forall|i: int, j: int| 0 <= i < j < before.len() implies le(
            #[trigger] before[i],
            #[trigger] before[j],
        ) by {
            assert(before[i] == items[i] && before[j] == items[j]);
        }
        lemma_filter_keeps_order(before, wanted, le);
        let earlier = before.filter(wanted);
        let all = items.filter(wanted);
        assert forall|i: int| 0 <= i < all.len() implies items.contains(#[trigger] all[i]) by {
            if i < earlier.len() {
                assert(all[i] == earlier[i]);
                let k = choose|k: int| 0 <= k < before.len() && before[k] == earlier[i];
                assert(items[k] == all[i]);
            } else {
                assert(items[last] == all[i]);
            }
        }
        assert forall|i: int, j: int| 0 <= i < j < all.len() implies le(
            #[trigger] all[i],
            #[trigger] all[j],
        ) by {
            assert(all[i] == earlier[i]);
            if j < earlier.len() {
                assert(all[j] == earlier[j]);
            } else {
                let k = choose|k: int| 0 <= k < before.len() && before[k] == earlier[i];
                assert(le(items[k], items[last]));
            }
        }
    }
}

/// The panel shows the tasks that were changed last first; those that were changed
/// at the same time by title, and those with the same title by identifier.
pub proof fn law_panel_order(
    tasks: Seq<TaskView>,
    workspace_id: Seq<char>,
    query: Seq<char>,
    i: int,
    j: int,
)
    requires
        0 <= i < j < panel::shown_tasks(tasks, workspace_id, query).len(),
    ensures
        precedes(
            panel::shown_tasks(tasks, workspace_id, query)[i],
            panel::shown_tasks(tasks, workspace_id, query)[j],
        ),
{
    let mine = queue::tasks_of(tasks, workspace_id);
    let sorted = order::stably_sorted::<Task, ByRecency>(mine);
    let matching = |task: TaskView| panel::matches_search(task, panel::search_text(query));
    let le = |a: TaskView, b: TaskView| precedes(a, b);
    order::lemma_sort_keeps::<Task, ByRecency>(mine);
    assert forall|a: int, b: int| 0 <= a < b < sorted.len() implies le(
        #[trigger] sorted[a],
        #[trigger] sorted[b],
    ) by {
        assert(<ByRecency as Order<Task>>::le(sorted[a], sorted[b]));
        order::lemma_text_order_same(sorted[a].title, sorted[b].title);
    }
    lemma_filter_keeps_order(sorted, matching, le);
    let shown = sorted.filter(matching);
    assert(le(shown[i], shown[j]));
}

/// Without a selected workspace no task is shown; with one, its tasks.
pub proof fn law_selected_tasks(tasks: Seq<TaskView>, workspace_id: Seq<char>, task: TaskView)
    ensures
        panel::selected_tasks(tasks, None).len() == 0,
        panel::selected_tasks(tasks, Some(workspace_id)).to_multiset().count(task)
            == if task.workspace_id == workspace_id {
            tasks.to_multiset().count(task)
        } else {
            0
        },
{
    lemma_filter_count(tasks, |task: TaskView| task.workspace_id == workspace_id, task);
}

/// What the panel offers to do with a task is what its buttons ask for.
pub open spec fn offers(
    buttons: Seq<TaskButtonView>,
    action: WorkspaceActionView,
    is_enabled: bool,
) -> bool {
    exists|i: int|
        0 <= i < buttons.len() && (#[trigger] buttons[i]).action == action && buttons[i].is_enabled
            == is_enabled
}

/// Each agent can be started on a task from its details exactly where the workspace
/// is available, whatever the status of the task; where it is not, the button is
/// there and disabled.
pub proof fn law_launch_is_offered(task: TaskView, is_available: bool, agent: AgentKind)
    ensures
        ({
            let buttons = panel::task_buttons(task, is_available);
            let launch = WorkspaceActionView::LaunchTask { task_id: task.id, agent };
            &&& offers(buttons, launch, true) <==> is_available
            &&& offers(buttons, launch, false) <==> !is_available
        }),
{
    let buttons = panel::task_buttons(task, is_available);
    assert(buttons[0].action == WorkspaceActionView::LaunchTask {
        task_id: task.id,
        agent: AgentKind::Codex,
    });
    assert(buttons[1].action == WorkspaceActionView::LaunchTask {
        task_id: task.id,
        agent: AgentKind::ClaudeCode,
    });
    assert(buttons[0].is_enabled == is_available && buttons[1].is_enabled == is_available);
}

/// Every task that can be launched can be launched from its details, where its
/// workspace is available.
pub proof fn law_launchable_tasks_can_be_launched(
    task: TaskView,
    terminal_pane_id: Seq<char>,
    agent: AgentKind,
)
    requires
        crate::task::launched(task, terminal_pane_id) is Ok,
    ensures
        offers(
            panel::task_buttons(task, true),
            WorkspaceActionView::LaunchTask { task_id: task.id, agent },
            true,
        ),
{
    law_launch_is_offered(task, true, agent);
}

/// The session of a task can be opened from its details exactly where it has one,
/// whether or not the workspace is available.
pub proof fn law_session_is_offered(task: TaskView, is_available: bool)
    ensures
        ({
            let buttons = panel::task_buttons(task, is_available);
            let open = WorkspaceActionView::OpenLinkedTaskSession(task.id);
            &&& offers(buttons, open, true) <==> task.terminal_pane_id is Some
            &&& !offers(buttons, open, false)
        }),
{
    let buttons = panel::task_buttons(task, is_available);
    if task.terminal_pane_id is Some {
        assert(buttons[2].action == WorkspaceActionView::OpenLinkedTaskSession(task.id));
        assert(buttons[2].is_enabled);
    }
}

/// A task can be marked as done from its details exactly while it awaits review,
/// whether or not the workspace is available.
pub proof fn law_completion_is_offered(task: TaskView, is_available: bool)
    ensures
        ({
            let buttons = panel::task_buttons(task, is_available);
            let done = WorkspaceActionView::MarkTaskDone(task.id);
            &&& offers(buttons, done, true) <==> task.status == TaskStatus::ReviewRequired
            &&& !offers(buttons, done, false)
        }),
{
    let buttons = panel::task_buttons(task, is_available);
    if task.status == TaskStatus::ReviewRequired {
        let last = buttons.len() - 1;
        assert(buttons[last].action == WorkspaceActionView::MarkTaskDone(task.id));
        assert(buttons[last].is_enabled);
    }
}

/// The buttons of a task are about that task, no two do the same, and the one that
/// stands out is the first, which starts the default agent.
pub proof fn law_buttons_are_about_the_task(task: TaskView, is_available: bool, i: int, j: int)
    requires
        0 <= i < j < panel::task_buttons(task, is_available).len(),
    ensures
        ({
            let buttons = panel::task_buttons(task, is_available);
            &&& buttons.len() == 2 + (if task.terminal_pane_id is Some {
                1int
            } else {
                0int
            }) + (if task.status == TaskStatus::ReviewRequired {
                1int
            } else {
                0int
            })
            &&& buttons[i].action != buttons[j].action
            &&& buttons[0].action == (WorkspaceActionView::LaunchTask {
                task_id: task.id,
                agent: AgentKind::Codex,
            })
            &&& buttons[0].is_primary
            &&& !buttons[j].is_primary
            &&& match buttons[j].action {
                WorkspaceActionView::LaunchTask { task_id, .. } => task_id == task.id,
                WorkspaceActionView::OpenLinkedTaskSession(task_id) => task_id == task.id,
                WorkspaceActionView::MarkTaskDone(task_id) => task_id == task.id,
                _ => false,
            }
        }),
{
}

/// A button is colored as what it is: disabled, the one that stands out, or any
/// other.
pub proof fn law_button_colors(button: TaskButtonView)
    ensures
        panel::tone_of_button(button) == ButtonTone::Disabled <==> !button.is_enabled,
        panel::tone_of_button(button) == ButtonTone::Primary <==> button.is_enabled
            && button.is_primary,
        panel::tone_of_button(button) == ButtonTone::Plain <==> button.is_enabled
            && !button.is_primary,
{
}

/// The details of a task give its title, its priority and status, all of its
/// context unless that is blank, how many attachments it has and the path of each,
/// and what can be done with it.
pub proof fn law_task_detail(task: TaskView, is_available: bool, n: int)
    requires
        0 <= n < task.attachments.len(),
    ensures
        ({
            let detail = panel::task_detail(task, is_available);
            &&& detail.title == task.title
            &&& detail.summary == "Prioridad: "@ + panel::priority_label(task.priority)
                + " · Estado: "@ + panel::status_label(task.status)
            &&& detail.attachments.len() == task.attachments.len()
            &&& detail.attachments[n] == "• "@ + outside::shown_text(task.attachments[n].path)
            &&& detail.attachments_heading == "Adjuntos: "@ + numbers::decimal(
                task.attachments.len(),
            )
            &&& detail.buttons == panel::task_buttons(task, is_available)
        }),
{
}

/// The details of a task hold its context as it was entered, unless that is blank.
pub proof fn law_detail_shows_the_context(task: TaskView, is_available: bool)
    ensures
        ({
            let context = panel::task_detail(task, is_available).context;
            if exists|i: int|
                0 <= i < task.description.len() && !text::is_white_space(
                    #[trigger] task.description[i],
                ) {
                context == "Contexto: "@ + task.description
            } else {
                context == "Contexto: sin contexto"@
            }
        }),
        task.attachments.len() == 0 ==> panel::task_detail(
            task,
            is_available,
        ).attachments.len() == 0,
{
    text::law_blank(task.description);
}

/// The details that are shown are those of the selected task, where it is in the
/// queue and belongs to the selected workspace, whatever is searched for. An agent
/// can be started from them exactly where the first workspace with that identifier
/// is available.
pub proof fn law_details_of_the_selected_task(
    queue: QueueView,
    workspace_id: Seq<char>,
    n: int,
    w: int,
    query: Seq<char>,
)
    requires
        queue::each_task_once(queue.tasks),
        0 <= n < queue.tasks.len(),
        0 <= w <= queue.workspaces.len(),
        forall|i: int| 0 <= i < w ==> (#[trigger] queue.workspaces[i]).id != workspace_id,
        w < queue.workspaces.len() ==> queue.workspaces[w].id == workspace_id,
    ensures
        ({
            let task = queue.tasks[n];
            let selection = SelectionView {
                workspace_id: Some(workspace_id),
                task_id: Some(task.id),
            };
            let is_available = w < queue.workspaces.len() && queue.workspaces[w].is_available;
            panel::task_section(queue, selection, query).detail == if task.workspace_id
                == workspace_id {
                Some(panel::task_detail(task, is_available))
            } else {
                None
            }
        }),
{
    let task = queue.tasks[n];
    assert forall|i: int| 0 <= i < n implies (#[trigger] queue.tasks[i]).id != task.id by {
        assert(queue.tasks[i].id != queue.tasks[n].id);
    }
    queue::law_task_is_found(queue.tasks, task.id, n);
    queue::law_workspace_is_found(queue.workspaces, workspace_id, w);
}

/// No details are shown where no task is selected, where the selected one is not in
/// the queue, or where no workspace is selected.
pub proof fn law_no_details_otherwise(
    queue: QueueView,
    selection: SelectionView,
    query: Seq<char>,
)
    requires
        selection.workspace_id is None || (selection.task_id matches Some(id) ==> forall|i: int|
            0 <= i < queue.tasks.len() ==> (#[trigger] queue.tasks[i]).id != id),
    ensures
        panel::task_section(queue, selection, query).detail is None,
{
    if let Some(id) = selection.task_id {
        if selection.workspace_id is Some {
            queue::law_task_is_found(queue.tasks, id, queue.tasks.len() as int);
        }
    }
}

/// Each task that is shown has a row with its title, its priority and status, and
/// clicking on it selects the task; the row of the selected task is marked.
pub proof fn law_task_rows(
    queue: QueueView,
    workspace_id: Seq<char>,
    selected: Option<Seq<char>>,
    query: Seq<char>,
    i: int,
)
    requires
        0 <= i < panel::shown_tasks(queue.tasks, workspace_id, query).len(),
    ensures
        ({
            let selection = SelectionView { workspace_id: Some(workspace_id), task_id: selected };
            let section = panel::task_section(queue, selection, query);
            let task = panel::shown_tasks(queue.tasks, workspace_id, query)[i];
            &&& section.rows.len() == panel::shown_tasks(queue.tasks, workspace_id, query).len()
            &&& section.notice is None
            &&& section.rows[i].title == task.title
            &&& section.rows[i].metadata == panel::priority_label(task.priority) + " · "@
                + panel::status_label(task.status)
            &&& section.rows[i].tone == panel::tone_of(task.status)
            &&& section.rows[i].action == WorkspaceActionView::SelectTask(task.id)
            &&& section.rows[i].is_selected <==> selected == Some(task.id)
        }),
{
}

/// Where no task is shown, the panel says why: no workspace is selected, nothing
/// was found, or the workspace has no tasks.
pub proof fn law_empty_panel_says_why(
    queue: QueueView,
    workspace_id: Seq<char>,
    selected: Option<Seq<char>>,
    query: Seq<char>,
)
    ensures
        ({
            let none = SelectionView { workspace_id: None, task_id: selected };
            let some = SelectionView { workspace_id: Some(workspace_id), task_id: selected };
            let unselected = panel::task_section(queue, none, query);
            let section = panel::task_section(queue, some, query);
            let is_empty = panel::shown_tasks(queue.tasks, workspace_id, query).len() == 0;
            let searched = outside::lowercase(text::trim(query)).len() > 0;
            &&& unselected.rows.len() == 0
            &&& unselected.heading is None
            &&& unselected.notice == Some(
                "Selecciona un espacio de trabajo para ver sus tareas."@,
            )
            &&& section.heading == Some("Tareas"@)
            &&& section.notice is Some <==> is_empty
            &&& is_empty ==> section.rows.len() == 0 && section.notice == Some(
                if searched {
                    "No hay tareas que coincidan con la búsqueda."@
                } else {
                    "No hay tareas para este espacio de trabajo."@
                },
            )
        }),
{
}

/// Every workspace that was found is listed in the section of its group, under its
/// name, which says so where it is not available; the selected one is marked.
pub proof fn law_workspaces_are_listed(queue: QueueView, selected: Option<Seq<char>>, n: int)
    requires
        0 <= n < queue.workspaces.len(),
    ensures
        ({
            let workspace = queue.workspaces[n];
            let section = panel::workspace_section(queue, workspace.source, selected);
            &&& section.notice is None
            &&& exists|i: int|
                0 <= i < section.rows.len() && {
                    let row = #[trigger] section.rows[i];
                    &&& row.workspace_id == workspace.id
                    &&& row.is_available == workspace.is_available
                    &&& row.label == if workspace.is_available {
                        workspace.display_name
                    } else {
                        workspace.display_name + " (no disponible)"@
                    }
                    &&& row.is_selected <==> selected == Some(workspace.id)
                }
        }),
{
    broadcast use vstd::seq_lib::group_filter_ensures;

    let workspace = queue.workspaces[n];
    let source = workspace.source;
    let own = |other: DiscoveredView| other.source == source;
    let found = discovery::of_source(queue.workspaces, source);
    assert(found == queue.workspaces.filter(own));
    assert(own(queue.workspaces[n]));
    assert(queue.workspaces.filter(own).contains(queue.workspaces[n]));
    let i = choose|i: int| 0 <= i < found.len() && found[i] == workspace;
    let section = panel::workspace_section(queue, source, selected);
    assert(section.rows[i] == panel::workspace_row(workspace, selected));
}

/// There is one section for each group. It lists the workspaces of its group and no
/// other, in the order in which they were found; an empty one says so.
pub proof fn law_sections_list_only_their_group(
    queue: QueueView,
    selected: Option<Seq<char>>,
    source: WorkspaceSource,
)
    ensures
        ({
            let section = panel::workspace_section(queue, source, selected);
            let found = queue.workspaces.filter(
                |workspace: DiscoveredView| workspace.source == source,
            );
            &&& section.rows.len() == found.len()
            &&& forall|i: int|
                0 <= i < found.len() ==> (#[trigger] section.rows[i]).workspace_id == found[i].id
            &&& section.notice is Some <==> found.len() == 0
        }),
        panel::workspace_sections(queue, selected) == seq![
            panel::workspace_section(queue, WorkspaceSource::Github, selected),
            panel::workspace_section(queue, WorkspaceSource::ActiveProjects, selected),
        ],
{
    let own = |workspace: DiscoveredView| workspace.source == source;
    assert(discovery::of_source(queue.workspaces, source) == queue.workspaces.filter(own));
}

/// Different priorities and different statuses are shown differently.
pub proof fn law_labels_differ(
    priority: TaskPriority,
    other_priority: TaskPriority,
    status: TaskStatus,
    other_status: TaskStatus,
)
    ensures
        priority != other_priority ==> panel::priority_label(priority) != panel::priority_label(
            other_priority,
        ),
        status != other_status ==> panel::status_label(status) != panel::status_label(
            other_status,
        ),
{
    reveal_strlit("Alta");
    reveal_strlit("Normal");
    reveal_strlit("Baja");
    reveal_strlit("Pendiente");
    reveal_strlit("En curso");
    reveal_strlit("Pendiente de revisión");
    reveal_strlit("Requiere atención");
    reveal_strlit("Terminada");
    assert("Alta"@[0] == 'A' && "Baja"@[0] == 'B' && "Normal"@[0] == 'N');
    assert("Pendiente"@.len() == 9 && "En curso"@.len() == 8);
    assert("Terminada"@.len() == 9 && "Terminada"@[0] == 'T' && "Pendiente"@[0] == 'P');
    assert("Pendiente de revisión"@.len() == 21 && "Requiere atención"@.len() == 17);
}

/// What requires attention is red, what awaits review yellow, what is done green,
/// and nothing else is.
pub proof fn law_status_colors(status: TaskStatus)
    ensures
        panel::tone_of(status) == StatusTone::Red <==> status == TaskStatus::AttentionRequired,
        panel::tone_of(status) == StatusTone::Yellow <==> status == TaskStatus::ReviewRequired,
        panel::tone_of(status) == StatusTone::Green <==> status == TaskStatus::Done,
{
}

/// A session goes to the one part or the other by whether it was started for a
/// task, behind those before it, and keeps its task.
pub proof fn law_partition_keeps_order<T>(rows: Seq<TaskSessionRow<T>>, row: TaskSessionRow<T>)
    ensures
        panel::ordinary_sessions(Seq::<TaskSessionRow<T>>::empty()).len() == 0,
        panel::linked_sessions(Seq::<TaskSessionRow<T>>::empty()).len() == 0,
        match row.task_id {
            Some(task_id) => panel::ordinary_sessions(rows.push(row)) == panel::ordinary_sessions(
                rows,
            ) && panel::linked_sessions(rows.push(row)) == panel::linked_sessions(rows).push(
                LinkedTaskSession { session: row.session, task_id },
            ),
            None => panel::ordinary_sessions(rows.push(row)) == panel::ordinary_sessions(
                rows,
            ).push(row.session) && panel::linked_sessions(rows.push(row))
                == panel::linked_sessions(rows),
        },
{
    assert(rows.push(row).drop_last() =~= rows);
}

} // verus!
