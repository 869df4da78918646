use std::collections::BTreeMap;
use std::sync::Arc;

use task_queue::attachment::{
    attachment_filename, validate_attachment_filename, validate_attachment_reference,
    validate_path_component,
};
use task_queue::creation::{StoreAction, StoreReply, TaskCreation};
use task_queue::front_matter::{
    is_supported_field, optional_string, parse_front_matter, parse_quoted, parse_u64,
    required_field, required_string,
};
use task_queue::markdown::{
    agent_kind_name, parse_agent_kind, parse_priority, parse_status, parse_task_markdown,
    priority_name, push_optional_string_field, push_string_field, quoted, render_task_markdown,
    status_name,
};
use task_queue::path::LocalPath;
use task_queue::store::{
    check_workspace, load_task, read_directories, upsert_workspace, StoredTask, TaskStore,
};
use task_queue::store_error::TaskStoreError;
use task_queue::task::{
    AgentKind, NewTaskInput, Task, TaskAttachment, TaskId, TaskPriority, TaskStatus,
};
use task_queue::workspace::{TaskWorkspace, WorkspaceId, WorkspaceSource};

fn path(text: &str) -> LocalPath {
    LocalPath::from_text(text)
}

fn workspace(id: &str) -> TaskWorkspace {
    TaskWorkspace::new(
        WorkspaceId::new(id),
        WorkspaceSource::ActiveProjects,
        path("/work/ñandú"),
        "ñandú",
    )
}

fn task() -> Task {
    let input = NewTaskInput::new(WorkspaceId::new("ignored"), "A \"title\"\nwith ---\n")
        .with_workspace(workspace("w-1"))
        .with_description("First line\n---\nid: \"other\"\n\n---\n")
        .with_priority(TaskPriority::High)
        .with_agent_kind(AgentKind::ClaudeCode)
        .with_attachments(vec![
            TaskAttachment::new(path("attachments/a b.png")),
            TaskAttachment::new(path("attachments/ünï.md")),
        ]);
    let mut task = Task::new_at(TaskId::new("t-1"), input, 12, u64::MAX);
    task.mark_launched("pane\t1").expect("pending task launches");
    task
}

const FILE: &str = "---\n\
    id: \"t-1\"\n\
    workspace_id: \"w-1\"\n\
    workspace_source: \"active_projects\"\n\
    workspace_path: \"/work/ñandú\"\n\
    workspace_display_name: \"ñandú\"\n\
    title: \"A \\\"title\\\"\\nwith ---\\n\"\n\
    priority: \"high\"\n\
    agent_kind: \"claude_code\"\n\
    status: \"in_progress\"\n\
    terminal_pane_id: \"pane\\t1\"\n\
    attention_reason: null\n\
    created_at_ms: 12\n\
    updated_at_ms: 18446744073709551615\n\
    schema_version: 1\n\
    attachments:\n\
    \u{20}\u{20}- \"attachments/a b.png\"\n\
    \u{20}\u{20}- \"attachments/ünï.md\"\n\
    ---\n\
    First line\n---\nid: \"other\"\n\n---\n";

fn reason(contents: &str) -> String {
    match parse_task_markdown(&path("/f/task.md"), contents) {
        Err(TaskStoreError::Invalid { path, reason }) => {
            assert_eq!(path.as_bytes(), b"/f/task.md");
            reason
        }
        other => panic!("expected an invalid file, got {:?}", other),
    }
}

#[test]
fn a_task_is_written_as_markdown() {
    assert_eq!(render_task_markdown(&task()).expect("it can be written"), FILE);
}

#[test]
fn a_written_task_is_read_back() {
    let read = parse_task_markdown(&path("/f/task.md"), FILE).expect("it can be read");
    assert_eq!(read, task());
}

#[test]
fn a_task_without_a_workspace_is_not_written() {
    let task = Task::new(TaskId::new("t"), NewTaskInput::new(WorkspaceId::new("w"), "x"));
    let refused = render_task_markdown(&task).expect_err("it has no workspace");
    assert_eq!(refused, TaskStoreError::WorkspaceMetadataMissing);
    assert_eq!(
        refused.message(),
        "a task must include workspace metadata before it can be persisted"
    );
}

#[test]
fn an_attachment_elsewhere_is_not_written() {
    let mut task = task();
    task.attachments.push(TaskAttachment::new(path("/etc/passwd")));
    assert_eq!(
        render_task_markdown(&task),
        Err(TaskStoreError::UnsafeAttachmentFilename("/etc/passwd".to_string()))
    );
}

#[test]
fn a_path_that_is_not_text_is_shown_with_replacements() {
    let mut task = task();
    let mut workspace = workspace("w-1");
    workspace.path = LocalPath::from_bytes(vec![b'/', 0xff, b'a']);
    task.workspace = Some(workspace);
    let text = render_task_markdown(&task).expect("it can be written");
    assert!(text.contains("workspace_path: \"/\u{fffd}a\"\n"));
}

#[test]
fn delimiters_are_needed() {
    let message = "expected opening and closing front matter delimiters";
    assert_eq!(reason(""), message);
    assert_eq!(reason("id: \"x\"\n---\n"), message);
    assert_eq!(reason("---\nid: \"x\"\n"), message);
}

#[test]
fn the_front_matter_is_checked_line_by_line() {
    let with = |lines: &str| reason(&format!("---\n{lines}\n---\n"));
    assert_eq!(with("nonsense"), "front matter fields must use `key: value`");
    assert_eq!(with("color: \"red\""), "unsupported front matter field \"color\"");
    assert_eq!(with("id: \"a\"\nid: \"b\""), "duplicate front matter field \"id\"");
    assert_eq!(with("attachments:\nattachments:"), "duplicate attachments field");
    assert_eq!(
        with("attachments:\n  - x"),
        "expected a quoted string: expected value at line 1 column 1"
    );
    assert_eq!(with("id: \"a\"\n  - \"x\""), "front matter fields must use `key: value`");
    assert_eq!(with("id: \"a\""), "missing required field \"schema_version\"");
    assert_eq!(with("schema_version: 2"), "schema_version must be 1");
}

#[test]
fn each_field_is_checked() {
    let with = |from: &str, to: &str| reason(&FILE.replacen(from, to, 1));
    assert_eq!(
        with("workspace_source: \"active_projects\"", "workspace_source: \"elsewhere\""),
        "workspace_source is not supported"
    );
    assert_eq!(with("priority: \"high\"", "priority: \"urgent\""), "priority is not supported");
    assert_eq!(
        with("agent_kind: \"claude_code\"", "agent_kind: \"other\""),
        "agent_kind is not supported"
    );
    assert_eq!(with("status: \"in_progress\"", "status: \"lost\""), "status is not supported");
    assert_eq!(
        with("created_at_ms: 12", "created_at_ms: -1"),
        "created_at_ms must be an unsigned integer"
    );
    assert_eq!(
        with("updated_at_ms: 18446744073709551615", "updated_at_ms: 18446744073709551616"),
        "updated_at_ms must be an unsigned integer"
    );
    assert_eq!(
        with("attachments/a b.png", "elsewhere/a.png"),
        "unsafe attachment filename \"elsewhere/a.png\""
    );
    assert_eq!(
        with("attention_reason: null\n", ""),
        "missing required field \"attention_reason\""
    );
    assert!(with("title: \"A ", "title: A ").starts_with("expected a quoted string: "));
}

#[test]
fn names_of_values_are_read_back() {
    let at = path("/p");
    for priority in [TaskPriority::High, TaskPriority::Normal, TaskPriority::Low] {
        assert_eq!(parse_priority(&at, priority_name(priority)), Ok(priority));
    }
    for agent in [AgentKind::Codex, AgentKind::ClaudeCode] {
        assert_eq!(parse_agent_kind(&at, agent_kind_name(agent)), Ok(agent));
    }
    for status in [
        TaskStatus::Pending,
        TaskStatus::InProgress,
        TaskStatus::ReviewRequired,
        TaskStatus::AttentionRequired,
        TaskStatus::Done,
    ] {
        assert_eq!(parse_status(&at, status_name(status)), Ok(status));
    }
}

#[test]
fn quoted_text_escapes_what_json_escapes() {
    assert_eq!(quoted("a\"b\\c\n\r\t\u{8}\u{c}\u{1}\u{7f}é/"), "\"a\\\"b\\\\c\\n\\r\\t\\b\\f\\u0001\u{7f}é/\"");
    let at = path("/p");
    let text: String = (0u32..0x300).filter_map(char::from_u32).collect();
    assert_eq!(parse_quoted(&at, &quoted(&text)), Ok(text));
    assert_eq!(parse_quoted(&at, " \"a\\u00e9\\/\" "), Ok("aé/".to_string()));
}

#[test]
fn fields_are_appended_as_lines() {
    let mut text = String::from("x");
    push_string_field(&mut text, "key", "va\"lue");
    push_optional_string_field(&mut text, "none", &None);
    push_optional_string_field(&mut text, "some", &Some("s".to_string()));
    assert_eq!(text, "xkey: \"va\\\"lue\"\nnone: null\nsome: \"s\"\n");
}

#[test]
fn fields_are_looked_up() {
    let at = path("/p");
    let matter = parse_front_matter(&at, "id: \"a: b\"\ntitle: null\nattachments:\n  - \"x\"\r\n")
        .expect("it can be read");
    assert_eq!(matter.attachments, vec!["x".to_string()]);
    assert_eq!(required_field(&at, &matter, "id"), Ok("\"a: b\"".to_string()));
    assert_eq!(required_string(&at, &matter, "id"), Ok("a: b".to_string()));
    assert_eq!(optional_string(&at, &matter, "title"), Ok(None));
    assert_eq!(optional_string(&at, &matter, "id"), Ok(Some("a: b".to_string())));
    assert!(required_string(&at, &matter, "title").is_err());
    assert!(is_supported_field("schema_version"));
    assert!(!is_supported_field("attachments"));
}

#[test]
fn numbers_are_read_as_decimal() {
    let at = path("/p");
    assert_eq!(parse_u64(&at, "0", "k"), Ok(0));
    assert_eq!(parse_u64(&at, "+007", "k"), Ok(7));
    assert_eq!(parse_u64(&at, "18446744073709551615", "k"), Ok(u64::MAX));
    for text in ["", "+", "-1", "1_0", " 1", "18446744073709551616", "٣"] {
        assert_eq!(text.parse::<u64>().ok(), parse_u64(&at, text, "k").ok());
        assert!(parse_u64(&at, text, "k").is_err());
    }
}

#[test]
fn unsafe_names_are_refused() {
    for name in ["", ".", "..", "a/b", "a\\b", "a\nb", "\u{7f}", "\u{85}", "/a"] {
        assert_eq!(
            validate_path_component(name),
            Err(TaskStoreError::UnsafePathComponent(name.to_string()))
        );
        assert_eq!(
            validate_attachment_filename(name),
            Err(TaskStoreError::UnsafeAttachmentFilename(name.to_string()))
        );
    }
    for name in ["a", "...", "a b", "é.png", "a:b"] {
        assert_eq!(validate_path_component(name), Ok(()));
        assert_eq!(validate_attachment_filename(name), Ok(()));
    }
}

#[test]
fn references_name_one_file_in_the_folder() {
    for reference in ["attachments/a.png", "attachments//a.png", "attachments/./a.png"] {
        assert_eq!(validate_attachment_reference(reference), Ok(()));
    }
    for reference in [
        "",
        "attachments",
        "a.png",
        "/attachments/a.png",
        "./attachments/a.png",
        "attachments/../a.png",
        "attachments/x/a.png",
    ] {
        assert_eq!(
            validate_attachment_reference(reference),
            Err(TaskStoreError::UnsafeAttachmentFilename(reference.to_string()))
        );
    }
    assert_eq!(
        validate_attachment_reference("attachments/a\\b"),
        Err(TaskStoreError::UnsafeAttachmentFilename("a\\b".to_string()))
    );
}

#[test]
fn attachments_are_stored_by_their_name() {
    let plain = TaskAttachment::new(path("/tmp/x/notes.md"));
    assert_eq!(attachment_filename(&plain), Ok("notes.md".to_string()));
    let named = plain.with_file_name("other.md");
    assert_eq!(attachment_filename(&named), Ok("other.md".to_string()));
    assert_eq!(
        attachment_filename(&TaskAttachment::new(path("/tmp/.."))),
        Err(TaskStoreError::UnsafeAttachmentFilename("/tmp/..".to_string()))
    );
    let bytes = LocalPath::from_bytes(vec![b'/', 0xff]);
    assert_eq!(
        attachment_filename(&TaskAttachment::new(bytes)),
        Err(TaskStoreError::UnsafeAttachmentFilename("/\u{fffd}".to_string()))
    );
}

#[test]
fn errors_say_where_and_why() {
    assert_eq!(
        TaskStoreError::Io { path: path("/a"), source: "denied".to_string() }.message(),
        "task storage I/O failed for /a: denied"
    );
    assert_eq!(
        TaskStoreError::Invalid { path: path("/a"), reason: "bad".to_string() }.message(),
        "task storage data at /a is invalid: bad"
    );
    assert_eq!(
        TaskStoreError::WorkspaceMetadataMismatch.message(),
        "workspace metadata does not match task workspace ID"
    );
    assert_eq!(
        TaskStoreError::UnsafePathComponent("a\n\"".to_string()).message(),
        "unsafe task storage path component \"a\\n\\\"\""
    );
    assert_eq!(
        TaskStoreError::DuplicateAttachmentFilename("a".to_string()).message(),
        "duplicate attachment filename \"a\""
    );
}

fn store() -> TaskStore {
    TaskStore::open(&path("/data"))
}

#[test]
fn a_store_has_its_own_folders() {
    assert_eq!(store().root().as_bytes(), b"/data/TaskQueue/v1");
    assert_eq!(store().tasks_root().as_bytes(), b"/data/TaskQueue/v1/tasks");
    let folder = store().task_directory(&WorkspaceId::new("w"), &TaskId::new("t"));
    assert_eq!(folder.as_bytes(), b"/data/TaskQueue/v1/tasks/w/t");
    assert_eq!(store().task_file_in(&folder).as_bytes(), b"/data/TaskQueue/v1/tasks/w/t/task.md");
}

fn shown(action: &StoreAction) -> String {
    let text = |path: &LocalPath| String::from_utf8(path.as_bytes().to_vec()).expect("text");
    match action {
        StoreAction::CreateDirectory(path) => format!("mkdir {}", text(path)),
        StoreAction::CopyFile { from, to } => format!("copy {} {}", text(from), text(to)),
        StoreAction::WriteBytes { path, bytes } => format!("bytes {} {}", text(path), bytes.len()),
        StoreAction::WriteText { path, text: contents } => {
            format!("text {} {}", text(path), contents.len())
        }
        StoreAction::SyncFile(path) => format!("sync {}", text(path)),
        StoreAction::ReadIndex(path) => format!("read {}", text(path)),
        StoreAction::WriteIndex { path, workspaces } => {
            let ids: Vec<&str> = workspaces.iter().map(|item| item.id.0.as_str()).collect();
            format!("index {} {}", text(path), ids.join(","))
        }
        StoreAction::Rename { from, to } => format!("rename {} {}", text(from), text(to)),
        StoreAction::CheckExists(path) => format!("exists {}", text(path)),
        StoreAction::RemoveDirectory(path) => format!("remove {}", text(path)),
    }
}

fn input() -> NewTaskInput {
    NewTaskInput::new(WorkspaceId::new("x"), "Title")
        .with_workspace(workspace("w-1"))
        .with_attachments(vec![
            TaskAttachment::new(path("/tmp/notes.md")),
            TaskAttachment::from_memory("shot.png", Arc::new(vec![1, 2, 3])),
        ])
}

fn begin(input: NewTaskInput) -> TaskCreation {
    store()
        .create_at(TaskId::new("t-9"), input, 1, 2)
        .expect("the input is accepted")
}

fn success(action: &StoreAction) -> StoreReply {
    match action {
        StoreAction::ReadIndex(_) => StoreReply::Index(vec![workspace("z"), workspace("a")]),
        StoreAction::CheckExists(_) => StoreReply::Exists(false),
        _ => StoreReply::Done,
    }
}

fn run(
    mut creation: TaskCreation,
    mut answer: impl FnMut(usize, &StoreAction) -> StoreReply,
) -> (Vec<String>, Result<Task, TaskStoreError>) {
    let mut log = Vec::new();
    while let Some(action) = creation.action() {
        log.push(shown(&action));
        let reply = answer(log.len() - 1, &action);
        creation = creation.advance(reply);
    }
    (log, creation.outcome().expect("the creation is finished"))
}

#[test]
fn a_task_is_published_after_everything_is_written() {
    let (log, outcome) = run(begin(input()), |_, action| success(action));
    let task = outcome.expect("the task is stored");
    let length = render_task_markdown(&task).expect("it can be written").len();
    let root = "/data/TaskQueue/v1";
    let staging = "/data/TaskQueue/v1/.staging/create-t-9";
    assert_eq!(
        log,
        vec![
            format!("mkdir {root}"),
            format!("mkdir {root}/.staging"),
            format!("mkdir {staging}"),
            format!("mkdir {staging}/attachments"),
            format!("copy /tmp/notes.md {staging}/attachments/notes.md"),
            format!("sync {staging}/attachments/notes.md"),
            format!("bytes {staging}/attachments/shot.png 3"),
            format!("sync {staging}/attachments/shot.png"),
            format!("text {staging}/task.md {length}"),
            format!("read {root}/workspaces.json"),
            format!("index {root}/workspaces.json.tmp a,w-1,z"),
            format!("rename {root}/workspaces.json.tmp {root}/workspaces.json"),
            format!("mkdir {root}/tasks/w-1"),
            format!("exists {root}/tasks/w-1/t-9"),
            format!("rename {staging} {root}/tasks/w-1/t-9"),
        ]
    );
    assert_eq!(task.attachments[1], TaskAttachment::new(path("attachments/shot.png")));
    assert_eq!(task.created_at_ms, 1);
    let text = render_task_markdown(&task).expect("it can be written");
    assert_eq!(parse_task_markdown(&path("/x"), &text), Ok(task));
}

#[test]
fn a_failure_at_any_step_publishes_nothing() {
    let root = "/data/TaskQueue/v1";
    let staging = "/data/TaskQueue/v1/.staging/create-t-9";
    let reported = [
        root.to_string(),
        format!("{root}/.staging"),
        staging.to_string(),
        format!("{staging}/attachments"),
        "/tmp/notes.md".to_string(),
        format!("{staging}/attachments/notes.md"),
        format!("{staging}/attachments/shot.png"),
        format!("{staging}/attachments/shot.png"),
        format!("{staging}/task.md"),
        format!("{root}/workspaces.json"),
        format!("{root}/workspaces.json.tmp"),
        format!("{root}/workspaces.json"),
        format!("{root}/tasks/w-1"),
    ];
    for (step, place) in reported.iter().enumerate() {
        let (log, outcome) = run(begin(input()), |at, action| {
            if at == step {
                StoreReply::Failed("full".to_string())
            } else {
                success(action)
            }
        });
        assert_eq!(
            outcome,
            Err(TaskStoreError::Io { path: path(place), source: "full".to_string() })
        );
        if step < 3 {
            assert_eq!(log.len(), step + 1);
        } else {
            assert_eq!(log.last(), Some(&format!("remove {staging}")));
            assert_eq!(log.len(), step + 2);
        }
    }
}

#[test]
fn a_failed_move_is_reported_for_the_final_place() {
    let (log, outcome) = run(begin(input()), |at, action| {
        if at >= 14 {
            StoreReply::Failed("busy".to_string())
        } else {
            success(action)
        }
    });
    assert_eq!(
        outcome,
        Err(TaskStoreError::Io {
            path: path("/data/TaskQueue/v1/tasks/w-1/t-9"),
            source: "busy".to_string()
        })
    );
    assert_eq!(log.len(), 16);
}

#[test]
fn an_existing_folder_is_not_overwritten() {
    let (log, outcome) = run(begin(input()), |_, action| match action {
        StoreAction::CheckExists(_) => StoreReply::Exists(true),
        action => success(action),
    });
    assert_eq!(
        outcome,
        Err(TaskStoreError::Invalid {
            path: path("/data/TaskQueue/v1/tasks/w-1/t-9"),
            reason: "generated task ID already exists".to_string()
        })
    );
    assert_eq!(
        log.last().map(|line| line.as_str()),
        Some("remove /data/TaskQueue/v1/.staging/create-t-9")
    );
}

#[test]
fn a_bad_index_stops_the_creation() {
    for (step, words) in [
        (9, "could not parse workspace index: bad"),
        (10, "could not serialize workspace index: bad"),
    ] {
        let (_, outcome) = run(begin(input()), |at, action| {
            if at == step {
                StoreReply::Malformed("bad".to_string())
            } else {
                success(action)
            }
        });
        assert_eq!(
            outcome,
            Err(TaskStoreError::Invalid {
                path: path("/data/TaskQueue/v1/workspaces.json"),
                reason: words.to_string()
            })
        );
    }
}

#[test]
fn attachments_need_safe_and_different_names() {
    let twice = input().with_attachments(vec![
        TaskAttachment::new(path("/a/notes.md")),
        TaskAttachment::new(path("/b/notes.md")),
    ]);
    let (log, outcome) = run(begin(twice), |_, action| success(action));
    assert_eq!(
        outcome,
        Err(TaskStoreError::DuplicateAttachmentFilename("notes.md".to_string()))
    );
    assert_eq!(log.len(), 7);
    let named = input().with_attachments(vec![
        TaskAttachment::new(path("/a/notes.md")).with_file_name("../notes.md"),
    ]);
    let (_, outcome) = run(begin(named), |_, action| success(action));
    assert_eq!(
        outcome,
        Err(TaskStoreError::UnsafeAttachmentFilename("../notes.md".to_string()))
    );
}

#[test]
fn inputs_are_checked_before_anything_is_written() {
    let missing = NewTaskInput::new(WorkspaceId::new("w"), "t");
    assert_eq!(
        store().create(missing).err(),
        Some(TaskStoreError::WorkspaceMetadataMissing)
    );
    let mut other = NewTaskInput::new(WorkspaceId::new("w"), "t").with_workspace(workspace("w"));
    other.workspace_id = WorkspaceId::new("v");
    assert_eq!(store().create(other).err(), Some(TaskStoreError::WorkspaceMetadataMismatch));
    let up = NewTaskInput::new(WorkspaceId::new("w"), "t").with_workspace(workspace(".."));
    assert_eq!(
        store().create(up).err(),
        Some(TaskStoreError::UnsafePathComponent("..".to_string()))
    );
}

#[test]
fn random_identifiers_differ_and_have_their_form() {
    let id = |text: &str| {
        let creation = store()
            .create(NewTaskInput::new(WorkspaceId::new("w"), text).with_workspace(workspace("w")))
            .expect("the input is accepted");
        run(creation, |_, action| success(action)).1.expect("the task is stored").id.0
    };
    let (first, second) = (id("a"), id("b"));
    assert_ne!(first, second);
    for text in [first, second] {
        assert_eq!(text.len(), 36);
        for (i, c) in text.chars().enumerate() {
            match i {
                8 | 13 | 18 | 23 => assert_eq!(c, '-'),
                14 => assert_eq!(c, '4'),
                19 => assert!("89ab".contains(c)),
                _ => assert!(c.is_ascii_digit() || ('a'..='f').contains(&c)),
            }
        }
    }
}

#[test]
fn the_index_is_updated_in_place_and_sorted() {
    let mut changed = workspace("b");
    changed.display_name = "new".to_string();
    let updated = upsert_workspace(
        vec![workspace("c"), workspace("b"), workspace("a")],
        &changed,
    );
    assert_eq!(updated, vec![workspace("a"), changed.clone(), workspace("c")]);
    assert_eq!(upsert_workspace(Vec::new(), &changed), vec![changed]);
}

#[test]
fn a_bad_file_hides_no_other() {
    let good = |id: &str| {
        let mut task = task();
        task.id = TaskId::new(id);
        task
    };
    let list = store()
        .list(Ok(vec![
            StoredTask { path: path("/t/3"), task: Ok(good("z")) },
            StoredTask {
                path: path("/t/2"),
                task: load_task(&path("/t/2"), Err("gone".to_string())),
            },
            StoredTask {
                path: path("/t/1"),
                task: load_task(&path("/t/1"), Ok("text".to_string())),
            },
            StoredTask { path: path("/t/0"), task: Ok(good("b")) },
        ]))
        .expect("the store can be listed");
    let ids: Vec<&str> = list.tasks.iter().map(|task| task.id.0.as_str()).collect();
    assert_eq!(ids, vec!["b", "z"]);
    assert_eq!(list.errors[0].path.as_bytes(), b"/t/1");
    assert_eq!(
        list.errors[0].reason,
        "task storage data at /t/1 is invalid: expected opening and closing front matter delimiters"
    );
    assert_eq!(list.errors[1].reason, "task storage I/O failed for /t/2: gone");
    assert!(store().list(Err(TaskStoreError::WorkspaceMetadataMissing)).is_err());
}

#[test]
fn folders_are_listed_in_order() {
    let folders = read_directories(&path("/t"), Ok(vec![path("/t/b"), path("/t/B"), path("/t/a")]))
        .expect("the folder can be listed");
    assert_eq!(folders, vec![path("/t/B"), path("/t/a"), path("/t/b")]);
    assert_eq!(
        read_directories(&path("/t"), Err("denied".to_string())),
        Err(TaskStoreError::Io { path: path("/t"), source: "denied".to_string() })
    );
}

#[test]
fn a_task_without_its_workspace_folder_needs_attention() {
    let there = check_workspace(task(), true);
    assert_eq!(there, task());
    let gone = check_workspace(task(), false);
    assert_eq!(gone.status, TaskStatus::AttentionRequired);
    assert_eq!(
        gone.attention_reason.as_deref(),
        Some("workspace_path_missing: /work/ñandú is not available")
    );
    assert_eq!(gone.description, task().description);
}

fn text_of(path: &LocalPath) -> String {
    String::from_utf8(path.as_bytes().to_vec()).expect("text")
}

/// Performs an operation on files in memory.
fn perform(files: &mut BTreeMap<String, String>, action: &StoreAction) -> StoreReply {
    let is_in = |file: &str, folder: &str| {
        file == folder || file.starts_with(&format!("{folder}/"))
    };
    match action {
        StoreAction::CopyFile { to, .. } => {
            files.insert(text_of(to), String::new());
        }
        StoreAction::WriteBytes { path, .. } | StoreAction::WriteIndex { path, .. } => {
            files.insert(text_of(path), String::new());
        }
        StoreAction::WriteText { path, text } => {
            files.insert(text_of(path), text.clone());
        }
        StoreAction::Rename { from, to } => {
            let (from, to) = (text_of(from), text_of(to));
            let moved: Vec<String> =
                files.keys().filter(|file| is_in(file, &from)).cloned().collect();
            for file in moved {
                let contents = files.remove(&file).expect("the file is there");
                files.insert(format!("{to}{}", &file[from.len()..]), contents);
            }
        }
        StoreAction::RemoveDirectory(folder) => {
            let folder = text_of(folder);
            files.retain(|file, _| !is_in(file, &folder));
        }
        StoreAction::CheckExists(folder) => {
            let folder = text_of(folder);
            return StoreReply::Exists(files.keys().any(|file| is_in(file, &folder)));
        }
        StoreAction::ReadIndex(_) => return StoreReply::Index(Vec::new()),
        StoreAction::CreateDirectory(_) | StoreAction::SyncFile(_) => {}
    }
    StoreReply::Done
}

fn listed(files: &BTreeMap<String, String>) -> Vec<Task> {
    let tasks = text_of(&store().tasks_root());
    let found = files
        .iter()
        .filter(|(file, _)| file.starts_with(&tasks) && file.ends_with("/task.md"))
        .map(|(file, contents)| StoredTask {
            path: path(file),
            task: load_task(&path(file), Ok(contents.clone()))
                .map(|task| check_workspace(task, true)),
        })
        .collect();
    let list = store().list(Ok(found)).expect("the store can be listed");
    assert!(list.errors.is_empty());
    list.tasks
}

#[test]
fn a_later_listing_shows_one_more_task_or_what_it_showed() {
    let mut files = BTreeMap::new();
    let (_, outcome) = run(begin(input()), |_, action| perform(&mut files, action));
    let first = outcome.expect("the task is stored");
    assert_eq!(first.status, TaskStatus::Pending);
    assert_eq!(listed(&files), vec![first.clone()]);

    let again = || {
        store()
            .create_at(TaskId::new("t-1"), input(), 3, 4)
            .expect("the input is accepted")
    };
    for failing in 0..15 {
        let mut copy = files.clone();
        let (_, outcome) = run(again(), |step, action| {
            let reply = perform(&mut copy, action);
            if step != failing {
                return reply;
            }
            match action {
                StoreAction::CheckExists(_) => StoreReply::Exists(true),
                StoreAction::Rename { from, to } => {
                    let back = StoreAction::Rename { from: to.clone(), to: from.clone() };
                    perform(&mut copy, &back);
                    StoreReply::Failed("full".to_string())
                }
                _ => StoreReply::Failed("full".to_string()),
            }
        });
        assert!(outcome.is_err());
        assert_eq!(listed(&copy), vec![first.clone()]);
    }

    let (_, outcome) = run(again(), |_, action| perform(&mut files, action));
    let second = outcome.expect("the task is stored");
    assert_eq!(listed(&files), vec![second, first.clone()]);

    let (_, outcome) = run(begin(input()), |_, action| perform(&mut files, action));
    assert!(outcome.is_err());
    assert_eq!(listed(&files).len(), 2);
}
