//! A task as a Markdown file: a front matter that holds what the task is, and
//! its description below it.
use vstd::prelude::*;
use vstd::string::*;
use vstd::utf8::*;

use crate::attachment;
use crate::attachment::validate_attachment_reference;
use crate::front_matter;
use crate::front_matter::{
    optional_string, parse_front_matter, parse_u64, required_field, required_string, FrontMatter,
    FrontMatterView,
};
use crate::numbers;
use crate::numbers::decimal_text;
use crate::outside;
use crate::outside::{json_of_text, lossy_text_of};
use crate::path::LocalPath;
use crate::store_error;
use crate::store_error::{invalid, StoreErrorView, TaskStoreError};
use crate::task::{
    AgentKind, AttachmentView, Task, TaskAttachment, TaskId, TaskPriority, TaskStatus, TaskView,
};
use crate::text;
use crate::text::{same_text, split_text_once, strip_text_prefix};
use crate::views;
use crate::workspace::{TaskWorkspace, TaskWorkspaceView, WorkspaceId, WorkspaceSource};

verus! {

/// How a priority is written.
pub open spec fn priority_text(priority: TaskPriority) -> Seq<char> {
    match priority {
        TaskPriority::High => "high"@,
        TaskPriority::Normal => "normal"@,
        TaskPriority::Low => "low"@,
    }
}

/// How a priority is written.
pub fn priority_name(priority: TaskPriority) -> (name: &'static str)
    ensures
        name@ == priority_text(priority),
{
    match priority {
        TaskPriority::High => "high",
        TaskPriority::Normal => "normal",
        TaskPriority::Low => "low",
    }
}

/// The priority that a text names.
pub open spec fn priority_named(value: Seq<char>) -> Result<TaskPriority, Seq<char>> {
    if value == "high"@ {
        Ok(TaskPriority::High)
    } else if value == "normal"@ {
        Ok(TaskPriority::Normal)
    } else if value == "low"@ {
        Ok(TaskPriority::Low)
    } else {
        Err("priority is not supported"@)
    }
}

/// Reads a priority.
pub fn parse_priority(path: &LocalPath, value: &str) -> (parsed: Result<
    TaskPriority,
    TaskStoreError,
>)
    ensures
        front_matter::plain_view(parsed) == front_matter::at_path(path@, priority_named(value@)),
{
    if same_text(value, "high") {
        Ok(TaskPriority::High)
    } else if same_text(value, "normal") {
        Ok(TaskPriority::Normal)
    } else if same_text(value, "low") {
        Ok(TaskPriority::Low)
    } else {
        Err(invalid(path, "priority is not supported"))
    }
}

/// How an agent is written.
pub open spec fn agent_kind_text(agent_kind: AgentKind) -> Seq<char> {
    match agent_kind {
        AgentKind::Codex => "codex"@,
        AgentKind::ClaudeCode => "claude_code"@,
    }
}

/// How an agent is written.
pub fn agent_kind_name(agent_kind: AgentKind) -> (name: &'static str)
    ensures
        name@ == agent_kind_text(agent_kind),
{
    match agent_kind {
        AgentKind::Codex => "codex",
        AgentKind::ClaudeCode => "claude_code",
    }
}

/// The agent that a text names.
pub open spec fn agent_kind_named(value: Seq<char>) -> Result<AgentKind, Seq<char>> {
    if value == "codex"@ {
        Ok(AgentKind::Codex)
    } else if value == "claude_code"@ {
        Ok(AgentKind::ClaudeCode)
    } else {
        Err("agent_kind is not supported"@)
    }
}

/// Reads an agent.
pub fn parse_agent_kind(path: &LocalPath, value: &str) -> (parsed: Result<
    AgentKind,
    TaskStoreError,
>)
    ensures
        front_matter::plain_view(parsed) == front_matter::at_path(path@, agent_kind_named(value@)),
{
    if same_text(value, "codex") {
        Ok(AgentKind::Codex)
    } else if same_text(value, "claude_code") {
        Ok(AgentKind::ClaudeCode)
    } else {
        Err(invalid(path, "agent_kind is not supported"))
    }
}

/// How a status is written.
pub open spec fn status_text(status: TaskStatus) -> Seq<char> {
    match status {
        TaskStatus::Pending => "pending"@,
        TaskStatus::InProgress => "in_progress"@,
        TaskStatus::ReviewRequired => "review_required"@,
        TaskStatus::AttentionRequired => "attention_required"@,
        TaskStatus::Done => "done"@,
    }
}

/// How a status is written.
pub fn status_name(status: TaskStatus) -> (name: &'static str)
    ensures
        name@ == status_text(status),
{
    match status {
        TaskStatus::Pending => "pending",
        TaskStatus::InProgress => "in_progress",
        TaskStatus::ReviewRequired => "review_required",
        TaskStatus::AttentionRequired => "attention_required",
        TaskStatus::Done => "done",
    }
}

/// The status that a text names.
pub open spec fn status_named(value: Seq<char>) -> Result<TaskStatus, Seq<char>> {
    if value == "pending"@ {
        Ok(TaskStatus::Pending)
    } else if value == "in_progress"@ {
        Ok(TaskStatus::InProgress)
    } else if value == "review_required"@ {
        Ok(TaskStatus::ReviewRequired)
    } else if value == "attention_required"@ {
        Ok(TaskStatus::AttentionRequired)
    } else if value == "done"@ {
        Ok(TaskStatus::Done)
    } else {
        Err("status is not supported"@)
    }
}

/// Reads a status.
pub fn parse_status(path: &LocalPath, value: &str) -> (parsed: Result<TaskStatus, TaskStoreError>)
    ensures
        front_matter::plain_view(parsed) == front_matter::at_path(path@, status_named(value@)),
{
    if same_text(value, "pending") {
        Ok(TaskStatus::Pending)
    } else if same_text(value, "in_progress") {
        Ok(TaskStatus::InProgress)
    } else if same_text(value, "review_required") {
        Ok(TaskStatus::ReviewRequired)
    } else if same_text(value, "attention_required") {
        Ok(TaskStatus::AttentionRequired)
    } else if same_text(value, "done") {
        Ok(TaskStatus::Done)
    } else {
        Err(invalid(path, "status is not supported"))
    }
}

/// What is written of a priority is read back as that priority.
pub proof fn law_priority_round_trip(priority: TaskPriority)
    ensures
        priority_named(priority_text(priority)) == Ok::<TaskPriority, Seq<char>>(priority),
{
    reveal_strlit("high");
    reveal_strlit("normal");
    reveal_strlit("low");
    assert("high"@.len() != "normal"@.len() && "high"@.len() != "low"@.len());
    assert("normal"@.len() != "low"@.len());
}

/// What is written of an agent is read back as that agent.
pub proof fn law_agent_kind_round_trip(agent_kind: AgentKind)
    ensures
        agent_kind_named(agent_kind_text(agent_kind)) == Ok::<AgentKind, Seq<char>>(agent_kind),
{
    reveal_strlit("codex");
    reveal_strlit("claude_code");
    assert("codex"@.len() != "claude_code"@.len());
}

/// What is written of a status is read back as that status.
pub proof fn law_status_round_trip(status: TaskStatus)
    ensures
        status_named(status_text(status)) == Ok::<TaskStatus, Seq<char>>(status),
{
    reveal_strlit("pending");
    reveal_strlit("in_progress");
    reveal_strlit("review_required");
    reveal_strlit("attention_required");
    reveal_strlit("done");
    assert("pending"@.len() == 7);
    assert("in_progress"@.len() == 11);
    assert("review_required"@.len() == 15);
    assert("attention_required"@.len() == 18);
    assert("done"@.len() == 4);
}

/// A text in quotes, in which quotation marks, backslashes and line feeds are
/// escaped. It is both a JSON string and a YAML scalar.
pub fn quoted(value: &str) -> (text: String)
    ensures
        text@ == outside::json_string(value@),
{
    json_of_text(value)
}

/// An optional text in quotes.
pub open spec fn quoted_or_null(value: Option<Seq<char>>) -> Seq<char> {
    match value {
        Some(value) => outside::json_string(value),
        None => "null"@,
    }
}

/// Appends the line of a field that holds a string.
pub fn push_string_field(markdown: &mut String, key: &str, value: &str)
    ensures
        final(markdown)@ == old(markdown)@ + front_matter::field_line(
            key@,
            outside::json_string(value@),
        ).push('\n'),
{
    markdown.append(key);
    markdown.append(": ");
    markdown.append(quoted(value).as_str());
    markdown.push('\n');
    assert(markdown@ =~= old(markdown)@ + front_matter::field_line(
        key@,
        outside::json_string(value@),
    ).push('\n'));
}

/// Appends the line of a field that may hold a string.
pub fn push_optional_string_field(markdown: &mut String, key: &str, value: &Option<String>)
    ensures
        final(markdown)@ == old(markdown)@ + front_matter::field_line(
            key@,
            quoted_or_null(views::option_view(*value)),
        ).push('\n'),
{
    markdown.append(key);
    markdown.append(": ");
    match value {
        Some(value) => markdown.append(quoted(value.as_str()).as_str()),
        None => markdown.append("null"),
    }
    markdown.push('\n');
    assert(markdown@ =~= old(markdown)@ + front_matter::field_line(
        key@,
        quoted_or_null(views::option_view(*value)),
    ).push('\n'));
}

/// Appends the line of a field that holds a number.
fn push_number_field(markdown: &mut String, key: &str, value: u64)
    ensures
        final(markdown)@ == old(markdown)@ + front_matter::field_line(
            key@,
            numbers::decimal(value as nat),
        ).push('\n'),
{
    markdown.append(key);
    markdown.append(": ");
    markdown.append(decimal_text(value).as_str());
    markdown.push('\n');
    assert(markdown@ =~= old(markdown)@ + front_matter::field_line(
        key@,
        numbers::decimal(value as nat),
    ).push('\n'));
}

/// Lines, each with a line feed behind it.
pub open spec fn text_of_lines(lines: Seq<Seq<char>>) -> Seq<char>
    decreases lines.len(),
{
    if lines.len() == 0 {
        Seq::empty()
    } else {
        text_of_lines(lines.drop_last()) + lines.last().push('\n')
    }
}

/// The lines for what a task is, up to its attachments.
pub open spec fn field_lines(task: TaskView, workspace: TaskWorkspaceView) -> Seq<Seq<char>> {
    seq![
        front_matter::field_line("id"@, outside::json_string(task.id)),
        front_matter::field_line("workspace_id"@, outside::json_string(workspace.id)),
        front_matter::field_line(
            "workspace_source"@,
            outside::json_string(workspace.source.storage_name_spec()),
        ),
        front_matter::field_line(
            "workspace_path"@,
            outside::json_string(outside::shown_text(workspace.path)),
        ),
        front_matter::field_line(
            "workspace_display_name"@,
            outside::json_string(workspace.display_name),
        ),
        front_matter::field_line("title"@, outside::json_string(task.title)),
        front_matter::field_line("priority"@, outside::json_string(priority_text(task.priority))),
        front_matter::field_line(
            "agent_kind"@,
            outside::json_string(agent_kind_text(task.agent_kind)),
        ),
        front_matter::field_line("status"@, outside::json_string(status_text(task.status))),
        front_matter::field_line("terminal_pane_id"@, quoted_or_null(task.terminal_pane_id)),
        front_matter::field_line("attention_reason"@, quoted_or_null(task.attention_reason)),
        front_matter::field_line("created_at_ms"@, numbers::decimal(task.created_at_ms as nat)),
        front_matter::field_line("updated_at_ms"@, numbers::decimal(task.updated_at_ms as nat)),
        front_matter::field_line("schema_version"@, "1"@),
        "attachments:"@,
    ]
}

/// The line for an attachment.
pub open spec fn attachment_line(attachment: AttachmentView) -> Seq<char> {
    front_matter::item_line(outside::json_string(outside::shown_text(attachment.path)))
}

/// The lines for attachments.
pub open spec fn attachment_lines(attachments: Seq<AttachmentView>) -> Seq<Seq<char>> {
    attachments.map_values(|attachment: AttachmentView| attachment_line(attachment))
}

/// Why the first attachment that a task file cannot refer to is refused.
pub open spec fn first_refused(attachments: Seq<AttachmentView>) -> Option<StoreErrorView>
    decreases attachments.len(),
{
    if attachments.len() == 0 {
        None
    } else {
        match first_refused(attachments.drop_last()) {
            Some(error) => Some(error),
            None => attachment::reference_error(outside::shown_text(attachments.last().path)),
        }
    }
}

/// The file of a task. A task without a workspace has none, nor has one with an
/// attachment outside its folder of attachments.
pub open spec fn rendered(task: TaskView) -> Result<Seq<char>, StoreErrorView> {
    match task.workspace {
        None => Err(StoreErrorView::WorkspaceMetadataMissing),
        Some(workspace) => match first_refused(task.attachments) {
            Some(error) => Err(error),
            None => Ok(
                "---\n"@ + text_of_lines(
                    field_lines(task, workspace) + attachment_lines(task.attachments),
                ) + "---\n"@ + task.description,
            ),
        },
    }
}

/// One more line at the end.
proof fn lemma_one_more_line(start: Seq<char>, before: Seq<Seq<char>>, line: Seq<char>)
    ensures
        start + text_of_lines(before.push(line)) == start + text_of_lines(before) + line.push('\n'),
{
    assert(before.push(line).drop_last() =~= before);
    assert(start + text_of_lines(before.push(line)) =~= start + text_of_lines(before) + line.push(
        '\n',
    ));
}

proof fn lemma_first_refused(attachments: Seq<AttachmentView>, n: int)
    requires
        0 <= n <= attachments.len(),
        first_refused(attachments.take(n)) is Some,
    ensures
        first_refused(attachments) == first_refused(attachments.take(n)),
    decreases attachments.len(),
{
    if n == attachments.len() {
        assert(attachments.take(n) =~= attachments);
    } else {
        assert(attachments.drop_last().take(n) =~= attachments.take(n));
        lemma_first_refused(attachments.drop_last(), n);
    }
}

/// A text with the first `n` lines behind it.
spec fn with_lines(start: Seq<char>, lines: Seq<Seq<char>>, n: int) -> Seq<char>
    decreases n,
{
    if n <= 0 {
        start
    } else {
        with_lines(start, lines, n - 1) + lines[n - 1].push('\n')
    }
}

proof fn lemma_with_lines(start: Seq<char>, lines: Seq<Seq<char>>, n: int)
    requires
        0 <= n <= lines.len(),
    ensures
        with_lines(start, lines, n) == start + text_of_lines(lines.take(n)),
    decreases n,
{
    if n == 0 {
        assert(lines.take(0) =~= Seq::empty());
        assert(start + text_of_lines(lines.take(0)) =~= start);
    } else {
        lemma_with_lines(start, lines, n - 1);
        lemma_one_more_line(start, lines.take(n - 1), lines[n - 1]);
        assert(lines.take(n - 1).push(lines[n - 1]) =~= lines.take(n));
    }
}

/// Writes the lines for what a task is.
fn render_fields(task: &Task, workspace: &TaskWorkspace) -> (markdown: String)
    ensures
        markdown@ == "---\n"@ + text_of_lines(field_lines(task@, workspace@)),
{
    let mut markdown = "---\n".to_owned();
    push_string_field(&mut markdown, "id", task.id.0.as_str());
    push_string_field(&mut markdown, "workspace_id", workspace.id.0.as_str());
    push_string_field(&mut markdown, "workspace_source", workspace.source.storage_name());
    push_string_field(
        &mut markdown,
        "workspace_path",
        lossy_text_of(workspace.path.as_bytes()).as_str(),
    );
    push_string_field(
        &mut markdown,
        "workspace_display_name",
        workspace.display_name.as_str(),
    );
    push_string_field(&mut markdown, "title", task.title.as_str());
    push_string_field(&mut markdown, "priority", priority_name(task.priority));
    push_string_field(&mut markdown, "agent_kind", agent_kind_name(task.agent_kind));
    push_string_field(&mut markdown, "status", status_name(task.status));
    push_optional_string_field(&mut markdown, "terminal_pane_id", &task.terminal_pane_id);
    push_optional_string_field(&mut markdown, "attention_reason", &task.attention_reason);
    push_number_field(&mut markdown, "created_at_ms", task.created_at_ms);
    push_number_field(&mut markdown, "updated_at_ms", task.updated_at_ms);
    let ghost before = markdown@;
    markdown.append("schema_version: 1\nattachments:\n");
    proof {
        let all = field_lines(task@, workspace@);
        reveal_strlit("schema_version: 1\nattachments:\n");
        reveal_strlit("schema_version");
        reveal_strlit("attachments:");
        reveal_strlit(": ");
        reveal_strlit("1");
        assert("schema_version: 1\nattachments:\n"@ =~= all[13].push('\n') + all[14].push('\n'));
        assert(markdown@ =~= before + all[13].push('\n') + all[14].push('\n'));
        lemma_with_lines("---\n"@, all, 15);
        reveal_with_fuel(with_lines, 16);
        assert(all.take(15) =~= all);
    }
    markdown
}

/// Writes a task as a Markdown file.
pub fn render_task_markdown(task: &Task) -> (markdown: Result<String, TaskStoreError>)
    ensures
        views::result_view(markdown) == rendered(task@),
{
    let workspace = match &task.workspace {
        Some(workspace) => workspace,
        None => {
            return Err(TaskStoreError::WorkspaceMetadataMissing);
        },
    };
    let mut markdown = render_fields(task, workspace);
    let ghost start = "---\n"@;
    let ghost fields = field_lines(task@, workspace@);
    let ghost attachments = task@.attachments;
    assert(fields + attachment_lines(attachments.take(0)) =~= fields);
    let mut i: usize = 0;
    while i < task.attachments.len()
        invariant
            i <= task.attachments@.len(),
            task@.workspace is Some,
            attachments == task@.attachments,
            attachments == views::views(task.attachments@),
            first_refused(attachments.take(i as int)) is None,
            markdown@ == start + text_of_lines(
                fields + attachment_lines(attachments.take(i as int)),
            ),
        decreases task.attachments@.len() - i,
    {
        let shown = lossy_text_of(task.attachments[i].path.as_bytes());
        let ghost next = attachments[i as int];
        assert(next == task.attachments@[i as int]@);
        assert(attachments.take(i + 1).drop_last() =~= attachments.take(i as int));
        match validate_attachment_reference(shown.as_str()) {
            Ok(()) => {},
            Err(error) => {
                proof {
                    lemma_first_refused(attachments, i + 1);
                }
                return Err(error);
            },
        }
        let ghost before = markdown@;
        markdown.append("  - ");
        markdown.append(quoted(shown.as_str()).as_str());
        markdown.push('\n');
        proof {
            let lines = fields + attachment_lines(attachments.take(i as int));
            lemma_one_more_line(start, lines, attachment_line(next));
            assert(fields + attachment_lines(attachments.take(i + 1)) =~= lines.push(
                attachment_line(next),
            ));
            assert(markdown@ =~= before + attachment_line(next).push('\n'));
        }
        i += 1;
    }
    assert(attachments.take(i as int) =~= attachments);
    markdown.append("---\n");
    markdown.append(task.description.as_str());
    Ok(markdown)
}

/// The front matter and the description of a task file.
pub open spec fn file_parts(contents: Seq<char>) -> Option<(Seq<char>, Seq<char>)> {
    match text::strip_prefix(contents, "---\n"@) {
        Some(rest) => text::split_once(rest, "\n---\n"@),
        None => None,
    }
}

/// The group that a text names.
pub open spec fn source_named(value: Seq<char>) -> Result<WorkspaceSource, Seq<char>> {
    match WorkspaceSource::named(value) {
        Some(source) => Ok(source),
        None => Err("workspace_source is not supported"@),
    }
}

/// The attachments that a task file refers to, or why the first one that it may
/// not refer to is refused.
pub open spec fn referenced(references: Seq<Seq<char>>) -> Result<Seq<AttachmentView>, Seq<char>>
    decreases references.len(),
{
    if references.len() == 0 {
        Ok(Seq::empty())
    } else {
        match referenced(references.drop_last()) {
            Err(reason) => Err(reason),
            Ok(before) => match attachment::reference_error(references.last()) {
                Some(error) => Err(store_error::store_error_text(error)),
                None => Ok(
                    before.push(
                        AttachmentView {
                            path: encode_utf8(references.last()),
                            file_name: None,
                            contents: None,
                        },
                    ),
                ),
            },
        }
    }
}

/// What a value that was read says, where it was read.
pub open spec fn then_named<T>(
    value: Result<Seq<char>, Seq<char>>,
    named: spec_fn(Seq<char>) -> Result<T, Seq<char>>,
) -> Result<T, Seq<char>> {
    match value {
        Ok(value) => named(value),
        Err(reason) => Err(reason),
    }
}

/// The task that a front matter and a description make up, or why they make up
/// none. Of several reasons the first counts, in the order in which the fields
/// are listed here.
pub open spec fn task_from(matter: FrontMatterView, description: Seq<char>) -> Result<
    TaskView,
    Seq<char>,
> {
    let schema_version = front_matter::field(matter, "schema_version"@);
    let workspace_id = front_matter::string_field(matter, "workspace_id"@);
    let source = then_named(
        front_matter::string_field(matter, "workspace_source"@),
        |value: Seq<char>| source_named(value),
    );
    let workspace_path = front_matter::string_field(matter, "workspace_path"@);
    let display_name = front_matter::string_field(matter, "workspace_display_name"@);
    let attachments = referenced(matter.attachments);
    let id = front_matter::string_field(matter, "id"@);
    let title = front_matter::string_field(matter, "title"@);
    let priority = then_named(
        front_matter::string_field(matter, "priority"@),
        |value: Seq<char>| priority_named(value),
    );
    let agent_kind = then_named(
        front_matter::string_field(matter, "agent_kind"@),
        |value: Seq<char>| agent_kind_named(value),
    );
    let status = then_named(
        front_matter::string_field(matter, "status"@),
        |value: Seq<char>| status_named(value),
    );
    let terminal_pane_id = front_matter::optional_string_field(matter, "terminal_pane_id"@);
    let attention_reason = front_matter::optional_string_field(matter, "attention_reason"@);
    let created_at_ms = then_named(
        front_matter::field(matter, "created_at_ms"@),
        |value: Seq<char>| front_matter::number(value, "created_at_ms"@),
    );
    let updated_at_ms = then_named(
        front_matter::field(matter, "updated_at_ms"@),
        |value: Seq<char>| front_matter::number(value, "updated_at_ms"@),
    );
    if schema_version is Err {
        Err(schema_version->Err_0)
    } else if schema_version->Ok_0 != "1"@ {
        Err("schema_version must be 1"@)
    } else if workspace_id is Err {
        Err(workspace_id->Err_0)
    } else if source is Err {
        Err(source->Err_0)
    } else if workspace_path is Err {
        Err(workspace_path->Err_0)
    } else if display_name is Err {
        Err(display_name->Err_0)
    } else if attachments is Err {
        Err(attachments->Err_0)
    } else if id is Err {
        Err(id->Err_0)
    } else if title is Err {
        Err(title->Err_0)
    } else if priority is Err {
        Err(priority->Err_0)
    } else if agent_kind is Err {
        Err(agent_kind->Err_0)
    } else if status is Err {
        Err(status->Err_0)
    } else if terminal_pane_id is Err {
        Err(terminal_pane_id->Err_0)
    } else if attention_reason is Err {
        Err(attention_reason->Err_0)
    } else if created_at_ms is Err {
        Err(created_at_ms->Err_0)
    } else if updated_at_ms is Err {
        Err(updated_at_ms->Err_0)
    } else {
        Ok(
            TaskView {
                id: id->Ok_0,
                workspace_id: workspace_id->Ok_0,
                workspace: Some(
                    TaskWorkspaceView {
                        id: workspace_id->Ok_0,
                        source: source->Ok_0,
                        path: encode_utf8(workspace_path->Ok_0),
                        display_name: display_name->Ok_0,
                    },
                ),
                title: title->Ok_0,
                description,
                priority: priority->Ok_0,
                agent_kind: agent_kind->Ok_0,
                attachments: attachments->Ok_0,
                status: status->Ok_0,
                terminal_pane_id: terminal_pane_id->Ok_0,
                attention_reason: attention_reason->Ok_0,
                created_at_ms: created_at_ms->Ok_0,
                updated_at_ms: updated_at_ms->Ok_0,
            },
        )
    }
}

/// The task that a task file holds, or why it holds none.
pub open spec fn parsed_task(contents: Seq<char>) -> Result<TaskView, Seq<char>> {
    match file_parts(contents) {
        None => Err("expected opening and closing front matter delimiters"@),
        Some((source, description)) => match front_matter::front_matter(source) {
            Err(reason) => Err(reason),
            Ok(matter) => task_from(matter, description),
        },
    }
}

proof fn lemma_referenced(references: Seq<Seq<char>>, n: int)
    requires
        0 <= n <= references.len(),
        referenced(references.take(n)) is Err,
    ensures
        referenced(references) == referenced(references.take(n)),
    decreases references.len(),
{
    if n == references.len() {
        assert(references.take(n) =~= references);
    } else {
        assert(references.drop_last().take(n) =~= references.take(n));
        lemma_referenced(references.drop_last(), n);
    }
}

/// The attachments that a task file refers to.
fn parse_references(path: &LocalPath, references: &Vec<String>) -> (attachments: Result<
    Vec<TaskAttachment>,
    TaskStoreError,
>)
    ensures
        match attachments {
            Ok(attachments) => referenced(views::views(references@)) == Ok::<
                Seq<AttachmentView>,
                Seq<char>,
            >(views::views(attachments@)),
            Err(error) => front_matter::at_path(path@, referenced(views::views(references@)))
                == Err::<Seq<AttachmentView>, StoreErrorView>(error@),
        },
{
    let ghost all = views::views(references@);
    let mut attachments: Vec<TaskAttachment> = Vec::new();
    let mut i: usize = 0;
    assert(all.take(0) =~= Seq::empty());
    assert(views::views(attachments@) =~= Seq::empty());
    while i < references.len()
        invariant
            i <= references@.len(),
            all == views::views(references@),
            referenced(all.take(i as int)) == Ok::<Seq<AttachmentView>, Seq<char>>(
                views::views(attachments@),
            ),
        decreases references@.len() - i,
    {
        let reference = references[i].as_str();
        assert(all[i as int] == reference@);
        assert(all.take(i + 1).drop_last() =~= all.take(i as int));
        match validate_attachment_reference(reference) {
            Ok(()) => {},
            Err(error) => {
                proof {
                    lemma_referenced(all, i + 1);
                }
                return Err(invalid(path, error.message().as_str()));
            },
        }
        let ghost before = views::views(attachments@);
        attachments.push(TaskAttachment::new(LocalPath::from_text(reference)));
        assert(views::views(attachments@) =~= before.push(attachments@.last()@));
        i += 1;
    }
    assert(all.take(i as int) =~= all);
    Ok(attachments)
}

/// The task that a front matter and a description make up.
fn task_of_matter(path: &LocalPath, matter: &FrontMatter, description: &str) -> (task: Result<
    Task,
    TaskStoreError,
>)
    ensures
        views::result_view(task) == front_matter::at_path(
            path@,
            task_from(matter@, description@),
        ),
{
    let schema_version = match required_field(path, matter, "schema_version") {
        Ok(value) => value,
        Err(error) => return Err(error),
    };
    if !same_text(schema_version.as_str(), "1") {
        return Err(invalid(path, "schema_version must be 1"));
    }
    let workspace_id = match required_string(path, matter, "workspace_id") {
        Ok(value) => value,
        Err(error) => return Err(error),
    };
    let source_name = match required_string(path, matter, "workspace_source") {
        Ok(value) => value,
        Err(error) => return Err(error),
    };
    let source = match WorkspaceSource::from_storage_name(source_name.as_str()) {
        Some(source) => source,
        None => return Err(invalid(path, "workspace_source is not supported")),
    };
    let workspace_path = match required_string(path, matter, "workspace_path") {
        Ok(value) => value,
        Err(error) => return Err(error),
    };
    let display_name = match required_string(path, matter, "workspace_display_name") {
        Ok(value) => value,
        Err(error) => return Err(error),
    };
    let attachments = match parse_references(path, &matter.attachments) {
        Ok(attachments) => attachments,
        Err(error) => return Err(error),
    };
    let id = match required_string(path, matter, "id") {
        Ok(value) => value,
        Err(error) => return Err(error),
    };
    let title = match required_string(path, matter, "title") {
        Ok(value) => value,
        Err(error) => return Err(error),
    };
    let priority_name = match required_string(path, matter, "priority") {
        Ok(value) => value,
        Err(error) => return Err(error),
    };
    let priority = match parse_priority(path, priority_name.as_str()) {
        Ok(value) => value,
        Err(error) => return Err(error),
    };
    let agent_name = match required_string(path, matter, "agent_kind") {
        Ok(value) => value,
        Err(error) => return Err(error),
    };
    let agent_kind = match parse_agent_kind(path, agent_name.as_str()) {
        Ok(value) => value,
        Err(error) => return Err(error),
    };
    let status_name = match required_string(path, matter, "status") {
        Ok(value) => value,
        Err(error) => return Err(error),
    };
    let status = match parse_status(path, status_name.as_str()) {
        Ok(value) => value,
        Err(error) => return Err(error),
    };
    let terminal_pane_id = match optional_string(path, matter, "terminal_pane_id") {
        Ok(value) => value,
        Err(error) => return Err(error),
    };
    let attention_reason = match optional_string(path, matter, "attention_reason") {
        Ok(value) => value,
        Err(error) => return Err(error),
    };
    let created = match required_field(path, matter, "created_at_ms") {
        Ok(value) => value,
        Err(error) => return Err(error),
    };
    let created_at_ms: u64 = match parse_u64(path, created.as_str(), "created_at_ms") {
        Ok(value) => value,
        Err(error) => return Err(error),
    };
    let updated = match required_field(path, matter, "updated_at_ms") {
        Ok(value) => value,
        Err(error) => return Err(error),
    };
    let updated_at_ms: u64 = match parse_u64(path, updated.as_str(), "updated_at_ms") {
        Ok(value) => value,
        Err(error) => return Err(error),
    };
    Ok(
        Task {
            id: TaskId::new(id.as_str()),
            workspace_id: WorkspaceId::new(workspace_id.as_str()),
            workspace: Some(
                TaskWorkspace::new(
                    WorkspaceId::new(workspace_id.as_str()),
                    source,
                    LocalPath::from_text(workspace_path.as_str()),
                    display_name.as_str(),
                ),
            ),
            title,
            description: description.to_owned(),
            priority,
            agent_kind,
            attachments,
            status,
            terminal_pane_id,
            attention_reason,
            created_at_ms,
            updated_at_ms,
        },
    )
}

/// Reads a task from the contents of its Markdown file.
pub fn parse_task_markdown(path: &LocalPath, contents: &str) -> (task: Result<
    Task,
    TaskStoreError,
>)
    ensures
        views::result_view(task) == front_matter::at_path(path@, parsed_task(contents@)),
{
    let rest = match strip_text_prefix(contents, "---\n") {
        Some(rest) => rest,
        None => return Err(
            invalid(path, "expected opening and closing front matter delimiters"),
        ),
    };
    let (source, description) = match split_text_once(rest.as_str(), "\n---\n") {
        Some(parts) => parts,
        None => return Err(
            invalid(path, "expected opening and closing front matter delimiters"),
        ),
    };
    let matter = match parse_front_matter(path, source.as_str()) {
        Ok(matter) => matter,
        Err(error) => return Err(error),
    };
    task_of_matter(path, &matter, description.as_str())
}

/// No text but the one that is written of a priority, an agent or a status is read
/// as it.
pub proof fn law_only_written_names_are_read(value: Seq<char>)
    ensures
        priority_named(value) matches Ok(priority) ==> value == match priority {
            TaskPriority::High => "high"@,
            TaskPriority::Normal => "normal"@,
            TaskPriority::Low => "low"@,
        },
        agent_kind_named(value) matches Ok(agent_kind) ==> value == match agent_kind {
            AgentKind::Codex => "codex"@,
            AgentKind::ClaudeCode => "claude_code"@,
        },
        status_named(value) matches Ok(status) ==> value == match status {
            TaskStatus::Pending => "pending"@,
            TaskStatus::InProgress => "in_progress"@,
            TaskStatus::ReviewRequired => "review_required"@,
            TaskStatus::AttentionRequired => "attention_required"@,
            TaskStatus::Done => "done"@,
        },
        source_named(value) matches Ok(source) ==> value == match source {
            WorkspaceSource::Github => "github"@,
            WorkspaceSource::ActiveProjects => "active_projects"@,
        },
{
}

/// A file holds a task only where every field is there and says what the task says,
/// and where every attachment may be referred to.
pub proof fn law_task_says_what_its_file_says(
    matter: FrontMatterView,
    description: Seq<char>,
    task: TaskView,
    i: int,
)
    requires
        task_from(matter, description) == Ok::<TaskView, Seq<char>>(task),
    ensures
        forall|key: Seq<char>| #[trigger]
            front_matter::field_names().contains(key) ==> matter.fields.contains_key(key),
        matter.fields["schema_version"@] == "1"@,
        outside::json_read(matter.fields["id"@]) == Ok::<Seq<char>, Seq<char>>(task.id),
        outside::json_read(matter.fields["title"@]) == Ok::<Seq<char>, Seq<char>>(task.title),
        outside::json_read(matter.fields["workspace_id"@]) == Ok::<Seq<char>, Seq<char>>(
            task.workspace_id,
        ),
        task.workspace matches Some(workspace) && {
            &&& workspace.id == task.workspace_id
            &&& outside::json_read(matter.fields["workspace_source"@]) == Ok::<
                Seq<char>,
                Seq<char>,
            >(workspace.source.storage_name_spec())
            &&& outside::json_read(matter.fields["workspace_display_name"@]) == Ok::<
                Seq<char>,
                Seq<char>,
            >(workspace.display_name)
            &&& outside::json_read(matter.fields["workspace_path"@]) matches Ok(path)
                && workspace.path == encode_utf8(path)
        },
        outside::json_read(matter.fields["priority"@]) == Ok::<Seq<char>, Seq<char>>(
            priority_text(task.priority),
        ),
        outside::json_read(matter.fields["agent_kind"@]) == Ok::<Seq<char>, Seq<char>>(
            agent_kind_text(task.agent_kind),
        ),
        outside::json_read(matter.fields["status"@]) == Ok::<Seq<char>, Seq<char>>(
            status_text(task.status),
        ),
        match task.terminal_pane_id {
            Some(id) => outside::json_read(matter.fields["terminal_pane_id"@]) == Ok::<
                Seq<char>,
                Seq<char>,
            >(id),
            None => matter.fields["terminal_pane_id"@] == "null"@,
        },
        match task.attention_reason {
            Some(reason) => outside::json_read(matter.fields["attention_reason"@]) == Ok::<
                Seq<char>,
                Seq<char>,
            >(reason),
            None => matter.fields["attention_reason"@] == "null"@,
        },
        numbers::decimal_value(matter.fields["created_at_ms"@]) == Some(task.created_at_ms),
        numbers::decimal_value(matter.fields["updated_at_ms"@]) == Some(task.updated_at_ms),
        task.description == description,
        task.attachments.len() == matter.attachments.len(),
        0 <= i < matter.attachments.len() ==> task.attachments[i].path == encode_utf8(
            matter.attachments[i],
        ) && attachment::reference_error(matter.attachments[i]) is None,
{
    let names = front_matter::field_names();
    assert forall|key: Seq<char>| #[trigger] names.contains(key) implies matter.fields.contains_key(
        key,
    ) by {
        let k = choose|k: int| 0 <= k < names.len() && names[k] == key;
    }
    lemma_attachments_referred_to(matter.attachments, i);
}

proof fn lemma_attachments_referred_to(references: Seq<Seq<char>>, i: int)
    requires
        referenced(references) is Ok,
    ensures
        referenced(references)->Ok_0.len() == references.len(),
        0 <= i < references.len() ==> referenced(references)->Ok_0[i].path == encode_utf8(
            references[i],
        ) && attachment::reference_error(references[i]) is None,
    decreases references.len(),
{
    if references.len() > 0 {
        lemma_attachments_referred_to(references.drop_last(), i);
        if 0 <= i < references.len() - 1 {
            assert(references.drop_last()[i] == references[i]);
        }
    }
}

/// A task file starts with a line of three dashes, and its front matter ends at the
/// next such line; all that follows is the description of the task. A file that is
/// not like that holds no task.
pub proof fn law_task_file_parts(contents: Seq<char>)
    ensures
        match parsed_task(contents) {
            Ok(task) => exists|front: Seq<char>|
                contents == #[trigger] ("---\n"@ + front + "\n---\n"@ + task.description) && forall|
                    left: Seq<char>,
                    right: Seq<char>,
                |
                    front + "\n---\n"@ + task.description == #[trigger] (left + "\n---\n"@ + right)
                        ==> front.len() <= left.len(),
            Err(_) => true,
        },
        (forall|rest: Seq<char>| contents != #[trigger] ("---\n"@ + rest)) ==> parsed_task(
            contents,
        ) is Err,
{
    text::law_strip_prefix(contents, "---\n"@);
    if let Some(rest) = text::strip_prefix(contents, "---\n"@) {
        assert(contents == "---\n"@ + rest);
        text::law_split_once(rest, "\n---\n"@);
        if let Some((front, description)) = text::split_once(rest, "\n---\n"@) {
            assert(contents =~= "---\n"@ + front + "\n---\n"@ + description);
            if parsed_task(contents) is Ok {
                assert(parsed_task(contents)->Ok_0.description == description);
            }
        }
    }
}

/// The lines of a front matter: the fields of a task, each under its name, and then
/// its attachments.
pub open spec fn front_lines(task: TaskView, workspace: TaskWorkspaceView) -> Seq<Seq<char>> {
    seq![
        "id"@ + ": "@ + outside::json_string(task.id),
        "workspace_id"@ + ": "@ + outside::json_string(workspace.id),
        "workspace_source"@ + ": "@ + outside::json_string(workspace.source.storage_name_spec()),
        "workspace_path"@ + ": "@ + outside::json_string(outside::shown_text(workspace.path)),
        "workspace_display_name"@ + ": "@ + outside::json_string(workspace.display_name),
        "title"@ + ": "@ + outside::json_string(task.title),
        "priority"@ + ": "@ + outside::json_string(priority_text(task.priority)),
        "agent_kind"@ + ": "@ + outside::json_string(agent_kind_text(task.agent_kind)),
        "status"@ + ": "@ + outside::json_string(status_text(task.status)),
        "terminal_pane_id"@ + ": "@ + match task.terminal_pane_id {
            Some(id) => outside::json_string(id),
            None => "null"@,
        },
        "attention_reason"@ + ": "@ + match task.attention_reason {
            Some(reason) => outside::json_string(reason),
            None => "null"@,
        },
        "created_at_ms"@ + ": "@ + numbers::decimal(task.created_at_ms as nat),
        "updated_at_ms"@ + ": "@ + numbers::decimal(task.updated_at_ms as nat),
        "schema_version"@ + ": "@ + "1"@,
        "attachments:"@,
    ] + Seq::new(
        task.attachments.len(),
        |i: int| "  - "@ + outside::json_string(outside::shown_text(task.attachments[i].path)),
    )
}

/// The file of a task: its front matter between lines of three dashes, with one
/// field or attachment to a line, and behind it its description as it is.
pub proof fn law_task_file_text(task: TaskView, workspace: TaskWorkspaceView)
    requires
        task.workspace == Some(workspace),
        rendered(task) is Ok,
    ensures
        rendered(task)->Ok_0 == "---\n"@ + text_of_lines(front_lines(task, workspace)) + "---\n"@
            + task.description,
{
    assert(field_lines(task, workspace) + attachment_lines(task.attachments) =~= front_lines(
        task,
        workspace,
    ));
}

/// A task can be written exactly where it has a workspace and where a task file may
/// refer to each of its attachments.
pub proof fn law_what_can_be_written(task: TaskView)
    ensures
        rendered(task) is Ok <==> task.workspace is Some && forall|i: int|
            0 <= i < task.attachments.len() ==> attachment::reference_error(
                outside::shown_text((#[trigger] task.attachments[i]).path),
            ) is None,
{
    lemma_none_refused(task.attachments);
}

proof fn lemma_none_refused(attachments: Seq<AttachmentView>)
    ensures
        first_refused(attachments) is None <==> forall|i: int|
            0 <= i < attachments.len() ==> attachment::reference_error(
                outside::shown_text((#[trigger] attachments[i]).path),
            ) is None,
    decreases attachments.len(),
{
    if attachments.len() > 0 {
        let before = attachments.drop_last();
        lemma_none_refused(before);
        if first_refused(attachments) is None {
            assert forall|i: int| 0 <= i < attachments.len() implies attachment::reference_error(
                outside::shown_text((#[trigger] attachments[i]).path),
            ) is None by {
                if i < before.len() {
                    assert(before[i] == attachments[i]);
                }
            }
        } else {
            if first_refused(before) is Some {
                let i = choose|i: int|
                    0 <= i < before.len() && attachment::reference_error(
                        outside::shown_text((#[trigger] before[i]).path),
                    ) is Some;
                assert(attachments[i] == before[i]);
            } else {
                assert(attachments[attachments.len() - 1] == attachments.last());
            }
        }
    }
}

/// In a text of lines each line has a line feed behind it, and nothing else is there.
pub proof fn law_text_of_lines(lines: Seq<Seq<char>>, line: Seq<char>)
    ensures
        text_of_lines(Seq::empty()).len() == 0,
        text_of_lines(lines.push(line)) == text_of_lines(lines) + line + seq!['\n'],
{
    assert(lines.push(line).drop_last() =~= lines);
    assert(text_of_lines(lines.push(line)) =~= text_of_lines(lines) + line + seq!['\n']);
}

} // verus!
