//! What is read from a task file that was written is the task it was written for.
use vstd::prelude::*;
use vstd::string::*;
use vstd::utf8::*;

use crate::front_matter;
use crate::front_matter::{FrontMatterView, Reading};
use crate::markdown;
use crate::numbers;
use crate::outside;
use crate::task::{AttachmentView, TaskView};
use crate::text;
use crate::workspace;
use crate::workspace::TaskWorkspaceView;

verus! {

/// Whether a line holds no line feed and no carriage return.
pub open spec fn is_one_line(line: Seq<char>) -> bool {
    forall|i: int| 0 <= i < line.len() ==> #[trigger] line[i] != '\n' && line[i] != '\r'
}

proof fn lemma_json_char_one_line(c: char)
    ensures
        is_one_line(outside::json_char(c)),
{
    let shown = outside::json_char(c);
    assert forall|i: int| 0 <= i < shown.len() implies #[trigger] shown[i] != '\n' && shown[i]
        != '\r' by {
        if shown.len() == 6 {
            let high = c as int / 16;
            let low = c as int % 16;
            assert(0 <= high < 2 && 0 <= low < 16);
            assert(shown[4] == numbers::hex_char(high) && shown[5] == numbers::hex_char(low));
            assert(numbers::hex_char(high) >= '0' && numbers::hex_char(low) >= '0');
            assert(i == 0 || i == 1 || i == 2 || i == 3 || i == 4 || i == 5);
        } else if shown.len() == 2 {
            assert(i == 0 || i == 1);
        }
    }
}

proof fn lemma_json_chars_one_line(value: Seq<char>)
    ensures
        is_one_line(outside::json_chars(value)),
    decreases value.len(),
{
    if value.len() > 0 {
        let first = outside::json_char(value[0]);
        let rest = outside::json_chars(value.skip(1));
        lemma_json_chars_one_line(value.skip(1));
        lemma_json_char_one_line(value[0]);
        assert forall|i: int| 0 <= i < (first + rest).len() implies #[trigger] (first + rest)[i]
            != '\n' && (first + rest)[i] != '\r' by {
            if i < first.len() {
                assert((first + rest)[i] == first[i]);
            } else {
                assert((first + rest)[i] == rest[i - first.len()]);
            }
        }
    }
}

proof fn lemma_json_string_one_line(value: Seq<char>)
    ensures
        is_one_line(outside::json_string(value)),
        outside::json_string(value).len() >= 2,
        outside::json_string(value)[0] == '"',
{
    lemma_json_chars_one_line(value);
    let inner = outside::json_chars(value);
    let whole = outside::json_string(value);
    assert forall|i: int| 0 <= i < whole.len() implies #[trigger] whole[i] != '\n' && whole[i]
        != '\r' by {
        if 0 < i < whole.len() - 1 {
            assert(whole[i] == inner[i - 1]);
        }
    }
}

proof fn lemma_decimal_one_line(number: nat)
    ensures
        is_one_line(numbers::decimal(number)),
{
    numbers::lemma_decimal_digits(number);
    let digits = numbers::decimal(number);
    assert forall|i: int| 0 <= i < digits.len() implies #[trigger] digits[i] != '\n' && digits[i]
        != '\r' by {
        assert(numbers::is_digit(digits[i]));
    }
}

/// Whether a text consists of small letters and underscores.
pub open spec fn is_key(key: Seq<char>) -> bool {
    &&& key.len() > 0
    &&& forall|i: int| 0 <= i < key.len() ==> #[trigger] key[i] == '_' || 'a' <= key[i] <= 'z'
}

/// The names of the fields consist of small letters and underscores.
proof fn lemma_supported_is_key(key: Seq<char>)
    requires
        front_matter::is_supported(key),
    ensures
        is_key(key),
{
    reveal_strlit("id");
    reveal_strlit("workspace_id");
    reveal_strlit("workspace_source");
    reveal_strlit("workspace_path");
    reveal_strlit("workspace_display_name");
    reveal_strlit("title");
    reveal_strlit("priority");
    reveal_strlit("agent_kind");
    reveal_strlit("status");
    reveal_strlit("terminal_pane_id");
    reveal_strlit("attention_reason");
    reveal_strlit("created_at_ms");
    reveal_strlit("updated_at_ms");
    reveal_strlit("schema_version");
}

/// The names of the fields, and of the list of attachments, differ in their
/// length or their first letter.
proof fn lemma_keys_differ()
    ensures
        "id"@.len() == 2,
        "workspace_id"@.len() == 12,
        "workspace_source"@.len() == 16 && "workspace_source"@[0] == 'w',
        "workspace_path"@.len() == 14 && "workspace_path"@[0] == 'w',
        "workspace_display_name"@.len() == 22,
        "title"@.len() == 5,
        "priority"@.len() == 8,
        "agent_kind"@.len() == 10,
        "status"@.len() == 6,
        "terminal_pane_id"@.len() == 16 && "terminal_pane_id"@[0] == 't',
        "attention_reason"@.len() == 16 && "attention_reason"@[0] == 'a',
        "created_at_ms"@.len() == 13 && "created_at_ms"@[0] == 'c',
        "updated_at_ms"@.len() == 13 && "updated_at_ms"@[0] == 'u',
        "schema_version"@.len() == 14 && "schema_version"@[0] == 's',
        "attachments"@.len() == 11,
{
    reveal_strlit("id");
    reveal_strlit("workspace_id");
    reveal_strlit("workspace_source");
    reveal_strlit("workspace_path");
    reveal_strlit("workspace_display_name");
    reveal_strlit("title");
    reveal_strlit("priority");
    reveal_strlit("agent_kind");
    reveal_strlit("status");
    reveal_strlit("terminal_pane_id");
    reveal_strlit("attention_reason");
    reveal_strlit("created_at_ms");
    reveal_strlit("updated_at_ms");
    reveal_strlit("schema_version");
    reveal_strlit("attachments");
}

/// A line that may stand in a front matter: one line, and not the delimiter.
pub open spec fn is_plain_line(line: Seq<char>) -> bool {
    &&& is_one_line(line)
    &&& line.len() > 0
    &&& line[0] != '-'
}

proof fn lemma_field_line(key: Seq<char>, value: Seq<char>)
    requires
        front_matter::is_supported(key),
        is_one_line(value),
    ensures
        is_plain_line(front_matter::field_line(key, value)),
{
    lemma_supported_is_key(key);
    reveal_strlit(": ");
    let line = front_matter::field_line(key, value);
    assert(line[0] == key[0]);
    assert forall|i: int| 0 <= i < line.len() implies #[trigger] line[i] != '\n' && line[i]
        != '\r' by {
        if i < key.len() {
            assert(line[i] == key[i]);
        } else if i >= key.len() + 2 {
            assert(line[i] == value[i - key.len() - 2]);
        } else {
            assert(line[i] == ": "@[i - key.len()]);
        }
    }
}

proof fn lemma_item_line(value: Seq<char>)
    requires
        is_one_line(value),
    ensures
        is_plain_line(front_matter::item_line(value)),
        text::strip_prefix(front_matter::item_line(value), "  - "@) == Some(value),
{
    reveal_strlit("  - ");
    let line = front_matter::item_line(value);
    assert(line.subrange(0, 4) =~= "  - "@);
    assert(line.skip(4) =~= value);
    assert forall|i: int| 0 <= i < line.len() implies #[trigger] line[i] != '\n' && line[i]
        != '\r' by {
        if i >= 4 {
            assert(line[i] == value[i - 4]);
        } else {
            assert(line[i] == "  - "@[i]);
        }
    }
}

/// The first line of a text that is made of lines.
proof fn lemma_first_line(lines: Seq<Seq<char>>)
    requires
        lines.len() > 0,
    ensures
        markdown::text_of_lines(lines) == lines[0].push('\n') + markdown::text_of_lines(
            lines.skip(1),
        ),
    decreases lines.len(),
{
    if lines.len() == 1 {
        assert(lines.drop_last() =~= Seq::empty());
        assert(lines.skip(1) =~= Seq::empty());
        assert(markdown::text_of_lines(lines) =~= lines[0].push('\n') + markdown::text_of_lines(
            lines.skip(1),
        ));
    } else {
        lemma_first_line(lines.drop_last());
        assert(lines.drop_last().skip(1) =~= lines.skip(1).drop_last());
        assert(markdown::text_of_lines(lines) =~= lines[0].push('\n') + markdown::text_of_lines(
            lines.skip(1),
        ));
    }
}

/// The lines of a text that is made of lines are those lines.
proof fn lemma_lines_of(lines: Seq<Seq<char>>)
    requires
        lines.len() > 0,
        forall|i: int| 0 <= i < lines.len() ==> is_plain_line(#[trigger] lines[i]),
    ensures
        markdown::text_of_lines(lines).len() > 0,
        text::lines(markdown::text_of_lines(lines).drop_last()) == lines,
    decreases lines.len(),
{
    let whole = markdown::text_of_lines(lines);
    let first = lines[0];
    assert(is_plain_line(first));
    lemma_first_line(lines);
    if lines.len() == 1 {
        assert(lines.skip(1) =~= Seq::empty());
        assert(whole.drop_last() =~= first);
        text::lemma_line_end(first, 0);
        assert(text::lines(first) =~= lines);
    } else {
        let rest = lines.skip(1);
        let after = markdown::text_of_lines(rest);
        assert forall|i: int| 0 <= i < rest.len() implies is_plain_line(#[trigger] rest[i]) by {
            assert(rest[i] == lines[i + 1]);
        }
        lemma_lines_of(rest);
        let shown = whole.drop_last();
        assert(shown =~= first.push('\n') + after.drop_last());
        assert forall|j: int| 0 <= j < first.len() implies shown[j] != '\n' by {
            assert(shown[j] == first[j]);
        }
        text::lemma_line_end_is(shown, 0, first.len() as int);
        assert(shown.take(first.len() as int) =~= first);
        assert(shown.skip(first.len() as int + 1) =~= after.drop_last());
        assert(text::lines(shown) =~= seq![first] + rest);
        assert(seq![first] + rest =~= lines);
    }
}

/// What separates the front matter from the description.
spec fn delimiter() -> Seq<char> {
    "\n---\n"@
}

/// The delimiter does not stand within the front matter.
proof fn lemma_no_early_delimiter(lines: Seq<Seq<char>>, tail: Seq<char>, at: int)
    requires
        lines.len() > 0,
        forall|i: int| 0 <= i < lines.len() ==> is_plain_line(#[trigger] lines[i]),
        0 <= at < markdown::text_of_lines(lines).len() - 1,
    ensures
        !text::occurs_at(markdown::text_of_lines(lines) + tail, delimiter(), at),
    decreases lines.len(),
{
    reveal_strlit("\n---\n");
    let whole = markdown::text_of_lines(lines) + tail;
    let first = lines[0];
    assert(is_plain_line(first));
    let rest = lines.skip(1);
    let after = markdown::text_of_lines(rest) + tail;
    lemma_first_line(lines);
    assert(whole =~= first.push('\n') + after);
    if text::occurs_at(whole, delimiter(), at) {
        let found = whole.subrange(at, at + 5);
        assert(found[0] == '\n' && found[1] == '-');
        assert(whole[at] == '\n' && whole[at + 1] == '-');
        if at < first.len() {
            assert(whole[at] == first[at]);
        } else if at == first.len() {
            if rest.len() > 0 {
                assert(is_plain_line(lines[1]));
                lemma_first_line(rest);
                assert(after[0] == lines[1][0]);
                assert(whole[at + 1] == after[0]);
            } else {
                assert(rest =~= Seq::empty());
            }
        } else {
            if rest.len() == 0 {
                assert(rest =~= Seq::empty());
            }
            assert forall|i: int| 0 <= i < rest.len() implies is_plain_line(#[trigger] rest[i]) by {
                assert(rest[i] == lines[i + 1]);
            }
            let moved = at - first.len() - 1;
            assert(after.subrange(moved, moved + 5) =~= found);
            lemma_no_early_delimiter(rest, tail, moved);
        }
    }
}

/// The parts of a file that is made of lines, the delimiter and a description.
proof fn lemma_file_parts(lines: Seq<Seq<char>>, description: Seq<char>)
    requires
        lines.len() > 0,
        forall|i: int| 0 <= i < lines.len() ==> is_plain_line(#[trigger] lines[i]),
    ensures
        markdown::file_parts(
            "---\n"@ + markdown::text_of_lines(lines) + "---\n"@ + description,
        ) == Some((markdown::text_of_lines(lines).drop_last(), description)),
{
    reveal_strlit("---\n");
    reveal_strlit("\n---\n");
    let front = markdown::text_of_lines(lines);
    let contents = "---\n"@ + front + "---\n"@ + description;
    let tail = "---\n"@ + description;
    assert(contents.subrange(0, 4) =~= "---\n"@);
    assert(contents.skip(4) =~= front + tail);
    lemma_lines_of(lines);
    assert(front.last() == '\n');
    let at = front.len() as int - 1;
    assert((front + tail).subrange(at, at + 5) =~= "\n---\n"@);
    assert forall|j: int| 0 <= j < at implies !text::occurs_at(front + tail, "\n---\n"@, j) by {
        lemma_no_early_delimiter(lines, tail, j);
    }
    text::lemma_find_first(front + tail, "\n---\n"@, 0, at);
    assert((front + tail).take(at) =~= front.drop_last());
    assert((front + tail).skip(at + 5) =~= description);
}

/// A field that is read from its line.
proof fn lemma_read_field(before: Reading, key: Seq<char>, value: Seq<char>)
    requires
        front_matter::is_supported(key),
        !before.listing,
        !before.matter.fields.contains_key(key),
    ensures
        front_matter::read_line(before, front_matter::field_line(key, value)) == Ok::<
            Reading,
            Seq<char>,
        >(
            Reading {
                matter: FrontMatterView {
                    fields: before.matter.fields.insert(key, value),
                    ..before.matter
                },
                listing: false,
            },
        ),
{
    reveal_strlit(": ");
    reveal_strlit("attachments:");
    lemma_supported_is_key(key);
    let line = front_matter::field_line(key, value);
    let at = key.len() as int;
    assert(line[at] == ':');
    assert(line.subrange(at, at + 2) =~= ": "@);
    if line == "attachments:"@ {
        assert(at == 11);
        assert(line.len() == 12);
    }
    assert forall|j: int| 0 <= j < at implies !text::occurs_at(line, ": "@, j) by {
        if text::occurs_at(line, ": "@, j) {
            assert(line.subrange(j, j + 2)[0] == ':');
            assert(line[j] == key[j]);
        }
    }
    text::lemma_find_first(line, ": "@, 0, at);
    assert(line.take(at) =~= key);
    assert(line.skip(at + 2) =~= value);
}

/// The fields of a task file, as they are written.
pub open spec fn written_fields(task: TaskView, workspace: TaskWorkspaceView) -> Map<
    Seq<char>,
    Seq<char>,
> {
    Map::empty().insert("id"@, outside::json_string(task.id)).insert(
        "workspace_id"@,
        outside::json_string(workspace.id),
    ).insert(
        "workspace_source"@,
        outside::json_string(workspace.source.storage_name_spec()),
    ).insert(
        "workspace_path"@,
        outside::json_string(outside::shown_text(workspace.path)),
    ).insert(
        "workspace_display_name"@,
        outside::json_string(workspace.display_name),
    ).insert("title"@, outside::json_string(task.title)).insert(
        "priority"@,
        outside::json_string(markdown::priority_text(task.priority)),
    ).insert(
        "agent_kind"@,
        outside::json_string(markdown::agent_kind_text(task.agent_kind)),
    ).insert("status"@, outside::json_string(markdown::status_text(task.status))).insert(
        "terminal_pane_id"@,
        markdown::quoted_or_null(task.terminal_pane_id),
    ).insert("attention_reason"@, markdown::quoted_or_null(task.attention_reason)).insert(
        "created_at_ms"@,
        numbers::decimal(task.created_at_ms as nat),
    ).insert("updated_at_ms"@, numbers::decimal(task.updated_at_ms as nat)).insert(
        "schema_version"@,
        "1"@,
    )
}

/// One more field, which is the next line.
proof fn lemma_read_next_field(
    lines: Seq<Seq<char>>,
    n: int,
    fields: Map<Seq<char>, Seq<char>>,
    key: Seq<char>,
    value: Seq<char>,
)
    requires
        0 <= n < lines.len(),
        lines[n] == front_matter::field_line(key, value),
        front_matter::is_supported(key),
        !fields.contains_key(key),
        front_matter::read_lines(lines.take(n)) == Ok::<Reading, Seq<char>>(
            Reading {
                matter: FrontMatterView { fields, attachments: Seq::empty() },
                listing: false,
            },
        ),
    ensures
        front_matter::read_lines(lines.take(n + 1)) == Ok::<Reading, Seq<char>>(
            Reading {
                matter: FrontMatterView {
                    fields: fields.insert(key, value),
                    attachments: Seq::empty(),
                },
                listing: false,
            },
        ),
{
    front_matter::lemma_read_next(lines, n);
    lemma_read_field(
        Reading { matter: FrontMatterView { fields, attachments: Seq::empty() }, listing: false },
        key,
        value,
    );
}

/// The fields of a task file are read as they were written.
proof fn lemma_read_fields(task: TaskView, workspace: TaskWorkspaceView)
    ensures
        front_matter::read_lines(markdown::field_lines(task, workspace)) == Ok::<
            Reading,
            Seq<char>,
        >(
            Reading {
                matter: FrontMatterView {
                    fields: written_fields(task, workspace).insert("attachments"@, Seq::empty()),
                    attachments: Seq::empty(),
                },
                listing: true,
            },
        ),
{
    lemma_keys_differ();
    let lines = markdown::field_lines(task, workspace);
    let m0: Map<Seq<char>, Seq<char>> = Map::empty();
    assert(lines.take(0) =~= Seq::empty());
    let v0 = outside::json_string(task.id);
    lemma_read_next_field(lines, 0, m0, "id"@, v0);
    let m1 = m0.insert("id"@, v0);
    let v1 = outside::json_string(workspace.id);
    lemma_read_next_field(lines, 1, m1, "workspace_id"@, v1);
    let m2 = m1.insert("workspace_id"@, v1);
    let v2 = outside::json_string(workspace.source.storage_name_spec());
    lemma_read_next_field(lines, 2, m2, "workspace_source"@, v2);
    let m3 = m2.insert("workspace_source"@, v2);
    let v3 = outside::json_string(outside::shown_text(workspace.path));
    lemma_read_next_field(lines, 3, m3, "workspace_path"@, v3);
    let m4 = m3.insert("workspace_path"@, v3);
    let v4 = outside::json_string(workspace.display_name);
    lemma_read_next_field(lines, 4, m4, "workspace_display_name"@, v4);
    let m5 = m4.insert("workspace_display_name"@, v4);
    let v5 = outside::json_string(task.title);
    lemma_read_next_field(lines, 5, m5, "title"@, v5);
    let m6 = m5.insert("title"@, v5);
    let v6 = outside::json_string(markdown::priority_text(task.priority));
    lemma_read_next_field(lines, 6, m6, "priority"@, v6);
    let m7 = m6.insert("priority"@, v6);
    let v7 = outside::json_string(markdown::agent_kind_text(task.agent_kind));
    lemma_read_next_field(lines, 7, m7, "agent_kind"@, v7);
    let m8 = m7.insert("agent_kind"@, v7);
    let v8 = outside::json_string(markdown::status_text(task.status));
    lemma_read_next_field(lines, 8, m8, "status"@, v8);
    let m9 = m8.insert("status"@, v8);
    let v9 = markdown::quoted_or_null(task.terminal_pane_id);
    lemma_read_next_field(lines, 9, m9, "terminal_pane_id"@, v9);
    let m10 = m9.insert("terminal_pane_id"@, v9);
    let v10 = markdown::quoted_or_null(task.attention_reason);
    lemma_read_next_field(lines, 10, m10, "attention_reason"@, v10);
    let m11 = m10.insert("attention_reason"@, v10);
    let v11 = numbers::decimal(task.created_at_ms as nat);
    lemma_read_next_field(lines, 11, m11, "created_at_ms"@, v11);
    let m12 = m11.insert("created_at_ms"@, v11);
    let v12 = numbers::decimal(task.updated_at_ms as nat);
    lemma_read_next_field(lines, 12, m12, "updated_at_ms"@, v12);
    let m13 = m12.insert("updated_at_ms"@, v12);
    lemma_read_next_field(lines, 13, m13, "schema_version"@, "1"@);
    front_matter::lemma_read_next(lines, 14);
    assert(lines.take(15) =~= lines);
}

/// The texts that refer to attachments.
pub open spec fn references(attachments: Seq<AttachmentView>) -> Seq<Seq<char>> {
    attachments.map_values(|attachment: AttachmentView| outside::shown_text(attachment.path))
}

/// The attachments of a task file are read as they were written.
proof fn lemma_read_attachments(
    task: TaskView,
    workspace: TaskWorkspaceView,
    attachments: Seq<AttachmentView>,
)
    ensures
        front_matter::read_lines(
            markdown::field_lines(task, workspace) + markdown::attachment_lines(attachments),
        ) == Ok::<Reading, Seq<char>>(
            Reading {
                matter: FrontMatterView {
                    fields: written_fields(task, workspace).insert("attachments"@, Seq::empty()),
                    attachments: references(attachments),
                },
                listing: true,
            },
        ),
    decreases attachments.len(),
{
    let fields = markdown::field_lines(task, workspace);
    let lines = fields + markdown::attachment_lines(attachments);
    if attachments.len() == 0 {
        lemma_read_fields(task, workspace);
        assert(lines =~= fields);
        assert(references(attachments) =~= Seq::empty());
    } else {
        let before = attachments.drop_last();
        lemma_read_attachments(task, workspace, before);
        assert(lines.drop_last() =~= fields + markdown::attachment_lines(before));
        let last = outside::shown_text(attachments.last().path);
        assert(lines.last() == front_matter::item_line(outside::json_string(last)));
        lemma_json_string_one_line(last);
        lemma_item_line(outside::json_string(last));
        outside::law_json_round_trip(last);
        assert(references(attachments) =~= references(before).push(last));
    }
}

/// What a task file can hold of a task without loss: where it belongs, with a
/// path that is text, and attachments that are only referred to, by text.
pub open spec fn is_storable(task: TaskView) -> bool {
    &&& task.workspace is Some
    &&& task.workspace->0.id == task.workspace_id
    &&& valid_utf8(task.workspace->0.path)
    &&& forall|i: int|
        0 <= i < task.attachments.len() ==> is_plain_reference(#[trigger] task.attachments[i])
}

/// Whether an attachment is only referred to, by a path that is text.
pub open spec fn is_plain_reference(attachment: AttachmentView) -> bool {
    &&& valid_utf8(attachment.path)
    &&& attachment.file_name is None
    &&& attachment.contents is None
}

/// References that a task file may hold are read as the attachments they are for.
proof fn lemma_referenced(attachments: Seq<AttachmentView>)
    requires
        forall|i: int|
            0 <= i < attachments.len() ==> is_plain_reference(#[trigger] attachments[i]),
        markdown::first_refused(attachments) is None,
    ensures
        markdown::referenced(references(attachments)) == Ok::<Seq<AttachmentView>, Seq<char>>(
            attachments,
        ),
    decreases attachments.len(),
{
    broadcast use decode_utf8_encode_utf8;

    let all = references(attachments);
    if attachments.len() == 0 {
        assert(attachments =~= Seq::empty());
    } else {
        let before = attachments.drop_last();
        assert forall|i: int| 0 <= i < before.len() implies is_plain_reference(
            #[trigger] before[i],
        ) by {
            assert(before[i] == attachments[i]);
        }
        lemma_referenced(before);
        assert(all.drop_last() =~= references(before));
        let last = attachments.last();
        assert(is_plain_reference(last));
        assert(all.last() == outside::shown_text(last.path));
        assert(encode_utf8(decode_utf8(last.path)) == last.path);
        assert(before.push(last) =~= attachments);
    }
}

/// Every line of a written front matter is one line and not the delimiter.
proof fn lemma_plain_lines(task: TaskView, workspace: TaskWorkspaceView)
    ensures
        forall|i: int|
            0 <= i < markdown::field_lines(task, workspace).len() ==> is_plain_line(
                #[trigger] markdown::field_lines(task, workspace)[i],
            ),
{
    let lines = markdown::field_lines(task, workspace);
    let source = workspace.source.storage_name_spec();
    let shown = outside::shown_text(workspace.path);
    let priority = markdown::priority_text(task.priority);
    let agent = markdown::agent_kind_text(task.agent_kind);
    let status = markdown::status_text(task.status);
    lemma_json_string_one_line(task.id);
    lemma_field_line("id"@, outside::json_string(task.id));
    lemma_json_string_one_line(workspace.id);
    lemma_field_line("workspace_id"@, outside::json_string(workspace.id));
    lemma_json_string_one_line(source);
    lemma_field_line("workspace_source"@, outside::json_string(source));
    lemma_json_string_one_line(shown);
    lemma_field_line("workspace_path"@, outside::json_string(shown));
    lemma_json_string_one_line(workspace.display_name);
    lemma_field_line("workspace_display_name"@, outside::json_string(workspace.display_name));
    lemma_json_string_one_line(task.title);
    lemma_field_line("title"@, outside::json_string(task.title));
    lemma_json_string_one_line(priority);
    lemma_field_line("priority"@, outside::json_string(priority));
    lemma_json_string_one_line(agent);
    lemma_field_line("agent_kind"@, outside::json_string(agent));
    lemma_json_string_one_line(status);
    lemma_field_line("status"@, outside::json_string(status));
    lemma_optional_one_line(task.terminal_pane_id);
    lemma_field_line("terminal_pane_id"@, markdown::quoted_or_null(task.terminal_pane_id));
    lemma_optional_one_line(task.attention_reason);
    lemma_field_line("attention_reason"@, markdown::quoted_or_null(task.attention_reason));
    lemma_decimal_one_line(task.created_at_ms as nat);
    lemma_field_line("created_at_ms"@, numbers::decimal(task.created_at_ms as nat));
    lemma_decimal_one_line(task.updated_at_ms as nat);
    lemma_field_line("updated_at_ms"@, numbers::decimal(task.updated_at_ms as nat));
    reveal_strlit("1");
    lemma_field_line("schema_version"@, "1"@);
    reveal_strlit("attachments:");
    assert(is_plain_line("attachments:"@));
}

proof fn lemma_optional_one_line(value: Option<Seq<char>>)
    ensures
        is_one_line(markdown::quoted_or_null(value)),
{
    reveal_strlit("null");
    match value {
        Some(value) => lemma_json_string_one_line(value),
        None => {},
    }
}

/// An optional string is read back as it was written.
proof fn lemma_optional_round_trip(matter: FrontMatterView, key: Seq<char>, value: Option<Seq<char>>)
    requires
        matter.fields.contains_key(key),
        matter.fields[key] == markdown::quoted_or_null(value),
    ensures
        front_matter::optional_string_field(matter, key) == Ok::<Option<Seq<char>>, Seq<char>>(
            value,
        ),
{
    reveal_strlit("null");
    match value {
        Some(value) => {
            lemma_json_string_one_line(value);
            outside::law_json_round_trip(value);
            assert("null"@[0] != '"');
        },
        None => {},
    }
}

/// The fields as written make up the task.
proof fn lemma_task_from(task: TaskView)
    requires
        is_storable(task),
        markdown::first_refused(task.attachments) is None,
    ensures
        markdown::task_from(
            FrontMatterView {
                fields: written_fields(task, task.workspace->0).insert(
                    "attachments"@,
                    Seq::empty(),
                ),
                attachments: references(task.attachments),
            },
            task.description,
        ) == Ok::<TaskView, Seq<char>>(task),
{
    broadcast use decode_utf8_encode_utf8;

    let workspace = task.workspace->0;
    let matter = FrontMatterView {
        fields: written_fields(task, workspace).insert("attachments"@, Seq::empty()),
        attachments: references(task.attachments),
    };
    lemma_keys_differ();
    let source = workspace.source.storage_name_spec();
    let shown = outside::shown_text(workspace.path);
    outside::law_json_round_trip(task.id);
    outside::law_json_round_trip(workspace.id);
    outside::law_json_round_trip(source);
    workspace::law_source_name_round_trip(workspace.source);
    outside::law_json_round_trip(shown);
    assert(encode_utf8(decode_utf8(workspace.path)) == workspace.path);
    outside::law_json_round_trip(workspace.display_name);
    outside::law_json_round_trip(task.title);
    outside::law_json_round_trip(markdown::priority_text(task.priority));
    markdown::law_priority_round_trip(task.priority);
    outside::law_json_round_trip(markdown::agent_kind_text(task.agent_kind));
    markdown::law_agent_kind_round_trip(task.agent_kind);
    outside::law_json_round_trip(markdown::status_text(task.status));
    markdown::law_status_round_trip(task.status);
    numbers::law_decimal_round_trip(task.created_at_ms);
    numbers::law_decimal_round_trip(task.updated_at_ms);
    lemma_referenced(task.attachments);
    assert(matter.fields["terminal_pane_id"@] == markdown::quoted_or_null(task.terminal_pane_id));
    lemma_optional_round_trip(matter, "terminal_pane_id"@, task.terminal_pane_id);
    assert(matter.fields["attention_reason"@] == markdown::quoted_or_null(task.attention_reason));
    lemma_optional_round_trip(matter, "attention_reason"@, task.attention_reason);
}

/// A task that a file can hold without loss, and that was written, is read back
/// as it was. In particular no text of the task, whatever it holds, can end the
/// front matter early or add a field to it.
pub proof fn law_task_round_trip(task: TaskView, contents: Seq<char>)
    requires
        is_storable(task),
        markdown::rendered(task) == Ok::<Seq<char>, crate::store_error::StoreErrorView>(contents),
    ensures
        markdown::parsed_task(contents) == Ok::<TaskView, Seq<char>>(task),
{
    let workspace = task.workspace->0;
    let fields = markdown::field_lines(task, workspace);
    let items = markdown::attachment_lines(task.attachments);
    let lines = fields + items;
    lemma_plain_lines(task, workspace);
    assert forall|i: int| 0 <= i < lines.len() implies is_plain_line(#[trigger] lines[i]) by {
        if i < fields.len() {
            assert(lines[i] == fields[i]);
        } else {
            let attachment = task.attachments[i - fields.len()];
            assert(lines[i] == markdown::attachment_line(attachment));
            lemma_json_string_one_line(outside::shown_text(attachment.path));
            lemma_item_line(outside::json_string(outside::shown_text(attachment.path)));
        }
    }
    lemma_file_parts(lines, task.description);
    lemma_lines_of(lines);
    lemma_read_attachments(task, workspace, task.attachments);
    lemma_task_from(task);
}

/// What a stored task is read back as: the path of its workspace is stored as
/// text, and what is not text in it is lost.
pub open spec fn read_back(task: TaskView) -> TaskView {
    match task.workspace {
        Some(workspace) => TaskView {
            workspace: Some(
                TaskWorkspaceView {
                    path: encode_utf8(outside::shown_text(workspace.path)),
                    ..workspace
                },
            ),
            ..task
        },
        None => task,
    }
}

/// What is written of a task is read back as that task, but for what is not text
/// in the path of its workspace.
pub proof fn law_task_reads_back(task: TaskView, contents: Seq<char>)
    requires
        task.workspace is Some,
        task.workspace->0.id == task.workspace_id,
        forall|i: int|
            0 <= i < task.attachments.len() ==> is_plain_reference(#[trigger] task.attachments[i]),
        markdown::rendered(task) == Ok::<Seq<char>, crate::store_error::StoreErrorView>(contents),
    ensures
        markdown::parsed_task(contents) == Ok::<TaskView, Seq<char>>(read_back(task)),
        valid_utf8(task.workspace->0.path) ==> read_back(task) == task,
{
    broadcast use {encode_utf8_valid_utf8, encode_utf8_decode_utf8, decode_utf8_encode_utf8};

    let workspace = task.workspace->0;
    let shown = outside::shown_text(workspace.path);
    let other = read_back(task);
    assert(valid_utf8(encode_utf8(shown)));
    assert(decode_utf8(encode_utf8(shown)) == shown);
    assert(markdown::field_lines(other, other.workspace->0) =~= markdown::field_lines(
        task,
        workspace,
    ));
    law_task_round_trip(other, contents);
}

} // verus!
