//! The front matter of a task file: fields in the form `key: value`, and a list
//! of attachments.
use vstd::prelude::*;
use vstd::string::*;

use crate::numbers;
use crate::numbers::parse_decimal;
use crate::outside;
use crate::outside::text_of_json;
use crate::path::LocalPath;
use crate::store_error::{invalid, with_debug, StoreErrorView, TaskStoreError};
use crate::text;
use crate::text::{same_text, split_text_once, strip_text_prefix, text_lines};
use crate::views;

verus! {

/// The fields that a task file may have.
pub open spec fn is_supported(field: Seq<char>) -> bool {
    ||| field == "id"@
    ||| field == "workspace_id"@
    ||| field == "workspace_source"@
    ||| field == "workspace_path"@
    ||| field == "workspace_display_name"@
    ||| field == "title"@
    ||| field == "priority"@
    ||| field == "agent_kind"@
    ||| field == "status"@
    ||| field == "terminal_pane_id"@
    ||| field == "attention_reason"@
    ||| field == "created_at_ms"@
    ||| field == "updated_at_ms"@
    ||| field == "schema_version"@
}

/// Whether a task file may have a field.
pub fn is_supported_field(field: &str) -> (supported: bool)
    ensures
        supported == is_supported(field@),
{
    same_text(field, "id") || same_text(field, "workspace_id") || same_text(
        field,
        "workspace_source",
    ) || same_text(field, "workspace_path") || same_text(field, "workspace_display_name")
        || same_text(field, "title") || same_text(field, "priority") || same_text(
        field,
        "agent_kind",
    ) || same_text(field, "status") || same_text(field, "terminal_pane_id") || same_text(
        field,
        "attention_reason",
    ) || same_text(field, "created_at_ms") || same_text(field, "updated_at_ms") || same_text(
        field,
        "schema_version",
    )
}

/// One field as it stands in a line.
pub open spec fn field_line(key: Seq<char>, value: Seq<char>) -> Seq<char> {
    key + ": "@ + value
}

/// One attachment as it stands in a line.
pub open spec fn item_line(value: Seq<char>) -> Seq<char> {
    "  - "@ + value
}

/// What stands in a front matter: the text of each field, and the attachments.
pub struct FrontMatter {
    pub fields: Vec<(String, String)>,
    pub attachments: Vec<String>,
}

/// What stands in a front matter: the text of each field, and the attachments.
/// That there was a list of attachments is noted as a field without text.
pub ghost struct FrontMatterView {
    pub fields: Map<Seq<char>, Seq<char>>,
    pub attachments: Seq<Seq<char>>,
}

/// The last text for each key.
pub open spec fn field_map(fields: Seq<(String, String)>) -> Map<Seq<char>, Seq<char>>
    decreases fields.len(),
{
    if fields.len() == 0 {
        Map::empty()
    } else {
        field_map(fields.drop_last()).insert(fields.last().0@, fields.last().1@)
    }
}

impl View for FrontMatter {
    type V = FrontMatterView;

    open spec fn view(&self) -> FrontMatterView {
        FrontMatterView {
            fields: field_map(self.fields@),
            attachments: views::views(self.attachments@),
        }
    }
}

impl Default for FrontMatter {
    fn default() -> (matter: FrontMatter)
        ensures
            matter@ == (FrontMatterView { fields: Map::empty(), attachments: Seq::empty() }),
    {
        let matter = FrontMatter { fields: Vec::new(), attachments: Vec::new() };
        assert(matter@.attachments =~= Seq::empty());
        matter
    }
}

impl FrontMatter {
    /// The text of a field.
    pub fn get(&self, key: &str) -> (value: Option<&String>)
        ensures
            match value {
                Some(value) => self@.fields.contains_key(key@) && self@.fields[key@] == value@,
                None => !self@.fields.contains_key(key@),
            },
    {
        let mut i: usize = self.fields.len();
        assert(self.fields@.take(i as int) =~= self.fields@);
        while i > 0
            invariant
                i <= self.fields@.len(),
                field_map(self.fields@.take(i as int)).contains_key(key@)
                    == self@.fields.contains_key(key@),
                self@.fields.contains_key(key@) ==> field_map(self.fields@.take(i as int))[key@]
                    == self@.fields[key@],
            decreases i,
        {
            assert(self.fields@.take(i as int).drop_last() =~= self.fields@.take(i - 1));
            i -= 1;
            if same_text(self.fields[i].0.as_str(), key) {
                return Some(&self.fields[i].1);
            }
        }
        assert(self.fields@.take(0) =~= Seq::empty());
        None
    }

    /// Notes a field. Returns whether it had been noted before, in which case it
    /// has the new text.
    pub fn insert(&mut self, key: String, value: String) -> (noted: bool)
        ensures
            noted == old(self)@.fields.contains_key(key@),
            final(self)@ == (FrontMatterView {
                fields: old(self)@.fields.insert(key@, value@),
                attachments: old(self)@.attachments,
            }),
    {
        let noted = self.get(key.as_str()).is_some();
        self.fields.push((key, value));
        assert(self.fields@.drop_last() =~= old(self).fields@);
        noted
    }

    /// Notes an attachment.
    pub fn push_attachment(&mut self, attachment: String)
        ensures
            final(self)@ == (FrontMatterView {
                fields: old(self)@.fields,
                attachments: old(self)@.attachments.push(attachment@),
            }),
    {
        self.attachments.push(attachment);
        assert(self@.attachments =~= old(self)@.attachments.push(attachment@));
    }
}

/// What is read from a text that should be a quoted string, or why it is not one.
pub open spec fn quoted_text(value: Seq<char>) -> Result<Seq<char>, Seq<char>> {
    match outside::json_read(value) {
        Ok(text) => Ok(text),
        Err(error) => Err("expected a quoted string: "@ + error),
    }
}

/// A reason as the error it is for a path.
pub open spec fn at_path<T>(path: Seq<u8>, result: Result<T, Seq<char>>) -> Result<
    T,
    StoreErrorView,
> {
    match result {
        Ok(value) => Ok(value),
        Err(reason) => Err(StoreErrorView::Invalid { path, reason }),
    }
}

/// Reads a quoted string.
pub fn parse_quoted(path: &LocalPath, value: &str) -> (parsed: Result<String, TaskStoreError>)
    ensures
        views::result_view(parsed) == at_path(path@, quoted_text(value@)),
{
    match text_of_json(value) {
        Ok(text) => Ok(text),
        Err(error) => {
            let mut reason = "expected a quoted string: ".to_owned();
            reason.append(error.as_str());
            Err(invalid(path, reason.as_str()))
        },
    }
}

/// What the lines so far say, and whether the last of them belongs to the list
/// of attachments.
pub ghost struct Reading {
    pub matter: FrontMatterView,
    pub listing: bool,
}

/// What is known after one more line, or why the line is refused. Right below
/// the line `attachments:`, or another attachment, a line may be an attachment.
/// Every other line is a field, which is supported and occurs once.
pub open spec fn read_line(before: Reading, line: Seq<char>) -> Result<Reading, Seq<char>> {
    let matter = before.matter;
    let item = text::strip_prefix(line, "  - "@);
    if before.listing && item is Some {
        match quoted_text(item->0) {
            Ok(attachment) => Ok(
                Reading {
                    matter: FrontMatterView {
                        attachments: matter.attachments.push(attachment),
                        ..matter
                    },
                    listing: true,
                },
            ),
            Err(reason) => Err(reason),
        }
    } else if line == "attachments:"@ {
        if matter.fields.contains_key("attachments"@) {
            Err("duplicate attachments field"@)
        } else {
            Ok(
                Reading {
                    matter: FrontMatterView {
                        fields: matter.fields.insert("attachments"@, Seq::empty()),
                        ..matter
                    },
                    listing: true,
                },
            )
        }
    } else {
        match text::split_once(line, ": "@) {
            None => Err("front matter fields must use `key: value`"@),
            Some((key, value)) => if !is_supported(key) {
                Err("unsupported front matter field "@ + outside::debug_text(key))
            } else if matter.fields.contains_key(key) {
                Err("duplicate front matter field "@ + outside::debug_text(key))
            } else {
                Ok(
                    Reading {
                        matter: FrontMatterView {
                            fields: matter.fields.insert(key, value),
                            ..matter
                        },
                        listing: false,
                    },
                )
            },
        }
    }
}

/// What is known after all lines, or why the first refused one is refused.
pub open spec fn read_lines(lines: Seq<Seq<char>>) -> Result<Reading, Seq<char>>
    decreases lines.len(),
{
    if lines.len() == 0 {
        Ok(
            Reading {
                matter: FrontMatterView { fields: Map::empty(), attachments: Seq::empty() },
                listing: false,
            },
        )
    } else {
        match read_lines(lines.drop_last()) {
            Ok(before) => read_line(before, lines.last()),
            Err(reason) => Err(reason),
        }
    }
}

/// What a front matter says, or why it is refused.
pub open spec fn front_matter(source: Seq<char>) -> Result<FrontMatterView, Seq<char>> {
    match read_lines(text::lines(source)) {
        Ok(reading) => Ok(reading.matter),
        Err(reason) => Err(reason),
    }
}

/// A refused line decides, whatever follows it.
proof fn lemma_refused(lines: Seq<Seq<char>>, n: int)
    requires
        0 <= n <= lines.len(),
        read_lines(lines.take(n)) is Err,
    ensures
        read_lines(lines) == read_lines(lines.take(n)),
    decreases lines.len(),
{
    if n == lines.len() {
        assert(lines.take(n) =~= lines);
    } else {
        assert(lines.drop_last().take(n) =~= lines.take(n));
        lemma_refused(lines.drop_last(), n);
    }
}

/// What is known after one more line.
pub proof fn lemma_read_next(lines: Seq<Seq<char>>, n: int)
    requires
        0 <= n < lines.len(),
    ensures
        read_lines(lines.take(n + 1)) == match read_lines(lines.take(n)) {
            Ok(before) => read_line(before, lines[n]),
            Err(reason) => Err(reason),
        },
{
    assert(lines.take(n + 1).drop_last() =~= lines.take(n));
}

/// Reads a front matter.
pub fn parse_front_matter(path: &LocalPath, source: &str) -> (parsed: Result<
    FrontMatter,
    TaskStoreError,
>)
    ensures
        views::result_view(parsed) == at_path(path@, front_matter(source@)),
{
    let lines = text_lines(source);
    let ghost all = text::lines(source@);
    let mut parsed = FrontMatter::default();
    let mut listing = false;
    let mut index: usize = 0;
    assert(all.take(0) =~= Seq::empty());
    while index < lines.len()
        invariant
            index <= lines@.len(),
            all == text::lines(source@),
            all == views::views(lines@),
            read_lines(all.take(index as int)) == Ok::<Reading, Seq<char>>(
                Reading { matter: parsed@, listing },
            ),
        decreases lines@.len() - index,
    {
        let line = lines[index].as_str();
        assert(line@ == all[index as int]);
        proof {
            lemma_read_next(all, index as int);
            if read_lines(all.take(index + 1)) is Err {
                lemma_refused(all, index + 1);
            }
        }
        let item = strip_text_prefix(line, "  - ");
        if listing && item.is_some() {
            let item = item.unwrap();
            match parse_quoted(path, item.as_str()) {
                Ok(attachment) => {
                    parsed.push_attachment(attachment);
                },
                Err(error) => {
                    return Err(error);
                },
            }
        } else if same_text(line, "attachments:") {
            if parsed.insert("attachments".to_owned(), "".to_owned()) {
                return Err(invalid(path, "duplicate attachments field"));
            }
            proof {
                reveal_strlit("");
                assert(""@ =~= Seq::empty());
            }
            listing = true;
        } else {
            match split_text_once(line, ": ") {
                None => {
                    return Err(invalid(path, "front matter fields must use `key: value`"));
                },
                Some((key, value)) => {
                    if !is_supported_field(key.as_str()) {
                        let reason = with_debug("unsupported front matter field ", key.as_str());
                        return Err(invalid(path, reason.as_str()));
                    }
                    if parsed.insert(key.clone(), value) {
                        let reason = with_debug("duplicate front matter field ", key.as_str());
                        return Err(invalid(path, reason.as_str()));
                    }
                },
            }
            listing = false;
        }
        index += 1;
    }
    assert(all.take(index as int) =~= all);
    Ok(parsed)
}

/// The text of a field, or that it is missing.
pub open spec fn field(matter: FrontMatterView, key: Seq<char>) -> Result<Seq<char>, Seq<char>> {
    if matter.fields.contains_key(key) {
        Ok(matter.fields[key])
    } else {
        Err("missing required field "@ + outside::debug_text(key))
    }
}

/// The string that a field holds.
pub open spec fn string_field(matter: FrontMatterView, key: Seq<char>) -> Result<
    Seq<char>,
    Seq<char>,
> {
    match field(matter, key) {
        Ok(value) => quoted_text(value),
        Err(reason) => Err(reason),
    }
}

/// The string that a field holds, or that it holds none.
pub open spec fn optional_string_field(matter: FrontMatterView, key: Seq<char>) -> Result<
    Option<Seq<char>>,
    Seq<char>,
> {
    match field(matter, key) {
        Ok(value) => if value == "null"@ {
            Ok(None)
        } else {
            match quoted_text(value) {
                Ok(text) => Ok(Some(text)),
                Err(reason) => Err(reason),
            }
        },
        Err(reason) => Err(reason),
    }
}

/// The number that a text is, or that the field it is from holds none.
pub open spec fn number(value: Seq<char>, key: Seq<char>) -> Result<u64, Seq<char>> {
    match numbers::decimal_value(value) {
        Some(number) => Ok(number),
        None => Err(key + " must be an unsigned integer"@),
    }
}

/// The text of a field.
pub fn required_field(path: &LocalPath, matter: &FrontMatter, key: &str) -> (value: Result<
    String,
    TaskStoreError,
>)
    ensures
        views::result_view(value) == at_path(path@, field(matter@, key@)),
{
    match matter.get(key) {
        Some(value) => Ok(value.clone()),
        None => {
            let reason = with_debug("missing required field ", key);
            Err(invalid(path, reason.as_str()))
        },
    }
}

/// The string that a field holds.
pub fn required_string(path: &LocalPath, matter: &FrontMatter, key: &str) -> (value: Result<
    String,
    TaskStoreError,
>)
    ensures
        views::result_view(value) == at_path(path@, string_field(matter@, key@)),
{
    match required_field(path, matter, key) {
        Ok(value) => parse_quoted(path, value.as_str()),
        Err(error) => Err(error),
    }
}

/// The view of an optional string that was read.
pub open spec fn optional_view(value: Result<Option<String>, TaskStoreError>) -> Result<
    Option<Seq<char>>,
    StoreErrorView,
> {
    match value {
        Ok(text) => Ok(views::option_view(text)),
        Err(error) => Err(error@),
    }
}

/// The string that a field holds, where it holds one.
pub fn optional_string(path: &LocalPath, matter: &FrontMatter, key: &str) -> (value: Result<
    Option<String>,
    TaskStoreError,
>)
    ensures
        optional_view(value) == at_path(path@, optional_string_field(matter@, key@)),
{
    match matter.get(key) {
        Some(value) => {
            if same_text(value.as_str(), "null") {
                return Ok(None);
            }
            match parse_quoted(path, value.as_str()) {
                Ok(text) => Ok(Some(text)),
                Err(error) => Err(error),
            }
        },
        None => {
            let reason = with_debug("missing required field ", key);
            Err(invalid(path, reason.as_str()))
        },
    }
}

/// The view of a plain value that was read.
pub open spec fn plain_view<T>(value: Result<T, TaskStoreError>) -> Result<T, StoreErrorView> {
    match value {
        Ok(value) => Ok(value),
        Err(error) => Err(error@),
    }
}

/// Reads a number.
pub fn parse_u64(path: &LocalPath, value: &str, key: &str) -> (parsed: Result<
    u64,
    TaskStoreError,
>)
    ensures
        plain_view(parsed) == at_path(path@, number(value@, key@)),
{
    match parse_decimal(value) {
        Some(number) => Ok(number),
        None => {
            let mut reason = key.to_owned();
            reason.append(" must be an unsigned integer");
            Err(invalid(path, reason.as_str()))
        },
    }
}

/// The names of the fields that a task file has.
pub open spec fn field_names() -> Seq<Seq<char>> {
    seq![
        "id"@,
        "workspace_id"@,
        "workspace_source"@,
        "workspace_path"@,
        "workspace_display_name"@,
        "title"@,
        "priority"@,
        "agent_kind"@,
        "status"@,
        "terminal_pane_id"@,
        "attention_reason"@,
        "created_at_ms"@,
        "updated_at_ms"@,
        "schema_version"@,
    ]
}

proof fn lemma_supported(field: Seq<char>)
    ensures
        is_supported(field) <==> field_names().contains(field),
{
    let names = field_names();
    assert(names[0] == "id"@ && names[1] == "workspace_id"@ && names[2] == "workspace_source"@);
    assert(names[3] == "workspace_path"@ && names[4] == "workspace_display_name"@);
    assert(names[5] == "title"@ && names[6] == "priority"@ && names[7] == "agent_kind"@);
    assert(names[8] == "status"@ && names[9] == "terminal_pane_id"@);
    assert(names[10] == "attention_reason"@ && names[11] == "created_at_ms"@);
    assert(names[12] == "updated_at_ms"@ && names[13] == "schema_version"@);
}

/// A line with a key that starts with no space and holds no colon is that of a field.
proof fn lemma_field_is_split(key: Seq<char>, value: Seq<char>)
    requires
        key.len() > 0,
        key[0] != ' ',
        !key.contains(':'),
    ensures
        text::split_once(key + ": "@ + value, ": "@) == Some((key, value)),
        text::strip_prefix(key + ": "@ + value, "  - "@) is None,
        key + ": "@ + value != "attachments:"@,
{
    reveal_strlit(": ");
    reveal_strlit("  - ");
    reveal_strlit("attachments:");
    let line = key + ": "@ + value;
    let at = key.len() as int;
    assert(": "@.len() == 2 && ": "@[0] == ':' && ": "@[1] == ' ');
    assert(line.subrange(at, at + 2) =~= ": "@);
    assert forall|j: int| 0 <= j < at implies !text::occurs_at(line, ": "@, j) by {
        if text::occurs_at(line, ": "@, j) {
            assert(line.subrange(j, j + 2)[0] == ':');
            assert(key[j] == ':');
            assert(key.contains(key[j]));
        }
    }
    text::lemma_find_first(line, ": "@, 0, at);
    assert(line.take(at) =~= key);
    assert(line.skip(at + 2) =~= value);
    if text::occurs_at(line, "  - "@, 0) {
        assert(line.subrange(0, 4)[0] == ' ');
        assert(line[0] == key[0]);
    }
    if line == "attachments:"@ {
        assert(line[at + 1] == ' ');
        assert(0 <= at + 1 < 12);
    }
}

/// Where a line is refused whatever stood before it, the whole is refused.
proof fn lemma_line_is_refused(lines: Seq<Seq<char>>, n: int)
    requires
        0 <= n < lines.len(),
        forall|before: Reading|
            read_lines(lines.take(n)) == Ok::<Reading, Seq<char>>(before) ==> #[trigger] read_line(
                before,
                lines[n],
            ) is Err,
    ensures
        read_lines(lines) is Err,
{
    lemma_read_next(lines, n);
    lemma_refused(lines, n + 1);
}

/// A field that is not known is refused, wherever it stands.
pub proof fn law_unknown_field_is_refused(
    lines: Seq<Seq<char>>,
    n: int,
    key: Seq<char>,
    value: Seq<char>,
)
    requires
        0 <= n < lines.len(),
        lines[n] == key + ": "@ + value,
        key.len() > 0,
        key[0] != ' ',
        !key.contains(':'),
        !field_names().contains(key),
    ensures
        read_lines(lines) is Err,
{
    lemma_supported(key);
    lemma_field_is_split(key, value);
    lemma_line_is_refused(lines, n);
}

proof fn lemma_field_stays(lines: Seq<Seq<char>>, i: int, m: int, key: Seq<char>, value: Seq<char>)
    requires
        0 <= i < m <= lines.len(),
        lines[i] == key + ": "@ + value,
        key.len() > 0,
        key[0] != ' ',
        !key.contains(':'),
    ensures
        read_lines(lines.take(m)) matches Ok(reading) ==> reading.matter.fields.contains_key(key),
    decreases m - i,
{
    lemma_read_next(lines, m - 1);
    if m == i + 1 {
        lemma_field_is_split(key, value);
    } else {
        lemma_field_stays(lines, i, m - 1, key, value);
    }
}

/// A field that occurs twice is refused, whatever its two values.
pub proof fn law_repeated_field_is_refused(
    lines: Seq<Seq<char>>,
    i: int,
    j: int,
    key: Seq<char>,
    first: Seq<char>,
    second: Seq<char>,
)
    requires
        0 <= i < j < lines.len(),
        lines[i] == key + ": "@ + first,
        lines[j] == key + ": "@ + second,
        key.len() > 0,
        key[0] != ' ',
        !key.contains(':'),
    ensures
        read_lines(lines) is Err,
{
    lemma_field_is_split(key, second);
    lemma_field_stays(lines, i, j, key, first);
    lemma_line_is_refused(lines, j);
}

/// A line that is neither a field nor an attachment is refused.
pub proof fn law_other_lines_are_refused(lines: Seq<Seq<char>>, n: int)
    requires
        0 <= n < lines.len(),
        lines[n] != "attachments:"@,
        forall|rest: Seq<char>| lines[n] != #[trigger] ("  - "@ + rest),
        forall|before: Seq<char>, after: Seq<char>|
            lines[n] != #[trigger] (before + ": "@ + after),
    ensures
        read_lines(lines) is Err,
{
    let line = lines[n];
    text::law_strip_prefix(line, "  - "@);
    text::law_split_once(line, ": "@);
    if text::strip_prefix(line, "  - "@) is Some {
        assert(line == "  - "@ + text::strip_prefix(line, "  - "@)->0);
    }
    if let Some((before, after)) = text::split_once(line, ": "@) {
        assert(line == before + ": "@ + after);
    }
    lemma_line_is_refused(lines, n);
}

/// A field is read as it stands behind its name, and what was read before stays.
pub proof fn law_field_is_read(before: Reading, key: Seq<char>, value: Seq<char>)
    requires
        field_names().contains(key),
        key.len() > 0,
        key[0] != ' ',
        !key.contains(':'),
        !before.matter.fields.contains_key(key),
    ensures
        read_line(before, key + ": "@ + value) matches Ok(after) && {
            &&& after.matter.fields == before.matter.fields.insert(key, value)
            &&& after.matter.attachments == before.matter.attachments
            &&& !after.listing
        },
{
    lemma_supported(key);
    lemma_field_is_split(key, value);
}

} // verus!
