//! The names under which attachments are stored.
use vstd::prelude::*;
use vstd::string::*;
use vstd::utf8::*;

use crate::order::same_bytes;
use crate::outside;
use crate::outside::lossy_text_of;
use crate::path;
use crate::path::{ComponentView, LocalPath, PathComponent};
use crate::store_error::{StoreErrorView, TaskStoreError};
use crate::task::{AttachmentView, TaskAttachment};
use crate::text;
use crate::text::{chars_of, control_char, decode_text, same_text};
use crate::views;

verus! {

/// The folder of a task that holds its attachments.
pub open spec fn attachments_directory() -> Seq<char> {
    "attachments"@
}

/// Whether a character may not stand in the name of a file or folder.
pub open spec fn is_unsafe_char(c: char) -> bool {
    c == '/' || c == '\\' || text::is_control_char(c)
}

/// Whether a text can name one file or folder: it is not empty, no reference to
/// this or the parent folder, and holds no separator and no control character.
pub open spec fn is_safe_component(value: Seq<char>) -> bool {
    &&& value.len() > 0
    &&& value != "."@
    &&& value != ".."@
    &&& forall|i: int| 0 <= i < value.len() ==> !is_unsafe_char(#[trigger] value[i])
}

/// Whether a text can name an attachment: one safe component, and as a path
/// relative and of one component.
pub open spec fn is_safe_filename(value: Seq<char>) -> bool {
    &&& is_safe_component(value)
    &&& !path::is_absolute(encode_utf8(value))
    &&& path::components(encode_utf8(value)).len() == 1
}

fn safe_component(value: &str) -> (safe: bool)
    ensures
        safe == is_safe_component(value@),
{
    if value.is_empty() || same_text(value, ".") || same_text(value, "..") {
        return false;
    }
    let chars = chars_of(value);
    let mut i: usize = 0;
    while i < chars.len()
        invariant
            i <= chars@.len(),
            chars@ == value@,
            forall|j: int| 0 <= j < i ==> !is_unsafe_char(#[trigger] value@[j]),
        decreases chars@.len() - i,
    {
        let c = chars[i];
        if c == '/' || c == '\\' || control_char(c) {
            assert(is_unsafe_char(value@[i as int]));
            return false;
        }
        i += 1;
    }
    true
}

/// Refuses a text that cannot name one folder of the store.
pub fn validate_path_component(value: &str) -> (result: Result<(), TaskStoreError>)
    ensures
        result is Ok <==> is_safe_component(value@),
        result is Err ==> result->Err_0@ == StoreErrorView::UnsafePathComponent(value@),
{
    if safe_component(value) {
        Ok(())
    } else {
        Err(TaskStoreError::UnsafePathComponent(value.to_owned()))
    }
}

/// Refuses a text that cannot name an attachment.
pub fn validate_attachment_filename(value: &str) -> (result: Result<(), TaskStoreError>)
    ensures
        result is Ok <==> is_safe_filename(value@),
        result is Err ==> result->Err_0@ == StoreErrorView::UnsafeAttachmentFilename(value@),
{
    let path = LocalPath::from_text(value);
    let steps = path.components();
    assert(path::components(encode_utf8(value@)).len() == steps@.len());
    if safe_component(value) && !path.is_absolute() && steps.len() == 1 {
        Ok(())
    } else {
        Err(TaskStoreError::UnsafeAttachmentFilename(value.to_owned()))
    }
}

/// The name that a reference to an attachment names: the second of exactly two
/// components, after the folder of attachments.
pub open spec fn referenced_name(reference: Seq<char>) -> Option<Seq<char>> {
    let steps = path::components(encode_utf8(reference));
    if steps.len() == 2 && steps[0] == ComponentView::Normal(encode_utf8(attachments_directory())) {
        match steps[1] {
            ComponentView::Normal(name) => text::decoded(name),
            _ => None,
        }
    } else {
        None
    }
}

/// Why a reference to an attachment is refused, where it is: it must name one
/// safe file in the folder of attachments.
pub open spec fn reference_error(reference: Seq<char>) -> Option<StoreErrorView> {
    match referenced_name(reference) {
        Some(name) => if is_safe_filename(name) {
            None
        } else {
            Some(StoreErrorView::UnsafeAttachmentFilename(name))
        },
        None => Some(StoreErrorView::UnsafeAttachmentFilename(reference)),
    }
}

/// Refuses a reference to anything but one safe file in the folder of
/// attachments.
pub fn validate_attachment_reference(value: &str) -> (result: Result<(), TaskStoreError>)
    ensures
        match result {
            Ok(()) => reference_error(value@) is None,
            Err(error) => reference_error(value@) == Some(error@),
        },
{
    let path = LocalPath::from_text(value);
    let steps = path.components();
    let ghost shown = path::components(encode_utf8(value@));
    assert(shown == views::views(steps@));
    if steps.len() != 2 {
        return Err(TaskStoreError::UnsafeAttachmentFilename(value.to_owned()));
    }
    assert(shown[0] == steps@[0]@);
    assert(shown[1] == steps@[1]@);
    let in_folder = match &steps[0] {
        PathComponent::Normal(name) => same_bytes(name.as_slice(), "attachments".as_bytes()),
        _ => false,
    };
    if !in_folder {
        return Err(TaskStoreError::UnsafeAttachmentFilename(value.to_owned()));
    }
    let name = match &steps[1] {
        PathComponent::Normal(name) => decode_text(name.as_slice()),
        _ => None,
    };
    match name {
        Some(name) => validate_attachment_filename(name.as_str()),
        None => Err(TaskStoreError::UnsafeAttachmentFilename(value.to_owned())),
    }
}

/// The name under which an attachment is stored: the one it was given, or the
/// one that its path ends in.
pub open spec fn stored_name(attachment: AttachmentView) -> Result<Seq<char>, StoreErrorView> {
    let name = match attachment.file_name {
        Some(name) => Some(name),
        None => match path::file_name(attachment.path) {
            Some(name) => text::decoded(name),
            None => None,
        },
    };
    match name {
        Some(name) => if is_safe_filename(name) {
            Ok(name)
        } else {
            Err(StoreErrorView::UnsafeAttachmentFilename(name))
        },
        None => Err(StoreErrorView::UnsafeAttachmentFilename(outside::shown_text(attachment.path))),
    }
}

/// The name under which an attachment is stored.
pub fn attachment_filename(attachment: &TaskAttachment) -> (name: Result<String, TaskStoreError>)
    ensures
        views::result_view(name) == stored_name(attachment@),
{
    let name = match &attachment.file_name {
        Some(name) => Some(name.clone()),
        None => match attachment.path.file_name() {
            Some(name) => decode_text(name.as_slice()),
            None => None,
        },
    };
    match name {
        Some(name) => match validate_attachment_filename(name.as_str()) {
            Ok(()) => Ok(name),
            Err(error) => Err(error),
        },
        None => Err(
            TaskStoreError::UnsafeAttachmentFilename(lossy_text_of(attachment.path.as_bytes())),
        ),
    }
}

/// A character takes one byte of its own value, or only bytes beyond ASCII.
proof fn lemma_scalar_bytes(c: char)
    ensures
        encode_scalar(c as u32).len() > 0,
        c <= '\u{7f}' ==> encode_scalar(c as u32).len() == 1 && encode_scalar(c as u32)[0] as int
            == c as int,
        c > '\u{7f}' ==> forall|i: int|
            0 <= i < encode_scalar(c as u32).len() ==> #[trigger] encode_scalar(c as u32)[i]
                >= 0x80,
{
    let scalar = c as u32;
    if scalar <= 0x7f {
        assert((scalar & 0x7f) as u8 == scalar as u8) by (bit_vector)
            requires
                scalar <= 0x7f,
        ;
    } else {
        assert(0xc0u8 | ((scalar >> 6) & 0x1f) as u8 >= 0x80u8) by (bit_vector);
        assert(0xe0u8 | ((scalar >> 12) & 0x0f) as u8 >= 0x80u8) by (bit_vector);
        assert(0xf0u8 | ((scalar >> 18) & 0x7) as u8 >= 0x80u8) by (bit_vector);
        assert(0x80u8 | (scalar & 0x3f) as u8 >= 0x80u8) by (bit_vector);
        assert(0x80u8 | ((scalar >> 6) & 0x3f) as u8 >= 0x80u8) by (bit_vector);
        assert(0x80u8 | ((scalar >> 12) & 0x3f) as u8 >= 0x80u8) by (bit_vector);
    }
}

/// The slash stands in the bytes of a text only where it stands in the text.
proof fn lemma_no_slash(value: Seq<char>)
    requires
        forall|i: int| 0 <= i < value.len() ==> #[trigger] value[i] != '/',
    ensures
        !encode_utf8(value).contains(path::SLASH),
        value.len() > 0 ==> encode_utf8(value).len() > 0,
    decreases value.len(),
{
    if value.len() > 0 {
        let rest = value.drop_first();
        let first = encode_scalar(value[0] as u32);
        lemma_scalar_bytes(value[0]);
        assert forall|i: int| 0 <= i < rest.len() implies #[trigger] rest[i] != '/' by {
            assert(rest[i] == value[i + 1]);
        }
        lemma_no_slash(rest);
        let whole = encode_utf8(value);
        assert(whole =~= first + encode_utf8(rest));
        assert(value[0] != '/');
        if whole.contains(path::SLASH) {
            let i = choose|i: int| 0 <= i < whole.len() && whole[i] == path::SLASH;
            if i < first.len() {
                assert(first[i] == path::SLASH);
                assert(value[0] == '/');
            } else {
                assert(encode_utf8(rest)[i - first.len()] == path::SLASH);
            }
        }
    }
}

/// Texts with the same bytes are the same text.
pub proof fn lemma_same_bytes(left: Seq<char>, right: Seq<char>)
    requires
        encode_utf8(left) == encode_utf8(right),
    ensures
        left == right,
{
    broadcast use encode_utf8_decode_utf8;

    assert(decode_utf8(encode_utf8(left)) == left);
    assert(decode_utf8(encode_utf8(right)) == right);
}

/// The bytes of one and of two dots, and of a slash.
proof fn lemma_dots()
    ensures
        encode_utf8("."@) == seq![path::DOT],
        encode_utf8(".."@) == seq![path::DOT, path::DOT],
        encode_utf8("/"@) == seq![path::SLASH],
{
    reveal_strlit(".");
    reveal_strlit("..");
    reveal_strlit("/");
    lemma_scalar_bytes('.');
    lemma_scalar_bytes('/');
    reveal_with_fuel(encode_utf8, 3);
    assert("."@.drop_first() =~= Seq::empty());
    assert(".."@.drop_first() =~= "."@);
    assert("/"@.drop_first() =~= Seq::empty());
    assert(encode_utf8("."@) =~= seq![path::DOT]);
    assert(encode_utf8(".."@) =~= seq![path::DOT, path::DOT]);
    assert(encode_utf8("/"@) =~= seq![path::SLASH]);
}

/// A safe name is one component of a path.
pub proof fn lemma_safe_is_proper(value: Seq<char>)
    requires
        is_safe_component(value),
    ensures
        path::proper_name(encode_utf8(value)),
{
    assert forall|i: int| 0 <= i < value.len() implies #[trigger] value[i] != '/' by {
        assert(!is_unsafe_char(value[i]));
    }
    lemma_no_slash(value);
    lemma_dots();
    if encode_utf8(value) == seq![path::DOT] {
        lemma_same_bytes(value, "."@);
    }
    if encode_utf8(value) == seq![path::DOT, path::DOT] {
        lemma_same_bytes(value, ".."@);
    }
}

/// A safe name joined to a path is one more component of it: it leads neither
/// elsewhere nor up.
pub proof fn law_safe_name_stays_below(folder: Seq<u8>, value: Seq<char>)
    requires
        is_safe_component(value),
        path::open_stem(folder),
    ensures
        path::components(path::join(folder, encode_utf8(value))) == path::components(folder).push(
            ComponentView::Normal(encode_utf8(value)),
        ),
        path::open_stem(path::join(folder, encode_utf8(value))),
{
    lemma_safe_is_proper(value);
    path::lemma_components_of_join(folder, encode_utf8(value));
    assert(path::components(folder) + seq![ComponentView::Normal(encode_utf8(value))]
        =~= path::components(folder).push(ComponentView::Normal(encode_utf8(value))));
}

/// What can name a folder of the store can name an attachment, and the other way
/// round.
pub proof fn law_safe_filename(value: Seq<char>)
    ensures
        is_safe_filename(value) <==> is_safe_component(value),
{
    if is_safe_component(value) {
        let name = encode_utf8(value);
        law_safe_name_stays_below(Seq::empty(), value);
        lemma_safe_is_proper(value);
        if path::is_absolute(name) {
            assert(name.contains(name[0]));
        }
        assert(path::join(Seq::empty(), name) =~= name);
        assert(path::components(Seq::empty()) =~= Seq::empty());
    }
}

/// The path by which a task refers to an attachment with a name.
pub open spec fn reference_path(name: Seq<char>) -> Seq<u8> {
    path::join(encode_utf8(attachments_directory()), encode_utf8(name))
}

/// A reference to an attachment with a safe name is text, is accepted, and names
/// that attachment.
pub proof fn law_reference_is_accepted(name: Seq<char>)
    requires
        is_safe_filename(name),
    ensures
        valid_utf8(reference_path(name)),
        referenced_name(outside::shown_text(reference_path(name))) == Some(name),
        reference_error(outside::shown_text(reference_path(name))) is None,
{
    broadcast use {
        encode_utf8_valid_utf8,
        encode_utf8_decode_utf8,
        decode_utf8_encode_utf8,
        valid_utf8_concat,
    };

    let folder = attachments_directory();
    let bytes = encode_utf8(folder);
    let whole = reference_path(name);
    reveal_strlit("attachments");
    assert(is_safe_component(folder)) by {
        reveal_strlit(".");
        reveal_strlit("..");
        assert("attachments"@.len() == 11);
    }
    law_safe_name_stays_below(Seq::empty(), folder);
    assert(path::join(Seq::empty(), bytes) =~= bytes);
    assert(path::components(Seq::empty()) =~= Seq::empty());
    law_safe_name_stays_below(bytes, name);
    lemma_safe_is_proper(name);
    lemma_safe_is_proper(folder);
    lemma_dots();
    let tail = encode_utf8(name);
    if path::is_absolute(tail) {
        assert(tail.contains(tail[0]));
    }
    if bytes.last() == path::SLASH {
        assert(bytes.contains(bytes[bytes.len() - 1]));
    }
    assert(whole == bytes.push(path::SLASH) + tail);
    assert(bytes.push(path::SLASH) =~= bytes + encode_utf8("/"@));
    assert(valid_utf8(bytes));
    assert(valid_utf8(encode_utf8("/"@)));
    assert(valid_utf8(bytes + encode_utf8("/"@)));
    assert(valid_utf8(tail));
    assert(valid_utf8((bytes + encode_utf8("/"@)) + tail));
    let shown = outside::shown_text(whole);
    assert(encode_utf8(shown) == whole);
    let steps = path::components(whole);
    assert(steps =~= seq![ComponentView::Normal(bytes), ComponentView::Normal(tail)]);
    assert(decode_utf8(encode_utf8(name)) == name);
}

/// Every text can name a folder of the store or an attachment that is not empty, not
/// one or two dots, and holds neither a slash nor a backslash nor a control
/// character; no other text can.
pub proof fn law_what_is_a_safe_name(value: Seq<char>)
    ensures
        is_safe_filename(value) <==> value.len() > 0 && value != seq!['.'] && value != seq![
            '.',
            '.',
        ] && forall|i: int|
            0 <= i < value.len() ==> {
                let c = #[trigger] value[i];
                &&& c != '/' && c != '\\'
                &&& ' ' <= c <= '~' || '\u{a0}' <= c
            },
        is_safe_component(value) <==> is_safe_filename(value),
{
    law_safe_filename(value);
    reveal_strlit(".");
    reveal_strlit("..");
    assert("."@ =~= seq!['.']);
    assert(".."@ =~= seq!['.', '.']);
    if is_safe_component(value) {
        assert forall|i: int| 0 <= i < value.len() implies {
            let c = #[trigger] value[i];
            &&& c != '/' && c != '\\'
            &&& ' ' <= c <= '~' || '\u{a0}' <= c
        } by {
            assert(!is_unsafe_char(value[i]));
        }
    }
}

/// An attachment with a name of its own is stored under that name, one without under
/// the name that its path ends in; a name that is not safe is refused, and so is a
/// path that ends in none.
pub proof fn law_stored_name(
    attachment: AttachmentView,
    stem: Seq<u8>,
    name: Seq<char>,
)
    requires
        attachment.file_name == Some(name) || attachment.file_name is None && attachment.path
            == path::join(stem, encode_utf8(name)) && path::open_stem(stem) && path::proper_name(
            encode_utf8(name),
        ),
    ensures
        stored_name(attachment) == if is_safe_filename(name) {
            Ok(name)
        } else {
            Err(StoreErrorView::UnsafeAttachmentFilename(name))
        },
{
    broadcast use {encode_utf8_valid_utf8, encode_utf8_decode_utf8};

    if attachment.file_name is None {
        path::law_joined_name(stem, encode_utf8(name));
        assert(valid_utf8(encode_utf8(name)));
        assert(decode_utf8(encode_utf8(name)) == name);
    }
}

/// An attachment without a name of its own and without one in its path is refused.
pub proof fn law_nameless_attachment_is_refused(attachment: AttachmentView)
    requires
        attachment.file_name is None,
        path::file_name(attachment.path) is None,
    ensures
        stored_name(attachment) is Err,
{
}

/// A task file may refer only to safe names right in its folder of attachments.
pub proof fn law_only_own_attachments_are_accepted(reference: Seq<char>)
    requires
        reference_error(reference) is None,
    ensures
        exists|name: Seq<char>|
            is_safe_filename(name) && path::components(encode_utf8(reference)) == seq![
                ComponentView::Normal(encode_utf8("attachments"@)),
                ComponentView::Normal(#[trigger] encode_utf8(name)),
            ],
{
    broadcast use decode_utf8_encode_utf8;

    let steps = path::components(encode_utf8(reference));
    let name = referenced_name(reference)->0;
    let bytes = steps[1]->Normal_0;
    assert(valid_utf8(bytes) && decode_utf8(bytes) == name);
    assert(encode_utf8(name) == bytes);
    assert(steps =~= seq![
        ComponentView::Normal(encode_utf8("attachments"@)),
        ComponentView::Normal(encode_utf8(name)),
    ]);
}

} // verus!
