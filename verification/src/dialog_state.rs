//! What a user has entered for a new task, in memory. The limits keep pasted
//! images from taking up memory without bound: up to eight images, 10 MiB each.
use vstd::prelude::*;
use vstd::string::*;
use vstd::utf8::*;

use std::sync::Arc;

use crate::attachment;
use crate::image;
use crate::image::{has_png_signature, jpeg_dimensions, png_dimensions, webp_dimensions};
use crate::numbers;
use crate::numbers::decimal_text;
use crate::task::{
    clone_text, AttachmentView, NewTaskInput, NewTaskView, TaskAttachment, TaskPriority,
};
use crate::text;
use crate::text::{same_text, trim_text};
use crate::views;
use crate::workspace::WorkspaceId;

verus! {

/// A pasted image.
#[derive(Debug, Eq, PartialEq)]
pub struct TaskDialogAttachment {
    file_name: String,
    mime_type: String,
    bytes: Arc<Vec<u8>>,
}

/// A pasted image.
pub ghost struct PastedView {
    pub file_name: Seq<char>,
    pub mime_type: Seq<char>,
    pub bytes: Seq<u8>,
}

impl View for TaskDialogAttachment {
    type V = PastedView;

    closed spec fn view(&self) -> PastedView {
        PastedView {
            file_name: self.file_name@,
            mime_type: self.mime_type@,
            bytes: (*self.bytes)@,
        }
    }
}

impl Clone for TaskDialogAttachment {
    fn clone(&self) -> (attachment: TaskDialogAttachment)
        ensures
            attachment@ == self@,
    {
        TaskDialogAttachment {
            file_name: self.file_name.clone(),
            mime_type: self.mime_type.clone(),
            bytes: Arc::clone(&self.bytes),
        }
    }
}

impl TaskDialogAttachment {
    /// The name that the image is stored by.
    pub fn file_name(&self) -> (name: &str)
        ensures
            name@ == self@.file_name,
    {
        self.file_name.as_str()
    }

    /// The MIME type of the image.
    pub fn mime_type(&self) -> (mime_type: &str)
        ensures
            mime_type@ == self@.mime_type,
    {
        self.mime_type.as_str()
    }

    /// The bytes of the image.
    pub fn bytes(&self) -> (bytes: &[u8])
        ensures
            bytes@ == self@.bytes,
    {
        self.bytes.as_slice()
    }

    /// Another handle to the bytes of the image.
    pub fn shared_bytes(&self) -> (bytes: Arc<Vec<u8>>)
        ensures
            (*bytes)@ == self@.bytes,
    {
        Arc::clone(&self.bytes)
    }
}

/// What a user has entered for a new task.
#[derive(Debug, Eq, PartialEq)]
pub struct TaskDialogState {
    workspace_id: Option<WorkspaceId>,
    title: String,
    priority: TaskPriority,
    context: Option<String>,
    attachments: Vec<TaskDialogAttachment>,
    next_attachment_number: usize,
}

/// What a user has entered for a new task.
pub ghost struct DraftView {
    pub workspace_id: Option<Seq<char>>,
    pub title: Seq<char>,
    pub priority: TaskPriority,
    pub context: Option<Seq<char>>,
    pub attachments: Seq<PastedView>,
    /// How many images have been added so far, removed ones included.
    pub added: usize,
}

impl View for TaskDialogState {
    type V = DraftView;

    closed spec fn view(&self) -> DraftView {
        DraftView {
            workspace_id: views::option_view(self.workspace_id),
            title: self.title@,
            priority: self.priority,
            context: views::option_view(self.context),
            attachments: views::views(self.attachments@),
            added: self.next_attachment_number,
        }
    }
}

impl Clone for TaskDialogState {
    fn clone(&self) -> (state: TaskDialogState)
        ensures
            state@ == self@,
    {
        let workspace_id = match &self.workspace_id {
            Some(id) => Some(id.clone()),
            None => None,
        };
        let attachments = self.attachments.clone();
        assert(views::views(attachments@) =~= views::views(self.attachments@));
        TaskDialogState {
            workspace_id,
            title: self.title.clone(),
            priority: self.priority,
            context: clone_text(&self.context),
            attachments,
            next_attachment_number: self.next_attachment_number,
        }
    }
}

/// An untouched draft.
pub open spec fn empty_draft() -> DraftView {
    DraftView {
        workspace_id: None,
        title: Seq::empty(),
        priority: TaskPriority::Normal,
        context: None,
        attachments: Seq::empty(),
        added: 0,
    }
}

impl Default for TaskDialogState {
    fn default() -> (state: TaskDialogState)
        ensures
            state@ == empty_draft(),
    {
        let state = TaskDialogState {
            workspace_id: None,
            title: String::new(),
            priority: TaskPriority::Normal,
            context: None,
            attachments: Vec::new(),
            next_attachment_number: 0,
        };
        assert(state@.title =~= Seq::empty());
        assert(state@.attachments =~= Seq::empty());
        state
    }
}

impl TaskDialogState {
    /// How many images a task can have.
    pub const MAX_ATTACHMENTS: usize = 8;

    /// How many bytes an image can have.
    pub const MAX_ATTACHMENT_BYTES: usize = 10 * 1024 * 1024;

    /// How many pixels an image can have.
    pub const MAX_IMAGE_PIXELS: u64 = 16 * 1024 * 1024;

    /// How many bytes the pixels of an image can take up.
    pub const MAX_DECODED_RGBA_BYTES: u64 = 64 * 1024 * 1024;
}

/// The image types that can be attached.
pub open spec fn is_supported_image(mime_type: Seq<char>) -> bool {
    mime_type == "image/png"@ || mime_type == "image/jpeg"@ || mime_type == "image/webp"@
}

/// The file extension for a MIME type.
pub open spec fn extension(mime_type: Seq<char>) -> Seq<char> {
    if mime_type == "image/png"@ {
        "png"@
    } else if mime_type == "image/jpeg"@ {
        "jpg"@
    } else if mime_type == "image/webp"@ {
        "webp"@
    } else {
        "img"@
    }
}

/// The file extension for a MIME type.
pub fn file_extension_for_mime_type(mime_type: &str) -> (name: &'static str)
    ensures
        name@ == extension(mime_type@),
{
    if same_text(mime_type, "image/png") {
        "png"
    } else if same_text(mime_type, "image/jpeg") {
        "jpg"
    } else if same_text(mime_type, "image/webp") {
        "webp"
    } else {
        "img"
    }
}

/// The width and height that an image of a type declares.
pub open spec fn image_size(mime_type: Seq<char>, bytes: Seq<u8>) -> Option<(int, int)> {
    if mime_type == "image/png"@ {
        image::png_size(bytes)
    } else if mime_type == "image/jpeg"@ {
        image::jpeg_size(bytes)
    } else if mime_type == "image/webp"@ {
        image::webp_size(bytes)
    } else {
        None
    }
}

/// Why an image is refused for its header, where it is: it must declare a size
/// with pixels in it, and they must fit into the limits.
pub open spec fn header_error(mime_type: Seq<char>, bytes: Seq<u8>) -> Option<Seq<char>> {
    match image_size(mime_type, bytes) {
        None => Some("The pasted image has an invalid or unsupported header."@),
        Some((width, height)) => if width == 0 || height == 0 {
            Some("The pasted image has an invalid or unsupported header."@)
        } else if width * height > TaskDialogState::MAX_IMAGE_PIXELS || width * height * 4
            > TaskDialogState::MAX_DECODED_RGBA_BYTES {
            Some("The pasted image is too large to attach."@)
        } else {
            None
        },
    }
}

/// The view of an outcome that is a text where it is an error.
pub open spec fn refusal(result: Result<(), &str>) -> Option<Seq<char>> {
    match result {
        Ok(()) => None,
        Err(error) => Some(error@),
    }
}

/// Checks what the header of an image declares, without decoding the image.
pub fn validate_raster_image_header(mime_type: &str, bytes: &[u8]) -> (result: Result<
    (),
    &'static str,
>)
    ensures
        refusal(result) == header_error(mime_type@, bytes@),
{
    let size = if same_text(mime_type, "image/png") {
        png_dimensions(bytes)
    } else if same_text(mime_type, "image/jpeg") {
        jpeg_dimensions(bytes)
    } else if same_text(mime_type, "image/webp") {
        webp_dimensions(bytes)
    } else {
        None
    };
    let (width, height) = match size {
        Some(size) => size,
        None => return Err("The pasted image has an invalid or unsupported header."),
    };
    if width == 0 || height == 0 {
        return Err("The pasted image has an invalid or unsupported header.");
    }
    assert(0 < width * height <= 0xffff_ffff * 0xffff_ffff) by (nonlinear_arith)
        requires
            0 < width <= 0xffff_ffff,
            0 < height <= 0xffff_ffff,
    ;
    let pixels: u64 = width as u64 * height as u64;
    let decoded: u64 = match pixels.checked_mul(4) {
        Some(decoded) => decoded,
        None => return Err("The pasted image is too large to attach."),
    };
    if pixels > TaskDialogState::MAX_IMAGE_PIXELS || decoded
        > TaskDialogState::MAX_DECODED_RGBA_BYTES {
        return Err("The pasted image is too large to attach.");
    }
    Ok(())
}

/// Whether bytes start with the signature of a PNG.
pub open spec fn has_signature(bytes: Seq<u8>) -> bool {
    bytes.len() >= 8 && bytes.take(8) == image::png_signature()
}

/// Why a pasted image is refused, where it is. Bytes that lack the signature of a
/// PNG are no PNG. Of a PNG that is cut off one byte after its signature there is
/// nothing to decode, and it is not refused.
pub open spec fn image_error(mime_type: Seq<char>, bytes: Seq<u8>) -> Option<Seq<char>> {
    if !is_supported_image(mime_type) {
        Some("Only PNG, JPEG, GIF, WebP, or SVG images can be attached."@)
    } else if bytes.len() > TaskDialogState::MAX_ATTACHMENT_BYTES {
        Some("Each pasted image must be 10 MiB or smaller."@)
    } else if mime_type == "image/png"@ && !has_signature(bytes) {
        Some("Only PNG, JPEG, GIF, WebP, or SVG images can be attached."@)
    } else if mime_type == "image/png"@ && bytes.len() == 9 {
        None
    } else {
        header_error(mime_type, bytes)
    }
}

/// Checks a pasted image.
fn validate_image(mime_type: &str, bytes: &[u8]) -> (result: Result<(), &'static str>)
    ensures
        refusal(result) == image_error(mime_type@, bytes@),
{
    let is_png = same_text(mime_type, "image/png");
    if !(is_png || same_text(mime_type, "image/jpeg") || same_text(mime_type, "image/webp")) {
        return Err("Only PNG, JPEG, GIF, WebP, or SVG images can be attached.");
    }
    if bytes.len() > TaskDialogState::MAX_ATTACHMENT_BYTES {
        return Err("Each pasted image must be 10 MiB or smaller.");
    }
    if is_png && !has_png_signature(bytes) {
        return Err("Only PNG, JPEG, GIF, WebP, or SVG images can be attached.");
    }
    if is_png && bytes.len() == 9 {
        return Ok(());
    }
    validate_raster_image_header(mime_type, bytes)
}

/// The name of a pasted image: its number and its type, nothing from the
/// clipboard.
pub open spec fn pasted_name(number: nat, mime_type: Seq<char>) -> Seq<char> {
    "pasted-image-"@ + numbers::decimal(number) + "."@ + extension(mime_type)
}

fn name_of_pasted(number: usize, mime_type: &str) -> (name: String)
    ensures
        name@ == pasted_name(number as nat, mime_type@),
{
    let mut name = "pasted-image-".to_owned();
    name.append(decimal_text(number as u64).as_str());
    name.append(".");
    name.append(file_extension_for_mime_type(mime_type));
    name
}

/// A draft with an image pasted in, or why the image is refused.
pub open spec fn with_image(draft: DraftView, mime_type: Seq<char>, bytes: Seq<u8>) -> Result<
    DraftView,
    Seq<char>,
> {
    match image_error(mime_type, bytes) {
        Some(error) => Err(error),
        None => if draft.attachments.len() >= TaskDialogState::MAX_ATTACHMENTS {
            Err("A task can include at most 8 pasted images."@)
        } else {
            let number = draft.added + 1;
            Ok(
                DraftView {
                    attachments: draft.attachments.push(
                        PastedView {
                            file_name: pasted_name(number as nat, mime_type),
                            mime_type,
                            bytes,
                        },
                    ),
                    added: number as usize,
                    ..draft
                },
            )
        },
    }
}

/// A draft with text pasted in, behind what its context holds.
pub open spec fn with_text(draft: DraftView, pasted: Seq<char>) -> DraftView {
    if pasted.len() == 0 {
        draft
    } else {
        DraftView {
            context: Some(
                match draft.context {
                    Some(context) => context + pasted,
                    None => pasted,
                },
            ),
            ..draft
        }
    }
}

/// A draft without one of its images.
pub open spec fn without_image(draft: DraftView, index: int) -> DraftView {
    if 0 <= index < draft.attachments.len() {
        DraftView { attachments: draft.attachments.remove(index), ..draft }
    } else {
        draft
    }
}

/// Whether a draft can be submitted: it has a workspace and a title that is not
/// blank.
pub open spec fn is_submittable(draft: DraftView) -> bool {
    draft.workspace_id is Some && text::trim(draft.title).len() > 0
}

/// The attachment that a pasted image becomes.
pub open spec fn submitted_image(image: PastedView) -> AttachmentView {
    AttachmentView {
        path: encode_utf8(image.file_name),
        file_name: Some(image.file_name),
        contents: Some(image.bytes),
    }
}

/// The task that a draft asks for, or what is missing.
pub open spec fn submission(draft: DraftView) -> Result<NewTaskView, Seq<char>> {
    match draft.workspace_id {
        None => Err("Select a workspace before creating a task."@),
        Some(workspace_id) => if text::trim(draft.title).len() == 0 {
            Err("A task title is required."@)
        } else {
            Ok(
                NewTaskView {
                    workspace_id,
                    workspace: None,
                    title: text::trim(draft.title),
                    description: match draft.context {
                        Some(context) => context,
                        None => Seq::empty(),
                    },
                    priority: draft.priority,
                    agent_kind: crate::task::AgentKind::Codex,
                    attachments: draft.attachments.map_values(
                        |image: PastedView| submitted_image(image),
                    ),
                },
            )
        },
    }
}

/// The view of a submission.
pub open spec fn submission_view(input: Result<NewTaskInput, &str>) -> Result<
    NewTaskView,
    Seq<char>,
> {
    match input {
        Ok(input) => Ok(input@),
        Err(error) => Err(error@),
    }
}

impl TaskDialogState {
    /// Selects the workspace of the task.
    pub fn select_workspace(&mut self, workspace_id: WorkspaceId)
        ensures
            final(self)@ == (DraftView { workspace_id: Some(workspace_id@), ..old(self)@ }),
    {
        self.workspace_id = Some(workspace_id);
    }

    /// The workspace of the task.
    pub fn workspace_id(&self) -> (id: Option<&WorkspaceId>)
        ensures
            views::option_view(id) == self@.workspace_id,
    {
        self.workspace_id.as_ref()
    }

    /// Sets the title of the task.
    pub fn set_title(&mut self, title: &str)
        ensures
            final(self)@ == (DraftView { title: title@, ..old(self)@ }),
    {
        self.title = title.to_owned();
    }

    /// Sets the priority of the task.
    pub fn set_priority(&mut self, priority: TaskPriority)
        ensures
            final(self)@ == (DraftView { priority, ..old(self)@ }),
    {
        self.priority = priority;
    }

    /// The priority of the task.
    pub fn priority(&self) -> (priority: TaskPriority)
        ensures
            priority == self@.priority,
    {
        self.priority
    }

    /// Sets the context of the task; an empty one is none.
    pub fn set_context(&mut self, context: Option<String>)
        ensures
            final(self)@ == (DraftView {
                context: match context {
                    Some(context) => if context@.len() == 0 {
                        None
                    } else {
                        Some(context@)
                    },
                    None => None,
                },
                ..old(self)@
            }),
    {
        self.context = match context {
            Some(context) => if context.as_str().is_empty() {
                None
            } else {
                Some(context)
            },
            None => None,
        };
    }

    /// The context of the task.
    pub fn context(&self) -> (context: Option<&str>)
        ensures
            match context {
                Some(context) => self@.context == Some(context@),
                None => self@.context is None,
            },
    {
        match &self.context {
            Some(context) => Some(context.as_str()),
            None => None,
        }
    }

    /// Appends pasted text to the context of the task.
    pub fn append_pasted_text(&mut self, pasted: &str)
        ensures
            final(self)@ == with_text(old(self)@, pasted@),
    {
        if pasted.is_empty() {
            return;
        }
        let context = match &self.context {
            Some(context) => {
                let mut longer = context.clone();
                longer.append(pasted);
                longer
            },
            None => pasted.to_owned(),
        };
        self.context = Some(context);
    }

    /// The pasted images.
    pub fn attachments(&self) -> (attachments: &[TaskDialogAttachment])
        ensures
            views::views(attachments@) == self@.attachments,
    {
        self.attachments.as_slice()
    }

    /// Whether that many more images can be numbered.
    pub fn can_number(&self, images: usize) -> (possible: bool)
        ensures
            possible == (self@.added + images <= usize::MAX),
    {
        images <= usize::MAX - self.next_attachment_number
    }

    /// Adds a pasted image.
    pub fn add_pasted_image(&mut self, mime_type: &str, bytes: Vec<u8>) -> (result: Result<
        (),
        &'static str,
    >)
        requires
            old(self)@.added < usize::MAX,
        ensures
            match with_image(old(self)@, mime_type@, bytes@) {
                Ok(draft) => result is Ok && final(self)@ == draft,
                Err(error) => result is Err && result->Err_0@ == error && final(self)@ == old(
                    self,
                )@,
            },
    {
        match validate_image(mime_type, bytes.as_slice()) {
            Ok(()) => {},
            Err(error) => return Err(error),
        }
        if self.attachments.len() >= TaskDialogState::MAX_ATTACHMENTS {
            return Err("A task can include at most 8 pasted images.");
        }
        let ghost before = self@.attachments;
        self.next_attachment_number = self.next_attachment_number + 1;
        let added = TaskDialogAttachment {
            file_name: name_of_pasted(self.next_attachment_number, mime_type),
            mime_type: mime_type.to_owned(),
            bytes: Arc::new(bytes),
        };
        self.attachments.push(added);
        assert(self@.attachments =~= before.push(added@));
        Ok(())
    }

    /// Removes a pasted image, where there is one at the index.
    pub fn remove_attachment(&mut self, index: usize)
        ensures
            final(self)@ == without_image(old(self)@, index as int),
    {
        let ghost before = self@.attachments;
        if index < self.attachments.len() {
            self.attachments.remove(index);
            assert(self@.attachments =~= before.remove(index as int));
        }
    }

    /// Whether the draft can be submitted.
    pub fn can_submit(&self) -> (submittable: bool)
        ensures
            submittable == is_submittable(self@),
    {
        self.workspace_id.is_some() && !trim_text(self.title.as_str()).as_str().is_empty()
    }

    /// The task that the draft asks for, which keeps the draft. The bytes of the
    /// images are shared, not copied.
    pub fn new_task_input_for_submission(&self) -> (input: Result<NewTaskInput, &'static str>)
        ensures
            submission_view(input) == submission(self@),
    {
        self.clone().into_new_task_input()
    }

    /// The task that the draft asks for.
    pub fn into_new_task_input(self) -> (input: Result<NewTaskInput, &'static str>)
        ensures
            submission_view(input) == submission(self@),
    {
        let workspace_id = match self.workspace_id {
            Some(workspace_id) => workspace_id,
            None => return Err("Select a workspace before creating a task."),
        };
        let title = trim_text(self.title.as_str());
        if title.as_str().is_empty() {
            return Err("A task title is required.");
        }
        let ghost images = views::views(self.attachments@);
        let ghost all = images.map_values(|image: PastedView| submitted_image(image));
        let mut attachments: Vec<TaskAttachment> = Vec::new();
        let mut i: usize = 0;
        while i < self.attachments.len()
            invariant
                i <= self.attachments@.len(),
                images == views::views(self.attachments@),
                all == images.map_values(|image: PastedView| submitted_image(image)),
                views::views(attachments@) =~= all.take(i as int),
            decreases self.attachments@.len() - i,
        {
            let image = &self.attachments[i];
            let ghost before = views::views(attachments@);
            let attachment = TaskAttachment::from_memory(image.file_name(), Arc::clone(&image.bytes));
            assert(images[i as int] == image@);
            assert(attachment@ == all[i as int]);
            attachments.push(attachment);
            assert(views::views(attachments@) =~= before.push(all[i as int]));
            i += 1;
        }
        assert(all.take(i as int) =~= all);
        let description = match &self.context {
            Some(context) => context.clone(),
            None => String::new(),
        };
        let input = NewTaskInput::new(workspace_id, title.as_str()).with_priority(
            self.priority,
        ).with_description(description.as_str()).with_attachments(attachments);
        assert(self.context is None ==> description@ =~= Seq::empty());
        Ok(input)
    }
}

/// A draft can be submitted exactly when a task can be made from it.
pub proof fn law_submittable(draft: DraftView)
    ensures
        is_submittable(draft) <==> submission(draft) is Ok,
{
}

/// Whether the images of a draft are as they came to be: at most eight, each
/// accepted, and named by numbers that grow and that were given out.
pub open spec fn is_draft(draft: DraftView) -> bool {
    &&& draft.attachments.len() <= TaskDialogState::MAX_ATTACHMENTS
    &&& forall|i: int|
        0 <= i < draft.attachments.len() ==> image_error(
            (#[trigger] draft.attachments[i]).mime_type,
            draft.attachments[i].bytes,
        ) is None
    &&& exists|numbers: Seq<nat>| #[trigger] are_numbers(draft, numbers)
}

/// Whether numbers are those by which the images of a draft are named.
pub open spec fn are_numbers(draft: DraftView, numbers: Seq<nat>) -> bool {
    &&& numbers.len() == draft.attachments.len()
    &&& forall|i: int|
        0 <= i < numbers.len() ==> #[trigger] numbers[i] <= draft.added
            && draft.attachments[i].file_name == pasted_name(
            numbers[i],
            draft.attachments[i].mime_type,
        )
    &&& forall|i: int, j: int|
        0 <= i < j < numbers.len() ==> #[trigger] numbers[i] < #[trigger] numbers[j]
}

/// A draft starts out as it should be.
pub proof fn law_empty_draft()
    ensures
        is_draft(empty_draft()),
{
    assert(are_numbers(empty_draft(), Seq::empty()));
}

/// Pasting an image keeps a draft as it should be.
pub proof fn law_pasting_keeps_draft(draft: DraftView, mime_type: Seq<char>, bytes: Seq<u8>)
    requires
        is_draft(draft),
        draft.added < usize::MAX,
    ensures
        with_image(draft, mime_type, bytes) matches Ok(next) ==> is_draft(next),
{
    if with_image(draft, mime_type, bytes) is Ok {
        let next = with_image(draft, mime_type, bytes)->Ok_0;
        let numbers = choose|numbers: Seq<nat>| #[trigger] are_numbers(draft, numbers);
        let more = numbers.push((draft.added + 1) as nat);
        assert forall|i: int| 0 <= i < more.len() implies #[trigger] more[i] <= next.added
            && next.attachments[i].file_name == pasted_name(
            more[i],
            next.attachments[i].mime_type,
        ) by {
            if i < numbers.len() {
                assert(more[i] == numbers[i]);
                assert(next.attachments[i] == draft.attachments[i]);
            }
        }
        assert forall|i: int, j: int| 0 <= i < j < more.len() implies #[trigger] more[i]
            < #[trigger] more[j] by {
            assert(more[i] == numbers[i]);
            if j < numbers.len() {
                assert(more[j] == numbers[j]);
            }
        }
        assert(are_numbers(next, more));
        assert forall|i: int| 0 <= i < next.attachments.len() implies image_error(
            (#[trigger] next.attachments[i]).mime_type,
            next.attachments[i].bytes,
        ) is None by {
            if i < draft.attachments.len() {
                assert(next.attachments[i] == draft.attachments[i]);
            }
        }
    }
}

/// Removing an image keeps a draft as it should be, and the order of the others.
pub proof fn law_removing_keeps_draft(draft: DraftView, index: int)
    requires
        is_draft(draft),
    ensures
        is_draft(without_image(draft, index)),
{
    if 0 <= index < draft.attachments.len() {
        let next = without_image(draft, index);
        let numbers = choose|numbers: Seq<nat>| #[trigger] are_numbers(draft, numbers);
        let fewer = numbers.remove(index);
        assert forall|i: int| 0 <= i < fewer.len() implies #[trigger] fewer[i] <= next.added
            && next.attachments[i].file_name == pasted_name(
            fewer[i],
            next.attachments[i].mime_type,
        ) by {
            let k = if i < index { i } else { i + 1 };
            assert(fewer[i] == numbers[k]);
            assert(next.attachments[i] == draft.attachments[k]);
        }
        assert forall|i: int, j: int| 0 <= i < j < fewer.len() implies #[trigger] fewer[i]
            < #[trigger] fewer[j] by {
            let k = if i < index { i } else { i + 1 };
            let l = if j < index { j } else { j + 1 };
            assert(fewer[i] == numbers[k] && fewer[j] == numbers[l]);
        }
        assert(are_numbers(next, fewer));
        assert forall|i: int| 0 <= i < next.attachments.len() implies image_error(
            (#[trigger] next.attachments[i]).mime_type,
            next.attachments[i].bytes,
        ) is None by {
            let k = if i < index { i } else { i + 1 };
            assert(next.attachments[i] == draft.attachments[k]);
        }
    }
}

/// Images with different numbers have different names, whatever their types.
proof fn lemma_pasted_names_differ(a: nat, first: Seq<char>, b: nat, second: Seq<char>)
    requires
        pasted_name(a, first) == pasted_name(b, second),
    ensures
        a == b,
{
    reveal_strlit("pasted-image-");
    reveal_strlit(".");
    let left = numbers::decimal(a);
    let right = numbers::decimal(b);
    let name = pasted_name(a, first);
    let same = pasted_name(b, second);
    numbers::lemma_decimal_digits(a);
    numbers::lemma_decimal_digits(b);
    assert("pasted-image-"@.len() == 13);
    assert(name[13 + left.len() as int] == '.');
    assert(same[13 + right.len() as int] == '.');
    if left.len() < right.len() {
        assert(same[13 + left.len() as int] == right[left.len() as int]);
        assert(numbers::is_digit(right[left.len() as int]));
    } else if right.len() < left.len() {
        assert(name[13 + right.len() as int] == left[right.len() as int]);
        assert(numbers::is_digit(left[right.len() as int]));
    }
    assert forall|i: int| 0 <= i < left.len() implies left[i] == right[i] by {
        assert(name[13 + i] == left[i]);
        assert(same[13 + i] == right[i]);
    }
    assert(left =~= right);
}

/// The name of a pasted image can name an attachment.
proof fn lemma_pasted_name_is_safe(number: nat, mime_type: Seq<char>)
    ensures
        attachment::is_safe_filename(pasted_name(number, mime_type)),
{
    reveal_strlit("pasted-image-");
    reveal_strlit(".");
    reveal_strlit("..");
    reveal_strlit("png");
    reveal_strlit("jpg");
    reveal_strlit("webp");
    reveal_strlit("img");
    let digits = numbers::decimal(number);
    let ending = extension(mime_type);
    let name = pasted_name(number, mime_type);
    numbers::lemma_decimal_digits(number);
    assert("pasted-image-"@.len() == 13);
    assert forall|i: int| 0 <= i < name.len() implies !attachment::is_unsafe_char(
        #[trigger] name[i],
    ) by {
        if i < 13 {
            assert(name[i] == "pasted-image-"@[i]);
        } else if i < 13 + digits.len() {
            assert(name[i] == digits[i - 13]);
            assert(numbers::is_digit(digits[i - 13]));
        } else if i > 13 + digits.len() {
            assert(name[i] == ending[i - 14 - digits.len()]);
        }
    }
    assert(name.len() > 13);
    assert("."@.len() == 1 && ".."@.len() == 2);
    assert(attachment::is_safe_component(name));
    attachment::law_safe_filename(name);
}

/// The images of a submitted draft can be stored: each under its own name, which
/// is safe and which no other image of the draft has.
pub proof fn law_pasted_images_can_be_stored(draft: DraftView)
    requires
        is_draft(draft),
    ensures
        forall|i: int|
            0 <= i < draft.attachments.len() ==> attachment::stored_name(
                submitted_image(#[trigger] draft.attachments[i]),
            ) == Ok::<Seq<char>, crate::store_error::StoreErrorView>(
                draft.attachments[i].file_name,
            ),
        forall|i: int, j: int|
            0 <= i < j < draft.attachments.len() ==> (#[trigger] draft.attachments[i]).file_name
                != (#[trigger] draft.attachments[j]).file_name,
{
    let numbers = choose|numbers: Seq<nat>| #[trigger] are_numbers(draft, numbers);
    assert forall|i: int| 0 <= i < draft.attachments.len() implies attachment::stored_name(
        submitted_image(#[trigger] draft.attachments[i]),
    ) == Ok::<Seq<char>, crate::store_error::StoreErrorView>(draft.attachments[i].file_name) by {
        let image = draft.attachments[i];
        assert(numbers[i] <= draft.added);
        lemma_pasted_name_is_safe(numbers[i], image.mime_type);
    }
    assert forall|i: int, j: int| 0 <= i < j < draft.attachments.len() implies (
    #[trigger] draft.attachments[i]).file_name != (#[trigger] draft.attachments[j]).file_name by {
        let a = draft.attachments[i];
        let b = draft.attachments[j];
        assert(numbers[i] < numbers[j]);
        if a.file_name == b.file_name {
            lemma_pasted_names_differ(numbers[i], a.mime_type, numbers[j], b.mime_type);
        }
    }
}

/// No image of a draft exceeds a limit: in bytes, nor, once it declares its size,
/// in pixels.
pub proof fn law_images_fit_the_limits(draft: DraftView, index: int)
    requires
        is_draft(draft),
        0 <= index < draft.attachments.len(),
    ensures
        draft.attachments[index].bytes.len() <= TaskDialogState::MAX_ATTACHMENT_BYTES,
        image_size(
            draft.attachments[index].mime_type,
            draft.attachments[index].bytes,
        ) matches Some((width, height)) ==> 0 < width * height
            <= TaskDialogState::MAX_IMAGE_PIXELS,
{
    let image = draft.attachments[index];
    assert(image_error(image.mime_type, image.bytes) is None);
    if let Some((width, height)) = image_size(image.mime_type, image.bytes) {
        if image.mime_type == "image/png"@ && image.bytes.len() == 9 {
            image::lemma_short_png(image.bytes);
        }
        image::lemma_sizes_are_not_negative(image.bytes);
        assert(width > 0 && height > 0);
        assert(width * height > 0) by (nonlinear_arith)
            requires
                width > 0,
                height > 0,
        ;
    }
}

/// The MIME types of the images that can be attached differ.
proof fn lemma_types_differ()
    ensures
        "image/png"@ != "image/jpeg"@,
        "image/png"@ != "image/webp"@,
        "image/jpeg"@ != "image/webp"@,
{
    reveal_strlit("image/png");
    reveal_strlit("image/jpeg");
    reveal_strlit("image/webp");
    assert("image/png"@.len() == 9 && "image/jpeg"@.len() == 10 && "image/webp"@.len() == 10);
    assert("image/jpeg"@[6] == 'j' && "image/webp"@[6] == 'w');
}

/// An image is attached where it is of a supported type, declares a size with pixels
/// in it, has at most 16 Mi of them and at most 10 MiB, and where the draft has
/// fewer than eight images. It comes last, with its type and its bytes as they were
/// pasted, under the next number and the ending for its type; the rest of the draft
/// stays as it was.
pub proof fn law_image_is_attached(
    draft: DraftView,
    mime_type: Seq<char>,
    bytes: Seq<u8>,
    width: int,
    height: int,
)
    requires
        ({
            ||| mime_type == "image/png"@ && image::png_size(bytes) == Some((width, height))
            ||| mime_type == "image/jpeg"@ && image::jpeg_size(bytes) == Some((width, height))
            ||| mime_type == "image/webp"@ && image::webp_size(bytes) == Some((width, height))
        }),
        width > 0,
        height > 0,
        width * height <= 16 * 1024 * 1024,
        bytes.len() <= 10 * 1024 * 1024,
        draft.attachments.len() < 8,
        draft.added < usize::MAX,
    ensures
        with_image(draft, mime_type, bytes) matches Ok(after) && {
            &&& after.attachments.len() == draft.attachments.len() + 1
            &&& after.attachments.drop_last() == draft.attachments
            &&& after.attachments.last().bytes == bytes
            &&& after.attachments.last().mime_type == mime_type
            &&& after.attachments.last().file_name == "pasted-image-"@ + numbers::decimal(
                (draft.added + 1) as nat,
            ) + "."@ + (if mime_type == "image/png"@ {
                "png"@
            } else if mime_type == "image/jpeg"@ {
                "jpg"@
            } else {
                "webp"@
            })
            &&& after.added == draft.added + 1
            &&& after.workspace_id == draft.workspace_id
            &&& after.title == draft.title
            &&& after.priority == draft.priority
            &&& after.context == draft.context
        },
{
    lemma_types_differ();
    assert(image_error(mime_type, bytes) is None);
    let after = with_image(draft, mime_type, bytes)->Ok_0;
    assert(after.attachments.drop_last() =~= draft.attachments);
}

/// Why an image is not attached: its type is not supported or it is no PNG, it has
/// more than 10 MiB, it declares no size or one without pixels, it has more than
/// 16 Mi pixels, or the draft has eight images already.
pub proof fn law_image_is_refused(
    draft: DraftView,
    mime_type: Seq<char>,
    bytes: Seq<u8>,
    width: int,
    height: int,
)
    ensures
        mime_type != "image/png"@ && mime_type != "image/jpeg"@ && mime_type != "image/webp"@
            ==> with_image(draft, mime_type, bytes) == Err::<DraftView, Seq<char>>(
            "Only PNG, JPEG, GIF, WebP, or SVG images can be attached."@,
        ),
        (mime_type == "image/png"@ || mime_type == "image/jpeg"@ || mime_type == "image/webp"@)
            && bytes.len() > 10 * 1024 * 1024 ==> with_image(draft, mime_type, bytes) == Err::<
            DraftView,
            Seq<char>,
        >("Each pasted image must be 10 MiB or smaller."@),
        mime_type == "image/png"@ && bytes.len() < 8 ==> with_image(draft, mime_type, bytes)
            == Err::<DraftView, Seq<char>>(
            "Only PNG, JPEG, GIF, WebP, or SVG images can be attached."@,
        ),
        (mime_type == "image/png"@ && image::png_size(bytes) is None && bytes.len() != 9)
            ==> with_image(draft, mime_type, bytes) is Err,
        bytes.len() <= 10 * 1024 * 1024 && (mime_type == "image/jpeg"@ && image::jpeg_size(
            bytes,
        ) is None || mime_type == "image/webp"@ && image::webp_size(bytes) is None) ==> with_image(
            draft,
            mime_type,
            bytes,
        ) == Err::<DraftView, Seq<char>>(
            "The pasted image has an invalid or unsupported header."@,
        ),
        bytes.len() <= 10 * 1024 * 1024 && (mime_type == "image/png"@ && image::png_size(bytes)
            == Some((width, height)) || mime_type == "image/jpeg"@ && image::jpeg_size(bytes)
            == Some((width, height)) || mime_type == "image/webp"@ && image::webp_size(bytes)
            == Some((width, height))) ==> {
            &&& width == 0 || height == 0 ==> with_image(draft, mime_type, bytes) == Err::<
                DraftView,
                Seq<char>,
            >("The pasted image has an invalid or unsupported header."@)
            &&& width > 0 && height > 0 && width * height > 16 * 1024 * 1024 ==> with_image(
                draft,
                mime_type,
                bytes,
            ) == Err::<DraftView, Seq<char>>("The pasted image is too large to attach."@)
            &&& width > 0 && height > 0 && width * height <= 16 * 1024 * 1024
                && draft.attachments.len() >= 8 ==> with_image(draft, mime_type, bytes) == Err::<
                DraftView,
                Seq<char>,
            >("A task can include at most 8 pasted images."@)
        },
{
    lemma_types_differ();
    if mime_type == "image/png"@ && bytes.len() == 9 {
        image::lemma_short_png(bytes);
    }
}

/// The text of the context of a draft.
pub open spec fn context_of(draft: DraftView) -> Seq<char> {
    match draft.context {
        Some(context) => context,
        None => Seq::empty(),
    }
}

/// Pasted text comes behind what the context holds; the rest of the draft stays as
/// it was.
pub proof fn law_pasting_text(draft: DraftView, pasted: Seq<char>)
    ensures
        context_of(with_text(draft, pasted)) == context_of(draft) + pasted,
        with_text(draft, pasted).workspace_id == draft.workspace_id,
        with_text(draft, pasted).title == draft.title,
        with_text(draft, pasted).priority == draft.priority,
        with_text(draft, pasted).attachments == draft.attachments,
        with_text(draft, pasted).added == draft.added,
{
    assert(context_of(draft) + Seq::<char>::empty() =~= context_of(draft));
    assert(context_of(with_text(draft, pasted)) =~= context_of(draft) + pasted);
}

/// Removing an image removes that image: those before it stay where they are, those
/// behind it move up by one, and the rest of the draft stays as it was. Where there
/// is no image at the index, nothing changes.
pub proof fn law_removing_an_image(draft: DraftView, index: int, i: int)
    requires
        0 <= i < draft.attachments.len(),
    ensures
        ({
            let after = without_image(draft, index);
            if 0 <= index < draft.attachments.len() {
                &&& after.attachments.len() == draft.attachments.len() - 1
                &&& i < index ==> after.attachments[i] == draft.attachments[i]
                &&& i > index ==> after.attachments[i - 1] == draft.attachments[i]
                &&& after.workspace_id == draft.workspace_id
                &&& after.title == draft.title
                &&& after.priority == draft.priority
                &&& after.context == draft.context
                &&& after.added == draft.added
            } else {
                after == draft
            }
        }),
{
}

/// A draft can be submitted exactly where a workspace is selected and the title is
/// not blank; otherwise the user is told which of the two is missing.
pub proof fn law_what_can_be_submitted(draft: DraftView)
    ensures
        ({
            let has_title = exists|i: int|
                0 <= i < draft.title.len() && !text::is_white_space(#[trigger] draft.title[i]);
            &&& is_submittable(draft) <==> draft.workspace_id is Some && has_title
            &&& submission(draft) is Ok <==> draft.workspace_id is Some && has_title
            &&& draft.workspace_id is None ==> submission(draft) == Err::<NewTaskView, Seq<char>>(
                "Select a workspace before creating a task."@,
            )
            &&& draft.workspace_id is Some && !has_title ==> submission(draft) == Err::<
                NewTaskView,
                Seq<char>,
            >("A task title is required."@)
        }),
{
    text::law_blank(draft.title);
}

/// A submitted draft asks for what was entered: the workspace, the title without
/// the white space around it, the whole context, the priority, and every image
/// under its name with its bytes, in order.
pub proof fn law_submission_says_what_was_entered(draft: DraftView, i: int)
    requires
        submission(draft) is Ok,
    ensures
        ({
            let input = submission(draft)->Ok_0;
            &&& draft.workspace_id == Some(input.workspace_id)
            &&& input.workspace is None
            &&& input.title == text::trim(draft.title)
            &&& input.description == context_of(draft)
            &&& input.priority == draft.priority
            &&& input.agent_kind == crate::task::AgentKind::Codex
            &&& input.attachments.len() == draft.attachments.len()
            &&& 0 <= i < draft.attachments.len() ==> {
                &&& input.attachments[i].file_name == Some(draft.attachments[i].file_name)
                &&& input.attachments[i].contents == Some(draft.attachments[i].bytes)
                &&& input.attachments[i].path == encode_utf8(draft.attachments[i].file_name)
            }
        }),
{
}

/// Each type of image has an ending of its own, and so have all other types.
pub proof fn law_extension(mime_type: Seq<char>)
    ensures
        extension("image/png"@) == "png"@,
        extension("image/jpeg"@) == "jpg"@,
        extension("image/webp"@) == "webp"@,
        mime_type != "image/png"@ && mime_type != "image/jpeg"@ && mime_type != "image/webp"@
            ==> extension(mime_type) == "img"@,
{
    lemma_types_differ();
}

} // verus!
