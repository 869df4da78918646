//! The dialog in which a task is entered: the draft, the workspaces to choose
//! from, the previews of pasted images, and what the user is told.
use vstd::prelude::*;
use vstd::string::*;

use std::sync::Arc;

use crate::dialog_state;
use crate::dialog_state::{DraftView, TaskDialogState};
use crate::numbers;
use crate::numbers::decimal_text;
use crate::outside;
use crate::outside::random_id;
use crate::queue;
use crate::task::{NewTaskInput, NewTaskView, TaskPriority};
use crate::text::same_text;
use crate::views;
use crate::workspace::{DiscoveredView, DiscoveredWorkspace, WorkspaceId};

verus! {

/// What the dialog tells its surroundings.
#[derive(Debug)]
pub enum TaskDialogEvent {
    Cancelled,
    Submitted(NewTaskInput),
}

/// What the dialog tells its surroundings.
pub ghost enum DialogEventView {
    Cancelled,
    Submitted(NewTaskView),
}

impl View for TaskDialogEvent {
    type V = DialogEventView;

    open spec fn view(&self) -> DialogEventView {
        match self {
            TaskDialogEvent::Cancelled => DialogEventView::Cancelled,
            TaskDialogEvent::Submitted(input) => DialogEventView::Submitted(input@),
        }
    }
}

impl Clone for TaskDialogEvent {
    fn clone(&self) -> (event: TaskDialogEvent)
        ensures
            event@ == self@,
    {
        match self {
            TaskDialogEvent::Cancelled => TaskDialogEvent::Cancelled,
            TaskDialogEvent::Submitted(input) => TaskDialogEvent::Submitted(input.clone()),
        }
    }
}

/// What the user does in the dialog.
#[derive(Debug)]
pub enum TaskDialogAction {
    SelectWorkspace(WorkspaceId),
    SelectPriority(TaskPriority),
    RemoveAttachment(usize),
    Submit,
    Cancel,
}

/// What the user does in the dialog.
pub ghost enum DialogActionView {
    SelectWorkspace(Seq<char>),
    SelectPriority(TaskPriority),
    RemoveAttachment(int),
    Submit,
    Cancel,
}

impl View for TaskDialogAction {
    type V = DialogActionView;

    open spec fn view(&self) -> DialogActionView {
        match self {
            TaskDialogAction::SelectWorkspace(id) => DialogActionView::SelectWorkspace(id@),
            TaskDialogAction::SelectPriority(priority) => DialogActionView::SelectPriority(
                *priority,
            ),
            TaskDialogAction::RemoveAttachment(index) => DialogActionView::RemoveAttachment(
                *index as int,
            ),
            TaskDialogAction::Submit => DialogActionView::Submit,
            TaskDialogAction::Cancel => DialogActionView::Cancel,
        }
    }
}

impl Clone for TaskDialogAction {
    fn clone(&self) -> (action: TaskDialogAction)
        ensures
            action@ == self@,
    {
        match self {
            TaskDialogAction::SelectWorkspace(id) => TaskDialogAction::SelectWorkspace(id.clone()),
            TaskDialogAction::SelectPriority(priority) => TaskDialogAction::SelectPriority(
                *priority,
            ),
            TaskDialogAction::RemoveAttachment(index) => TaskDialogAction::RemoveAttachment(*index),
            TaskDialogAction::Submit => TaskDialogAction::Submit,
            TaskDialogAction::Cancel => TaskDialogAction::Cancel,
        }
    }
}

/// What happens in a text field of the dialog.
#[derive(Debug)]
pub enum EditorEvent {
    /// The text of the field is now this.
    Edited(String),
    /// The user pastes into the field.
    Paste,
    /// The user leaves the field by the escape key.
    Escape,
    /// Anything else.
    Other,
}

/// An image on the clipboard.
#[derive(Debug)]
pub struct ClipboardImage {
    pub mime_type: String,
    pub data: Vec<u8>,
}

/// An image on the clipboard.
pub ghost struct ClipboardImageView {
    pub mime_type: Seq<char>,
    pub data: Seq<u8>,
}

impl View for ClipboardImage {
    type V = ClipboardImageView;

    open spec fn view(&self) -> ClipboardImageView {
        ClipboardImageView { mime_type: self.mime_type@, data: self.data@ }
    }
}

/// A preview that is to be shown: the slot it takes and the bytes of the image.
#[derive(Debug)]
pub struct Thumbnail {
    pub asset_id: String,
    pub bytes: Arc<Vec<u8>>,
}

/// A preview that is to be shown.
pub ghost struct ThumbnailView {
    pub asset_id: Seq<char>,
    pub bytes: Seq<u8>,
}

impl View for Thumbnail {
    type V = ThumbnailView;

    open spec fn view(&self) -> ThumbnailView {
        ThumbnailView { asset_id: self.asset_id@, bytes: (*self.bytes)@ }
    }
}

/// What a dialog consists of.
struct DialogParts {
    state: TaskDialogState,
    workspaces: Vec<DiscoveredWorkspace>,
    thumbnail_asset_slots: Vec<String>,
    thumbnail_asset_ids: Vec<String>,
    paste_error: Option<String>,
}

/// The dialog in which a task is entered. Each image in it has a preview in a slot
/// of its own.
pub struct TaskDialog {
    parts: DialogParts,
}

/// What the dialog holds: the draft, the workspaces to choose from, the slots
/// for previews and the one that each image takes, and what the user is told.
pub ghost struct DialogView {
    pub draft: DraftView,
    pub workspaces: Seq<DiscoveredView>,
    pub slots: Seq<Seq<char>>,
    pub taken: Seq<Seq<char>>,
    pub error: Option<Seq<char>>,
}

impl View for DialogParts {
    type V = DialogView;

    closed spec fn view(&self) -> DialogView {
        DialogView {
            draft: self.state@,
            workspaces: views::views(self.workspaces@),
            slots: views::views(self.thumbnail_asset_slots@),
            taken: views::views(self.thumbnail_asset_ids@),
            error: views::option_view(self.paste_error),
        }
    }
}

impl View for TaskDialog {
    type V = DialogView;

    closed spec fn view(&self) -> DialogView {
        self.parts@
    }
}

/// The name of a slot for a preview.
pub open spec fn slot_name(namespace: Seq<char>, slot: nat) -> Seq<char> {
    "task-dialog-thumbnail-"@ + namespace + "-"@ + numbers::decimal(slot)
}

/// The slots for previews: as many as there can be images.
pub open spec fn slot_names(namespace: Seq<char>) -> Seq<Seq<char>> {
    Seq::new(
        TaskDialogState::MAX_ATTACHMENTS as nat,
        |slot: int| slot_name(namespace, slot as nat),
    )
}

/// The first slot, from `from` on, that no image takes.
pub open spec fn free_slot(slots: Seq<Seq<char>>, taken: Seq<Seq<char>>, from: int) -> Option<
    Seq<char>,
>
    decreases slots.len() - from,
{
    if from >= slots.len() {
        None
    } else if taken.contains(slots[from]) {
        free_slot(slots, taken, from + 1)
    } else {
        Some(slots[from])
    }
}

/// The dialog when it is opened: the draft is empty but for the workspace, where
/// the one that is selected is available.
pub open spec fn configured(
    dialog: DialogView,
    workspaces: Seq<DiscoveredView>,
    selected: Option<Seq<char>>,
) -> DialogView {
    let available = workspaces.filter(|workspace: DiscoveredView| workspace.is_available);
    DialogView {
        draft: DraftView {
            workspace_id: match selected {
                Some(id) => if queue::workspace_with(available, id) is Some {
                    Some(id)
                } else {
                    None
                },
                None => None,
            },
            ..dialog_state::empty_draft()
        },
        workspaces: available,
        taken: Seq::empty(),
        error: None,
        ..dialog
    }
}

/// The dialog after one image was pasted. An image that is refused, or for which
/// there is no free slot, only changes what the user is told.
pub open spec fn with_pasted_image(dialog: DialogView, image: ClipboardImageView) -> DialogView {
    match free_slot(dialog.slots, dialog.taken, 0) {
        None => DialogView {
            error: Some("No se pudo reservar la previsualización."@),
            ..dialog
        },
        Some(slot) => match dialog_state::with_image(dialog.draft, image.mime_type, image.data) {
            Ok(draft) => DialogView { draft, taken: dialog.taken.push(slot), ..dialog },
            Err(error) => DialogView { error: Some(error), ..dialog },
        },
    }
}

/// The dialog after images were pasted, one after the other.
pub open spec fn with_pasted_images(
    dialog: DialogView,
    images: Seq<ClipboardImageView>,
) -> DialogView
    decreases images.len(),
{
    if images.len() == 0 {
        dialog
    } else {
        with_pasted_image(with_pasted_images(dialog, images.drop_last()), images.last())
    }
}

/// The dialog after the clipboard was pasted into the context.
pub open spec fn pasted(
    dialog: DialogView,
    plain_text: Seq<char>,
    images: Seq<ClipboardImageView>,
) -> DialogView {
    with_pasted_images(
        DialogView {
            draft: dialog_state::with_text(dialog.draft, plain_text),
            error: None,
            ..dialog
        },
        images,
    )
}

/// The previews that are to be shown after images were pasted: one for each that
/// was accepted, in the slot that it takes.
pub open spec fn previews(dialog: DialogView, images: Seq<ClipboardImageView>) -> Seq<ThumbnailView>
    decreases images.len(),
{
    if images.len() == 0 {
        Seq::empty()
    } else {
        let before = with_pasted_images(dialog, images.drop_last());
        let image = images.last();
        let slot = free_slot(before.slots, before.taken, 0);
        if slot is Some && dialog_state::with_image(
            before.draft,
            image.mime_type,
            image.data,
        ) is Ok {
            previews(dialog, images.drop_last()).push(
                ThumbnailView { asset_id: slot->0, bytes: image.data },
            )
        } else {
            previews(dialog, images.drop_last())
        }
    }
}

/// The dialog after the user did something, and what it then tells its
/// surroundings. A submitted draft is kept, so that it can be submitted again if
/// the task could not be stored.
pub open spec fn acted(dialog: DialogView, action: DialogActionView) -> (
    DialogView,
    Option<DialogEventView>,
) {
    match action {
        DialogActionView::SelectWorkspace(id) => (
            DialogView {
                draft: DraftView { workspace_id: Some(id), ..dialog.draft },
                ..dialog
            },
            None,
        ),
        DialogActionView::SelectPriority(priority) => (
            DialogView { draft: DraftView { priority, ..dialog.draft }, ..dialog },
            None,
        ),
        DialogActionView::RemoveAttachment(index) => (
            DialogView {
                draft: dialog_state::without_image(dialog.draft, index),
                taken: dialog.taken.remove(index),
                ..dialog
            },
            None,
        ),
        DialogActionView::Submit => match dialog_state::submission(dialog.draft) {
            Ok(input) => (dialog, Some(DialogEventView::Submitted(input))),
            Err(error) => (DialogView { error: Some(error), ..dialog }, None),
        },
        DialogActionView::Cancel => (dialog, Some(DialogEventView::Cancelled)),
    }
}

/// Whether each image of a dialog has a preview in a slot of its own.
pub open spec fn has_slots(dialog: DialogView) -> bool {
    &&& dialog.taken.len() == dialog.draft.attachments.len()
    &&& dialog.taken.no_duplicates()
    &&& forall|i: int|
        0 <= i < dialog.taken.len() ==> dialog.slots.contains(#[trigger] dialog.taken[i])
}

impl DialogParts {
    /// No images, and no slots for any.
    fn empty() -> (parts: DialogParts)
        ensures
            has_slots(parts@),
    {
        let parts = DialogParts {
            state: TaskDialogState::default(),
            workspaces: Vec::new(),
            thumbnail_asset_slots: Vec::new(),
            thumbnail_asset_ids: Vec::new(),
            paste_error: None,
        };
        assert(parts@.taken =~= Seq::empty());
        parts
    }

    /// A slot for a preview that no image takes.
    fn free_slot(&self) -> (slot: Option<String>)
        ensures
            views::option_view(slot) == free_slot(self@.slots, self@.taken, 0),
    {
        let ghost slots = self@.slots;
        let ghost taken = self@.taken;
        let mut i: usize = 0;
        while i < self.thumbnail_asset_slots.len()
            invariant
                i <= self.thumbnail_asset_slots@.len(),
                slots == views::views(self.thumbnail_asset_slots@),
                taken == views::views(self.thumbnail_asset_ids@),
                free_slot(slots, taken, 0) == free_slot(slots, taken, i as int),
            decreases self.thumbnail_asset_slots@.len() - i,
        {
            assert(slots[i as int] == self.thumbnail_asset_slots@[i as int]@);
            if !holds(&self.thumbnail_asset_ids, self.thumbnail_asset_slots[i].as_str()) {
                return Some(self.thumbnail_asset_slots[i].clone());
            }
            i += 1;
        }
        None
    }

    /// Pastes one image. Returns the preview that is to be shown for it.
    fn paste_image(&mut self, image: ClipboardImage) -> (preview: Option<Thumbnail>)
        requires
            old(self)@.draft.added < usize::MAX,
        ensures
            final(self)@ == with_pasted_image(old(self)@, image@),
            ({
                let slot = free_slot(old(self)@.slots, old(self)@.taken, 0);
                if slot is Some && dialog_state::with_image(
                    old(self)@.draft,
                    image@.mime_type,
                    image@.data,
                ) is Ok {
                    preview is Some && preview->0@ == (ThumbnailView {
                        asset_id: slot->0,
                        bytes: image@.data,
                    })
                } else {
                    preview is None
                }
            }),
    {
        let slot = match self.free_slot() {
            Some(slot) => slot,
            None => {
                self.paste_error = Some("No se pudo reservar la previsualización.".to_owned());
                return None;
            },
        };
        match self.state.add_pasted_image(image.mime_type.as_str(), image.data) {
            Ok(()) => {
                let images = self.state.attachments();
                assert(views::views(images@).len() == images@.len());
                let last: usize = images.len() - 1;
                let bytes = images[last].shared_bytes();
                assert(views::views(images@)[last as int] == images@[last as int]@);
                let ghost before = self@.taken;
                self.thumbnail_asset_ids.push(slot.clone());
                assert(self@.taken =~= before.push(slot@));
                Some(Thumbnail { asset_id: slot, bytes })
            },
            Err(error) => {
                self.paste_error = Some(error.to_owned());
                None
            },
        }
    }

    /// Takes over what the user does. Returns what the dialog then tells its
    /// surroundings.
    fn act(&mut self, action: &TaskDialogAction) -> (told: Option<TaskDialogEvent>)
        requires
            action@ matches DialogActionView::RemoveAttachment(index) ==> index < old(
                self,
            )@.taken.len(),
        ensures
            (final(self)@, views::option_view(told)) == acted(old(self)@, action@),
    {
        match action {
            TaskDialogAction::SelectWorkspace(id) => {
                self.state.select_workspace(id.clone());
                None
            },
            TaskDialogAction::SelectPriority(priority) => {
                self.state.set_priority(*priority);
                None
            },
            TaskDialogAction::RemoveAttachment(index) => {
                let ghost before = self@.taken;
                self.state.remove_attachment(*index);
                self.thumbnail_asset_ids.remove(*index);
                assert(self@.taken =~= before.remove(*index as int));
                None
            },
            TaskDialogAction::Submit => {
                if !self.state.can_submit() {
                    let message = if self.state.workspace_id().is_none() {
                        "Select a workspace before creating a task."
                    } else {
                        "A task title is required."
                    };
                    self.paste_error = Some(message.to_owned());
                    return None;
                }
                match self.state.new_task_input_for_submission() {
                    Ok(input) => Some(TaskDialogEvent::Submitted(input)),
                    Err(error) => {
                        self.paste_error = Some(error.to_owned());
                        None
                    },
                }
            },
            TaskDialogAction::Cancel => Some(TaskDialogEvent::Cancelled),
        }
    }
}

impl TaskDialog {
    /// Each image has a preview in a slot of its own.
    #[verifier::type_invariant]
    closed spec fn is_valid(self) -> bool {
        has_slots(self@)
    }

    /// Takes the parts out, to change them and put them back.
    fn take(&mut self) -> (parts: DialogParts)
        ensures
            parts@ == old(self)@,
            has_slots(parts@),
    {
        proof {
            use_type_invariant(&*self);
        }
        let mut parts = DialogParts::empty();
        std::mem::swap(&mut parts, &mut self.parts);
        parts
    }

    /// An empty dialog whose previews are named after a namespace.
    pub fn in_namespace(namespace: &str) -> (dialog: TaskDialog)
        ensures
            dialog@ == (DialogView {
                draft: dialog_state::empty_draft(),
                workspaces: Seq::empty(),
                slots: slot_names(namespace@),
                taken: Seq::empty(),
                error: None,
            }),
    {
        let mut slots: Vec<String> = Vec::new();
        let ghost all = slot_names(namespace@);
        let mut slot: usize = 0;
        while slot < TaskDialogState::MAX_ATTACHMENTS
            invariant
                slot <= TaskDialogState::MAX_ATTACHMENTS,
                all == slot_names(namespace@),
                views::views(slots@) =~= all.take(slot as int),
            decreases TaskDialogState::MAX_ATTACHMENTS - slot,
        {
            let ghost before = views::views(slots@);
            let mut name = "task-dialog-thumbnail-".to_owned();
            name.append(namespace);
            name.append("-");
            name.append(decimal_text(slot as u64).as_str());
            slots.push(name);
            assert(views::views(slots@) =~= before.push(all[slot as int]));
            slot += 1;
        }
        assert(all.take(slot as int) =~= all);
        let parts = DialogParts {
            state: TaskDialogState::default(),
            workspaces: Vec::new(),
            thumbnail_asset_slots: slots,
            thumbnail_asset_ids: Vec::new(),
            paste_error: None,
        };
        assert(parts@.workspaces =~= Seq::empty());
        assert(parts@.taken =~= Seq::empty());
        TaskDialog { parts }
    }

    /// An empty dialog, whose previews are named after a random namespace.
    pub fn new() -> (dialog: TaskDialog)
        ensures
            exists|namespace: Seq<char>|
                outside::is_random_id(namespace) && dialog@ == (DialogView {
                    draft: dialog_state::empty_draft(),
                    workspaces: Seq::empty(),
                    slots: #[trigger] slot_names(namespace),
                    taken: Seq::empty(),
                    error: None,
                }),
    {
        let namespace = random_id();
        TaskDialog::in_namespace(namespace.as_str())
    }

    /// Opens the dialog with an empty draft, with the available ones of some
    /// workspaces to choose from.
    pub fn configure(
        &mut self,
        workspaces: Vec<DiscoveredWorkspace>,
        selected_workspace_id: Option<WorkspaceId>,
    )
        ensures
            final(self)@ == configured(
                old(self)@,
                views::views(workspaces@),
                views::option_view(selected_workspace_id),
            ),
    {
        let ghost all = views::views(workspaces@);
        let mut available: Vec<DiscoveredWorkspace> = Vec::new();
        proof {
            reveal(Seq::filter);
            assert(all.take(0) =~= Seq::empty());
        }
        for workspace in it: workspaces
            invariant
                all == views::views(it.seq()),
                it.index() <= all.len(),
                views::views(available@) =~= all.take(it.index() as int).filter(
                    |workspace: DiscoveredView| workspace.is_available,
                ),
        {
            let ghost at = it.index() as int;
            let ghost before = views::views(available@);
            proof {
                reveal(Seq::filter);
                assert(all.take(at + 1).drop_last() =~= all.take(at));
                assert(all[at] == workspace@);
            }
            if workspace.is_available {
                available.push(workspace);
                assert(views::views(available@) =~= before.push(workspace@));
            }
        }
        assert(all.take(all.len() as int) =~= all);
        let mut state = TaskDialogState::default();
        match selected_workspace_id {
            Some(id) => {
                if offers(&available, &id) {
                    state.select_workspace(id);
                }
            },
            None => {},
        }
        let before = self.take();
        let parts = DialogParts {
            state,
            workspaces: available,
            thumbnail_asset_slots: before.thumbnail_asset_slots,
            thumbnail_asset_ids: Vec::new(),
            paste_error: None,
        };
        assert(parts@.taken =~= Seq::empty());
        self.parts = parts;
    }

    /// The draft.
    pub fn state(&self) -> (state: &TaskDialogState)
        ensures
            state@ == self@.draft,
    {
        &self.parts.state
    }

    /// What the user is told.
    pub fn paste_error(&self) -> (error: Option<&String>)
        ensures
            views::option_view(error) == self@.error,
    {
        self.parts.paste_error.as_ref()
    }

    /// Whether the button that submits the draft is disabled.
    pub fn submit_disabled(&self) -> (disabled: bool)
        ensures
            disabled == !dialog_state::is_submittable(self@.draft),
    {
        !self.parts.state.can_submit()
    }

    /// Takes over what happens in the field of the title.
    pub fn handle_title_editor_event(&mut self, event: EditorEvent) -> (told: Option<
        TaskDialogEvent,
    >)
        ensures
            match event {
                EditorEvent::Edited(title) => told is None && final(self)@ == (DialogView {
                    draft: DraftView { title: title@, ..old(self)@.draft },
                    ..old(self)@
                }),
                EditorEvent::Escape => told is Some && told->0@ == DialogEventView::Cancelled
                    && final(self)@ == old(self)@,
                _ => told is None && final(self)@ == old(self)@,
            },
    {
        match event {
            EditorEvent::Edited(title) => {
                let mut parts = self.take();
                parts.state.set_title(title.as_str());
                self.parts = parts;
                None
            },
            EditorEvent::Escape => Some(TaskDialogEvent::Cancelled),
            _ => None,
        }
    }

    /// Takes over what happens in the field of the context. When the user pastes
    /// into it, the clipboard is to be read and pasted.
    pub fn handle_context_editor_event(&mut self, event: EditorEvent) -> (told: Option<
        TaskDialogEvent,
    >)
        ensures
            match event {
                EditorEvent::Edited(context) => told is None && final(self)@ == (DialogView {
                    draft: DraftView {
                        context: if context@.len() == 0 {
                            None
                        } else {
                            Some(context@)
                        },
                        ..old(self)@.draft
                    },
                    ..old(self)@
                }),
                EditorEvent::Escape => told is Some && told->0@ == DialogEventView::Cancelled
                    && final(self)@ == old(self)@,
                _ => told is None && final(self)@ == old(self)@,
            },
    {
        match event {
            EditorEvent::Edited(context) => {
                let mut parts = self.take();
                parts.state.set_context(Some(context));
                self.parts = parts;
                None
            },
            EditorEvent::Escape => Some(TaskDialogEvent::Cancelled),
            _ => None,
        }
    }

    /// A slot for a preview that no image takes.
    pub fn next_thumbnail_asset_id(&self) -> (slot: Option<String>)
        ensures
            views::option_view(slot) == free_slot(self@.slots, self@.taken, 0),
    {
        self.parts.free_slot()
    }

    /// Whether that many more images can be numbered.
    pub fn can_number(&self, images: usize) -> (possible: bool)
        ensures
            possible == (self@.draft.added + images <= usize::MAX),
    {
        self.parts.state.can_number(images)
    }

    /// Pastes the clipboard into the context: its text is appended, its images
    /// are added. Returns the previews that are to be shown.
    pub fn paste_context_from_clipboard(
        &mut self,
        plain_text: &str,
        images: Vec<ClipboardImage>,
    ) -> (shown: Vec<Thumbnail>)
        requires
            old(self)@.draft.added + images@.len() <= usize::MAX,
        ensures
            final(self)@ == pasted(old(self)@, plain_text@, views::views(images@)),
            views::views(shown@) == previews(
                (DialogView {
                    draft: dialog_state::with_text(old(self)@.draft, plain_text@),
                    error: None,
                    ..old(self)@
                }),
                views::views(images@),
            ),
    {
        let mut parts = self.take();
        parts.paste_error = None;
        parts.state.append_pasted_text(plain_text);
        let ghost start = parts@;
        let ghost all = views::views(images@);
        let mut shown: Vec<Thumbnail> = Vec::new();
        assert(all.take(0) =~= Seq::empty());
        assert(views::views(shown@) =~= Seq::empty());
        for image in it: images
            invariant
                all == views::views(it.seq()),
                it.index() <= all.len(),
                start.draft.added + all.len() <= usize::MAX,
                parts@ == with_pasted_images(start, all.take(it.index() as int)),
                parts@.draft.added <= start.draft.added + it.index(),
                views::views(shown@) == previews(start, all.take(it.index() as int)),
        {
            let ghost at = it.index() as int;
            let ghost before = views::views(shown@);
            assert(all.take(at + 1).drop_last() =~= all.take(at));
            assert(all[at] == image@);
            match parts.paste_image(image) {
                Some(preview) => {
                    shown.push(preview);
                    assert(views::views(shown@) =~= before.push(preview@));
                },
                None => {},
            }
        }
        proof {
            assert(all.take(all.len() as int) =~= all);
            law_pasting_keeps_slots(old(self)@, plain_text@, all);
        }
        self.parts = parts;
        shown
    }

    /// The text that the field of the context shows.
    pub fn context_text(&self) -> (shown: String)
        ensures
            shown@ == match self@.draft.context {
                Some(context) => context,
                None => Seq::empty(),
            },
    {
        match self.parts.state.context() {
            Some(context) => context.to_owned(),
            None => {
                let shown = String::new();
                assert(shown@ =~= Seq::empty());
                shown
            },
        }
    }

    /// Takes over what the user does. Returns what the dialog then tells its
    /// surroundings. Only an image that is there can be removed.
    pub fn handle_action(&mut self, action: &TaskDialogAction) -> (told: Option<TaskDialogEvent>)
        requires
            action@ matches DialogActionView::RemoveAttachment(index) ==> index < old(
                self,
            )@.draft.attachments.len(),
        ensures
            (final(self)@, views::option_view(told)) == acted(old(self)@, action@),
    {
        let mut parts = self.take();
        let told = parts.act(action);
        proof {
            law_acting_keeps_slots(old(self)@, action@);
        }
        self.parts = parts;
        told
    }
}

/// Whether a text is among others.
fn holds(texts: &Vec<String>, wanted: &str) -> (found: bool)
    ensures
        found == views::views(texts@).contains(wanted@),
{
    let ghost all = views::views(texts@);
    let mut i: usize = 0;
    while i < texts.len()
        invariant
            i <= texts@.len(),
            all == views::views(texts@),
            forall|k: int| 0 <= k < i ==> #[trigger] all[k] != wanted@,
        decreases texts@.len() - i,
    {
        assert(all[i as int] == texts@[i as int]@);
        if same_text(texts[i].as_str(), wanted) {
            return true;
        }
        i += 1;
    }
    false
}

/// Whether a workspace is among others.
fn offers(workspaces: &Vec<DiscoveredWorkspace>, id: &WorkspaceId) -> (found: bool)
    ensures
        found == (queue::workspace_with(views::views(workspaces@), id@) is Some),
{
    let ghost all = views::views(workspaces@);
    let mut i: usize = 0;
    while i < workspaces.len()
        invariant
            i <= workspaces@.len(),
            all == views::views(workspaces@),
            queue::workspace_position(all, id@, 0) == queue::workspace_position(
                all,
                id@,
                i as int,
            ),
        decreases workspaces@.len() - i,
    {
        assert(all[i as int] == workspaces@[i as int]@);
        if workspaces[i].id.is(id) {
            return true;
        }
        i += 1;
    }
    false
}

/// A workspace to choose.
#[derive(Debug, Eq, PartialEq)]
pub struct WorkspaceChoice {
    pub workspace_id: WorkspaceId,
    pub label: String,
    pub is_selected: bool,
}

/// A workspace to choose.
pub ghost struct WorkspaceChoiceView {
    pub workspace_id: Seq<char>,
    pub label: Seq<char>,
    pub is_selected: bool,
}

impl View for WorkspaceChoice {
    type V = WorkspaceChoiceView;

    open spec fn view(&self) -> WorkspaceChoiceView {
        WorkspaceChoiceView {
            workspace_id: self.workspace_id@,
            label: self.label@,
            is_selected: self.is_selected,
        }
    }
}

/// How a workspace is offered: the selected one has a check mark.
pub open spec fn workspace_choice(
    workspace: DiscoveredView,
    selected: Option<Seq<char>>,
) -> WorkspaceChoiceView {
    let is_selected = selected == Some(workspace.id);
    WorkspaceChoiceView {
        workspace_id: workspace.id,
        label: if is_selected {
            "✓ "@ + workspace.display_name
        } else {
            workspace.display_name
        },
        is_selected,
    }
}

/// A priority to choose.
#[derive(Debug, Eq, PartialEq)]
pub struct PriorityChoice {
    pub priority: TaskPriority,
    pub label: &'static str,
    pub is_selected: bool,
}

/// A priority to choose.
pub ghost struct PriorityChoiceView {
    pub priority: TaskPriority,
    pub label: Seq<char>,
    pub is_selected: bool,
}

impl View for PriorityChoice {
    type V = PriorityChoiceView;

    open spec fn view(&self) -> PriorityChoiceView {
        PriorityChoiceView {
            priority: self.priority,
            label: self.label@,
            is_selected: self.is_selected,
        }
    }
}

/// The priorities to choose, of which one is selected.
pub open spec fn priority_choices(selected: TaskPriority) -> Seq<PriorityChoiceView> {
    seq![
        PriorityChoiceView {
            priority: TaskPriority::High,
            label: "Alta"@,
            is_selected: selected == TaskPriority::High,
        },
        PriorityChoiceView {
            priority: TaskPriority::Normal,
            label: "Normal"@,
            is_selected: selected == TaskPriority::Normal,
        },
        PriorityChoiceView {
            priority: TaskPriority::Low,
            label: "Baja"@,
            is_selected: selected == TaskPriority::Low,
        },
    ]
}

/// A pasted image as it is listed: its preview, its name and type.
#[derive(Debug, Eq, PartialEq)]
pub struct AttachmentRow {
    pub asset_id: String,
    pub label: String,
}

/// A pasted image as it is listed.
pub ghost struct AttachmentRowView {
    pub asset_id: Seq<char>,
    pub label: Seq<char>,
}

impl View for AttachmentRow {
    type V = AttachmentRowView;

    open spec fn view(&self) -> AttachmentRowView {
        AttachmentRowView { asset_id: self.asset_id@, label: self.label@ }
    }
}

/// How the pasted images are listed.
pub open spec fn attachment_rows(dialog: DialogView) -> Seq<AttachmentRowView> {
    Seq::new(
        dialog.draft.attachments.len(),
        |i: int|
            AttachmentRowView {
                asset_id: dialog.taken[i],
                label: dialog.draft.attachments[i].file_name + " · "@
                    + dialog.draft.attachments[i].mime_type,
            },
    )
}

impl TaskDialog {
    /// The workspaces to choose.
    pub fn render_workspace_selector(&self) -> (choices: Vec<WorkspaceChoice>)
        ensures
            views::views(choices@) == self@.workspaces.map_values(
                |workspace: DiscoveredView|
                    workspace_choice(workspace, self@.draft.workspace_id),
            ),
    {
        let ghost all = self@.workspaces.map_values(
            |workspace: DiscoveredView| workspace_choice(workspace, self@.draft.workspace_id),
        );
        let mut choices: Vec<WorkspaceChoice> = Vec::new();
        let mut i: usize = 0;
        while i < self.parts.workspaces.len()
            invariant
                i <= self.parts.workspaces@.len(),
                all == self@.workspaces.map_values(
                    |workspace: DiscoveredView|
                        workspace_choice(workspace, self@.draft.workspace_id),
                ),
                views::views(choices@) =~= all.take(i as int),
            decreases self.parts.workspaces@.len() - i,
        {
            let workspace = &self.parts.workspaces[i];
            let ghost before = views::views(choices@);
            let is_selected = match self.parts.state.workspace_id() {
                Some(id) => id.is(&workspace.id),
                None => false,
            };
            let label = if is_selected {
                let mut label = "✓ ".to_owned();
                label.append(workspace.display_name.as_str());
                label
            } else {
                workspace.display_name.clone()
            };
            let choice = WorkspaceChoice {
                workspace_id: workspace.id.clone(),
                label,
                is_selected,
            };
            assert(self@.workspaces[i as int] == workspace@);
            assert(choice@ == all[i as int]);
            choices.push(choice);
            assert(views::views(choices@) =~= before.push(choice@));
            i += 1;
        }
        assert(all.take(i as int) =~= all);
        choices
    }

    /// What stands in the place of the workspaces where there are none.
    pub fn workspace_notice(&self) -> (notice: Option<&'static str>)
        ensures
            match notice {
                Some(notice) => self@.workspaces.len() == 0 && notice@
                    == "No available workspace was found."@,
                None => self@.workspaces.len() > 0,
            },
    {
        if self.parts.workspaces.len() == 0 {
            Some("No available workspace was found.")
        } else {
            None
        }
    }

    /// The priorities to choose.
    pub fn render_priority_selector(&self) -> (choices: Vec<PriorityChoice>)
        ensures
            views::views(choices@) == priority_choices(self@.draft.priority),
    {
        let selected = self.parts.state.priority();
        let mut choices: Vec<PriorityChoice> = Vec::new();
        choices.push(
            PriorityChoice {
                priority: TaskPriority::High,
                label: "Alta",
                is_selected: selected == TaskPriority::High,
            },
        );
        choices.push(
            PriorityChoice {
                priority: TaskPriority::Normal,
                label: "Normal",
                is_selected: selected == TaskPriority::Normal,
            },
        );
        choices.push(
            PriorityChoice {
                priority: TaskPriority::Low,
                label: "Baja",
                is_selected: selected == TaskPriority::Low,
            },
        );
        assert(views::views(choices@) =~= priority_choices(selected));
        choices
    }

    /// The list of the pasted images.
    pub fn render_attachments(&self) -> (rows: Vec<AttachmentRow>)
        ensures
            views::views(rows@) == attachment_rows(self@),
    {
        proof {
            use_type_invariant(self);
        }
        let ghost all = attachment_rows(self@);
        let images = self.parts.state.attachments();
        assert(views::views(images@).len() == images@.len());
        let mut rows: Vec<AttachmentRow> = Vec::new();
        let mut i: usize = 0;
        while i < images.len()
            invariant
                i <= images@.len(),
                views::views(images@) == self@.draft.attachments,
                images@.len() <= self.parts.thumbnail_asset_ids@.len(),
                all == attachment_rows(self@),
                views::views(rows@) =~= all.take(i as int),
            decreases images@.len() - i,
        {
            let image = &images[i];
            let ghost before = views::views(rows@);
            let mut label = image.file_name().to_owned();
            label.append(" · ");
            label.append(image.mime_type());
            assert(views::views(images@)[i as int] == image@);
            assert(self@.taken[i as int] == self.parts.thumbnail_asset_ids@[i as int]@);
            let row = AttachmentRow { asset_id: self.parts.thumbnail_asset_ids[i].clone(), label };
            assert(row@ == all[i as int]);
            rows.push(row);
            assert(views::views(rows@) =~= before.push(row@));
            i += 1;
        }
        assert(all.take(i as int) =~= all);
        rows
    }
}

/// One part of the form that the dialog shows.
#[derive(Debug, Eq, PartialEq)]
pub enum FormPart {
    /// What the next part is for.
    Label(&'static str),
    /// The workspaces to choose, or a notice in their place.
    Workspaces { choices: Vec<WorkspaceChoice>, notice: Option<&'static str> },
    /// The field of the title, with what stands in it while it is empty.
    TitleField(&'static str),
    Priorities(Vec<PriorityChoice>),
    /// The field of the context, with what stands in it while it is empty.
    ContextField(&'static str),
    Hint(&'static str),
    Error(String),
    Attachments(Vec<AttachmentRow>),
}

/// One part of the form that the dialog shows.
pub ghost enum FormPartView {
    Label(Seq<char>),
    Workspaces { choices: Seq<WorkspaceChoiceView>, notice: Option<Seq<char>> },
    TitleField(Seq<char>),
    Priorities(Seq<PriorityChoiceView>),
    ContextField(Seq<char>),
    Hint(Seq<char>),
    Error(Seq<char>),
    Attachments(Seq<AttachmentRowView>),
}

impl View for FormPart {
    type V = FormPartView;

    open spec fn view(&self) -> FormPartView {
        match self {
            FormPart::Label(text) => FormPartView::Label(text@),
            FormPart::Workspaces { choices, notice } => FormPartView::Workspaces {
                choices: views::views(choices@),
                notice: match notice {
                    Some(notice) => Some(notice@),
                    None => None,
                },
            },
            FormPart::TitleField(text) => FormPartView::TitleField(text@),
            FormPart::Priorities(choices) => FormPartView::Priorities(views::views(choices@)),
            FormPart::ContextField(text) => FormPartView::ContextField(text@),
            FormPart::Hint(text) => FormPartView::Hint(text@),
            FormPart::Error(text) => FormPartView::Error(text@),
            FormPart::Attachments(rows) => FormPartView::Attachments(views::views(rows@)),
        }
    }
}

/// The parts that the form always has, the workspace first: it is what a task
/// cannot do without.
pub open spec fn fixed_parts(dialog: DialogView) -> Seq<FormPartView> {
    seq![
        FormPartView::Label("Espacio de trabajo"@),
        FormPartView::Workspaces {
            choices: dialog.workspaces.map_values(
                |workspace: DiscoveredView|
                    workspace_choice(workspace, dialog.draft.workspace_id),
            ),
            notice: if dialog.workspaces.len() == 0 {
                Some("No available workspace was found."@)
            } else {
                None
            },
        },
        FormPartView::Label("Título"@),
        FormPartView::TitleField("Describe the work to do"@),
        FormPartView::Label("Prioridad"@),
        FormPartView::Priorities(priority_choices(dialog.draft.priority)),
        FormPartView::Label("Contexto"@),
        FormPartView::ContextField("Markdown, links, acceptance criteria…"@),
        FormPartView::Hint(
            "Pega texto o capturas con ⌘V. No se suben archivos desde este diálogo."@,
        ),
    ]
}

/// The form that the dialog shows: what the user is told and the pasted images
/// come last, where there are any.
pub open spec fn form_parts(dialog: DialogView) -> Seq<FormPartView> {
    let told = match dialog.error {
        Some(error) => seq![FormPartView::Error(error)],
        None => Seq::empty(),
    };
    let images = if dialog.draft.attachments.len() > 0 {
        seq![FormPartView::Attachments(attachment_rows(dialog))]
    } else {
        Seq::empty()
    };
    fixed_parts(dialog) + told + images
}

impl TaskDialog {
    /// The form that the dialog shows.
    pub fn render(&self) -> (parts: Vec<FormPart>)
        ensures
            views::views(parts@) == form_parts(self@),
    {
        let mut parts: Vec<FormPart> = Vec::new();
        parts.push(FormPart::Label("Espacio de trabajo"));
        parts.push(
            FormPart::Workspaces {
                choices: self.render_workspace_selector(),
                notice: self.workspace_notice(),
            },
        );
        parts.push(FormPart::Label("Título"));
        parts.push(FormPart::TitleField("Describe the work to do"));
        parts.push(FormPart::Label("Prioridad"));
        parts.push(FormPart::Priorities(self.render_priority_selector()));
        parts.push(FormPart::Label("Contexto"));
        parts.push(FormPart::ContextField("Markdown, links, acceptance criteria…"));
        parts.push(
            FormPart::Hint("Pega texto o capturas con ⌘V. No se suben archivos desde este diálogo."),
        );
        assert(views::views(parts@) =~= fixed_parts(self@));
        match &self.parts.paste_error {
            Some(error) => {
                parts.push(FormPart::Error(error.clone()));
            },
            None => {},
        }
        let images = self.parts.state.attachments();
        assert(views::views(images@).len() == images@.len());
        if images.len() > 0 {
            parts.push(FormPart::Attachments(self.render_attachments()));
        }
        assert(views::views(parts@) =~= form_parts(self@));
        parts
    }
}

/// A free slot is one of the slots, and none that is taken.
proof fn lemma_free_slot(slots: Seq<Seq<char>>, taken: Seq<Seq<char>>, from: int)
    requires
        0 <= from,
    ensures
        free_slot(slots, taken, from) matches Some(slot) ==> slots.contains(slot)
            && !taken.contains(slot),
    decreases slots.len() - from,
{
    if from < slots.len() && taken.contains(slots[from]) {
        lemma_free_slot(slots, taken, from + 1);
    }
}

/// Pasting one image keeps one slot for each image.
proof fn lemma_pasted_image_keeps_slots(dialog: DialogView, image: ClipboardImageView)
    requires
        has_slots(dialog),
    ensures
        has_slots(with_pasted_image(dialog, image)),
{
    lemma_free_slot(dialog.slots, dialog.taken, 0);
    let next = with_pasted_image(dialog, image);
    if next.taken.len() > dialog.taken.len() {
        let slot = free_slot(dialog.slots, dialog.taken, 0)->0;
        assert(next.taken == dialog.taken.push(slot));
        assert forall|i: int, j: int|
            0 <= i < next.taken.len() && 0 <= j < next.taken.len() && i != j implies next.taken[i]
            != next.taken[j] by {
            if i < dialog.taken.len() {
                assert(next.taken[i] == dialog.taken[i]);
            }
            if j < dialog.taken.len() {
                assert(next.taken[j] == dialog.taken[j]);
            }
        }
        assert forall|i: int| 0 <= i < next.taken.len() implies next.slots.contains(
            #[trigger] next.taken[i],
        ) by {
            if i < dialog.taken.len() {
                assert(next.taken[i] == dialog.taken[i]);
            }
        }
    }
}

/// Pasting images, one after the other, keeps one slot for each image.
proof fn lemma_pasted_images_keep_slots(dialog: DialogView, images: Seq<ClipboardImageView>)
    requires
        has_slots(dialog),
    ensures
        has_slots(with_pasted_images(dialog, images)),
    decreases images.len(),
{
    if images.len() > 0 {
        lemma_pasted_images_keep_slots(dialog, images.drop_last());
        lemma_pasted_image_keeps_slots(
            with_pasted_images(dialog, images.drop_last()),
            images.last(),
        );
    }
}

/// Pasting the clipboard keeps one slot for each image.
pub proof fn law_pasting_keeps_slots(
    dialog: DialogView,
    plain_text: Seq<char>,
    images: Seq<ClipboardImageView>,
)
    requires
        has_slots(dialog),
    ensures
        has_slots(pasted(dialog, plain_text, images)),
{
    lemma_pasted_images_keep_slots(
        DialogView {
            draft: dialog_state::with_text(dialog.draft, plain_text),
            error: None,
            ..dialog
        },
        images,
    );
}

/// Opening the dialog again gives every slot free, and adds none.
pub proof fn law_opening_frees_slots(
    dialog: DialogView,
    workspaces: Seq<DiscoveredView>,
    selected: Option<Seq<char>>,
)
    ensures
        has_slots(configured(dialog, workspaces, selected)),
        configured(dialog, workspaces, selected).slots == dialog.slots,
        configured(dialog, workspaces, selected).taken.len() == 0,
{
}

/// Whatever the user does keeps one slot for each image: removing one gives its
/// slot free and keeps those of the others.
pub proof fn law_acting_keeps_slots(dialog: DialogView, action: DialogActionView)
    requires
        has_slots(dialog),
        action matches DialogActionView::RemoveAttachment(index) ==> 0 <= index
            < dialog.taken.len(),
    ensures
        has_slots(acted(dialog, action).0),
{
    if let DialogActionView::RemoveAttachment(index) = action {
        let next = acted(dialog, action).0;
        assert forall|i: int, j: int|
            0 <= i < next.taken.len() && 0 <= j < next.taken.len() && i != j implies next.taken[i]
            != next.taken[j] by {
            let k = if i < index { i } else { i + 1 };
            let l = if j < index { j } else { j + 1 };
            assert(next.taken[i] == dialog.taken[k]);
            assert(next.taken[j] == dialog.taken[l]);
        }
        assert forall|i: int| 0 <= i < next.taken.len() implies next.slots.contains(
            #[trigger] next.taken[i],
        ) by {
            let k = if i < index { i } else { i + 1 };
            assert(next.taken[i] == dialog.taken[k]);
        }
    }
}

/// However often images are pasted, previews take only the slots that the dialog
/// started with, at most one for each image that a task can have.
pub proof fn law_slots_are_bounded(dialog: DialogView, namespace: Seq<char>)
    requires
        has_slots(dialog),
        dialog.slots == slot_names(namespace),
    ensures
        dialog.taken.len() <= TaskDialogState::MAX_ATTACHMENTS,
{
    let taken = dialog.taken.to_set();
    let slots = dialog.slots.to_set();
    dialog.taken.unique_seq_to_set();
    vstd::seq_lib::seq_to_set_is_finite(dialog.slots);
    assert(taken.subset_of(slots)) by {
        assert forall|slot: Seq<char>| taken.contains(slot) implies slots.contains(slot) by {
            let i = choose|i: int| 0 <= i < dialog.taken.len() && dialog.taken[i] == slot;
            assert(dialog.slots.contains(dialog.taken[i]));
        }
    }
    vstd::set_lib::lemma_len_subset(taken, slots);
    dialog.slots.lemma_cardinality_of_set();
}

/// Submitting a draft keeps it, so that it can be submitted again.
pub proof fn law_submitting_keeps_the_draft(dialog: DialogView)
    ensures
        acted(dialog, DialogActionView::Submit).0.draft == dialog.draft,
        acted(dialog, DialogActionView::Submit).1 is Some <==> dialog_state::is_submittable(
            dialog.draft,
        ),
{
}

} // verus!
