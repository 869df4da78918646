//! What holds of all that is done in the dialog: what is offered, what pasting and
//! removing images does, and what is submitted.
use vstd::prelude::*;
use vstd::string::*;

use crate::dialog;
use crate::dialog::{
    ClipboardImageView, DialogActionView, DialogEventView, DialogView, FormPartView, ThumbnailView,
};
use crate::dialog_state;
use crate::dialog_state::DraftView;
use crate::numbers;
use crate::queue;
use crate::task::TaskPriority;
use crate::text;
use crate::workspace::DiscoveredView;

verus! {

/// An opened dialog offers exactly the workspaces that are available, and the draft
/// is empty but for the workspace that was selected, where that one is available.
pub proof fn law_opened_dialog(
    before: DialogView,
    workspaces: Seq<DiscoveredView>,
    selected: Option<Seq<char>>,
    workspace: DiscoveredView,
)
    ensures
        ({
            let after = dialog::configured(before, workspaces, selected);
            &&& after.workspaces.contains(workspace) <==> workspaces.contains(workspace)
                && workspace.is_available
            &&& after.draft.title.len() == 0
            &&& after.draft.context is None
            &&& after.draft.priority == TaskPriority::Normal
            &&& after.draft.attachments.len() == 0
            &&& after.draft.added == 0
            &&& after.error is None
            &&& after.slots == before.slots
            &&& after.draft.workspace_id is Some ==> after.draft.workspace_id == selected
            &&& workspaces.contains(workspace) && workspace.is_available && selected == Some(
                workspace.id,
            ) ==> after.draft.workspace_id == selected
            &&& after.draft.workspace_id is Some ==> exists|other: DiscoveredView| #[trigger]
                workspaces.contains(other) && other.is_available && Some(other.id) == selected
        }),
{
    broadcast use vstd::seq_lib::group_filter_ensures;

    let is_available = |other: DiscoveredView| other.is_available;
    let offered = workspaces.filter(is_available);
    let after = dialog::configured(before, workspaces, selected);
    assert(after.workspaces == offered);
    if workspaces.contains(workspace) && workspace.is_available {
        let i = choose|i: int| 0 <= i < workspaces.len() && workspaces[i] == workspace;
        assert(is_available(workspaces[i]));
        assert(offered.contains(workspaces[i]));
    }
    if offered.contains(workspace) {
        workspaces.lemma_filter_contains_rev(is_available, workspace);
        let i = choose|i: int| 0 <= i < offered.len() && offered[i] == workspace;
        assert(is_available(workspaces.filter(is_available)[i]));
    }
    if let Some(id) = selected {
        lemma_found_or_not(offered, id);
        if workspaces.contains(workspace) && workspace.is_available && workspace.id == id {
            let i = choose|i: int| 0 <= i < offered.len() && offered[i] == workspace;
            assert(offered[i].id == id);
        }
        if queue::workspace_with(offered, id) is Some {
            let i = choose|i: int| 0 <= i < offered.len() && (#[trigger] offered[i]).id == id;
            assert(offered.contains(offered[i]));
            workspaces.lemma_filter_contains_rev(is_available, offered[i]);
            assert(is_available(workspaces.filter(is_available)[i]));
            assert(workspaces.contains(offered[i]));
        }
    }
}

proof fn lemma_found_or_not(workspaces: Seq<DiscoveredView>, id: Seq<char>)
    ensures
        queue::workspace_with(workspaces, id) is Some <==> exists|i: int|
            0 <= i < workspaces.len() && (#[trigger] workspaces[i]).id == id,
{
    lemma_found_from(workspaces, id, 0);
}

proof fn lemma_found_from(workspaces: Seq<DiscoveredView>, id: Seq<char>, from: int)
    requires
        0 <= from <= workspaces.len(),
        forall|i: int| 0 <= i < from ==> (#[trigger] workspaces[i]).id != id,
    ensures
        queue::workspace_with(workspaces, id) is Some <==> exists|i: int|
            0 <= i < workspaces.len() && (#[trigger] workspaces[i]).id == id,
    decreases workspaces.len() - from,
{
    if from == workspaces.len() || workspaces[from].id == id {
        queue::law_workspace_is_found(workspaces, id, from);
    } else {
        lemma_found_from(workspaces, id, from + 1);
    }
}

proof fn lemma_slot_names_differ(namespace: Seq<char>, a: nat, b: nat)
    requires
        dialog::slot_name(namespace, a) == dialog::slot_name(namespace, b),
        a <= u64::MAX,
        b <= u64::MAX,
    ensures
        a == b,
{
    let head = "task-dialog-thumbnail-"@ + namespace + "-"@;
    assert(dialog::slot_name(namespace, a).skip(head.len() as int) =~= numbers::decimal(a));
    assert(dialog::slot_name(namespace, b).skip(head.len() as int) =~= numbers::decimal(b));
    numbers::law_decimal_round_trip(a as u64);
    numbers::law_decimal_round_trip(b as u64);
}

/// There are eight slots for previews, and no two of them have one name.
pub proof fn law_slots_differ(namespace: Seq<char>)
    ensures
        dialog::slot_names(namespace).len() == 8,
        dialog::slot_names(namespace).no_duplicates(),
{
    let slots = dialog::slot_names(namespace);
    assert forall|i: int, j: int|
        0 <= i < slots.len() && 0 <= j < slots.len() && i != j implies slots[i] != slots[j] by {
        if slots[i] == slots[j] {
            lemma_slot_names_differ(namespace, i as nat, j as nat);
        }
    }
}

proof fn lemma_no_free_slot(slots: Seq<Seq<char>>, taken: Seq<Seq<char>>, from: int)
    requires
        0 <= from <= slots.len(),
        dialog::free_slot(slots, taken, from) is None,
    ensures
        forall|i: int| from <= i < slots.len() ==> taken.contains(#[trigger] slots[i]),
    decreases slots.len() - from,
{
    if from < slots.len() {
        if taken.contains(slots[from]) {
            lemma_no_free_slot(slots, taken, from + 1);
        }
    }
}

/// Where fewer than eight previews are shown there is a free slot.
proof fn lemma_there_is_a_slot(before: DialogView, namespace: Seq<char>)
    requires
        before.slots == dialog::slot_names(namespace),
        before.taken.len() < 8,
    ensures
        dialog::free_slot(before.slots, before.taken, 0) is Some,
{
    if dialog::free_slot(before.slots, before.taken, 0) is None {
        law_slots_differ(namespace);
        lemma_no_free_slot(before.slots, before.taken, 0);
        let slots = before.slots.to_set();
        let taken = before.taken.to_set();
        before.slots.unique_seq_to_set();
        vstd::seq_lib::seq_to_set_is_finite(before.taken);
        assert(slots.subset_of(taken)) by {
            assert forall|slot: Seq<char>| slots.contains(slot) implies taken.contains(slot) by {
                let i = choose|i: int| 0 <= i < before.slots.len() && before.slots[i] == slot;
                assert(before.taken.contains(before.slots[i]));
            }
        }
        vstd::set_lib::lemma_len_subset(slots, taken);
        before.taken.lemma_cardinality_of_set();
    }
}

/// Whether an image can be attached to a task.
pub open spec fn is_attachable(image: ClipboardImageView) -> bool {
    forall|draft: DraftView|
        draft.attachments.len() < 8 ==> #[trigger] dialog_state::with_image(
            draft,
            image.mime_type,
            image.data,
        ) is Ok
}

/// Of several attachable images, those that were pasted so far are in the draft.
proof fn lemma_images_so_far(
    before: DialogView,
    images: Seq<ClipboardImageView>,
    namespace: Seq<char>,
)
    requires
        dialog::has_slots(before),
        before.slots == dialog::slot_names(namespace),
        before.draft.attachments.len() + images.len() <= 8,
        before.draft.added + images.len() <= usize::MAX,
        forall|i: int| 0 <= i < images.len() ==> is_attachable(#[trigger] images[i]),
    ensures
        ({
            let after = dialog::with_pasted_images(before, images);
            let n = before.draft.attachments.len();
            &&& dialog::has_slots(after)
            &&& after.slots == before.slots
            &&& after.error == before.error
            &&& after.draft.attachments.len() == n + images.len()
            &&& after.draft.attachments.take(n as int) == before.draft.attachments
            &&& after.draft.added == before.draft.added + images.len()
            &&& forall|i: int|
                0 <= i < images.len() ==> after.draft.attachments[n + i].bytes == (
                #[trigger] images[i]).data && after.draft.attachments[n + i].mime_type
                    == images[i].mime_type
            &&& after.draft.workspace_id == before.draft.workspace_id
            &&& after.draft.title == before.draft.title
            &&& after.draft.priority == before.draft.priority
            &&& after.draft.context == before.draft.context
        }),
    decreases images.len(),
{
    let n = before.draft.attachments.len();
    if images.len() == 0 {
        assert(before.draft.attachments.take(n as int) =~= before.draft.attachments);
    } else {
        let earlier = images.drop_last();
        assert forall|i: int| 0 <= i < earlier.len() implies is_attachable(
            #[trigger] earlier[i],
        ) by {
            assert(earlier[i] == images[i]);
        }
        lemma_images_so_far(before, earlier, namespace);
        let middle = dialog::with_pasted_images(before, earlier);
        let image = images.last();
        assert(is_attachable(images[images.len() - 1]));
        lemma_there_is_a_slot(middle, namespace);
        assert(dialog_state::with_image(middle.draft, image.mime_type, image.data) is Ok);
        let after = dialog::with_pasted_images(before, images);
        dialog::law_pasting_keeps_slots(
            DialogView { error: None, ..middle },
            Seq::empty(),
            seq![image],
        );
        let again = DialogView { error: None, ..middle };
        assert(seq![image].drop_last() =~= Seq::empty());
        assert(dialog::with_pasted_images(again, seq![image].drop_last()) == again);
        assert(dialog::pasted(again, Seq::empty(), seq![image]) == dialog::with_pasted_image(
            again,
            image,
        ));
        assert(after.taken == dialog::with_pasted_image(again, image).taken);
        assert(after.draft == dialog::with_pasted_image(again, image).draft);
        assert(after.draft.attachments.take(n as int) =~= middle.draft.attachments.take(n as int));
        assert forall|i: int| 0 <= i < images.len() implies after.draft.attachments[n + i].bytes == (
        #[trigger] images[i]).data && after.draft.attachments[n + i].mime_type
            == images[i].mime_type by {
            if i < earlier.len() {
                assert(earlier[i] == images[i]);
                assert(after.draft.attachments[n + i] == middle.draft.attachments[n + i]);
            }
        }
    }
}

/// Pasting appends the text to the context and attaches every image that can be
/// attached, as long as the task has room for it, in order and with its bytes; the
/// user is told of nothing, and the rest of the draft stays as it was.
pub proof fn law_pasting_attaches_every_image(
    before: DialogView,
    plain_text: Seq<char>,
    images: Seq<ClipboardImageView>,
    namespace: Seq<char>,
)
    requires
        dialog::has_slots(before),
        before.slots == dialog::slot_names(namespace),
        before.draft.attachments.len() + images.len() <= 8,
        before.draft.added + images.len() <= usize::MAX,
        forall|i: int| 0 <= i < images.len() ==> is_attachable(#[trigger] images[i]),
    ensures
        ({
            let after = dialog::pasted(before, plain_text, images);
            let n = before.draft.attachments.len();
            &&& after.error is None
            &&& dialog_state::context_of(after.draft) == dialog_state::context_of(before.draft)
                + plain_text
            &&& after.draft.attachments.len() == n + images.len()
            &&& after.draft.attachments.take(n as int) == before.draft.attachments
            &&& forall|i: int|
                0 <= i < images.len() ==> after.draft.attachments[n + i].bytes == (
                #[trigger] images[i]).data && after.draft.attachments[n + i].mime_type
                    == images[i].mime_type
            &&& after.draft.workspace_id == before.draft.workspace_id
            &&& after.draft.title == before.draft.title
            &&& after.draft.priority == before.draft.priority
        }),
{
    let start = DialogView {
        draft: dialog_state::with_text(before.draft, plain_text),
        error: None,
        ..before
    };
    dialog_state::law_pasting_text(before.draft, plain_text);
    lemma_images_so_far(start, images, namespace);
}

/// An image that is refused changes nothing in the draft, and the user is told why.
pub proof fn law_refused_image_is_reported(before: DialogView, image: ClipboardImageView)
    requires
        dialog_state::with_image(before.draft, image.mime_type, image.data) is Err,
    ensures
        dialog::with_pasted_image(before, image).draft == before.draft,
        dialog::with_pasted_image(before, image).taken == before.taken,
        dialog::with_pasted_image(before, image).error is Some,
        dialog::free_slot(before.slots, before.taken, 0) is Some ==> dialog::with_pasted_image(
            before,
            image,
        ).error == Some(
            dialog_state::with_image(before.draft, image.mime_type, image.data)->Err_0,
        ),
{
}

/// A refused image does not keep the others from being attached: what is attached of
/// several is what is attached of the others.
pub proof fn law_refused_image_hides_no_other(
    before: DialogView,
    images: Seq<ClipboardImageView>,
    image: ClipboardImageView,
)
    requires
        dialog_state::with_image(
            dialog::with_pasted_images(before, images).draft,
            image.mime_type,
            image.data,
        ) is Err,
    ensures
        dialog::with_pasted_images(before, images.push(image)).draft
            == dialog::with_pasted_images(before, images).draft,
        dialog::with_pasted_images(before, images.push(image)).taken
            == dialog::with_pasted_images(before, images).taken,
{
    assert(images.push(image).drop_last() =~= images);
}

/// The previews that are shown after pasting are those of the images that were
/// attached: each in the slot that it takes, with its bytes.
pub proof fn law_previews_show_what_was_attached(
    before: DialogView,
    images: Seq<ClipboardImageView>,
)
    requires
        before.taken.len() == before.draft.attachments.len(),
    ensures
        ({
            let after = dialog::with_pasted_images(before, images);
            let shown = dialog::previews(before, images);
            let n = before.draft.attachments.len();
            &&& after.draft.attachments.len() == n + shown.len()
            &&& after.taken.len() == n + shown.len()
            &&& forall|i: int|
                0 <= i < shown.len() ==> (#[trigger] shown[i]).asset_id == after.taken[n + i]
                    && shown[i].bytes == after.draft.attachments[n + i].bytes
        }),
    decreases images.len(),
{
    if images.len() > 0 {
        let earlier = images.drop_last();
        law_previews_show_what_was_attached(before, earlier);
        let middle = dialog::with_pasted_images(before, earlier);
        let after = dialog::with_pasted_images(before, images);
        let shown = dialog::previews(before, images);
        let fewer = dialog::previews(before, earlier);
        let n = before.draft.attachments.len();
        assert forall|i: int| 0 <= i < shown.len() implies (#[trigger] shown[i]).asset_id
            == after.taken[n + i] && shown[i].bytes == after.draft.attachments[n + i].bytes by {
            if i < fewer.len() {
                assert(shown[i] == fewer[i]);
                assert(after.taken[n + i] == middle.taken[n + i]);
                assert(after.draft.attachments[n + i] == middle.draft.attachments[n + i]);
            }
        }
    }
}

/// Choosing a workspace or a priority changes that and nothing else, and tells the
/// surroundings nothing.
pub proof fn law_choosing(before: DialogView, id: Seq<char>, priority: TaskPriority)
    ensures
        ({
            let (after, told) = dialog::acted(before, DialogActionView::SelectWorkspace(id));
            &&& after == (DialogView {
                draft: DraftView { workspace_id: Some(id), ..before.draft },
                ..before
            })
            &&& told is None
        }),
        ({
            let (after, told) = dialog::acted(before, DialogActionView::SelectPriority(priority));
            &&& after == (DialogView { draft: DraftView { priority, ..before.draft }, ..before })
            &&& told is None
        }),
{
}

/// Removing an image removes its preview too; every other image keeps its preview.
pub proof fn law_removing_keeps_the_other_previews(before: DialogView, index: int, i: int)
    requires
        before.taken.len() == before.draft.attachments.len(),
        0 <= index < before.taken.len(),
        0 <= i < before.taken.len(),
        i != index,
    ensures
        ({
            let (after, told) = dialog::acted(before, DialogActionView::RemoveAttachment(index));
            let k = if i < index {
                i
            } else {
                i - 1
            };
            &&& told is None
            &&& after.taken.len() == before.taken.len() - 1
            &&& after.draft.attachments.len() == before.draft.attachments.len() - 1
            &&& after.taken[k] == before.taken[i]
            &&& after.draft.attachments[k] == before.draft.attachments[i]
            &&& after.slots == before.slots
            &&& after.workspaces == before.workspaces
            &&& after.error == before.error
        }),
{
    dialog_state::law_removing_an_image(before.draft, index, i);
}

/// Submitting hands out what was entered, where a workspace is selected and the title
/// is not blank, and changes nothing; otherwise nothing is handed out and the user
/// is told what is missing. Cancelling changes nothing and says so.
pub proof fn law_submitting(before: DialogView)
    ensures
        ({
            let (after, told) = dialog::acted(before, DialogActionView::Submit);
            let has_title = exists|i: int|
                0 <= i < before.draft.title.len() && !text::is_white_space(
                    #[trigger] before.draft.title[i],
                );
            if before.draft.workspace_id is Some && has_title {
                &&& told == Some(
                    DialogEventView::Submitted(dialog_state::submission(before.draft)->Ok_0),
                )
                &&& dialog_state::submission(before.draft) is Ok
                &&& after == before
            } else {
                &&& told is None
                &&& after.draft == before.draft
                &&& after.error == Some(
                    if before.draft.workspace_id is None {
                        "Select a workspace before creating a task."@
                    } else {
                        "A task title is required."@
                    },
                )
            }
        }),
        dialog::acted(before, DialogActionView::Cancel) == (
            before,
            Some(DialogEventView::Cancelled),
        ),
{
    dialog_state::law_what_can_be_submitted(before.draft);
}

/// Each workspace is offered under its name, and the selected one has a mark.
pub proof fn law_workspace_choice(workspace: DiscoveredView, selected: Option<Seq<char>>)
    ensures
        ({
            let choice = dialog::workspace_choice(workspace, selected);
            &&& choice.workspace_id == workspace.id
            &&& choice.is_selected <==> selected == Some(workspace.id)
            &&& choice.label == if selected == Some(workspace.id) {
                "✓ "@ + workspace.display_name
            } else {
                workspace.display_name
            }
        }),
{
}

/// Every priority is offered once, and the selected one alone is marked.
pub proof fn law_priority_choices(selected: TaskPriority, priority: TaskPriority)
    ensures
        ({
            let choices = dialog::priority_choices(selected);
            &&& choices.len() == 3
            &&& exists|i: int|
                0 <= i < 3 && (#[trigger] choices[i]).priority == priority && choices[i].label
                    == crate::panel::priority_label(priority)
            &&& forall|i: int|
                0 <= i < 3 ==> ((#[trigger] choices[i]).is_selected <==> choices[i].priority
                    == selected)
        }),
{
    let choices = dialog::priority_choices(selected);
    assert(choices[0].priority == TaskPriority::High && choices[1].priority
        == TaskPriority::Normal && choices[2].priority == TaskPriority::Low);
}

/// The form shows every image under its name and type, with its preview, and what the
/// user is told, where there is any of them.
pub proof fn law_form(shown: DialogView, i: int)
    requires
        0 <= i < shown.draft.attachments.len(),
    ensures
        ({
            let rows = dialog::attachment_rows(shown);
            let parts = dialog::form_parts(shown);
            &&& rows.len() == shown.draft.attachments.len()
            &&& rows[i].asset_id == shown.taken[i]
            &&& rows[i].label == shown.draft.attachments[i].file_name + " · "@
                + shown.draft.attachments[i].mime_type
            &&& parts.contains(FormPartView::Attachments(rows))
            &&& shown.error matches Some(error) ==> parts.contains(FormPartView::Error(error))
        }),
{
    let parts = dialog::form_parts(shown);
    let rows = dialog::attachment_rows(shown);
    assert(parts[parts.len() - 1] == FormPartView::Attachments(rows));
    if let Some(error) = shown.error {
        assert(parts[9] == FormPartView::Error(error));
    }
}

/// The form offers the workspaces, with a notice where there are none, the
/// priorities, and fields for the title and the context; without an error and
/// without images it shows neither.
pub proof fn law_form_has_its_fields(shown: DialogView, w: int)
    ensures
        ({
            let parts = dialog::form_parts(shown);
            &&& parts[1] matches FormPartView::Workspaces { choices, notice } && {
                &&& choices.len() == shown.workspaces.len()
                &&& 0 <= w < shown.workspaces.len() ==> choices[w] == dialog::workspace_choice(
                    shown.workspaces[w],
                    shown.draft.workspace_id,
                )
                &&& notice is Some <==> shown.workspaces.len() == 0
            }
            &&& parts[3] is TitleField
            &&& parts[5] == FormPartView::Priorities(
                dialog::priority_choices(shown.draft.priority),
            )
            &&& parts[7] is ContextField
            &&& parts.len() == 9 + (if shown.error is Some {
                1int
            } else {
                0int
            }) + (if shown.draft.attachments.len() > 0 {
                1int
            } else {
                0int
            })
        }),
{
}

/// A preview takes the first slot that no other takes.
pub proof fn law_first_free_slot(slots: Seq<Seq<char>>, taken: Seq<Seq<char>>, from: int, k: int)
    requires
        0 <= from <= k <= slots.len(),
        forall|i: int| from <= i < k ==> taken.contains(#[trigger] slots[i]),
        k < slots.len() ==> !taken.contains(slots[k]),
    ensures
        dialog::free_slot(slots, taken, from) == if k < slots.len() {
            Some(slots[k])
        } else {
            None
        },
    decreases k - from,
{
    if from < k {
        assert(taken.contains(slots[from]));
        law_first_free_slot(slots, taken, from + 1, k);
    }
}

/// An image that is attached leaves what the user is told of the others, the
/// workspaces and the slots as they were.
pub proof fn law_attached_image_changes_nothing_else(before: DialogView, image: ClipboardImageView)
    requires
        dialog::free_slot(before.slots, before.taken, 0) is Some,
        dialog_state::with_image(before.draft, image.mime_type, image.data) is Ok,
    ensures
        ({
            let after = dialog::with_pasted_image(before, image);
            &&& after.error == before.error
            &&& after.workspaces == before.workspaces
            &&& after.slots == before.slots
            &&& after.draft == dialog_state::with_image(
                before.draft,
                image.mime_type,
                image.data,
            )->Ok_0
            &&& after.taken == before.taken.push(
                dialog::free_slot(before.slots, before.taken, 0)->0,
            )
        }),
{
}

} // verus!
