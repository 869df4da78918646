use task_queue::dialog::{
    ClipboardImage, EditorEvent, FormPart, TaskDialog, TaskDialogAction, TaskDialogEvent,
};
use task_queue::dialog_state::{
    file_extension_for_mime_type, validate_raster_image_header, TaskDialogState,
};
use task_queue::path::LocalPath;
use task_queue::task::TaskPriority;
use task_queue::workspace::{DiscoveredWorkspace, WorkspaceId, WorkspaceSource};

#[test]
fn default_state_requires_a_workspace_and_title() {
    let state = TaskDialogState::default();

    assert!(!state.can_submit());
}

#[test]
fn workspace_and_nonblank_title_enable_submission() {
    let mut state = TaskDialogState::default();
    state.select_workspace(WorkspaceId::new("workspace-1"));
    state.set_title("  Document the task dialog  ");

    assert!(state.can_submit());
}

#[test]
fn pasted_text_is_appended_to_markdown_context() {
    let mut state = TaskDialogState::default();
    state.set_context(Some("Existing context".into()));
    state.append_pasted_text("\n\nAdditional context");

    assert_eq!(
        state.context(),
        Some("Existing context\n\nAdditional context")
    );
}

#[test]
fn pasted_images_keep_order_and_removing_first_keeps_second() {
    let mut state = TaskDialogState::default();
    state
        .add_pasted_image("image/png", png_bytes(0))
        .expect("first image should be accepted");
    state
        .add_pasted_image("image/png", png_bytes(1))
        .expect("second image should be accepted");

    assert_eq!(state.attachments()[0].file_name(), "pasted-image-1.png");
    assert_eq!(state.attachments()[1].file_name(), "pasted-image-2.png");

    state.remove_attachment(0);

    assert_eq!(state.attachments().len(), 1);
    assert_eq!(state.attachments()[0].file_name(), "pasted-image-2.png");
}

#[test]
fn attachment_limits_invalid_images_and_title_whitespace_are_enforced_in_memory() {
    let mut state = TaskDialogState::default();
    state.select_workspace(WorkspaceId::new("workspace-1"));
    state.set_title("  Keep only the useful title  ");
    state.set_priority(TaskPriority::High);

    assert_eq!(
        state
            .add_pasted_image("text/plain", vec![1])
            .expect_err("non-images must not be accepted"),
        "Only PNG, JPEG, GIF, WebP, or SVG images can be attached."
    );
    assert_eq!(
        state
            .add_pasted_image("image/png", vec![0, 1, 2])
            .expect_err("mismatched image bytes must not be accepted"),
        "Only PNG, JPEG, GIF, WebP, or SVG images can be attached."
    );

    for index in 0..TaskDialogState::MAX_ATTACHMENTS {
        state
            .add_pasted_image("image/png", png_bytes(index as u8))
            .expect("image within the small dialog limit should be accepted");
    }

    assert_eq!(
        state
            .add_pasted_image("image/png", png_bytes(9))
            .expect_err("the dialog has a documented attachment limit"),
        "A task can include at most 8 pasted images."
    );

    let input = state
        .into_new_task_input()
        .expect("valid state should submit");
    assert_eq!(input.title, "Keep only the useful title");
    assert_eq!(input.priority, TaskPriority::High);
    assert_eq!(input.attachments.len(), TaskDialogState::MAX_ATTACHMENTS);
}

fn png_bytes(last_byte: u8) -> Vec<u8> {
    vec![137, 80, 78, 71, 13, 10, 26, 10, last_byte]
}

fn png(width: u32, height: u32) -> Vec<u8> {
    let mut bytes = vec![137, 80, 78, 71, 13, 10, 26, 10];
    let mut header = width.to_be_bytes().to_vec();
    header.extend(height.to_be_bytes());
    header.extend([8, 6, 0, 0, 0]);
    for (kind, data) in [
        (b"IHDR", header),
        (b"IDAT", vec![1, 2, 3]),
        (b"IEND", Vec::new()),
    ] {
        bytes.extend((data.len() as u32).to_be_bytes());
        bytes.extend(kind);
        bytes.extend(data);
        bytes.extend([0, 0, 0, 0]);
    }
    bytes
}

const INVALID: &str = "The pasted image has an invalid or unsupported header.";
const TOO_LARGE: &str = "The pasted image is too large to attach.";

#[test]
fn headers_are_checked_against_the_limits() {
    assert_eq!(validate_raster_image_header("image/png", &png(4096, 4096)), Ok(()));
    assert_eq!(validate_raster_image_header("image/png", &png(4096, 4097)), Err(TOO_LARGE));
    assert_eq!(
        validate_raster_image_header("image/png", &png(u32::MAX, u32::MAX)),
        Err(TOO_LARGE)
    );
    assert_eq!(validate_raster_image_header("image/png", &png(0, 10)), Err(INVALID));
    assert_eq!(validate_raster_image_header("image/gif", &png(1, 1)), Err(INVALID));
    assert_eq!(validate_raster_image_header("image/jpeg", &png(1, 1)), Err(INVALID));
}

#[test]
fn complete_images_are_attached_and_broken_ones_refused() {
    let mut state = TaskDialogState::default();
    assert_eq!(state.add_pasted_image("image/png", png(2, 2)), Ok(()));
    let mut short = png(2, 2);
    short.pop();
    assert_eq!(state.add_pasted_image("image/png", short), Err(INVALID));
    assert_eq!(state.add_pasted_image("image/png", png(5000, 5000)), Err(TOO_LARGE));
    assert_eq!(
        state.add_pasted_image("image/png", vec![0; TaskDialogState::MAX_ATTACHMENT_BYTES + 1]),
        Err("Each pasted image must be 10 MiB or smaller.")
    );
    let signature = png_bytes(0)[..8].to_vec();
    assert_eq!(state.add_pasted_image("image/png", signature.clone()), Err(INVALID));
    for length in 10..16 {
        let mut cut = signature.clone();
        cut.resize(length, 0);
        assert_eq!(state.add_pasted_image("image/png", cut), Err(INVALID));
    }
    assert_eq!(state.add_pasted_image("image/jpeg", vec![0]), Err(INVALID));
    assert_eq!(state.add_pasted_image("image/jpeg", png(2, 2)), Err(INVALID));
    assert_eq!(state.add_pasted_image("image/webp", b"RIFX".to_vec()), Err(INVALID));
    assert_eq!(
        state.add_pasted_image("image/png", vec![0; 9]),
        Err("Only PNG, JPEG, GIF, WebP, or SVG images can be attached.")
    );
    let jpeg = vec![
        0xff, 0xd8, 0xff, 0xc0, 0, 8, 8, 0, 3, 0, 5, 1, 0xff, 0xda, 0, 2, 0x12, 0xff, 0xd9,
    ];
    assert_eq!(state.add_pasted_image("image/jpeg", jpeg), Ok(()));
    assert_eq!(state.attachments()[1].file_name(), "pasted-image-2.jpg");
    assert_eq!(state.attachments()[1].mime_type(), "image/jpeg");
    assert_eq!(state.attachments()[0].bytes(), png(2, 2).as_slice());
}

#[test]
fn a_webp_is_read_from_its_first_chunk() {
    let mut data = vec![0u8, 0, 0, 0x9d, 0x01, 0x2a, 4, 0, 6, 0];
    let mut bytes = b"RIFF".to_vec();
    bytes.extend(((4 + 8 + data.len()) as u32).to_le_bytes());
    bytes.extend(b"WEBPVP8 ");
    bytes.extend((data.len() as u32).to_le_bytes());
    bytes.append(&mut data);
    let mut state = TaskDialogState::default();
    assert_eq!(state.add_pasted_image("image/webp", bytes.clone()), Ok(()));
    assert_eq!(state.attachments()[0].file_name(), "pasted-image-1.webp");
    bytes.pop();
    assert_eq!(state.add_pasted_image("image/webp", bytes), Err(INVALID));
}

#[test]
fn extensions_follow_the_type() {
    assert_eq!(file_extension_for_mime_type("image/png"), "png");
    assert_eq!(file_extension_for_mime_type("image/jpeg"), "jpg");
    assert_eq!(file_extension_for_mime_type("image/webp"), "webp");
    assert_eq!(file_extension_for_mime_type("image/gif"), "img");
}

#[test]
fn an_empty_context_is_none() {
    let mut state = TaskDialogState::default();
    state.set_context(Some(String::new()));
    assert_eq!(state.context(), None);
    state.append_pasted_text("");
    assert_eq!(state.context(), None);
    state.append_pasted_text("text");
    assert_eq!(state.context(), Some("text"));
}

#[test]
fn a_draft_says_what_is_missing() {
    let mut state = TaskDialogState::default();
    state.set_title("title");
    assert_eq!(
        state.new_task_input_for_submission().err(),
        Some("Select a workspace before creating a task.")
    );
    state.select_workspace(WorkspaceId::new("w"));
    state.set_title(" \u{3000}\t\n ");
    assert_eq!(state.new_task_input_for_submission().err(), Some("A task title is required."));
    assert!(!state.can_submit());
}

#[test]
fn removing_an_image_that_is_not_there_changes_nothing() {
    let mut state = TaskDialogState::default();
    state.add_pasted_image("image/png", png_bytes(0)).expect("image is accepted");
    let before = state.clone();
    state.remove_attachment(1);
    assert_eq!(state, before);
}

#[test]
fn a_submitted_draft_carries_its_images_by_name() {
    let mut state = TaskDialogState::default();
    state.select_workspace(WorkspaceId::new("w"));
    state.set_title("t");
    state.set_context(Some("context".to_string()));
    state.add_pasted_image("image/png", png_bytes(7)).expect("image is accepted");
    let input = state.new_task_input_for_submission().expect("draft is complete");
    assert_eq!(input.description, "context");
    assert_eq!(input.attachments[0].file_name.as_deref(), Some("pasted-image-1.png"));
    assert_eq!(
        input.attachments[0].contents.as_ref().map(|bytes| bytes.to_vec()),
        Some(png_bytes(7))
    );
}

fn workspace(name: &str, available: bool) -> DiscoveredWorkspace {
    let path = LocalPath::from_text("/g").join_text(name);
    if available {
        DiscoveredWorkspace::available(WorkspaceSource::Github, path)
    } else {
        DiscoveredWorkspace::unavailable(WorkspaceSource::Github, path)
    }
}

fn image(mime_type: &str, data: Vec<u8>) -> ClipboardImage {
    ClipboardImage { mime_type: mime_type.to_string(), data }
}

#[test]
fn the_dialog_offers_available_workspaces() {
    let mut dialog = TaskDialog::new();
    let lost = workspace("lost", false);
    let one = workspace("one", true);
    dialog.configure(vec![lost.clone(), one.clone()], Some(lost.id.clone()));
    assert_eq!(dialog.state().workspace_id(), None);
    dialog.configure(vec![lost, one.clone(), workspace("two", true)], Some(one.id.clone()));
    let choices = dialog.render_workspace_selector();
    assert_eq!(choices[0].label, "✓ one");
    assert_eq!(choices[1].label, "two");
    assert!(choices[0].is_selected && !choices[1].is_selected);
    assert_eq!(dialog.workspace_notice(), None);
    dialog.configure(Vec::new(), None);
    assert_eq!(dialog.workspace_notice(), Some("No available workspace was found."));
}

#[test]
fn pasting_fills_slots_and_removing_frees_them() {
    let mut dialog = TaskDialog::in_namespace("n");
    let shown = dialog.paste_context_from_clipboard(
        "pasted",
        vec![
            image("image/png", png_bytes(0)),
            image("text/plain", vec![1]),
            image("image/png", png_bytes(2)),
        ],
    );
    assert_eq!(dialog.context_text(), "pasted");
    let slots: Vec<&str> = shown.iter().map(|preview| preview.asset_id.as_str()).collect();
    assert_eq!(slots, vec!["task-dialog-thumbnail-n-0", "task-dialog-thumbnail-n-1"]);
    assert_eq!(shown[1].bytes.as_slice(), png_bytes(2).as_slice());
    assert_eq!(
        dialog.paste_error().map(|error| error.as_str()),
        Some("Only PNG, JPEG, GIF, WebP, or SVG images can be attached.")
    );
    assert!(dialog.handle_action(&TaskDialogAction::RemoveAttachment(0)).is_none());
    assert_eq!(
        dialog.next_thumbnail_asset_id().as_deref(),
        Some("task-dialog-thumbnail-n-0")
    );
    let rows = dialog.render_attachments();
    assert_eq!(rows[0].asset_id, "task-dialog-thumbnail-n-1");
    assert_eq!(rows[0].label, "pasted-image-2.png · image/png");
}

#[test]
fn there_are_eight_slots() {
    let mut dialog = TaskDialog::new();
    let images = (0..9).map(|last| image("image/png", png_bytes(last))).collect();
    let shown = dialog.paste_context_from_clipboard("", images);
    assert_eq!(shown.len(), 8);
    assert!(shown[0].asset_id.starts_with("task-dialog-thumbnail-"));
    assert_eq!(shown[0].asset_id.len(), "task-dialog-thumbnail-".len() + 36 + 2);
    assert_eq!(
        dialog.paste_error().map(|error| error.as_str()),
        Some("No se pudo reservar la previsualización.")
    );
    assert_eq!(dialog.next_thumbnail_asset_id(), None);
    assert!(dialog.can_number(usize::MAX - 8));
    assert!(!dialog.can_number(usize::MAX - 7));
}

#[test]
fn submitting_keeps_the_draft() {
    let mut dialog = TaskDialog::new();
    let one = workspace("one", true);
    dialog.configure(vec![one.clone()], None);
    assert!(dialog.submit_disabled());
    assert!(dialog.handle_action(&TaskDialogAction::Submit).is_none());
    assert_eq!(
        dialog.paste_error().map(|error| error.as_str()),
        Some("Select a workspace before creating a task.")
    );
    dialog.handle_action(&TaskDialogAction::SelectWorkspace(one.id.clone()));
    assert!(dialog.handle_action(&TaskDialogAction::Submit).is_none());
    assert_eq!(
        dialog.paste_error().map(|error| error.as_str()),
        Some("A task title is required.")
    );
    dialog.handle_title_editor_event(EditorEvent::Edited("Work".to_string()));
    dialog.handle_action(&TaskDialogAction::SelectPriority(TaskPriority::Low));
    dialog.handle_context_editor_event(EditorEvent::Edited("why".to_string()));
    assert!(!dialog.submit_disabled());
    for _ in 0..2 {
        match dialog.handle_action(&TaskDialogAction::Submit) {
            Some(TaskDialogEvent::Submitted(input)) => {
                assert_eq!(input.title, "Work");
                assert_eq!(input.description, "why");
                assert_eq!(input.priority, TaskPriority::Low);
                assert_eq!(input.workspace_id, one.id);
            }
            other => panic!("expected a submission, got {:?}", other),
        }
    }
    let labels: Vec<(&str, bool)> = dialog
        .render_priority_selector()
        .iter()
        .map(|choice| (choice.label, choice.is_selected))
        .collect();
    assert_eq!(labels, vec![("Alta", false), ("Normal", false), ("Baja", true)]);
}

#[test]
fn escape_and_cancel_close_the_dialog() {
    let mut dialog = TaskDialog::new();
    assert!(matches!(
        dialog.handle_title_editor_event(EditorEvent::Escape),
        Some(TaskDialogEvent::Cancelled)
    ));
    assert!(matches!(
        dialog.handle_context_editor_event(EditorEvent::Escape),
        Some(TaskDialogEvent::Cancelled)
    ));
    assert!(matches!(
        dialog.handle_action(&TaskDialogAction::Cancel),
        Some(TaskDialogEvent::Cancelled)
    ));
    assert!(dialog.handle_title_editor_event(EditorEvent::Other).is_none());
    assert!(dialog.handle_context_editor_event(EditorEvent::Paste).is_none());
}

#[test]
fn the_form_shows_what_the_dialog_holds() {
    let mut dialog = TaskDialog::in_namespace("n");
    let one = workspace("one", true);
    dialog.configure(vec![one.clone()], Some(one.id.clone()));
    let parts = dialog.render();
    assert_eq!(parts.len(), 9);
    assert_eq!(parts[0], FormPart::Label("Espacio de trabajo"));
    assert_eq!(
        parts[1],
        FormPart::Workspaces { choices: dialog.render_workspace_selector(), notice: None }
    );
    assert_eq!(parts[2], FormPart::Label("Título"));
    assert_eq!(parts[3], FormPart::TitleField("Describe the work to do"));
    assert_eq!(parts[4], FormPart::Label("Prioridad"));
    assert_eq!(parts[5], FormPart::Priorities(dialog.render_priority_selector()));
    assert_eq!(parts[6], FormPart::Label("Contexto"));
    assert_eq!(parts[7], FormPart::ContextField("Markdown, links, acceptance criteria…"));
    assert_eq!(
        parts[8],
        FormPart::Hint("Pega texto o capturas con ⌘V. No se suben archivos desde este diálogo.")
    );

    dialog.paste_context_from_clipboard(
        "",
        vec![image("image/png", png(2, 3)), image("image/png", png(0, 3))],
    );
    let parts = dialog.render();
    assert_eq!(parts.len(), 11);
    assert_eq!(
        parts[9],
        FormPart::Error("The pasted image has an invalid or unsupported header.".to_string())
    );
    assert_eq!(parts[10], FormPart::Attachments(dialog.render_attachments()));
    dialog.configure(vec![one], None);
    assert_eq!(dialog.render().len(), 9);
    assert_eq!(
        dialog.next_thumbnail_asset_id().as_deref(),
        Some("task-dialog-thumbnail-n-0")
    );
}

#[test]
fn copies_are_equal() {
    let action = TaskDialogAction::SelectWorkspace(WorkspaceId::new("w"));
    assert!(matches!(
        action.clone(),
        TaskDialogAction::SelectWorkspace(id) if id == WorkspaceId::new("w")
    ));
    assert!(matches!(TaskDialogEvent::Cancelled.clone(), TaskDialogEvent::Cancelled));
}
