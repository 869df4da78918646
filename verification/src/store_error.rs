//! Why a task could not be stored or loaded.
use vstd::prelude::*;
use vstd::string::*;

use crate::outside;
use crate::outside::{debug_of, lossy_text_of};
use crate::path::LocalPath;

verus! {

/// Why a task could not be stored or loaded.
#[derive(Debug, Eq, PartialEq)]
pub enum TaskStoreError {
    /// The file system refused an operation on a path.
    Io { path: LocalPath, source: String },
    /// What is stored at a path cannot be used.
    Invalid { path: LocalPath, reason: String },
    WorkspaceMetadataMissing,
    WorkspaceMetadataMismatch,
    UnsafePathComponent(String),
    UnsafeAttachmentFilename(String),
    DuplicateAttachmentFilename(String),
}

/// What such an error says.
pub ghost enum StoreErrorView {
    Io { path: Seq<u8>, source: Seq<char> },
    Invalid { path: Seq<u8>, reason: Seq<char> },
    WorkspaceMetadataMissing,
    WorkspaceMetadataMismatch,
    UnsafePathComponent(Seq<char>),
    UnsafeAttachmentFilename(Seq<char>),
    DuplicateAttachmentFilename(Seq<char>),
}

impl View for TaskStoreError {
    type V = StoreErrorView;

    open spec fn view(&self) -> StoreErrorView {
        match self {
            TaskStoreError::Io { path, source } => StoreErrorView::Io {
                path: path@,
                source: source@,
            },
            TaskStoreError::Invalid { path, reason } => StoreErrorView::Invalid {
                path: path@,
                reason: reason@,
            },
            TaskStoreError::WorkspaceMetadataMissing => StoreErrorView::WorkspaceMetadataMissing,
            TaskStoreError::WorkspaceMetadataMismatch => StoreErrorView::WorkspaceMetadataMismatch,
            TaskStoreError::UnsafePathComponent(value) => StoreErrorView::UnsafePathComponent(
                value@,
            ),
            TaskStoreError::UnsafeAttachmentFilename(
                value,
            ) => StoreErrorView::UnsafeAttachmentFilename(value@),
            TaskStoreError::DuplicateAttachmentFilename(
                value,
            ) => StoreErrorView::DuplicateAttachmentFilename(value@),
        }
    }
}

/// The text of an error.
pub open spec fn store_error_text(error: StoreErrorView) -> Seq<char> {
    match error {
        StoreErrorView::Io { path, source } => "task storage I/O failed for "@ + outside::shown_text(path)
            + ": "@ + source,
        StoreErrorView::Invalid { path, reason } => "task storage data at "@ + outside::shown_text(path)
            + " is invalid: "@ + reason,
        StoreErrorView::WorkspaceMetadataMissing =>
            "a task must include workspace metadata before it can be persisted"@,
        StoreErrorView::WorkspaceMetadataMismatch =>
            "workspace metadata does not match task workspace ID"@,
        StoreErrorView::UnsafePathComponent(value) => "unsafe task storage path component "@
            + outside::debug_text(value),
        StoreErrorView::UnsafeAttachmentFilename(value) => "unsafe attachment filename "@
            + outside::debug_text(value),
        StoreErrorView::DuplicateAttachmentFilename(value) => "duplicate attachment filename "@
            + outside::debug_text(value),
    }
}

/// A text followed by the `Debug` form of another.
pub(crate) fn with_debug(start: &str, value: &str) -> (text: String)
    ensures
        text@ == start@ + outside::debug_text(value@),
{
    let mut text = start.to_owned();
    text.append(debug_of(value).as_str());
    text
}

impl TaskStoreError {
    /// The text of the error.
    pub fn message(&self) -> (text: String)
        ensures
            text@ == store_error_text(self@),
    {
        match self {
            TaskStoreError::Io { path, source } => {
                let mut text = "task storage I/O failed for ".to_owned();
                text.append(lossy_text_of(path.as_bytes()).as_str());
                text.append(": ");
                text.append(source.as_str());
                text
            },
            TaskStoreError::Invalid { path, reason } => {
                let mut text = "task storage data at ".to_owned();
                text.append(lossy_text_of(path.as_bytes()).as_str());
                text.append(" is invalid: ");
                text.append(reason.as_str());
                text
            },
            TaskStoreError::WorkspaceMetadataMissing =>
                "a task must include workspace metadata before it can be persisted".to_owned(),
            TaskStoreError::WorkspaceMetadataMismatch =>
                "workspace metadata does not match task workspace ID".to_owned(),
            TaskStoreError::UnsafePathComponent(value) => with_debug(
                "unsafe task storage path component ",
                value.as_str(),
            ),
            TaskStoreError::UnsafeAttachmentFilename(value) => with_debug(
                "unsafe attachment filename ",
                value.as_str(),
            ),
            TaskStoreError::DuplicateAttachmentFilename(value) => with_debug(
                "duplicate attachment filename ",
                value.as_str(),
            ),
        }
    }
}

/// What is stored at a path cannot be used, for a reason.
pub fn invalid(path: &LocalPath, reason: &str) -> (error: TaskStoreError)
    ensures
        error@ == (StoreErrorView::Invalid { path: path@, reason: reason@ }),
{
    TaskStoreError::Invalid { path: path.clone(), reason: reason.to_owned() }
}

/// Whether a text holds another.
pub open spec fn says(text: Seq<char>, part: Seq<char>) -> bool {
    exists|before: Seq<char>, after: Seq<char>| text == #[trigger] (before + part + after)
}

/// The text of an error names the path that it is about, or the value, and gives the
/// reason.
pub proof fn law_error_text_says_what_failed(error: StoreErrorView)
    ensures
        match error {
            StoreErrorView::Io { path, source } => says(
                store_error_text(error),
                outside::shown_text(path),
            ) && says(store_error_text(error), source),
            StoreErrorView::Invalid { path, reason } => says(
                store_error_text(error),
                outside::shown_text(path),
            ) && says(store_error_text(error), reason),
            StoreErrorView::UnsafePathComponent(value) => says(
                store_error_text(error),
                outside::debug_text(value),
            ),
            StoreErrorView::UnsafeAttachmentFilename(value) => says(
                store_error_text(error),
                outside::debug_text(value),
            ),
            StoreErrorView::DuplicateAttachmentFilename(value) => says(
                store_error_text(error),
                outside::debug_text(value),
            ),
            _ => true,
        },
{
    let text = store_error_text(error);
    match error {
        StoreErrorView::Io { path, source } => {
            let shown = outside::shown_text(path);
            assert(text =~= "task storage I/O failed for "@ + shown + (": "@ + source));
            assert(text =~= ("task storage I/O failed for "@ + shown + ": "@) + source
                + Seq::<char>::empty());
        },
        StoreErrorView::Invalid { path, reason } => {
            let shown = outside::shown_text(path);
            assert(text =~= "task storage data at "@ + shown + (" is invalid: "@ + reason));
            assert(text =~= ("task storage data at "@ + shown + " is invalid: "@) + reason
                + Seq::<char>::empty());
        },
        StoreErrorView::UnsafePathComponent(value) => {
            assert(text =~= "unsafe task storage path component "@ + outside::debug_text(value)
                + Seq::<char>::empty());
        },
        StoreErrorView::UnsafeAttachmentFilename(value) => {
            assert(text =~= "unsafe attachment filename "@ + outside::debug_text(value)
                + Seq::<char>::empty());
        },
        StoreErrorView::DuplicateAttachmentFilename(value) => {
            assert(text =~= "duplicate attachment filename "@ + outside::debug_text(value)
                + Seq::<char>::empty());
        },
        _ => {},
    }
}

} // verus!
