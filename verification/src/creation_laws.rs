//! What holds of every creation of a stored task, whatever the file system does.
use vstd::prelude::*;
use vstd::utf8::*;

use crate::attachment;
use crate::creation;
use crate::creation::{ActionView, CreationView, ReplyView, StageView};
use crate::markdown;
use crate::path;
use crate::round_trip;
use crate::store;
use crate::store_error::StoreErrorView;
use crate::task;
use crate::task::{AttachmentView, NewTaskView, TaskView};
use crate::workspace::TaskWorkspaceView;

verus! {

/// A creation after it was told what came of some operations.
#[verifier::opaque]
pub open spec fn run(start: CreationView, replies: Seq<ReplyView>) -> CreationView
    decreases replies.len(),
{
    if replies.len() == 0 {
        start
    } else {
        creation::advanced(run(start, replies.drop_last()), replies.last())
    }
}

/// The operations that a creation had performed.
#[verifier::opaque]
pub open spec fn performed(start: CreationView, replies: Seq<ReplyView>) -> Seq<ActionView>
    decreases replies.len(),
{
    if replies.len() == 0 {
        Seq::empty()
    } else {
        performed(start, replies.drop_last()).push(
            creation::next_action(run(start, replies.drop_last()))->0,
        )
    }
}

/// Whether each reply can come of the operation that it is for.
#[verifier::opaque]
pub open spec fn is_run(start: CreationView, replies: Seq<ReplyView>) -> bool
    decreases replies.len(),
{
    if replies.len() == 0 {
        true
    } else {
        let before = run(start, replies.drop_last());
        &&& is_run(start, replies.drop_last())
        &&& creation::next_action(before) is Some
        &&& creation::answers(creation::next_action(before)->0, replies.last())
    }
}

/// The operations that store the first attachments.
pub open spec fn attachment_steps(start: CreationView, names: Seq<Seq<char>>, n: int) -> Seq<
    ActionView,
>
    decreases n,
{
    if n <= 0 {
        Seq::empty()
    } else {
        let place = path::join(start.attachments(), encode_utf8(names[n - 1]));
        attachment_steps(start, names, n - 1).push(
            creation::store_attachment(start.task.attachments[n - 1], place),
        ).push(ActionView::SyncFile(place))
    }
}

/// The operations up to the attachments.
pub open spec fn first_steps(start: CreationView) -> Seq<ActionView> {
    seq![
        ActionView::CreateDirectory(start.root),
        ActionView::CreateDirectory(creation::staging_root(start.root)),
        ActionView::CreateDirectory(start.staging()),
        ActionView::CreateDirectory(start.attachments()),
    ]
}

/// The operations after the attachments: the task file, the index of workspaces
/// with the workspace of the task put in, and last the move of the folder to its
/// final place.
pub open spec fn last_steps(
    start: CreationView,
    text: Seq<char>,
    index: Seq<TaskWorkspaceView>,
) -> Seq<ActionView> {
    seq![
        ActionView::WriteText { path: store::task_file(start.staging()), text },
        ActionView::ReadIndex(creation::index_file(start.root)),
        ActionView::WriteIndex {
            path: creation::new_index_file(start.root),
            workspaces: store::upserted(index, start.workspace),
        },
        ActionView::Rename {
            from: creation::new_index_file(start.root),
            to: creation::index_file(start.root),
        },
        ActionView::CreateDirectory(
            store::workspace_folder(start.root, start.task.workspace_id),
        ),
        ActionView::CheckExists(start.home()),
        ActionView::Rename { from: start.staging(), to: start.home() },
    ]
}

/// Whether names are those of the first attachments, all safe and different.
pub open spec fn are_names(task: TaskView, names: Seq<Seq<char>>) -> bool {
    &&& names.len() <= task.attachments.len()
    &&& forall|i: int|
        0 <= i < names.len() ==> attachment::stored_name(task.attachments[i]) == Ok::<
            Seq<char>,
            StoreErrorView,
        >(#[trigger] names[i])
    &&& names.no_duplicates()
}

/// How many of the last operations lie behind a stage.
spec fn behind(stage: StageView) -> int {
    match stage {
        StageView::TaskFile(_) => 0,
        StageView::ReadIndex => 1,
        StageView::WriteIndex(_) => 2,
        StageView::ReplaceIndex => 3,
        StageView::WorkspaceFolder => 4,
        StageView::CheckFinal => 5,
        StageView::Publish => 6,
        StageView::Finished(Ok(_)) => 7,
        _ => -1,
    }
}

/// What was performed when a creation without an error is at a stage.
#[verifier::opaque]
spec fn is_on_plan(
    start: CreationView,
    now: CreationView,
    steps: Seq<ActionView>,
    text: Seq<char>,
    index: Seq<TaskWorkspaceView>,
) -> bool {
    let first = first_steps(start);
    let n = now.names.len() as int;
    match now.stage {
        StageView::Root => n == 0 && steps == first.take(0),
        StageView::StagingRoot => n == 0 && steps == first.take(1),
        StageView::Staging => n == 0 && steps == first.take(2),
        StageView::Attachments => n == 0 && steps == first.take(3),
        StageView::Store => n > 0 && steps == first + attachment_steps(start, now.names, n - 1),
        StageView::Sync => n > 0 && steps == first + attachment_steps(
            start,
            now.names,
            n - 1,
        ).push(creation::store_attachment(start.task.attachments[n - 1], now.place(n - 1))),
        StageView::Discard(_) => true,
        StageView::Finished(Err(_)) => true,
        _ => {
            &&& n == start.task.attachments.len()
            &&& markdown::rendered(creation::stored_task(start.task, now.names)) == Ok::<
                Seq<char>,
                StoreErrorView,
            >(text)
            &&& steps == first + attachment_steps(start, now.names, n) + last_steps(
                start,
                text,
                index,
            ).take(behind(now.stage))
            &&& now.stage is TaskFile ==> now.stage == StageView::TaskFile(text)
            &&& now.stage is WriteIndex ==> now.stage == StageView::WriteIndex(
                store::upserted(index, start.workspace),
            )
            &&& now.stage is Finished ==> now.stage == StageView::Finished(
                Ok::<TaskView, StoreErrorView>(creation::stored_task(start.task, now.names)),
            )
        },
    }
}

spec fn has_plan(start: CreationView, now: CreationView, steps: Seq<ActionView>) -> bool {
    exists|text: Seq<char>, index: Seq<TaskWorkspaceView>|
        is_on_plan(start, now, steps, text, index)
}

proof fn lemma_attachment_steps_prefix(
    start: CreationView,
    names: Seq<Seq<char>>,
    name: Seq<char>,
    n: int,
)
    requires
        n <= names.len(),
    ensures
        attachment_steps(start, names.push(name), n) == attachment_steps(start, names, n),
    decreases n,
{
    if n > 0 {
        lemma_attachment_steps_prefix(start, names, name, n - 1);
    }
}

proof fn lemma_next_attachment(
    start: CreationView,
    now: CreationView,
    steps: Seq<ActionView>,
)
    requires
        now.root == start.root,
        now.task == start.task,
        now.workspace == start.workspace,
        are_names(start.task, now.names),
        steps == first_steps(start) + attachment_steps(start, now.names, now.names.len() as int),
    ensures
        are_names(start.task, creation::next_attachment(now).names),
        has_plan(start, creation::next_attachment(now), steps),
{
    reveal(is_on_plan);
    let next = creation::next_attachment(now);
    let n = now.names.len() as int;
    let empty = Seq::<TaskWorkspaceView>::empty();
    if n >= start.task.attachments.len() {
        match markdown::rendered(creation::stored_task(now.task, now.names)) {
            Ok(text) => {
                assert(last_steps(start, text, empty).take(0) =~= Seq::empty());
                assert(steps =~= first_steps(start) + attachment_steps(start, now.names, n)
                    + last_steps(start, text, empty).take(0));
                assert(is_on_plan(start, next, steps, text, empty));
            },
            Err(_) => {
                assert(is_on_plan(start, next, steps, Seq::empty(), empty));
            },
        }
    } else {
        match attachment::stored_name(start.task.attachments[n]) {
            Ok(name) => {
                if !now.names.contains(name) {
                    let names = now.names.push(name);
                    assert forall|i: int| 0 <= i < names.len() implies attachment::stored_name(
                        start.task.attachments[i],
                    ) == Ok::<Seq<char>, StoreErrorView>(#[trigger] names[i]) by {
                        if i < n {
                            assert(names[i] == now.names[i]);
                        }
                    }
                    assert(names.no_duplicates()) by {
                        assert forall|i: int, j: int|
                            0 <= i < names.len() && 0 <= j < names.len() && i != j implies names[i]
                            != names[j] by {
                            if i == n {
                                assert(names[j] == now.names[j]);
                            } else if j == n {
                                assert(names[i] == now.names[i]);
                            }
                        }
                    }
                    lemma_attachment_steps_prefix(start, now.names, name, n);
                }
                assert(is_on_plan(start, next, steps, Seq::empty(), empty));
            },
            Err(_) => {
                assert(is_on_plan(start, next, steps, Seq::empty(), empty));
            },
        }
    }
}

/// One more operation.
#[verifier::rlimit(40)]
proof fn lemma_step(
    start: CreationView,
    now: CreationView,
    steps: Seq<ActionView>,
    reply: ReplyView,
)
    requires
        now.root == start.root,
        now.task == start.task,
        now.workspace == start.workspace,
        are_names(start.task, now.names),
        has_plan(start, now, steps),
        creation::next_action(now) is Some,
        creation::answers(creation::next_action(now)->0, reply),
    ensures
        are_names(start.task, creation::advanced(now, reply).names),
        has_plan(
            start,
            creation::advanced(now, reply),
            steps.push(creation::next_action(now)->0),
        ),
{
    reveal(is_on_plan);
    let (text, index) = choose|text: Seq<char>, index: Seq<TaskWorkspaceView>|
        is_on_plan(start, now, steps, text, index);
    let next = creation::advanced(now, reply);
    let after = steps.push(creation::next_action(now)->0);
    let first = first_steps(start);
    let n = now.names.len() as int;
    if reply is Failed || reply is Malformed {
        assert(is_on_plan(start, next, after, text, index));
    } else {
        match now.stage {
            StageView::Root => {
                assert(after =~= first.take(1));
                assert(is_on_plan(start, next, after, text, index));
            },
            StageView::StagingRoot => {
                assert(after =~= first.take(2));
                assert(is_on_plan(start, next, after, text, index));
            },
            StageView::Staging => {
                assert(after =~= first.take(3));
                assert(is_on_plan(start, next, after, text, index));
            },
            StageView::Attachments => {
                assert(after =~= first + attachment_steps(start, now.names, 0));
                lemma_next_attachment(start, now, after);
            },
            StageView::Store => {
                assert(after =~= first + attachment_steps(start, now.names, n - 1).push(
                    creation::store_attachment(start.task.attachments[n - 1], now.place(n - 1)),
                ));
                assert(is_on_plan(start, next, after, text, index));
            },
            StageView::Sync => {
                assert(after =~= first + attachment_steps(start, now.names, n));
                lemma_next_attachment(start, now, after);
            },
            StageView::ReadIndex => {
                let read = reply->Index_0;
                let before = last_steps(start, text, index);
                let last = last_steps(start, text, read);
                assert(before.take(1) =~= last.take(1));
                assert(last.take(2) =~= last.take(1).push(last[1]));
                assert(after =~= first + attachment_steps(start, now.names, n) + last.take(2));
                assert(is_on_plan(start, next, after, text, read));
            },
            StageView::Discard(_) => {
                assert(is_on_plan(start, next, after, text, index));
            },
            _ => {
                let last = last_steps(start, text, index);
                let k = behind(now.stage);
                assert(last.take(k + 1) =~= last.take(k).push(last[k]));
                assert(creation::next_action(now)->0 == last[k]);
                assert(after =~= first + attachment_steps(start, now.names, n) + last.take(k + 1));
                assert(is_on_plan(start, next, after, text, index));
            },
        }
    }
}

proof fn lemma_run(start: CreationView, replies: Seq<ReplyView>)
    requires
        start == creation::started(start.root, start.task, start.workspace),
        is_run(start, replies),
    ensures
        run(start, replies).root == start.root,
        run(start, replies).task == start.task,
        run(start, replies).workspace == start.workspace,
        are_names(start.task, run(start, replies).names),
        has_plan(start, run(start, replies), performed(start, replies)),
    decreases replies.len(),
{
    reveal(run);
    reveal(performed);
    reveal(is_run);
    if replies.len() == 0 {
        reveal(is_on_plan);
        assert(first_steps(start).take(0) =~= Seq::empty());
        assert(is_on_plan(start, start, Seq::empty(), Seq::empty(), Seq::empty()));
    } else {
        let before = replies.drop_last();
        lemma_run(start, before);
        lemma_step(start, run(start, before), performed(start, before), replies.last());
    }
}

/// A run is one without its last reply, and one more step.
pub proof fn lemma_last_reply(start: CreationView, replies: Seq<ReplyView>)
    requires
        is_run(start, replies),
        replies.len() > 0,
    ensures
        ({
            let before = run(start, replies.drop_last());
            &&& is_run(start, replies.drop_last())
            &&& creation::next_action(before) is Some
            &&& creation::answers(creation::next_action(before)->0, replies.last())
            &&& run(start, replies) == creation::advanced(before, replies.last())
        }),
{
    reveal(run);
    reveal(is_run);
}

/// The first part of a run is a run.
proof fn lemma_prefix_runs(start: CreationView, replies: Seq<ReplyView>, n: int)
    requires
        is_run(start, replies),
        0 <= n <= replies.len(),
    ensures
        is_run(start, replies.take(n)),
    decreases replies.len(),
{
    if n == replies.len() {
        assert(replies.take(n) =~= replies);
    } else {
        assert(is_run(start, replies.drop_last())) by {
            reveal(is_run);
        }
        assert(replies.drop_last().take(n) =~= replies.take(n));
        lemma_prefix_runs(start, replies.drop_last(), n);
    }
}

/// The step that follows the first part of a run.
proof fn lemma_run_step(start: CreationView, replies: Seq<ReplyView>, n: int)
    requires
        is_run(start, replies),
        0 <= n < replies.len(),
    ensures
        run(start, replies.take(n + 1)) == creation::advanced(
            run(start, replies.take(n)),
            replies[n],
        ),
        creation::next_action(run(start, replies.take(n))) is Some,
        creation::answers(creation::next_action(run(start, replies.take(n)))->0, replies[n]),
{
    lemma_prefix_runs(start, replies, n + 1);
    let part = replies.take(n + 1);
    assert(part.drop_last() =~= replies.take(n));
    reveal(run);
    reveal(is_run);
}

/// A creation succeeds exactly where the move of its folder does, and has then
/// nothing left to do.
proof fn lemma_last_step(now: CreationView, reply: ReplyView)
    requires
        creation::next_action(now) is Some,
        creation::answers(creation::next_action(now)->0, reply),
    ensures
        (creation::advanced(now, reply).stage matches StageView::Finished(Ok(_)))
            <==> now.stage is Publish && reply is Done,
{
}

proof fn lemma_plan_at_end(
    start: CreationView,
    now: CreationView,
    steps: Seq<ActionView>,
    task: TaskView,
)
    requires
        has_plan(start, now, steps),
        now.stage == StageView::Finished(Ok::<TaskView, StoreErrorView>(task)),
    ensures
        now.names.len() == start.task.attachments.len(),
        task == creation::stored_task(start.task, now.names),
        markdown::rendered(task) is Ok,
        exists|index: Seq<TaskWorkspaceView>|
            steps == first_steps(start) + attachment_steps(
                start,
                now.names,
                now.names.len() as int,
            ) + #[trigger] last_steps(start, markdown::rendered(task)->Ok_0, index),
{
    reveal(is_on_plan);
    let (text, index) = choose|text: Seq<char>, index: Seq<TaskWorkspaceView>|
        is_on_plan(start, now, steps, text, index);
    let last = last_steps(start, text, index);
    assert(last.take(7) =~= last);
    assert(text == markdown::rendered(task)->Ok_0);
    assert(steps == first_steps(start) + attachment_steps(
        start,
        now.names,
        now.names.len() as int,
    ) + last_steps(start, markdown::rendered(task)->Ok_0, index));
}

/// A task is refused before anything is written where it comes without its
/// workspace, under another identifier than that of its workspace, or with an
/// identifier that cannot name a folder; in no other case.
pub proof fn law_refused_input(input: NewTaskView)
    ensures
        input.workspace is None <==> creation::refused_input(input) == Some(
            StoreErrorView::WorkspaceMetadataMissing,
        ),
        input.workspace matches Some(workspace) ==> {
            &&& workspace.id != input.workspace_id <==> creation::refused_input(input) == Some(
                StoreErrorView::WorkspaceMetadataMismatch,
            )
            &&& workspace.id == input.workspace_id && !attachment::is_safe_component(workspace.id)
                <==> creation::refused_input(input) == Some(
                StoreErrorView::UnsafePathComponent(workspace.id),
            )
            &&& workspace.id == input.workspace_id && attachment::is_safe_component(workspace.id)
                <==> creation::refused_input(input) is None
        },
{
}

/// A task counts as created only after everything was written: its folder with
/// every attachment under its name, its file, and the index with its workspace;
/// then, as the last operation, the folder was moved to its final place.
pub proof fn law_created_means_written(
    start: CreationView,
    replies: Seq<ReplyView>,
    task: TaskView,
)
    requires
        start == creation::started(start.root, start.task, start.workspace),
        is_run(start, replies),
        run(start, replies).stage == StageView::Finished(Ok::<TaskView, StoreErrorView>(task)),
    ensures
        ({
            let names = run(start, replies).names;
            &&& names.len() == start.task.attachments.len()
            &&& are_names(start.task, names)
            &&& task == creation::stored_task(start.task, names)
            &&& markdown::rendered(task) is Ok
            &&& exists|index: Seq<TaskWorkspaceView>|
                performed(start, replies) == first_steps(start) + attachment_steps(
                    start,
                    names,
                    names.len() as int,
                ) + #[trigger] last_steps(start, markdown::rendered(task)->Ok_0, index)
        }),
{
    lemma_run(start, replies);
    lemma_plan_at_end(start, run(start, replies), performed(start, replies), task);
}

/// A task is not created where two of its attachments would have one name.
pub proof fn law_one_name_for_two_fails(
    start: CreationView,
    replies: Seq<ReplyView>,
    first: int,
    second: int,
)
    requires
        start == creation::started(start.root, start.task, start.workspace),
        is_run(start, replies),
        run(start, replies).stage is Finished,
        0 <= first < second < start.task.attachments.len(),
        attachment::stored_name(start.task.attachments[first]) is Ok,
        attachment::stored_name(start.task.attachments[first]) == attachment::stored_name(
            start.task.attachments[second],
        ),
    ensures
        run(start, replies).stage->Finished_0 is Err,
{
    if let Ok(task) = run(start, replies).stage->Finished_0 {
        law_created_means_written(start, replies, task);
        let names = run(start, replies).names;
        assert(Ok::<Seq<char>, StoreErrorView>(names[first]) == Ok::<Seq<char>, StoreErrorView>(
            names[second],
        ));
    }
}

/// A creation that failed published nothing: its folder was not moved to the
/// final place. One that succeeded published the folder as its last operation.
pub proof fn law_published_exactly_on_success(start: CreationView, replies: Seq<ReplyView>)
    requires
        start == creation::started(start.root, start.task, start.workspace),
        is_run(start, replies),
        replies.len() > 0,
        run(start, replies).stage is Finished,
    ensures
        run(start, replies).stage->Finished_0 is Ok <==> run(
            start,
            replies.drop_last(),
        ).stage is Publish && replies.last() is Done,
        forall|n: int|
            0 <= n < replies.len() - 1 && (#[trigger] run(start, replies.take(n))).stage is Publish
                ==> replies[n] is Failed,
{
    let end = replies.len() - 1;
    assert(replies.take(replies.len() as int) =~= replies);
    assert(replies.take(end) =~= replies.drop_last());
    lemma_run_step(start, replies, end);
    lemma_last_step(run(start, replies.drop_last()), replies.last());
    assert forall|n: int|
        0 <= n < end && (#[trigger] run(start, replies.take(n))).stage is Publish implies replies[n]
        is Failed by {
        lemma_run_step(start, replies, n);
        lemma_run_step(start, replies, n + 1);
        lemma_last_step(run(start, replies.take(n)), replies[n]);
    }
}

/// The only folder that a creation removes is the one it made for the task, and
/// it removes it only after an error.
pub proof fn law_removes_only_its_own_folder(start: CreationView, replies: Seq<ReplyView>)
    requires
        start == creation::started(start.root, start.task, start.workspace),
        is_run(start, replies),
    ensures
        creation::next_action(run(start, replies)) matches Some(
            ActionView::RemoveDirectory(folder),
        ) ==> folder == start.staging() && run(start, replies).stage is Discard,
{
    lemma_run(start, replies);
}

/// After an error nothing is written any more: the folder that was made for the
/// task is removed, and the error is the outcome whatever comes of that.
pub proof fn law_error_cleans_up(now: CreationView, reply: ReplyView, error: StoreErrorView)
    requires
        now.stage == StageView::Discard(error),
        reply is Done || reply is Failed,
    ensures
        creation::next_action(now) == Some(ActionView::RemoveDirectory(now.staging())),
        creation::advanced(now, reply).stage == StageView::Finished(
            Err::<TaskView, StoreErrorView>(error),
        ),
{
}

proof fn lemma_names_at_stage(start: CreationView, now: CreationView, steps: Seq<ActionView>)
    requires
        has_plan(start, now, steps),
    ensures
        now.stage is Store || now.stage is Sync ==> now.names.len() > 0,
{
    reveal(is_on_plan);
}

/// What a creation is about does not change, and the attachments so far have
/// their names.
pub proof fn lemma_run_keeps(start: CreationView, replies: Seq<ReplyView>)
    requires
        start == creation::started(start.root, start.task, start.workspace),
        is_run(start, replies),
    ensures
        run(start, replies).root == start.root,
        run(start, replies).task == start.task,
        run(start, replies).workspace == start.workspace,
        are_names(start.task, run(start, replies).names),
        run(start, replies).stage is Store || run(start, replies).stage is Sync ==> run(
            start,
            replies,
        ).names.len() > 0,
{
    lemma_run(start, replies);
    lemma_names_at_stage(start, run(start, replies), performed(start, replies));
}

proof fn lemma_stored_references(names: Seq<Seq<char>>, n: int)
    requires
        0 <= n <= names.len(),
        forall|i: int| 0 <= i < names.len() ==> attachment::is_safe_filename(#[trigger] names[i]),
    ensures
        markdown::first_refused(
            names.map_values(|name: Seq<char>| creation::stored_attachment(name)).take(n),
        ) is None,
    decreases n,
{
    let all = names.map_values(|name: Seq<char>| creation::stored_attachment(name));
    if n > 0 {
        lemma_stored_references(names, n - 1);
        assert(all.take(n).drop_last() =~= all.take(n - 1));
        assert(attachment::is_safe_filename(names[n - 1]));
        attachment::law_reference_is_accepted(names[n - 1]);
        assert(all.take(n).last() == creation::stored_attachment(names[n - 1]));
    }
}

/// What a created task is when it is loaded: the file that was written for it is
/// read as the task that its creator was given, but for what is not text in the
/// path of its workspace.
pub proof fn law_created_task_loads(
    start: CreationView,
    replies: Seq<ReplyView>,
    task: TaskView,
    file: Seq<u8>,
)
    requires
        start == creation::started(start.root, start.task, start.workspace),
        start.task.workspace == Some(start.workspace),
        start.workspace.id == start.task.workspace_id,
        is_run(start, replies),
        run(start, replies).stage == StageView::Finished(Ok::<TaskView, StoreErrorView>(task)),
    ensures
        markdown::rendered(task) is Ok,
        store::loaded_task(file, Ok(markdown::rendered(task)->Ok_0)) == Ok::<
            TaskView,
            StoreErrorView,
        >(round_trip::read_back(task)),
        valid_utf8(start.workspace.path) ==> round_trip::read_back(task) == task,
{
    law_created_means_written(start, replies, task);
    let names = run(start, replies).names;
    lemma_run(start, replies);
    assert forall|i: int| 0 <= i < task.attachments.len() implies round_trip::is_plain_reference(
        #[trigger] task.attachments[i],
    ) by {
        assert(attachment::stored_name(start.task.attachments[i]) == Ok::<
            Seq<char>,
            StoreErrorView,
        >(names[i]));
        assert(attachment::is_safe_filename(names[i]));
        attachment::law_reference_is_accepted(names[i]);
    }
    round_trip::law_task_reads_back(task, markdown::rendered(task)->Ok_0);
}

/// A task whose attachments have safe names can always be written.
pub proof fn law_stored_task_can_be_written(task: TaskView, names: Seq<Seq<char>>)
    requires
        task.workspace is Some,
        forall|i: int| 0 <= i < names.len() ==> attachment::is_safe_filename(#[trigger] names[i]),
    ensures
        markdown::rendered(creation::stored_task(task, names)) is Ok,
{
    let all = creation::stored_task(task, names).attachments;
    lemma_stored_references(names, names.len() as int);
    assert(all.take(names.len() as int) =~= all);
}

/// A stored task says what the task said: only its attachments change, each of
/// which it refers to by its name in its folder of attachments.
pub proof fn law_stored_task(task: TaskView, names: Seq<Seq<char>>, i: int)
    requires
        0 <= i < names.len(),
    ensures
        ({
            let stored = creation::stored_task(task, names);
            &&& stored.attachments.len() == names.len()
            &&& stored.attachments[i].path == path::join(
                encode_utf8("attachments"@),
                encode_utf8(names[i]),
            )
            &&& stored.attachments[i].file_name is None
            &&& stored.attachments[i].contents is None
        }),
{
}

/// Nothing but the attachments of a task changes when it is stored.
pub proof fn law_stored_task_keeps_the_rest(task: TaskView, names: Seq<Seq<char>>)
    ensures
        ({
            let stored = creation::stored_task(task, names);
            &&& stored.id == task.id
            &&& stored.workspace_id == task.workspace_id
            &&& stored.workspace == task.workspace
            &&& stored.title == task.title
            &&& stored.description == task.description
            &&& stored.priority == task.priority
            &&& stored.agent_kind == task.agent_kind
            &&& stored.status == task.status
            &&& stored.terminal_pane_id == task.terminal_pane_id
            &&& stored.attention_reason == task.attention_reason
            &&& stored.created_at_ms == task.created_at_ms
            &&& stored.updated_at_ms == task.updated_at_ms
            &&& stored.attachments.len() == names.len()
        }),
{
}

/// Bytes that an attachment holds are written as they are; the file of any other
/// attachment is copied.
pub proof fn law_attachment_is_stored(attachment: AttachmentView, place: Seq<u8>)
    ensures
        attachment.contents matches Some(bytes) ==> creation::store_attachment(attachment, place)
            == (ActionView::WriteBytes { path: place, bytes }),
        attachment.contents is None ==> creation::store_attachment(attachment, place) == (
        ActionView::CopyFile { from: attachment.path, to: place }),
{
}

proof fn lemma_attachment_steps(start: CreationView, names: Seq<Seq<char>>, n: int, i: int)
    requires
        0 <= i < n,
    ensures
        attachment_steps(start, names, n).len() == 2 * n,
        attachment_steps(start, names, n)[2 * i] == creation::store_attachment(
            start.task.attachments[i],
            path::join(start.attachments(), encode_utf8(names[i])),
        ),
    decreases n,
{
    let before = attachment_steps(start, names, n - 1);
    if n == 1 {
        assert(before =~= Seq::empty());
    } else {
        lemma_attachment_steps(start, names, n - 1, if i < n - 1 {
            i
        } else {
            0
        });
    }
    let all = attachment_steps(start, names, n);
    if i < n - 1 {
        assert(all[2 * i] == before[2 * i]);
    }
}

/// A task that was created says all that was asked for. It has one attachment for
/// each that was handed in, under the name of that one, and what that one holds was
/// stored under the same name in the folder of attachments.
pub proof fn law_created_task_is_what_was_asked_for(
    root: Seq<u8>,
    id: Seq<char>,
    input: NewTaskView,
    created_at_ms: u64,
    updated_at_ms: u64,
    replies: Seq<ReplyView>,
    task: TaskView,
    i: int,
)
    requires
        input.workspace is Some,
        ({
            let start = creation::started(
                root,
                task::new_task(id, input, created_at_ms, updated_at_ms),
                input.workspace->0,
            );
            &&& is_run(start, replies)
            &&& run(start, replies).stage == StageView::Finished(
                Ok::<TaskView, StoreErrorView>(task),
            )
        }),
    ensures
        task.id == id,
        task.workspace_id == input.workspace_id,
        task.workspace == input.workspace,
        task.title == input.title,
        task.description == input.description,
        task.priority == input.priority,
        task.agent_kind == input.agent_kind,
        task.status == task::TaskStatus::Pending,
        task.created_at_ms == created_at_ms,
        task.updated_at_ms == updated_at_ms,
        task.attachments.len() == input.attachments.len(),
        0 <= i < input.attachments.len() ==> {
            let start = creation::started(
                root,
                task::new_task(id, input, created_at_ms, updated_at_ms),
                input.workspace->0,
            );
            let handed = input.attachments[i];
            exists|name: Seq<char>|
                {
                    &&& attachment::stored_name(handed) == Ok::<Seq<char>, StoreErrorView>(name)
                    &&& task.attachments[i].path == path::join(
                        encode_utf8("attachments"@),
                        #[trigger] encode_utf8(name),
                    )
                    &&& performed(start, replies).contains(
                        match handed.contents {
                            Some(bytes) => ActionView::WriteBytes {
                                path: path::join(
                                    path::join(start.staging(), encode_utf8("attachments"@)),
                                    encode_utf8(name),
                                ),
                                bytes,
                            },
                            None => ActionView::CopyFile {
                                from: handed.path,
                                to: path::join(
                                    path::join(start.staging(), encode_utf8("attachments"@)),
                                    encode_utf8(name),
                                ),
                            },
                        },
                    )
                }
        },
{
    let start = creation::started(
        root,
        task::new_task(id, input, created_at_ms, updated_at_ms),
        input.workspace->0,
    );
    law_created_means_written(start, replies, task);
    let names = run(start, replies).names;
    law_stored_task_keeps_the_rest(start.task, names);
    if 0 <= i < input.attachments.len() {
        let n = names.len() as int;
        let index = choose|index: Seq<TaskWorkspaceView>|
            performed(start, replies) == first_steps(start) + attachment_steps(start, names, n)
                + #[trigger] last_steps(start, markdown::rendered(task)->Ok_0, index);
        lemma_attachment_steps(start, names, n, i);
        let steps = performed(start, replies);
        assert(steps[4 + 2 * i] == attachment_steps(start, names, n)[2 * i]);
        assert(steps.contains(steps[4 + 2 * i]));
        assert(attachment::stored_name(start.task.attachments[i]) == Ok::<
            Seq<char>,
            StoreErrorView,
        >(names[i]));
        law_stored_task(start.task, names, i);
        law_attachment_is_stored(
            start.task.attachments[i],
            path::join(start.attachments(), encode_utf8(names[i])),
        );
        let name = names[i];
        assert(task.attachments[i].path == path::join(
            encode_utf8("attachments"@),
            encode_utf8(name),
        ));
    }
}

/// Whatever fails is reported with what the file system said and with a path that
/// the operation was about, and nothing more is done but to clean up.
pub proof fn law_failure_is_reported(now: CreationView, source: Seq<char>)
    requires
        creation::next_action(now) is Some,
        now.stage !is Discard,
        !(creation::next_action(now)->0 is CheckExists),
    ensures
        ({
            let action = creation::next_action(now)->0;
            let after = creation::advanced(now, ReplyView::Failed(source));
            let error = match after.stage {
                StageView::Finished(Err(error)) => Some(error),
                StageView::Discard(error) => Some(error),
                _ => None,
            };
            &&& error matches Some(StoreErrorView::Io { path, source: said }) && said == source
                && match action {
                ActionView::CreateDirectory(folder) => path == folder,
                ActionView::CopyFile { from, .. } => path == from,
                ActionView::WriteBytes { path: file, .. } => path == file,
                ActionView::WriteText { path: file, .. } => path == file,
                ActionView::SyncFile(file) => path == file,
                ActionView::ReadIndex(file) => path == file,
                ActionView::WriteIndex { path: file, .. } => path == file,
                ActionView::Rename { to, .. } => path == to,
                _ => false,
            }
        }),
{
}

/// A folder that is there already is never replaced by a new task: the creation
/// fails and cleans up.
pub proof fn law_existing_task_is_not_replaced(now: CreationView)
    requires
        now.stage is CheckFinal,
    ensures
        creation::next_action(now) == Some(ActionView::CheckExists(now.home())),
        creation::advanced(now, ReplyView::Exists(true)).stage is Discard,
        creation::advanced(now, ReplyView::Exists(false)).stage is Publish,
{
}

} // verus!
