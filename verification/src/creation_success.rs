//! When the creation of a stored task succeeds.
use vstd::prelude::*;

use crate::attachment;
use crate::creation;
use crate::creation::{CreationView, ReplyView, StageView};
use crate::creation_laws;
use crate::markdown;
use crate::store_error::StoreErrorView;
use crate::task::TaskView;
use crate::workspace::TaskWorkspaceView;

verus! {

/// What comes of the operations up to those for some attachments when none fails.
pub open spec fn good_start(attachments: nat) -> Seq<ReplyView> {
    Seq::new(4 + 2 * attachments, |i: int| ReplyView::Done)
}

/// What comes of the operations after the attachments when none fails: the index
/// that is read holds some workspaces, and there is nothing yet in the final
/// place.
pub open spec fn good_end(index: Seq<TaskWorkspaceView>) -> Seq<ReplyView> {
    seq![
        ReplyView::Done,
        ReplyView::Index(index),
        ReplyView::Done,
        ReplyView::Done,
        ReplyView::Done,
        ReplyView::Exists(false),
        ReplyView::Done,
    ]
}

/// What comes of all operations when none fails.
pub open spec fn good_replies(attachments: nat, index: Seq<TaskWorkspaceView>) -> Seq<ReplyView> {
    good_start(attachments) + good_end(index)
}

/// A run with one more reply.
proof fn lemma_longer_run(start: CreationView, replies: Seq<ReplyView>, reply: ReplyView)
    requires
        creation_laws::is_run(start, replies),
        creation::next_action(creation_laws::run(start, replies)) is Some,
        creation::answers(creation::next_action(creation_laws::run(start, replies))->0, reply),
    ensures
        creation_laws::is_run(start, replies.push(reply)),
        creation_laws::run(start, replies.push(reply)) == creation::advanced(creation_laws::run(start, replies), reply),
{
    assert(replies.push(reply).drop_last() =~= replies);
    reveal(creation_laws::run);
    reveal(creation_laws::is_run);
}

/// Where a creation is once some of its attachments are stored.
spec fn with_stored(start: CreationView, names: Seq<Seq<char>>, n: int) -> CreationView {
    creation::next_attachment(
        CreationView { names: names.take(n), stage: StageView::Sync, ..start },
    )
}

proof fn lemma_good_start(start: CreationView, names: Seq<Seq<char>>, n: nat)
    requires
        start == creation::started(start.root, start.task, start.workspace),
        creation_laws::are_names(start.task, names),
        names.len() == start.task.attachments.len(),
        n <= names.len(),
    ensures
        creation_laws::is_run(start, good_start(n)),
        creation_laws::run(start, good_start(n)) == with_stored(start, names, n as int),
    decreases n,
{
    let done = ReplyView::Done;
    if n == 0 {
        let none = Seq::<ReplyView>::empty();
        assert(creation_laws::is_run(start, none)) by {
            reveal(creation_laws::is_run);
        }
        assert(creation_laws::run(start, none) == start) by {
            reveal(creation_laws::run);
        }
        let first = none.push(done);
        let second = first.push(done);
        let third = second.push(done);
        lemma_longer_run(start, none, done);
        lemma_longer_run(start, first, done);
        lemma_longer_run(start, second, done);
        lemma_longer_run(start, third, done);
        assert(good_start(0) =~= third.push(done));
        assert(names.take(0) =~= start.names);
    } else {
        let k = (n - 1) as nat;
        lemma_good_start(start, names, k);
        let before = good_start(k);
        let name = names[k as int];
        assert(attachment::stored_name(start.task.attachments[k as int]) == Ok::<
            Seq<char>,
            StoreErrorView,
        >(name));
        assert(!names.take(k as int).contains(name)) by {
            if names.take(k as int).contains(name) {
                let i = choose|i: int| 0 <= i < k && names.take(k as int)[i] == name;
                assert(names[i] == names[k as int]);
            }
        }
        assert(names.take(k as int).push(name) =~= names.take(n as int));
        lemma_longer_run(start, before, done);
        lemma_longer_run(start, before.push(done), done);
        assert(good_start(n) =~= before.push(done).push(done));
    }
}

/// The operations after the attachments, when none of them fails.
proof fn lemma_good_end(
    start: CreationView,
    replies: Seq<ReplyView>,
    text: Seq<char>,
    index: Seq<TaskWorkspaceView>,
)
    requires
        creation_laws::is_run(start, replies),
        creation_laws::run(start, replies).stage == StageView::TaskFile(text),
    ensures
        creation_laws::is_run(start, replies + good_end(index)),
        creation_laws::run(start, replies + good_end(index))
            == creation_laws::run(start, replies).at(
            StageView::Finished(
                Ok(
                    creation::stored_task(
                        creation_laws::run(start, replies).task,
                        creation_laws::run(start, replies).names,
                    ),
                ),
            ),
        ),
{
    let done = ReplyView::Done;
    let read = ReplyView::Index(index);
    let free = ReplyView::Exists(false);
    let written = replies.push(done);
    let known = written.push(read);
    let updated = known.push(done);
    let replaced = updated.push(done);
    let placed = replaced.push(done);
    let looked = placed.push(free);
    lemma_longer_run(start, replies, done);
    lemma_longer_run(start, written, read);
    lemma_longer_run(start, known, done);
    lemma_longer_run(start, updated, done);
    lemma_longer_run(start, replaced, done);
    lemma_longer_run(start, placed, free);
    lemma_longer_run(start, looked, done);
    assert(replies + good_end(index) =~= looked.push(done));
}

/// A task whose attachments have safe and different names is created wherever no
/// operation fails; its creator is given it as it is stored.
pub proof fn law_creation_succeeds(
    start: CreationView,
    names: Seq<Seq<char>>,
    index: Seq<TaskWorkspaceView>,
)
    requires
        start == creation::started(start.root, start.task, start.workspace),
        start.task.workspace is Some,
        creation_laws::are_names(start.task, names),
        names.len() == start.task.attachments.len(),
    ensures
        creation_laws::is_run(start, good_replies(names.len(), index)),
        creation_laws::run(start, good_replies(names.len(), index)).stage == StageView::Finished(
            Ok::<TaskView, StoreErrorView>(creation::stored_task(start.task, names)),
        ),
{
    assert forall|i: int| 0 <= i < names.len() implies attachment::is_safe_filename(
        #[trigger] names[i],
    ) by {
        assert(attachment::stored_name(start.task.attachments[i]) == Ok::<
            Seq<char>,
            StoreErrorView,
        >(names[i]));
    }
    creation_laws::law_stored_task_can_be_written(start.task, names);
    lemma_good_start(start, names, names.len());
    assert(names.take(names.len() as int) =~= names);
    let text = markdown::rendered(creation::stored_task(start.task, names))->Ok_0;
    lemma_good_end(start, good_start(names.len()), text, index);
}

} // verus!
