//! What the creation of a stored task does to the files on disk.
use vstd::prelude::*;
use vstd::string::*;
use vstd::utf8::*;

use crate::attachment;
use crate::creation;
use crate::creation::{ActionView, CreationView, ReplyView, StageView};
use crate::creation_laws;
use crate::creation_scope;
use crate::markdown;
use crate::path;
use crate::path::ComponentView;
use crate::store;
use crate::store_error::StoreErrorView;

verus! {

/// The files on disk: for the components of the path of each file, what reading
/// the file as text gives. Each list of components stands for one place.
pub ghost struct Disk {
    pub files: Map<Seq<ComponentView>, Result<Seq<char>, Seq<char>>>,
}

/// The place that a path leads to.
#[verifier::opaque]
pub open spec fn at(path: Seq<u8>) -> Seq<ComponentView> {
    path::components(path)
}

/// Whether a place lies at or below a folder.
pub open spec fn is_in(place: Seq<ComponentView>, folder: Seq<ComponentView>) -> bool {
    folder.is_prefix_of(place)
}

/// Whether there is the same on two disks at a place.
pub open spec fn same_at(one: Disk, other: Disk, place: Seq<ComponentView>) -> bool {
    &&& one.files.contains_key(place) == other.files.contains_key(place)
    &&& one.files.contains_key(place) ==> one.files[place] == other.files[place]
}

/// Whether there is the same on two disks at and below a folder.
#[verifier::opaque]
pub open spec fn same_in(one: Disk, other: Disk, folder: Seq<ComponentView>) -> bool {
    forall|place: Seq<ComponentView>| #[trigger]
        is_in(place, folder) ==> same_at(one, other, place)
}

/// Whether there is the same on two disks everywhere but at and below a folder.
pub open spec fn same_but_in(one: Disk, other: Disk, folder: Seq<ComponentView>) -> bool {
    forall|place: Seq<ComponentView>|
        !#[trigger] is_in(place, folder) ==> same_at(one, other, place)
}

/// Whether there is nothing on a disk at or below a folder.
#[verifier::opaque]
pub open spec fn nothing_in(disk: Disk, folder: Seq<ComponentView>) -> bool {
    forall|place: Seq<ComponentView>| #[trigger]
        is_in(place, folder) ==> !disk.files.contains_key(place)
}

/// Where something that is at or below a folder was before the folder was moved.
pub open spec fn place_before(
    place: Seq<ComponentView>,
    from: Seq<ComponentView>,
    to: Seq<ComponentView>,
) -> Seq<ComponentView> {
    from + place.skip(to.len() as int)
}

/// Whether `after` is `before` with what is at or below `from` moved to `to`.
pub open spec fn is_moved(
    before: Disk,
    after: Disk,
    from: Seq<ComponentView>,
    to: Seq<ComponentView>,
) -> bool {
    forall|place: Seq<ComponentView>|
        if is_in(place, to) {
            &&& #[trigger] after.files.contains_key(place) == before.files.contains_key(
                place_before(place, from, to),
            )
            &&& after.files.contains_key(place) ==> after.files[place]
                == before.files[place_before(place, from, to)]
        } else if is_in(place, from) {
            !after.files.contains_key(place)
        } else {
            same_at(before, after, place)
        }
}

/// Whether an operation may turn one disk into another when this comes of it. A
/// write that failed may leave anything in its place, a removal that failed may
/// have removed a part, and a move happens as a whole or not at all.
#[verifier::opaque]
pub open spec fn may_follow(
    before: Disk,
    action: ActionView,
    reply: ReplyView,
    after: Disk,
) -> bool {
    match action {
        ActionView::CreateDirectory(_) | ActionView::SyncFile(_) | ActionView::ReadIndex(
            _,
        ) => after == before,
        ActionView::CheckExists(folder) => {
            &&& after == before
            &&& reply == ReplyView::Exists(false) ==> nothing_in(before, at(folder))
        },
        ActionView::CopyFile { to, .. } => same_but_in(before, after, at(to)),
        ActionView::WriteBytes { path, .. } => same_but_in(before, after, at(path)),
        ActionView::WriteIndex { path, .. } => same_but_in(before, after, at(path)),
        ActionView::WriteText { path, text } => {
            &&& same_but_in(before, after, at(path))
            &&& reply is Done ==> {
                &&& after.files.contains_key(at(path))
                &&& after.files[at(path)] == Ok::<Seq<char>, Seq<char>>(text)
            }
        },
        ActionView::Rename { from, to } => if reply is Done {
            is_moved(before, after, at(from), at(to))
        } else {
            after == before
        },
        ActionView::RemoveDirectory(folder) => {
            &&& same_but_in(before, after, at(folder))
            &&& reply is Done ==> nothing_in(after, at(folder))
        },
    }
}

/// Whether these are the disks before, between and after the operations of a
/// creation, which nothing else changes meanwhile.
pub open spec fn is_history(
    start: CreationView,
    replies: Seq<ReplyView>,
    disks: Seq<Disk>,
) -> bool
    decreases replies.len(),
{
    &&& disks.len() == replies.len() + 1
    &&& replies.len() > 0 ==> {
        &&& is_history(start, replies.drop_last(), disks.drop_last())
        &&& may_follow(
            disks[disks.len() - 2],
            creation::next_action(creation_laws::run(start, replies.drop_last()))->0,
            replies.last(),
            disks.last(),
        )
    }
}

/// A component that a text names.
pub open spec fn named(name: Seq<char>) -> ComponentView {
    ComponentView::Normal(encode_utf8(name))
}

/// A place right in the folder of a store.
pub open spec fn part(root: Seq<u8>, name: Seq<char>) -> Seq<ComponentView> {
    at(root).push(named(name))
}

/// Places in different parts of a store differ.
proof fn lemma_parts_differ(
    place: Seq<ComponentView>,
    root: Seq<u8>,
    one: Seq<char>,
    other: Seq<char>,
)
    requires
        is_in(place, part(root, one)),
        encode_utf8(one) != encode_utf8(other),
    ensures
        !is_in(place, part(root, other)),
{
    let n = at(root).len() as int;
    assert(part(root, one)[n] == named(one));
    assert(part(root, other)[n] == named(other));
    assert(place[n] == named(one));
}

/// What is below a folder is below the folders above it.
proof fn lemma_in_further(
    place: Seq<ComponentView>,
    inner: Seq<ComponentView>,
    outer: Seq<ComponentView>,
)
    requires
        is_in(place, inner),
        is_in(inner, outer),
    ensures
        is_in(place, outer),
{
    assert(place.take(outer.len() as int) =~= inner.take(outer.len() as int));
}

/// The places that a creation works on, by their components.
spec fn has_places(start: CreationView) -> bool {
    let root = start.root;
    &&& at(start.staging()) == part(root, ".staging"@).push(
        named("create-"@ + start.task.id),
    )
    &&& at(start.attachments()) == at(start.staging()).push(
        named("attachments"@),
    )
    &&& path::open_stem(start.attachments())
    &&& at(store::task_file(start.staging())) == at(
        start.staging(),
    ).push(named("task.md"@))
    &&& at(creation::index_file(root)) == part(root, "workspaces.json"@)
    &&& at(creation::new_index_file(root)) == part(root, "workspaces.json.tmp"@)
    &&& at(start.home()) == part(root, "tasks"@).push(
        named(start.task.workspace_id),
    ).push(named(start.task.id))
    &&& at(store::task_file(start.home())) == at(start.home()).push(
        named("task.md"@),
    )
    &&& encode_utf8("tasks"@) != encode_utf8(".staging"@)
    &&& encode_utf8("tasks"@) != encode_utf8("workspaces.json"@)
    &&& encode_utf8("tasks"@) != encode_utf8("workspaces.json.tmp"@)
    &&& encode_utf8(".staging"@) != encode_utf8("workspaces.json"@)
    &&& encode_utf8(".staging"@) != encode_utf8("workspaces.json.tmp"@)
}

/// The names of the parts of a store differ.
proof fn lemma_part_names()
    ensures
        encode_utf8("tasks"@) != encode_utf8(".staging"@),
        encode_utf8("tasks"@) != encode_utf8("workspaces.json"@),
        encode_utf8("tasks"@) != encode_utf8("workspaces.json.tmp"@),
        encode_utf8(".staging"@) != encode_utf8("workspaces.json"@),
        encode_utf8(".staging"@) != encode_utf8("workspaces.json.tmp"@),
{
    reveal_strlit("tasks");
    reveal_strlit(".staging");
    reveal_strlit("workspaces.json");
    reveal_strlit("workspaces.json.tmp");
    assert("tasks"@.len() == 5);
    assert(".staging"@.len() == 8);
    assert("workspaces.json"@.len() == 15);
    assert("workspaces.json.tmp"@.len() == 19);
    if encode_utf8("tasks"@) == encode_utf8(".staging"@) {
        attachment::lemma_same_bytes("tasks"@, ".staging"@);
    }
    if encode_utf8("tasks"@) == encode_utf8("workspaces.json"@) {
        attachment::lemma_same_bytes("tasks"@, "workspaces.json"@);
    }
    if encode_utf8("tasks"@) == encode_utf8("workspaces.json.tmp"@) {
        attachment::lemma_same_bytes("tasks"@, "workspaces.json.tmp"@);
    }
    if encode_utf8(".staging"@) == encode_utf8("workspaces.json"@) {
        attachment::lemma_same_bytes(".staging"@, "workspaces.json"@);
    }
    if encode_utf8(".staging"@) == encode_utf8("workspaces.json.tmp"@) {
        attachment::lemma_same_bytes(".staging"@, "workspaces.json.tmp"@);
    }
}

proof fn lemma_places(start: CreationView)
    requires
        path::open_stem(start.root),
        attachment::is_safe_component(start.task.id),
        attachment::is_safe_component(start.task.workspace_id),
    ensures
        has_places(start),
{
    reveal(at);
    let root = start.root;
    let id = start.task.id;
    let workspace = start.task.workspace_id;
    lemma_part_names();
    creation_scope::lemma_fixed_names_are_safe();
    creation_scope::lemma_staging_name_is_safe(id);
    attachment::law_safe_name_stays_below(root, ".staging"@);
    attachment::law_safe_name_stays_below(creation::staging_root(root), "create-"@ + id);
    attachment::law_safe_name_stays_below(start.staging(), "attachments"@);
    attachment::law_safe_name_stays_below(start.staging(), "task.md"@);
    attachment::law_safe_name_stays_below(root, "workspaces.json"@);
    attachment::law_safe_name_stays_below(root, "workspaces.json.tmp"@);
    attachment::law_safe_name_stays_below(root, "tasks"@);
    attachment::law_safe_name_stays_below(store::tasks_folder(root), workspace);
    attachment::law_safe_name_stays_below(store::workspace_folder(root, workspace), id);
    attachment::law_safe_name_stays_below(start.home(), "task.md"@);
}

/// A change in one part of a store leaves the others as they were.
proof fn lemma_other_part(
    before: Disk,
    after: Disk,
    folder: Seq<ComponentView>,
    root: Seq<u8>,
    changed: Seq<char>,
    other: Seq<char>,
)
    requires
        same_but_in(before, after, folder),
        is_in(folder, part(root, changed)),
        encode_utf8(changed) != encode_utf8(other),
    ensures
        same_in(before, after, part(root, other)),
{
    reveal(same_in);
    assert forall|place: Seq<ComponentView>| #[trigger] is_in(place, part(root, other)) implies same_at(
        before,
        after,
        place,
    ) by {
        if is_in(place, folder) {
            lemma_in_further(place, folder, part(root, changed));
            lemma_parts_differ(place, root, changed, other);
        }
    }
}

/// A move within or between parts of a store leaves the others as they were.
proof fn lemma_moved_elsewhere(
    before: Disk,
    after: Disk,
    from: Seq<ComponentView>,
    to: Seq<ComponentView>,
    root: Seq<u8>,
    source: Seq<char>,
    target: Seq<char>,
    other: Seq<char>,
)
    requires
        is_moved(before, after, from, to),
        is_in(from, part(root, source)),
        is_in(to, part(root, target)),
        encode_utf8(source) != encode_utf8(other),
        encode_utf8(target) != encode_utf8(other),
    ensures
        same_in(before, after, part(root, other)),
{
    reveal(same_in);
    assert forall|place: Seq<ComponentView>| #[trigger] is_in(place, part(root, other)) implies same_at(
        before,
        after,
        place,
    ) by {
        if is_in(place, from) {
            lemma_in_further(place, from, part(root, source));
            lemma_parts_differ(place, root, source, other);
        }
        if is_in(place, to) {
            lemma_in_further(place, to, part(root, target));
            lemma_parts_differ(place, root, target, other);
        }
        assert(after.files.contains_key(place) == before.files.contains_key(place));
    }
}

/// What is in a folder is in the folders above it.
proof fn lemma_pushed(folder: Seq<ComponentView>, name: ComponentView, outer: Seq<ComponentView>)
    requires
        is_in(folder, outer),
    ensures
        is_in(folder.push(name), outer),
{
    assert(folder.push(name).take(outer.len() as int) =~= folder.take(outer.len() as int));
}

/// Which part of a store the places of a creation lie in.
proof fn lemma_parts(start: CreationView)
    requires
        has_places(start),
    ensures
        is_in(at(start.staging()), part(start.root, ".staging"@)),
        is_in(at(start.attachments()), part(start.root, ".staging"@)),
        is_in(at(store::task_file(start.staging())), part(start.root, ".staging"@)),
        is_in(
            at(creation::index_file(start.root)),
            part(start.root, "workspaces.json"@),
        ),
        is_in(
            at(creation::new_index_file(start.root)),
            part(start.root, "workspaces.json.tmp"@),
        ),
        is_in(at(start.home()), part(start.root, "tasks"@)),
        is_in(at(store::task_file(start.home())), part(start.root, "tasks"@)),
{
    let staging = part(start.root, ".staging"@);
    let tasks = part(start.root, "tasks"@);
    assert(is_in(staging, staging));
    assert(is_in(tasks, tasks));
    lemma_pushed(staging, named("create-"@ + start.task.id), staging);
    lemma_pushed(at(start.staging()), named("attachments"@), staging);
    lemma_pushed(at(start.staging()), named("task.md"@), staging);
    lemma_pushed(tasks, named(start.task.workspace_id), tasks);
    lemma_pushed(tasks.push(named(start.task.workspace_id)), named(start.task.id), tasks);
    lemma_pushed(at(start.home()), named("task.md"@), tasks);
}

/// What a creation has named so far.
spec fn is_of(start: CreationView, now: CreationView) -> bool {
    &&& now.root == start.root
    &&& now.task == start.task
    &&& creation_laws::are_names(start.task, now.names)
    &&& now.stage is Store || now.stage is Sync ==> now.names.len() > 0
}

/// A disk is the same as itself.
proof fn lemma_unchanged(disk: Disk, folder: Seq<ComponentView>)
    ensures
        same_in(disk, disk, folder),
{
    reveal(same_in);
}

/// No operation but the last move changes what is among the tasks.
proof fn lemma_tasks_stay(
    start: CreationView,
    now: CreationView,
    reply: ReplyView,
    before: Disk,
    after: Disk,
)
    requires
        has_places(start),
        is_of(start, now),
        creation::next_action(now) is Some,
        !(now.stage is Publish && reply is Done),
        may_follow(before, creation::next_action(now)->0, reply, after),
    ensures
        same_in(before, after, part(start.root, "tasks"@)),
{
    let root = start.root;
    lemma_parts(start);
    lemma_unchanged(before, part(root, "tasks"@));
    match now.stage {
        StageView::Store => {
            let n = now.names.len() - 1;
            let name = now.names[n];
            assert(attachment::stored_name(start.task.attachments[n]) == Ok::<
                Seq<char>,
                StoreErrorView,
            >(name));
            let place = at(now.place(n));
            assert(place == at(start.attachments()).push(named(name))) by {
                reveal(at);
                attachment::law_safe_name_stays_below(start.attachments(), name);
            }
            lemma_pushed(at(start.attachments()), named(name), part(root, ".staging"@));
            assert(same_but_in(before, after, place)) by {
                reveal(may_follow);
            }
            lemma_other_part(before, after, place, root, ".staging"@, "tasks"@);
        },
        StageView::TaskFile(_) => {
            let file = at(store::task_file(start.staging()));
            assert(same_but_in(before, after, file)) by {
                reveal(may_follow);
            }
            lemma_other_part(before, after, file, root, ".staging"@, "tasks"@);
        },
        StageView::WriteIndex(_) => {
            let file = at(creation::new_index_file(root));
            assert(same_but_in(before, after, file)) by {
                reveal(may_follow);
            }
            lemma_other_part(before, after, file, root, "workspaces.json.tmp"@, "tasks"@);
        },
        StageView::ReplaceIndex => {
            let from = at(creation::new_index_file(root));
            let to = at(creation::index_file(root));
            assert(if reply is Done {
                is_moved(before, after, from, to)
            } else {
                after == before
            }) by {
                reveal(may_follow);
            }
            if reply is Done {
                lemma_moved_elsewhere(
                    before,
                    after,
                    from,
                    to,
                    root,
                    "workspaces.json.tmp"@,
                    "workspaces.json"@,
                    "tasks"@,
                );
            }
        },
        StageView::Discard(_) => {
            let folder = at(start.staging());
            assert(same_but_in(before, after, folder)) by {
                reveal(may_follow);
            }
            lemma_other_part(before, after, folder, root, ".staging"@, "tasks"@);
        },
        _ => {
            assert(after == before) by {
                reveal(may_follow);
            }
        },
    }
}

/// Between the task file and the last move a creation leaves its folder alone.
proof fn lemma_staging_stays(
    start: CreationView,
    now: CreationView,
    reply: ReplyView,
    before: Disk,
    after: Disk,
)
    requires
        has_places(start),
        is_of(start, now),
        is_written(now.stage),
        !(now.stage is Publish),
        may_follow(before, creation::next_action(now)->0, reply, after),
    ensures
        same_in(before, after, part(start.root, ".staging"@)),
{
    let root = start.root;
    lemma_parts(start);
    lemma_unchanged(before, part(root, ".staging"@));
    match now.stage {
        StageView::WriteIndex(_) => {
            let file = at(creation::new_index_file(root));
            assert(same_but_in(before, after, file)) by {
                reveal(may_follow);
            }
            lemma_other_part(before, after, file, root, "workspaces.json.tmp"@, ".staging"@);
        },
        StageView::ReplaceIndex => {
            let from = at(creation::new_index_file(root));
            let to = at(creation::index_file(root));
            assert(if reply is Done {
                is_moved(before, after, from, to)
            } else {
                after == before
            }) by {
                reveal(may_follow);
            }
            if reply is Done {
                lemma_moved_elsewhere(
                    before,
                    after,
                    from,
                    to,
                    root,
                    "workspaces.json.tmp"@,
                    "workspaces.json"@,
                    ".staging"@,
                );
            }
        },
        _ => {
            assert(after == before) by {
                reveal(may_follow);
            }
        },
    }
}

/// Whether the task file is written and not yet in its final place.
spec fn is_written(stage: StageView) -> bool {
    stage is ReadIndex || stage is WriteIndex || stage is ReplaceIndex || stage is WorkspaceFolder
        || stage is CheckFinal || stage is Publish
}

/// Whether `after` has one task more than `before`, in a folder in which there was
/// nothing before: its file reads as a text, and the rest among the tasks is as it
/// was.
#[verifier::opaque]
pub open spec fn has_task_more(
    before: Disk,
    after: Disk,
    root: Seq<u8>,
    folder: Seq<u8>,
    text: Seq<char>,
) -> bool {
    let file = at(store::task_file(folder));
    &&& nothing_in(before, at(folder))
    &&& after.files.contains_key(file)
    &&& after.files[file] == Ok::<Seq<char>, Seq<char>>(text)
    &&& forall|place: Seq<ComponentView>|
        is_in(place, part(root, "tasks"@)) && !#[trigger] is_in(place, at(folder))
            ==> same_at(before, after, place)
}

/// What is on disk at each stage of a creation, by what was there at its start.
#[verifier::opaque]
spec fn is_right(start: CreationView, now: CreationView, first: Disk, disk: Disk) -> bool {
    let text = markdown::rendered(creation::stored_task(now.task, now.names));
    let file = at(store::task_file(start.staging()));
    match now.stage {
        StageView::Finished(Ok(task)) => {
            &&& markdown::rendered(task) is Ok
            &&& has_task_more(
                first,
                disk,
                start.root,
                start.home(),
                markdown::rendered(task)->Ok_0,
            )
        },
        _ => {
            &&& same_in(first, disk, part(start.root, "tasks"@))
            &&& now.stage matches StageView::TaskFile(written) ==> text == Ok::<
                Seq<char>,
                StoreErrorView,
            >(written)
            &&& is_written(now.stage) ==> {
                &&& text is Ok
                &&& disk.files.contains_key(file)
                &&& disk.files[file] == Ok::<Seq<char>, Seq<char>>(text->Ok_0)
            }
            &&& now.stage is Publish ==> nothing_in(disk, at(start.home()))
        },
    }
}

proof fn lemma_same_in_both(one: Disk, two: Disk, three: Disk, folder: Seq<ComponentView>)
    requires
        same_in(one, two, folder),
        same_in(two, three, folder),
    ensures
        same_in(one, three, folder),
{
    reveal(same_in);
    assert forall|place: Seq<ComponentView>| #[trigger] is_in(place, folder) implies same_at(
        one,
        three,
        place,
    ) by {
        assert(same_at(one, two, place));
        assert(same_at(two, three, place));
    }
}

/// The move of the folder to its final place.
proof fn lemma_published(
    start: CreationView,
    first: Disk,
    before: Disk,
    after: Disk,
    text: Seq<char>,
)
    requires
        has_places(start),
        same_in(first, before, part(start.root, "tasks"@)),
        before.files.contains_key(at(store::task_file(start.staging()))),
        before.files[at(store::task_file(start.staging()))] == Ok::<
            Seq<char>,
            Seq<char>,
        >(text),
        nothing_in(before, at(start.home())),
        is_moved(
            before,
            after,
            at(start.staging()),
            at(start.home()),
        ),
    ensures
        has_task_more(first, after, start.root, start.home(), text),
{
    reveal(same_in);
    reveal(nothing_in);
    reveal(has_task_more);
    let root = start.root;
    let tasks = part(root, "tasks"@);
    let home = at(start.home());
    let staging = at(start.staging());
    let file = at(store::task_file(start.home()));
    lemma_parts(start);
    assert(is_in(home, home));
    lemma_pushed(home, named("task.md"@), home);
    assert(place_before(file, staging, home) =~= staging.push(named("task.md"@)));
    assert(after.files.contains_key(file));
    assert forall|place: Seq<ComponentView>| #[trigger] is_in(place, home) implies !first.files.contains_key(
        place,
    ) by {
        lemma_in_further(place, home, tasks);
        assert(same_at(first, before, place));
    }
    assert forall|place: Seq<ComponentView>|
        is_in(place, tasks) && !#[trigger] is_in(place, home) implies same_at(
        first,
        after,
        place,
    ) by {
        assert(same_at(first, before, place));
        if is_in(place, staging) {
            lemma_in_further(place, staging, part(root, ".staging"@));
            lemma_parts_differ(place, root, ".staging"@, "tasks"@);
        }
        assert(after.files.contains_key(place) == before.files.contains_key(place));
    }
}

/// What one more operation does to the disk.
proof fn lemma_effects(
    start: CreationView,
    now: CreationView,
    reply: ReplyView,
    first: Disk,
    before: Disk,
    after: Disk,
)
    requires
        has_places(start),
        is_of(start, now),
        creation::next_action(now) is Some,
        may_follow(before, creation::next_action(now)->0, reply, after),
        same_in(first, before, part(start.root, "tasks"@)),
    ensures
        !(now.stage is Publish && reply is Done) ==> same_in(
            first,
            after,
            part(start.root, "tasks"@),
        ),
        is_written(now.stage) && !(now.stage is Publish) ==> same_at(
            before,
            after,
            at(store::task_file(start.staging())),
        ),
        now.stage is TaskFile && reply is Done ==> {
            let file = at(store::task_file(start.staging()));
            &&& after.files.contains_key(file)
            &&& after.files[file] == Ok::<Seq<char>, Seq<char>>(now.stage->TaskFile_0)
        },
        now.stage is CheckFinal && reply == ReplyView::Exists(false) ==> nothing_in(
            after,
            at(start.home()),
        ),
        now.stage is Publish && reply is Done ==> is_moved(
            before,
            after,
            at(start.staging()),
            at(start.home()),
        ),
{
    if !(now.stage is Publish && reply is Done) {
        lemma_tasks_stay(start, now, reply, before, after);
        lemma_same_in_both(first, before, after, part(start.root, "tasks"@));
    }
    if is_written(now.stage) && !(now.stage is Publish) {
        lemma_parts(start);
        lemma_staging_stays(start, now, reply, before, after);
        reveal(same_in);
    }
    reveal(may_follow);
}

/// One more operation keeps what is on disk right.
#[verifier::rlimit(40)]
proof fn lemma_still_right(
    start: CreationView,
    now: CreationView,
    reply: ReplyView,
    first: Disk,
    before: Disk,
    after: Disk,
)
    requires
        has_places(start),
        is_of(start, now),
        creation::next_action(now) is Some,
        creation::answers(creation::next_action(now)->0, reply),
        may_follow(before, creation::next_action(now)->0, reply, after),
        is_right(start, now, first, before),
    ensures
        is_right(start, creation::advanced(now, reply), first, after),
{
    reveal(is_right);
    lemma_effects(start, now, reply, first, before, after);
    if now.stage is Publish && reply is Done {
        let text = markdown::rendered(creation::stored_task(now.task, now.names));
        lemma_published(start, first, before, after, text->Ok_0);
    }
}

/// What is on disk after the operations of a creation.
#[verifier::rlimit(40)]
proof fn lemma_history(start: CreationView, replies: Seq<ReplyView>, disks: Seq<Disk>)
    requires
        has_places(start),
        start == creation::started(start.root, start.task, start.workspace),
        creation_laws::is_run(start, replies),
        is_history(start, replies, disks),
    ensures
        is_right(start, creation_laws::run(start, replies), disks.first(), disks.last()),
    decreases replies.len(),
{
    if replies.len() == 0 {
        reveal(creation_laws::run);
        reveal(is_right);
        lemma_unchanged(disks.first(), part(start.root, "tasks"@));
    } else {
        let before = replies.drop_last();
        creation_laws::lemma_last_reply(start, replies);
        lemma_history(start, before, disks.drop_last());
        creation_laws::lemma_run_keeps(start, before);
        lemma_still_right(
            start,
            creation_laws::run(start, before),
            replies.last(),
            disks.first(),
            disks[disks.len() - 2],
            disks.last(),
        );
    }
}

/// A creation that failed leaves the tasks on disk as they were, whatever failed;
/// one that succeeded adds one folder with the file of the task, where there was
/// nothing before, and leaves the others as they were.
pub proof fn law_creation_on_disk(
    start: CreationView,
    replies: Seq<ReplyView>,
    disks: Seq<Disk>,
)
    requires
        start == creation::started(start.root, start.task, start.workspace),
        path::open_stem(start.root),
        attachment::is_safe_component(start.task.id),
        attachment::is_safe_component(start.task.workspace_id),
        creation_laws::is_run(start, replies),
        creation_laws::run(start, replies).stage is Finished,
        is_history(start, replies, disks),
    ensures
        match creation_laws::run(start, replies).stage->Finished_0 {
            Ok(task) => {
                &&& markdown::rendered(task) is Ok
                &&& has_task_more(
                    disks.first(),
                    disks.last(),
                    start.root,
                    start.home(),
                    markdown::rendered(task)->Ok_0,
                )
            },
            Err(_) => same_in(disks.first(), disks.last(), part(start.root, "tasks"@)),
        },
{
    lemma_places(start);
    lemma_history(start, replies, disks);
    reveal(is_right);
}

} // verus!
