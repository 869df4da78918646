//! What the creation of a stored task does to a later listing of its store.
use vstd::prelude::*;
use vstd::string::*;
use vstd::utf8::*;

use crate::attachment;
use crate::creation;
use crate::creation::{CreationView, ReplyView, StageView};
use crate::creation_laws;
use crate::creation_scope;
use crate::disk;
use crate::disk::Disk;
use crate::markdown;
use crate::order;
use crate::order::{Order, Standing};
use crate::outside;
use crate::path;
use crate::path::{ByPath, ComponentView, LocalPath};
use crate::round_trip;
use crate::store;
use crate::store::{ByFile, ByTaskId, StoredTask, StoredTaskView};
use crate::store_error::StoreErrorView;
use crate::task;
use crate::task::{NewTaskView, Task, TaskStatus, TaskView};

verus! {

/// The file of the task in a folder of the folder of a workspace.
pub open spec fn task_path(root: Seq<u8>, workspace: Seq<u8>, folder: Seq<u8>) -> Seq<u8> {
    store::task_file(path::join(path::join(store::tasks_folder(root), workspace), folder))
}

/// Whether a path is that of a task file of a store, whether or not there is one.
pub open spec fn is_task_path(root: Seq<u8>, file: Seq<u8>) -> bool {
    exists|workspace: Seq<u8>, folder: Seq<u8>|
        path::proper_name(workspace) && path::proper_name(folder) && file == #[trigger] task_path(
            root,
            workspace,
            folder,
        )
}

/// What loading a task file gives, by what reading it gives and by which folders
/// are there.
pub open spec fn loaded(
    file: Seq<u8>,
    contents: Result<Seq<char>, Seq<char>>,
    is_folder: spec_fn(Seq<u8>) -> bool,
) -> Result<TaskView, StoreErrorView> {
    match store::loaded_task(file, contents) {
        Ok(task) => Ok(checked(task, is_folder)),
        Err(error) => Err(error),
    }
}

/// A loaded task, checked for the folder of its workspace.
pub open spec fn checked(task: TaskView, is_folder: spec_fn(Seq<u8>) -> bool) -> TaskView {
    store::with_workspace_checked(
        task,
        match task.workspace {
            Some(workspace) => is_folder(workspace.path),
            None => true,
        },
    )
}

/// Whether these are the task files on a disk, in any order, each with what
/// loading it gives.
pub open spec fn are_files(
    files: Seq<StoredTaskView>,
    root: Seq<u8>,
    disk: Disk,
    is_folder: spec_fn(Seq<u8>) -> bool,
) -> bool {
    &&& forall|i: int|
        0 <= i < files.len() ==> is_file(#[trigger] files[i], root, disk, is_folder)
    &&& forall|file: Seq<u8>| #[trigger]
        is_task_path(root, file) && disk.files.contains_key(path::components(file)) ==> exists|
            i: int,
        |
            0 <= i < files.len() && (#[trigger] files[i]).path == file
    &&& forall|i: int, j: int|
        0 <= i < j < files.len() ==> (#[trigger] files[i]).path != (#[trigger] files[j]).path
}

/// Whether a file is a task file on a disk, with what loading it gives.
pub open spec fn is_file(
    file: StoredTaskView,
    root: Seq<u8>,
    disk: Disk,
    is_folder: spec_fn(Seq<u8>) -> bool,
) -> bool {
    &&& is_task_path(root, file.path)
    &&& disk.files.contains_key(path::components(file.path))
    &&& file.task == loaded(file.path, disk.files[path::components(file.path)], is_folder)
}

/// The components of the path of a task file tell its folders.
proof fn lemma_task_path(root: Seq<u8>, workspace: Seq<u8>, folder: Seq<u8>)
    requires
        path::open_stem(root),
        path::proper_name(workspace),
        path::proper_name(folder),
    ensures
        path::components(task_path(root, workspace, folder)) == disk::part(root, "tasks"@).push(
            ComponentView::Normal(workspace),
        ).push(ComponentView::Normal(folder)).push(disk::named("task.md"@)),
        disk::is_in(
            path::components(task_path(root, workspace, folder)),
            disk::part(root, "tasks"@),
        ),
{
    reveal(disk::at);
    let tasks = store::tasks_folder(root);
    let inner = path::join(tasks, workspace);
    let whole = path::join(inner, folder);
    let part = disk::part(root, "tasks"@);
    let file = path::components(task_path(root, workspace, folder));
    creation_scope::lemma_fixed_names_are_safe();
    attachment::law_safe_name_stays_below(root, "tasks"@);
    path::lemma_components_of_join(tasks, workspace);
    path::lemma_components_of_join(inner, folder);
    attachment::law_safe_name_stays_below(whole, "task.md"@);
    assert(path::components(inner) =~= part.push(ComponentView::Normal(workspace)));
    assert(path::components(whole) =~= path::components(inner).push(
        ComponentView::Normal(folder),
    ));
    assert(file.take(part.len() as int) =~= part);
}

/// Different task files have different components.
proof fn lemma_task_paths_differ(root: Seq<u8>, left: Seq<u8>, right: Seq<u8>)
    requires
        path::open_stem(root),
        is_task_path(root, left),
        is_task_path(root, right),
        path::components(left) == path::components(right),
    ensures
        left == right,
{
    let (a, b) = choose|workspace: Seq<u8>, folder: Seq<u8>|
        path::proper_name(workspace) && path::proper_name(folder) && left == #[trigger] task_path(
            root,
            workspace,
            folder,
        );
    let (c, d) = choose|workspace: Seq<u8>, folder: Seq<u8>|
        path::proper_name(workspace) && path::proper_name(folder) && right == #[trigger] task_path(
            root,
            workspace,
            folder,
        );
    lemma_task_path(root, a, b);
    lemma_task_path(root, c, d);
    let n = disk::part(root, "tasks"@).len() as int;
    assert(path::components(left)[n] == ComponentView::Normal(a));
    assert(path::components(right)[n] == ComponentView::Normal(c));
    assert(path::components(left)[n + 1] == ComponentView::Normal(b));
    assert(path::components(right)[n + 1] == ComponentView::Normal(d));
}

/// Whether files stand in the strict order of their paths.
spec fn is_ascending(files: Seq<StoredTaskView>) -> bool {
    forall|i: int, j: int|
        0 <= i < j < files.len() ==> path::path_order(
            (#[trigger] files[i]).path,
            (#[trigger] files[j]).path,
        ) == Standing::Earlier
}

proof fn lemma_path_order(left: Seq<u8>, right: Seq<u8>)
    ensures
        path::path_order(left, right).reversed() == path::path_order(right, left),
        path::path_order(left, left) == Standing::Same,
{
    order::lemma_list_order(
        path::component_keys(path::components(left)),
        path::component_keys(path::components(right)),
    );
    order::lemma_list_order(
        path::component_keys(path::components(left)),
        path::component_keys(path::components(left)),
    );
}

/// The task files on a disk, sorted by their paths.
proof fn lemma_sorted_files(
    files: Seq<StoredTaskView>,
    root: Seq<u8>,
    disk: Disk,
    is_folder: spec_fn(Seq<u8>) -> bool,
)
    requires
        path::open_stem(root),
        are_files(files, root, disk, is_folder),
    ensures
        is_ascending(order::stably_sorted::<StoredTask, ByFile>(files)),
        forall|file: StoredTaskView| #[trigger]
            order::stably_sorted::<StoredTask, ByFile>(files).contains(file) <==> files.contains(
                file,
            ),
{
    let sorted = order::stably_sorted::<StoredTask, ByFile>(files);
    order::lemma_sort_keeps::<StoredTask, ByFile>(files);
    order::lemma_sort_exists::<StoredTask, ByFile>(files);
    let places = choose|places: Seq<int>|
        order::sorted_from::<StoredTask, ByFile>(sorted, files, places);
    assert forall|i: int, j: int| 0 <= i < j < sorted.len() implies path::path_order(
        (#[trigger] sorted[i]).path,
        (#[trigger] sorted[j]).path,
    ) == Standing::Earlier by {
        let a = places[i];
        let b = places[j];
        assert(sorted[i] == files[a]);
        assert(sorted[j] == files[b]);
        assert(a != b);
        assert(files[a].path != files[b].path) by {
            if a < b {
                assert(files[a].path != files[b].path);
            } else {
                assert(files[b].path != files[a].path);
            }
        }
        assert(is_file(files[a], root, disk, is_folder));
        assert(is_file(files[b], root, disk, is_folder));
        if path::components(files[a].path) == path::components(files[b].path) {
            lemma_task_paths_differ(root, files[a].path, files[b].path);
        }
        path::lemma_path_order_same(files[a].path, files[b].path);
        assert(<ByFile as Order<StoredTask>>::le(sorted[i], sorted[j]));
        assert(<ByPath as Order<LocalPath>>::le(sorted[i].path, sorted[j].path));
    }
}

/// Files in strict order are told by which files they are.
proof fn lemma_one_ascending(left: Seq<StoredTaskView>, right: Seq<StoredTaskView>)
    requires
        is_ascending(left),
        is_ascending(right),
        forall|file: StoredTaskView| #[trigger] left.contains(file) <==> right.contains(file),
    ensures
        left == right,
    decreases left.len(),
{
    if left.len() == 0 {
        if right.len() > 0 {
            assert(right.contains(right[0]));
            assert(left.contains(right[0]));
        }
        assert(left =~= right);
    } else {
        let a = left[0];
        assert(left.contains(a));
        assert(right.contains(a));
        let k = choose|k: int| 0 <= k < right.len() && right[k] == a;
        let b = right[0];
        assert(right.contains(b));
        assert(left.contains(b));
        let j = choose|j: int| 0 <= j < left.len() && left[j] == b;
        lemma_path_order(a.path, b.path);
        lemma_path_order(a.path, a.path);
        assert(a == b) by {
            if k > 0 && j > 0 {
                assert(path::path_order(right[0].path, right[k].path) == Standing::Earlier);
                assert(path::path_order(left[0].path, left[j].path) == Standing::Earlier);
            }
        }
        let x = left.skip(1);
        let y = right.skip(1);
        assert(is_ascending(x)) by {
            assert forall|i: int, j: int| 0 <= i < j < x.len() implies path::path_order(
                (#[trigger] x[i]).path,
                (#[trigger] x[j]).path,
            ) == Standing::Earlier by {
                assert(x[i] == left[i + 1] && x[j] == left[j + 1]);
            }
        }
        assert(is_ascending(y)) by {
            assert forall|i: int, j: int| 0 <= i < j < y.len() implies path::path_order(
                (#[trigger] y[i]).path,
                (#[trigger] y[j]).path,
            ) == Standing::Earlier by {
                assert(y[i] == right[i + 1] && y[j] == right[j + 1]);
            }
        }
        lemma_tail(left);
        lemma_tail(right);
        lemma_one_ascending(x, y);
        assert(left =~= seq![a] + x);
        assert(right =~= seq![b] + y);
    }
}

/// The first of some files in strict order is not among the others.
proof fn lemma_tail(files: Seq<StoredTaskView>)
    requires
        is_ascending(files),
        files.len() > 0,
    ensures
        forall|file: StoredTaskView| #[trigger]
            files.skip(1).contains(file) <==> files.contains(file) && file != files[0],
{
    let rest = files.skip(1);
    lemma_path_order(files[0].path, files[0].path);
    assert forall|file: StoredTaskView| #[trigger] rest.contains(file) <==> files.contains(file)
        && file != files[0] by {
        if rest.contains(file) {
            let i = choose|i: int| 0 <= i < rest.len() && rest[i] == file;
            assert(files[i + 1] == file);
            assert(path::path_order(files[0].path, files[i + 1].path) == Standing::Earlier);
        }
        if files.contains(file) && file != files[0] {
            let i = choose|i: int| 0 <= i < files.len() && files[i] == file;
            assert(rest[i - 1] == file);
        }
    }
}

/// Whether a file is listed is told by the disk.
proof fn lemma_listed(
    files: Seq<StoredTaskView>,
    root: Seq<u8>,
    disk: Disk,
    is_folder: spec_fn(Seq<u8>) -> bool,
    file: StoredTaskView,
)
    requires
        are_files(files, root, disk, is_folder),
    ensures
        files.contains(file) <==> is_file(file, root, disk, is_folder),
{
    if files.contains(file) {
        let i = choose|i: int| 0 <= i < files.len() && files[i] == file;
        assert(is_file(files[i], root, disk, is_folder));
    }
    if is_file(file, root, disk, is_folder) {
        assert(is_task_path(root, file.path));
        let i = choose|i: int| 0 <= i < files.len() && (#[trigger] files[i]).path == file.path;
        assert(is_file(files[i], root, disk, is_folder));
        assert(files[i] == file);
    }
}

/// The place of a task file lies among the tasks.
proof fn lemma_among_tasks(root: Seq<u8>, file: Seq<u8>)
    requires
        path::open_stem(root),
        is_task_path(root, file),
    ensures
        disk::is_in(path::components(file), disk::part(root, "tasks"@)),
        path::components(file).len() == disk::part(root, "tasks"@).len() + 3,
        path::components(file).last() == disk::named("task.md"@),
{
    let (a, b) = choose|workspace: Seq<u8>, folder: Seq<u8>|
        path::proper_name(workspace) && path::proper_name(folder) && file == #[trigger] task_path(
            root,
            workspace,
            folder,
        );
    lemma_task_path(root, a, b);
}

/// Disks with the same tasks list the same.
proof fn lemma_same_list(
    root: Seq<u8>,
    before: Disk,
    after: Disk,
    is_folder: spec_fn(Seq<u8>) -> bool,
    earlier: Seq<StoredTaskView>,
    later: Seq<StoredTaskView>,
)
    requires
        path::open_stem(root),
        disk::same_in(before, after, disk::part(root, "tasks"@)),
        are_files(earlier, root, before, is_folder),
        are_files(later, root, after, is_folder),
    ensures
        store::task_list(later) == store::task_list(earlier),
{
    reveal(disk::at);
    reveal(disk::same_in);
    lemma_sorted_files(earlier, root, before, is_folder);
    lemma_sorted_files(later, root, after, is_folder);
    let x = order::stably_sorted::<StoredTask, ByFile>(earlier);
    let y = order::stably_sorted::<StoredTask, ByFile>(later);
    assert forall|file: StoredTaskView| #[trigger] x.contains(file) <==> y.contains(file) by {
        lemma_listed(earlier, root, before, is_folder, file);
        lemma_listed(later, root, after, is_folder, file);
        if is_task_path(root, file.path) {
            lemma_among_tasks(root, file.path);
            assert(disk::same_at(before, after, path::components(file.path)));
        }
    }
    lemma_one_ascending(x, y);
}

/// One more loaded file is one more task and no more failures.
proof fn lemma_one_more_file(files: Seq<StoredTaskView>, at: int, file: StoredTaskView, task: TaskView)
    requires
        0 <= at <= files.len(),
        file.task == Ok::<TaskView, StoreErrorView>(task),
    ensures
        store::loaded_tasks(files.insert(at, file)).to_multiset() == store::loaded_tasks(
            files,
        ).to_multiset().insert(task),
        store::load_errors(files.insert(at, file)) == store::load_errors(files),
    decreases files.len(),
{
    broadcast use vstd::seq_lib::group_to_multiset_ensures;

    let more = files.insert(at, file);
    if at == files.len() {
        assert(more.drop_last() =~= files);
    } else {
        let rest = files.drop_last();
        assert(more.drop_last() =~= rest.insert(at, file));
        assert(more.last() == files.last());
        lemma_one_more_file(rest, at, file, task);
        if let Ok(other) = files.last().task {
            assert(store::loaded_tasks(rest).to_multiset().insert(task).insert(other)
                =~= store::loaded_tasks(rest).to_multiset().insert(other).insert(task));
        }
    }
}

/// A disk with one more task lists one more.
proof fn lemma_longer_list(
    root: Seq<u8>,
    before: Disk,
    after: Disk,
    is_folder: spec_fn(Seq<u8>) -> bool,
    earlier: Seq<StoredTaskView>,
    later: Seq<StoredTaskView>,
    workspace: Seq<u8>,
    folder: Seq<u8>,
    text: Seq<char>,
    task: TaskView,
)
    requires
        path::open_stem(root),
        path::proper_name(workspace),
        path::proper_name(folder),
        disk::has_task_more(
            before,
            after,
            root,
            path::join(path::join(store::tasks_folder(root), workspace), folder),
            text,
        ),
        path::components(path::join(path::join(store::tasks_folder(root), workspace), folder))
            == disk::part(root, "tasks"@).push(ComponentView::Normal(workspace)).push(
            ComponentView::Normal(folder),
        ),
        loaded(task_path(root, workspace, folder), Ok(text), is_folder) == Ok::<
            TaskView,
            StoreErrorView,
        >(task),
        are_files(earlier, root, before, is_folder),
        are_files(later, root, after, is_folder),
    ensures
        store::task_list(later).tasks.to_multiset() == store::task_list(
            earlier,
        ).tasks.to_multiset().insert(task),
        store::task_list(later).errors == store::task_list(earlier).errors,
{
    reveal(disk::at);
    reveal(disk::has_task_more);
    reveal(disk::nothing_in);
    let x = order::stably_sorted::<StoredTask, ByFile>(earlier);
    let y = order::stably_sorted::<StoredTask, ByFile>(later);
    let home = path::components(
        path::join(path::join(store::tasks_folder(root), workspace), folder),
    );
    let new = StoredTaskView { path: task_path(root, workspace, folder), task: Ok(task) };
    let place = path::components(new.path);
    lemma_sorted_files(earlier, root, before, is_folder);
    lemma_sorted_files(later, root, after, is_folder);
    lemma_task_path(root, workspace, folder);
    assert(is_task_path(root, new.path));
    assert(disk::is_in(place, home)) by {
        assert(place.take(home.len() as int) =~= home);
    }
    assert(!before.files.contains_key(place));
    lemma_listed(later, root, after, is_folder, new);
    assert(y.contains(new));
    let at = choose|i: int| 0 <= i < y.len() && y[i] == new;
    let rest = y.remove(at);
    assert(is_ascending(rest)) by {
        assert forall|i: int, j: int| 0 <= i < j < rest.len() implies path::path_order(
            (#[trigger] rest[i]).path,
            (#[trigger] rest[j]).path,
        ) == Standing::Earlier by {
            let k = if i < at { i } else { i + 1 };
            let l = if j < at { j } else { j + 1 };
            assert(rest[i] == y[k] && rest[j] == y[l]);
        }
    }
    assert forall|file: StoredTaskView| #[trigger] x.contains(file) <==> rest.contains(file) by {
        lemma_without(y, at, file);
        lemma_listed(earlier, root, before, is_folder, file);
        lemma_listed(later, root, after, is_folder, file);
        if is_task_path(root, file.path) {
            let here = path::components(file.path);
            lemma_among_tasks(root, file.path);
            if disk::is_in(here, home) {
                assert(here =~= home.push(disk::named("task.md"@)));
                lemma_task_paths_differ(root, file.path, new.path);
                assert(!before.files.contains_key(here));
            } else {
                assert(disk::same_at(before, after, here));
            }
        }
    }
    lemma_one_ascending(x, rest);
    assert(y =~= x.insert(at, new));
    lemma_one_more_file(x, at, new, task);
    order::lemma_sort_keeps_count::<Task, ByTaskId>(store::loaded_tasks(x));
    order::lemma_sort_keeps_count::<Task, ByTaskId>(store::loaded_tasks(y));
}

/// What stands among files in strict order without one of them.
proof fn lemma_without(files: Seq<StoredTaskView>, at: int, file: StoredTaskView)
    requires
        is_ascending(files),
        0 <= at < files.len(),
    ensures
        files.remove(at).contains(file) <==> files.contains(file) && file != files[at],
{
    let rest = files.remove(at);
    lemma_path_order(files[at].path, files[at].path);
    if rest.contains(file) {
        let i = choose|i: int| 0 <= i < rest.len() && rest[i] == file;
        if i < at {
            assert(files[i] == file);
            assert(path::path_order(files[i].path, files[at].path) == Standing::Earlier);
        } else {
            assert(files[i + 1] == file);
            assert(path::path_order(files[at].path, files[i + 1].path) == Standing::Earlier);
        }
    }
    if files.contains(file) && file != files[at] {
        let i = choose|i: int| 0 <= i < files.len() && files[i] == file;
        if i < at {
            assert(rest[i] == file);
        } else {
            assert(rest[i - 1] == file);
        }
    }
}

/// A created task is listed as one more.
proof fn lemma_created_is_listed(
    start: CreationView,
    replies: Seq<ReplyView>,
    disks: Seq<Disk>,
    is_folder: spec_fn(Seq<u8>) -> bool,
    earlier: Seq<StoredTaskView>,
    later: Seq<StoredTaskView>,
    task: TaskView,
)
    requires
        start == creation::started(start.root, start.task, start.workspace),
        start.task.workspace == Some(start.workspace),
        start.workspace.id == start.task.workspace_id,
        path::open_stem(start.root),
        attachment::is_safe_component(start.task.id),
        attachment::is_safe_component(start.task.workspace_id),
        creation_laws::is_run(start, replies),
        creation_laws::run(start, replies).stage == StageView::Finished(
            Ok::<TaskView, StoreErrorView>(task),
        ),
        disk::has_task_more(
            disks.first(),
            disks.last(),
            start.root,
            start.home(),
            markdown::rendered(task)->Ok_0,
        ),
        are_files(earlier, start.root, disks.first(), is_folder),
        are_files(later, start.root, disks.last(), is_folder),
    ensures
        store::task_list(later).tasks.to_multiset() == store::task_list(
            earlier,
        ).tasks.to_multiset().insert(checked(round_trip::read_back(task), is_folder)),
        store::task_list(later).errors == store::task_list(earlier).errors,
{
    reveal(disk::at);
    let root = start.root;
    let workspace = encode_utf8(start.task.workspace_id);
    let folder = encode_utf8(start.task.id);
    attachment::lemma_safe_is_proper(start.task.workspace_id);
    attachment::lemma_safe_is_proper(start.task.id);
    creation_laws::law_created_task_loads(
        start,
        replies,
        task,
        task_path(root, workspace, folder),
    );
    creation_scope::lemma_fixed_names_are_safe();
    attachment::law_safe_name_stays_below(root, "tasks"@);
    attachment::law_safe_name_stays_below(store::tasks_folder(root), start.task.workspace_id);
    attachment::law_safe_name_stays_below(
        store::workspace_folder(root, start.task.workspace_id),
        start.task.id,
    );
    lemma_longer_list(
        root,
        disks.first(),
        disks.last(),
        is_folder,
        earlier,
        later,
        workspace,
        folder,
        markdown::rendered(task)->Ok_0,
        checked(round_trip::read_back(task), is_folder),
    );
}

/// One more of a value is one more value.
proof fn lemma_one_longer(less: Seq<TaskView>, more: Seq<TaskView>, task: TaskView)
    requires
        more.to_multiset() == less.to_multiset().insert(task),
    ensures
        more.len() == less.len() + 1,
{
    broadcast use vstd::seq_lib::group_to_multiset_ensures;

    assert(less.to_multiset().insert(task).len() == less.to_multiset().len() + 1);
}

/// A created task is as its creation was started, but for its attachments.
proof fn lemma_created_as_started(start: CreationView, replies: Seq<ReplyView>, task: TaskView)
    requires
        start == creation::started(start.root, start.task, start.workspace),
        creation_laws::is_run(start, replies),
        creation_laws::run(start, replies).stage == StageView::Finished(
            Ok::<TaskView, StoreErrorView>(task),
        ),
    ensures
        task.id == start.task.id,
        task.status == start.task.status,
{
    creation_laws::law_created_means_written(start, replies, task);
}

/// A task that could not be created leaves what the store lists as it was. A task
/// that was created is listed as one more, pending, under the identifier that its
/// creator was given; everything else is listed as before. Between the two
/// listings only the creation changes the store, and the folders of workspaces
/// stay as they are.
pub proof fn law_creation_is_listed(
    data: Seq<u8>,
    id: Seq<char>,
    input: NewTaskView,
    created_at_ms: u64,
    updated_at_ms: u64,
    replies: Seq<ReplyView>,
    disks: Seq<Disk>,
    is_folder: spec_fn(Seq<u8>) -> bool,
    earlier: Seq<StoredTaskView>,
    later: Seq<StoredTaskView>,
)
    requires
        creation::refused_input(input) is None,
        outside::is_random_id(id),
        ({
            let start = creation::started(
                store::store_root(data),
                task::new_task(id, input, created_at_ms, updated_at_ms),
                input.workspace->0,
            );
            &&& creation_laws::is_run(start, replies)
            &&& creation_laws::run(start, replies).stage is Finished
            &&& disk::is_history(start, replies, disks)
        }),
        are_files(earlier, store::store_root(data), disks.first(), is_folder),
        are_files(later, store::store_root(data), disks.last(), is_folder),
    ensures
        ({
            let start = creation::started(
                store::store_root(data),
                task::new_task(id, input, created_at_ms, updated_at_ms),
                input.workspace->0,
            );
            match creation_laws::run(start, replies).stage->Finished_0 {
                Err(_) => store::task_list(later) == store::task_list(earlier),
                Ok(task) => {
                    let listed = checked(round_trip::read_back(task), is_folder);
                    &&& task.id == id
                    &&& task.status == TaskStatus::Pending
                    &&& listed.id == id
                    &&& store::task_list(later).tasks.to_multiset() == store::task_list(
                        earlier,
                    ).tasks.to_multiset().insert(listed)
                    &&& store::task_list(later).tasks.len() == store::task_list(
                        earlier,
                    ).tasks.len() + 1
                    &&& store::task_list(later).errors == store::task_list(earlier).errors
                },
            }
        }),
{
    let root = store::store_root(data);
    let start = creation::started(
        root,
        task::new_task(id, input, created_at_ms, updated_at_ms),
        input.workspace->0,
    );
    creation_scope::lemma_store_root(data);
    creation_scope::law_random_id_is_safe(id);
    disk::law_creation_on_disk(start, replies, disks);
    match creation_laws::run(start, replies).stage->Finished_0 {
        Err(_) => {
            lemma_same_list(root, disks.first(), disks.last(), is_folder, earlier, later);
        },
        Ok(task) => {
            lemma_created_as_started(start, replies, task);
            lemma_created_is_listed(start, replies, disks, is_folder, earlier, later, task);
            lemma_one_longer(
                store::task_list(earlier).tasks,
                store::task_list(later).tasks,
                checked(round_trip::read_back(task), is_folder),
            );
        },
    }
}

} // verus!
