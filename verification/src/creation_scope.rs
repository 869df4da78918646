//! Where the creation of a stored task writes: nowhere but in its store.
use vstd::prelude::*;
use vstd::string::*;
use vstd::utf8::*;

use crate::attachment;
use crate::creation;
use crate::creation::{ActionView, CreationView, ReplyView};
use crate::creation_laws;
use crate::outside;
use crate::path;
use crate::store;
use crate::store_error::StoreErrorView;
use crate::task;
use crate::task::NewTaskView;

verus! {

/// A random identifier can name a folder.
pub proof fn law_random_id_is_safe(id: Seq<char>)
    requires
        outside::is_random_id(id),
    ensures
        attachment::is_safe_component(id),
{
    reveal_strlit(".");
    reveal_strlit("..");
    assert forall|i: int| 0 <= i < id.len() implies !attachment::is_unsafe_char(
        #[trigger] id[i],
    ) by {
        if !(i == 8 || i == 13 || i == 18 || i == 23) {
            assert(outside::is_lower_hex(id[i]));
        }
    }
}

/// Whether an operation works on a path: it creates, writes, reads or removes what
/// is there, or moves it from there or to there. The file that a copy is made of
/// is not counted.
pub open spec fn works_on(action: ActionView, path: Seq<u8>) -> bool {
    match action {
        ActionView::CreateDirectory(folder) => path == folder,
        ActionView::CopyFile { to, .. } => path == to,
        ActionView::WriteBytes { path: file, .. } => path == file,
        ActionView::WriteText { path: file, .. } => path == file,
        ActionView::SyncFile(file) => path == file,
        ActionView::ReadIndex(file) => path == file,
        ActionView::WriteIndex { path: file, .. } => path == file,
        ActionView::Rename { from, to } => path == from || path == to,
        ActionView::CheckExists(place) => path == place,
        ActionView::RemoveDirectory(folder) => path == folder,
    }
}

/// Whether a path lies at or below a folder, component by component.
#[verifier::opaque]
pub open spec fn lies_in(path: Seq<u8>, folder: Seq<u8>) -> bool {
    path::components(folder).is_prefix_of(path::components(path))
}

proof fn lemma_below(root: Seq<u8>, folder: Seq<u8>, name: Seq<char>)
    requires
        lies_in(folder, root),
        path::open_stem(folder),
        attachment::is_safe_component(name),
    ensures
        lies_in(path::join(folder, encode_utf8(name)), root),
        path::open_stem(path::join(folder, encode_utf8(name))),
{
    reveal(lies_in);
    attachment::law_safe_name_stays_below(folder, name);
    let inner = path::components(folder);
    let outer = path::components(root);
    let whole = path::components(path::join(folder, encode_utf8(name)));
    assert(whole.take(outer.len() as int) =~= inner.take(outer.len() as int));
}

/// The names of the folders and files of every store are safe.
pub proof fn lemma_fixed_names_are_safe()
    ensures
        attachment::is_safe_component(".staging"@),
        attachment::is_safe_component("attachments"@),
        attachment::is_safe_component("task.md"@),
        attachment::is_safe_component("tasks"@),
        attachment::is_safe_component("workspaces.json"@),
        attachment::is_safe_component("workspaces.json.tmp"@),
{
    reveal_strlit(".");
    reveal_strlit("..");
    reveal_strlit(".staging");
    reveal_strlit("attachments");
    reveal_strlit("task.md");
    reveal_strlit("tasks");
    reveal_strlit("workspaces.json");
    reveal_strlit("workspaces.json.tmp");
    assert(".staging"@.len() == 8);
    assert("attachments"@.len() == 11);
    assert("task.md"@.len() == 7);
    assert("tasks"@.len() == 5);
    assert("workspaces.json"@.len() == 15);
    assert("workspaces.json.tmp"@.len() == 19);
    assert("."@.len() == 1 && ".."@.len() == 2);
}

/// The name of the folder for a task in the making is safe.
pub proof fn lemma_staging_name_is_safe(id: Seq<char>)
    requires
        attachment::is_safe_component(id),
    ensures
        attachment::is_safe_component("create-"@ + id),
{
    reveal_strlit(".");
    reveal_strlit("..");
    reveal_strlit("create-");
    assert("create-"@.len() == 7);
    assert("."@.len() == 1 && ".."@.len() == 2);
    let name = "create-"@ + id;
    assert(name.len() >= 7);
    assert forall|i: int| 0 <= i < name.len() implies !attachment::is_unsafe_char(
        #[trigger] name[i],
    ) by {
        if i < 7 {
            assert(name[i] == "create-"@[i]);
        } else {
            assert(name[i] == id[i - 7]);
        }
    }
}

/// The folders and files that a creation uses lie in the store.
proof fn lemma_store_paths(start: CreationView)
    requires
        path::open_stem(start.root),
        attachment::is_safe_component(start.task.id),
        attachment::is_safe_component(start.task.workspace_id),
    ensures
        lies_in(start.root, start.root),
        lies_in(creation::staging_root(start.root), start.root),
        lies_in(start.staging(), start.root),
        lies_in(start.attachments(), start.root),
        path::open_stem(start.attachments()),
        lies_in(store::task_file(start.staging()), start.root),
        lies_in(creation::index_file(start.root), start.root),
        lies_in(creation::new_index_file(start.root), start.root),
        lies_in(store::workspace_folder(start.root, start.task.workspace_id), start.root),
        lies_in(start.home(), start.root),
{
    let root = start.root;
    let id = start.task.id;
    lemma_fixed_names_are_safe();
    lemma_staging_name_is_safe(id);
    assert(lies_in(root, root)) by {
        reveal(lies_in);
    }
    lemma_below(root, root, ".staging"@);
    lemma_below(root, creation::staging_root(root), "create-"@ + id);
    lemma_below(root, start.staging(), "attachments"@);
    lemma_below(root, start.staging(), "task.md"@);
    lemma_below(root, root, "workspaces.json"@);
    lemma_below(root, root, "workspaces.json.tmp"@);
    lemma_below(root, root, "tasks"@);
    lemma_below(root, store::tasks_folder(root), start.task.workspace_id);
    lemma_below(root, store::workspace_folder(root, start.task.workspace_id), id);
}

#[verifier::rlimit(40)]
proof fn lemma_works_on(start: CreationView, now: CreationView)
    requires
        now.root == start.root,
        now.task == start.task,
        creation::next_action(now) is Some,
        lies_in(start.root, start.root),
        lies_in(creation::staging_root(start.root), start.root),
        lies_in(start.staging(), start.root),
        lies_in(start.attachments(), start.root),
        lies_in(store::task_file(start.staging()), start.root),
        lies_in(creation::index_file(start.root), start.root),
        lies_in(creation::new_index_file(start.root), start.root),
        lies_in(store::workspace_folder(start.root, start.task.workspace_id), start.root),
        lies_in(start.home(), start.root),
        now.stage is Store || now.stage is Sync ==> lies_in(
            now.place(now.names.len() - 1),
            start.root,
        ),
    ensures
        forall|path: Seq<u8>| #[trigger]
            works_on(creation::next_action(now)->0, path) ==> lies_in(path, start.root),
{
}

proof fn lemma_writes_stay_below(start: CreationView, replies: Seq<ReplyView>)
    requires
        start == creation::started(start.root, start.task, start.workspace),
        creation_laws::is_run(start, replies),
        path::open_stem(start.root),
        attachment::is_safe_component(start.task.id),
        attachment::is_safe_component(start.task.workspace_id),
    ensures
        creation::next_action(creation_laws::run(start, replies)) matches Some(action) ==> forall|
            path: Seq<u8>,
        | #[trigger]
            works_on(action, path) ==> lies_in(path, start.root),
{
    creation_laws::lemma_run_keeps(start, replies);
    let now = creation_laws::run(start, replies);
    lemma_store_paths(start);
    let n = now.names.len() - 1;
    if n >= 0 {
        let name = now.names[n];
        assert(attachment::stored_name(start.task.attachments[n]) == Ok::<
            Seq<char>,
            StoreErrorView,
        >(name));
        lemma_below(start.root, start.attachments(), name);
        assert(now.place(n) == path::join(start.attachments(), encode_utf8(name)));
    }
    if creation::next_action(now) is Some {
        lemma_works_on(start, now);
    }
}

/// The folder of a store does not end in a slash.
pub proof fn lemma_store_root(data: Seq<u8>)
    ensures
        path::open_stem(store::store_root(data)),
{
    let name = encode_utf8("v1"@);
    assert(attachment::is_safe_component("v1"@)) by {
        reveal_strlit(".");
        reveal_strlit("..");
        reveal_strlit("v1");
        assert("v1"@.len() == 2 && "v1"@[0] == 'v');
        assert(".."@[0] == '.');
    }
    attachment::lemma_safe_is_proper("v1"@);
    assert(name.len() > 0);
    assert(name.contains(name[name.len() - 1]));
    assert(store::store_root(data).last() == name.last());
}

/// Nothing is written outside the store, nor moved out of it or into it: every
/// operation of a creation works on paths at or below the folder of the store,
/// whatever the task says, but for the file that an attachment is copied from.
pub proof fn law_writes_stay_in_the_store(
    data: Seq<u8>,
    id: Seq<char>,
    input: NewTaskView,
    created_at_ms: u64,
    updated_at_ms: u64,
    replies: Seq<ReplyView>,
)
    requires
        creation::refused_input(input) is None,
        outside::is_random_id(id),
        creation_laws::is_run(
            creation::started(
                store::store_root(data),
                task::new_task(id, input, created_at_ms, updated_at_ms),
                input.workspace->0,
            ),
            replies,
        ),
    ensures
        ({
            let start = creation::started(
                store::store_root(data),
                task::new_task(id, input, created_at_ms, updated_at_ms),
                input.workspace->0,
            );
            creation::next_action(creation_laws::run(start, replies)) matches Some(
                action,
            ) ==> forall|path: Seq<u8>| #[trigger]
                works_on(action, path) ==> lies_in(path, store::store_root(data))
        }),
{
    let start = creation::started(
        store::store_root(data),
        task::new_task(id, input, created_at_ms, updated_at_ms),
        input.workspace->0,
    );
    lemma_store_root(data);
    law_random_id_is_safe(id);
    lemma_writes_stay_below(start, replies);
}

} // verus!
