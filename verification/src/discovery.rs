//! The workspaces below the roots that are searched: grouped by the group of
//! their root and sorted by name.
use vstd::prelude::*;
use vstd::string::*;
use vstd::utf8::*;

use crate::order;
use crate::order::{compare_texts, stable_sort, Order, Standing};
use crate::outside;
use crate::outside::lowercase_of;
use crate::path;
use crate::path::{compare_paths, normalize_path, LocalPath};
use crate::views;
use crate::workspace;
use crate::workspace::{
    DiscoveredView, DiscoveredWorkspace, WorkspaceRoot, WorkspaceRootView, WorkspaceSource,
};

verus! {

/// A folder right below a root: its canonical path, or the path it was listed
/// under where it has none.
#[derive(Debug, Eq, PartialEq)]
pub struct ScannedDirectory {
    pub path: LocalPath,
    pub is_available: bool,
}

/// What a folder below a root is.
pub ghost struct ScannedView {
    pub path: Seq<u8>,
    pub is_available: bool,
}

impl View for ScannedDirectory {
    type V = ScannedView;

    open spec fn view(&self) -> ScannedView {
        ScannedView { path: self.path@, is_available: self.is_available }
    }
}

/// A root and the folders right below it, where the root could be listed.
#[derive(Debug, Eq, PartialEq)]
pub struct SourceScan {
    pub root: WorkspaceRoot,
    pub directories: Option<Vec<ScannedDirectory>>,
}

/// What was found below a root.
pub ghost struct SourceScanView {
    pub root: WorkspaceRootView,
    pub directories: Option<Seq<ScannedView>>,
}

impl View for SourceScan {
    type V = SourceScanView;

    open spec fn view(&self) -> SourceScanView {
        SourceScanView {
            root: self.root@,
            directories: match self.directories {
                Some(directories) => Some(views::views(directories@)),
                None => None,
            },
        }
    }
}

/// The order of workspaces in a group: by name in lower case, then by path.
pub struct ByName;

/// How two workspaces of a group stand to each other.
pub open spec fn name_order(a: DiscoveredView, b: DiscoveredView) -> Standing {
    match order::text_order(
        outside::lowercase(a.display_name),
        outside::lowercase(b.display_name),
    ) {
        Standing::Same => path::path_order(path::normalized(a.path), path::normalized(b.path)),
        standing => standing,
    }
}

impl Order<DiscoveredWorkspace> for ByName {
    open spec fn le(a: DiscoveredView, b: DiscoveredView) -> bool {
        name_order(a, b) != Standing::Later
    }

    proof fn total(a: DiscoveredView, b: DiscoveredView) {
        order::lemma_byte_order(
            encode_utf8(outside::lowercase(a.display_name)),
            encode_utf8(outside::lowercase(b.display_name)),
        );
        <path::ByPath as Order<LocalPath>>::total(
            path::normalized(a.path),
            path::normalized(b.path),
        );
        if name_order(a, b) == Standing::Later {
            assert(order::text_order(
                outside::lowercase(b.display_name),
                outside::lowercase(a.display_name),
            ) != Standing::Later);
        }
    }

    proof fn transitive(a: DiscoveredView, b: DiscoveredView, c: DiscoveredView) {
        let x = encode_utf8(outside::lowercase(a.display_name));
        let y = encode_utf8(outside::lowercase(b.display_name));
        let z = encode_utf8(outside::lowercase(c.display_name));
        order::lemma_byte_order_transitive(x, y, z);
        order::lemma_byte_order(x, y);
        order::lemma_byte_order(y, z);
        if x == y && y == z {
            <path::ByPath as Order<LocalPath>>::transitive(
                path::normalized(a.path),
                path::normalized(b.path),
                path::normalized(c.path),
            );
        }
    }

    fn in_order(a: &DiscoveredWorkspace, b: &DiscoveredWorkspace) -> (ordered: bool) {
        let left = lowercase_of(a.display_name.as_str());
        let right = lowercase_of(b.display_name.as_str());
        match compare_texts(left.as_str(), right.as_str()) {
            Standing::Earlier => true,
            Standing::Later => false,
            Standing::Same => match compare_paths(
                &normalize_path(&a.path),
                &normalize_path(&b.path),
            ) {
                Standing::Later => false,
                _ => true,
            },
        }
    }
}

/// The workspaces that a root gives: one for each folder, or the root itself, as
/// one that is not available, where it could not be listed.
pub open spec fn found(scan: SourceScanView) -> Seq<DiscoveredView> {
    match scan.directories {
        Some(directories) => directories.map_values(
            |directory: ScannedView|
                workspace::workspace_at(
                    scan.root.source,
                    directory.path,
                    directory.is_available,
                ),
        ),
        None => seq![workspace::workspace_at(scan.root.source, scan.root.path, false)],
    }
}

/// The groups of the roots, in the order in which they first occur.
pub open spec fn groups(scans: Seq<SourceScanView>) -> Seq<WorkspaceSource>
    decreases scans.len(),
{
    if scans.len() == 0 {
        Seq::empty()
    } else {
        let before = groups(scans.drop_last());
        if before.contains(scans.last().root.source) {
            before
        } else {
            before.push(scans.last().root.source)
        }
    }
}

/// The workspaces of a group, as they were found.
pub open spec fn members(scans: Seq<SourceScanView>, source: WorkspaceSource) -> Seq<DiscoveredView>
    decreases scans.len(),
{
    if scans.len() == 0 {
        Seq::empty()
    } else if scans.last().root.source == source {
        members(scans.drop_last(), source) + found(scans.last())
    } else {
        members(scans.drop_last(), source)
    }
}

/// The workspaces of a group, sorted.
pub open spec fn sorted_members(scans: Seq<SourceScanView>, source: WorkspaceSource) -> Seq<
    DiscoveredView,
> {
    order::stably_sorted::<DiscoveredWorkspace, ByName>(members(scans, source))
}

/// The sorted workspaces of several groups, one group after the other.
pub open spec fn in_groups(scans: Seq<SourceScanView>, sources: Seq<WorkspaceSource>) -> Seq<
    DiscoveredView,
>
    decreases sources.len(),
{
    if sources.len() == 0 {
        Seq::empty()
    } else {
        in_groups(scans, sources.drop_last()) + sorted_members(scans, sources.last())
    }
}

/// The workspaces below the roots: group by group, each group sorted.
pub open spec fn discovered(scans: Seq<SourceScanView>) -> Seq<DiscoveredView> {
    in_groups(scans, groups(scans))
}

/// The workspaces that a root gives.
fn workspaces_of_scan(scan: &SourceScan) -> (workspaces: Vec<DiscoveredWorkspace>)
    ensures
        views::views(workspaces@) == found(scan@),
{
    let mut workspaces: Vec<DiscoveredWorkspace> = Vec::new();
    match &scan.directories {
        Some(directories) => {
            let mut i: usize = 0;
            while i < directories.len()
                invariant
                    i <= directories@.len(),
                    scan.directories == Some(*directories),
                    views::views(workspaces@) =~= found(scan@).take(i as int),
                decreases directories@.len() - i,
            {
                let directory = &directories[i];
                let workspace = if directory.is_available {
                    DiscoveredWorkspace::available(scan.root.source, directory.path.clone())
                } else {
                    DiscoveredWorkspace::unavailable(scan.root.source, directory.path.clone())
                };
                assert(scan@.directories->0[i as int] == directory@);
                assert(found(scan@)[i as int] == workspace@);
                let ghost before = views::views(workspaces@);
                workspaces.push(workspace);
                assert(views::views(workspaces@) =~= before.push(workspace@));
                assert(found(scan@).take(i + 1) =~= found(scan@).take(i as int).push(
                    found(scan@)[i as int],
                ));
                i += 1;
            }
            assert(found(scan@).take(i as int) =~= found(scan@));
        },
        None => {
            workspaces.push(
                DiscoveredWorkspace::unavailable(scan.root.source, scan.root.path.clone()),
            );
            assert(views::views(workspaces@) =~= found(scan@));
        },
    }
    workspaces
}

/// The groups of the roots.
fn groups_of_scans(scans: &Vec<SourceScan>) -> (sources: Vec<WorkspaceSource>)
    ensures
        sources@ == groups(views::views(scans@)),
{
    let ghost all = views::views(scans@);
    let mut sources: Vec<WorkspaceSource> = Vec::new();
    let mut i: usize = 0;
    assert(all.take(0) =~= Seq::empty());
    while i < scans.len()
        invariant
            i <= scans@.len(),
            all == views::views(scans@),
            sources@ == groups(all.take(i as int)),
        decreases scans@.len() - i,
    {
        let source = scans[i].root.source;
        assert(all.take(i + 1).drop_last() =~= all.take(i as int));
        assert(all.take(i + 1).last() == scans@[i as int]@);
        let mut known = false;
        let mut j: usize = 0;
        while j < sources.len()
            invariant
                j <= sources@.len(),
                known == (exists|k: int| 0 <= k < j && #[trigger] sources@[k] == source),
            decreases sources@.len() - j,
        {
            if sources[j] == source {
                known = true;
            }
            j += 1;
        }
        if !known {
            assert(!sources@.contains(source));
            sources.push(source);
        }
        i += 1;
    }
    assert(all.take(i as int) =~= all);
    sources
}

/// The workspaces of a group, as they were found.
fn members_of_group(scans: &Vec<SourceScan>, source: WorkspaceSource) -> (workspaces: Vec<
    DiscoveredWorkspace,
>)
    ensures
        views::views(workspaces@) == members(views::views(scans@), source),
{
    let ghost all = views::views(scans@);
    let mut workspaces: Vec<DiscoveredWorkspace> = Vec::new();
    let mut i: usize = 0;
    assert(all.take(0) =~= Seq::empty());
    assert(views::views(workspaces@) =~= Seq::empty());
    while i < scans.len()
        invariant
            i <= scans@.len(),
            all == views::views(scans@),
            views::views(workspaces@) == members(all.take(i as int), source),
        decreases scans@.len() - i,
    {
        assert(all.take(i + 1).drop_last() =~= all.take(i as int));
        assert(all.take(i + 1).last() == scans@[i as int]@);
        if scans[i].root.source == source {
            let mut more = workspaces_of_scan(&scans[i]);
            let ghost before = workspaces@;
            let ghost added = more@;
            workspaces.append(&mut more);
            assert(views::views(workspaces@) =~= views::views(before) + views::views(added));
        }
        i += 1;
    }
    assert(all.take(i as int) =~= all);
    workspaces
}

/// The workspaces below the roots.
pub fn discover_workspaces(scans: &Vec<SourceScan>) -> (workspaces: Vec<DiscoveredWorkspace>)
    ensures
        views::views(workspaces@) == discovered(views::views(scans@)),
{
    let sources = groups_of_scans(scans);
    let ghost all = views::views(scans@);
    let mut workspaces: Vec<DiscoveredWorkspace> = Vec::new();
    let mut i: usize = 0;
    assert(sources@.take(0) =~= Seq::empty());
    assert(views::views(workspaces@) =~= Seq::empty());
    while i < sources.len()
        invariant
            i <= sources@.len(),
            all == views::views(scans@),
            views::views(workspaces@) == in_groups(all, sources@.take(i as int)),
        decreases sources@.len() - i,
    {
        let mut group = stable_sort::<DiscoveredWorkspace, ByName>(
            members_of_group(scans, sources[i]),
        );
        let ghost before = workspaces@;
        let ghost added = group@;
        assert(sources@.take(i + 1).drop_last() =~= sources@.take(i as int));
        workspaces.append(&mut group);
        assert(views::views(workspaces@) =~= views::views(before) + views::views(added));
        i += 1;
    }
    assert(sources@.take(i as int) =~= sources@);
    workspaces
}

/// The members of a group all belong to it.
proof fn lemma_members_source(scans: Seq<SourceScanView>, source: WorkspaceSource)
    ensures
        forall|i: int|
            0 <= i < members(scans, source).len() ==> (#[trigger] members(
                scans,
                source,
            )[i]).source == source,
    decreases scans.len(),
{
    if scans.len() > 0 {
        lemma_members_source(scans.drop_last(), source);
    }
}

/// What a root gives belongs to its group.
proof fn lemma_found_in_members(scans: Seq<SourceScanView>, n: int, workspace: DiscoveredView)
    requires
        0 <= n < scans.len(),
        found(scans[n]).contains(workspace),
    ensures
        members(scans, scans[n].root.source).contains(workspace),
        groups(scans).contains(scans[n].root.source),
    decreases scans.len(),
{
    let source = scans[n].root.source;
    let before = members(scans.drop_last(), source);
    let known = groups(scans.drop_last());
    let whole = members(scans, source);
    if n == scans.len() - 1 {
        let i = choose|i: int| 0 <= i < found(scans[n]).len() && found(scans[n])[i] == workspace;
        assert(whole[before.len() + i] == workspace);
        if !known.contains(source) {
            assert(groups(scans)[known.len() as int] == source);
        }
    } else {
        lemma_found_in_members(scans.drop_last(), n, workspace);
        let i = choose|i: int| 0 <= i < before.len() && before[i] == workspace;
        assert(whole[i] == workspace);
        let k = choose|k: int| 0 <= k < known.len() && known[k] == source;
        assert(groups(scans)[k] == source);
    }
}

/// What belongs to a group was found below one of its roots.
proof fn lemma_member_was_found(
    scans: Seq<SourceScanView>,
    source: WorkspaceSource,
    workspace: DiscoveredView,
)
    requires
        members(scans, source).contains(workspace),
    ensures
        exists|n: int| 0 <= n < scans.len() && found(#[trigger] scans[n]).contains(workspace),
    decreases scans.len(),
{
    if scans.len() > 0 {
        let before = members(scans.drop_last(), source);
        let whole = members(scans, source);
        let i = choose|i: int| 0 <= i < whole.len() && whole[i] == workspace;
        if i < before.len() {
            assert(before[i] == workspace);
            lemma_member_was_found(scans.drop_last(), source, workspace);
            let n = choose|n: int|
                0 <= n < scans.len() - 1 && found(#[trigger] scans.drop_last()[n]).contains(
                    workspace,
                );
            assert(found(scans[n]).contains(workspace));
        } else {
            let last = scans.last();
            assert(last.root.source == source);
            assert(found(last)[i - before.len()] == workspace);
            assert(found(scans[scans.len() - 1]).contains(workspace));
        }
    }
}

proof fn lemma_in_groups(
    scans: Seq<SourceScanView>,
    sources: Seq<WorkspaceSource>,
    workspace: DiscoveredView,
)
    ensures
        in_groups(scans, sources).contains(workspace) <==> exists|k: int|
            0 <= k < sources.len() && members(scans, #[trigger] sources[k]).contains(workspace),
    decreases sources.len(),
{
    if sources.len() > 0 {
        let before = in_groups(scans, sources.drop_last());
        let last = sorted_members(scans, sources.last());
        let whole = in_groups(scans, sources);
        lemma_in_groups(scans, sources.drop_last(), workspace);
        order::lemma_sort_keeps::<DiscoveredWorkspace, ByName>(members(scans, sources.last()));
        assert(last.contains(workspace) <==> members(scans, sources.last()).contains(workspace));
        if whole.contains(workspace) {
            let i = choose|i: int| 0 <= i < whole.len() && whole[i] == workspace;
            if i < before.len() {
                assert(before[i] == workspace);
                let k = choose|k: int|
                    0 <= k < sources.len() - 1 && members(
                        scans,
                        #[trigger] sources.drop_last()[k],
                    ).contains(workspace);
                assert(members(scans, sources[k]).contains(workspace));
            } else {
                assert(last[i - before.len()] == workspace);
                assert(members(scans, sources[sources.len() - 1]).contains(workspace));
            }
        }
        if exists|k: int|
            0 <= k < sources.len() && members(scans, #[trigger] sources[k]).contains(workspace) {
            let k = choose|k: int|
                0 <= k < sources.len() && members(scans, #[trigger] sources[k]).contains(workspace);
            if k < sources.len() - 1 {
                assert(members(scans, sources.drop_last()[k]).contains(workspace));
                let i = choose|i: int| 0 <= i < before.len() && before[i] == workspace;
                assert(whole[i] == workspace);
            } else {
                let i = choose|i: int| 0 <= i < last.len() && last[i] == workspace;
                assert(whole[before.len() + i] == workspace);
            }
        }
    }
}

/// Discovery shows exactly what the roots give: every folder of a root that could
/// be listed, and every root that could not, which thus stays visible.
pub proof fn law_discovery_is_complete(scans: Seq<SourceScanView>, workspace: DiscoveredView)
    ensures
        discovered(scans).contains(workspace) <==> exists|n: int|
            0 <= n < scans.len() && found(#[trigger] scans[n]).contains(workspace),
{
    let sources = groups(scans);
    lemma_in_groups(scans, sources, workspace);
    if discovered(scans).contains(workspace) {
        let k = choose|k: int|
            0 <= k < sources.len() && members(scans, #[trigger] sources[k]).contains(workspace);
        lemma_member_was_found(scans, sources[k], workspace);
    }
    if exists|n: int| 0 <= n < scans.len() && found(#[trigger] scans[n]).contains(workspace) {
        let n = choose|n: int|
            0 <= n < scans.len() && found(#[trigger] scans[n]).contains(workspace);
        lemma_found_in_members(scans, n, workspace);
        let source = scans[n].root.source;
        let k = choose|k: int| 0 <= k < sources.len() && sources[k] == source;
        assert(members(scans, sources[k]).contains(workspace));
    }
}

/// The workspaces of one group.
pub open spec fn of_source(workspaces: Seq<DiscoveredView>, source: WorkspaceSource) -> Seq<
    DiscoveredView,
> {
    workspaces.filter(|workspace: DiscoveredView| workspace.source == source)
}

proof fn lemma_filter_all(workspaces: Seq<DiscoveredView>, source: WorkspaceSource)
    ensures
        (forall|i: int| 0 <= i < workspaces.len() ==> (#[trigger] workspaces[i]).source == source)
            ==> of_source(workspaces, source) == workspaces,
        (forall|i: int| 0 <= i < workspaces.len() ==> (#[trigger] workspaces[i]).source != source)
            ==> of_source(workspaces, source) == Seq::<DiscoveredView>::empty(),
    decreases workspaces.len(),
{
    reveal(Seq::filter);
    if workspaces.len() > 0 {
        lemma_filter_all(workspaces.drop_last(), source);
        assert(workspaces.drop_last().push(workspaces.last()) =~= workspaces);
        assert(workspaces[workspaces.len() - 1] == workspaces.last());
        assert forall|i: int| 0 <= i < workspaces.len() - 1 implies (
        #[trigger] workspaces.drop_last()[i]) == workspaces[i] by {}
    } else {
        assert(workspaces =~= Seq::empty());
    }
}

proof fn lemma_in_groups_of_source(
    scans: Seq<SourceScanView>,
    sources: Seq<WorkspaceSource>,
    source: WorkspaceSource,
)
    requires
        sources.no_duplicates(),
    ensures
        of_source(in_groups(scans, sources), source) == if sources.contains(source) {
            sorted_members(scans, source)
        } else {
            Seq::empty()
        },
    decreases sources.len(),
{
    reveal(Seq::filter);
    if sources.len() > 0 {
        let before = sources.drop_last();
        let last = sources.last();
        let group = sorted_members(scans, last);
        lemma_in_groups_of_source(scans, before, source);
        let pred = |workspace: DiscoveredView| workspace.source == source;
        Seq::filter_distributes_over_add(in_groups(scans, before), group, pred);
        lemma_members_source(scans, last);
        order::lemma_sort_keeps::<DiscoveredWorkspace, ByName>(members(scans, last));
        assert forall|i: int| 0 <= i < group.len() implies (#[trigger] group[i]).source == last by {
            assert(group.contains(group[i]));
        }
        lemma_filter_all(group, source);
        assert(sources[sources.len() - 1] == last);
        if before.contains(source) {
            let k = choose|k: int| 0 <= k < before.len() && before[k] == source;
            assert(sources[k] == source);
            assert(last != source);
            assert(of_source(in_groups(scans, sources), source) =~= sorted_members(scans, source));
        } else if last == source {
            assert(of_source(in_groups(scans, sources), source) =~= sorted_members(scans, source));
        } else {
            assert(!sources.contains(source)) by {
                if sources.contains(source) {
                    let k = choose|k: int| 0 <= k < sources.len() && sources[k] == source;
                    assert(before[k] == source);
                }
            }
            assert(of_source(in_groups(scans, sources), source) =~= Seq::empty());
        }
    }
}

proof fn lemma_groups(scans: Seq<SourceScanView>, source: WorkspaceSource)
    ensures
        groups(scans).no_duplicates(),
        !groups(scans).contains(source) ==> members(scans, source).len() == 0,
    decreases scans.len(),
{
    if scans.len() > 0 {
        let before = groups(scans.drop_last());
        lemma_groups(scans.drop_last(), source);
        let all = groups(scans);
        if !all.contains(source) {
            if before.contains(source) {
                let k = choose|k: int| 0 <= k < before.len() && before[k] == source;
                assert(all[k] == source);
            }
            if scans.last().root.source == source {
                assert(all[before.len() as int] == source);
            }
        }
    }
}

/// The workspaces of a group, as discovery shows them, are those that its roots
/// gave, sorted by name without regard to case and then by path.
pub proof fn law_group_is_sorted(scans: Seq<SourceScanView>, source: WorkspaceSource)
    ensures
        of_source(discovered(scans), source) == sorted_members(scans, source),
        order::is_stable_sort::<DiscoveredWorkspace, ByName>(
            of_source(discovered(scans), source),
            members(scans, source),
        ),
{
    lemma_groups(scans, source);
    lemma_in_groups_of_source(scans, groups(scans), source);
    order::lemma_sort_exists::<DiscoveredWorkspace, ByName>(members(scans, source));
    if !groups(scans).contains(source) {
        order::law_one_stable_sort::<DiscoveredWorkspace, ByName>(
            sorted_members(scans, source),
            members(scans, source),
        );
        assert(sorted_members(scans, source) =~= Seq::empty());
    }
}

/// Every folder right below a root that could be listed is shown: at its path, in
/// the group of its root, and available where it was. A root that could not be
/// listed is shown in the place of its folders, as one that is not available.
pub proof fn law_every_folder_is_shown(scans: Seq<SourceScanView>, n: int, d: int)
    requires
        0 <= n < scans.len(),
        scans[n].directories matches Some(directories) ==> 0 <= d < directories.len(),
    ensures
        ({
            let (path, is_available) = match scans[n].directories {
                Some(directories) => (directories[d].path, directories[d].is_available),
                None => (scans[n].root.path, false),
            };
            exists|workspace: DiscoveredView| #[trigger]
                discovered(scans).contains(workspace) && workspace.path == path
                    && workspace.is_available == is_available && workspace.source
                    == scans[n].root.source && workspace.id == workspace::workspace_id_of(path)
        }),
{
    let (path, is_available) = match scans[n].directories {
        Some(directories) => (directories[d].path, directories[d].is_available),
        None => (scans[n].root.path, false),
    };
    let shown = workspace::workspace_at(scans[n].root.source, path, is_available);
    let all = found(scans[n]);
    match scans[n].directories {
        Some(directories) => {
            assert(all[d] == shown);
        },
        None => {
            assert(all[0] == shown);
        },
    }
    assert(all.contains(shown));
    law_discovery_is_complete(scans, shown);
    assert(discovered(scans).contains(shown));
}

/// Nothing is shown but folders right below the roots, and roots that could not be
/// listed.
pub proof fn law_nothing_else_is_shown(scans: Seq<SourceScanView>, shown: DiscoveredView)
    requires
        discovered(scans).contains(shown),
    ensures
        exists|n: int|
            0 <= n < scans.len() && shown.source == (#[trigger] scans[n]).root.source && match scans[n].directories {
                Some(directories) => directories.contains(
                    ScannedView { path: shown.path, is_available: shown.is_available },
                ),
                None => shown.path == scans[n].root.path && !shown.is_available,
            },
{
    law_discovery_is_complete(scans, shown);
    let n = choose|n: int| 0 <= n < scans.len() && found(#[trigger] scans[n]).contains(shown);
    let all = found(scans[n]);
    let i = choose|i: int| 0 <= i < all.len() && all[i] == shown;
    match scans[n].directories {
        Some(directories) => {
            assert(directories[i] == ScannedView {
                path: shown.path,
                is_available: shown.is_available,
            });
        },
        None => {},
    }
    assert(shown.source == scans[n].root.source);
}

/// How many workspaces some roots give: one for each folder, and one for each root
/// that could not be listed.
pub open spec fn folder_count(scans: Seq<SourceScanView>) -> nat
    decreases scans.len(),
{
    if scans.len() == 0 {
        0
    } else {
        folder_count(scans.drop_last()) + match scans.last().directories {
            Some(directories) => directories.len(),
            None => 1,
        }
    }
}

proof fn lemma_members_count(scans: Seq<SourceScanView>)
    ensures
        members(scans, WorkspaceSource::Github).len() + members(
            scans,
            WorkspaceSource::ActiveProjects,
        ).len() == folder_count(scans),
    decreases scans.len(),
{
    if scans.len() > 0 {
        lemma_members_count(scans.drop_last());
    }
}

proof fn lemma_parts_count(workspaces: Seq<DiscoveredView>)
    ensures
        of_source(workspaces, WorkspaceSource::Github).len() + of_source(
            workspaces,
            WorkspaceSource::ActiveProjects,
        ).len() == workspaces.len(),
    decreases workspaces.len(),
{
    reveal(Seq::filter);
    if workspaces.len() > 0 {
        lemma_parts_count(workspaces.drop_last());
    }
}

/// No folder is shown twice or lost: as many workspaces are shown as the roots have
/// folders, and one for each root that could not be listed.
pub proof fn law_discovery_counts(scans: Seq<SourceScanView>)
    ensures
        discovered(scans).len() == folder_count(scans),
{
    lemma_parts_count(discovered(scans));
    lemma_members_count(scans);
    law_group_is_sorted(scans, WorkspaceSource::Github);
    law_group_is_sorted(scans, WorkspaceSource::ActiveProjects);
    order::lemma_sort_keeps::<DiscoveredWorkspace, ByName>(
        members(scans, WorkspaceSource::Github),
    );
    order::lemma_sort_keeps::<DiscoveredWorkspace, ByName>(
        members(scans, WorkspaceSource::ActiveProjects),
    );
}

/// The workspaces of a group come in the order of their names in lower case, and
/// those with the same such name in the order of their paths.
pub proof fn law_group_order(scans: Seq<SourceScanView>, source: WorkspaceSource, i: int, j: int)
    requires
        0 <= i < j < of_source(discovered(scans), source).len(),
    ensures
        ({
            let a = of_source(discovered(scans), source)[i];
            let b = of_source(discovered(scans), source)[j];
            let names = order::byte_order(
                encode_utf8(outside::lowercase(a.display_name)),
                encode_utf8(outside::lowercase(b.display_name)),
            );
            names == Standing::Earlier || names == Standing::Same && path::path_order(
                path::normalized(a.path),
                path::normalized(b.path),
            ) != Standing::Later
        }),
{
    law_group_is_sorted(scans, source);
    order::lemma_sort_keeps::<DiscoveredWorkspace, ByName>(members(scans, source));
    let sorted = sorted_members(scans, source);
    assert(<ByName as Order<DiscoveredWorkspace>>::le(sorted[i], sorted[j]));
}

/// The workspaces of one group are those with that group, in the order in which
/// they stand.
pub proof fn law_of_source(
    workspaces: Seq<DiscoveredView>,
    workspace: DiscoveredView,
    source: WorkspaceSource,
)
    ensures
        of_source(Seq::empty(), source) == Seq::<DiscoveredView>::empty(),
        of_source(workspaces.push(workspace), source) == if workspace.source == source {
            of_source(workspaces, source).push(workspace)
        } else {
            of_source(workspaces, source)
        },
{
    reveal(Seq::filter);
    assert(workspaces.push(workspace).drop_last() =~= workspaces);
}

proof fn lemma_first_group(scans: Seq<SourceScanView>)
    requires
        scans.len() > 0,
    ensures
        groups(scans).len() > 0,
        groups(scans)[0] == scans[0].root.source,
    decreases scans.len(),
{
    let before = scans.drop_last();
    if before.len() > 0 {
        lemma_first_group(before);
    } else {
        assert(groups(before) =~= Seq::empty());
        assert(!groups(before).contains(scans.last().root.source));
    }
}

proof fn lemma_at_most_two_groups(scans: Seq<SourceScanView>, other: WorkspaceSource)
    requires
        scans.len() > 0,
        other != scans[0].root.source,
    ensures
        groups(scans) == seq![scans[0].root.source] || groups(scans) == seq![
            scans[0].root.source,
            other,
        ],
{
    let all = groups(scans);
    lemma_first_group(scans);
    lemma_groups(scans, other);
    if all.len() > 2 {
        assert(all[0] != all[1] && all[0] != all[2] && all[1] != all[2]);
    }
    if all.len() == 1 {
        assert(all =~= seq![scans[0].root.source]);
    } else {
        assert(all[0] != all[1]);
        assert(all =~= seq![scans[0].root.source, other]);
    }
}

proof fn lemma_one_group(scans: Seq<SourceScanView>, first: WorkspaceSource)
    ensures
        in_groups(scans, seq![first]) == sorted_members(scans, first),
{
    let one = seq![first];
    let group = sorted_members(scans, first);
    assert(one.drop_last() =~= Seq::empty());
    assert(one.last() == first);
    let none = in_groups(scans, one.drop_last());
    assert(none =~= Seq::empty());
    assert(in_groups(scans, one) == none + group);
    assert(none + group =~= group);
}

proof fn lemma_two_groups(
    scans: Seq<SourceScanView>,
    first: WorkspaceSource,
    other: WorkspaceSource,
)
    ensures
        in_groups(scans, seq![first, other]) == sorted_members(scans, first) + sorted_members(
            scans,
            other,
        ),
{
    lemma_one_group(scans, first);
    let two = seq![first, other];
    assert(two.drop_last() =~= seq![first]);
    assert(two.last() == other);
}

proof fn lemma_no_group(scans: Seq<SourceScanView>, other: WorkspaceSource)
    requires
        !groups(scans).contains(other),
    ensures
        sorted_members(scans, other).len() == 0,
{
    lemma_groups(scans, other);
    order::lemma_sort_keeps::<DiscoveredWorkspace, ByName>(members(scans, other));
}

proof fn lemma_group(scans: Seq<SourceScanView>, source: WorkspaceSource) -> (group: Seq<
    DiscoveredView,
>)
    ensures
        group == sorted_members(scans, source),
        group == of_source(discovered(scans), source),
{
    law_group_is_sorted(scans, source);
    sorted_members(scans, source)
}

proof fn lemma_joined(
    whole: Seq<DiscoveredView>,
    front: Seq<DiscoveredView>,
    back: Seq<DiscoveredView>,
)
    requires
        whole == front && back.len() == 0 || whole == front + back,
    ensures
        whole == front + back,
{
    if back.len() == 0 {
        assert(front + back =~= front);
    }
}

proof fn lemma_discovered(scans: Seq<SourceScanView>, other: WorkspaceSource)
    requires
        scans.len() > 0,
        other != scans[0].root.source,
    ensures
        discovered(scans) == sorted_members(scans, scans[0].root.source) && sorted_members(
            scans,
            other,
        ).len() == 0 || discovered(scans) == sorted_members(scans, scans[0].root.source)
            + sorted_members(scans, other),
{
    let first = scans[0].root.source;
    lemma_at_most_two_groups(scans, other);
    lemma_one_group(scans, first);
    lemma_two_groups(scans, first, other);
    let all = groups(scans);
    if all == seq![first] {
        assert(!seq![first].contains(other));
        lemma_no_group(scans, other);
    }
}

/// The groups come one after the other, that of the first root first.
pub proof fn law_groups_come_in_order(scans: Seq<SourceScanView>, other: WorkspaceSource)
    requires
        scans.len() > 0,
        other != scans[0].root.source,
    ensures
        discovered(scans) == of_source(discovered(scans), scans[0].root.source) + of_source(
            discovered(scans),
            other,
        ),
{
    let first = scans[0].root.source;
    let front = lemma_group(scans, first);
    let back = lemma_group(scans, other);
    lemma_discovered(scans, other);
    lemma_joined(discovered(scans), front, back);
}

} // verus!
