//! Workspaces: where they are found, how they are identified and shown.
use vstd::prelude::*;
use vstd::string::*;
use vstd::utf8::*;

use crate::numbers;
use crate::numbers::lower_hex_text;
use crate::outside;
use crate::outside::{lossy_text_of, sha256_of};
use crate::path;
use crate::path::{normalize_path, LocalPath};
use crate::text::same_text;
use crate::views;

verus! {

/// The group that a workspace was found in.
#[derive(Clone, Copy, Debug, Eq, Hash, PartialEq, Structural)]
pub enum WorkspaceSource {
    Github,
    ActiveProjects,
}

impl WorkspaceSource {
    pub open spec fn display_name_spec(self) -> Seq<char> {
        match self {
            WorkspaceSource::Github => "GitHub"@,
            WorkspaceSource::ActiveProjects => "Active Projects"@,
        }
    }

    /// The name under which the group is shown.
    pub fn display_name(self) -> (name: &'static str)
        ensures
            name@ == self.display_name_spec(),
    {
        match self {
            WorkspaceSource::Github => "GitHub",
            WorkspaceSource::ActiveProjects => "Active Projects",
        }
    }

    pub open spec fn storage_name_spec(self) -> Seq<char> {
        match self {
            WorkspaceSource::Github => "github"@,
            WorkspaceSource::ActiveProjects => "active_projects"@,
        }
    }

    /// The name under which the group is stored.
    pub fn storage_name(self) -> (name: &'static str)
        ensures
            name@ == self.storage_name_spec(),
    {
        match self {
            WorkspaceSource::Github => "github",
            WorkspaceSource::ActiveProjects => "active_projects",
        }
    }

    /// The group that is stored under a name.
    pub open spec fn named(name: Seq<char>) -> Option<WorkspaceSource> {
        if name == "github"@ {
            Some(WorkspaceSource::Github)
        } else if name == "active_projects"@ {
            Some(WorkspaceSource::ActiveProjects)
        } else {
            None
        }
    }

    /// The group that is stored under a name.
    pub fn from_storage_name(value: &str) -> (source: Option<WorkspaceSource>)
        ensures
            source == WorkspaceSource::named(value@),
    {
        if same_text(value, "github") {
            Some(WorkspaceSource::Github)
        } else if same_text(value, "active_projects") {
            Some(WorkspaceSource::ActiveProjects)
        } else {
            None
        }
    }
}

/// A group is read back from the name it is stored under.
pub proof fn law_source_name_round_trip(source: WorkspaceSource)
    ensures
        WorkspaceSource::named(source.storage_name_spec()) == Some(source),
{
    reveal_strlit("github");
    reveal_strlit("active_projects");
    assert("github"@.len() == 6);
    assert("active_projects"@.len() == 15);
}

/// A folder whose direct children are workspaces of one group.
#[derive(Debug, Eq, PartialEq)]
pub struct WorkspaceRoot {
    pub source: WorkspaceSource,
    pub path: LocalPath,
}

/// What a root says.
pub ghost struct WorkspaceRootView {
    pub source: WorkspaceSource,
    pub path: Seq<u8>,
}

impl View for WorkspaceRoot {
    type V = WorkspaceRootView;

    open spec fn view(&self) -> WorkspaceRootView {
        WorkspaceRootView { source: self.source, path: self.path@ }
    }
}

impl Clone for WorkspaceRoot {
    fn clone(&self) -> (root: WorkspaceRoot)
        ensures
            root@ == self@,
    {
        WorkspaceRoot { source: self.source, path: self.path.clone() }
    }
}

impl WorkspaceRoot {
    /// The root of a group at a path.
    pub fn new(source: WorkspaceSource, path: LocalPath) -> (root: WorkspaceRoot)
        ensures
            root@ == (WorkspaceRootView { source, path: path@ }),
    {
        WorkspaceRoot { source, path }
    }
}

/// The roots that are searched below a home directory.
pub open spec fn default_roots(home: Seq<u8>) -> Seq<WorkspaceRootView> {
    seq![
        WorkspaceRootView {
            source: WorkspaceSource::Github,
            path: path::join(home, encode_utf8("Documents/GitHub"@)),
        },
        WorkspaceRootView {
            source: WorkspaceSource::ActiveProjects,
            path: path::join(home, encode_utf8("Desktop/01_Proyectos_Activos"@)),
        },
    ]
}

/// The roots that are searched below a home directory.
pub fn default_sources(home: &LocalPath) -> (roots: Vec<WorkspaceRoot>)
    ensures
        views::views(roots@) == default_roots(home@),
{
    let mut roots: Vec<WorkspaceRoot> = Vec::new();
    roots.push(WorkspaceRoot::new(WorkspaceSource::Github, home.join_text("Documents/GitHub")));
    roots.push(
        WorkspaceRoot::new(
            WorkspaceSource::ActiveProjects,
            home.join_text("Desktop/01_Proyectos_Activos"),
        ),
    );
    assert(views::views(roots@) =~= default_roots(home@));
    roots
}

/// The identity of a workspace.
#[derive(Debug, Eq, Hash, PartialEq)]
pub struct WorkspaceId(pub String);

impl View for WorkspaceId {
    type V = Seq<char>;

    open spec fn view(&self) -> Seq<char> {
        self.0@
    }
}

impl Clone for WorkspaceId {
    fn clone(&self) -> (id: WorkspaceId)
        ensures
            id@ == self@,
    {
        WorkspaceId(self.0.clone())
    }
}

/// The bytes by which a path is identified.
pub fn path_identity_bytes(path: &LocalPath) -> (bytes: Vec<u8>)
    ensures
        bytes@ == path@,
{
    vstd::slice::slice_to_vec(path.as_bytes())
}

/// The identity of the workspace at a path: the hash of its normalized path.
pub open spec fn workspace_id_of(path: Seq<u8>) -> Seq<char> {
    numbers::lower_hex(outside::sha256(path::normalized(path)))
}

impl WorkspaceId {
    /// The identity with this text.
    pub fn new(value: &str) -> (id: WorkspaceId)
        ensures
            id@ == value@,
    {
        WorkspaceId(value.to_owned())
    }

    /// The identity of the workspace at a path.
    pub fn from_path(path: &LocalPath) -> (id: WorkspaceId)
        ensures
            id@ == workspace_id_of(path@),
    {
        let normal = normalize_path(path);
        let bytes = path_identity_bytes(&normal);
        let hash = sha256_of(bytes.as_slice());
        WorkspaceId(lower_hex_text(&hash))
    }

    /// Whether two identities are the same.
    pub fn is(&self, other: &WorkspaceId) -> (same: bool)
        ensures
            same == (self@ == other@),
    {
        same_text(self.0.as_str(), other.0.as_str())
    }
}

/// Paths with the same components identify the same workspace, and so does a
/// path and its normalized form.
pub proof fn law_workspace_identity(left: Seq<u8>, right: Seq<u8>)
    requires
        path::components(left) == path::components(right),
    ensures
        workspace_id_of(left) == workspace_id_of(right),
        workspace_id_of(path::normalized(left)) == workspace_id_of(right),
{
    path::law_same_components_normalize_alike(left, right);
    path::law_normalize_idempotent(left);
}

/// Workspaces whose normalized paths have different hashes have different
/// identifiers, whatever their names.
pub proof fn law_identity_follows_the_path(left: Seq<u8>, right: Seq<u8>)
    ensures
        workspace_id_of(left) == workspace_id_of(right) <==> outside::sha256(
            path::normalized(left),
        ) == outside::sha256(path::normalized(right)),
{
    let a = outside::sha256(path::normalized(left));
    let b = outside::sha256(path::normalized(right));
    if workspace_id_of(left) == workspace_id_of(right) {
        numbers::lemma_lower_hex_injective(a, b);
    }
}

/// The identity and location of a workspace, as tasks keep it. It does not
/// depend on what was found last, so that a task can be read when the folder of
/// its workspace is gone.
#[derive(Debug, Eq, PartialEq)]
pub struct TaskWorkspace {
    pub id: WorkspaceId,
    pub source: WorkspaceSource,
    pub path: LocalPath,
    pub display_name: String,
}

/// What a workspace says.
pub ghost struct TaskWorkspaceView {
    pub id: Seq<char>,
    pub source: WorkspaceSource,
    pub path: Seq<u8>,
    pub display_name: Seq<char>,
}

impl View for TaskWorkspace {
    type V = TaskWorkspaceView;

    open spec fn view(&self) -> TaskWorkspaceView {
        TaskWorkspaceView {
            id: self.id@,
            source: self.source,
            path: self.path@,
            display_name: self.display_name@,
        }
    }
}

impl Clone for TaskWorkspace {
    fn clone(&self) -> (workspace: TaskWorkspace)
        ensures
            workspace@ == self@,
    {
        TaskWorkspace {
            id: self.id.clone(),
            source: self.source,
            path: self.path.clone(),
            display_name: self.display_name.clone(),
        }
    }
}

impl TaskWorkspace {
    /// The workspace with these properties.
    pub fn new(
        id: WorkspaceId,
        source: WorkspaceSource,
        path: LocalPath,
        display_name: &str,
    ) -> (workspace: TaskWorkspace)
        ensures
            workspace@ == (TaskWorkspaceView {
                id: id@,
                source,
                path: path@,
                display_name: display_name@,
            }),
    {
        TaskWorkspace { id, source, path, display_name: display_name.to_owned() }
    }
}

/// A workspace that was found, or the root of a group that could not be read.
#[derive(Debug, Eq, PartialEq)]
pub struct DiscoveredWorkspace {
    pub id: WorkspaceId,
    pub source: WorkspaceSource,
    pub path: LocalPath,
    pub display_name: String,
    pub is_available: bool,
}

/// What a found workspace says.
pub ghost struct DiscoveredView {
    pub id: Seq<char>,
    pub source: WorkspaceSource,
    pub path: Seq<u8>,
    pub display_name: Seq<char>,
    pub is_available: bool,
}

impl View for DiscoveredWorkspace {
    type V = DiscoveredView;

    open spec fn view(&self) -> DiscoveredView {
        DiscoveredView {
            id: self.id@,
            source: self.source,
            path: self.path@,
            display_name: self.display_name@,
            is_available: self.is_available,
        }
    }
}

impl Clone for DiscoveredWorkspace {
    fn clone(&self) -> (workspace: DiscoveredWorkspace)
        ensures
            workspace@ == self@,
    {
        DiscoveredWorkspace {
            id: self.id.clone(),
            source: self.source,
            path: self.path.clone(),
            display_name: self.display_name.clone(),
            is_available: self.is_available,
        }
    }
}

/// The name under which the workspace at a path is shown: the name that the path
/// ends in, or that of its group where it ends in none.
pub open spec fn display_name_of(path: Seq<u8>, source: WorkspaceSource) -> Seq<char> {
    match path::file_name(path) {
        Some(name) => if name.len() > 0 {
            outside::shown_text(name)
        } else {
            source.display_name_spec()
        },
        None => source.display_name_spec(),
    }
}

/// The name under which the workspace at a path is shown.
pub fn path_display_name(path: &LocalPath, source: WorkspaceSource) -> (name: String)
    ensures
        name@ == display_name_of(path@, source),
{
    match path.file_name() {
        Some(name) => {
            if name.len() > 0 {
                lossy_text_of(name.as_slice())
            } else {
                source.display_name().to_owned()
            }
        },
        None => source.display_name().to_owned(),
    }
}

/// The workspace at a path, which is available or not.
pub open spec fn workspace_at(
    source: WorkspaceSource,
    path: Seq<u8>,
    is_available: bool,
) -> DiscoveredView {
    DiscoveredView {
        id: workspace_id_of(path),
        source,
        path,
        display_name: display_name_of(path, source),
        is_available,
    }
}

impl DiscoveredWorkspace {
    /// The available workspace at a path.
    pub fn available(source: WorkspaceSource, path: LocalPath) -> (workspace: DiscoveredWorkspace)
        ensures
            workspace@ == workspace_at(source, path@, true),
    {
        let display_name = path_display_name(&path, source);
        DiscoveredWorkspace {
            id: WorkspaceId::from_path(&path),
            source,
            path,
            display_name,
            is_available: true,
        }
    }

    /// The workspace at a path that is not available.
    pub fn unavailable(source: WorkspaceSource, path: LocalPath) -> (workspace: DiscoveredWorkspace)
        ensures
            workspace@ == workspace_at(source, path@, false),
    {
        let display_name = path_display_name(&path, source);
        DiscoveredWorkspace {
            id: WorkspaceId::from_path(&path),
            source,
            path,
            display_name,
            is_available: false,
        }
    }
}

/// What a task keeps of a found workspace.
pub open spec fn kept_workspace(workspace: DiscoveredView) -> TaskWorkspaceView {
    TaskWorkspaceView {
        id: workspace.id,
        source: workspace.source,
        path: workspace.path,
        display_name: workspace.display_name,
    }
}

impl TaskWorkspace {
    /// What a task keeps of a found workspace.
    pub fn from_discovered(workspace: &DiscoveredWorkspace) -> (kept: TaskWorkspace)
        ensures
            kept@ == kept_workspace(workspace@),
    {
        TaskWorkspace::new(
            workspace.id.clone(),
            workspace.source,
            workspace.path.clone(),
            workspace.display_name.as_str(),
        )
    }
}

/// A found workspace is the folder that was found: it has its path, its group and
/// its availability, and it is identified by its path alone.
pub proof fn law_workspace_at(
    source: WorkspaceSource,
    other: WorkspaceSource,
    path: Seq<u8>,
    is_available: bool,
)
    ensures
        ({
            let workspace = workspace_at(source, path, is_available);
            &&& workspace.path == path
            &&& workspace.source == source
            &&& workspace.is_available == is_available
            &&& workspace.id == workspace_at(other, path, !is_available).id
            &&& workspace.id == workspace_id_of(path)
        }),
{
}

/// A workspace is shown under the name that its path ends in. One whose path ends
/// in none is shown under the name of its group.
pub proof fn law_display_name(stem: Seq<u8>, name: Seq<char>, source: WorkspaceSource)
    requires
        path::open_stem(stem),
        path::proper_name(encode_utf8(name)),
    ensures
        display_name_of(path::join(stem, encode_utf8(name)), source) == name,
        display_name_of(Seq::empty(), source) == source.display_name_spec(),
{
    broadcast use {encode_utf8_valid_utf8, encode_utf8_decode_utf8};

    path::law_joined_name(stem, encode_utf8(name));
    assert(valid_utf8(encode_utf8(name)));
    assert(decode_utf8(encode_utf8(name)) == name);
    assert(path::components(Seq::empty()) =~= Seq::empty());
}

/// What a task keeps of its workspace identifies, locates and names it.
pub proof fn law_kept_workspace(workspace: DiscoveredView)
    ensures
        kept_workspace(workspace).id == workspace.id,
        kept_workspace(workspace).source == workspace.source,
        kept_workspace(workspace).path == workspace.path,
        kept_workspace(workspace).display_name == workspace.display_name,
{
}

/// Two folders below the home folder are searched, one for each group.
pub proof fn law_default_roots(home: Seq<u8>)
    requires
        home.len() > 0,
        home.last() != path::SLASH,
    ensures
        default_roots(home).len() == 2,
        default_roots(home)[0].source == WorkspaceSource::Github,
        default_roots(home)[0].path == home + encode_utf8("/Documents/GitHub"@),
        default_roots(home)[1].source == WorkspaceSource::ActiveProjects,
        default_roots(home)[1].path == home + encode_utf8("/Desktop/01_Proyectos_Activos"@),
{
    reveal_strlit("Documents/GitHub");
    reveal_strlit("/Documents/GitHub");
    reveal_strlit("Desktop/01_Proyectos_Activos");
    reveal_strlit("/Desktop/01_Proyectos_Activos");
    assert("/Documents/GitHub"@ =~= seq!['/'] + "Documents/GitHub"@);
    assert("/Desktop/01_Proyectos_Activos"@ =~= seq!['/'] + "Desktop/01_Proyectos_Activos"@);
    lemma_slash_first("Documents/GitHub"@, "/Documents/GitHub"@);
    lemma_slash_first("Desktop/01_Proyectos_Activos"@, "/Desktop/01_Proyectos_Activos"@);
    assert(home.push(path::SLASH) + encode_utf8("Documents/GitHub"@) =~= home + encode_utf8(
        "/Documents/GitHub"@,
    ));
    assert(home.push(path::SLASH) + encode_utf8("Desktop/01_Proyectos_Activos"@) =~= home
        + encode_utf8("/Desktop/01_Proyectos_Activos"@));
}

/// The bytes of a text with a slash put before it.
proof fn lemma_slash_first(tail: Seq<char>, whole: Seq<char>)
    requires
        whole == seq!['/'] + tail,
        tail.len() > 0,
        tail[0] == 'D',
    ensures
        encode_utf8(whole) == seq![path::SLASH] + encode_utf8(tail),
        !path::is_absolute(encode_utf8(tail)),
{
    assert(whole.drop_first() =~= tail);
    let slash = '/' as u32;
    let d = 'D' as u32;
    assert((slash & 0x7f) as u8 == 47u8) by (bit_vector)
        requires
            slash == 47,
    ;
    assert((d & 0x7f) as u8 == 68u8) by (bit_vector)
        requires
            d == 68,
    ;
    assert(encode_scalar(slash) =~= seq![path::SLASH]);
    assert(encode_scalar(d)[0] == 68);
    assert(encode_utf8(tail)[0] == 68);
    assert(encode_utf8(whole) =~= seq![path::SLASH] + encode_utf8(tail));
}

} // verus!
