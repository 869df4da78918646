//! Local paths under POSIX rules: bytes, read as components between slashes.
use vstd::prelude::*;
use vstd::string::*;
use vstd::utf8::*;

use crate::order;
use crate::order::{compare_bytes, Order, Standing};
use crate::views;

verus! {

/// The byte that separates the components of a path.
pub const SLASH: u8 = 47;

/// The byte that names the current directory, and twice its parent.
pub const DOT: u8 = 46;

/// A path: any sequence of bytes.
#[derive(Debug, Default, Eq)]
pub struct LocalPath {
    bytes: Vec<u8>,
}

/// One step of a path.
#[derive(Debug)]
pub enum PathComponent {
    /// The slash that an absolute path starts with.
    RootDir,
    /// A dot at the start of a relative path.
    CurDir,
    /// Two dots.
    ParentDir,
    /// Any other name.
    Normal(Vec<u8>),
}

/// What a step of a path says.
pub ghost enum ComponentView {
    RootDir,
    CurDir,
    ParentDir,
    Normal(Seq<u8>),
}

impl View for LocalPath {
    type V = Seq<u8>;

    closed spec fn view(&self) -> Seq<u8> {
        self.bytes@
    }
}

impl View for PathComponent {
    type V = ComponentView;

    open spec fn view(&self) -> ComponentView {
        match self {
            PathComponent::RootDir => ComponentView::RootDir,
            PathComponent::CurDir => ComponentView::CurDir,
            PathComponent::ParentDir => ComponentView::ParentDir,
            PathComponent::Normal(name) => ComponentView::Normal(name@),
        }
    }
}

/// Whether a path is absolute: it starts with a slash.
pub open spec fn is_absolute(path: Seq<u8>) -> bool {
    path.len() > 0 && path[0] == SLASH
}

/// The position of the first slash from `from` on, or the length of the path
/// where there is none.
pub open spec fn name_end(path: Seq<u8>, from: int) -> int
    decreases path.len() - from,
{
    if from >= path.len() {
        path.len() as int
    } else if path[from] == SLASH {
        from
    } else {
        name_end(path, from + 1)
    }
}

/// The component that a name between slashes stands for. An empty name stands
/// for none, nor does a dot, except at the start of a relative path.
pub open spec fn name_component(name: Seq<u8>, leading: bool) -> Seq<ComponentView> {
    if name.len() == 0 {
        Seq::empty()
    } else if name == seq![DOT] {
        if leading {
            seq![ComponentView::CurDir]
        } else {
            Seq::empty()
        }
    } else if name == seq![DOT, DOT] {
        seq![ComponentView::ParentDir]
    } else {
        seq![ComponentView::Normal(name)]
    }
}

/// The components of the names in `path`; `leading` says whether a relative path
/// starts here.
pub open spec fn name_components(path: Seq<u8>, leading: bool) -> Seq<ComponentView>
    decreases path.len(),
{
    if path.len() == 0 {
        Seq::empty()
    } else {
        let end = name_end(path, 0);
        if !(0 <= end < path.len()) {
            name_component(path, leading)
        } else {
            name_component(path.take(end), leading) + name_components(path.skip(end + 1), false)
        }
    }
}

/// The components of a path.
pub open spec fn components(path: Seq<u8>) -> Seq<ComponentView> {
    if is_absolute(path) {
        seq![ComponentView::RootDir] + name_components(path.skip(1), false)
    } else {
        name_components(path, true)
    }
}

/// The name that a path ends in, where it ends in one.
pub open spec fn file_name(path: Seq<u8>) -> Option<Seq<u8>> {
    let all = components(path);
    if all.len() > 0 {
        match all.last() {
            ComponentView::Normal(name) => Some(name),
            _ => None,
        }
    } else {
        None
    }
}

/// `path` followed by `tail`: an absolute tail replaces the path, any other is
/// appended, after a slash where the path does not end in one.
pub open spec fn join(path: Seq<u8>, tail: Seq<u8>) -> Seq<u8> {
    if is_absolute(tail) {
        tail
    } else if path.len() > 0 && path.last() != SLASH {
        path.push(SLASH) + tail
    } else {
        path + tail
    }
}

/// Applies one more component to a path that holds no redundant one: a parent
/// directory takes the name before it back, and has no effect at the root.
pub open spec fn apply_component(
    done: Seq<ComponentView>,
    component: ComponentView,
) -> Seq<ComponentView> {
    match component {
        ComponentView::RootDir => done.push(component),
        ComponentView::CurDir => done,
        ComponentView::ParentDir => if done.len() == 0 {
            done.push(component)
        } else {
            match done.last() {
                ComponentView::Normal(_) => done.drop_last(),
                ComponentView::RootDir => done,
                _ => done.push(component),
            }
        },
        ComponentView::Normal(_) => done.push(component),
    }
}

/// Components without those that others make redundant.
pub open spec fn normal_components(all: Seq<ComponentView>) -> Seq<ComponentView>
    decreases all.len(),
{
    if all.len() == 0 {
        Seq::empty()
    } else {
        apply_component(normal_components(all.drop_last()), all.last())
    }
}

/// The bytes of one component.
pub open spec fn component_bytes(component: ComponentView) -> Seq<u8> {
    match component {
        ComponentView::RootDir => seq![SLASH],
        ComponentView::CurDir => seq![DOT],
        ComponentView::ParentDir => seq![DOT, DOT],
        ComponentView::Normal(name) => name,
    }
}

/// The path made by joining components, one after the other.
pub open spec fn path_of(all: Seq<ComponentView>) -> Seq<u8>
    decreases all.len(),
{
    if all.len() == 0 {
        Seq::empty()
    } else {
        join(path_of(all.drop_last()), component_bytes(all.last()))
    }
}

/// A path without redundant components.
pub open spec fn normalized(path: Seq<u8>) -> Seq<u8> {
    path_of(normal_components(components(path)))
}

/// The bytes by which a component is ordered: the root before the current
/// directory before the parent before any name.
pub open spec fn component_key(component: ComponentView) -> Seq<u8> {
    match component {
        ComponentView::RootDir => seq![0u8],
        ComponentView::CurDir => seq![1u8],
        ComponentView::ParentDir => seq![2u8],
        ComponentView::Normal(name) => seq![3u8] + name,
    }
}

/// The keys of a list of components.
pub open spec fn component_keys(all: Seq<ComponentView>) -> Seq<Seq<u8>> {
    all.map_values(|component: ComponentView| component_key(component))
}

/// How two paths stand to each other: as the lists of their components.
pub open spec fn path_order(left: Seq<u8>, right: Seq<u8>) -> Standing {
    order::list_order(component_keys(components(left)), component_keys(components(right)))
}

proof fn lemma_name_end(path: Seq<u8>, from: int)
    requires
        0 <= from <= path.len(),
    ensures
        from <= name_end(path, from) <= path.len(),
        name_end(path, from) < path.len() ==> path[name_end(path, from)] == SLASH,
        forall|j: int| from <= j < name_end(path, from) ==> path[j] != SLASH,
    decreases path.len() - from,
{
    if from < path.len() && path[from] != SLASH {
        lemma_name_end(path, from + 1);
    }
}

proof fn lemma_name_end_skip(path: Seq<u8>, start: int, from: int)
    requires
        0 <= start <= from <= path.len(),
    ensures
        name_end(path.skip(start), from - start) == name_end(path, from) - start,
    decreases path.len() - from,
{
    if from < path.len() && path[from] != SLASH {
        lemma_name_end_skip(path, start, from + 1);
    }
}

impl Clone for LocalPath {
    fn clone(&self) -> (path: LocalPath)
        ensures
            path@ == self@,
    {
        LocalPath { bytes: vstd::slice::slice_to_vec(self.bytes.as_slice()) }
    }
}

impl LocalPath {
    /// The path with these bytes.
    pub fn from_bytes(bytes: Vec<u8>) -> (path: LocalPath)
        ensures
            path@ == bytes@,
    {
        LocalPath { bytes }
    }

    /// The path that a text spells in UTF-8.
    pub fn from_text(text: &str) -> (path: LocalPath)
        ensures
            path@ == encode_utf8(text@),
    {
        LocalPath { bytes: text.as_bytes_vec() }
    }

    /// The bytes of the path.
    pub fn as_bytes(&self) -> (bytes: &[u8])
        ensures
            bytes@ == self@,
    {
        self.bytes.as_slice()
    }

    /// Whether the path is absolute.
    pub fn is_absolute(&self) -> (absolute: bool)
        ensures
            absolute == is_absolute(self@),
    {
        self.bytes.len() > 0 && self.bytes[0] == SLASH
    }

    /// The path followed by `tail`.
    pub fn join(&self, tail: &LocalPath) -> (joined: LocalPath)
        ensures
            joined@ == join(self@, tail@),
    {
        if tail.is_absolute() {
            return tail.clone();
        }
        let mut bytes: Vec<u8> = vstd::slice::slice_to_vec(self.bytes.as_slice());
        if bytes.len() > 0 && bytes[bytes.len() - 1] != SLASH {
            bytes.push(SLASH);
        }
        let mut rest: Vec<u8> = vstd::slice::slice_to_vec(tail.bytes.as_slice());
        bytes.append(&mut rest);
        LocalPath { bytes }
    }

    /// The path followed by the path that a text spells.
    pub fn join_text(&self, tail: &str) -> (joined: LocalPath)
        ensures
            joined@ == join(self@, encode_utf8(tail@)),
    {
        self.join(&LocalPath::from_text(tail))
    }

    /// The components of the path.
    pub fn components(&self) -> (all: Vec<PathComponent>)
        ensures
            views::views(all@) == components(self@),
    {
        let size: usize = self.bytes.len();
        let mut all: Vec<PathComponent> = Vec::new();
        let mut start: usize = 0;
        let absolute = self.is_absolute();
        if absolute {
            all.push(PathComponent::RootDir);
            start = 1;
        }
        let ghost path = self@;
        assert(path.skip(0) =~= path);
        assert(views::views(all@) =~= if absolute {
            seq![ComponentView::RootDir]
        } else {
            Seq::empty()
        });
        assert(views::views(all@) + name_components(path.skip(start as int), !absolute)
            =~= components(path));
        let mut leading = !absolute;
        while start < size
            invariant
                path == self.bytes@,
                size == path.len(),
                start <= size,
                views::views(all@) + name_components(path.skip(start as int), leading)
                    == components(path),
            decreases size - start,
        {
            let mut end: usize = start;
            while end < size && self.bytes[end] != SLASH
                invariant
                    path == self.bytes@,
                    size == path.len(),
                    start <= end <= size,
                    name_end(path, start as int) == name_end(path, end as int),
                decreases size - end,
            {
                end += 1;
            }
            let ghost rest = path.skip(start as int);
            let ghost before = views::views(all@);
            proof {
                lemma_name_end_skip(path, start as int, start as int);
            }
            let name: Vec<u8> = vstd::slice::slice_to_vec(
                vstd::slice::slice_subrange(self.bytes.as_slice(), start, end),
            );
            assert(name@ =~= rest.take(end - start));
            push_name(&mut all, name, leading);
            if end < size {
                assert(rest.skip(end - start + 1) =~= path.skip(end + 1));
                start = end + 1;
                assert(views::views(all@) + name_components(path.skip(start as int), false)
                    =~= before + name_components(rest, leading));
            } else {
                assert(rest.take(end - start) =~= rest);
                start = size;
                assert(views::views(all@) + name_components(path.skip(start as int), false)
                    =~= before + name_components(rest, leading));
            }
            leading = false;
        }
        assert(name_components(path.skip(start as int), leading) =~= Seq::empty());
        assert(views::views(all@) =~= components(path));
        all
    }

    /// The name that the path ends in.
    pub fn file_name(&self) -> (name: Option<Vec<u8>>)
        ensures
            match name {
                Some(name) => file_name(self@) == Some(name@),
                None => file_name(self@) is None,
            },
    {
        let mut all = self.components();
        let ghost steps = views::views(all@);
        match all.pop() {
            Some(component) => {
                assert(steps.last() == component@);
                match component {
                    PathComponent::Normal(name) => Some(name),
                    _ => None,
                }
            },
            None => None,
        }
    }
}

/// Components are equal exactly when their keys are.
proof fn lemma_component_keys(left: Seq<ComponentView>, right: Seq<ComponentView>)
    ensures
        component_keys(left) == component_keys(right) <==> left == right,
{
    if component_keys(left) == component_keys(right) {
        assert(left.len() == component_keys(left).len());
        assert(right.len() == component_keys(right).len());
        assert forall|i: int| 0 <= i < left.len() implies left[i] == right[i] by {
            let a = component_keys(left)[i];
            let b = component_keys(right)[i];
            assert(a == component_key(left[i]));
            assert(b == component_key(right[i]));
            assert(a[0] == b[0]);
            match left[i] {
                ComponentView::Normal(x) => {
                    match right[i] {
                        ComponentView::Normal(y) => {
                            assert(x =~= a.skip(1));
                            assert(y =~= b.skip(1));
                        },
                        _ => {},
                    }
                },
                _ => {},
            }
        }
        assert(left =~= right);
    }
}

fn key_of(component: &PathComponent) -> (key: Vec<u8>)
    ensures
        key@ == component_key(component@),
{
    let mut key: Vec<u8> = Vec::new();
    match component {
        PathComponent::RootDir => {
            key.push(0);
        },
        PathComponent::CurDir => {
            key.push(1);
        },
        PathComponent::ParentDir => {
            key.push(2);
        },
        PathComponent::Normal(name) => {
            key.push(3);
            let mut rest: Vec<u8> = vstd::slice::slice_to_vec(name.as_slice());
            key.append(&mut rest);
        },
    }
    assert(key@ =~= component_key(component@));
    key
}

/// How two paths stand to each other.
pub fn compare_paths(left: &LocalPath, right: &LocalPath) -> (standing: Standing)
    ensures
        standing == path_order(left@, right@),
{
    let a = left.components();
    let b = right.components();
    let ghost ka = component_keys(components(left@));
    let ghost kb = component_keys(components(right@));
    assert(components(left@) == views::views(a@));
    assert(components(right@) == views::views(b@));
    let mut i: usize = 0;
    assert(ka.skip(0) =~= ka);
    assert(kb.skip(0) =~= kb);
    while i < a.len() && i < b.len()
        invariant
            i <= a@.len(),
            i <= b@.len(),
            path_order(left@, right@) == order::list_order(ka, kb),
            ka == component_keys(views::views(a@)),
            kb == component_keys(views::views(b@)),
            order::list_order(ka, kb) == order::list_order(ka.skip(i as int), kb.skip(i as int)),
        decreases a@.len() - i,
    {
        let x = key_of(&a[i]);
        let y = key_of(&b[i]);
        assert(ka.skip(i as int)[0] == x@);
        assert(kb.skip(i as int)[0] == y@);
        match compare_bytes(x.as_slice(), y.as_slice()) {
            Standing::Same => {},
            standing => {
                return standing;
            },
        }
        assert(ka.skip(i as int).skip(1) =~= ka.skip(i + 1));
        assert(kb.skip(i as int).skip(1) =~= kb.skip(i + 1));
        i += 1;
    }
    if i < b.len() {
        Standing::Earlier
    } else if i < a.len() {
        Standing::Later
    } else {
        Standing::Same
    }
}

/// Paths stand the same exactly when they have the same components.
pub proof fn lemma_path_order_same(left: Seq<u8>, right: Seq<u8>)
    ensures
        path_order(left, right) == Standing::Same <==> components(left) == components(right),
{
    order::lemma_list_order(component_keys(components(left)), component_keys(components(right)));
    lemma_component_keys(components(left), components(right));
}

/// Two paths are equal when they have the same components.
impl PartialEq for LocalPath {
    fn eq(&self, other: &LocalPath) -> (equal: bool) {
        proof {
            lemma_path_order_same(self@, other@);
        }
        match compare_paths(self, other) {
            Standing::Same => true,
            _ => false,
        }
    }
}

impl vstd::std_specs::cmp::PartialEqSpecImpl for LocalPath {
    open spec fn obeys_eq_spec() -> bool {
        true
    }

    open spec fn eq_spec(&self, other: &LocalPath) -> bool {
        components(self@) == components(other@)
    }
}

/// The order of paths by their components.
pub struct ByPath;

impl Order<LocalPath> for ByPath {
    open spec fn le(a: Seq<u8>, b: Seq<u8>) -> bool {
        path_order(a, b) != Standing::Later
    }

    proof fn total(a: Seq<u8>, b: Seq<u8>) {
        order::lemma_list_order(component_keys(components(a)), component_keys(components(b)));
        assert(path_order(b, a) == path_order(a, b).reversed());
        assert(Self::le(a, b) == (path_order(a, b) != Standing::Later));
    }

    proof fn transitive(a: Seq<u8>, b: Seq<u8>, c: Seq<u8>) {
        order::lemma_list_order_transitive(
            component_keys(components(a)),
            component_keys(components(b)),
            component_keys(components(c)),
        );
    }

    fn in_order(a: &LocalPath, b: &LocalPath) -> (ordered: bool) {
        match compare_paths(a, b) {
            Standing::Later => false,
            _ => true,
        }
    }
}

fn push_name(all: &mut Vec<PathComponent>, name: Vec<u8>, leading: bool)
    ensures
        views::views(final(all)@) == views::views(old(all)@) + name_component(
            name@,
            leading,
        ),
{
    let ghost before = all@;
    if name.len() == 0 {
        assert(views::views(all@) =~= views::views(before) + name_component(name@, leading));
    } else if name.len() == 1 && name[0] == DOT {
        assert(name@ =~= seq![DOT]);
        if leading {
            all.push(PathComponent::CurDir);
        }
        assert(views::views(all@) =~= views::views(before) + name_component(name@, leading));
    } else if name.len() == 2 && name[0] == DOT && name[1] == DOT {
        assert(name@ =~= seq![DOT, DOT]);
        all.push(PathComponent::ParentDir);
        assert(views::views(all@) =~= views::views(before) + name_component(name@, leading));
    } else {
        assert(name@ != seq![DOT] && name@ != seq![DOT, DOT]);
        all.push(PathComponent::Normal(name));
        assert(views::views(all@) =~= views::views(before) + name_component(name@, leading));
    }
}

fn bytes_of(component: &PathComponent) -> (bytes: Vec<u8>)
    ensures
        bytes@ == component_bytes(component@),
{
    let mut bytes: Vec<u8> = Vec::new();
    match component {
        PathComponent::RootDir => {
            bytes.push(SLASH);
        },
        PathComponent::CurDir => {
            bytes.push(DOT);
        },
        PathComponent::ParentDir => {
            bytes.push(DOT);
            bytes.push(DOT);
        },
        PathComponent::Normal(name) => {
            bytes = vstd::slice::slice_to_vec(name.as_slice());
        },
    }
    assert(bytes@ =~= component_bytes(component@));
    bytes
}

fn apply(done: &mut Vec<PathComponent>, component: PathComponent)
    ensures
        views::views(final(done)@) == apply_component(views::views(old(done)@), component@),
{
    let ghost before = views::views(done@);
    match component {
        PathComponent::CurDir => {},
        PathComponent::ParentDir => {
            let size: usize = done.len();
            if size == 0 {
                done.push(PathComponent::ParentDir);
                assert(views::views(done@) =~= before.push(ComponentView::ParentDir));
            } else {
                assert(before.last() == done@[size - 1]@);
                let keep = match &done[size - 1] {
                    PathComponent::Normal(_) => {
                        false
                    },
                    _ => true,
                };
                let at_root = match &done[size - 1] {
                    PathComponent::RootDir => true,
                    _ => false,
                };
                if !keep {
                    done.pop();
                    assert(views::views(done@) =~= before.drop_last());
                } else if !at_root {
                    done.push(PathComponent::ParentDir);
                    assert(views::views(done@) =~= before.push(ComponentView::ParentDir));
                }
            }
        },
        other => {
            let ghost view = other@;
            done.push(other);
            assert(views::views(done@) =~= before.push(view));
        },
    }
}

/// The path without redundant components.
pub fn normalize_path(path: &LocalPath) -> (result: LocalPath)
    ensures
        result@ == normalized(path@),
{
    let all = path.components();
    let ghost steps = views::views(all@);
    let mut done: Vec<PathComponent> = Vec::new();
    assert(steps.take(0) =~= Seq::empty());
    assert(views::views(done@) =~= Seq::empty());
    for component in it: all
        invariant
            steps == views::views(it.seq()),
            views::views(done@) == normal_components(steps.take(it.index() as int)),
    {
        proof {
            let n = it.index() as int;
            assert(steps.take(n + 1).drop_last() =~= steps.take(n));
            assert(steps.take(n + 1).last() == component@);
        }
        apply(&mut done, component);
    }
    assert(steps.take(steps.len() as int) =~= steps);
    let ghost normal = views::views(done@);
    let mut result = LocalPath { bytes: Vec::new() };
    let mut i: usize = 0;
    assert(normal.take(0) =~= Seq::empty());
    assert(result@ =~= Seq::empty());
    while i < done.len()
        invariant
            i <= done@.len(),
            normal == views::views(done@),
            result@ == path_of(normal.take(i as int)),
        decreases done@.len() - i,
    {
        let bytes = bytes_of(&done[i]);
        proof {
            assert(normal.take(i + 1).drop_last() =~= normal.take(i as int));
            assert(normal.take(i + 1).last() == done@[i as int]@);
        }
        result = result.join(&LocalPath { bytes });
        i += 1;
    }
    assert(normal.take(normal.len() as int) =~= normal);
    result
}

/// Whether a name can stand between slashes as a component of its own.
pub open spec fn proper_name(name: Seq<u8>) -> bool {
    &&& name.len() > 0
    &&& !name.contains(SLASH)
    &&& name != seq![DOT]
    &&& name != seq![DOT, DOT]
}

/// Whether components hold nothing redundant: the root can only come first, no
/// current directory occurs, and a parent directory follows only another one.
pub open spec fn in_normal_form(all: Seq<ComponentView>) -> bool {
    forall|i: int| 0 <= i < all.len() ==> #[trigger] normal_at(all, i)
}

/// Whether the component at position `i` is not redundant there.
pub open spec fn normal_at(all: Seq<ComponentView>, i: int) -> bool {
    match all[i] {
        ComponentView::RootDir => i == 0,
        ComponentView::CurDir => false,
        ComponentView::ParentDir => i == 0 || all[i - 1] == ComponentView::ParentDir,
        ComponentView::Normal(name) => proper_name(name),
    }
}

spec fn read_from_names(all: Seq<ComponentView>, leading: bool) -> bool {
    forall|i: int|
        0 <= i < all.len() ==> match #[trigger] all[i] {
            ComponentView::RootDir => false,
            ComponentView::CurDir => leading && i == 0,
            ComponentView::ParentDir => true,
            ComponentView::Normal(name) => proper_name(name),
        }
}

proof fn lemma_name_components(path: Seq<u8>, leading: bool)
    ensures
        read_from_names(name_components(path, leading), leading),
    decreases path.len(),
{
    if path.len() > 0 {
        lemma_name_end(path, 0);
        let end = name_end(path, 0);
        if end < path.len() {
            lemma_name_components(path.skip(end + 1), false);
            assert(!path.take(end).contains(SLASH));
            let head = name_component(path.take(end), leading);
            let rest = name_components(path.skip(end + 1), false);
            assert forall|i: int| 0 <= i < (head + rest).len() implies match #[trigger] (head
                + rest)[i] {
                ComponentView::RootDir => false,
                ComponentView::CurDir => leading && i == 0,
                ComponentView::ParentDir => true,
                ComponentView::Normal(name) => proper_name(name),
            } by {
                if i >= head.len() {
                    assert(rest[i - head.len()] == (head + rest)[i]);
                }
            }
        } else {
            assert(!path.contains(SLASH));
        }
    }
}

spec fn read_from_path(all: Seq<ComponentView>) -> bool {
    forall|i: int|
        0 <= i < all.len() ==> match #[trigger] all[i] {
            ComponentView::RootDir => i == 0,
            ComponentView::CurDir => i == 0,
            ComponentView::ParentDir => true,
            ComponentView::Normal(name) => proper_name(name),
        }
}

proof fn lemma_components_of_path(path: Seq<u8>)
    ensures
        read_from_path(components(path)),
{
    if is_absolute(path) {
        let rest = name_components(path.skip(1), false);
        lemma_name_components(path.skip(1), false);
        assert forall|i: int| 0 <= i < components(path).len() implies match #[trigger] components(
            path,
        )[i] {
            ComponentView::RootDir => i == 0,
            ComponentView::CurDir => i == 0,
            ComponentView::ParentDir => true,
            ComponentView::Normal(name) => proper_name(name),
        } by {
            if i > 0 {
                assert(rest[i - 1] == components(path)[i]);
            }
        }
    } else {
        lemma_name_components(path, true);
    }
}

proof fn lemma_normal_components(all: Seq<ComponentView>)
    requires
        read_from_path(all),
    ensures
        in_normal_form(normal_components(all)),
        all.len() == 0 ==> normal_components(all).len() == 0,
    decreases all.len(),
{
    if all.len() > 0 {
        let before = all.drop_last();
        assert forall|i: int| 0 <= i < before.len() implies match #[trigger] before[i] {
            ComponentView::RootDir => i == 0,
            ComponentView::CurDir => i == 0,
            ComponentView::ParentDir => true,
            ComponentView::Normal(name) => proper_name(name),
        } by {
            assert(before[i] == all[i]);
        }
        lemma_normal_components(before);
        let done = normal_components(before);
        let next = normal_components(all);
        assert(all[all.len() - 1] == all.last());
        assert forall|i: int| 0 <= i < next.len() implies #[trigger] normal_at(next, i) by {
            if i < done.len() {
                assert(normal_at(done, i));
            } else if done.len() > 0 {
                assert(normal_at(done, done.len() - 1));
            }
        }
    }
}

proof fn lemma_normal_form_kept(all: Seq<ComponentView>)
    requires
        in_normal_form(all),
    ensures
        normal_components(all) == all,
    decreases all.len(),
{
    if all.len() > 0 {
        let before = all.drop_last();
        assert forall|i: int| 0 <= i < before.len() implies #[trigger] normal_at(before, i) by {
            assert(normal_at(all, i));
        }
        lemma_normal_form_kept(before);
        assert(normal_at(all, all.len() - 1));
        if before.len() > 0 {
            assert(before.last() == all[all.len() - 2]);
        }
        assert(before.push(all.last()) =~= all);
    } else {
        assert(normal_components(all) =~= all);
    }
}

proof fn lemma_single_name(name: Seq<u8>, leading: bool)
    requires
        name.len() > 0,
        !name.contains(SLASH),
    ensures
        name_components(name, leading) == name_component(name, leading),
{
    lemma_name_end(name, 0);
}

proof fn lemma_append_name(path: Seq<u8>, name: Seq<u8>, leading: bool)
    requires
        path.len() > 0,
        path.last() != SLASH,
        name.len() > 0,
        !name.contains(SLASH),
    ensures
        name_components(path.push(SLASH) + name, leading) == name_components(path, leading)
            + name_component(name, false),
    decreases path.len(),
{
    let whole = path.push(SLASH) + name;
    lemma_name_end(path, 0);
    lemma_name_end(whole, 0);
    let end = name_end(path, 0);
    let whole_end = name_end(whole, 0);
    if end < path.len() {
        if whole_end < end {
            assert(path[whole_end] == whole[whole_end]);
        } else if whole_end > end {
            assert(whole[end] == path[end]);
        }
        let rest = path.skip(end + 1);
        assert(end < path.len() - 1);
        assert(rest.last() == path.last());
        lemma_append_name(rest, name, false);
        assert(whole.skip(end + 1) =~= rest.push(SLASH) + name);
        assert(whole.take(end) =~= path.take(end));
        assert(name_components(whole, leading) =~= name_components(path, leading) + name_component(
            name,
            false,
        ));
    } else {
        assert(whole[path.len() as int] == SLASH);
        if whole_end < path.len() {
            assert(path[whole_end] == whole[whole_end]);
        }
        assert(whole_end == path.len());
        assert(whole.take(whole_end) =~= path);
        assert(whole.skip(whole_end + 1) =~= name);
        lemma_single_name(name, false);
    }
}

/// Whether the bytes of a stem can be followed by a name: it is empty, the root,
/// or does not end in a slash.
pub open spec fn open_stem(stem: Seq<u8>) -> bool {
    ||| stem.len() == 0
    ||| stem == seq![SLASH]
    ||| stem.last() != SLASH
}

/// A name joined to a path is one more component.
pub proof fn lemma_components_of_join(stem: Seq<u8>, name: Seq<u8>)
    requires
        open_stem(stem),
        name.len() > 0,
        !name.contains(SLASH),
        name != seq![DOT],
    ensures
        components(join(stem, name)) == components(stem) + name_component(name, false),
        open_stem(join(stem, name)),
        join(stem, name).len() > 0,
        join(stem, name) != seq![SLASH],
{
    if name[0] == SLASH {
        assert(name.contains(SLASH));
    }
    if name.last() == SLASH {
        assert(name.contains(SLASH));
    }
    let whole = join(stem, name);
    assert(whole.last() == name.last());
    if whole == seq![SLASH] {
        assert(whole.last() == SLASH);
    }
    if stem.len() == 0 {
        assert(whole =~= name);
        lemma_single_name(name, true);
        assert(components(stem) =~= Seq::empty());
        assert(components(whole) =~= components(stem) + name_component(name, false));
    } else if stem.last() == SLASH {
        assert(whole =~= stem + name);
        assert(whole.skip(1) =~= name);
        assert(stem.skip(1) =~= Seq::empty());
        lemma_single_name(name, false);
        assert(components(whole) =~= components(stem) + name_component(name, false));
    } else {
        assert(whole == stem.push(SLASH) + name);
        if is_absolute(stem) {
            assert(stem.skip(1).last() == stem.last());
            lemma_append_name(stem.skip(1), name, false);
            assert(whole.skip(1) =~= stem.skip(1).push(SLASH) + name);
            assert(components(whole) =~= components(stem) + name_component(name, false));
        } else {
            lemma_append_name(stem, name, true);
            assert(whole[0] == stem[0]);
        }
    }
}

proof fn lemma_components_of_joined(all: Seq<ComponentView>)
    requires
        in_normal_form(all),
    ensures
        components(path_of(all)) == all,
        open_stem(path_of(all)),
        all.len() == 0 <==> path_of(all).len() == 0,
    decreases all.len(),
{
    if all.len() == 0 {
        assert(components(path_of(all)) =~= all);
    } else {
        let before = all.drop_last();
        let last = all.last();
        assert(normal_at(all, all.len() - 1));
        assert forall|i: int| 0 <= i < before.len() implies #[trigger] normal_at(before, i) by {
            assert(normal_at(all, i));
        }
        lemma_components_of_joined(before);
        let name = component_bytes(last);
        if last == ComponentView::RootDir {
            assert(before =~= Seq::empty());
            assert(path_of(all) == name);
            assert(name.skip(1) =~= Seq::empty());
            assert(components(path_of(all)) =~= all);
        } else {
            if last == ComponentView::ParentDir {
                assert(name =~= seq![DOT, DOT]);
            }
            lemma_components_of_join(path_of(before), name);
            assert(name_component(name, false) =~= seq![last]);
            assert(before + seq![last] =~= all);
        }
    }
}

/// The components of a normalized path are those of the path without the
/// redundant ones; none of them is redundant.
pub proof fn law_normalized_components(path: Seq<u8>)
    ensures
        components(normalized(path)) == normal_components(components(path)),
        in_normal_form(components(normalized(path))),
{
    lemma_components_of_path(path);
    lemma_normal_components(components(path));
    lemma_components_of_joined(normal_components(components(path)));
}

/// Normalizing a normalized path changes nothing.
pub proof fn law_normalize_idempotent(path: Seq<u8>)
    ensures
        normalized(normalized(path)) == normalized(path),
{
    law_normalized_components(path);
    lemma_normal_form_kept(normal_components(components(path)));
}

/// Paths with the same components have the same normalized path, so neither a
/// doubled slash nor a dot between slashes makes a difference.
pub proof fn law_same_components_normalize_alike(left: Seq<u8>, right: Seq<u8>)
    requires
        components(left) == components(right),
    ensures
        normalized(left) == normalized(right),
{
}

/// The name that was joined to a path last is the one that the path ends in, and
/// it is one more component.
pub proof fn law_joined_name(stem: Seq<u8>, name: Seq<u8>)
    requires
        open_stem(stem),
        proper_name(name),
    ensures
        components(join(stem, name)) == components(stem).push(ComponentView::Normal(name)),
        file_name(join(stem, name)) == Some(name),
        is_absolute(join(stem, name)) <==> is_absolute(stem),
        components(normalized(join(stem, name))) == components(normalized(stem)).push(
            ComponentView::Normal(name),
        ),
{
    lemma_components_of_join(stem, name);
    let all = components(join(stem, name));
    assert(all =~= components(stem).push(ComponentView::Normal(name)));
    assert(all.drop_last() =~= components(stem));
    law_normalized_components(join(stem, name));
    law_normalized_components(stem);
    if name[0] == SLASH {
        assert(name.contains(name[0]));
    }
}

/// Going up takes the last name back; above the root there is only the root.
pub proof fn law_parent_takes_a_name_back(stem: Seq<u8>, name: Seq<u8>)
    requires
        open_stem(stem),
        proper_name(name),
    ensures
        normalized(join(join(stem, name), seq![DOT, DOT])) == normalized(stem),
        normalized(join(seq![SLASH], seq![DOT, DOT])) == seq![SLASH],
        file_name(join(join(stem, name), seq![DOT, DOT])) is None,
{
    let up = seq![DOT, DOT];
    assert(!up.contains(SLASH));
    assert(up.len() == 2);
    law_joined_name(stem, name);
    lemma_components_of_join(stem, name);
    let below = join(stem, name);
    lemma_components_of_join(below, up);
    let all = components(join(below, up));
    assert(all =~= components(below).push(ComponentView::ParentDir));
    assert(all.drop_last() =~= components(below));
    assert(components(below).drop_last() =~= components(stem));
    assert(normal_components(components(below)) == normal_components(components(stem)).push(
        ComponentView::Normal(name),
    ));
    assert(normal_components(all) =~= normal_components(components(stem)));
    let root = seq![SLASH];
    lemma_components_of_join(root, up);
    assert(root.skip(1) =~= Seq::empty());
    assert(components(root) =~= seq![ComponentView::RootDir]);
    let raised = components(join(root, up));
    assert(raised =~= seq![ComponentView::RootDir, ComponentView::ParentDir]);
    assert(raised.drop_last() =~= seq![ComponentView::RootDir]);
    let one = seq![ComponentView::RootDir];
    assert(one.drop_last() =~= Seq::empty());
    assert(normal_components(one.drop_last()) =~= Seq::empty());
    assert(normal_components(one) =~= one);
    assert(normal_components(raised) =~= one);
    assert(path_of(one) =~= root) by {
        assert(path_of(one.drop_last()) =~= Seq::empty());
    }
}

/// A folder comes before what is in it, and what is in it is ordered by name.
pub proof fn law_path_order(stem: Seq<u8>, a: Seq<u8>, b: Seq<u8>)
    requires
        open_stem(stem),
        proper_name(a),
        proper_name(b),
    ensures
        path_order(stem, join(stem, a)) == Standing::Earlier,
        path_order(join(stem, a), join(stem, b)) == order::byte_order(a, b),
{
    law_joined_name(stem, a);
    law_joined_name(stem, b);
    let keys = component_keys(components(stem));
    let x = seq![component_key(ComponentView::Normal(a))];
    let y = seq![component_key(ComponentView::Normal(b))];
    assert(component_keys(components(join(stem, a))) =~= keys + x);
    assert(component_keys(components(join(stem, b))) =~= keys + y);
    order::lemma_list_order_after(keys, Seq::empty(), x);
    assert(keys + Seq::<Seq<u8>>::empty() =~= keys);
    order::lemma_list_order_after(keys, x, y);
    assert(x.skip(1) =~= Seq::empty());
    assert(y.skip(1) =~= Seq::empty());
    assert(x[0].skip(1) =~= a);
    assert(y[0].skip(1) =~= b);
    assert(order::byte_order(x[0], y[0]) == order::byte_order(a, b));
    assert(order::list_order(x.skip(1), y.skip(1)) == Standing::Same);
}

proof fn lemma_name_components_join(left: Seq<u8>, right: Seq<u8>, leading: bool)
    ensures
        name_components(left + seq![SLASH] + right, leading) == name_components(left, leading)
            + name_components(right, false),
    decreases left.len(),
{
    let whole = left + seq![SLASH] + right;
    lemma_name_end(whole, 0);
    lemma_name_end(left, 0);
    let end = name_end(whole, 0);
    let own = name_end(left, 0);
    assert(whole[left.len() as int] == SLASH);
    if end > left.len() {
        assert(whole[left.len() as int] != SLASH);
    }
    if left.len() == 0 {
        assert(whole.take(0) =~= Seq::empty());
        assert(whole.skip(1) =~= right);
        assert(name_components(left, leading) =~= Seq::empty());
        assert(name_components(whole, leading) =~= name_components(left, leading)
            + name_components(right, false));
    } else if own == left.len() {
        if end < left.len() {
            assert(whole[end] == left[end]);
        }
        assert(whole.take(end) =~= left);
        assert(whole.skip(end + 1) =~= right);
    } else {
        if end < own {
            assert(whole[end] == left[end]);
        } else if own < end {
            assert(whole[own] == left[own]);
        }
        assert(whole.take(end) =~= left.take(own));
        assert(whole.skip(end + 1) =~= left.skip(own + 1) + seq![SLASH] + right);
        lemma_name_components_join(left.skip(own + 1), right, false);
        assert(name_components(whole, leading) =~= name_components(left, leading)
            + name_components(right, false));
    }
}

/// A path that goes on behind a slash has the components of its start, and then
/// those that what follows has below the root.
pub proof fn law_components_of_parts(left: Seq<u8>, right: Seq<u8>)
    requires
        left.len() > 0,
    ensures
        components(left + seq![SLASH] + right) == components(left) + components(
            seq![SLASH] + right,
        ).skip(1),
{
    let whole = left + seq![SLASH] + right;
    let below = seq![SLASH] + right;
    assert(below.skip(1) =~= right);
    assert(components(below).skip(1) =~= name_components(right, false));
    assert(whole[0] == left[0]);
    if is_absolute(left) {
        assert(whole.skip(1) =~= left.skip(1) + seq![SLASH] + right);
        lemma_name_components_join(left.skip(1), right, false);
        assert(components(whole) =~= components(left) + name_components(right, false));
    } else {
        lemma_name_components_join(left, right, true);
    }
}

/// What one name is: a dot is the current folder where a path starts with it and
/// nothing elsewhere, two dots are the parent, nothing is nothing, and anything else
/// is a name.
pub proof fn law_components_of_a_name(name: Seq<u8>)
    requires
        !name.contains(SLASH),
    ensures
        components(name) == if name.len() == 0 {
            Seq::empty()
        } else if name == seq![46u8] {
            seq![ComponentView::CurDir]
        } else if name == seq![46u8, 46u8] {
            seq![ComponentView::ParentDir]
        } else {
            seq![ComponentView::Normal(name)]
        },
        components(seq![SLASH] + name) == if name.len() == 0 || name == seq![46u8] {
            seq![ComponentView::RootDir]
        } else if name == seq![46u8, 46u8] {
            seq![ComponentView::RootDir, ComponentView::ParentDir]
        } else {
            seq![ComponentView::RootDir, ComponentView::Normal(name)]
        },
        SLASH == 47,
{
    lemma_name_end(name, 0);
    if name_end(name, 0) < name.len() {
        assert(name.contains(name[name_end(name, 0)]));
    }
    if is_absolute(name) {
        assert(name.contains(name[0]));
    }
    let below = seq![SLASH] + name;
    assert(below.skip(1) =~= name);
    assert(components(name) =~= name_component(name, true));
    assert(components(below) =~= seq![ComponentView::RootDir] + name_component(name, false));
    assert(seq![ComponentView::RootDir] + seq![ComponentView::ParentDir] =~= seq![
        ComponentView::RootDir,
        ComponentView::ParentDir,
    ]);
    assert(seq![ComponentView::RootDir] + seq![ComponentView::Normal(name)] =~= seq![
        ComponentView::RootDir,
        ComponentView::Normal(name),
    ]);
}

/// An absolute path stands for itself wherever it is joined; any other is put behind
/// one slash.
pub proof fn law_join(stem: Seq<u8>, tail: Seq<u8>)
    ensures
        tail.len() > 0 && tail[0] == SLASH ==> join(stem, tail) == tail,
        !(tail.len() > 0 && tail[0] == SLASH) ==> join(Seq::empty(), tail) == tail && join(
            stem + seq![SLASH],
            tail,
        ) == stem + seq![SLASH] + tail && (stem.len() > 0 && stem.last() != SLASH ==> join(
            stem,
            tail,
        ) == stem + seq![SLASH] + tail),
{
    assert(Seq::<u8>::empty() + tail =~= tail);
    assert(stem.push(SLASH) =~= stem + seq![SLASH]);
}

/// The root comes before the current folder, that before the parent, and that before
/// every name.
pub proof fn law_component_order(name: Seq<u8>)
    ensures
        order::byte_order(
            component_key(ComponentView::RootDir),
            component_key(ComponentView::CurDir),
        ) == Standing::Earlier,
        order::byte_order(
            component_key(ComponentView::CurDir),
            component_key(ComponentView::ParentDir),
        ) == Standing::Earlier,
        order::byte_order(
            component_key(ComponentView::ParentDir),
            component_key(ComponentView::Normal(name)),
        ) == Standing::Earlier,
{
}

} // verus!
