//! Where the application starts: the workspace, and what the model is told of it.

use crate::chars;
use crate::workspace::place;
use crate::workspace::router::WorkspaceContext;
use vfs::async_vfs::AsyncVfsPath;
use vstd::prelude::*;

verus! {

/// A part of a path.
#[derive(Debug, PartialEq, Eq)]
pub enum PathComponent {
    Prefix(String),
    RootDir,
    CurDir,
    ParentDir,
    Normal(String),
}

/// A part of a path, with its text.
pub enum ComponentView {
    Prefix(Seq<char>),
    RootDir,
    CurDir,
    ParentDir,
    Normal(Seq<char>),
}

impl View for PathComponent {
    type V = ComponentView;

    open spec fn view(&self) -> ComponentView {
        match self {
            PathComponent::Prefix(prefix) => ComponentView::Prefix(prefix@),
            PathComponent::RootDir => ComponentView::RootDir,
            PathComponent::CurDir => ComponentView::CurDir,
            PathComponent::ParentDir => ComponentView::ParentDir,
            PathComponent::Normal(name) => ComponentView::Normal(name@),
        }
    }
}

impl PathComponent {
    /// Whether the part belongs to the root of a path.
    fn is_root(&self) -> (root: bool)
        ensures
            root == is_root_part(self@),
    {
        match self {
            PathComponent::Prefix(_) => true,
            PathComponent::RootDir => true,
            _ => false,
        }
    }
}

pub open spec fn component_views(path: Seq<PathComponent>) -> Seq<ComponentView> {
    Seq::new(path.len(), |i: int| path[i]@)
}

/// The name of a workspace: the last part of its path, if that is a name.
pub open spec fn name_of(path: Seq<ComponentView>) -> Seq<char> {
    if path.len() > 0 {
        match path.last() {
            ComponentView::Normal(name) => name,
            _ => "."@,
        }
    } else {
        "."@
    }
}

pub fn workspace_name(path: &Vec<PathComponent>) -> (name: String)
    ensures
        name@ == name_of(component_views(path@)),
{
    if path.len() > 0 {
        assert(component_views(path@).last() == path@.last()@);
        if let PathComponent::Normal(name) = &path[path.len() - 1] {
            return name.clone();
        }
    }
    ".".to_owned()
}

/// Whether a part belongs to the root of a path.
pub open spec fn is_root_part(component: ComponentView) -> bool {
    component is Prefix || component is RootDir
}

/// How many parts at the start of a path, from `from` on, make out its root.
pub open spec fn root_len(path: Seq<ComponentView>, from: int) -> nat
    decreases path.len() - from,
{
    if 0 <= from < path.len() && is_root_part(path[from]) {
        1 + root_len(path, from + 1)
    } else {
        0
    }
}

/// The number of parts of a path that are the root of its file system.
pub fn filesystem_root(path: &Vec<PathComponent>) -> (len: usize)
    ensures
        len == root_len(component_views(path@), 0),
        len <= path@.len(),
{
    let ghost views = component_views(path@);
    let mut i: usize = 0;
    while i < path.len() && path[i].is_root()
        invariant
            i <= path@.len(),
            views == component_views(path@),
            root_len(views, 0) == i + root_len(views, i as int),
        decreases path@.len() - i,
    {
        assert(views[i as int] == path@[i as int]@);
        i = i + 1;
    }
    assert(root_len(views, i as int) == 0) by {
        if i < path@.len() {
            assert(views[i as int] == path@[i as int]@);
        }
    }
    i
}

/// The part of a path inside a file system that a part of a path is, if it is one.
pub open spec fn vfs_part(component: ComponentView) -> Option<Seq<char>> {
    match component {
        ComponentView::Normal(name) => Some(name),
        ComponentView::ParentDir => Some(".."@),
        _ => None,
    }
}

/// The parts inside a file system of the first `count` parts of a path.
pub open spec fn vfs_parts(path: Seq<ComponentView>, count: int) -> Seq<Seq<char>>
    decreases count,
{
    if count <= 0 {
        Seq::empty()
    } else {
        match vfs_part(path[count - 1]) {
            Some(part) => vfs_parts(path, count - 1).push(part),
            None => vfs_parts(path, count - 1),
        }
    }
}

/// A path inside its file system, relative to the root.
pub fn path_to_vfs(path: &Vec<PathComponent>) -> (relative: String)
    ensures
        relative@ == chars::join(
            vfs_parts(component_views(path@), path@.len() as int),
            "/"@,
        ),
{
    let ghost views = component_views(path@);
    let mut parts: Vec<String> = Vec::new();
    let mut i: usize = 0;
    assert(chars::texts(parts@) =~= vfs_parts(views, 0));
    while i < path.len()
        invariant
            i <= path@.len(),
            views == component_views(path@),
            chars::texts(parts@) == vfs_parts(views, i as int),
        decreases path@.len() - i,
    {
        assert(views[i as int] == path@[i as int]@);
        let part = match &path[i] {
            PathComponent::Normal(name) => Some(name.clone()),
            PathComponent::ParentDir => Some("..".to_owned()),
            _ => None,
        };
        if let Some(part) = part {
            proof {
                chars::lemma_texts_push(parts@, part);
            }
            parts.push(part);
        }
        i = i + 1;
    }
    chars::join_texts(&parts, "/")
}

/// The workspace at a path, in the file system that the path is in.
pub fn workspace_vfs_root(fs_root: &AsyncVfsPath, current_dir: &Vec<PathComponent>) -> (root: Result<
    AsyncVfsPath,
    String,
>)
    ensures
        ({
            let relative = chars::join(
                vfs_parts(component_views(current_dir@), current_dir@.len() as int),
                "/"@,
            );
            match root {
                Ok(root) => {
                    &&& !place::ends_open(relative)
                    &&& place::resolved(place::path_of(*fs_root), relative) == Ok::<
                        Seq<char>,
                        Seq<char>,
                    >(place::path_of(root))
                },
                Err(message) => {
                    &&& place::ends_open(relative)
                    &&& place::resolved(place::path_of(*fs_root), relative) == Err::<
                        Seq<char>,
                        Seq<char>,
                    >(message@)
                },
            }
        }),
{
    place::resolve_path(fs_root, path_to_vfs(current_dir).as_str())
}

/// What the model is told of the workspace.
pub open spec fn workspace_note(current: Seq<char>, root: Seq<char>) -> Seq<char> {
    "Current workspace: "@ + current + "\nFilesystem root: "@ + root
        + "\nRelative tool paths resolve from the current workspace. Absolute tool paths resolve from the filesystem root."@
}

pub fn workspace_prompt(context: &WorkspaceContext) -> (text: String)
    ensures
        text@ == workspace_note(context.current_workspace@, context.filesystem_root@),
{
    let mut text: String = "Current workspace: ".to_owned();
    text.append(context.current_workspace.as_str());
    text.append("\nFilesystem root: ");
    text.append(context.filesystem_root.as_str());
    text.append(
        "\nRelative tool paths resolve from the current workspace. Absolute tool paths resolve from the filesystem root.",
    );
    text
}

/// A workspace is named after the last part of its path, and by a dot where that is no name.
pub proof fn law_workspace_is_named_after_its_directory(path: Seq<ComponentView>, name: Seq<char>)
    ensures
        name_of(path.push(ComponentView::Normal(name))) == name,
        name_of(Seq::empty()) == "."@,
        name_of(path.push(ComponentView::RootDir)) == "."@,
        name_of(path.push(ComponentView::ParentDir)) == "."@,
        name_of(path.push(ComponentView::CurDir)) == "."@,
{
}

proof fn lemma_root_len_behind(root: Seq<ComponentView>, rest: Seq<ComponentView>, from: int)
    requires
        0 <= from <= root.len(),
        forall|i: int|
            0 <= i < root.len() ==> #[trigger] root[i] is RootDir || root[i] is Prefix,
        rest.len() > 0 ==> !(rest[0] is RootDir) && !(rest[0] is Prefix),
    ensures
        root_len(root + rest, from) == root.len() - from,
    decreases root.len() - from,
{
    let path = root + rest;
    if from < root.len() {
        assert(path[from] == root[from]);
        lemma_root_len_behind(root, rest, from + 1);
    } else if rest.len() > 0 {
        assert(path[from] == rest[0]);
    }
}

/// The root of a file system is what a path starts with before its first name: a prefix and the
/// slash behind it.
pub proof fn law_root_is_the_start_of_the_path(root: Seq<ComponentView>, rest: Seq<ComponentView>)
    requires
        forall|i: int|
            0 <= i < root.len() ==> #[trigger] root[i] is RootDir || root[i] is Prefix,
        rest.len() > 0 ==> !(rest[0] is RootDir) && !(rest[0] is Prefix),
    ensures
        root_len(root + rest, 0) == root.len(),
{
    lemma_root_len_behind(root, rest, 0);
}

proof fn lemma_vfs_parts_prefix(a: Seq<ComponentView>, b: Seq<ComponentView>, count: int)
    requires
        0 <= count <= a.len(),
        count <= b.len(),
        forall|i: int| 0 <= i < count ==> #[trigger] a[i] == b[i],
    ensures
        vfs_parts(a, count) == vfs_parts(b, count),
    decreases count,
{
    if count > 0 {
        lemma_vfs_parts_prefix(a, b, count - 1);
        assert(a[count - 1] == b[count - 1]);
    }
}

/// A path inside its file system keeps the names and the steps up of the path, in their order, and
/// nothing of its root.
pub proof fn law_path_keeps_its_names(path: Seq<ComponentView>, part: ComponentView)
    ensures
        ({
            let before = vfs_parts(path, path.len() as int);
            let after = vfs_parts(path.push(part), path.len() as int + 1);
            match part {
                ComponentView::Normal(name) => after == before.push(name),
                ComponentView::ParentDir => after == before.push(".."@),
                _ => after == before,
            }
        }),
        vfs_parts(Seq::empty(), 0).len() == 0,
{
    lemma_vfs_parts_prefix(path, path.push(part), path.len() as int);
}

/// The model is told where the workspace is and where the file system starts.
pub proof fn law_model_is_told_both_paths(current: Seq<char>, root: Seq<char>)
    ensures
        exists|rest: Seq<char>|
            workspace_note(current, root) == #[trigger] ("Current workspace: "@ + current
                + "\nFilesystem root: "@ + root + "\n"@ + rest),
{
    reveal_strlit(
        "\nRelative tool paths resolve from the current workspace. Absolute tool paths resolve from the filesystem root.",
    );
    reveal_strlit("\n");
    let tail =
        "\nRelative tool paths resolve from the current workspace. Absolute tool paths resolve from the filesystem root."@;
    let rest = tail.skip(1);
    assert(tail =~= "\n"@ + rest);
    assert(workspace_note(current, root) =~= "Current workspace: "@ + current
        + "\nFilesystem root: "@ + root + "\n"@ + rest);
}

} // verus!
