//! Paths inside a file system: the root is the empty path, and every other part of a path stands
//! behind a slash.

use crate::chars;
use vstd::prelude::*;

verus! {

/// The place of the last slash among the first `k` characters.
pub open spec fn last_slash(path: Seq<char>, k: int) -> Option<int>
    decreases k,
{
    if k <= 0 {
        None
    } else if path[k - 1] == '/' {
        Some(k - 1)
    } else {
        last_slash(path, k - 1)
    }
}

pub proof fn lemma_last_slash_bound(path: Seq<char>, k: int)
    requires
        0 <= k <= path.len(),
    ensures
        last_slash(path, k) matches Some(i) ==> 0 <= i < k && path[i] == '/',
    decreases k,
{
    if k > 0 {
        lemma_last_slash_bound(path, k - 1);
    }
}

pub proof fn lemma_behind_last_slash(path: Seq<char>, k: int, i: int)
    requires
        0 <= i < k <= path.len(),
        match last_slash(path, k) {
            Some(place) => place < i,
            None => true,
        },
    ensures
        path[i] != '/',
    decreases k,
{
    if i < k - 1 {
        lemma_behind_last_slash(path, k - 1, i);
    }
}

/// The directory that a path is in.
pub open spec fn parent_of(path: Seq<char>) -> Seq<char> {
    match last_slash(path, path.len() as int) {
        Some(i) => path.take(i),
        None => Seq::empty(),
    }
}

/// The last part of a path.
pub open spec fn file_name_of(path: Seq<char>) -> Seq<char> {
    match last_slash(path, path.len() as int) {
        Some(i) => path.skip(i + 1),
        None => path,
    }
}

pub proof fn lemma_parent_shorter(path: Seq<char>)
    requires
        path.len() > 0,
    ensures
        parent_of(path).len() < path.len(),
{
    lemma_last_slash_bound(path, path.len() as int);
}

fn find_last_slash(path: &Vec<char>) -> (place: Option<usize>)
    ensures
        match place {
            Some(i) => last_slash(path@, path@.len() as int) == Some(i as int) && i < path@.len(),
            None => last_slash(path@, path@.len() as int) is None,
        },
{
    let mut k: usize = path.len();
    while k > 0
        invariant
            k <= path@.len(),
            last_slash(path@, path@.len() as int) == last_slash(path@, k as int),
        decreases k,
    {
        if path[k - 1] == '/' {
            return Some(k - 1);
        }
        k = k - 1;
    }
    None
}

/// The directory that a path is in; that of the root is the root.
pub fn parent(path: &str) -> (parent: String)
    ensures
        parent@ == parent_of(path@),
{
    let characters = chars::chars_of(path);
    match find_last_slash(&characters) {
        Some(i) => {
            let parent = chars::text_of(characters.as_slice(), 0, i);
            assert(parent@ =~= path@.take(i as int));
            parent
        },
        None => String::new(),
    }
}

/// The last part of a path.
pub fn file_name(path: &str) -> (name: String)
    ensures
        name@ == file_name_of(path@),
{
    let characters = chars::chars_of(path);
    let len: usize = characters.len();
    match find_last_slash(&characters) {
        Some(i) => {
            let name = chars::text_of(characters.as_slice(), i + 1, len);
            assert(name@ =~= path@.skip(i + 1));
            name
        },
        None => path.to_owned(),
    }
}

/// Whether no two slashes follow each other.
pub open spec fn tidy(path: Seq<char>) -> bool {
    forall|i: int| 0 <= i < path.len() - 1 ==> !(#[trigger] path[i] == '/' && path[i + 1] == '/')
}

/// A path without the slashes at its start.
pub open spec fn without_lead(path: Seq<char>) -> Seq<char> {
    path.skip(chars::leading(path, |c: char| c == '/') as int)
}

/// A path as it is shown. Seen from the root of the file system it is relative, seen from
/// elsewhere it is absolute.
pub open spec fn shown_path(from_root: bool, path: Seq<char>) -> Seq<char> {
    if from_root {
        if without_lead(path).len() == 0 {
            "."@
        } else {
            without_lead(path)
        }
    } else if path.len() == 0 {
        "/"@
    } else {
        path
    }
}

pub fn display_path(from_root: bool, path: &str) -> (shown: String)
    ensures
        shown@ == shown_path(from_root, path@),
{
    if from_root {
        let characters = chars::chars_of(path);
        let ghost slash = |c: char| c == '/';
        let mut i: usize = 0;
        assert(path@.skip(0) =~= path@);
        while i < characters.len() && characters[i] == '/'
            invariant
                i <= characters@.len(),
                characters@ == path@,
                slash == (|c: char| c == '/'),
                chars::leading(path@, slash) == i + chars::leading(path@.skip(i as int), slash),
            decreases characters@.len() - i,
        {
            assert(path@.skip(i as int)[0] == path@[i as int]);
            assert(path@.skip(i as int).drop_first() =~= path@.skip(i + 1));
            i = i + 1;
        }
        assert(chars::leading(path@.skip(i as int), slash) == 0) by {
            if i < path@.len() {
                assert(path@.skip(i as int)[0] == path@[i as int]);
            }
        }
        if i == characters.len() {
            return ".".to_owned();
        }
        let shown = chars::text_of(characters.as_slice(), i, characters.len());
        assert(shown@ =~= without_lead(path@));
        shown
    } else if path.is_empty() {
        "/".to_owned()
    } else {
        path.to_owned()
    }
}

/// A path that is tidy and does not start with a slash.
pub open spec fn relative(path: Seq<char>) -> bool {
    tidy(path) && !(path.len() > 0 && path[0] == '/')
}

/// Seen from the root, a tidy path is relative.
pub proof fn lemma_shown_relative(path: Seq<char>)
    requires
        tidy(path),
    ensures
        relative(shown_path(true, path)),
{
    let slash = |c: char| c == '/';
    let n = chars::leading(path, slash) as int;
    chars::lemma_leading_bound(path, slash);
    chars::lemma_leading_stops(path, slash);
    let rest = path.skip(n);
    assert(tidy(rest)) by {
        assert forall|i: int| 0 <= i < rest.len() - 1 implies !(#[trigger] rest[i] == '/' && rest[i
            + 1] == '/') by {
            assert(rest[i] == path[n + i]);
            assert(rest[i + 1] == path[n + i + 1]);
        }
    }
    reveal_strlit(".");
}

/// Whether a path is another one, or lies under it.
pub open spec fn lies_under(path: Seq<char>, root: Seq<char>) -> bool {
    path == root || (path.len() > root.len() && path.take(root.len() as int) == root
        && path[root.len() as int] == '/')
}

/// Whether a path lies in the directory of a workspace.
pub open spec fn under_vfs_root(path: Seq<char>, root: Seq<char>) -> bool {
    root.len() == 0 || lies_under(path, root)
}

/// Whether a shown path lies in a shown directory.
pub open spec fn under_shown(path: Seq<char>, root: Seq<char>) -> bool {
    root == "."@ || root.len() == 0 || lies_under(path, root)
}

fn is_under(path: &str, root: &str) -> (under: bool)
    ensures
        under == lies_under(path@, root@),
{
    let characters = chars::chars_of(path);
    let start = chars::chars_of(root);
    if characters.len() < start.len() {
        return false;
    }
    let mut i: usize = 0;
    while i < start.len()
        invariant
            i <= start@.len() <= characters@.len(),
            characters@ == path@,
            start@ == root@,
            forall|j: int| 0 <= j < i ==> #[trigger] path@[j] == root@[j],
        decreases start@.len() - i,
    {
        if characters[i] != start[i] {
            assert(path@.take(root@.len() as int)[i as int] == path@[i as int]);
            return false;
        }
        i = i + 1;
    }
    assert(path@.take(root@.len() as int) =~= root@);
    if characters.len() == start.len() {
        assert(path@ =~= root@);
        return true;
    }
    characters[start.len()] == '/'
}

pub fn path_is_under_vfs_root(path: &str, root: &str) -> (under: bool)
    ensures
        under == under_vfs_root(path@, root@),
{
    root.is_empty() || is_under(path, root)
}

pub fn path_is_under(path: &str, root: &str) -> (under: bool)
    ensures
        under == under_shown(path@, root@),
{
    chars::same_text(root, ".") || root.is_empty() || is_under(path, root)
}

/// The directories above a path, from the anchor or the root down to its own.
pub open spec fn directories_above(path: Seq<char>, anchor: Seq<char>) -> Seq<Seq<char>>
    decreases path.len(),
{
    if path == anchor || path.len() == 0 {
        Seq::empty()
    } else {
        let above = parent_of(path);
        if above == anchor || above.len() == 0 {
            seq![above]
        } else if above.len() < path.len() {
            directories_above(above, anchor).push(above)
        } else {
            Seq::empty()
        }
    }
}

/// The directory from which rules for a path are looked for: that of the workspace, if the path
/// lies in it, and the root of the file system otherwise.
pub open spec fn anchor_of(root: Seq<char>, path: Seq<char>) -> Seq<char> {
    if under_vfs_root(path, root) {
        root
    } else {
        Seq::empty()
    }
}

pub fn ancestor_directories(root: &str, path: &str) -> (directories: Vec<String>)
    ensures
        chars::texts(directories@) == directories_above(path@, anchor_of(root@, path@)),
{
    let anchor: String = if path_is_under_vfs_root(path, root) {
        root.to_owned()
    } else {
        String::new()
    };
    let mut directories: Vec<String> = Vec::new();
    let mut current: String = path.to_owned();
    let ghost all = directories_above(path@, anchor@);
    assert(all =~= directories_above(current@, anchor@) + chars::texts(directories@));
    while !chars::same_text(current.as_str(), anchor.as_str()) && !current.as_str().is_empty()
        invariant
            all == directories_above(path@, anchor@),
            all == directories_above(current@, anchor@) + chars::texts(directories@),
        decreases current@.len(),
    {
        let above = parent(current.as_str());
        let ghost old_texts = chars::texts(directories@);
        proof {
            lemma_parent_shorter(current@);
        }
        directories.insert(0, above.clone());
        assert(chars::texts(directories@) =~= seq![above@] + old_texts);
        assert(directories_above(current@, anchor@) =~= directories_above(above@, anchor@).push(
            above@,
        ));
        assert(all =~= directories_above(above@, anchor@) + chars::texts(directories@));
        current = above;
    }
    assert(all =~= chars::texts(directories@));
    directories
}

/// The directories in which version control systems keep their own files.
pub open spec fn vcs_names() -> Seq<Seq<char>> {
    seq![".git"@, ".svn"@, ".hg"@, ".bzr"@, ".jj"@, ".sl"@, "_darcs"@]
}

pub open spec fn is_vcs_name(name: Seq<char>) -> bool {
    vcs_names().contains(name)
}

fn is_vcs(name: &str) -> (vcs: bool)
    ensures
        vcs == is_vcs_name(name@),
{
    let ghost names = vcs_names();
    proof {
        assert(names[0] == ".git"@);
        assert(names[1] == ".svn"@);
        assert(names[2] == ".hg"@);
        assert(names[3] == ".bzr"@);
        assert(names[4] == ".jj"@);
        assert(names[5] == ".sl"@);
        assert(names[6] == "_darcs"@);
    }
    chars::same_text(name, ".git") || chars::same_text(name, ".svn") || chars::same_text(name, ".hg")
        || chars::same_text(name, ".bzr") || chars::same_text(name, ".jj") || chars::same_text(
        name,
        ".sl",
    ) || chars::same_text(name, "_darcs")
}

/// Whether a path is a directory of a version control system.
pub fn is_vcs_dir(path: &str) -> (vcs: bool)
    ensures
        vcs == is_vcs_name(file_name_of(path@)),
{
    is_vcs(file_name(path).as_str())
}

/// Whether a path is in a directory of a version control system, or is one.
pub open spec fn in_vcs_dir(path: Seq<char>) -> bool
    decreases path.len(),
{
    is_vcs_name(file_name_of(path)) || (path.len() > 0 && parent_of(path).len() < path.len()
        && in_vcs_dir(parent_of(path)))
}

pub fn is_under_vcs_dir(path: &str) -> (under: bool)
    ensures
        under == in_vcs_dir(path@),
{
    let mut current: String = path.to_owned();
    while !current.as_str().is_empty()
        invariant
            in_vcs_dir(path@) == in_vcs_dir(current@),
        decreases current@.len(),
    {
        if is_vcs_dir(current.as_str()) {
            return true;
        }
        proof {
            lemma_parent_shorter(current@);
        }
        current = parent(current.as_str());
    }
    assert(current@ =~= Seq::<char>::empty());
    assert(!is_vcs_name(file_name_of(current@))) by {
        let names = vcs_names();
        reveal_strlit(".git");
        reveal_strlit(".svn");
        reveal_strlit(".hg");
        reveal_strlit(".bzr");
        reveal_strlit(".jj");
        reveal_strlit(".sl");
        reveal_strlit("_darcs");
        assert forall|i: int| 0 <= i < names.len() implies (#[trigger] names[i]).len() > 0 by {}
    }
    false
}

/// Whatever is in a directory of a version control system stays there, however deep.
pub proof fn law_vcs_holds_everything_below(path: Seq<char>, name: Seq<char>)
    requires
        in_vcs_dir(path),
        !name.contains('/'),
    ensures
        in_vcs_dir(path + seq!['/'] + name),
{
    let below = path + seq!['/'] + name;
    lemma_last_slash_in(below, path.len() as int, below.len() as int);
    assert(below.take(path.len() as int) =~= path);
}

proof fn lemma_last_slash_in(path: Seq<char>, at: int, k: int)
    requires
        0 <= at < k <= path.len(),
        path[at] == '/',
        forall|i: int| at < i < path.len() ==> path[i] != '/',
    ensures
        last_slash(path, k) == Some(at),
    decreases k,
{
    if k > at + 1 {
        lemma_last_slash_in(path, at, k - 1);
    }
}

proof fn lemma_last_slash_of_joined(dir: Seq<char>, name: Seq<char>, k: int)
    requires
        0 <= k <= name.len(),
        !name.contains('/'),
    ensures
        last_slash(dir + seq!['/'] + name, dir.len() + 1 + k) == Some(dir.len() as int),
    decreases k,
{
    let path = dir + seq!['/'] + name;
    if k > 0 {
        lemma_last_slash_of_joined(dir, name, k - 1);
        assert(path[dir.len() + k] == name[k - 1]);
        assert(name.contains(name[k - 1]));
    } else {
        assert(path[dir.len() as int] == '/');
    }
}

/// A path is made of the directory it is in, a slash and its last part; a path without a slash is
/// its last part, in the root.
pub proof fn law_paths_are_taken_apart(dir: Seq<char>, name: Seq<char>)
    requires
        !name.contains('/'),
    ensures
        parent_of(dir + seq!['/'] + name) == dir,
        file_name_of(dir + seq!['/'] + name) == name,
        parent_of(name).len() == 0,
        file_name_of(name) == name,
{
    let path = dir + seq!['/'] + name;
    lemma_last_slash_of_joined(dir, name, name.len() as int);
    assert(parent_of(path) =~= dir);
    assert(file_name_of(path) =~= name);
    lemma_last_slash_bound(name, name.len() as int);
    if let Some(i) = last_slash(name, name.len() as int) {
        assert(name.contains(name[i]));
    }
}

/// Seen from the root of the file system, a path is shown without the slash at its start and the
/// root as a dot; seen from elsewhere it is shown as it is, and the root as a slash.
pub proof fn law_paths_are_shown(rest: Seq<char>)
    requires
        rest.len() > 0,
        rest[0] != '/',
    ensures
        shown_path(true, seq!['/'] + rest) == rest,
        shown_path(true, rest) == rest,
        shown_path(true, Seq::empty()) == "."@,
        shown_path(true, seq!['/']) == "."@,
        shown_path(false, seq!['/'] + rest) == seq!['/'] + rest,
        shown_path(false, rest) == rest,
        shown_path(false, Seq::empty()) == "/"@,
{
    let slash = |c: char| c == '/';
    let path = seq!['/'] + rest;
    reveal_with_fuel(chars::leading, 3);
    assert(path.drop_first() =~= rest);
    assert(chars::leading(rest, slash) == 0);
    assert(chars::leading(path, slash) == 1);
    assert(path.skip(1) =~= rest);
    assert(rest.skip(0) =~= rest);
    let root = seq!['/'];
    assert(root.drop_first() =~= Seq::<char>::empty());
    assert(chars::leading(root, slash) == 1);
}

/// A path lies under a directory if it goes on behind it with a slash, not if only its name starts
/// like that of the directory.
pub proof fn law_only_paths_behind_a_slash_lie_under(root: Seq<char>, c: char, rest: Seq<char>)
    ensures
        lies_under(root, root),
        lies_under(root + seq!['/'] + rest, root),
        c != '/' ==> !lies_under(root + seq![c] + rest, root),
        under_vfs_root(rest, Seq::empty()),
        root.len() > 0 ==> under_vfs_root(rest, root) == lies_under(rest, root),
{
    let path = root + seq!['/'] + rest;
    assert(path.take(root.len() as int) =~= root);
    assert(path[root.len() as int] == '/');
    let other = root + seq![c] + rest;
    assert(other[root.len() as int] == c);
}

/// The directories in which rules for a path are looked for are those above it, from the anchor
/// down, each one above the next.
pub proof fn law_directories_above_go_down(dir: Seq<char>, name: Seq<char>, anchor: Seq<char>)
    requires
        !name.contains('/'),
        dir + seq!['/'] + name != anchor,
    ensures
        directories_above(dir + seq!['/'] + name, anchor) == if dir == anchor || dir.len() == 0 {
            seq![dir]
        } else {
            directories_above(dir, anchor).push(dir)
        },
        directories_above(anchor, anchor).len() == 0,
{
    law_paths_are_taken_apart(dir, name);
}

/// The names of the directories that belong to version control systems.
pub proof fn law_vcs_names_are_known()
    ensures
        is_vcs_name(".git"@),
        is_vcs_name(".svn"@),
        is_vcs_name(".hg"@),
        is_vcs_name(".bzr"@),
        is_vcs_name(".jj"@),
        is_vcs_name(".sl"@),
        is_vcs_name("_darcs"@),
        forall|name: Seq<char>| #[trigger]
            is_vcs_name(name) ==> name == ".git"@ || name == ".svn"@ || name == ".hg"@ || name
                == ".bzr"@ || name == ".jj"@ || name == ".sl"@ || name == "_darcs"@,
{
    let names = vcs_names();
    assert(names[0] == ".git"@);
    assert(names[1] == ".svn"@);
    assert(names[2] == ".hg"@);
    assert(names[3] == ".bzr"@);
    assert(names[4] == ".jj"@);
    assert(names[5] == ".sl"@);
    assert(names[6] == "_darcs"@);
}

/// A path is in a directory of a version control system just if its last part is one or the
/// directory that it is in is in one.
pub proof fn law_vcs_directories_are_found_at_any_depth(dir: Seq<char>, name: Seq<char>)
    requires
        !name.contains('/'),
    ensures
        in_vcs_dir(dir + seq!['/'] + name) <==> is_vcs_name(name) || in_vcs_dir(dir),
        !in_vcs_dir(Seq::empty()),
{
    law_paths_are_taken_apart(dir, name);
    let empty = Seq::<char>::empty();
    reveal_strlit(".git");
    reveal_strlit(".svn");
    reveal_strlit(".hg");
    reveal_strlit(".bzr");
    reveal_strlit(".jj");
    reveal_strlit(".sl");
    reveal_strlit("_darcs");
    law_vcs_names_are_known();
    assert(file_name_of(empty) =~= empty);
    assert(!is_vcs_name(empty));
}

/// Rules for a path in the workspace are looked for from the workspace on, and for any other path from
/// the root of the file system on.
pub proof fn law_rules_are_looked_for_from_the_workspace(root: Seq<char>, rest: Seq<char>, path: Seq<char>)
    requires
        root.len() > 0,
    ensures
        anchor_of(root, root) == root,
        anchor_of(root, root + seq!['/'] + rest) == root,
        !root.is_prefix_of(path) ==> anchor_of(root, path).len() == 0,
        anchor_of(Seq::empty(), path).len() == 0,
{
    let inside = root + seq!['/'] + rest;
    assert(inside.subrange(0, root.len() as int) =~= root);
    assert(root.subrange(0, root.len() as int) =~= root);
    assert(inside.take(root.len() as int) =~= root);
    assert(root.take(root.len() as int) =~= root);
    assert(inside[root.len() as int] == '/');
    if lies_under(path, root) {
        assert(root =~= path.subrange(0, root.len() as int));
    }
}

} // verus!
