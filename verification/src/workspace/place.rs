//! Places in a file system, and where paths lead from them.

use crate::workspace::paths;
use vfs::async_vfs::AsyncVfsPath;
use vstd::prelude::*;

verus! {

/// `vfs::async_vfs::AsyncVfsPath`: a place in a file system.
#[verifier::external_type_specification]
#[verifier::external_body]
pub struct ExAsyncVfsPath(vfs::async_vfs::AsyncVfsPath);

/// The path of a place from the root of its file system; that of the root is empty.
pub uninterp spec fn path_of(place: AsyncVfsPath) -> Seq<char>;

/// Whether a path starts at the root of the file system.
pub open spec fn is_absolute(path: Seq<char>) -> bool {
    path.len() > 0 && path[0] == '/'
}

/// Where a path that is used at a place starts: an absolute one starts at the root of the file
/// system.
pub open spec fn start_of(from: Seq<char>, path: Seq<char>) -> Seq<char> {
    if is_absolute(path) {
        Seq::empty()
    } else {
        from
    }
}

/// Where one part of a path leads from a path.
pub open spec fn led_by(at: Seq<char>, part: Seq<char>) -> Seq<char> {
    if part.len() == 0 || part == "."@ {
        at
    } else if part == ".."@ {
        paths::parent_of(at)
    } else {
        at + "/"@ + part
    }
}

/// Where a path leads from another one, part by part.
pub open spec fn led(from: Seq<char>, path: Seq<char>) -> Seq<char>
    decreases path.len(),
{
    if paths::last_slash(path, path.len() as int) is None {
        led_by(from, path)
    } else {
        proof {
            paths::lemma_last_slash_bound(path, path.len() as int);
        }
        led_by(led(from, paths::parent_of(path)), paths::file_name_of(path))
    }
}

/// Whether a path ends in a slash that is not all of it.
pub open spec fn ends_open(path: Seq<char>) -> bool {
    path.len() > 1 && path.last() == '/'
}

/// Where a path leads that is used at a place, or why it leads nowhere.
pub open spec fn resolved(from: Seq<char>, path: Seq<char>) -> Result<Seq<char>, Seq<char>> {
    if ends_open(path) {
        Err("An error occurred for '"@ + path + "': The path is invalid"@)
    } else {
        Ok(led(start_of(from, path), path))
    }
}

/// `AsyncVfsPath::join`: the place that a path leads to. An absolute path leads from the root of the
/// file system. Parts that are empty or a dot lead nowhere else, two dots lead to the directory
/// above, of which the root has none, and any other part leads into what it names. Only a path that
/// ends in a slash, but for the slash alone, is refused.
#[verifier::external_body]
fn join(place: &AsyncVfsPath, path: &str) -> (reached: Result<AsyncVfsPath, String>)
    ensures
        match reached {
            Ok(reached) => resolved(path_of(*place), path@) == Ok::<Seq<char>, Seq<char>>(
                path_of(reached),
            ),
            Err(message) => resolved(path_of(*place), path@) == Err::<Seq<char>, Seq<char>>(
                message@,
            ),
        },
{
    match place.join(path) {
        Ok(reached) => Ok(reached),
        Err(error) => Err(error.to_string()),
    }
}

/// The place that a path leads to from the root of a workspace.
pub fn resolve_path(root: &AsyncVfsPath, path: &str) -> (reached: Result<AsyncVfsPath, String>)
    ensures
        match reached {
            Ok(reached) => resolved(path_of(*root), path@) == Ok::<Seq<char>, Seq<char>>(
                path_of(reached),
            ),
            Err(message) => resolved(path_of(*root), path@) == Err::<Seq<char>, Seq<char>>(
                message@,
            ),
        },
{
    join(root, path)
}

/// Absolute paths lead to the same place, whatever workspace they are used in.
pub proof fn law_absolute_paths_ignore_the_workspace(
    workspace: Seq<char>,
    other: Seq<char>,
    path: Seq<char>,
)
    requires
        is_absolute(path),
    ensures
        resolved(workspace, path) == resolved(other, path),
{
}

/// The empty path leads to where it is used.
pub proof fn law_the_empty_path_stays(workspace: Seq<char>)
    ensures
        resolved(workspace, Seq::empty()) == Ok::<Seq<char>, Seq<char>>(workspace),
{
}

/// Whether a path is that of a place: no part of it is empty, and it does not end in a slash.
pub open spec fn names_a_place(path: Seq<char>) -> bool {
    paths::tidy(path) && !(path.len() > 0 && path.last() == '/')
}

proof fn lemma_led_by(at: Seq<char>, part: Seq<char>)
    requires
        names_a_place(at),
        forall|i: int| 0 <= i < part.len() ==> #[trigger] part[i] != '/',
    ensures
        names_a_place(led_by(at, part)),
{
    reveal_strlit("/");
    let after = led_by(at, part);
    if part.len() == 0 || part == "."@ {
    } else if part == ".."@ {
        paths::lemma_last_slash_bound(at, at.len() as int);
        if let Some(i) = paths::last_slash(at, at.len() as int) {
            assert forall|j: int| 0 <= j < after.len() - 1 implies !(#[trigger] after[j] == '/'
                && after[j + 1] == '/') by {
                assert(after[j] == at[j] && after[j + 1] == at[j + 1]);
            }
            if i > 0 {
                assert(after.last() == at[i - 1]);
                assert(at[i - 1 + 1] == '/');
            }
        }
    } else {
        let n = at.len() as int;
        assert(after.last() == part.last());
        assert forall|j: int| 0 <= j < after.len() - 1 implies !(#[trigger] after[j] == '/'
            && after[j + 1] == '/') by {
            if j < n - 1 {
                assert(after[j] == at[j] && after[j + 1] == at[j + 1]);
            } else if j == n - 1 {
                assert(after[j] == at.last());
            } else if j == n {
                assert(after[j + 1] == part[0]);
            } else {
                assert(after[j] == part[j - n - 1]);
            }
        }
    }
}

proof fn lemma_led(from: Seq<char>, path: Seq<char>)
    requires
        names_a_place(from),
    ensures
        names_a_place(led(from, path)),
    decreases path.len(),
{
    paths::lemma_last_slash_bound(path, path.len() as int);
    match paths::last_slash(path, path.len() as int) {
        None => {
            assert forall|i: int| 0 <= i < path.len() implies #[trigger] path[i] != '/' by {
                paths::lemma_behind_last_slash(path, path.len() as int, i);
            }
            lemma_led_by(from, path);
        },
        Some(k) => {
            lemma_led(from, paths::parent_of(path));
            let part = paths::file_name_of(path);
            assert forall|i: int| 0 <= i < part.len() implies #[trigger] part[i] != '/' by {
                paths::lemma_behind_last_slash(path, path.len() as int, k + 1 + i);
            }
            lemma_led_by(led(from, paths::parent_of(path)), part);
        },
    }
}

/// From a place every path leads to a place, or nowhere.
pub proof fn law_paths_lead_to_places(from: Seq<char>, path: Seq<char>)
    requires
        names_a_place(from),
    ensures
        resolved(from, path) matches Ok(reached) ==> names_a_place(reached),
{
    lemma_led(start_of(from, path), path);
}

/// A path leads part by part: a name leads into what it names, two dots to the directory above, and a
/// dot nowhere else.
pub proof fn law_paths_lead_part_by_part(from: Seq<char>, path: Seq<char>, name: Seq<char>)
    requires
        !name.contains('/'),
        name.len() > 0,
        name != "."@,
        name != ".."@,
    ensures
        led(from, path + seq!['/'] + name) == led(from, path) + seq!['/'] + name,
        led(from, path + seq!['/'] + "."@) == led(from, path),
        led(from, path + seq!['/'] + ".."@) == paths::parent_of(led(from, path)),
        led(from, name) == from + seq!['/'] + name,
        led(from, "."@) == from,
        led(from, ".."@) == paths::parent_of(from),
{
    reveal_strlit("/");
    reveal_strlit(".");
    reveal_strlit("..");
    assert("/"@ =~= seq!['/']);
    lemma_led_behind(from, path, name);
    lemma_led_behind(from, path, "."@);
    lemma_led_behind(from, path, ".."@);
    lemma_no_slash(name);
    lemma_no_slash("."@);
    lemma_no_slash(".."@);
}

proof fn lemma_no_slash(name: Seq<char>)
    requires
        !name.contains('/'),
    ensures
        paths::last_slash(name, name.len() as int) is None,
{
    paths::lemma_last_slash_bound(name, name.len() as int);
    if let Some(i) = paths::last_slash(name, name.len() as int) {
        assert(name.contains(name[i]));
    }
}

proof fn lemma_led_behind(from: Seq<char>, path: Seq<char>, name: Seq<char>)
    requires
        !name.contains('/'),
    ensures
        led(from, path + seq!['/'] + name) == led_by(led(from, path), name),
{
    let whole = path + seq!['/'] + name;
    paths::law_paths_are_taken_apart(path, name);
    if paths::last_slash(whole, whole.len() as int) is None {
        assert(paths::file_name_of(whole).len() == whole.len());
    }
}

/// A path that starts with a slash leads from the root of the file system and any other from where it
/// is used. Only a path that ends in a slash leads nowhere, but for the slash alone.
pub proof fn law_paths_start_where_they_are_used(from: Seq<char>, path: Seq<char>)
    ensures
        path.len() > 0 && path[0] == '/' && (path.len() == 1 || path.last() != '/') ==> resolved(
            from,
            path,
        ) == Ok::<Seq<char>, Seq<char>>(led(Seq::empty(), path)),
        path.len() > 0 && path[0] != '/' && path.last() != '/' ==> resolved(from, path) == Ok::<
            Seq<char>,
            Seq<char>,
        >(led(from, path)),
        path.len() > 1 && path.last() == '/' ==> resolved(from, path) is Err,
{
}

} // verus!
