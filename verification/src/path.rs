//! Paths on the device and below the local destination.

use vstd::prelude::*;
use vstd::string::*;

verus! {

/// The separator between the components of a path.
pub open spec fn separator() -> char {
    '/'
}

/// The path of the topmost folder of a device: a single separator.
pub open spec fn root() -> Seq<char> {
    seq![separator()]
}

/// The path of the entry `child` in the folder `parent`. Below the root no
/// second separator is written.
pub open spec fn join(parent: Seq<char>, child: Seq<char>) -> Seq<char> {
    if parent == root() {
        parent + child
    } else {
        parent + seq![separator()] + child
    }
}

/// Tells whether `path` names the topmost folder.
pub fn is_root(path: &str) -> (r: bool)
    ensures
        r == (path@ == root()),
{
    if path.unicode_len() == 1 {
        let first = path.get_char(0);
        assert(path@ =~= seq![first]);
        first == '/'
    } else {
        false
    }
}

/// Builds the path of the entry `child` in the folder `parent`.
pub fn join_path(parent: &str, child: &str) -> (r: String)
    ensures
        r@ == join(parent@, child@),
{
    let mut joined = String::from_str(parent);
    if !is_root(parent) {
        proof {
            reveal_strlit("/");
        }
        joined.append("/");
        assert("/"@ =~= seq![separator()]);
    }
    joined.append(child);
    joined
}

/// `path` without its leading separator, if it has one.
pub open spec fn relative(path: Seq<char>) -> Seq<char> {
    if path.len() > 0 && path[0] == separator() {
        path.drop_first()
    } else {
        path
    }
}

/// The local path `relative` below the local directory `base`. An empty
/// `base` stands for the current directory, and a `base` that ends in a
/// separator gets no second one.
pub open spec fn below(base: Seq<char>, relative: Seq<char>) -> Seq<char> {
    if base.len() == 0 {
        relative
    } else if base.last() == separator() {
        base + relative
    } else {
        base + seq![separator()] + relative
    }
}

/// Where the file `file` of the device folder `folder` is written below the
/// local directory `destination_root`: the folders of the device are
/// mirrored, so that files of one name in two folders are kept apart.
pub open spec fn destination(
    destination_root: Seq<char>,
    folder: Seq<char>,
    file: Seq<char>,
) -> Seq<char> {
    below(destination_root, relative(join(folder, file)))
}

/// Builds the local path at which the file `file` of the device folder
/// `folder` is written below `destination_root`.
pub fn destination_path(destination_root: &str, folder: &str, file: &str) -> (r: String)
    ensures
        r@ == destination(destination_root@, folder@, file@),
{
    let remote = join_path(folder, file);
    let remote_len = remote.as_str().unicode_len();
    let from: usize = if remote_len > 0 && remote.as_str().get_char(0) == '/' {
        1
    } else {
        0
    };
    let tail = remote.as_str().substring_char(from, remote_len);
    assert(tail@ =~= relative(remote@));
    let mut local = String::from_str(destination_root);
    let root_len = destination_root.unicode_len();
    if root_len > 0 && destination_root.get_char(root_len - 1) != '/' {
        proof {
            reveal_strlit("/");
        }
        local.append("/");
        assert("/"@ =~= seq![separator()]);
    }
    local.append(tail);
    local
}

/// `name` can name a folder or a file: it holds no separator.
pub open spec fn is_name(name: Seq<char>) -> bool {
    forall|i: int| 0 <= i < name.len() ==> name[i] != separator()
}

/// `path` is the path of a folder of the device: the root, or a path that
/// begins with a separator and does not end with one.
pub open spec fn is_folder(path: Seq<char>) -> bool {
    &&& path.len() > 0
    &&& path[0] == separator()
    &&& path.len() > 1 ==> path.last() != separator()
}

/// The path of an entry of a folder tells the folder and the entry's name:
/// no two entries of the device have one path.
pub proof fn lemma_join_tells_apart(
    parent: Seq<char>,
    child: Seq<char>,
    other_parent: Seq<char>,
    other_child: Seq<char>,
)
    requires
        is_folder(parent),
        is_folder(other_parent),
        is_name(child),
        is_name(other_child),
        join(parent, child) == join(other_parent, other_child),
    ensures
        parent == other_parent,
        child == other_child,
{
    let stem = if parent == root() {
        Seq::<char>::empty()
    } else {
        parent
    };
    let other_stem = if other_parent == root() {
        Seq::<char>::empty()
    } else {
        other_parent
    };
    let path = join(parent, child);
    let bar = seq![separator()];
    assert(path =~= stem + bar + child);
    assert(path =~= other_stem + bar + other_child);
    // The last separator of the path stands before the entry's name.
    assert(path[stem.len() as int] == separator());
    assert(path[other_stem.len() as int] == separator());
    if stem.len() < other_stem.len() {
        let at = other_stem.len() - stem.len() - 1;
        assert(path[other_stem.len() as int] == child[at]);
    }
    if other_stem.len() < stem.len() {
        let at = stem.len() - other_stem.len() - 1;
        assert(path[stem.len() as int] == other_child[at]);
    }
    assert(stem =~= path.subrange(0, stem.len() as int));
    assert(other_stem =~= path.subrange(0, stem.len() as int));
    assert(child =~= path.subrange(stem.len() as int + 1, path.len() as int));
    assert(other_child =~= path.subrange(stem.len() as int + 1, path.len() as int));
    assert(parent == other_parent) by {
        if parent == root() {
            assert(other_stem.len() == 0);
        }
        if other_parent == root() {
            assert(stem.len() == 0);
        }
    }
}

/// Below one destination, two files of the device are written to one local
/// path only if they are one file: the folder and the name of a file tell
/// its local path, and its local path tells them.
pub proof fn lemma_destination_tells_apart(
    destination_root: Seq<char>,
    folder: Seq<char>,
    file: Seq<char>,
    other_folder: Seq<char>,
    other_file: Seq<char>,
)
    requires
        is_folder(folder),
        is_folder(other_folder),
        is_name(file),
        is_name(other_file),
        destination(destination_root, folder, file) == destination(
            destination_root,
            other_folder,
            other_file,
        ),
    ensures
        folder == other_folder,
        file == other_file,
{
    let path = join(folder, file);
    let other_path = join(other_folder, other_file);
    let lead = if destination_root.len() == 0 {
        Seq::<char>::empty()
    } else if destination_root.last() == separator() {
        destination_root
    } else {
        destination_root + seq![separator()]
    };
    let local = destination(destination_root, folder, file);
    assert(path[0] == separator());
    assert(other_path[0] == separator());
    assert(local =~= lead + path.drop_first());
    assert(local =~= lead + other_path.drop_first());
    assert(path.drop_first() =~= local.subrange(lead.len() as int, local.len() as int));
    assert(other_path.drop_first() =~= local.subrange(lead.len() as int, local.len() as int));
    assert(path =~= seq![separator()] + path.drop_first());
    assert(other_path =~= seq![separator()] + other_path.drop_first());
    lemma_join_tells_apart(folder, file, other_folder, other_file);
}

/// The path of an entry with a name that is not empty is the path of a
/// folder, if the entry is in a folder.
pub proof fn lemma_join_is_folder(parent: Seq<char>, child: Seq<char>)
    requires
        is_folder(parent),
        is_name(child),
        child.len() > 0,
    ensures
        is_folder(join(parent, child)),
{
    let path = join(parent, child);
    assert(path.last() == child.last());
}

} // verus!
