//! The contents of a folder of the device, held in memory as a tree.

use crate::path::join;
use vstd::prelude::*;
use vstd::string::*;

verus! {

/// What a folder holds, as a mathematical value: its sub-folders by name, in
/// the order in which the device lists them, and the names of its own files.
pub struct Tree {
    pub folders: Seq<Branch>,
    pub files: Seq<Seq<char>>,
}

/// A sub-folder: its name in the folder that holds it, and what it holds.
pub struct Branch {
    pub name: Seq<char>,
    pub content: Tree,
}

/// A file of the device: the path of the folder that holds it, and its name
/// there.
pub struct RemoteFile {
    pub folder: Seq<char>,
    pub file: Seq<char>,
}

impl Tree {
    /// The folder that holds nothing.
    pub open spec fn empty() -> Tree {
        Tree { folders: Seq::empty(), files: Seq::empty() }
    }

    /// The number of files in this folder and in all folders below it.
    pub open spec fn total_files(self) -> nat
        decreases self,
    {
        forest_files(self.folders) + self.files.len()
    }

    /// The files of this folder and of all folders below it, when this
    /// folder has the path `path`: those of each sub-folder in turn first,
    /// then the folder's own.
    pub open spec fn visits(self, path: Seq<char>) -> Seq<RemoteFile>
        decreases self,
    {
        forest_visits(path, self.folders) + own_visits(path, self.files)
    }

    /// The place of the sub-folder `name` among the sub-folders, or their
    /// number if there is none of that name.
    pub open spec fn position(self, name: Seq<char>) -> int {
        first_named(self.folders, name)
    }

    /// What the sub-folder `name` holds, if there is one.
    pub open spec fn folder(self, name: Seq<char>) -> Option<Tree> {
        if self.position(name) < self.folders.len() {
            Some(self.folders[self.position(name)].content)
        } else {
            None
        }
    }

    /// This folder with `content` as its sub-folder `name`: in the place of
    /// the sub-folder of that name if there is one, else behind all others.
    pub open spec fn with_folder(self, name: Seq<char>, content: Tree) -> Tree {
        let at = self.position(name);
        let branch = Branch { name, content };
        if at < self.folders.len() {
            Tree { folders: self.folders.update(at, branch), ..self }
        } else {
            Tree { folders: self.folders.push(branch), ..self }
        }
    }

    /// This folder with one more file, `name`, behind all others.
    pub open spec fn with_file(self, name: Seq<char>) -> Tree {
        Tree { files: self.files.push(name), ..self }
    }

    /// No two sub-folders of this folder have one name, and the same holds
    /// in every folder below it: the sub-folders are a mapping from names.
    pub open spec fn well_formed(self) -> bool
        decreases self,
    {
        &&& distinct_names(self.folders)
        &&& forall|i: int|
            0 <= i < self.folders.len() ==> (#[trigger] self.folders[i]).content.well_formed()
    }

    /// The folder as text: for each sub-folder a line with its name and a
    /// separator, followed by what the sub-folder holds; then for each file
    /// a line with a marker and its name.
    pub open spec fn render(self) -> Seq<char>
        decreases self,
    {
        render_forest(self.folders) + render_files(self.files)
    }

    /// The names of the sub-folders, in order.
    pub open spec fn folder_names(self) -> Seq<Seq<char>> {
        branch_names(self.folders)
    }
}

/// The names of `branches`, in order.
pub open spec fn branch_names(branches: Seq<Branch>) -> Seq<Seq<char>> {
    Seq::new(branches.len(), |i: int| branches[i].name)
}

/// The number of files in all of `branches` together.
pub open spec fn forest_files(branches: Seq<Branch>) -> nat
    decreases branches,
{
    if branches.len() == 0 {
        0
    } else {
        branches[0].content.total_files() + forest_files(branches.drop_first())
    }
}

/// The place of the first of `branches` that is named `name`, or their
/// number if there is none.
pub open spec fn first_named(branches: Seq<Branch>, name: Seq<char>) -> int
    decreases branches.len(),
{
    if branches.len() == 0 {
        0
    } else if branches[0].name == name {
        0
    } else {
        1 + first_named(branches.drop_first(), name)
    }
}

/// No two of `branches` have one name.
pub open spec fn distinct_names(branches: Seq<Branch>) -> bool {
    forall|i: int, j: int|
        0 <= i < j < branches.len() ==> (#[trigger] branches[i]).name != (
        #[trigger] branches[j]).name
}

/// The line that stands for a folder: its name and a separator.
pub open spec fn folder_line(name: Seq<char>) -> Seq<char> {
    name + seq!['/', '\n']
}

/// The line that stands for a file: a marker and its name.
pub open spec fn file_line(name: Seq<char>) -> Seq<char> {
    seq!['-', ' '] + name + seq!['\n']
}

/// The folders `branches` as text, one after the other, each with what it
/// holds.
pub open spec fn render_forest(branches: Seq<Branch>) -> Seq<char>
    decreases branches,
{
    if branches.len() == 0 {
        Seq::empty()
    } else {
        folder_line(branches[0].name) + branches[0].content.render() + render_forest(
            branches.drop_first(),
        )
    }
}

/// The files `files` as text, one line each.
pub open spec fn render_files(files: Seq<Seq<char>>) -> Seq<char>
    decreases files.len(),
{
    if files.len() == 0 {
        Seq::empty()
    } else {
        file_line(files[0]) + render_files(files.drop_first())
    }
}

/// The files `files` of the folder `path`, in order.
pub open spec fn own_visits(path: Seq<char>, files: Seq<Seq<char>>) -> Seq<RemoteFile> {
    Seq::new(files.len(), |i: int| RemoteFile { folder: path, file: files[i] })
}

/// The files of the folders `branches` of the folder `path`, one folder
/// after the other.
pub open spec fn forest_visits(path: Seq<char>, branches: Seq<Branch>) -> Seq<RemoteFile>
    decreases branches,
{
    if branches.len() == 0 {
        Seq::empty()
    } else {
        branches[0].content.visits(join(path, branches[0].name)) + forest_visits(
            path,
            branches.drop_first(),
        )
    }
}

/// A tree is visited file by file: there are as many visits as files.
pub proof fn lemma_visits_len(tree: Tree, path: Seq<char>)
    ensures
        tree.visits(path).len() == tree.total_files(),
    decreases tree, 0nat,
{
    lemma_forest_visits_len(path, tree.folders);
}

/// The folders `branches` are visited file by file.
pub proof fn lemma_forest_visits_len(path: Seq<char>, branches: Seq<Branch>)
    ensures
        forest_visits(path, branches).len() == forest_files(branches),
    decreases branches, 1nat,
{
    if branches.len() > 0 {
        lemma_visits_len(branches[0].content, join(path, branches[0].name));
        lemma_forest_visits_len(path, branches.drop_first());
    }
}

/// The first branch of a name is where no branch before it has the name
/// and it has it itself, or behind all branches where none has it.
pub proof fn lemma_first_named(branches: Seq<Branch>, name: Seq<char>, at: int)
    requires
        0 <= at <= branches.len(),
        forall|j: int| 0 <= j < at ==> (#[trigger] branches[j]).name != name,
        at < branches.len() ==> branches[at].name == name,
    ensures
        first_named(branches, name) == at,
    decreases branches.len(),
{
    if branches.len() > 0 && at > 0 {
        let rest = branches.drop_first();
        assert(branches[0].name != name);
        assert forall|j: int| 0 <= j < at - 1 implies (#[trigger] rest[j]).name != name by {
            assert(rest[j] == branches[j + 1]);
        }
        lemma_first_named(rest, name, at - 1);
    }
}

/// The first branch of a name is a branch of that name, and no branch
/// before it is.
pub proof fn lemma_first_named_is_first(branches: Seq<Branch>, name: Seq<char>)
    ensures
        0 <= first_named(branches, name) <= branches.len(),
        forall|j: int|
            0 <= j < first_named(branches, name) ==> (#[trigger] branches[j]).name != name,
        first_named(branches, name) < branches.len() ==> branches[first_named(
            branches,
            name,
        )].name == name,
    decreases branches.len(),
{
    if branches.len() > 0 && branches[0].name != name {
        let rest = branches.drop_first();
        lemma_first_named_is_first(rest, name);
        assert forall|j: int| 0 <= j < first_named(branches, name) implies (
        #[trigger] branches[j]).name != name by {
            if j > 0 {
                assert(rest[j - 1] == branches[j]);
            }
        }
    }
}

/// A well-formed folder stays well-formed when a well-formed folder is made
/// its sub-folder, under a new name or in the place of an old one.
pub proof fn lemma_with_folder_well_formed(tree: Tree, name: Seq<char>, content: Tree)
    requires
        tree.well_formed(),
        content.well_formed(),
    ensures
        tree.with_folder(name, content).well_formed(),
{
    lemma_first_named_is_first(tree.folders, name);
    let at = tree.position(name);
    let after = tree.with_folder(name, content);
    assert forall|i: int| 0 <= i < after.folders.len() implies (
    #[trigger] after.folders[i]).content.well_formed() by {
        if i != at {
            assert(after.folders[i] == tree.folders[i]);
        }
    }
    assert forall|i: int, j: int| 0 <= i < j < after.folders.len() implies (
    #[trigger] after.folders[i]).name != (#[trigger] after.folders[j]).name by {
        if i < tree.folders.len() {
            assert(after.folders[i].name == tree.folders[i].name);
        }
        if j < tree.folders.len() {
            assert(after.folders[j].name == tree.folders[j].name);
        }
    }
}

/// A sub-folder of a folder: its name there, and what it holds.
#[derive(Debug, PartialEq, Eq)]
pub struct FolderEntry {
    name: String,
    content: FolderContent,
}

/// What a folder of the device holds: its sub-folders by name, in the order
/// in which the device lists them, and the names of its own files, in that
/// order too. What lies in a sub-folder is held by the sub-folder alone.
#[derive(Debug, PartialEq, Eq)]
pub struct FolderContent {
    folders: Vec<FolderEntry>,
    files: Vec<String>,
}

/// `entries` as mathematical values.
pub open spec fn branches_of(entries: Seq<FolderEntry>) -> Seq<Branch>
    decreases entries,
{
    Seq::new(
        entries.len(),
        |i: int|
            if 0 <= i < entries.len() {
                entries[i].view()
            } else {
                arbitrary()
            },
    )
}

impl View for FolderEntry {
    type V = Branch;

    closed spec fn view(&self) -> Branch
        decreases self,
    {
        Branch { name: self.name@, content: self.content.view() }
    }
}

impl View for FolderContent {
    type V = Tree;

    closed spec fn view(&self) -> Tree
        decreases self,
    {
        Tree { folders: branches_of(self.folders@), files: self.files.deep_view() }
    }
}

impl FolderEntry {
    /// The name of the sub-folder.
    pub fn name(&self) -> (r: &String)
        ensures
            r@ == self@.name,
    {
        &self.name
    }

    /// What the sub-folder holds.
    pub fn content(&self) -> (r: &FolderContent)
        ensures
            r@ == self@.content,
    {
        &self.content
    }
}

impl FolderContent {
    /// A folder that holds nothing.
    pub fn new() -> (r: FolderContent)
        ensures
            r@ == Tree::empty(),
            r@.well_formed(),
    {
        let r = FolderContent { folders: Vec::new(), files: Vec::new() };
        assert(r@.folders =~= Seq::<Branch>::empty());
        assert(r@.files =~= Seq::<Seq<char>>::empty());
        r
    }

    /// The sub-folders, in the order in which the device lists them.
    pub fn folders(&self) -> (r: &Vec<FolderEntry>)
        ensures
            branches_of(r@) == self@.folders,
    {
        &self.folders
    }

    /// The names of the files of this folder itself, in the order in which
    /// the device lists them.
    pub fn files(&self) -> (r: &Vec<String>)
        ensures
            r.deep_view() == self@.files,
    {
        &self.files
    }

    /// Adds the file `name` behind the files that are there.
    pub fn push_file(&mut self, name: String)
        ensures
            final(self)@ == old(self)@.with_file(name@),
            old(self)@.well_formed() ==> final(self)@.well_formed(),
    {
        self.files.push(name);
        assert(self@.files =~= old(self)@.files.push(name@));
    }

    /// Makes the files of this folder the files `names`, in their order.
    pub fn set_files(&mut self, names: Vec<String>)
        ensures
            final(self)@ == (Tree { files: names.deep_view(), ..old(self)@ }),
            old(self)@.well_formed() ==> final(self)@.well_formed(),
    {
        self.files = names;
    }

    /// The place of the sub-folder `name` among the sub-folders, or their
    /// number if there is none of that name.
    fn find(&self, name: &String) -> (at: usize)
        ensures
            at == self@.position(name@),
            at <= self.folders.len(),
            self.folders.len() == self@.folders.len(),
    {
        let mut at: usize = 0;
        while at < self.folders.len() && !(self.folders[at].name == *name)
            invariant
                at <= self.folders.len(),
                forall|j: int| 0 <= j < at ==> (#[trigger] self@.folders[j]).name != name@,
            decreases self.folders.len() - at,
        {
            at = at + 1;
        }
        proof {
            lemma_first_named(self@.folders, name@, at as int);
        }
        at
    }

    /// What the sub-folder `name` holds, if there is one.
    pub fn folder(&self, name: &String) -> (r: Option<&FolderContent>)
        ensures
            r matches Some(content) ==> self@.folder(name@) == Some(content@),
            r is None ==> self@.folder(name@) is None,
    {
        let at = self.find(name);
        if at < self.folders.len() {
            Some(&self.folders[at].content)
        } else {
            None
        }
    }

    /// Makes `content` the sub-folder `name`: in the place of the
    /// sub-folder of that name if there is one, else behind all others.
    pub fn insert_folder(&mut self, name: String, content: FolderContent)
        ensures
            final(self)@ == old(self)@.with_folder(name@, content@),
            old(self)@.well_formed() && content@.well_formed() ==> final(self)@.well_formed(),
    {
        proof {
            if self@.well_formed() && content@.well_formed() {
                lemma_with_folder_well_formed(self@, name@, content@);
            }
        }
        let at = self.find(&name);
        let entry = FolderEntry { name, content };
        if at < self.folders.len() {
            self.folders.set(at, entry);
            assert(self@.folders =~= old(self)@.folders.update(at as int, entry@));
        } else {
            self.folders.push(entry);
            assert(self@.folders =~= old(self)@.folders.push(entry@));
        }
    }

    /// The folder as text: for each sub-folder a line with its name and a
    /// separator, followed by what the sub-folder holds; then for each file
    /// a line with a marker and its name.
    pub fn render(&self) -> (r: String)
        ensures
            r@ == self@.render(),
        decreases self,
    {
        let mut out = String::new();
        let ghost branches = self@.folders;
        let mut i: usize = 0;
        assert(branches.subrange(0, branches.len() as int) =~= branches);
        while i < self.folders.len()
            invariant
                i <= self.folders.len(),
                branches == self@.folders,
                branches.len() == self.folders.len(),
                out@ + render_forest(branches.subrange(i as int, branches.len() as int))
                    == render_forest(branches),
            decreases self.folders.len() - i,
        {
            let entry = &self.folders[i];
            let ghost before = out@;
            let ghost from = branches.subrange(i as int, branches.len() as int);
            proof {
                reveal_strlit("/\n");
                assert(from.drop_first() =~= branches.subrange(i + 1, branches.len() as int));
                assert(from[0] == entry@);
            }
            out.append(entry.name.as_str());
            out.append("/\n");
            let inner = entry.content.render();
            out.append(inner.as_str());
            proof {
                assert("/\n"@ =~= seq!['/', '\n']);
                assert(out@ =~= before + (folder_line(entry@.name) + entry@.content.render()));
                assert(before + (folder_line(entry@.name) + entry@.content.render()
                    + render_forest(from.drop_first())) =~= out@ + render_forest(
                    from.drop_first(),
                ));
            }
            i = i + 1;
        }
        assert(branches.subrange(i as int, branches.len() as int) =~= Seq::<Branch>::empty());
        let ghost files = self@.files;
        let ghost forest = out@;
        let mut k: usize = 0;
        assert(files.subrange(0, files.len() as int) =~= files);
        assert(forest + Seq::<char>::empty() =~= forest);
        while k < self.files.len()
            invariant
                k <= self.files.len(),
                files == self@.files,
                files.len() == self.files.len(),
                forest == render_forest(self@.folders),
                out@ + render_files(files.subrange(k as int, files.len() as int)) == forest
                    + render_files(files),
            decreases self.files.len() - k,
        {
            let ghost before = out@;
            let ghost from = files.subrange(k as int, files.len() as int);
            proof {
                reveal_strlit("- ");
                reveal_strlit("\n");
                assert(from.drop_first() =~= files.subrange(k + 1, files.len() as int));
                assert(from[0] == self.files[k as int]@);
            }
            out.append("- ");
            out.append(self.files[k].as_str());
            out.append("\n");
            proof {
                assert("- "@ =~= seq!['-', ' ']);
                assert("\n"@ =~= seq!['\n']);
                assert(out@ =~= before + file_line(from[0]));
                assert(before + (file_line(from[0]) + render_files(from.drop_first())) =~= out@
                    + render_files(from.drop_first()));
            }
            k = k + 1;
        }
        assert(files.subrange(k as int, files.len() as int) =~= Seq::<Seq<char>>::empty());
        assert(out@ + Seq::<char>::empty() =~= out@);
        out
    }
}

} // verus!
