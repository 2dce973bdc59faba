//! The index tree: directories with their files and the lower-cased names
//! of every file beneath them.

use vstd::prelude::*;
use crate::text::ascii_lower;

verus! {

/// One indexed file.
#[derive(Debug)]
pub struct FileNode {
    /// The file's name as the filesystem reported it, case preserved.
    pub name: String,
    /// The path under which the file can be opened again.
    pub path: String,
}

/// One indexed directory.
#[derive(Debug)]
pub struct DirNode {
    /// The files directly in this directory.
    pub files: Vec<FileNode>,
    /// The directories directly in this directory.
    pub subdirs: Vec<DirNode>,
    /// The lower-cased names of the files at or below this directory.
    pub tokens: Vec<String>,
}

/// What a `FileNode` holds, as text.
pub struct FileView {
    pub name: Seq<char>,
    pub path: Seq<char>,
}

/// What a `DirNode` holds, as sequences of text.
pub struct TreeView {
    pub files: Seq<FileView>,
    pub subdirs: Seq<TreeView>,
    pub tokens: Seq<Seq<char>>,
}

impl View for FileNode {
    type V = FileView;

    open spec fn view(&self) -> FileView {
        FileView { name: self.name@, path: self.path@ }
    }
}

impl View for DirNode {
    type V = TreeView;

    open spec fn view(&self) -> TreeView {
        tree_view(*self)
    }
}

/// The view of one directory: its files, subdirectories and tokens as text.
pub open spec fn tree_view(dir: DirNode) -> TreeView
    decreases dir,
{
    TreeView {
        files: dir.files@.map_values(|f: FileNode| f@),
        subdirs: forest_view(dir.subdirs@),
        tokens: dir.tokens@.map_values(|t: String| t@),
    }
}

/// The views of a sequence of directories, in order.
pub open spec fn forest_view(dirs: Seq<DirNode>) -> Seq<TreeView>
    decreases dirs,
{
    if dirs.len() == 0 {
        Seq::empty()
    } else {
        forest_view(dirs.drop_last()).push(tree_view(dirs.last()))
    }
}

/// `forest_view` keeps the length and views each directory in place.
pub proof fn lemma_forest_view(dirs: Seq<DirNode>)
    ensures
        forest_view(dirs).len() == dirs.len(),
        forall|i: int| 0 <= i < dirs.len() ==> (#[trigger] forest_view(dirs)[i]) == dirs[i]@,
    decreases dirs.len(),
{
    if dirs.len() > 0 {
        lemma_forest_view(dirs.drop_last());
    }
}

/// The lower-cased name under which a file is found.
pub open spec fn token_of(f: FileView) -> Seq<char> {
    ascii_lower(f.name)
}

/// The files at or below a directory, depth first: its own files, then the
/// files at or below each subdirectory in order.
pub open spec fn subtree_files(t: TreeView) -> Seq<FileView>
    decreases t,
{
    t.files + forest_files(t.subdirs)
}

/// The files at or below each of a sequence of directories, in order.
pub open spec fn forest_files(ts: Seq<TreeView>) -> Seq<FileView>
    decreases ts,
{
    if ts.len() == 0 {
        Seq::empty()
    } else {
        forest_files(ts.drop_last()) + subtree_files(ts.last())
    }
}

/// The token of every file at or below a directory, in depth-first order.
pub open spec fn subtree_tokens(t: TreeView) -> Seq<Seq<char>> {
    subtree_files(t).map_values(|f: FileView| token_of(f))
}

/// The token invariant: at every directory of the tree, `tokens` holds,
/// as a multiset, exactly the tokens of the files at or below it.
pub open spec fn well_formed(t: TreeView) -> bool
    decreases t,
{
    &&& t.tokens.to_multiset() == subtree_tokens(t).to_multiset()
    &&& forall|i: int| 0 <= i < t.subdirs.len() ==> well_formed(#[trigger] t.subdirs[i])
}

/// The tree of a directory that holds nothing.
pub open spec fn empty_tree() -> TreeView {
    TreeView { files: Seq::empty(), subdirs: Seq::empty(), tokens: Seq::empty() }
}

impl DirNode {
    /// The token invariant, on the tree that this node holds.
    pub open spec fn well_formed(&self) -> bool {
        well_formed(self@)
    }

    /// A directory with no files, no subdirectories and no tokens.
    pub fn empty() -> (node: DirNode)
        ensures
            node@ == empty_tree(),
            node.well_formed(),
    {
        let node = DirNode { files: Vec::new(), subdirs: Vec::new(), tokens: Vec::new() };
        proof {
            assert(node@.files =~= Seq::empty());
            assert(node@.subdirs =~= Seq::empty());
            assert(node@.tokens =~= Seq::empty());
            lemma_empty_tree_well_formed();
        }
        node
    }
}

/// The empty tree has no files and keeps the token invariant.
pub proof fn lemma_empty_tree_well_formed()
    ensures
        subtree_files(empty_tree()) == Seq::<FileView>::empty(),
        well_formed(empty_tree()),
{
    let t = empty_tree();
    assert(subtree_files(t) =~= Seq::<FileView>::empty());
    assert(subtree_tokens(t) =~= Seq::<Seq<char>>::empty());
}

/// Appends a copy of each string of `src` to `dst`.
pub(crate) fn append_copies(dst: &mut Vec<String>, src: &Vec<String>)
    ensures
        final(dst)@.map_values(|t: String| t@) == old(dst)@.map_values(|t: String| t@)
            + src@.map_values(|t: String| t@),
{
    let ghost before = dst@.map_values(|t: String| t@);
    let mut i: usize = 0;
    while i < src.len()
        invariant
            i <= src.len(),
            dst@.map_values(|t: String| t@) == before + src@.take(i as int).map_values(
                |t: String| t@,
            ),
        decreases src.len() - i,
    {
        let ghost prior = dst@.map_values(|t: String| t@);
        dst.push(src[i].clone());
        proof {
            assert(src@.take(i + 1) =~= src@.take(i as int).push(src@[i as int]));
            assert(dst@.map_values(|t: String| t@) =~= prior.push(src@[i as int]@));
            assert(dst@.map_values(|t: String| t@) =~= before + src@.take(i + 1).map_values(
                |t: String| t@,
            ));
        }
        i += 1;
    }
    assert(src@.take(src@.len() as int) =~= src@);
}

impl Clone for FileNode {
    /// A copy with the same name and path.
    fn clone(&self) -> (copy: FileNode)
        ensures
            copy@ == self@,
    {
        FileNode { name: self.name.clone(), path: self.path.clone() }
    }
}

impl Clone for DirNode {
    /// A copy of the whole tree below this directory.
    fn clone(&self) -> (copy: DirNode)
        ensures
            copy@ == self@,
        decreases self,
    {
        let mut files: Vec<FileNode> = Vec::new();
        let mut i: usize = 0;
        while i < self.files.len()
            invariant
                i <= self.files.len(),
                files@.map_values(|f: FileNode| f@) == self.files@.take(i as int).map_values(
                    |f: FileNode| f@,
                ),
            decreases self.files.len() - i,
        {
            let ghost prior = files@.map_values(|f: FileNode| f@);
            files.push(self.files[i].clone());
            proof {
                assert(self.files@.take(i + 1) =~= self.files@.take(i as int).push(
                    self.files@[i as int],
                ));
                assert(files@.map_values(|f: FileNode| f@) =~= prior.push(self.files@[i as int]@));
                assert(files@.map_values(|f: FileNode| f@) =~= self.files@.take(
                    i + 1,
                ).map_values(|f: FileNode| f@));
            }
            i += 1;
        }
        let mut subdirs: Vec<DirNode> = Vec::new();
        let mut j: usize = 0;
        while j < self.subdirs.len()
            invariant
                j <= self.subdirs.len(),
                forest_view(subdirs@) == forest_view(self.subdirs@.take(j as int)),
            decreases self.subdirs.len() - j,
        {
            let ghost seen = subdirs@;
            subdirs.push(self.subdirs[j].clone());
            proof {
                assert(subdirs@.drop_last() =~= seen);
                assert(self.subdirs@.take(j + 1).drop_last() =~= self.subdirs@.take(j as int));
            }
            j += 1;
        }
        let mut tokens: Vec<String> = Vec::new();
        append_copies(&mut tokens, &self.tokens);
        proof {
            assert(self.files@.take(self.files@.len() as int) =~= self.files@);
            assert(self.subdirs@.take(self.subdirs@.len() as int) =~= self.subdirs@);
            assert(tokens@.map_values(|t: String| t@) =~= self.tokens@.map_values(
                |t: String| t@,
            ));
        }
        DirNode { files, subdirs, tokens }
    }
}

} // verus!
