//! The tree builder: a resumable depth-first walk that asks its caller to
//! read one directory at a time and assembles the index tree from the
//! answers.

use vstd::prelude::*;
use vstd::seq_lib::lemma_multiset_commutative;
use crate::hidden::{hidden_path, is_hidden_path};
use crate::search::{
    lemma_matching_paths_come_from_files, lemma_pruning_sound, matching_paths, name_matches,
    search_result,
};
use crate::text::{ascii_lower, to_ascii_lowercase};
use crate::tree::{
    append_copies, empty_tree, forest_files, lemma_empty_tree_well_formed, subtree_files,
    subtree_tokens, token_of, well_formed, DirNode, FileNode, FileView, TreeView,
};

verus! {

/// What kind of thing a directory entry is.
#[derive(Debug, Clone, Copy, PartialEq, Eq, Structural)]
pub enum EntryKind {
    /// A regular file.
    File,
    /// A directory.
    Directory,
    /// Anything else: it is ignored.
    Other,
}

/// One entry of a directory, as the filesystem reported it.
#[derive(Debug)]
pub struct DirEntry {
    /// The entry's name, case preserved.
    pub name: String,
    /// The entry's full path.
    pub path: String,
    /// What the entry is.
    pub kind: EntryKind,
}

/// What a `DirEntry` holds, as text.
pub struct EntryView {
    pub name: Seq<char>,
    pub path: Seq<char>,
    pub kind: EntryKind,
}

impl View for DirEntry {
    type V = EntryView;

    open spec fn view(&self) -> EntryView {
        EntryView { name: self.name@, path: self.path@, kind: self.kind }
    }
}

impl Clone for DirEntry {
    /// A copy with the same name, path and kind.
    fn clone(&self) -> (copy: DirEntry)
        ensures
            copy@ == self@,
    {
        DirEntry { name: self.name.clone(), path: self.path.clone(), kind: self.kind }
    }
}

/// The views of a sequence of entries, in order.
pub open spec fn entries_view(entries: Seq<DirEntry>) -> Seq<EntryView> {
    entries.map_values(|e: DirEntry| e@)
}

/// A directory with one more file: the file joins `files` and its
/// lower-cased name joins `tokens`.
pub open spec fn add_file(node: TreeView, entry: EntryView) -> TreeView {
    TreeView {
        files: node.files.push(FileView { name: entry.name, path: entry.path }),
        subdirs: node.subdirs,
        tokens: node.tokens.push(ascii_lower(entry.name)),
    }
}

/// A directory with one more subdirectory: the child joins `subdirs` and
/// all of its tokens, in order, join `tokens`.
pub open spec fn add_subdir(node: TreeView, child: TreeView) -> TreeView {
    TreeView {
        files: node.files,
        subdirs: node.subdirs.push(child),
        tokens: node.tokens + child.tokens,
    }
}

/// How far a directory's entries can be taken in without a further read.
pub enum Scan {
    /// Every entry was taken in: the directory is complete.
    Finished(TreeView),
    /// A visible subdirectory was met: it has to be read before `rest`.
    Descend { node: TreeView, path: Seq<char>, rest: Seq<EntryView> },
}

/// Takes entries into `node` from the front of `pending`: hidden entries and
/// entries that are neither file nor directory are skipped, files are
/// added, and the first visible directory stops the scan.
pub open spec fn scan(node: TreeView, pending: Seq<EntryView>) -> Scan
    decreases pending.len(),
{
    if pending.len() == 0 {
        Scan::Finished(node)
    } else {
        let entry = pending.first();
        let rest = pending.drop_first();
        if hidden_path(entry.path) {
            scan(node, rest)
        } else {
            match entry.kind {
                EntryKind::File => scan(add_file(node, entry), rest),
                EntryKind::Directory => Scan::Descend { node, path: entry.path, rest },
                EntryKind::Other => scan(node, rest),
            }
        }
    }
}

/// A directory that is being assembled: the node so far and the entries
/// that are still to be taken in.
pub struct FrameView {
    pub node: TreeView,
    pub pending: Seq<EntryView>,
}

/// What the builder reports after each step.
pub enum StepView {
    /// The directory at `path` has to be read next; `stack` is the state to
    /// resume from, outermost directory first.
    Read { path: Seq<char>, stack: Seq<FrameView> },
    /// The walk is over and this is the tree.
    Done(TreeView),
}

/// Goes on with a directory whose node so far is `node` and whose entries
/// still to be taken in are `pending`, below the directories of `stack`:
/// the scan either meets a subdirectory to read, or completes the directory
/// and hands it to its parent.
pub open spec fn enter(stack: Seq<FrameView>, node: TreeView, pending: Seq<EntryView>) -> StepView
    decreases stack.len(), 1nat,
{
    match scan(node, pending) {
        Scan::Descend { node, path, rest } => StepView::Read {
            path,
            stack: stack.push(FrameView { node, pending: rest }),
        },
        Scan::Finished(done) => unwind(stack, done),
    }
}

/// Hands a completed directory to its parent, the innermost directory of
/// `stack`, and goes on with the parent; with no parent left, the completed
/// directory is the result.
pub open spec fn unwind(stack: Seq<FrameView>, done: TreeView) -> StepView
    decreases stack.len(), 0nat,
{
    if stack.len() == 0 {
        StepView::Done(done)
    } else {
        let parent = stack.last();
        enter(stack.drop_last(), add_subdir(parent.node, done), parent.pending)
    }
}

/// The first step of a walk rooted at `root`: a hidden root gives the empty
/// tree at once, any other root is to be read.
pub open spec fn first_step(root: Seq<char>) -> StepView {
    if hidden_path(root) {
        StepView::Done(empty_tree())
    } else {
        StepView::Read { path: root, stack: Seq::empty() }
    }
}

/// The step after a read was answered: a directory that could not be read
/// counts as an empty one; one that was read is entered with its entries.
pub open spec fn step_after(stack: Seq<FrameView>, listing: Option<Seq<EntryView>>) -> StepView {
    match listing {
        Some(entries) => enter(stack, empty_tree(), entries),
        None => unwind(stack, empty_tree()),
    }
}

/// No file at or below the directory has a hidden path.
pub open spec fn no_hidden_file(t: TreeView) -> bool {
    forall|i: int|
        0 <= i < subtree_files(t).len() ==> !hidden_path((#[trigger] subtree_files(t)[i]).path)
}

/// What every tree of the builder keeps: the token invariant, and no file
/// with a hidden path.
pub open spec fn sound_tree(t: TreeView) -> bool {
    well_formed(t) && no_hidden_file(t)
}

/// Every directory of the stack is sound so far.
pub open spec fn sound_stack(stack: Seq<FrameView>) -> bool {
    forall|i: int| 0 <= i < stack.len() ==> sound_tree((#[trigger] stack[i]).node)
}

/// A step is sound when the tree it reports is, or when the path it asks
/// for is not hidden and the state it resumes from is sound.
pub open spec fn sound_step(step: StepView) -> bool {
    match step {
        StepView::Done(tree) => sound_tree(tree),
        StepView::Read { path, stack } => !hidden_path(path) && sound_stack(stack),
    }
}

/// Adding a file whose path is not hidden keeps a tree sound.
pub proof fn lemma_add_file_sound(node: TreeView, entry: EntryView)
    requires
        sound_tree(node),
        !hidden_path(entry.path),
    ensures
        sound_tree(add_file(node, entry)),
{
    broadcast use vstd::multiset::group_multiset_axioms;

    let grown = add_file(node, entry);
    let file = FileView { name: entry.name, path: entry.path };
    let token = ascii_lower(entry.name);
    let below = forest_files(node.subdirs);
    let own = node.files.map_values(|f: FileView| token_of(f));
    let rest = below.map_values(|f: FileView| token_of(f));
    assert(subtree_files(grown) == node.files.push(file) + below);
    assert(subtree_tokens(node) =~= own + rest);
    assert(subtree_tokens(grown) =~= own.push(token) + rest);
    lemma_multiset_commutative(own, rest);
    lemma_multiset_commutative(own.push(token), rest);
    own.to_multiset_ensures();
    node.tokens.to_multiset_ensures();
    assert(grown.tokens.to_multiset() =~= subtree_tokens(grown).to_multiset());
    assert forall|i: int| 0 <= i < subtree_files(grown).len() implies !hidden_path(
        (#[trigger] subtree_files(grown)[i]).path,
    ) by {
        if i < node.files.len() {
            assert(subtree_files(grown)[i] == subtree_files(node)[i]);
        } else if i > node.files.len() {
            assert(subtree_files(grown)[i] == subtree_files(node)[i - 1]);
        }
    }
}

/// Adding a sound subdirectory keeps a tree sound.
pub proof fn lemma_add_subdir_sound(node: TreeView, child: TreeView)
    requires
        sound_tree(node),
        sound_tree(child),
    ensures
        sound_tree(add_subdir(node, child)),
{
    broadcast use vstd::multiset::group_multiset_axioms;

    let grown = add_subdir(node, child);
    assert(grown.subdirs.drop_last() =~= node.subdirs);
    assert(forest_files(grown.subdirs) == forest_files(node.subdirs) + subtree_files(child));
    assert(subtree_files(grown) =~= subtree_files(node) + subtree_files(child));
    assert(subtree_tokens(grown) =~= subtree_tokens(node) + subtree_tokens(child));
    lemma_multiset_commutative(subtree_tokens(node), subtree_tokens(child));
    lemma_multiset_commutative(node.tokens, child.tokens);
    assert(grown.tokens.to_multiset() =~= subtree_tokens(grown).to_multiset());
    assert forall|i: int| 0 <= i < grown.subdirs.len() implies well_formed(
        #[trigger] grown.subdirs[i],
    ) by {
        if i < node.subdirs.len() {
            assert(grown.subdirs[i] == node.subdirs[i]);
        }
    }
    assert forall|i: int| 0 <= i < subtree_files(grown).len() implies !hidden_path(
        (#[trigger] subtree_files(grown)[i]).path,
    ) by {
        if i < subtree_files(node).len() {
            assert(subtree_files(grown)[i] == subtree_files(node)[i]);
        } else {
            assert(subtree_files(grown)[i] == subtree_files(child)[i - subtree_files(node).len()]);
        }
    }
}

/// A scan that starts from a sound tree ends with one, and stops only at a
/// path that is not hidden.
pub proof fn lemma_scan_sound(node: TreeView, pending: Seq<EntryView>)
    requires
        sound_tree(node),
    ensures
        match scan(node, pending) {
            Scan::Finished(done) => sound_tree(done),
            Scan::Descend { node, path, rest } => sound_tree(node) && !hidden_path(path),
        },
    decreases pending.len(),
{
    if pending.len() > 0 {
        let entry = pending.first();
        let rest = pending.drop_first();
        if hidden_path(entry.path) {
            lemma_scan_sound(node, rest);
        } else {
            match entry.kind {
                EntryKind::File => {
                    lemma_add_file_sound(node, entry);
                    lemma_scan_sound(add_file(node, entry), rest);
                },
                EntryKind::Directory => {},
                EntryKind::Other => {
                    lemma_scan_sound(node, rest);
                },
            }
        }
    }
}

/// Entering a directory from a sound state gives a sound step.
pub proof fn lemma_enter_sound(stack: Seq<FrameView>, node: TreeView, pending: Seq<EntryView>)
    requires
        sound_stack(stack),
        sound_tree(node),
    ensures
        sound_step(enter(stack, node, pending)),
    decreases stack.len(), 1nat,
{
    lemma_scan_sound(node, pending);
    match scan(node, pending) {
        Scan::Descend { node, path, rest } => {
            let grown = stack.push(FrameView { node, pending: rest });
            assert forall|i: int| 0 <= i < grown.len() implies sound_tree(
                (#[trigger] grown[i]).node,
            ) by {
                if i < stack.len() {
                    assert(grown[i] == stack[i]);
                }
            }
        },
        Scan::Finished(done) => {
            lemma_unwind_sound(stack, done);
        },
    }
}

/// Handing a sound directory up a sound stack gives a sound step.
pub proof fn lemma_unwind_sound(stack: Seq<FrameView>, done: TreeView)
    requires
        sound_stack(stack),
        sound_tree(done),
    ensures
        sound_step(unwind(stack, done)),
    decreases stack.len(), 0nat,
{
    if stack.len() > 0 {
        let parent = stack.last();
        let above = stack.drop_last();
        assert(sound_tree(stack[stack.len() - 1].node));
        assert forall|i: int| 0 <= i < above.len() implies sound_tree(
            (#[trigger] above[i]).node,
        ) by {
            assert(above[i] == stack[i]);
        }
        lemma_add_subdir_sound(parent.node, done);
        lemma_enter_sound(above, add_subdir(parent.node, done), parent.pending);
    }
}

/// A sound stack with one more sound directory is sound.
pub proof fn lemma_push_sound(stack: Seq<FrameView>, frame: FrameView)
    requires
        sound_stack(stack),
        sound_tree(frame.node),
    ensures
        sound_stack(stack.push(frame)),
{
    let grown = stack.push(frame);
    assert forall|i: int| 0 <= i < grown.len() implies sound_tree((#[trigger] grown[i]).node) by {
        if i < stack.len() {
            assert(grown[i] == stack[i]);
        }
    }
}

/// The first step of every walk is sound.
pub proof fn lemma_start_sound(root: Seq<char>)
    ensures
        sound_step(first_step(root)),
{
    lemma_empty_tree_sound();
}

/// Every step from a sound state is sound: the tokens of each directory
/// stay complete, no hidden path is asked for, and no file with a hidden
/// path enters the tree.
pub proof fn lemma_feed_sound(stack: Seq<FrameView>, listing: Option<Seq<EntryView>>)
    requires
        sound_stack(stack),
    ensures
        sound_step(step_after(stack, listing)),
{
    lemma_empty_tree_sound();
    match listing {
        Some(entries) => lemma_enter_sound(stack, empty_tree(), entries),
        None => lemma_unwind_sound(stack, empty_tree()),
    }
}

/// The empty tree is sound.
pub proof fn lemma_empty_tree_sound()
    ensures
        sound_tree(empty_tree()),
{
    lemma_empty_tree_well_formed();
}

/// Hidden exclusion: on a sound tree, no search for any query gives a
/// hidden path.
pub proof fn lemma_search_gives_no_hidden_path(t: TreeView, query: Seq<char>, i: int)
    requires
        sound_tree(t),
        0 <= i < search_result(t, query).len(),
    ensures
        !hidden_path(search_result(t, query)[i]),
{
    let q = ascii_lower(query);
    lemma_pruning_sound(t, q);
    let files = subtree_files(t);
    lemma_matching_paths_come_from_files(files, q, i);
    let k = choose|k: int|
        0 <= k < files.len() && name_matches(#[trigger] files[k], q) && files[k].path
            == matching_paths(files, q)[i];
    assert(!hidden_path(subtree_files(t)[k].path));
}

/// A directory on the builder's stack.
pub struct Frame {
    node: DirNode,
    entries: Vec<DirEntry>,
    next: usize,
}

impl Frame {
    #[verifier::type_invariant]
    spec fn in_bounds(&self) -> bool {
        self.next <= self.entries@.len()
    }
}

impl View for Frame {
    type V = FrameView;

    closed spec fn view(&self) -> FrameView {
        FrameView { node: self.node@, pending: entries_view(self.entries@.skip(self.next as int)) }
    }
}

/// The views of the frames of a stack, outermost first.
pub open spec fn frames_view(frames: Seq<Frame>) -> Seq<FrameView> {
    frames.map_values(|f: Frame| f@)
}

/// The state of a walk between two reads: the directories entered and not
/// yet completed, outermost first.
pub struct TreeBuilder {
    stack: Vec<Frame>,
}

impl TreeBuilder {
    #[verifier::type_invariant]
    spec fn sound(&self) -> bool {
        sound_stack(frames_view(self.stack@))
    }
}

impl View for TreeBuilder {
    type V = Seq<FrameView>;

    closed spec fn view(&self) -> Seq<FrameView> {
        frames_view(self.stack@)
    }
}

/// What the caller has to do next.
pub enum BuildStep {
    /// Read the directory at `path` and feed the answer to `builder`.
    Read { path: String, builder: TreeBuilder },
    /// The walk is over and this is the tree.
    Done(DirNode),
}

impl View for BuildStep {
    type V = StepView;

    open spec fn view(&self) -> StepView {
        match self {
            BuildStep::Read { path, builder } => StepView::Read { path: path@, stack: builder@ },
            BuildStep::Done(tree) => StepView::Done(tree@),
        }
    }
}

/// The outcome of the executable scan.
enum Scanned {
    Finished(DirNode),
    Descend { frame: Frame, path: String },
}

/// Adds the file that `entry` describes to `node`.
fn with_file(node: DirNode, entry: &DirEntry) -> (grown: DirNode)
    ensures
        grown@ == add_file(node@, entry@),
{
    let mut node = node;
    let ghost before = node@;
    node.tokens.push(to_ascii_lowercase(entry.name.as_str()));
    node.files.push(FileNode { name: entry.name.clone(), path: entry.path.clone() });
    proof {
        let after = add_file(before, entry@);
        assert(node@.files =~= after.files);
        assert(node@.tokens =~= after.tokens);
        assert(node@.subdirs == after.subdirs);
    }
    node
}

/// Adds the completed directory `child` to `node`.
fn with_subdir(node: DirNode, child: DirNode) -> (grown: DirNode)
    ensures
        grown@ == add_subdir(node@, child@),
{
    let mut node = node;
    let ghost before = node@;
    let ghost dirs = node.subdirs@;
    append_copies(&mut node.tokens, &child.tokens);
    let ghost child_view = child@;
    node.subdirs.push(child);
    proof {
        let after = add_subdir(before, child_view);
        assert(node.subdirs@.drop_last() =~= dirs);
        assert(node@.subdirs =~= after.subdirs);
        assert(node@.tokens =~= after.tokens);
        assert(node@.files == after.files);
    }
    node
}

/// Takes the entries of `entries` from index `start` on into `node`, up to
/// the first visible subdirectory.
fn scan_entries(node: DirNode, entries: Vec<DirEntry>, start: usize) -> (scanned: Scanned)
    requires
        start <= entries.len(),
    ensures
        match scanned {
            Scanned::Finished(done) => scan(node@, entries_view(entries@.skip(start as int)))
                == Scan::Finished(done@),
            Scanned::Descend { frame, path } => scan(
                node@,
                entries_view(entries@.skip(start as int)),
            ) == (Scan::Descend { node: frame@.node, path: path@, rest: frame@.pending }),
        },
{
    let ghost goal = scan(node@, entries_view(entries@.skip(start as int)));
    let mut acc = node;
    let mut next: usize = start;
    while next < entries.len()
        invariant
            next <= entries.len(),
            goal == scan(node@, entries_view(entries@.skip(start as int))),
            scan(acc@, entries_view(entries@.skip(next as int))) == goal,
        decreases entries.len() - next,
    {
        let ghost pending = entries_view(entries@.skip(next as int));
        proof {
            assert(pending.first() == entries@[next as int]@);
            assert(pending.drop_first() =~= entries_view(entries@.skip(next + 1)));
        }
        if !is_hidden_path(entries[next].path.as_str()) {
            match entries[next].kind {
                EntryKind::File => {
                    acc = with_file(acc, &entries[next]);
                },
                EntryKind::Directory => {
                    let path = entries[next].path.clone();
                    let frame = Frame { node: acc, entries, next: next + 1 };
                    return Scanned::Descend { frame, path };
                },
                EntryKind::Other => {},
            }
        }
        next += 1;
    }
    Scanned::Finished(acc)
}

/// Hands the completed directory `done` up the stack until a directory has
/// to be read or the outermost directory is complete.
fn finish(stack: Vec<Frame>, done: DirNode) -> (step: BuildStep)
    requires
        sound_stack(frames_view(stack@)),
        sound_tree(done@),
    ensures
        step@ == unwind(frames_view(stack@), done@),
{
    let ghost goal = unwind(frames_view(stack@), done@);
    let mut frames = stack;
    let mut child = done;
    loop
        invariant
            goal == unwind(frames_view(stack@), done@),
            unwind(frames_view(frames@), child@) == goal,
            sound_stack(frames_view(frames@)),
            sound_tree(child@),
        decreases frames.len(),
    {
        let ghost above = frames_view(frames@);
        match frames.pop() {
            None => {
                return BuildStep::Done(child);
            },
            Some(parent) => {
                proof {
                    use_type_invariant(&parent);
                    assert(above.last() == parent@);
                    assert(above.drop_last() =~= frames_view(frames@));
                    assert(sound_tree(above[above.len() - 1].node));
                    assert forall|i: int| 0 <= i < frames@.len() implies sound_tree(
                        (#[trigger] frames_view(frames@)[i]).node,
                    ) by {
                        assert(frames_view(frames@)[i] == above[i]);
                    }
                    lemma_add_subdir_sound(parent@.node, child@);
                    lemma_scan_sound(add_subdir(parent@.node, child@), parent@.pending);
                }
                let Frame { node, entries, next } = parent;
                let grown = with_subdir(node, child);
                match scan_entries(grown, entries, next) {
                    Scanned::Descend { frame, path } => {
                        let ghost below = frames_view(frames@);
                        frames.push(frame);
                        proof {
                            assert(frames_view(frames@) =~= below.push(frame@));
                            lemma_push_sound(below, frame@);
                        }
                        return BuildStep::Read { path, builder: TreeBuilder { stack: frames } };
                    },
                    Scanned::Finished(complete) => {
                        child = complete;
                    },
                }
            },
        }
    }
}

/// What a listing holds, as text; `None` for a directory that could not be
/// read.
pub open spec fn listing_view(listing: Option<Vec<DirEntry>>) -> Option<Seq<EntryView>> {
    match listing {
        Some(entries) => Some(entries_view(entries@)),
        None => None,
    }
}

/// Begins a walk rooted at `root`. A hidden root is never read: its tree is
/// empty. For any other root the caller is asked to read it.
pub fn build_tree(root: String) -> (step: BuildStep)
    ensures
        step@ == first_step(root@),
        sound_step(step@),
{
    proof {
        lemma_start_sound(root@);
    }
    if is_hidden_path(root.as_str()) {
        BuildStep::Done(DirNode::empty())
    } else {
        let builder = TreeBuilder { stack: Vec::new() };
        assert(builder@ =~= Seq::<FrameView>::empty());
        BuildStep::Read { path: root, builder }
    }
}

impl TreeBuilder {
    /// Takes the answer to the last read, `None` where the directory could
    /// not be read, and walks on: through the entries of the directory just
    /// read and, as directories complete, through what is left of their
    /// parents, until another directory has to be read or the walk is over.
    /// The tree that a walk ends with keeps the token invariant and holds no
    /// file with a hidden path, and no hidden path is ever asked for.
    pub fn feed(self, listing: Option<Vec<DirEntry>>) -> (step: BuildStep)
        ensures
            step@ == step_after(self@, listing_view(listing)),
            sound_step(step@),
    {
        proof {
            use_type_invariant(&self);
            lemma_feed_sound(self@, listing_view(listing));
            lemma_empty_tree_sound();
        }
        match listing {
            Some(entries) => {
                assert(entries@.skip(0) =~= entries@);
                proof {
                    lemma_scan_sound(empty_tree(), entries_view(entries@));
                }
                match scan_entries(DirNode::empty(), entries, 0) {
                    Scanned::Descend { frame, path } => {
                        let mut frames = self.stack;
                        let ghost below = frames_view(frames@);
                        frames.push(frame);
                        proof {
                            assert(frames_view(frames@) =~= below.push(frame@));
                            lemma_push_sound(below, frame@);
                        }
                        BuildStep::Read { path, builder: TreeBuilder { stack: frames } }
                    },
                    Scanned::Finished(complete) => finish(self.stack, complete),
                }
            },
            None => finish(self.stack, DirNode::empty()),
        }
    }
}

} // verus!
