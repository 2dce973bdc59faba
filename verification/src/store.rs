//! The index store: one cell that is empty until a built tree is installed
//! and holds the last installed tree from then on.

use vstd::prelude::*;
use crate::search::{search_result, search_tree, texts};
use crate::tree::{DirNode, TreeView};

verus! {

/// The cell that holds the current index, if one was built.
pub struct AppState {
    /// The installed tree; `None` until the first build completes.
    pub tree: Option<DirNode>,
}

impl View for AppState {
    type V = Option<TreeView>;

    open spec fn view(&self) -> Option<TreeView> {
        match self.tree {
            Some(tree) => Some(tree@),
            None => None,
        }
    }
}

/// What a search gives on a cell: nothing while the cell is empty, the
/// search result on the installed tree otherwise.
pub open spec fn index_search(slot: Option<TreeView>, query: Seq<char>) -> Seq<Seq<char>> {
    match slot {
        Some(tree) => search_result(tree, query),
        None => Seq::empty(),
    }
}

/// The cell after `tree` was installed into it: it holds `tree`, whatever it
/// held before.
pub open spec fn installed(slot: Option<TreeView>, tree: TreeView) -> Option<TreeView> {
    Some(tree)
}

/// The cell after the trees of `trees` were installed one after the other.
pub open spec fn after_installs(slot: Option<TreeView>, trees: Seq<TreeView>) -> Option<TreeView>
    decreases trees.len(),
{
    if trees.len() == 0 {
        slot
    } else {
        installed(after_installs(slot, trees.drop_last()), trees.last())
    }
}

impl AppState {
    /// Whether a tree is installed.
    pub open spec fn is_ready(&self) -> bool {
        self@ is Some
    }

    /// The empty cell.
    pub fn new() -> (state: AppState)
        ensures
            state@ is None,
    {
        AppState { tree: None }
    }

    /// Puts `tree` into the cell, in place of whatever it held.
    pub fn install(&mut self, tree: DirNode)
        ensures
            final(self)@ == installed(old(self)@, tree@),
    {
        self.tree = Some(tree);
    }
}

/// Whether an index is installed.
pub fn is_index_done(state: &AppState) -> (done: bool)
    ensures
        done == state.is_ready(),
{
    state.tree.is_some()
}

/// Searches the installed index for the files whose names contain `query`,
/// case-insensitively, and gives their paths. While no index is installed
/// the result is empty.
pub fn search_index(query: String, state: &AppState) -> (results: Vec<String>)
    ensures
        texts(results@) == index_search(state@, query@),
{
    let mut results: Vec<String> = Vec::new();
    assert(texts(results@) =~= Seq::<Seq<char>>::empty());
    match &state.tree {
        Some(tree) => {
            search_tree(tree, query.as_str(), &mut results);
            assert(texts(results@) =~= index_search(state@, query@));
        },
        None => {},
    }
    results
}

/// Readiness is monotone: a cell that holds a tree still holds one after
/// any number of further installs, and after at least one install the cell
/// holds the tree installed last.
pub proof fn lemma_ready_stays_ready(slot: Option<TreeView>, trees: Seq<TreeView>)
    ensures
        slot is Some ==> after_installs(slot, trees) is Some,
        trees.len() > 0 ==> after_installs(slot, trees) == Some(trees.last()),
{
}

} // verus!
