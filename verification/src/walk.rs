//! What a whole walk builds: the tree of a directory stated by recursion on
//! what the disk holds, and the proof that the builder, fed from the same
//! disk, ends with that tree.

use vstd::prelude::*;
use crate::builder::{
    add_file, add_subdir, enter, first_step, lemma_add_file_sound, lemma_add_subdir_sound,
    lemma_empty_tree_sound, sound_tree, step_after, unwind, EntryKind, EntryView, FrameView,
    StepView,
};
use crate::hidden::hidden_path;
use crate::search::{lemma_tokens_complete, may_match};
use crate::tree::{empty_tree, subtree_files, token_of, TreeView};

verus! {

/// The disk as a walk sees it: for each path, the entries that reading the
/// directory there gives, or `None` where it cannot be read.
pub type Disk = spec_fn(Seq<char>) -> Option<Seq<EntryView>>;

/// The tree of the directory at `path`, walked at most `depth` levels down:
/// empty where the directory cannot be read, grown from its entries
/// otherwise.
pub open spec fn tree_at(disk: Disk, path: Seq<char>, depth: nat) -> TreeView
    decreases depth, 1nat, 0nat,
{
    match disk(path) {
        Some(entries) => grow_at(disk, empty_tree(), entries, depth),
        None => empty_tree(),
    }
}

/// `node` after the entries of `entries` were taken in, in order: a hidden
/// entry and one that is neither file nor directory change nothing, a file
/// is added, and a directory is added with its own tree.
pub open spec fn grow_at(disk: Disk, node: TreeView, entries: Seq<EntryView>, depth: nat) -> TreeView
    decreases depth, 0nat, entries.len(),
{
    if entries.len() == 0 {
        node
    } else {
        let entry = entries.first();
        let rest = entries.drop_first();
        if hidden_path(entry.path) {
            grow_at(disk, node, rest, depth)
        } else {
            match entry.kind {
                EntryKind::File => grow_at(disk, add_file(node, entry), rest, depth),
                EntryKind::Directory => {
                    let child = if depth == 0 {
                        empty_tree()
                    } else {
                        tree_at(disk, entry.path, (depth - 1) as nat)
                    };
                    grow_at(disk, add_subdir(node, child), rest, depth)
                },
                EntryKind::Other => grow_at(disk, node, rest, depth),
            }
        }
    }
}

/// The tree that a walk rooted at `root` is to build: empty for a hidden
/// root, the tree of the directory otherwise.
pub open spec fn built(disk: Disk, root: Seq<char>, depth: nat) -> TreeView {
    if hidden_path(root) {
        empty_tree()
    } else {
        tree_at(disk, root, depth)
    }
}

/// The directories that a walk from `path` enters lie at most `depth`
/// levels below it.
pub open spec fn bounded(disk: Disk, path: Seq<char>, depth: nat) -> bool
    decreases depth, 1nat,
{
    match disk(path) {
        Some(entries) => entries_bounded(disk, entries, depth),
        None => true,
    }
}

/// Each visible directory among `entries` can be walked within `depth - 1`
/// levels.
pub open spec fn entries_bounded(disk: Disk, entries: Seq<EntryView>, depth: nat) -> bool
    decreases depth, 0nat,
{
    forall|i: int|
        0 <= i < entries.len() && !hidden_path((#[trigger] entries[i]).path) && entries[i].kind
            == EntryKind::Directory ==> depth > 0 && bounded(
            disk,
            entries[i].path,
            (depth - 1) as nat,
        )
}

/// Where a walk stands after at most `fuel` reads, each answered by `disk`:
/// the tree it ended with, or `None` if it is still asking.
pub open spec fn walk(step: StepView, disk: Disk, fuel: nat) -> Option<TreeView>
    decreases fuel,
{
    match step {
        StepView::Done(tree) => Some(tree),
        StepView::Read { path, stack } => if fuel == 0 {
            None
        } else {
            walk(step_after(stack, disk(path)), disk, (fuel - 1) as nat)
        },
    }
}

/// Entering a directory and walking on for long enough is handing the
/// grown directory to its parent: with `more` reads to spare afterwards,
/// the walk that enters `node` with `entries` needs `reads` further reads to
/// stand where the walk that hands up `grow_at(disk, node, entries, depth)`
/// stands.
pub proof fn lemma_enter_grows(
    disk: Disk,
    stack: Seq<FrameView>,
    node: TreeView,
    entries: Seq<EntryView>,
    depth: nat,
    more: nat,
) -> (reads: nat)
    requires
        entries_bounded(disk, entries, depth),
    ensures
        walk(enter(stack, node, entries), disk, reads + more) == walk(
            unwind(stack, grow_at(disk, node, entries, depth)),
            disk,
            more,
        ),
    decreases depth, entries.len(),
{
    if entries.len() == 0 {
        0
    } else {
        let entry = entries.first();
        let rest = entries.drop_first();
        assert forall|i: int|
            0 <= i < rest.len() && !hidden_path((#[trigger] rest[i]).path) && rest[i].kind
                == EntryKind::Directory implies depth > 0 && bounded(
            disk,
            rest[i].path,
            (depth - 1) as nat,
        ) by {
            assert(rest[i] == entries[i + 1]);
        }
        if hidden_path(entry.path) {
            lemma_enter_grows(disk, stack, node, rest, depth, more)
        } else {
            match entry.kind {
                EntryKind::File => lemma_enter_grows(
                    disk,
                    stack,
                    add_file(node, entry),
                    rest,
                    depth,
                    more,
                ),
                EntryKind::Other => lemma_enter_grows(disk, stack, node, rest, depth, more),
                EntryKind::Directory => {
                    assert(entries[0] == entry);
                    assert(depth > 0 && bounded(disk, entry.path, (depth - 1) as nat));
                    let below = (depth - 1) as nat;
                    let child = tree_at(disk, entry.path, below);
                    let deeper = stack.push(FrameView { node, pending: rest });
                    assert(deeper.drop_last() =~= stack);
                    assert(deeper.last() == FrameView { node, pending: rest });
                    assert(unwind(deeper, child) == enter(stack, add_subdir(node, child), rest));
                    let after = lemma_enter_grows(
                        disk,
                        stack,
                        add_subdir(node, child),
                        rest,
                        depth,
                        more,
                    );
                    let inside = match disk(entry.path) {
                        Some(found) => lemma_enter_grows(
                            disk,
                            deeper,
                            empty_tree(),
                            found,
                            below,
                            after + more,
                        ),
                        None => 0,
                    };
                    assert(walk(step_after(deeper, disk(entry.path)), disk, inside + after + more)
                        == walk(unwind(deeper, child), disk, after + more));
                    assert(enter(stack, node, entries) == StepView::Read {
                        path: entry.path,
                        stack: deeper,
                    });
                    let reads = 1 + inside + after;
                    assert(walk(enter(stack, node, entries), disk, reads + more) == walk(
                        step_after(deeper, disk(entry.path)),
                        disk,
                        (reads + more - 1) as nat,
                    ));
                    reads
                },
            }
        }
    }
}

/// A walk builds the tree of its root: where the directories below `root`
/// lie at most `depth` levels deep, a walk rooted at `root` and answered by
/// `disk` ends after finitely many reads, and the tree it ends with is the
/// one that `built` states.
pub proof fn lemma_walk_builds_tree(disk: Disk, root: Seq<char>, depth: nat) -> (reads: nat)
    requires
        bounded(disk, root, depth),
    ensures
        walk(first_step(root), disk, reads) == Some(built(disk, root, depth)),
{
    if hidden_path(root) {
        0
    } else {
        let empty = Seq::<FrameView>::empty();
        match disk(root) {
            Some(entries) => {
                let inside = lemma_enter_grows(disk, empty, empty_tree(), entries, depth, 0);
                assert(walk(first_step(root), disk, 1 + inside) == walk(
                    step_after(empty, disk(root)),
                    disk,
                    inside,
                ));
                1 + inside
            },
            None => {
                assert(walk(first_step(root), disk, 1) == walk(
                    step_after(empty, disk(root)),
                    disk,
                    0,
                ));
                1
            },
        }
    }
}

/// Two disks hold the same outside hidden paths.
pub open spec fn same_outside_hidden(a: Disk, b: Disk) -> bool {
    forall|path: Seq<char>| !hidden_path(path) ==> #[trigger] a(path) == b(path)
}

/// The entries that are not hidden, in order.
pub open spec fn visible_entries(entries: Seq<EntryView>) -> Seq<EntryView> {
    entries.filter(|e: EntryView| !hidden_path(e.path))
}

/// What lies at a hidden path does not reach the tree of a visible
/// directory: disks that differ only there give the same tree.
pub proof fn lemma_tree_ignores_hidden_paths(a: Disk, b: Disk, path: Seq<char>, depth: nat)
    requires
        same_outside_hidden(a, b),
        !hidden_path(path),
    ensures
        tree_at(a, path, depth) == tree_at(b, path, depth),
    decreases depth, 1nat, 0nat,
{
    assert(a(path) == b(path));
    match a(path) {
        Some(entries) => lemma_grow_ignores_hidden_paths(a, b, empty_tree(), entries, depth),
        None => {},
    }
}

/// Disks that differ only at hidden paths grow a directory alike.
pub proof fn lemma_grow_ignores_hidden_paths(
    a: Disk,
    b: Disk,
    node: TreeView,
    entries: Seq<EntryView>,
    depth: nat,
)
    requires
        same_outside_hidden(a, b),
    ensures
        grow_at(a, node, entries, depth) == grow_at(b, node, entries, depth),
    decreases depth, 0nat, entries.len(),
{
    if entries.len() > 0 {
        let entry = entries.first();
        let rest = entries.drop_first();
        if hidden_path(entry.path) {
            lemma_grow_ignores_hidden_paths(a, b, node, rest, depth);
        } else {
            match entry.kind {
                EntryKind::File => lemma_grow_ignores_hidden_paths(
                    a,
                    b,
                    add_file(node, entry),
                    rest,
                    depth,
                ),
                EntryKind::Other => lemma_grow_ignores_hidden_paths(a, b, node, rest, depth),
                EntryKind::Directory => {
                    if depth > 0 {
                        lemma_tree_ignores_hidden_paths(a, b, entry.path, (depth - 1) as nat);
                    }
                    let child = if depth == 0 {
                        empty_tree()
                    } else {
                        tree_at(a, entry.path, (depth - 1) as nat)
                    };
                    lemma_grow_ignores_hidden_paths(a, b, add_subdir(node, child), rest, depth);
                },
            }
        }
    }
}

/// Hidden exclusion for a whole walk: the tree that is built does not
/// depend on what the disk holds at hidden paths, the root included.
pub proof fn lemma_built_ignores_hidden_paths(a: Disk, b: Disk, root: Seq<char>, depth: nat)
    requires
        same_outside_hidden(a, b),
    ensures
        built(a, root, depth) == built(b, root, depth),
{
    if !hidden_path(root) {
        lemma_tree_ignores_hidden_paths(a, b, root, depth);
    }
}

/// Hidden entries contribute nothing: a directory grows as it would from
/// its visible entries alone.
pub proof fn lemma_grow_skips_hidden_entries(
    disk: Disk,
    node: TreeView,
    entries: Seq<EntryView>,
    depth: nat,
)
    ensures
        grow_at(disk, node, entries, depth) == grow_at(
            disk,
            node,
            visible_entries(entries),
            depth,
        ),
    decreases entries.len(),
{
    let keep = |e: EntryView| !hidden_path(e.path);
    if entries.len() == 0 {
        assert(visible_entries(entries) =~= entries) by {
            reveal(Seq::filter);
        }
    } else {
        let entry = entries.first();
        let rest = entries.drop_first();
        assert(entries =~= seq![entry] + rest);
        Seq::filter_distributes_over_add(seq![entry], rest, keep);
        assert(seq![entry].filter(keep) =~= if keep(entry) {
            seq![entry]
        } else {
            Seq::empty()
        }) by {
            reveal_with_fuel(Seq::filter, 2);
            assert(seq![entry].drop_last() =~= Seq::<EntryView>::empty());
        }
        if hidden_path(entry.path) {
            assert(visible_entries(entries) =~= visible_entries(rest));
            lemma_grow_skips_hidden_entries(disk, node, rest, depth);
        } else {
            let kept = visible_entries(entries);
            assert(kept =~= seq![entry] + visible_entries(rest));
            assert(kept.first() == entry);
            assert(kept.drop_first() =~= visible_entries(rest));
            match entry.kind {
                EntryKind::File => lemma_grow_skips_hidden_entries(
                    disk,
                    add_file(node, entry),
                    rest,
                    depth,
                ),
                EntryKind::Other => lemma_grow_skips_hidden_entries(disk, node, rest, depth),
                EntryKind::Directory => {
                    let child = if depth == 0 {
                        empty_tree()
                    } else {
                        tree_at(disk, entry.path, (depth - 1) as nat)
                    };
                    lemma_grow_skips_hidden_entries(disk, add_subdir(node, child), rest, depth);
                },
            }
        }
    }
}

/// Growing a sound directory gives a sound directory.
pub proof fn lemma_grow_is_sound(disk: Disk, node: TreeView, entries: Seq<EntryView>, depth: nat)
    requires
        sound_tree(node),
    ensures
        sound_tree(grow_at(disk, node, entries, depth)),
    decreases depth, 0nat, entries.len(),
{
    if entries.len() > 0 {
        let entry = entries.first();
        let rest = entries.drop_first();
        if hidden_path(entry.path) {
            lemma_grow_is_sound(disk, node, rest, depth);
        } else {
            match entry.kind {
                EntryKind::File => {
                    lemma_add_file_sound(node, entry);
                    lemma_grow_is_sound(disk, add_file(node, entry), rest, depth);
                },
                EntryKind::Other => lemma_grow_is_sound(disk, node, rest, depth),
                EntryKind::Directory => {
                    let child = if depth == 0 {
                        empty_tree()
                    } else {
                        tree_at(disk, entry.path, (depth - 1) as nat)
                    };
                    if depth > 0 {
                        lemma_tree_is_sound(disk, entry.path, (depth - 1) as nat);
                    } else {
                        lemma_empty_tree_sound();
                    }
                    lemma_add_subdir_sound(node, child);
                    lemma_grow_is_sound(disk, add_subdir(node, child), rest, depth);
                },
            }
        }
    }
}

/// The tree of a directory is sound.
pub proof fn lemma_tree_is_sound(disk: Disk, path: Seq<char>, depth: nat)
    ensures
        sound_tree(tree_at(disk, path, depth)),
    decreases depth, 1nat, 0nat,
{
    lemma_empty_tree_sound();
    match disk(path) {
        Some(entries) => lemma_grow_is_sound(disk, empty_tree(), entries, depth),
        None => {},
    }
}

/// Every built tree is sound: at each of its directories the tokens are
/// those of the files at or below it, and none of its files has a hidden
/// path.
pub proof fn lemma_built_is_sound(disk: Disk, root: Seq<char>, depth: nat)
    ensures
        sound_tree(built(disk, root, depth)),
{
    lemma_empty_tree_sound();
    lemma_tree_is_sound(disk, root, depth);
}

/// Token completeness of built trees: the lower-cased name of every file of
/// a built tree is contained in one of the tokens of its root.
pub proof fn lemma_built_tokens_complete(disk: Disk, root: Seq<char>, depth: nat, i: int)
    requires
        0 <= i < subtree_files(built(disk, root, depth)).len(),
    ensures
        may_match(
            built(disk, root, depth),
            token_of(subtree_files(built(disk, root, depth))[i]),
        ),
{
    lemma_built_is_sound(disk, root, depth);
    lemma_tokens_complete(built(disk, root, depth), i);
}

} // verus!
