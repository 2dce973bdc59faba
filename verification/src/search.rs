//! Substring search over the index tree, pruned by each directory's tokens.

use vstd::prelude::*;
use crate::text::{
    ascii_lower, ascii_upper, contains_text, lemma_empty_is_contained, lemma_lower_idempotent,
    lemma_lower_of_upper, occurs_at, str_contains, to_ascii_lowercase,
};
use crate::tree::{
    forest_files, lemma_forest_view, subtree_files, subtree_tokens, token_of, well_formed, DirNode,
    FileView, TreeView,
};

verus! {

/// A file matches a folded query when its lower-cased name contains it.
pub open spec fn name_matches(f: FileView, q: Seq<char>) -> bool {
    contains_text(ascii_lower(f.name), q)
}

/// The test that keeps the files whose names match `q`.
pub open spec fn name_filter(q: Seq<char>) -> spec_fn(FileView) -> bool {
    |f: FileView| name_matches(f, q)
}

/// The paths of the files among `files` whose names match `q`, in order.
pub open spec fn matching_paths(files: Seq<FileView>, q: Seq<char>) -> Seq<Seq<char>> {
    files.filter(name_filter(q)).map_values(|f: FileView| f.path)
}

/// The pruning test: some token of the directory contains `q`.
pub open spec fn may_match(t: TreeView, q: Seq<char>) -> bool {
    exists|i: int| 0 <= i < t.tokens.len() && contains_text(#[trigger] t.tokens[i], q)
}

/// What the pruned search finds at or below a directory for the folded
/// query `q`: nothing where no token contains `q`; otherwise the paths of
/// the directory's own matching files, then what it finds under each
/// subdirectory in order.
pub open spec fn pruned_matches(t: TreeView, q: Seq<char>) -> Seq<Seq<char>>
    decreases t,
{
    if may_match(t, q) {
        matching_paths(t.files, q) + forest_matches(t.subdirs, q)
    } else {
        Seq::empty()
    }
}

/// What the pruned search finds under each of a sequence of directories,
/// in order.
pub open spec fn forest_matches(ts: Seq<TreeView>, q: Seq<char>) -> Seq<Seq<char>>
    decreases ts,
{
    if ts.len() == 0 {
        Seq::empty()
    } else {
        forest_matches(ts.drop_last(), q) + pruned_matches(ts.last(), q)
    }
}

/// The paths of all files at or below a directory whose names match `q`,
/// in depth-first order: the search without pruning.
pub open spec fn all_matches(t: TreeView, q: Seq<char>) -> Seq<Seq<char>> {
    matching_paths(subtree_files(t), q)
}

/// What a search for `query` gives on a tree: the pruned matches of the
/// query folded to lower case.
pub open spec fn search_result(t: TreeView, query: Seq<char>) -> Seq<Seq<char>> {
    pruned_matches(t, ascii_lower(query))
}

/// The paths of a sequence of files, in order.
pub open spec fn paths_of(files: Seq<FileView>) -> Seq<Seq<char>> {
    files.map_values(|f: FileView| f.path)
}

/// The text of each string of a sequence.
pub open spec fn texts(v: Seq<String>) -> Seq<Seq<char>> {
    v.map_values(|s: String| s@)
}

/// Runs the pruning test on one directory for the folded query `q`.
fn tokens_may_match(node: &DirNode, q: &str) -> (found: bool)
    ensures
        found == may_match(node@, q@),
{
    let mut i: usize = 0;
    while i < node.tokens.len()
        invariant
            i <= node.tokens.len(),
            forall|k: int| 0 <= k < i ==> !contains_text(#[trigger] node@.tokens[k], q@),
        decreases node.tokens.len() - i,
    {
        if str_contains(node.tokens[i].as_str(), q) {
            assert(contains_text(node@.tokens[i as int], q@));
            return true;
        }
        i += 1;
    }
    false
}

/// Appends to `out` what the pruned search finds at or below `node` for the
/// folded query `q`.
fn collect(node: &DirNode, q: &str, out: &mut Vec<String>)
    ensures
        texts(final(out)@) == texts(old(out)@) + pruned_matches(node@, q@),
    decreases node,
{
    let ghost before = texts(out@);
    if !tokens_may_match(node, q) {
        assert(texts(out@) =~= before + pruned_matches(node@, q@));
        return ;
    }
    let mut i: usize = 0;
    while i < node.files.len()
        invariant
            i <= node.files.len(),
            texts(out@) == before + matching_paths(node@.files.take(i as int), q@),
        decreases node.files.len() - i,
    {
        let file = &node.files[i];
        let folded = to_ascii_lowercase(file.name.as_str());
        let hit = str_contains(folded.as_str(), q);
        let ghost seen = node@.files.take(i as int);
        let ghost prior = texts(out@);
        proof {
            assert(node@.files.take(i + 1) =~= seen.push(file@));
            seen.lemma_filter_push(file@, name_filter(q@));
            assert(hit == name_matches(file@, q@));
        }
        if hit {
            out.push(file.path.clone());
            proof {
                assert(texts(out@) =~= prior.push(file@.path));
                seen.filter(name_filter(q@)).lemma_push_map_commute(
                    |f: FileView| f.path,
                    file@,
                );
                assert(matching_paths(seen.push(file@), q@) =~= matching_paths(seen, q@).push(
                    file@.path,
                ));
            }
        }
        i += 1;
    }
    assert(node@.files.take(node@.files.len() as int) =~= node@.files);
    let ghost own = before + matching_paths(node@.files, q@);
    let mut j: usize = 0;
    while j < node.subdirs.len()
        invariant
            j <= node.subdirs.len(),
            texts(out@) == own + forest_matches(node@.subdirs.take(j as int), q@),
        decreases node.subdirs.len() - j,
    {
        proof {
            lemma_forest_view(node.subdirs@);
        }
        collect(&node.subdirs[j], q, out);
        proof {
            assert(node@.subdirs.take(j + 1).drop_last() =~= node@.subdirs.take(j as int));
        }
        j += 1;
    }
    proof {
        lemma_forest_view(node.subdirs@);
        assert(node@.subdirs.take(node@.subdirs.len() as int) =~= node@.subdirs);
        assert(texts(out@) =~= before + pruned_matches(node@, q@));
    }
}

/// Appends to `out` the paths of the files at or below `node` whose names
/// contain `query`, case-insensitively, skipping every directory none of
/// whose tokens contains the folded query. Paths come in depth-first order:
/// a directory's own files, then each subdirectory in turn.
pub fn search_tree(node: &DirNode, query: &str, out: &mut Vec<String>)
    ensures
        texts(final(out)@) == texts(old(out)@) + search_result(node@, query@),
{
    let folded = to_ascii_lowercase(query);
    collect(node, folded.as_str(), out);
}

/// Matching distributes over concatenation.
pub proof fn lemma_matching_paths_concat(a: Seq<FileView>, b: Seq<FileView>, q: Seq<char>)
    ensures
        matching_paths(a + b, q) == matching_paths(a, q) + matching_paths(b, q),
{
    Seq::filter_distributes_over_add(a, b, name_filter(q));
    assert(matching_paths(a + b, q) =~= matching_paths(a, q) + matching_paths(b, q));
}

/// Where no file matches, no path is found.
pub proof fn lemma_matching_paths_none(files: Seq<FileView>, q: Seq<char>)
    requires
        forall|i: int| 0 <= i < files.len() ==> !name_matches(#[trigger] files[i], q),
    ensures
        matching_paths(files, q) == Seq::<Seq<char>>::empty(),
    decreases files.len(),
{
    reveal(Seq::filter);
    if files.len() > 0 {
        lemma_matching_paths_none(files.drop_last(), q);
        assert(!name_matches(files[files.len() - 1], q));
    }
    assert(matching_paths(files, q) =~= Seq::<Seq<char>>::empty());
}

/// Where every file matches, every path is found.
pub proof fn lemma_matching_paths_all(files: Seq<FileView>, q: Seq<char>)
    requires
        forall|i: int| 0 <= i < files.len() ==> name_matches(#[trigger] files[i], q),
    ensures
        matching_paths(files, q) == paths_of(files),
    decreases files.len(),
{
    reveal(Seq::filter);
    if files.len() > 0 {
        let rest = files.drop_last();
        lemma_matching_paths_all(rest, q);
        assert(name_matches(files[files.len() - 1], q));
        assert(rest.filter(name_filter(q)) =~= rest) by {
            lemma_filter_is_identity(rest, q);
        }
        assert(files.filter(name_filter(q)) =~= files);
    } else {
        assert(files.filter(name_filter(q)) =~= files);
    }
}

/// A filter that every file passes keeps the sequence as it is.
proof fn lemma_filter_is_identity(files: Seq<FileView>, q: Seq<char>)
    requires
        forall|i: int| 0 <= i < files.len() ==> name_matches(#[trigger] files[i], q),
    ensures
        files.filter(name_filter(q)) == files,
    decreases files.len(),
{
    reveal(Seq::filter);
    if files.len() > 0 {
        lemma_filter_is_identity(files.drop_last(), q);
        assert(name_matches(files[files.len() - 1], q));
        assert(files.drop_last().push(files.last()) =~= files);
    }
}

/// Token completeness: in a tree that keeps the token invariant, the
/// lower-cased name of every file at or below a directory is one of the
/// directory's tokens, so the pruning test passes for it.
pub proof fn lemma_tokens_complete(t: TreeView, i: int)
    requires
        well_formed(t),
        0 <= i < subtree_files(t).len(),
    ensures
        t.tokens.contains(token_of(subtree_files(t)[i])),
        may_match(t, token_of(subtree_files(t)[i])),
{
    let tokens = subtree_tokens(t);
    let token = token_of(subtree_files(t)[i]);
    assert(tokens[i] == token);
    assert(tokens.contains(token));
    tokens.to_multiset_ensures();
    t.tokens.to_multiset_ensures();
    assert(tokens.to_multiset().count(token) > 0);
    assert(t.tokens.to_multiset().count(token) > 0);
    let k = choose|k: int| 0 <= k < t.tokens.len() && t.tokens[k] == token;
    assert(token.subrange(0, token.len() as int) =~= token);
    assert(occurs_at(t.tokens[k], token, 0));
}

/// The pruning test is exact: in a tree that keeps the token invariant, some
/// token of a directory contains `q` exactly when the name of some file at or
/// below the directory matches `q`.
pub proof fn lemma_pruning_test_is_exact(t: TreeView, q: Seq<char>)
    requires
        well_formed(t),
    ensures
        may_match(t, q) <==> exists|i: int|
            0 <= i < subtree_files(t).len() && name_matches(#[trigger] subtree_files(t)[i], q),
{
    let files = subtree_files(t);
    let tokens = subtree_tokens(t);
    if may_match(t, q) {
        let k = choose|k: int| 0 <= k < t.tokens.len() && contains_text(#[trigger] t.tokens[k], q);
        let token = t.tokens[k];
        assert(t.tokens.contains(token));
        tokens.to_multiset_ensures();
        t.tokens.to_multiset_ensures();
        assert(t.tokens.to_multiset().count(token) > 0);
        assert(tokens.to_multiset().count(token) > 0);
        let i = choose|i: int| 0 <= i < tokens.len() && tokens[i] == token;
        assert(name_matches(files[i], q));
    }
    if exists|i: int| 0 <= i < files.len() && name_matches(#[trigger] files[i], q) {
        let i = choose|i: int| 0 <= i < files.len() && name_matches(#[trigger] files[i], q);
        lemma_tokens_complete(t, i);
        let k = choose|k: int| 0 <= k < t.tokens.len() && t.tokens[k] == token_of(files[i]);
        assert(contains_text(t.tokens[k], q));
    }
}

/// Every path that matching gives is the path of one of the files, and
/// that file matches.
pub proof fn lemma_matching_paths_come_from_files(files: Seq<FileView>, q: Seq<char>, i: int)
    requires
        0 <= i < matching_paths(files, q).len(),
    ensures
        exists|k: int|
            0 <= k < files.len() && name_matches(#[trigger] files[k], q) && files[k].path
                == matching_paths(files, q)[i],
    decreases files.len(),
{
    reveal(Seq::filter);
    if files.len() > 0 {
        let rest = files.drop_last();
        if name_matches(files.last(), q) && i == matching_paths(rest, q).len() {
            assert(files[files.len() - 1].path == matching_paths(files, q)[i]);
        } else {
            lemma_matching_paths_come_from_files(rest, q, i);
            let k = choose|k: int|
                0 <= k < rest.len() && name_matches(#[trigger] rest[k], q) && rest[k].path
                    == matching_paths(rest, q)[i];
            assert(files[k] == rest[k]);
        }
    }
}

/// Matching does not repeat a path that the files do not repeat.
pub proof fn lemma_matching_paths_distinct(files: Seq<FileView>, q: Seq<char>)
    requires
        paths_of(files).no_duplicates(),
    ensures
        matching_paths(files, q).no_duplicates(),
    decreases files.len(),
{
    reveal(Seq::filter);
    if files.len() > 0 {
        let rest = files.drop_last();
        let last = files.last();
        assert forall|i: int, j: int|
            0 <= i < rest.len() && 0 <= j < rest.len() && i != j implies paths_of(rest)[i]
            != paths_of(rest)[j] by {
            assert(paths_of(rest)[i] == paths_of(files)[i]);
            assert(paths_of(rest)[j] == paths_of(files)[j]);
        }
        lemma_matching_paths_distinct(rest, q);
        let found = matching_paths(rest, q);
        if name_matches(last, q) {
            assert(matching_paths(files, q) =~= found.push(last.path));
            assert forall|i: int| 0 <= i < found.len() implies found[i] != last.path by {
                lemma_matching_paths_come_from_files(rest, q, i);
                let k = choose|k: int|
                    0 <= k < rest.len() && name_matches(#[trigger] rest[k], q) && rest[k].path
                        == found[i];
                assert(paths_of(files)[k] == rest[k].path);
                assert(paths_of(files)[files.len() - 1] == last.path);
            }
        } else {
            assert(matching_paths(files, q) =~= found);
        }
    }
}

/// A search repeats no path on a tree that keeps the token invariant and
/// holds no path twice; the search itself removes no duplicates.
pub proof fn lemma_search_keeps_paths_distinct(t: TreeView, query: Seq<char>)
    requires
        well_formed(t),
        paths_of(subtree_files(t)).no_duplicates(),
    ensures
        search_result(t, query).no_duplicates(),
{
    lemma_pruning_sound(t, ascii_lower(query));
    lemma_matching_paths_distinct(subtree_files(t), ascii_lower(query));
}

/// Pruning soundness: in a tree that keeps the token invariant, the pruned
/// search finds exactly the files that match, so no subtree with a match is
/// ever skipped.
pub proof fn lemma_pruning_sound(t: TreeView, q: Seq<char>)
    requires
        well_formed(t),
    ensures
        pruned_matches(t, q) == all_matches(t, q),
    decreases t,
{
    let files = subtree_files(t);
    if may_match(t, q) {
        lemma_forest_pruning_sound(t.subdirs, q);
        lemma_matching_paths_concat(t.files, forest_files(t.subdirs), q);
    } else {
        assert forall|i: int| 0 <= i < files.len() implies !name_matches(
            #[trigger] files[i],
            q,
        ) by {
            lemma_tokens_complete(t, i);
            let k = choose|k: int| 0 <= k < t.tokens.len() && t.tokens[k] == token_of(files[i]);
            assert(!contains_text(t.tokens[k], q));
        }
        lemma_matching_paths_none(files, q);
    }
}

/// Pruning soundness over a sequence of directories.
pub proof fn lemma_forest_pruning_sound(ts: Seq<TreeView>, q: Seq<char>)
    requires
        forall|i: int| 0 <= i < ts.len() ==> well_formed(#[trigger] ts[i]),
    ensures
        forest_matches(ts, q) == matching_paths(forest_files(ts), q),
    decreases ts,
{
    if ts.len() == 0 {
        lemma_matching_paths_none(forest_files(ts), q);
    } else {
        let rest = ts.drop_last();
        assert forall|i: int| 0 <= i < rest.len() implies well_formed(#[trigger] rest[i]) by {
            assert(rest[i] == ts[i]);
        }
        lemma_forest_pruning_sound(rest, q);
        assert(well_formed(ts[ts.len() - 1]));
        lemma_pruning_sound(ts.last(), q);
        lemma_matching_paths_concat(forest_files(rest), subtree_files(ts.last()), q);
    }
}

/// Empty-query totality: in a tree that keeps the token invariant, a search
/// for the empty query gives the path of every file of the tree.
pub proof fn lemma_empty_query_finds_all(t: TreeView)
    requires
        well_formed(t),
    ensures
        search_result(t, Seq::<char>::empty()) == paths_of(subtree_files(t)),
{
    let q = Seq::<char>::empty();
    assert(ascii_lower(q) =~= q);
    lemma_pruning_sound(t, q);
    let files = subtree_files(t);
    assert forall|i: int| 0 <= i < files.len() implies name_matches(#[trigger] files[i], q) by {
        lemma_empty_is_contained(ascii_lower(files[i].name));
    }
    lemma_matching_paths_all(files, q);
}

/// Case independence: a query, its upper-case form and its lower-case form
/// give the same search result on every tree.
pub proof fn lemma_search_ignores_case(t: TreeView, query: Seq<char>)
    ensures
        search_result(t, ascii_upper(query)) == search_result(t, query),
        search_result(t, ascii_lower(query)) == search_result(t, query),
{
    lemma_lower_of_upper(query);
    lemma_lower_idempotent(query);
}

} // verus!
