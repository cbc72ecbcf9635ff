//! What is found by walking through the directories of a scope.
use vstd::prelude::*;

use crate::auth::AccessScope;
use crate::config::{directories_error, DirectoriesModel};
use crate::document::{
    candidates, entry_document, entry_documents, gathered, is_visible, lemma_one_piece,
    names_something, path_names, scope_roots, StoreError, WalkEntry, INDEX_ID,
};
use crate::order::{ascending, lemma_ascending};
use crate::scan::{is_char, joined_by, pieces};
use crate::text::texts;

verus! {

/// A tree of files: what is found below each directory that is there.
pub type FileTree = Map<Seq<char>, Seq<WalkEntry>>;

/// What is found below a directory: nothing where it is not there.
pub open spec fn entries_below(tree: FileTree, directory: Seq<char>) -> Seq<WalkEntry> {
    if tree.dom().contains(directory) {
        tree[directory]
    } else {
        Seq::empty()
    }
}

/// What is found below some directories, one after the other.
pub open spec fn walked(tree: FileTree, roots: Seq<Seq<char>>) -> Seq<WalkEntry>
    decreases roots.len(),
{
    if roots.len() == 0 {
        Seq::empty()
    } else {
        walked(tree, roots.drop_last()) + entries_below(tree, roots.last())
    }
}

/// What is gathered by walks that find what a tree has is what the tree has.
pub proof fn lemma_gathered_is_walked(
    tree: FileTree,
    roots: Seq<Seq<char>>,
    found: Seq<Seq<WalkEntry>>,
)
    requires
        found.len() == roots.len(),
        forall|i: int|
            0 <= i < found.len() ==> #[trigger] found[i] == entries_below(tree, roots[i]),
    ensures
        gathered(found) == walked(tree, roots),
    decreases roots.len(),
{
    if roots.len() > 0 {
        assert(found[found.len() - 1] == entries_below(tree, roots[roots.len() - 1]));
        assert forall|i: int| 0 <= i < found.drop_last().len() implies #[trigger] found.drop_last()[
        i] == entries_below(tree, roots.drop_last()[i]) by {
            assert(found[i] == entries_below(tree, roots[i]));
        }
        lemma_gathered_is_walked(tree, roots.drop_last(), found.drop_last());
    }
}

/// Whether an entry lies below a directory, or is it: the names that lead to it
/// begin with that of the directory.
pub open spec fn lies_below(entry: WalkEntry, directory: Seq<char>) -> bool {
    entry matches WalkEntry::File { names: Some(names), .. } ==> names@.len() >= 1
        && names@[0]@ == directory
}

/// Whether an entry is a file in the place of the index.
pub open spec fn is_index(entry: WalkEntry) -> bool {
    entry matches WalkEntry::File { names: Some(names), .. } && names@.len() == 1 && names@[0]@
        == INDEX_ID@
}

/// Whether what a tree has below a directory does lie below it, and the index is
/// found in it only where it is a file.
pub open spec fn is_file_tree(tree: FileTree, index_is_file: bool) -> bool {
    forall|directory: Seq<char>, i: int|
        0 <= i < entries_below(tree, directory).len() ==> lies_below(
            #[trigger] entries_below(tree, directory)[i],
            directory,
        ) && (is_index(entries_below(tree, directory)[i]) ==> index_is_file)
}

proof fn lemma_walked_adds(tree: FileTree, a: Seq<Seq<char>>, b: Seq<Seq<char>>)
    ensures
        walked(tree, a + b) == walked(tree, a) + walked(tree, b),
    decreases b.len(),
{
    if b.len() == 0 {
        assert(a + b =~= a);
        assert(walked(tree, a) + walked(tree, b) =~= walked(tree, a));
    } else {
        lemma_walked_adds(tree, a, b.drop_last());
        assert((a + b).drop_last() =~= a + b.drop_last());
        assert((a + b).last() == b.last());
        assert(walked(tree, a) + walked(tree, b) =~= walked(tree, a) + walked(tree, b.drop_last())
            + entries_below(tree, b.last()));
    }
}

/// Every entry that is found lies below one of the directories.
proof fn lemma_walked_lies_below(
    tree: FileTree,
    index_is_file: bool,
    roots: Seq<Seq<char>>,
    i: int,
) -> (root: int)
    requires
        is_file_tree(tree, index_is_file),
        0 <= i < walked(tree, roots).len(),
    ensures
        0 <= root < roots.len(),
        lies_below(walked(tree, roots)[i], roots[root]),
        is_index(walked(tree, roots)[i]) ==> index_is_file,
    decreases roots.len(),
{
    let before = walked(tree, roots.drop_last());
    if i < before.len() {
        lemma_walked_lies_below(tree, index_is_file, roots.drop_last(), i)
    } else {
        assert(walked(tree, roots)[i] == entries_below(tree, roots.last())[i - before.len()]);
        roots.len() - 1
    }
}

/// The documents among entries are those that are known and those that the
/// entries are.
proof fn lemma_entry_documents(known: Set<Seq<char>>, entries: Seq<WalkEntry>, id: Seq<char>)
    requires
        entry_documents(known, entries) is Ok,
    ensures
        entry_documents(known, entries)->Ok_0.contains(id) <==> known.contains(id) || exists|i: int|
            0 <= i < entries.len() && entry_document(#[trigger] entries[i]) == Ok::<
                _,
                StoreError,
            >(Some(id)),
    decreases entries.len(),
{
    if entries.len() > 0 {
        let rest = entries.drop_last();
        lemma_entry_documents(known, rest, id);
        if entry_document(entries.last()) == Ok::<_, StoreError>(Some(id)) {
            assert(entry_document(entries[entries.len() - 1]) == Ok::<_, StoreError>(Some(id)));
        }
        if exists|i: int|
            0 <= i < rest.len() && entry_document(#[trigger] rest[i]) == Ok::<_, StoreError>(
                Some(id),
            ) {
            let i = choose|i: int|
                0 <= i < rest.len() && entry_document(#[trigger] rest[i]) == Ok::<_, StoreError>(
                    Some(id),
                );
            assert(entries[i] == rest[i]);
        }
        if exists|i: int|
            0 <= i < entries.len() && entry_document(#[trigger] entries[i]) == Ok::<_, StoreError>(
                Some(id),
            ) {
            let i = choose|i: int|
                0 <= i < entries.len() && entry_document(#[trigger] entries[i]) == Ok::<
                    _,
                    StoreError,
                >(Some(id));
            if i < rest.len() {
                assert(entries[i] == rest[i]);
            }
        }
    }
}

/// What is known before, and found among the first entries, is found.
proof fn lemma_more_entries(known: Set<Seq<char>>, a: Seq<WalkEntry>, b: Seq<WalkEntry>)
    requires
        entry_documents(known, a) is Ok,
        entry_documents(known, a + b) is Ok,
    ensures
        entry_documents(known, a)->Ok_0.subset_of(entry_documents(known, a + b)->Ok_0),
{
    assert forall|id: Seq<char>| entry_documents(known, a)->Ok_0.contains(
        id,
    ) implies entry_documents(known, a + b)->Ok_0.contains(id) by {
        lemma_entry_documents(known, a, id);
        lemma_entry_documents(known, a + b, id);
        if !known.contains(id) {
            let i = choose|i: int|
                0 <= i < a.len() && entry_document(#[trigger] a[i]) == Ok::<_, StoreError>(
                    Some(id),
                );
            assert((a + b)[i] == a[i]);
        }
    }
}

/// Names joined by slashes begin with the first of them and a slash.
proof fn lemma_joined_path(names: Seq<Seq<char>>)
    requires
        names.len() >= 2,
    ensures
        (names[0] + seq!['/']).is_prefix_of(joined_by(names, "/"@)),
    decreases names.len(),
{
    reveal_strlit("/");
    assert("/"@ =~= seq!['/']);
    let front = names.drop_last();
    let path = joined_by(names, "/"@);
    let head = names[0] + seq!['/'];
    if names.len() == 2 {
        assert(path == front[0] + "/"@ + names.last());
        assert(path.take(head.len() as int) =~= head);
    } else {
        lemma_joined_path(front);
        let shorter = joined_by(front, "/"@);
        assert(path == shorter + "/"@ + names.last());
        assert(path.take(head.len() as int) =~= shorter.take(head.len() as int));
    }
}

/// The first piece of a path is what stands before its first slash.
proof fn lemma_first_piece(directory: Seq<char>, path: Seq<char>)
    requires
        forall|i: int| 0 <= i < directory.len() ==> directory[i] != '/',
        (directory + seq!['/']).is_prefix_of(path),
    ensures
        pieces(path, '/').len() >= 2,
        pieces(path, '/')[0] == directory,
    decreases path.len(),
{
    let head = directory + seq!['/'];
    let front = path.drop_last();
    let cut = is_char('/');
    if path.len() == head.len() {
        assert(path =~= head);
        assert(front =~= directory);
        lemma_one_piece(directory);
        assert(path.last() == '/');
        assert(pieces(path, '/') =~= seq![directory].push(Seq::<char>::empty()));
    } else {
        assert(front.take(head.len() as int) =~= path.take(head.len() as int));
        assert(head.is_prefix_of(front));
        lemma_first_piece(directory, front);
    }
}

/// A path that leads through a directory has its name as the first of its names.
proof fn lemma_first_name(directory: Seq<char>, path: Seq<char>)
    requires
        directory.len() > 0,
        directory != seq!['.'],
        forall|i: int| 0 <= i < directory.len() ==> directory[i] != '/',
        (directory + seq!['/']).is_prefix_of(path),
    ensures
        path_names(path).len() > 0,
        path_names(path)[0] == directory,
{
    lemma_first_piece(directory, path);
    let all = pieces(path, '/');
    let keep = names_something();
    lemma_first_is_kept(all, keep);
}

proof fn lemma_first_is_kept(all: Seq<Seq<char>>, keep: spec_fn(Seq<char>) -> bool)
    requires
        all.len() > 0,
        keep(all[0]),
    ensures
        all.filter(keep).len() > 0,
        all.filter(keep)[0] == all[0],
    decreases all.len(),
{
    reveal(Seq::filter);
    let front = all.drop_last();
    if all.len() == 1 {
        assert(front =~= Seq::empty());
        assert(front.filter(keep) =~= Seq::empty());
    } else {
        lemma_first_is_kept(front, keep);
    }
}

/// A document that is found below a directory has its name first, and is the
/// index only where it is found in its place.
proof fn lemma_document_below(entry: WalkEntry, directory: Seq<char>, id: Seq<char>)
    requires
        lies_below(entry, directory),
        entry_document(entry) == Ok::<_, StoreError>(Some(id)),
        directory.len() > 0,
        directory != seq!['.'],
        forall|i: int| 0 <= i < directory.len() ==> directory[i] != '/',
    ensures
        path_names(id)[0] == directory,
        id == INDEX_ID@ ==> is_index(entry),
{
    let names = texts((entry->names)->Some_0@);
    assert(names[0] == directory);
    assert(names[0] == (entry->names)->Some_0@[0]@);
    if names.len() == 1 {
        assert(id == directory);
        lemma_one_piece(id);
        assert(pieces(id, '/')[0] == id);
        lemma_first_is_kept(pieces(id, '/'), names_something());
    } else {
        lemma_joined_path(names);
        lemma_first_name(directory, id);
        let head = directory + seq!['/'];
        assert(id.take(head.len() as int)[directory.len() as int] == head[directory.len() as int]);
        assert(id[directory.len() as int] == '/');
        reveal_strlit("INDEX.md");
    }
}

/// A directory to walk through is one of the directories of the scope, and its
/// name is a plain one.
proof fn lemma_root_name(directories: DirectoriesModel, scope: AccessScope, i: int)
    requires
        directories_error(directories.public, directories.private) is None,
        directories.public.finite(),
        directories.private.finite(),
        0 <= i < scope_roots(directories, scope).len(),
    ensures
        ({
            let root = scope_roots(directories, scope)[i];
            &&& directories.public.contains(root) || (scope is Private
                && directories.private.contains(root))
            &&& root.len() > 0
            &&& root != seq!['.']
            &&& forall|j: int| 0 <= j < root.len() ==> root[j] != '/'
        }),
{
    lemma_ascending(directories.public);
    lemma_ascending(directories.private);
    let public = ascending(directories.public);
    let private = ascending(directories.private);
    let root = scope_roots(directories, scope)[i];
    if i < public.len() {
        assert(root == public[i]);
        assert(public.to_set().contains(root));
    } else {
        assert(root == private[i - public.len()]);
        assert(private.to_set().contains(root));
    }
    assert(seq!['.'][0] == '.');
}

/// The documents that are searched for a scope, over one tree of files: each is
/// seen by the scope, and so lies in one of its directories or is the index; the
/// index is among them where it is a file, and only there; and those for the
/// public scope are among those for the private one.
pub proof fn lemma_candidates_of_a_scope(
    directories: DirectoriesModel,
    tree: FileTree,
    index_is_file: bool,
    scope: AccessScope,
    id: Seq<char>,
)
    requires
        directories_error(directories.public, directories.private) is None,
        directories.public.finite(),
        directories.private.finite(),
        is_file_tree(tree, index_is_file),
        candidates(index_is_file, walked(tree, scope_roots(directories, scope))) is Ok,
    ensures
        ({
            let found = candidates(
                index_is_file,
                walked(tree, scope_roots(directories, scope)),
            )->Ok_0;
            &&& found.contains(id) ==> is_visible(directories, scope, id)
            &&& found.contains(id) && id != INDEX_ID@ ==> directories.public.contains(
                path_names(id)[0],
            ) || (scope is Private && directories.private.contains(path_names(id)[0]))
            &&& found.contains(INDEX_ID@) == index_is_file
            &&& candidates(
                index_is_file,
                walked(tree, scope_roots(directories, AccessScope::Private)),
            ) matches Ok(all) ==> found.subset_of(all)
        }),
{
    let roots = scope_roots(directories, scope);
    let entries = walked(tree, roots);
    let known = if index_is_file {
        Set::<Seq<char>>::empty().insert(INDEX_ID@)
    } else {
        Set::<Seq<char>>::empty()
    };
    assert forall|found_id: Seq<char>|
        (#[trigger] entry_documents(known, entries)->Ok_0.contains(found_id)) && !known.contains(
            found_id,
        ) implies (found_id == INDEX_ID@ ==> index_is_file) && (directories.public.contains(
        path_names(found_id)[0],
    ) || (scope is Private && directories.private.contains(path_names(found_id)[0]))) by {
        lemma_entry_documents(known, entries, found_id);
        let i = choose|i: int|
            0 <= i < entries.len() && entry_document(#[trigger] entries[i]) == Ok::<_, StoreError>(
                Some(found_id),
            );
        let root = lemma_walked_lies_below(tree, index_is_file, roots, i);
        lemma_root_name(directories, scope, root);
        lemma_document_below(entries[i], roots[root], found_id);
    }
    lemma_entry_documents(known, entries, INDEX_ID@);
    let found = entry_documents(known, entries)->Ok_0;
    assert(candidates(index_is_file, entries) == Ok::<_, StoreError>(found));
    if found.contains(INDEX_ID@) && !index_is_file {
        assert(!known.contains(INDEX_ID@));
    }
    let public = ascending(directories.public);
    let private = ascending(directories.private);
    let all = walked(tree, scope_roots(directories, AccessScope::Private));
    lemma_walked_adds(tree, public, private);
    if scope is Tech {
        assert(roots =~= public);
        assert(all =~= entries + walked(tree, private));
        if entry_documents(known, all) is Ok {
            lemma_more_entries(known, entries, walked(tree, private));
        }
    } else {
        assert(all == entries);
        assert(found.subset_of(found));
    }
}

} // verus!
