//! Properties of the traversal stated over its specification.

use vstd::prelude::*;
use crate::item::{FsError, Node, annotate, annotate_all, has_file, has_file_in, lemma_annotate_all, lemma_has_file_in};
use crate::options::OptionsView;
use crate::filter::{entry_skipped, is_hidden};
use crate::traverse::{Disk, collect, disk_name, folder_name, outcome};
use crate::sort::{sort_nodes, insert_pos, lemma_insert_pos, lemma_sort_nodes_sorted, node_before, node_name, sibling_sorted};
use crate::traverse::structure;

verus! {

/// Whether an entry is visible: it has no name or a name without a leading
/// dot.
pub open spec fn not_hidden(d: Disk) -> bool {
    !(disk_name(d) matches Some(n) && is_hidden(n))
}

/// The children of a folder give what its visible children alone give: no
/// hidden entry contributes a node, or a failure, whatever the options.
pub proof fn lemma_hidden_children_ignored(ds: Seq<Disk>, o: OptionsView)
    ensures
        collect(ds, o) == collect(ds.filter(|d: Disk| not_hidden(d)), o),
    decreases ds.len(),
{
    let pred = |d: Disk| not_hidden(d);
    if ds.len() > 0 {
        let prev = ds.drop_last();
        lemma_hidden_children_ignored(prev, o);
        let f = ds.filter(pred);
        let g = prev.filter(pred);
        reveal(Seq::filter);
        assert(f == if pred(ds.last()) { g.push(ds.last()) } else { g });
        if pred(ds.last()) {
            assert(f.drop_last() =~= g);
            assert(f.last() == ds.last());
        }
    }
}

/// Whether no child in `ds` survives traversal: each is skipped, filtered
/// or empty, and none fails to list.
pub open spec fn nothing_survives(ds: Seq<Disk>, o: OptionsView) -> bool {
    forall|i: int|
        0 <= i < ds.len() ==> entry_skipped(disk_name(#[trigger] ds[i]), o) || (outcome(ds[i], false, o)
            is Err && outcome(ds[i], false, o) != Err::<Node, FsError>(FsError::IoError))
}

pub proof fn lemma_nothing_survives_collect(ds: Seq<Disk>, o: OptionsView)
    requires
        nothing_survives(ds, o),
    ensures
        collect(ds, o) == Ok::<Seq<Node>, FsError>(Seq::empty()),
    decreases ds.len(),
{
    if ds.len() > 0 {
        let prev = ds.drop_last();
        assert forall|i: int| 0 <= i < prev.len() implies entry_skipped(disk_name(#[trigger] prev[i]), o) || (
        outcome(prev[i], false, o) is Err && outcome(prev[i], false, o) != Err::<Node, FsError>(
            FsError::IoError,
        )) by {
            assert(prev[i] == ds[i]);
        }
        lemma_nothing_survives_collect(prev, o);
        assert(ds.last() == ds[ds.len() - 1]);
    }
}

/// A folder whose children are all filtered out, or that has none, fails
/// with `EmptyFolder` where empty folders are hidden, and is kept, with no
/// children, where they are shown.
pub proof fn lemma_empty_folder(name: Option<Seq<char>>, children: Seq<Disk>, current_dir: bool, o: OptionsView)
    requires
        nothing_survives(children, o),
    ensures
        !o.show_empty_folder ==> outcome(Disk::Dir(name, children), current_dir, o) == Err::<
            Node,
            FsError,
        >(FsError::EmptyFolder),
        o.show_empty_folder ==> outcome(Disk::Dir(name, children), current_dir, o) == Ok::<Node, FsError>(
            Node::Folder(folder_name(name, current_dir), Seq::empty(), None),
        ),
{
    lemma_nothing_survives_collect(children, o);
}

/// Whether every folder of `n` carries the annotation [`has_file`] gives it.
pub open spec fn annotations_correct(n: Node) -> bool
    decreases n,
{
    match n {
        Node::File(_) => true,
        Node::Folder(_, children, ann) => ann == Some(has_file(n)) && forall|i: int|
            0 <= i < children.len() ==> annotations_correct(#[trigger] children[i]),
    }
}

pub proof fn lemma_annotate_keeps_files(n: Node)
    ensures
        has_file(annotate(n)) == has_file(n),
    decreases n,
{
    if let Node::Folder(name, children, ann) = n {
        lemma_annotate_all(children);
        let ac = annotate_all(children);
        lemma_has_file_in(children);
        lemma_has_file_in(ac);
        assert forall|i: int| 0 <= i < children.len() implies has_file(#[trigger] ac[i]) == has_file(
            children[i],
        ) by {
            assert(decreases_to!(n => children));
            lemma_annotate_keeps_files(children[i]);
        }
        if has_file(n) {
            let i = choose|i: int| 0 <= i < children.len() && #[trigger] has_file(children[i]);
            assert(has_file(ac[i]));
        }
        if has_file(annotate(n)) {
            let i = choose|i: int| 0 <= i < ac.len() && #[trigger] has_file(ac[i]);
            assert(has_file(children[i]));
        }
    }
}

/// After annotation, a folder's annotation is true exactly when a file
/// stands somewhere below it.
pub proof fn lemma_annotations_correct(n: Node)
    ensures
        annotations_correct(annotate(n)),
    decreases n,
{
    if let Node::Folder(name, children, ann) = n {
        lemma_annotate_all(children);
        lemma_annotate_keeps_files(n);
        let ac = annotate_all(children);
        assert forall|i: int| 0 <= i < ac.len() implies annotations_correct(#[trigger] ac[i]) by {
            assert(decreases_to!(n => children));
            lemma_annotations_correct(children[i]);
        }
    }
}

/// Whether the children of every folder of `n` are in sibling order.
pub open spec fn tree_sorted(n: Node) -> bool
    decreases n,
{
    match n {
        Node::File(_) => true,
        Node::Folder(_, children, _) => sibling_sorted(children) && forall|i: int|
            0 <= i < children.len() ==> tree_sorted(#[trigger] children[i]),
    }
}

pub proof fn lemma_sort_nodes_members(s: Seq<Node>)
    ensures
        sort_nodes(s).len() == s.len(),
        forall|i: int| 0 <= i < s.len() ==> s.contains(#[trigger] sort_nodes(s)[i]),
    decreases s.len(),
{
    lemma_sort_nodes_sorted(s);
    if s.len() > 0 {
        let prev = sort_nodes(s.drop_last());
        lemma_sort_nodes_members(s.drop_last());
        lemma_insert_pos(s.last(), prev);
        let p = insert_pos(s.last(), prev);
        assert forall|i: int| 0 <= i < s.len() implies s.contains(#[trigger] sort_nodes(s)[i]) by {
            let t = sort_nodes(s);
            assert(t == prev.insert(p, s.last()));
            if i < p {
                assert(t[i] == prev[i]);
                let j = choose|j: int| 0 <= j < s.drop_last().len() && s.drop_last()[j] == prev[i];
                assert(s[j] == prev[i]);
            } else if i == p {
                assert(s[s.len() - 1] == t[i]);
            } else {
                assert(t[i] == prev[i - 1]);
                let j = choose|j: int| 0 <= j < s.drop_last().len() && s.drop_last()[j] == prev[i - 1];
                assert(s[j] == prev[i - 1]);
            }
        }
    }
}

pub proof fn lemma_outcome_sorted(d: Disk, current_dir: bool, o: OptionsView)
    ensures
        outcome(d, current_dir, o) matches Ok(n) ==> tree_sorted(n),
    decreases d, 0int,
{
    if let Disk::Dir(name, children) = d {
        lemma_collect_sorted(children, o);
        if let Ok(kept) = collect(children, o) {
            lemma_sort_nodes_sorted(kept);
            lemma_sort_nodes_members(kept);
            let sorted = sort_nodes(kept);
            assert forall|i: int| 0 <= i < sorted.len() implies tree_sorted(#[trigger] sorted[i]) by {
                assert(kept.contains(sorted[i]));
            }
        }
    }
}

pub proof fn lemma_collect_sorted(ds: Seq<Disk>, o: OptionsView)
    ensures
        collect(ds, o) matches Ok(kept) ==> forall|i: int| 0 <= i < kept.len() ==> tree_sorted(#[trigger] kept[i]),
    decreases ds, ds.len(),
{
    if ds.len() > 0 {
        lemma_collect_sorted(ds.drop_last(), o);
        assert(decreases_to!(ds => ds[ds.len() - 1]));
        lemma_outcome_sorted(ds[ds.len() - 1], false, o);
        assert(ds.last() == ds[ds.len() - 1]);
    }
}

pub proof fn lemma_annotate_sorted(n: Node)
    requires
        tree_sorted(n),
    ensures
        tree_sorted(annotate(n)),
        node_name(annotate(n)) == node_name(n),
        (annotate(n) is Folder) == (n is Folder),
    decreases n,
{
    if let Node::Folder(name, children, ann) = n {
        lemma_annotate_all(children);
        let ac = annotate_all(children);
        assert forall|i: int| 0 <= i < ac.len() implies tree_sorted(#[trigger] ac[i]) && node_name(ac[i])
            == node_name(children[i]) && (ac[i] is Folder) == (children[i] is Folder) by {
            assert(decreases_to!(n => children));
            lemma_annotate_sorted(children[i]);
        }
        assert forall|i: int, j: int| 0 <= i < j < ac.len() implies !node_before(
            #[trigger] ac[j],
            #[trigger] ac[i],
        ) by {
            assert(!node_before(children[j], children[i]));
            assert(tree_sorted(ac[i]) && node_name(ac[i]) == node_name(children[i]));
            assert(tree_sorted(ac[j]) && node_name(ac[j]) == node_name(children[j]));
        }
    }
}

/// In every tree that a traversal returns, each folder's children come in
/// sibling order: folders before files, each kind by name.
pub proof fn lemma_structure_sorted(d: Disk, current_dir: bool, o: OptionsView)
    ensures
        structure(d, current_dir, o) matches Ok(n) ==> tree_sorted(n),
{
    lemma_outcome_sorted(d, current_dir, o);
    if let Ok(n) = outcome(d, current_dir, o) {
        lemma_annotate_sorted(n);
    }
}

} // verus!
