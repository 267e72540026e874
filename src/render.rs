//! The renderer: from an annotated tree to the lines of its drawing.

use vstd::prelude::*;
use vstd::string::StringExecFns;
use crate::item::{Item, Node, view_items, lemma_view_items};
use crate::options::{FolderStructureOptions, OptionsView};
use crate::traverse::{Disk, structure};

verus! {

/// The branch glyph in front of a node.
pub open spec fn marker(is_last: bool) -> Seq<char> {
    if is_last {
        "└── "@
    } else {
        "├── "@
    }
}

/// What a node adds to the prefix of its children's lines.
pub open spec fn continuation(is_last: bool) -> Seq<char> {
    if is_last {
        "    "@
    } else {
        "│   "@
    }
}

/// Whether a folder is drawn: empty folders are shown, or it holds a file.
pub open spec fn folder_shown(ann: Option<bool>, show_empty_folder: bool) -> bool {
    show_empty_folder || ann == Some(true)
}

/// The lines that draw `n` under `prefix`; an empty prefix marks the root.
pub open spec fn render(n: Node, prefix: Seq<char>, is_last: bool, show_empty_folder: bool) -> Seq<
    Seq<char>,
>
    decreases n, 0int,
{
    match n {
        Node::File(name) => seq![prefix + marker(is_last) + name],
        Node::Folder(name, children, ann) => if !folder_shown(ann, show_empty_folder) {
            Seq::empty()
        } else {
            let head = if prefix.len() == 0 {
                name
            } else {
                prefix + marker(is_last) + name + "/"@
            };
            let next = if prefix.len() == 0 {
                "    "@
            } else {
                prefix + continuation(is_last)
            };
            seq![head] + render_from(children, 0, next, show_empty_folder)
        },
    }
}

/// The lines that draw `ns[i..]` as siblings under `prefix`.
pub open spec fn render_from(ns: Seq<Node>, i: int, prefix: Seq<char>, show_empty_folder: bool) -> Seq<
    Seq<char>,
>
    decreases ns, ns.len() - i,
{
    if i < 0 || i >= ns.len() {
        Seq::empty()
    } else {
        render(ns[i], prefix, i == ns.len() - 1, show_empty_folder) + render_from(
            ns,
            i + 1,
            prefix,
            show_empty_folder,
        )
    }
}

/// What a run of the utility prints for `d`, or `None` where the traversal
/// fails and nothing is drawn.
pub open spec fn tree_output(d: Disk, current_dir: bool, o: OptionsView) -> Option<Seq<Seq<char>>> {
    match structure(d, current_dir, o) {
        Ok(n) => Some(render(n, Seq::empty(), true, o.show_empty_folder)),
        Err(_) => None,
    }
}

/// Drawing is deterministic: the same entries under the same options give
/// the same lines.
pub proof fn lemma_output_deterministic(
    d1: Disk,
    d2: Disk,
    current_dir: bool,
    o1: OptionsView,
    o2: OptionsView,
)
    requires
        d1 == d2,
        o1 == o2,
    ensures
        tree_output(d1, current_dir, o1) == tree_output(d2, current_dir, o2),
{
}

pub open spec fn line_views(v: Seq<String>) -> Seq<Seq<char>> {
    v.map_values(|s: String| s@)
}

/// Appends to `out` the lines that draw `item` under `prefix`.
pub fn print_structure(
    item: &Item,
    prefix: &str,
    is_last: bool,
    option: &FolderStructureOptions,
    out: &mut Vec<String>,
)
    ensures
        line_views(final(out)@) == line_views(old(out)@) + render(
            item@,
            prefix@,
            is_last,
            option@.show_empty_folder,
        ),
    decreases item,
{
    let marker = if is_last { "└── " } else { "├── " };
    let next_prefix = if is_last { "    " } else { "│   " };
    let ghost start = line_views(out@);
    match item {
        Item::File(name) => {
            let line = String::from_str(prefix).concat(marker).concat(name.as_str());
            out.push(line);
            proof {
                assert(line_views(out@) =~= start + seq![line@]);
            }
        },
        Item::Folder(name, items, has_terminal_file) => {
            let shown = option.show_empty_folder() || match has_terminal_file {
                Some(b) => *b,
                None => false,
            };
            if !shown {
                proof {
                    assert(line_views(out@) =~= start + Seq::empty());
                }
                return;
            }
            let head = if prefix.is_empty() {
                name.clone()
            } else {
                String::from_str(prefix).concat(marker).concat(name.as_str()).concat("/")
            };
            out.push(head);
            let new_prefix = if prefix.is_empty() {
                String::from_str("    ")
            } else {
                String::from_str(prefix).concat(next_prefix)
            };
            proof {
                assert(item@ == Node::Folder(name@, view_items(items@), *has_terminal_file));
                assert(line_views(out@) =~= start + seq![head@]);
                lemma_view_items(items@);
                assert(render_from(view_items(items@), items.len() as int, new_prefix@, option@.show_empty_folder)
                    =~= Seq::empty());
            }
            let mut i: usize = 0;
            while i < items.len()
                invariant
                    item is Folder,
                    *items == item->Folder_1,
                    i <= items.len(),
                    view_items(items@).len() == items.len(),
                    forall|j: int| 0 <= j < items.len() ==> #[trigger] view_items(items@)[j] == items@[j]@,
                    line_views(out@) + render_from(view_items(items@), i as int, new_prefix@, option@.show_empty_folder)
                        == start + render(item@, prefix@, is_last, option@.show_empty_folder),
                decreases items.len() - i,
            {
                let ghost mid = line_views(out@);
                proof {
                    assert(decreases_to!(item => item->Folder_1));
                    assert(decreases_to!(items => items@[i as int]));
                }
                print_structure(&items[i], new_prefix.as_str(), i == items.len() - 1, option, out);
                proof {
                    let ns = view_items(items@);
                    assert(render_from(ns, i as int, new_prefix@, option@.show_empty_folder) == render(
                        ns[i as int],
                        new_prefix@,
                        i == items.len() - 1,
                        option@.show_empty_folder,
                    ) + render_from(ns, i + 1, new_prefix@, option@.show_empty_folder));
                }
                i = i + 1;
            }
            proof {
                assert(render_from(view_items(items@), i as int, new_prefix@, option@.show_empty_folder)
                    =~= Seq::empty());
                assert(line_views(out@) =~= line_views(out@) + Seq::<Seq<char>>::empty());
            }
        },
    }
}

/// The lines that draw the tree `root`, the root folder bare and each other
/// node behind its branch glyphs.
pub fn render_tree(root: &Item, option: &FolderStructureOptions) -> (r: Vec<String>)
    ensures
        line_views(r@) == render(root@, Seq::empty(), true, option@.show_empty_folder),
{
    let mut out: Vec<String> = Vec::new();
    proof {
        assert(line_views(out@) =~= Seq::empty());
    }
    print_structure(root, "", true, option, &mut out);
    proof {
        assert(""@ =~= Seq::<char>::empty()) by {
            reveal_strlit("");
        }
        assert(line_views(out@) =~= render(root@, Seq::empty(), true, option@.show_empty_folder));
    }
    out
}

} // verus!
