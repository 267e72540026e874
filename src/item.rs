//! The tree that a traversal builds, and its mathematical model.

use vstd::prelude::*;

verus! {

/// Why a traversal produced no node.
#[derive(Debug, PartialEq, Eq, Structural)]
pub enum FsError {
    /// Listing a directory failed.
    IoError,
    /// The entry was excluded by the filter policy.
    Filtered,
    /// A folder had no surviving children while empty folders are hidden.
    EmptyFolder,
}

/// A node of the tree: a file, or a folder with its sorted children and the
/// annotation "holds a visible file somewhere below".
#[derive(Debug, PartialEq)]
pub enum Item {
    File(String),
    Folder(String, Vec<Item>, Option<bool>),
}

/// Mathematical model of an [`Item`].
pub enum Node {
    File(Seq<char>),
    Folder(Seq<char>, Seq<Node>, Option<bool>),
}

pub open spec fn view_item(item: Item) -> Node
    decreases item,
{
    match item {
        Item::File(name) => Node::File(name@),
        Item::Folder(name, children, ann) => Node::Folder(name@, view_items(children@), ann),
    }
}

pub open spec fn view_items(items: Seq<Item>) -> Seq<Node>
    decreases items,
{
    if items.len() == 0 {
        Seq::empty()
    } else {
        view_items(items.drop_last()).push(view_item(items.last()))
    }
}

pub proof fn lemma_view_items(items: Seq<Item>)
    ensures
        view_items(items).len() == items.len(),
        forall|i: int| 0 <= i < items.len() ==> #[trigger] view_items(items)[i] == view_item(items[i]),
    decreases items.len(),
{
    if items.len() > 0 {
        lemma_view_items(items.drop_last());
    }
}

/// Whether a File node stands anywhere in the subtree of `n`, `n` included.
pub open spec fn has_file(n: Node) -> bool
    decreases n,
{
    match n {
        Node::File(_) => true,
        Node::Folder(_, children, _) => has_file_in(children),
    }
}

/// Whether a File node stands in the subtree of some node of `ns`.
pub open spec fn has_file_in(ns: Seq<Node>) -> bool
    decreases ns,
{
    if ns.len() == 0 {
        false
    } else {
        has_file_in(ns.drop_last()) || has_file(ns.last())
    }
}

pub proof fn lemma_has_file_in(ns: Seq<Node>)
    ensures
        has_file_in(ns) == exists|i: int| 0 <= i < ns.len() && #[trigger] has_file(ns[i]),
    decreases ns.len(),
{
    if ns.len() > 0 {
        lemma_has_file_in(ns.drop_last());
        if has_file_in(ns.drop_last()) {
            let i = choose|i: int| 0 <= i < ns.drop_last().len() && #[trigger] has_file(ns.drop_last()[i]);
            assert(has_file(ns[i]));
        }
        if exists|i: int| 0 <= i < ns.len() && #[trigger] has_file(ns[i]) {
            let i = choose|i: int| 0 <= i < ns.len() && #[trigger] has_file(ns[i]);
            if i < ns.len() - 1 {
                assert(has_file(ns.drop_last()[i]));
            }
        }
        if has_file(ns.last()) {
            assert(has_file(ns[ns.len() - 1]));
        }
    }
}

/// The tree `n` with each folder annotated by [`has_file`].
pub open spec fn annotate(n: Node) -> Node
    decreases n,
{
    match n {
        Node::File(name) => Node::File(name),
        Node::Folder(name, children, _) => Node::Folder(
            name,
            annotate_all(children),
            Some(has_file(n)),
        ),
    }
}

pub open spec fn annotate_all(ns: Seq<Node>) -> Seq<Node>
    decreases ns,
{
    if ns.len() == 0 {
        Seq::empty()
    } else {
        annotate_all(ns.drop_last()).push(annotate(ns.last()))
    }
}

pub proof fn lemma_annotate_all(ns: Seq<Node>)
    ensures
        annotate_all(ns).len() == ns.len(),
        forall|i: int| 0 <= i < ns.len() ==> #[trigger] annotate_all(ns)[i] == annotate(ns[i]),
    decreases ns.len(),
{
    if ns.len() > 0 {
        lemma_annotate_all(ns.drop_last());
    }
}

/// Consumes `item` and returns it annotated, with whether it holds a file.
fn annotate_item(item: Item) -> (res: (Item, bool))
    ensures
        res.0@ == annotate(item@),
        res.1 == has_file(item@),
    decreases item,
{
    match item {
        Item::File(name) => {
            (Item::File(name), true)
        },
        Item::Folder(name, children, ann) => {
            let ghost kids = children;
            let ghost model = item@;
            proof {
                lemma_view_items(kids@);
            }
            let mut rest = children;
            let mut out: Vec<Item> = Vec::new();
            let mut any = false;
            while rest.len() > 0
                invariant
                    item is Folder,
                    kids == item->Folder_1,
                    out.len() + rest.len() == kids@.len(),
                    rest@ == kids@.subrange(out.len() as int, kids@.len() as int),
                    forall|j: int| 0 <= j < out.len() ==> (#[trigger] out@[j])@ == annotate(kids@[j]@),
                    any == exists|j: int| 0 <= j < out.len() && #[trigger] has_file(kids@[j]@),
                decreases rest.len(),
            {
                let ghost k = out.len() as int;
                let c = rest.remove(0);
                proof {
                    assert(c == kids@[k]);
                    assert(kids == item->Folder_1);
                    assert(decreases_to!(item => item->Folder_1));
                    assert(decreases_to!(kids => kids@));
                    assert(decreases_to!(kids@ => kids@[k]));
                }
                let (a, b) = annotate_item(c);
                proof {
                    if b {
                        assert(has_file(kids@[k]@));
                    }
                    if any && !b {
                        let j = choose|j: int| 0 <= j < out.len() && #[trigger] has_file(kids@[j]@);
                        assert(0 <= j < out.len() + 1);
                    }
                }
                any = any || b;
                out.push(a);
            }
            proof {
                lemma_view_items(out@);
                lemma_annotate_all(view_items(kids@));
                assert(view_items(out@) =~= annotate_all(view_items(kids@)));
                if any {
                    let j = choose|j: int| 0 <= j < out.len() && #[trigger] has_file(kids@[j]@);
                    assert(has_file(view_items(kids@)[j]));
                }
                assert(model == Node::Folder(name@, view_items(kids@), ann));
                lemma_has_file_in(view_items(kids@));
                if has_file(model) {
                    assert(exists|j: int| 0 <= j < view_items(kids@).len() && #[trigger] has_file(view_items(kids@)[j]));
                    let j = choose|j: int| 0 <= j < view_items(kids@).len() && #[trigger] has_file(view_items(kids@)[j]);
                    assert(has_file(kids@[j]@));
                }
            }
            (Item::Folder(name, out, Some(any)), any)
        },
    }
}

/// Annotates every folder of `item` with whether a file stands below it, and
/// returns whether `item` itself holds a file (a file holds itself).
pub fn update_has_terminal_file(item: &mut Item) -> (r: bool)
    ensures
        final(item)@ == annotate(old(item)@),
        r == has_file(old(item)@),
{
    let mut taken = Item::File(String::new());
    std::mem::swap(item, &mut taken);
    let (annotated, r) = annotate_item(taken);
    *item = annotated;
    r
}

impl View for Item {
    type V = Node;

    open spec fn view(&self) -> Node {
        view_item(*self)
    }
}

} // verus!
