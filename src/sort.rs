//! The order of siblings: folders before files, each kind by name.

use vstd::prelude::*;
use vstd::multiset::Multiset;
use vstd::string::StrSliceExecFns;
use std::cmp::Ordering;
use crate::item::{Item, Node, view_items, lemma_view_items};

verus! {

/// Lexicographic order of names, character by character (for text this is
/// also the order of its UTF-8 bytes).
pub open spec fn name_less(a: Seq<char>, b: Seq<char>) -> bool
    decreases a.len(),
{
    if b.len() == 0 {
        false
    } else if a.len() == 0 {
        true
    } else if a[0] != b[0] {
        (a[0] as int) < (b[0] as int)
    } else {
        name_less(a.drop_first(), b.drop_first())
    }
}

pub proof fn lemma_name_less_asymmetric(a: Seq<char>, b: Seq<char>)
    ensures
        name_less(a, b) ==> !name_less(b, a),
        !name_less(a, a),
    decreases a.len(),
{
    if a.len() > 0 && b.len() > 0 && a[0] == b[0] {
        lemma_name_less_asymmetric(a.drop_first(), b.drop_first());
    }
    if a.len() > 0 {
        lemma_name_less_asymmetric(a.drop_first(), a.drop_first());
    }
}

pub proof fn lemma_name_less_transitive(a: Seq<char>, b: Seq<char>, c: Seq<char>)
    requires
        name_less(a, b),
        name_less(b, c),
    ensures
        name_less(a, c),
    decreases a.len(),
{
    if a.len() > 0 && a[0] == b[0] && b[0] == c[0] {
        lemma_name_less_transitive(a.drop_first(), b.drop_first(), c.drop_first());
    }
}

pub proof fn lemma_name_less_total(a: Seq<char>, b: Seq<char>)
    ensures
        a == b || name_less(a, b) || name_less(b, a),
    decreases a.len(),
{
    if a.len() > 0 && b.len() > 0 && a[0] == b[0] {
        lemma_name_less_total(a.drop_first(), b.drop_first());
        if a.drop_first() == b.drop_first() {
            assert(a =~= seq![a[0]] + a.drop_first());
            assert(b =~= seq![b[0]] + b.drop_first());
        }
    }
    if a.len() == 0 && b.len() == 0 {
        assert(a =~= b);
    }
    if a.len() > 0 && b.len() > 0 && a[0] != b[0] {
        assert((a[0] as int) != (b[0] as int));
    }
}

pub open spec fn node_name(n: Node) -> Seq<char> {
    match n {
        Node::File(name) => name,
        Node::Folder(name, _, _) => name,
    }
}

/// Whether `a` stands before `b` among siblings: a folder before a file, and
/// within one kind the lesser name first.
pub open spec fn node_before(a: Node, b: Node) -> bool {
    if (a is Folder) != (b is Folder) {
        a is Folder
    } else {
        name_less(node_name(a), node_name(b))
    }
}

pub proof fn lemma_node_before_order(a: Node, b: Node, c: Node)
    ensures
        node_before(a, b) ==> !node_before(b, a),
        node_before(a, b) && node_before(b, c) ==> node_before(a, c),
{
    lemma_name_less_asymmetric(node_name(a), node_name(b));
    if node_before(a, b) && node_before(b, c) && (a is Folder) == (c is Folder) {
        lemma_name_less_transitive(node_name(a), node_name(b), node_name(c));
    }
}

/// Whether `ns` is in sibling order.
pub open spec fn sibling_sorted(ns: Seq<Node>) -> bool {
    forall|i: int, j: int| 0 <= i < j < ns.len() ==> !node_before(#[trigger] ns[j], #[trigger] ns[i])
}

/// Compares two names in [`name_less`] order.
pub fn compare_names(a: &str, b: &str) -> (r: Ordering)
    ensures
        (r == Ordering::Less) == name_less(a@, b@),
        (r == Ordering::Greater) == name_less(b@, a@),
        (r == Ordering::Equal) == (a@ == b@),
{
    let n = a.unicode_len();
    let m = b.unicode_len();
    let mut i: usize = 0;
    proof {
        assert(a@.subrange(0, n as int) =~= a@);
        assert(b@.subrange(0, m as int) =~= b@);
        lemma_name_less_asymmetric(a@, b@);
    }
    while i < n && i < m
        invariant
            n == a@.len(),
            m == b@.len(),
            i <= n,
            i <= m,
            a@.subrange(0, i as int) =~= b@.subrange(0, i as int),
            name_less(a@, b@) == name_less(a@.subrange(i as int, n as int), b@.subrange(i as int, m as int)),
            name_less(b@, a@) == name_less(b@.subrange(i as int, m as int), a@.subrange(i as int, n as int)),
        decreases n - i,
    {
        let x = a.get_char(i);
        let y = b.get_char(i);
        let ghost sa = a@.subrange(i as int, n as int);
        let ghost sb = b@.subrange(i as int, m as int);
        if x != y {
            proof {
                assert(sa[0] == x && sb[0] == y);
                assert((x as int) != (y as int));
                assert(a@[i as int] != b@[i as int]);
            }
            if (x as u32) < (y as u32) {
                return Ordering::Less;
            } else {
                return Ordering::Greater;
            }
        }
        proof {
            assert(sa.drop_first() =~= a@.subrange(i + 1, n as int));
            assert(sb.drop_first() =~= b@.subrange(i + 1, m as int));
        }
        i = i + 1;
    }
    if i < m {
        proof {
            assert(a@ =~= a@.subrange(0, i as int));
            assert(a@.len() != b@.len());
        }
        Ordering::Less
    } else if i < n {
        proof {
            assert(b@ =~= b@.subrange(0, i as int));
            assert(a@.len() != b@.len());
        }
        Ordering::Greater
    } else {
        proof {
            assert(a@ =~= a@.subrange(0, i as int));
            assert(b@ =~= b@.subrange(0, i as int));
        }
        Ordering::Equal
    }
}

/// Compares two siblings: folders before files, and within one kind by name.
pub fn sort_items(a: &Item, b: &Item) -> (r: Ordering)
    ensures
        (r == Ordering::Less) == node_before(a@, b@),
        (r == Ordering::Greater) == node_before(b@, a@),
        (r == Ordering::Equal) == ((a@ is Folder) == (b@ is Folder) && node_name(a@) == node_name(b@)),
{
    proof {
        lemma_name_less_total(node_name(a@), node_name(b@));
        lemma_name_less_asymmetric(node_name(a@), node_name(b@));
    }
    match (a, b) {
        (Item::Folder(name1, ..), Item::Folder(name2, ..)) => compare_names(name1.as_str(), name2.as_str()),
        (Item::Folder(..), Item::File(..)) => Ordering::Less,
        (Item::File(..), Item::Folder(..)) => Ordering::Greater,
        (Item::File(name1), Item::File(name2)) => compare_names(name1.as_str(), name2.as_str()),
    }
}

/// `s` with `x` placed before the first node that `x` stands before.
pub open spec fn insert_sorted(x: Node, s: Seq<Node>) -> Seq<Node>
    decreases s.len(),
{
    if s.len() == 0 {
        seq![x]
    } else if node_before(x, s[0]) {
        seq![x] + s
    } else {
        seq![s[0]] + insert_sorted(x, s.drop_first())
    }
}

/// The nodes of `s` in sibling order, equal nodes kept in the order of `s`.
pub open spec fn sort_nodes(s: Seq<Node>) -> Seq<Node>
    decreases s.len(),
{
    if s.len() == 0 {
        s
    } else {
        insert_sorted(s.last(), sort_nodes(s.drop_last()))
    }
}

/// Where [`insert_sorted`] places `x`.
pub open spec fn insert_pos(x: Node, s: Seq<Node>) -> int
    decreases s.len(),
{
    if s.len() == 0 || node_before(x, s[0]) {
        0
    } else {
        1 + insert_pos(x, s.drop_first())
    }
}

pub proof fn lemma_insert_pos(x: Node, s: Seq<Node>)
    ensures
        0 <= insert_pos(x, s) <= s.len(),
        forall|j: int| 0 <= j < insert_pos(x, s) ==> !node_before(x, #[trigger] s[j]),
        insert_pos(x, s) < s.len() ==> node_before(x, s[insert_pos(x, s)]),
        insert_sorted(x, s) =~= s.insert(insert_pos(x, s), x),
    decreases s.len(),
{
    if s.len() > 0 && !node_before(x, s[0]) {
        lemma_insert_pos(x, s.drop_first());
        assert forall|j: int| 0 <= j < insert_pos(x, s) implies !node_before(x, #[trigger] s[j]) by {
            if j > 0 {
                assert(s[j] == s.drop_first()[j - 1]);
            }
        }
    }
}

/// Only one position satisfies the placement conditions of [`insert_pos`].
pub proof fn lemma_insert_pos_unique(x: Node, s: Seq<Node>, p: int)
    requires
        0 <= p <= s.len(),
        forall|j: int| 0 <= j < p ==> !node_before(x, #[trigger] s[j]),
        p < s.len() ==> node_before(x, s[p]),
    ensures
        p == insert_pos(x, s),
{
    lemma_insert_pos(x, s);
    let q = insert_pos(x, s);
    if p < q {
        assert(!node_before(x, s[p]));
    }
    if q < p {
        assert(!node_before(x, s[q]));
    }
}

pub proof fn lemma_insert_keeps_sorted(x: Node, s: Seq<Node>, p: int)
    requires
        sibling_sorted(s),
        0 <= p <= s.len(),
        forall|j: int| 0 <= j < p ==> !node_before(x, #[trigger] s[j]),
        p < s.len() ==> node_before(x, s[p]),
    ensures
        sibling_sorted(s.insert(p, x)),
{
    let t = s.insert(p, x);
    assert forall|i: int, j: int| 0 <= i < j < t.len() implies !node_before(
        #[trigger] t[j],
        #[trigger] t[i],
    ) by {
        if j == p {
            assert(t[i] == s[i]);
        } else if i == p {
            let y = s[j - 1];
            assert(t[j] == y);
            lemma_node_before_order(x, s[p], x);
            lemma_node_before_order(y, x, s[p]);
            if j - 1 > p {
                assert(!node_before(s[j - 1], s[p]));
            }
        } else if i < p {
            assert(t[i] == s[i]);
            if j < p {
                assert(t[j] == s[j]);
            } else {
                assert(t[j] == s[j - 1]);
            }
        } else {
            assert(t[i] == s[i - 1]);
            assert(t[j] == s[j - 1]);
        }
    }
}

/// Siblings come out of [`sort_nodes`] in sibling order: folders before
/// files, and each kind by name.
pub proof fn lemma_sort_nodes_sorted(s: Seq<Node>)
    ensures
        sibling_sorted(sort_nodes(s)),
        sort_nodes(s).len() == s.len(),
    decreases s.len(),
{
    if s.len() > 0 {
        let prev = sort_nodes(s.drop_last());
        lemma_sort_nodes_sorted(s.drop_last());
        lemma_insert_pos(s.last(), prev);
        lemma_insert_keeps_sorted(s.last(), prev, insert_pos(s.last(), prev));
    }
}

/// Sorts siblings into sibling order, as [`sort_nodes`] does.
pub fn sort_siblings(items: Vec<Item>) -> (r: Vec<Item>)
    ensures
        view_items(r@) == sort_nodes(view_items(items@)),
        r@.to_multiset() =~= items@.to_multiset(),
{
    broadcast use vstd::multiset::group_multiset_axioms;

    let ghost all = items@;
    let mut rest = items;
    let mut out: Vec<Item> = Vec::new();
    proof {
        vstd::seq_lib::to_multiset_len(out@);
        assert(out@.to_multiset() =~= Multiset::empty());
        lemma_view_items(all);
        lemma_view_items(out@);
        assert(view_items(all.take(0)) =~= Seq::empty());
        assert(view_items(out@) =~= Seq::empty());
    }
    while rest.len() > 0
        invariant
            out@.to_multiset().add(rest@.to_multiset()) =~= all.to_multiset(),
            out.len() + rest.len() == all.len(),
            rest@ =~= all.subrange(out.len() as int, all.len() as int),
            view_items(out@) == sort_nodes(view_items(all.take(out.len() as int))),
        decreases rest.len(),
    {
        let ghost k = out.len() as int;
        let ghost old_rest = rest@;
        let x = rest.remove(0);
        proof {
            assert(old_rest.remove(0) =~= rest@);
            assert(old_rest[0] == x);
            assert(old_rest.contains(x));
            vstd::seq_lib::to_multiset_contains(old_rest, x);
            vstd::seq_lib::to_multiset_remove(old_rest, 0);
            lemma_view_items(out@);
        }
        let mut p: usize = 0;
        while p < out.len()
            invariant
                p <= out.len(),
                forall|j: int| 0 <= j < p ==> !node_before(x@, #[trigger] out@[j]@),
            ensures
                p <= out.len(),
                forall|j: int| 0 <= j < p ==> !node_before(x@, #[trigger] out@[j]@),
                p < out.len() ==> node_before(x@, out@[p as int]@),
            decreases out.len() - p,
        {
            if matches!(sort_items(&x, &out[p]), Ordering::Less) {
                break;
            }
            p = p + 1;
        }
        let ghost before = out@;
        let ghost vb = view_items(before);
        out.insert(p, x);
        proof {
            assert(out@ =~= before.insert(p as int, x));
            vstd::seq_lib::to_multiset_insert(before, p as int, x);
            lemma_view_items(out@);
            assert(view_items(out@) =~= vb.insert(p as int, x@));
            assert forall|j: int| 0 <= j < p implies !node_before(x@, #[trigger] vb[j]) by {
                assert(vb[j] == before[j]@);
            }
            lemma_insert_pos_unique(x@, vb, p as int);
            lemma_insert_pos(x@, vb);
            let pre = view_items(all.take(k + 1));
            lemma_view_items(all.take(k + 1));
            lemma_view_items(all.take(k));
            assert(pre.drop_last() =~= view_items(all.take(k)));
            assert(pre.last() == x@);
        }
    }
    proof {
        vstd::seq_lib::to_multiset_len(rest@);
        assert(rest@.to_multiset() =~= Multiset::empty());
        assert(all.take(all.len() as int) =~= all);
    }
    out
}

} // verus!
