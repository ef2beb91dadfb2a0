//! The mathematical model of the heap-indexed tree: the node at an index,
//! the layout (recursive tree) rooted at an index, and the array transforms
//! that move whole subtrees.
use vstd::prelude::*;

use crate::tab::Tab;
use crate::tree::{Node, PaneId};

verus! {

/// The node at index `i`; indices past the end of the array hold `Empty`.
pub open spec fn node_at<T: Clone>(nodes: Seq<Node<T>>, i: int) -> Node<T> {
    if 0 <= i < nodes.len() {
        nodes[i]
    } else {
        Node::Empty
    }
}

pub open spec fn left_of(i: int) -> int {
    2 * i + 1
}

pub open spec fn right_of(i: int) -> int {
    2 * i + 2
}

pub open spec fn parent_of(i: int) -> int {
    (i - 1) / 2
}

/// The other child of the parent of `i` (for `i > 0`).
pub open spec fn sibling_of(i: int) -> int {
    if i % 2 == 1 {
        i + 1
    } else {
        i - 1
    }
}

/// Index `q` lies in the heap subtree rooted at index `r`.
pub open spec fn in_subtree(q: int, r: int) -> bool
    decreases q,
{
    if q == r {
        true
    } else if q > r && q > 0 {
        in_subtree(parent_of(q), r)
    } else {
        false
    }
}

/// A layout: the recursive tree that a heap-indexed array encodes.
#[verifier::reject_recursive_types(T)]
pub enum Layout<T: Clone + 'static> {
    /// No node here.
    Blank,
    /// A node, with the layouts of its children (both `Blank` unless the node
    /// is a split).
    Part { node: Node<T>, first: Box<Layout<T>>, second: Box<Layout<T>> },
}

/// The layout rooted at index `i`: a split has the layouts of its two
/// children; a leaf has none; an empty slot, or one past the end, is blank.
pub open spec fn subtree_at<T: Clone>(nodes: Seq<Node<T>>, i: int) -> Layout<T>
    decreases (if 0 <= i < nodes.len() { nodes.len() - i } else { 0 }),
{
    if i < 0 || i >= nodes.len() {
        Layout::Blank
    } else {
        match nodes[i] {
            Node::Empty => Layout::Blank,
            Node::Split { .. } => Layout::Part {
                node: nodes[i],
                first: Box::new(subtree_at(nodes, left_of(i))),
                second: Box::new(subtree_at(nodes, right_of(i))),
            },
            Node::Leaf { .. } => Layout::Part {
                node: nodes[i],
                first: Box::new(Layout::Blank),
                second: Box::new(Layout::Blank),
            },
        }
    }
}

/// Every node of layout `l`, placed with its root at index `i`, lands on an
/// index below `usize::MAX`.
pub open spec fn layout_fits<T: Clone>(l: Layout<T>, i: int) -> bool
    decreases l,
{
    match l {
        Layout::Blank => true,
        Layout::Part { node, first, second } => {
            &&& 0 <= i < usize::MAX
            &&& layout_fits(*first, left_of(i))
            &&& layout_fits(*second, right_of(i))
        },
    }
}

/// The array grown with `Empty` slots so that index `i` exists.
pub open spec fn grown<T: Clone>(nodes: Seq<Node<T>>, i: int) -> Seq<Node<T>> {
    if i < nodes.len() {
        nodes
    } else {
        nodes + Seq::new((i + 1 - nodes.len()) as nat, |k: int| Node::<T>::Empty)
    }
}

/// Growing the array to reach `i` keeps every node already there and adds
/// only `Empty` slots.
pub proof fn lemma_grown<T: Clone>(nodes: Seq<Node<T>>, i: int)
    requires
        i >= 0,
    ensures
        grown(nodes, i).len() > i,
        grown(nodes, i).len() >= nodes.len(),
        forall|q: int| #[trigger] node_at(grown(nodes, i), q) == node_at(nodes, q),
{
    assert forall|q: int| #[trigger] node_at(grown(nodes, i), q) == node_at(nodes, q) by {
        if i >= nodes.len() && nodes.len() <= q < grown(nodes, i).len() {
            assert(grown(nodes, i)[q] == Node::<T>::Empty);
        }
    }
}

/// The array after every node reachable from index `i` through split nodes
/// is blanked, in pre-order; `n` bounds the indices visited.
pub open spec fn blank_subtree<T: Clone>(nodes: Seq<Node<T>>, i: int, n: int) -> Seq<Node<T>>
    decreases (if 0 <= i < n { n - i } else { 0 }),
{
    if i < 0 || i >= n || i >= nodes.len() {
        nodes
    } else {
        match nodes[i] {
            Node::Empty => nodes,
            Node::Split { .. } => blank_subtree(
                blank_subtree(nodes.update(i, Node::Empty), left_of(i), n),
                right_of(i),
                n,
            ),
            Node::Leaf { .. } => nodes.update(i, Node::Empty),
        }
    }
}

/// The array after layout `l` is written with its root at index `i`, in
/// pre-order, growing the array where an index does not exist yet.
pub open spec fn place_layout<T: Clone>(nodes: Seq<Node<T>>, i: int, l: Layout<T>) -> Seq<Node<T>>
    decreases l,
{
    match l {
        Layout::Blank => nodes,
        Layout::Part { node, first, second } => place_layout(
            place_layout(grown(nodes, i).update(i, node), left_of(i), *first),
            right_of(i),
            *second,
        ),
    }
}

/// The tabs of a layout, leaf by leaf from the first child to the second.
pub open spec fn layout_tabs<T: Clone>(l: Layout<T>) -> Seq<Tab<T>>
    decreases l,
{
    match l {
        Layout::Blank => Seq::empty(),
        Layout::Part { node, first, second } => match node {
            Node::Leaf { tabs, .. } => tabs@,
            Node::Split { .. } => layout_tabs(*first) + layout_tabs(*second),
            Node::Empty => Seq::empty(),
        },
    }
}

/// The pane identifiers of a layout, leaf by leaf from the first child to the
/// second.
pub open spec fn layout_panes<T: Clone>(l: Layout<T>) -> Seq<PaneId>
    decreases l,
{
    match l {
        Layout::Blank => Seq::empty(),
        Layout::Part { node, first, second } => match node {
            Node::Leaf { pane, .. } => seq![pane],
            Node::Split { .. } => layout_panes(*first) + layout_panes(*second),
            Node::Empty => Seq::empty(),
        },
    }
}

/// The first index of `s` whose element satisfies `p`.
pub open spec fn first_index<A>(s: Seq<A>, p: spec_fn(A) -> bool) -> Option<int>
    decreases s.len(),
{
    if s.len() == 0 {
        None
    } else if p(s[0]) {
        Some(0)
    } else {
        match first_index(s.drop_first(), p) {
            Some(i) => Some(i + 1),
            None => None,
        }
    }
}

/// `first_index` is the least index that satisfies the predicate.
pub proof fn lemma_first_index<A>(s: Seq<A>, p: spec_fn(A) -> bool)
    ensures
        first_index(s, p) matches Some(i) ==> 0 <= i < s.len() && p(s[i]) && forall|j: int| 0 <= j < i ==> !p(#[trigger] s[j]),
        first_index(s, p) is None ==> forall|j: int| 0 <= j < s.len() ==> !p(#[trigger] s[j]),
    decreases s.len(),
{
    if s.len() > 0 && !p(s[0]) {
        lemma_first_index(s.drop_first(), p);
        assert forall|j: int| 1 <= j < s.len() implies s[j] == s.drop_first()[j - 1] by {}
    }
}

/// An index that satisfies `p` with no earlier one is `first_index`.
pub proof fn lemma_first_index_is<A>(s: Seq<A>, p: spec_fn(A) -> bool, i: int)
    requires
        0 <= i < s.len(),
        p(s[i]),
        forall|j: int| 0 <= j < i ==> !p(#[trigger] s[j]),
    ensures
        first_index(s, p) == Some(i),
{
    lemma_first_index(s, p);
    match first_index(s, p) {
        Some(k) => {
            if k < i {
                assert(!p(s[k]));
            } else if k > i {
                assert(!p(s[i]));
            }
        },
        None => {
            assert(!p(s[i]));
        },
    }
}

/// No index satisfies `p`, so `first_index` is `None`.
pub proof fn lemma_first_index_none<A>(s: Seq<A>, p: spec_fn(A) -> bool)
    requires
        forall|j: int| 0 <= j < s.len() ==> !p(#[trigger] s[j]),
    ensures
        first_index(s, p) is None,
{
    lemma_first_index(s, p);
    if let Some(k) = first_index(s, p) {
        assert(!p(s[k]));
    }
}

/// Two sequences of one length whose elements satisfy their predicates at the
/// same positions have the same first index.
pub proof fn lemma_first_index_agree<A, B>(s: Seq<A>, p: spec_fn(A) -> bool, t: Seq<B>, q: spec_fn(B) -> bool)
    requires
        s.len() == t.len(),
        forall|k: int| 0 <= k < s.len() ==> p(#[trigger] s[k]) == q(t[k]),
    ensures
        first_index(s, p) == first_index(t, q),
{
    lemma_first_index(s, p);
    match first_index(s, p) {
        Some(i) => {
            assert(p(s[i]));
            assert forall|j: int| 0 <= j < i implies !q(#[trigger] t[j]) by {
                assert(!p(s[j]));
            }
            lemma_first_index_is(t, q, i);
        },
        None => {
            assert forall|j: int| 0 <= j < t.len() implies !q(#[trigger] t[j]) by {
                assert(!p(s[j]));
            }
            lemma_first_index_none(t, q);
        },
    }
}

// ── Lemmas ──────────────────────────────────────────────────────────────────

pub proof fn lemma_in_subtree_ge(q: int, r: int)
    ensures
        in_subtree(q, r) ==> q >= r,
    decreases q,
{
    if q != r && q > r && q > 0 {
        lemma_in_subtree_ge(parent_of(q), r);
    }
}

pub proof fn lemma_in_subtree_children(q: int, r: int)
    requires
        r >= 0,
    ensures
        in_subtree(q, left_of(r)) ==> in_subtree(q, r) && q != r,
        in_subtree(q, right_of(r)) ==> in_subtree(q, r) && q != r,
        in_subtree(q, r) && q != r ==> in_subtree(q, left_of(r)) || in_subtree(q, right_of(r)),
        !(in_subtree(q, left_of(r)) && in_subtree(q, right_of(r))),
    decreases q,
{
    lemma_in_subtree_ge(q, r);
    lemma_in_subtree_ge(q, left_of(r));
    lemma_in_subtree_ge(q, right_of(r));
    assert(in_subtree(r, r));
    if q > 0 {
        let p = parent_of(q);
        assert(p < q);
        lemma_in_subtree_ge(p, r);
        lemma_in_subtree_ge(p, left_of(r));
        lemma_in_subtree_ge(p, right_of(r));
        if p >= r {
            lemma_in_subtree_children(p, r);
        }
        if q == left_of(r) {
            assert(p == r);
            assert(in_subtree(q, r));
        } else if q == right_of(r) {
            assert(p == r);
            assert(in_subtree(q, r));
        } else if q > r {
            assert(in_subtree(q, r) == in_subtree(p, r));
            assert(in_subtree(q, left_of(r)) == (q > left_of(r) && in_subtree(p, left_of(r))));
            assert(in_subtree(q, right_of(r)) == (q > right_of(r) && in_subtree(p, right_of(r))));
            if in_subtree(q, r) && p == r {
                assert(q == left_of(r) || q == right_of(r));
            }
        }
    }
}

/// Blanking the subtree at `i` leaves every index outside that subtree, and
/// the length, unchanged.
pub proof fn lemma_blank_frame<T: Clone>(nodes: Seq<Node<T>>, i: int, n: int)
    requires
        i >= 0,
    ensures
        blank_subtree(nodes, i, n).len() == nodes.len(),
        forall|q: int| !in_subtree(q, i) ==> #[trigger] node_at(blank_subtree(nodes, i, n), q) == node_at(nodes, q),
    decreases (if 0 <= i < n { n - i } else { 0 }),
{
    if i < 0 || i >= n || i >= nodes.len() {
    } else {
        match nodes[i] {
            Node::Split { .. } => {
                let a = nodes.update(i, Node::Empty);
                lemma_blank_frame(a, left_of(i), n);
                let b = blank_subtree(a, left_of(i), n);
                lemma_blank_frame(b, right_of(i), n);
                assert forall|q: int| !in_subtree(q, i) implies #[trigger] node_at(blank_subtree(nodes, i, n), q) == node_at(nodes, q) by {
                    lemma_in_subtree_children(q, i);
                }
            },
            _ => {},
        }
    }
}

/// The layout rooted at `j` reads only the subtree at `j`.
pub proof fn lemma_subtree_local<T: Clone>(a: Seq<Node<T>>, b: Seq<Node<T>>, j: int)
    requires
        j >= 0,
        forall|q: int| in_subtree(q, j) ==> node_at(a, q) == node_at(b, q),
    ensures
        subtree_at(a, j) == subtree_at(b, j),
    decreases (if j < a.len() + b.len() { a.len() + b.len() - j } else { 0 }),
{
    assert(in_subtree(j, j));
    assert(node_at(a, j) == node_at(b, j));
    if j < a.len() && a[j] is Split {
        assert forall|q: int| in_subtree(q, left_of(j)) implies node_at(a, q) == node_at(b, q) by {
            lemma_in_subtree_children(q, j);
        }
        assert forall|q: int| in_subtree(q, right_of(j)) implies node_at(a, q) == node_at(b, q) by {
            lemma_in_subtree_children(q, j);
        }
        lemma_subtree_local(a, b, left_of(j));
        lemma_subtree_local(a, b, right_of(j));
    }
}

/// The layout rooted at `i` only holds nodes at existing indices, so it fits
/// where it stands.
pub proof fn lemma_subtree_fits<T: Clone>(nodes: Seq<Node<T>>, i: int)
    requires
        i >= 0,
        nodes.len() <= usize::MAX,
    ensures
        layout_fits(subtree_at(nodes, i), i),
    decreases (if 0 <= i < nodes.len() { nodes.len() - i } else { 0 }),
{
    if i < nodes.len() && nodes[i] is Split {
        lemma_subtree_fits(nodes, left_of(i));
        lemma_subtree_fits(nodes, right_of(i));
    }
    assert(layout_fits(Layout::<T>::Blank, left_of(i)));
    assert(layout_fits(Layout::<T>::Blank, right_of(i)));
}

/// A layout that fits at index `a` also fits at any lower index `b`.
pub proof fn lemma_fits_lower<T: Clone>(l: Layout<T>, a: int, b: int)
    requires
        layout_fits(l, a),
        0 <= b <= a,
    ensures
        layout_fits(l, b),
    decreases l,
{
    if let Layout::Part { node, first, second } = l {
        lemma_fits_lower(*first, left_of(a), left_of(b));
        lemma_fits_lower(*second, right_of(a), right_of(b));
    }
}

/// Writing a layout never shortens the array.
pub proof fn lemma_place_len<T: Clone>(nodes: Seq<Node<T>>, i: int, l: Layout<T>)
    requires
        i >= 0,
    ensures
        place_layout(nodes, i, l).len() >= nodes.len(),
        l is Part ==> place_layout(nodes, i, l).len() > i,
    decreases l,
{
    if let Layout::Part { node, first, second } = l {
        let g = grown(nodes, i).update(i, node);
        lemma_place_len(g, left_of(i), *first);
        lemma_place_len(place_layout(g, left_of(i), *first), right_of(i), *second);
    }
}

/// Writing a layout at `i` leaves every existing index outside the subtree
/// at `i` unchanged.
pub proof fn lemma_place_frame<T: Clone>(nodes: Seq<Node<T>>, i: int, l: Layout<T>)
    requires
        i >= 0,
    ensures
        place_layout(nodes, i, l).len() >= nodes.len(),
        forall|q: int| 0 <= q < nodes.len() && !in_subtree(q, i) ==> #[trigger] place_layout(nodes, i, l)[q] == nodes[q],
    decreases l,
{
    lemma_place_len(nodes, i, l);
    if let Layout::Part { node, first, second } = l {
        let g = grown(nodes, i).update(i, node);
        lemma_place_frame(g, left_of(i), *first);
        let h = place_layout(g, left_of(i), *first);
        lemma_place_frame(h, right_of(i), *second);
        assert forall|q: int| 0 <= q < nodes.len() && !in_subtree(q, i) implies #[trigger] place_layout(nodes, i, l)[q] == nodes[q] by {
            lemma_in_subtree_children(q, i);
            assert(in_subtree(i, i));
        }
    }
}

/// Every node of layout `l`, placed with its root at index `i`, lands below
/// index `n`.
pub open spec fn layout_below<T: Clone>(l: Layout<T>, i: int, n: int) -> bool
    decreases l,
{
    match l {
        Layout::Blank => true,
        Layout::Part { node, first, second } => {
            &&& 0 <= i < n
            &&& layout_below(*first, left_of(i), n)
            &&& layout_below(*second, right_of(i), n)
        },
    }
}

pub proof fn lemma_subtree_below<T: Clone>(nodes: Seq<Node<T>>, i: int)
    requires
        i >= 0,
    ensures
        layout_below(subtree_at(nodes, i), i, nodes.len() as int),
    decreases (if 0 <= i < nodes.len() { nodes.len() - i } else { 0 }),
{
    if i < nodes.len() && nodes[i] is Split {
        lemma_subtree_below(nodes, left_of(i));
        lemma_subtree_below(nodes, right_of(i));
    }
    assert(layout_below(Layout::<T>::Blank, left_of(i), nodes.len() as int));
    assert(layout_below(Layout::<T>::Blank, right_of(i), nodes.len() as int));
}

pub proof fn lemma_below_lower<T: Clone>(l: Layout<T>, a: int, b: int, n: int)
    requires
        layout_below(l, a, n),
        0 <= b <= a,
    ensures
        layout_below(l, b, n),
    decreases l,
{
    if let Layout::Part { node, first, second } = l {
        lemma_below_lower(*first, left_of(a), left_of(b), n);
        lemma_below_lower(*second, right_of(a), right_of(b), n);
    }
}

/// Writing a layout that stays below the array's length keeps the length.
pub proof fn lemma_place_within<T: Clone>(nodes: Seq<Node<T>>, i: int, l: Layout<T>)
    requires
        layout_below(l, i, nodes.len() as int),
    ensures
        place_layout(nodes, i, l).len() == nodes.len(),
    decreases l,
{
    if let Layout::Part { node, first, second } = l {
        let g = grown(nodes, i).update(i, node);
        assert(g.len() == nodes.len());
        lemma_place_within(g, left_of(i), *first);
        lemma_place_within(place_layout(g, left_of(i), *first), right_of(i), *second);
    }
}

/// In an array of at most a third of `usize::MAX` slots, the layout at `i`
/// fits wherever it is placed at an index up to `3 * i + 2`.
pub proof fn lemma_fits_spread<T: Clone>(nodes: Seq<Node<T>>, i: int, j: int)
    requires
        0 <= i,
        0 <= j <= 3 * i + 2,
        3 * nodes.len() <= usize::MAX,
    ensures
        layout_fits(subtree_at(nodes, i), j),
    decreases (if 0 <= i < nodes.len() { nodes.len() - i } else { 0 }),
{
    if i < nodes.len() && nodes[i] is Split {
        lemma_fits_spread(nodes, left_of(i), left_of(j));
        lemma_fits_spread(nodes, right_of(i), right_of(j));
    }
    assert(layout_fits(Layout::<T>::Blank, left_of(j)));
    assert(layout_fits(Layout::<T>::Blank, right_of(j)));
}

// ── Relocating a subtree ────────────────────────────────────────────────────

/// Index `i` is reached from index `r` through split nodes: the slots on the
/// path from `r` down to `i` all exist and are not `Empty`, and those above
/// `i` are splits.
pub open spec fn reaches<T: Clone>(nodes: Seq<Node<T>>, r: int, i: int) -> bool
    decreases (if i > r { i } else { 0 }),
{
    if i == r {
        0 <= r < nodes.len() && !(nodes[r] is Empty)
    } else if i > r && i > 0 {
        let p = parent_of(i);
        &&& reaches(nodes, r, p)
        &&& nodes[p] is Split
        &&& i < nodes.len()
        &&& !(nodes[i] is Empty)
    } else {
        false
    }
}

/// Where index `i` of the subtree rooted at `r` lands when that subtree is
/// written with its root at `k`.
pub open spec fn relocated(r: int, k: int, i: int) -> int
    decreases (if i > r { i } else { 0 }),
{
    if i > r && i > 0 {
        let p = parent_of(i);
        if i == left_of(p) {
            left_of(relocated(r, k, p))
        } else {
            right_of(relocated(r, k, p))
        }
    } else {
        k
    }
}

pub proof fn lemma_reaches_root<T: Clone>(nodes: Seq<Node<T>>, r: int, i: int)
    requires
        reaches(nodes, r, i),
    ensures
        reaches(nodes, r, r),
        in_subtree(i, r),
        r >= 0,
    decreases (if i > r { i } else { 0 }),
{
    if i != r {
        lemma_reaches_root(nodes, r, parent_of(i));
    }
}

/// Below its root, a reached index lies under one child of the root, which
/// is a split, and is reached from that child.
pub proof fn lemma_reaches_descend<T: Clone>(nodes: Seq<Node<T>>, r: int, i: int)
    requires
        reaches(nodes, r, i),
        i != r,
    ensures
        nodes[r] is Split,
        (in_subtree(i, left_of(r)) && reaches(nodes, left_of(r), i)) || (in_subtree(i, right_of(r)) && reaches(
            nodes,
            right_of(r),
            i,
        )),
    decreases i,
{
    let p = parent_of(i);
    lemma_reaches_root(nodes, r, i);
    if p == r {
        assert(in_subtree(i, i));
    } else {
        lemma_reaches_descend(nodes, r, p);
        lemma_in_subtree_ge(p, left_of(r));
        lemma_in_subtree_ge(p, right_of(r));
    }
}

proof fn lemma_relocated_child(r: int, k: int, i: int)
    requires
        r >= 0,
    ensures
        in_subtree(i, left_of(r)) ==> relocated(r, k, i) == relocated(left_of(r), left_of(k), i),
        in_subtree(i, right_of(r)) ==> relocated(r, k, i) == relocated(right_of(r), right_of(k), i),
    decreases i,
{
    lemma_in_subtree_ge(i, left_of(r));
    lemma_in_subtree_ge(i, right_of(r));
    assert(relocated(r, k, r) == k);
    if i > 0 {
        let p = parent_of(i);
        lemma_relocated_child(r, k, p);
        if i == left_of(r) || i == right_of(r) {
            assert(p == r);
        } else {
            lemma_in_subtree_ge(p, left_of(r));
            lemma_in_subtree_ge(p, right_of(r));
            if in_subtree(i, left_of(r)) {
                assert(in_subtree(p, left_of(r)));
                assert(relocated(r, k, p) == relocated(left_of(r), left_of(k), p));
            }
            if in_subtree(i, right_of(r)) {
                assert(in_subtree(p, right_of(r)));
                assert(relocated(r, k, p) == relocated(right_of(r), right_of(k), p));
            }
        }
    }
}

proof fn lemma_relocated_within(r: int, k: int, i: int)
    requires
        in_subtree(i, r),
        k >= 0,
    ensures
        in_subtree(relocated(r, k, i), k),
        relocated(r, k, i) >= k,
    decreases i,
{
    lemma_in_subtree_ge(i, r);
    if i != r {
        let p = parent_of(i);
        lemma_relocated_within(r, k, p);
        let x = relocated(r, k, p);
        assert(parent_of(left_of(x)) == x);
        assert(parent_of(right_of(x)) == x);
    }
}

/// Writing the subtree at `r` with its root at `k` puts every node reached
/// from `r` at its relocated index.
pub proof fn lemma_place_reaches<T: Clone>(base: Seq<Node<T>>, nodes: Seq<Node<T>>, r: int, k: int, i: int)
    requires
        reaches(nodes, r, i),
        k >= 0,
    ensures
        0 <= relocated(r, k, i) < place_layout(base, k, subtree_at(nodes, r)).len(),
        place_layout(base, k, subtree_at(nodes, r))[relocated(r, k, i)] == nodes[i],
    decreases (if 0 <= r < nodes.len() { nodes.len() - r } else { 0 }),
{
    lemma_reaches_root(nodes, r, i);
    let l = subtree_at(nodes, r);
    let g = grown(base, k).update(k, nodes[r]);
    lemma_grown(base, k);
    assert(l == Layout::Part {
        node: nodes[r],
        first: Box::new(if nodes[r] is Split { subtree_at(nodes, left_of(r)) } else { Layout::Blank }),
        second: Box::new(if nodes[r] is Split { subtree_at(nodes, right_of(r)) } else { Layout::Blank }),
    });
    let first = if nodes[r] is Split { subtree_at(nodes, left_of(r)) } else { Layout::<T>::Blank };
    let second = if nodes[r] is Split { subtree_at(nodes, right_of(r)) } else { Layout::<T>::Blank };
    let h = place_layout(g, left_of(k), first);
    lemma_place_frame(g, left_of(k), first);
    lemma_place_frame(h, right_of(k), second);
    lemma_in_subtree_children(k, k);
    lemma_in_subtree_ge(k, left_of(k));
    lemma_in_subtree_ge(k, right_of(k));
    if i == r {
        assert(h[k] == g[k]);
    } else {
        lemma_reaches_descend(nodes, r, i);
        lemma_relocated_child(r, k, i);
        if in_subtree(i, left_of(r)) && reaches(nodes, left_of(r), i) {
            lemma_place_reaches(g, nodes, left_of(r), left_of(k), i);
            let q = relocated(left_of(r), left_of(k), i);
            lemma_relocated_within(left_of(r), left_of(k), i);
            lemma_in_subtree_children(q, k);
        } else {
            lemma_place_reaches(h, nodes, right_of(r), right_of(k), i);
        }
    }
}

/// A layout that fits at `k` puts every node reached from its root below
/// `usize::MAX`.
pub proof fn lemma_fits_reaches<T: Clone>(nodes: Seq<Node<T>>, r: int, k: int, i: int)
    requires
        reaches(nodes, r, i),
        layout_fits(subtree_at(nodes, r), k),
    ensures
        relocated(r, k, i) < usize::MAX,
    decreases (if 0 <= r < nodes.len() { nodes.len() - r } else { 0 }),
{
    lemma_reaches_root(nodes, r, i);
    if i != r {
        lemma_reaches_descend(nodes, r, i);
        lemma_relocated_child(r, k, i);
        if in_subtree(i, left_of(r)) && reaches(nodes, left_of(r), i) {
            lemma_fits_reaches(nodes, left_of(r), left_of(k), i);
        } else {
            lemma_fits_reaches(nodes, right_of(r), right_of(k), i);
        }
    }
}

} // verus!
