//! Moving whole subtrees of the heap-indexed array.
use vstd::prelude::*;

use crate::model::{Layout, blank_subtree, grown, in_subtree, layout_fits, left_of, lemma_blank_frame, lemma_in_subtree_children, lemma_in_subtree_ge, lemma_subtree_local, node_at, place_layout, right_of, subtree_at};
use crate::tree::Node;

verus! {

/// The index of the first (`second == false`) or second child of `i`, or
/// `None` when that index does not fit in `usize`.
pub fn child_index(i: usize, second: bool) -> (r: Option<usize>)
    ensures
        r matches Some(c) ==> c == (if second { right_of(i as int) } else { left_of(i as int) }),
        r is None ==> (if second { right_of(i as int) } else { left_of(i as int) }) > usize::MAX,
{
    if i > (usize::MAX - 2) / 2 {
        if second {
            None
        } else if i == (usize::MAX - 1) / 2 {
            Some(2 * i + 1)
        } else {
            None
        }
    } else if second {
        Some(2 * i + 2)
    } else {
        Some(2 * i + 1)
    }
}

/// Replace the node at `i` by `Empty` and return it.
pub fn take_node<T: Clone>(nodes: &mut Vec<Node<T>>, i: usize) -> (r: Node<T>)
    requires
        i < old(nodes).len(),
    ensures
        r == old(nodes)@[i as int],
        final(nodes)@ == old(nodes)@.update(i as int, Node::Empty),
{
    let mut tmp = Node::Empty;
    nodes.set_and_swap(i, &mut tmp);
    tmp
}

/// Grow the array with `Empty` slots so that index `i` exists.
pub fn ensure_index<T: Clone>(nodes: &mut Vec<Node<T>>, i: usize)
    requires
        i < usize::MAX,
    ensures
        final(nodes)@ == grown(old(nodes)@, i as int),
{
    let ghost start = nodes@;
    while nodes.len() <= i
        invariant
            i < usize::MAX,
            nodes.len() >= start.len(),
            start.len() <= i + 1 ==> nodes.len() <= i + 1,
            start.len() > i ==> nodes.len() == start.len(),
            nodes@ == start + Seq::new((nodes.len() - start.len()) as nat, |k: int| Node::<T>::Empty),
        decreases i + 1 - nodes.len(),
    {
        nodes.push(Node::Empty);
        assert(nodes@ =~= start + Seq::new((nodes.len() - start.len()) as nat, |k: int| Node::<T>::Empty));
    }
    proof {
        if start.len() > i {
            assert(nodes@ =~= start);
        } else {
            assert(nodes@ =~= grown(start, i as int));
        }
    }
}

/// Take the subtree rooted at `i` out of the array: the nodes reachable from
/// `i` are returned as a layout and blanked in the array.
pub fn take_subtree<T: Clone>(nodes: &mut Vec<Node<T>>, i: usize) -> (r: Layout<T>)
    ensures
        r == subtree_at(old(nodes)@, i as int),
        final(nodes)@ == blank_subtree(old(nodes)@, i as int, old(nodes)@.len() as int),
    decreases (if i < old(nodes)@.len() { old(nodes)@.len() - i } else { 0 }),
{
    let ghost start = nodes@;
    let ghost n = start.len() as int;
    if i >= nodes.len() {
        return Layout::Blank;
    }
    if let Node::Empty = &nodes[i] {
        return Layout::Blank;
    }
    let node = take_node(nodes, i);
    if !matches!(node, Node::Split { .. }) {
        return Layout::Part { node, first: Box::new(Layout::Blank), second: Box::new(Layout::Blank) };
    }
    let ghost a = nodes@;
    let first = match child_index(i, false) {
        Some(c) => take_subtree(nodes, c),
        None => Layout::Blank,
    };
    let ghost b = nodes@;
    proof {
        lemma_blank_frame(a, left_of(i as int), n);
        assert forall|q: int| in_subtree(q, left_of(i as int)) implies node_at(a, q) == node_at(start, q) by {
            lemma_in_subtree_ge(q, left_of(i as int));
        }
        lemma_subtree_local(a, start, left_of(i as int));
    }
    let second = match child_index(i, true) {
        Some(c) => take_subtree(nodes, c),
        None => Layout::Blank,
    };
    proof {
        assert forall|q: int| in_subtree(q, right_of(i as int)) implies node_at(b, q) == node_at(start, q) by {
            lemma_in_subtree_ge(q, right_of(i as int));
            lemma_in_subtree_children(q, i as int);
        }
        lemma_subtree_local(b, start, right_of(i as int));
        assert(a == start.update(i as int, Node::Empty));
        assert(start[i as int] is Split);
        assert(b == blank_subtree(a, left_of(i as int), n));
        assert(nodes@ == blank_subtree(b, right_of(i as int), n));
        assert(blank_subtree(start, i as int, n) == blank_subtree(blank_subtree(a, left_of(i as int), n), right_of(i as int), n));
        assert(nodes@ == blank_subtree(start, i as int, n));
    }
    Layout::Part { node, first: Box::new(first), second: Box::new(second) }
}

/// Write layout `l` into the array with its root at index `i`.
pub fn put_subtree<T: Clone>(nodes: &mut Vec<Node<T>>, i: usize, l: Layout<T>)
    requires
        layout_fits(l, i as int),
    ensures
        final(nodes)@ == place_layout(old(nodes)@, i as int, l),
    decreases l,
{
    if matches!(l, Layout::Blank) {
        return;
    }
    let Layout::Part { node, first, second } = l else { unreached() };
    let ghost fl = *first;
    let ghost sl = *second;
    ensure_index(nodes, i);
    nodes.set(i, node);
    let ghost a = nodes@;
    match child_index(i, false) {
        Some(c) => put_subtree(nodes, c, *first),
        None => {
            assert(fl is Blank) by {
                reveal_with_fuel(layout_fits, 2);
            }
            assert(place_layout(a, left_of(i as int), fl) == a);
        },
    }
    let ghost b = nodes@;
    assert(b == place_layout(a, left_of(i as int), fl));
    match child_index(i, true) {
        Some(c) => put_subtree(nodes, c, *second),
        None => {
            assert(sl is Blank) by {
                reveal_with_fuel(layout_fits, 2);
            }
            assert(place_layout(b, right_of(i as int), sl) == b);
        },
    }
    assert(nodes@ == place_layout(b, right_of(i as int), sl));
}

} // verus!
