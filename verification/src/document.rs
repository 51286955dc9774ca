//! The in-memory document tree rebuilt from one record's field events.
//!
//! A `DocNode` is one element: a name, attributes in insertion order,
//! child elements in insertion order, and text content.  Exactly one node
//! is the root of a record's document.  `DocTree` is the mathematical
//! image of a node: the same shape over `Seq`, used by every contract.

use vstd::prelude::*;

verus! {

broadcast use vstd::std_specs::vec::group_vec_axioms;

/// One element of a record's document tree.
#[derive(PartialEq, Eq)]
pub struct DocNode {
    pub name: String,
    pub attributes: Vec<(String, String)>,
    pub children: Vec<DocNode>,
    pub text: String,
}

/// The mathematical image of one element.
#[verifier::ext_equal]
pub ghost struct DocTree {
    pub name: Seq<char>,
    pub attrs: Seq<(Seq<char>, Seq<char>)>,
    pub children: Seq<DocTree>,
    pub text: Seq<char>,
}

/// The attribute pairs of an element as character sequences, order kept.
pub open spec fn attrs_view(s: Seq<(String, String)>) -> Seq<(Seq<char>, Seq<char>)> {
    s.map_values(|p: (String, String)| (p.0@, p.1@))
}

/// The mathematical image of the first `k` trees of a forest of elements.
pub open spec fn forest_of(s: Seq<DocNode>, k: int) -> Seq<DocTree>
    decreases s, k,
{
    if k <= 0 || k > s.len() {
        Seq::empty()
    } else {
        forest_of(s, k - 1).push(tree_of(s[k - 1]))
    }
}

/// The mathematical image of one element, children included.
pub open spec fn tree_of(n: DocNode) -> DocTree
    decreases n,
{
    DocTree {
        name: n.name@,
        attrs: attrs_view(n.attributes@),
        children: forest_of(n.children@, n.children@.len() as int),
        text: n.text@,
    }
}

/// `forest_of` maps `tree_of` over the first `k` elements.
pub proof fn lemma_forest_of_eq(s: Seq<DocNode>, k: int)
    requires
        0 <= k <= s.len(),
    ensures
        forest_of(s, k).len() == k,
        forall|i: int| 0 <= i < k ==> forest_of(s, k)[i] == tree_of(s[i]),
    decreases k,
{
    if k > 0 {
        lemma_forest_of_eq(s, k - 1);
    }
}

/// Number of elements in the tree rooted at `t`, the root included.
pub open spec fn tree_count(t: DocTree) -> nat
    decreases t,
{
    1 + forest_count(t.children, t.children.len() as int)
}

/// Number of elements in the first `k` trees of the forest `s`.
pub open spec fn forest_count(s: Seq<DocTree>, k: int) -> nat
    decreases s, k,
{
    if k <= 0 || k > s.len() {
        0
    } else {
        forest_count(s, k - 1) + tree_count(s[k - 1])
    }
}

/// Forests that agree on their first `k` trees have the same count there.
pub proof fn lemma_forest_count_prefix(s1: Seq<DocTree>, s2: Seq<DocTree>, k: int)
    requires
        0 <= k <= s1.len(),
        k <= s2.len(),
        forall|i: int| 0 <= i < k ==> s1[i] == s2[i],
    ensures
        forest_count(s1, k) == forest_count(s2, k),
    decreases k,
{
    if k > 0 {
        lemma_forest_count_prefix(s1, s2, k - 1);
    }
}

/// Appending one tree to a forest adds that tree's count.
pub proof fn lemma_forest_count_push(s: Seq<DocTree>, t: DocTree)
    ensures
        forest_count(s.push(t), s.len() as int + 1) == forest_count(s, s.len() as int)
            + tree_count(t),
{
    lemma_forest_count_prefix(s.push(t), s, s.len() as int);
}

/// Replacing the tree at `i` shifts the count by the difference.
pub proof fn lemma_forest_count_update(s: Seq<DocTree>, i: int, t: DocTree, k: int)
    requires
        0 <= i < k <= s.len(),
    ensures
        forest_count(s.update(i, t), k) + tree_count(s[i]) == forest_count(s, k) + tree_count(t),
    decreases k,
{
    if i == k - 1 {
        lemma_forest_count_prefix(s.update(i, t), s, k - 1);
    } else {
        lemma_forest_count_update(s, i, t, k - 1);
    }
}

} // verus!
