//! Huffman trees: from a table of symbol frequencies to a prefix code tree.
//!
//! The tree is built the classic way. Every symbol starts as a tree of its
//! own; the two lightest trees are joined under a new root, lighter one on the
//! left, until one tree is left.

use vstd::prelude::*;
use vstd::multiset::Multiset;

verus! {

/// A node of a code tree. A leaf carries a symbol and its frequency; an
/// inner node carries no symbol, has two children, and weighs what they weigh
/// together.
#[derive(Debug, PartialEq, Eq)]
pub struct Node {
    pub freq: usize,
    pub ch: Option<char>,
    pub left: Option<Box<Node>>,
    pub right: Option<Box<Node>>,
}

impl Node {
    /// The leaf for `ch` with frequency `freq`.
    pub open spec fn leaf(ch: char, freq: usize) -> Node {
        Node { freq, ch: Some(ch), left: None, right: None }
    }

    /// The tree with `left` and `right` under a new root.
    pub open spec fn join(left: Node, right: Node) -> Node {
        Node {
            freq: (left.freq + right.freq) as usize,
            ch: None,
            left: Some(Box::new(left)),
            right: Some(Box::new(right)),
        }
    }

    /// Whether the node counts as a leaf: it carries a symbol.
    pub open spec fn is_leaf(self) -> bool {
        self.ch is Some
    }

    /// A well-formed tree: leaves have no children, inner nodes have two
    /// well-formed ones and weigh their sum.
    pub open spec fn wf(self) -> bool
        decreases self,
    {
        match self.ch {
            Some(_) => self.left is None && self.right is None,
            None => {
                &&& self.left matches Some(left)
                &&& self.right matches Some(right)
                &&& left.wf()
                &&& right.wf()
                &&& self.freq == left.freq + right.freq
            },
        }
    }

    /// The leaves of the tree, left to right, each as its symbol and its
    /// frequency. Below a node that carries a symbol nothing is looked at.
    pub open spec fn leaves(self) -> Seq<(char, usize)>
        decreases self,
    {
        match self.ch {
            Some(ch) => seq![(ch, self.freq)],
            None => Node::leaves_below(self.left) + Node::leaves_below(self.right),
        }
    }

    /// The leaves of an optional subtree.
    pub open spec fn leaves_below(child: Option<Box<Node>>) -> Seq<(char, usize)>
        decreases child,
    {
        match child {
            Some(node) => node.leaves(),
            None => Seq::empty(),
        }
    }
}

/// The sum of the frequencies in a table.
pub open spec fn total_weight(freqs: Seq<(char, usize)>) -> int
    decreases freqs.len(),
{
    if freqs.len() == 0 {
        0
    } else {
        total_weight(freqs.drop_last()) + freqs.last().1
    }
}

/// The forest that building starts from: one leaf for each entry.
pub open spec fn leaf_forest(freqs: Seq<(char, usize)>) -> Multiset<Node> {
    freqs.map_values(|entry: (char, usize)| Node::leaf(entry.0, entry.1)).to_multiset()
}

/// `node` is in `forest` and nothing in `forest` is lighter.
pub open spec fn lightest(forest: Multiset<Node>, node: Node) -> bool {
    &&& forest.count(node) > 0
    &&& forall|other: Node| forest.count(other) > 0 ==> node.freq <= other.freq
}

/// One step of Huffman's procedure: `next` is `forest` with a lightest tree
/// and a lightest of the remaining trees replaced by their join, the first as
/// the left child.
pub open spec fn merges_to(forest: Multiset<Node>, next: Multiset<Node>) -> bool {
    exists|first: Node, second: Node|
        {
            &&& lightest(forest, first)
            &&& lightest(forest.remove(first), second)
            &&& next == forest.remove(first).remove(second).insert(
                #[trigger] Node::join(first, second),
            )
        }
}

/// Every forest in `steps` but the last merges to the one after it.
pub open spec fn is_merging(steps: Seq<Multiset<Node>>) -> bool {
    forall|i: int| 0 <= i < steps.len() - 1 ==> merges_to(#[trigger] steps[i], steps[i + 1])
}

/// `tree` is a Huffman tree of `forest`: Huffman's procedure, with some
/// choice among equally light trees, leads from `forest` to `tree` alone.
pub open spec fn is_huffman_tree(forest: Multiset<Node>, tree: Node) -> bool {
    exists|steps: Seq<Multiset<Node>>|
        {
            &&& steps.len() > 0
            &&& steps.first() == forest
            &&& #[trigger] steps.last() == Multiset::singleton(tree)
            &&& is_merging(steps)
        }
}

/// The sum of the root frequencies of a row of trees.
spec fn forest_weight(trees: Seq<Node>) -> int
    decreases trees.len(),
{
    if trees.len() == 0 {
        0
    } else {
        forest_weight(trees.drop_last()) + trees.last().freq
    }
}

/// All leaves of a row of trees, as a bag.
spec fn forest_leaves(trees: Seq<Node>) -> Multiset<(char, usize)>
    decreases trees.len(),
{
    if trees.len() == 0 {
        Multiset::empty()
    } else {
        forest_leaves(trees.drop_last()).add(trees.last().leaves().to_multiset())
    }
}

proof fn lemma_forest_without(trees: Seq<Node>, i: int)
    requires
        0 <= i < trees.len(),
    ensures
        forest_weight(trees) == forest_weight(trees.remove(i)) + trees[i].freq,
        forest_leaves(trees) == forest_leaves(trees.remove(i)).add(
            trees[i].leaves().to_multiset(),
        ),
    decreases trees.len(),
{
    broadcast use vstd::multiset::group_multiset_axioms;

    if i == trees.len() - 1 {
        assert(trees.remove(i) =~= trees.drop_last());
    } else {
        lemma_forest_without(trees.drop_last(), i);
        assert(trees.remove(i).drop_last() =~= trees.drop_last().remove(i));
        assert(trees.remove(i).last() == trees.last());
    }
    assert(forest_leaves(trees) =~= forest_leaves(trees.remove(i)).add(
        trees[i].leaves().to_multiset(),
    ));
}

proof fn lemma_single_to_multiset<A>(x: A)
    ensures
        seq![x].to_multiset() == Multiset::singleton(x),
        seq![x].to_multiset() == Multiset::empty().insert(x),
{
    broadcast use vstd::multiset::group_multiset_axioms;

    let none = Seq::<A>::empty();
    none.to_multiset_ensures();
    assert(seq![x] =~= none.push(x));
    assert(none.to_multiset() =~= Multiset::empty());
    assert(seq![x].to_multiset() =~= Multiset::singleton(x));
}

proof fn lemma_weights_are_nonnegative(trees: Seq<Node>)
    ensures
        forest_weight(trees) >= 0,
    decreases trees.len(),
{
    if trees.len() > 0 {
        lemma_weights_are_nonnegative(trees.drop_last());
    }
}

proof fn lemma_lightest_of_row(trees: Seq<Node>, i: int)
    requires
        0 <= i < trees.len(),
        forall|j: int| 0 <= j < trees.len() ==> trees[i].freq <= trees[j].freq,
    ensures
        lightest(trees.to_multiset(), trees[i]),
        trees.remove(i).to_multiset() == trees.to_multiset().remove(trees[i]),
{
    broadcast use vstd::seq_lib::to_multiset_contains, vstd::seq_lib::to_multiset_remove;

    assert(trees.contains(trees[i]));
    assert forall|other: Node| trees.to_multiset().count(other) > 0 implies trees[i].freq
        <= other.freq by {
        assert(trees.contains(other));
        let j = choose|j: int| 0 <= j < trees.len() && trees[j] == other;
        assert(trees[i].freq <= trees[j].freq);
    }
}

impl Node {
    /// Whether the tree is well formed.
    pub fn is_well_formed(&self) -> (ok: bool)
        ensures
            ok == self.wf(),
        decreases self,
    {
        match self.ch {
            Some(_) => self.left.is_none() && self.right.is_none(),
            None => match (&self.left, &self.right) {
                (Some(left), Some(right)) => {
                    left.is_well_formed() && right.is_well_formed() && self.freq >= left.freq
                        && self.freq - left.freq == right.freq
                },
                _ => false,
            },
        }
    }
}

/// The sum of the frequencies in a table, if a machine word holds it.
pub fn checked_total(freqs: &Vec<(char, usize)>) -> (total: Option<usize>)
    ensures
        match total {
            Some(sum) => sum == total_weight(freqs@),
            None => total_weight(freqs@) > usize::MAX,
        },
{
    let mut sum: usize = 0;
    let mut i: usize = 0;
    while i < freqs.len()
        invariant
            i <= freqs.len(),
            sum == total_weight(freqs@.take(i as int)),
        decreases freqs.len() - i,
    {
        assert(freqs@.take(i + 1).drop_last() =~= freqs@.take(i as int));
        match sum.checked_add(freqs[i].1) {
            Some(more) => {
                sum = more;
            },
            None => {
                proof {
                    lemma_total_grows(freqs@, i + 1);
                }
                return None;
            },
        }
        i += 1;
    }
    assert(freqs@.take(i as int) =~= freqs@);
    Some(sum)
}

/// The sum over a table is no less than the sum over its first `n`
/// entries.
proof fn lemma_total_grows(freqs: Seq<(char, usize)>, n: int)
    requires
        0 <= n <= freqs.len(),
    ensures
        total_weight(freqs.take(n)) <= total_weight(freqs),
    decreases freqs.len() - n,
{
    if n == freqs.len() {
        assert(freqs.take(n) =~= freqs);
    } else {
        lemma_total_grows(freqs, n + 1);
        assert(freqs.take(n + 1).drop_last() =~= freqs.take(n));
    }
}

/// The place of the first lightest tree in a row.
fn lightest_index(trees: &Vec<Node>) -> (best: usize)
    requires
        trees.len() > 0,
    ensures
        best < trees.len(),
        forall|j: int| 0 <= j < trees.len() ==> trees[best as int].freq <= trees[j].freq,
{
    let mut best: usize = 0;
    let mut i: usize = 1;
    while i < trees.len()
        invariant
            best < i <= trees.len(),
            forall|j: int| 0 <= j < i ==> trees[best as int].freq <= trees[j].freq,
        decreases trees.len() - i,
    {
        if trees[i].freq < trees[best].freq {
            best = i;
        }
        i += 1;
    }
    best
}

/// Builds the Huffman tree of a table of symbols and their frequencies.
///
/// The tree's leaves are the table's entries, its weight is their sum, and it
/// is what Huffman's procedure makes of them. Among equally light trees the
/// one that stands first is taken first.
pub fn build_tree(freqs: &Vec<(char, usize)>) -> (tree: Node)
    requires
        freqs.len() > 0,
        total_weight(freqs@) <= usize::MAX,
    ensures
        tree.wf(),
        tree.freq == total_weight(freqs@),
        tree.leaves().to_multiset() == freqs@.to_multiset(),
        is_huffman_tree(leaf_forest(freqs@), tree),
{
    broadcast use vstd::multiset::group_multiset_axioms;
    broadcast use vstd::seq_lib::group_to_multiset_ensures;

    let mut forest: Vec<Node> = Vec::new();
    let mut i: usize = 0;
    while i < freqs.len()
        invariant
            i <= freqs.len(),
            forest@ == freqs@.take(i as int).map_values(
                |entry: (char, usize)| Node::leaf(entry.0, entry.1),
            ),
            forall|k: int| 0 <= k < forest.len() ==> (#[trigger] forest[k]).wf(),
            forest_weight(forest@) == total_weight(freqs@.take(i as int)),
            forest_leaves(forest@) == freqs@.take(i as int).to_multiset(),
        decreases freqs.len() - i,
    {
        let (ch, freq) = freqs[i];
        let leaf = Node { freq, ch: Some(ch), left: None, right: None };
        proof {
            let so_far = freqs@.take(i as int);
            let more = freqs@.take(i + 1);
            assert(more.drop_last() =~= so_far);
            assert(more.last() == (ch, freq));
            assert(more =~= so_far.push((ch, freq)));
            assert(forest@.push(leaf).drop_last() =~= forest@);
            assert(leaf.leaves() =~= seq![(ch, freq)]);
            lemma_single_to_multiset((ch, freq));
            vstd::seq_lib::to_multiset_build(so_far, (ch, freq));
            assert(forest_leaves(forest@.push(leaf)) =~= more.to_multiset());
        }
        forest.push(leaf);
        i += 1;
    }
    assert(freqs@.take(i as int) =~= freqs@);
    let ghost mut steps: Seq<Multiset<Node>> = seq![forest@.to_multiset()];
    while forest.len() > 1
        invariant
            forest.len() > 0,
            forall|k: int| 0 <= k < forest.len() ==> (#[trigger] forest[k]).wf(),
            forest_weight(forest@) == total_weight(freqs@),
            total_weight(freqs@) <= usize::MAX,
            forest_leaves(forest@) == freqs@.to_multiset(),
            steps.len() > 0,
            steps.first() == leaf_forest(freqs@),
            steps.last() == forest@.to_multiset(),
            is_merging(steps),
        decreases forest.len(),
    {
        let ghost before = forest@;
        let first: usize = lightest_index(&forest);
        let left: Node = forest.remove(first);
        let ghost between = forest@;
        let second: usize = lightest_index(&forest);
        let right: Node = forest.remove(second);
        let ghost rest = forest@;
        proof {
            lemma_forest_without(before, first as int);
            lemma_forest_without(between, second as int);
            lemma_lightest_of_row(before, first as int);
            lemma_lightest_of_row(between, second as int);
            lemma_weights_are_nonnegative(rest);
        }
        let joined = Node {
            freq: left.freq + right.freq,
            ch: None,
            left: Some(Box::new(left)),
            right: Some(Box::new(right)),
        };
        forest.push(joined);
        proof {
            assert(joined == Node::join(left, right));
            assert(forest@.drop_last() =~= rest);
            assert(joined.leaves() =~= left.leaves() + right.leaves());
            vstd::seq_lib::lemma_multiset_commutative(left.leaves(), right.leaves());
            assert(forest_leaves(forest@) =~= freqs@.to_multiset());
            let next = forest@.to_multiset();
            vstd::seq_lib::to_multiset_build(rest, joined);
            assert(forest@ =~= rest.push(joined));
            assert(next =~= steps.last().remove(left).remove(right).insert(
                Node::join(left, right),
            ));
            assert(merges_to(steps.last(), next));
            let longer = steps.push(next);
            assert forall|k: int| 0 <= k < longer.len() - 1 implies merges_to(
                #[trigger] longer[k],
                longer[k + 1],
            ) by {
                if k < steps.len() - 1 {
                    assert(merges_to(steps[k], steps[k + 1]));
                }
            }
            steps = longer;
        }
    }
    let ghost last = forest@;
    let tree = forest.remove(0);
    proof {
        assert(last =~= seq![tree]);
        lemma_single_to_multiset(tree);
        let none = Seq::<Node>::empty();
        assert(seq![tree].drop_last() =~= none);
        assert(forest_leaves(none) =~= Multiset::empty());
        assert(forest_weight(none) == 0);
        assert(forest_leaves(seq![tree]) =~= tree.leaves().to_multiset());
        assert(forest_weight(seq![tree]) == tree.freq);
    }
    tree
}

} // verus!
