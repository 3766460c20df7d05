//! From a text to its Huffman coding in one call.

use std::collections::HashMap;
use vstd::prelude::*;
use crate::codes::{codes_below, codes_of, covers, decoding, encode, encoding, make_codes, table_view, lemma_decode_inverts_encode};
use crate::huffman::{build_tree, is_huffman_tree, leaf_forest, Node};
use crate::tally::{count_freqs, has_entry, in_order_of_appearance, is_tally};

verus! {

/// A text in coded form, with what it takes to read it again.
#[derive(Debug)]
pub struct Packed {
    /// The frequency of every symbol of the text.
    pub freqs: Vec<(char, usize)>,
    /// The code tree made from the frequencies.
    pub tree: Node,
    /// The code of every symbol, by the symbol's scalar value.
    pub codes: HashMap<u32, String>,
    /// The coded text.
    pub bits: String,
}

/// Every symbol at a leaf has a code.
pub proof fn lemma_leaves_have_codes(node: Node, prefix: Seq<char>, i: int)
    requires
        0 <= i < node.leaves().len(),
    ensures
        codes_of(node, prefix).contains_key(node.leaves()[i].0 as u32),
    decreases node,
{
    match node.ch {
        Some(ch) => {},
        None => {
            let left = Node::leaves_below(node.left);
            if i < left.len() {
                lemma_leaves_below_have_codes(node.left, prefix.push('0'), i);
            } else {
                lemma_leaves_below_have_codes(node.right, prefix.push('1'), i - left.len());
            }
        },
    }
}

proof fn lemma_leaves_below_have_codes(child: Option<Box<Node>>, prefix: Seq<char>, i: int)
    requires
        0 <= i < Node::leaves_below(child).len(),
    ensures
        codes_below(child, prefix).contains_key(Node::leaves_below(child)[i].0 as u32),
    decreases child,
{
    match child {
        Some(node) => {
            lemma_leaves_have_codes(*node, prefix, i);
        },
        None => {},
    }
}

/// The codes of a tree whose leaves are the frequency table of a text cover
/// the text.
pub proof fn lemma_tally_tree_covers(tree: Node, freqs: Seq<(char, usize)>, text: Seq<char>)
    requires
        is_tally(freqs, text),
        tree.leaves().to_multiset() == freqs.to_multiset(),
    ensures
        covers(codes_of(tree, Seq::empty()), text),
{
    broadcast use vstd::seq_lib::group_to_multiset_ensures;

    assert forall|k: int| 0 <= k < text.len() implies codes_of(tree, Seq::empty()).contains_key(
        #[trigger] text[k] as u32,
    ) by {
        assert(has_entry(freqs, text[k]));
        let i = choose|i: int| 0 <= i < freqs.len() && (#[trigger] freqs[i]).0 == text[k];
        freqs.to_multiset_ensures();
        tree.leaves().to_multiset_ensures();
        assert(freqs.contains(freqs[i]));
        assert(freqs.to_multiset().count(freqs[i]) > 0);
        assert(tree.leaves().to_multiset().count(freqs[i]) > 0);
        assert(tree.leaves().contains(freqs[i]));
        let j = choose|j: int| 0 <= j < tree.leaves().len() && tree.leaves()[j] == freqs[i];
        lemma_leaves_have_codes(tree, Seq::empty(), j);
    }
}

/// Codes a text that is not empty: counts its symbols, builds their Huffman
/// tree, reads the codes off the tree and codes the text with them. Where the
/// text has two different symbols or more, decoding the result gives the text
/// back.
pub fn compress(text: &str) -> (packed: Packed)
    requires
        text@.len() > 0,
    ensures
        is_tally(packed.freqs@, text@),
        in_order_of_appearance(packed.freqs@, text@),
        packed.tree.wf(),
        packed.tree.freq == text@.len(),
        packed.tree.leaves().to_multiset() == packed.freqs@.to_multiset(),
        is_huffman_tree(leaf_forest(packed.freqs@), packed.tree),
        table_view(packed.codes@) == codes_of(packed.tree, Seq::empty()),
        packed.bits@ == encoding(text@, codes_of(packed.tree, Seq::empty())),
        !packed.tree.is_leaf() ==> decoding(packed.tree, packed.tree, packed.bits@) == text@,
{
    let freqs = count_freqs(text);
    assert(freqs.len() > 0) by {
        assert(has_entry(freqs@, text@[0]));
    }
    let tree = build_tree(&freqs);
    let mut codes: HashMap<u32, String> = HashMap::new();
    make_codes(&tree, String::new(), &mut codes);
    proof {
        assert(table_view(Map::<u32, String>::empty()) =~= Map::<u32, Seq<char>>::empty());
        assert(table_view(codes@) =~= codes_of(tree, Seq::empty()));
        lemma_tally_tree_covers(tree, freqs@, text@);
        if !tree.is_leaf() {
            lemma_decode_inverts_encode(tree, text@);
        }
    }
    let bits = encode(text, &codes);
    Packed { freqs, tree, codes, bits }
}

} // verus!
