//! Prefix codes: reading the code of every symbol off a code tree, and
//! coding text with it.
//!
//! A code is a string of the characters `0` and `1`: the way from the root
//! to the symbol's leaf, `0` for a step to the left and `1` for a step to the
//! right. Code tables are keyed by the symbol's scalar value.

use std::collections::HashMap;
use vstd::prelude::*;
use crate::huffman::Node;

verus! {

/// The codes that the tree under `node` gives its symbols when the way to
/// `node` is `prefix`. Below a node that carries a symbol nothing is looked
/// at; where a symbol stands at several leaves, the rightmost one counts.
pub open spec fn codes_of(node: Node, prefix: Seq<char>) -> Map<u32, Seq<char>>
    decreases node,
{
    match node.ch {
        Some(ch) => Map::empty().insert(ch as u32, prefix),
        None => codes_below(node.left, prefix.push('0')).union_prefer_right(
            codes_below(node.right, prefix.push('1')),
        ),
    }
}

/// The codes under an optional subtree.
pub open spec fn codes_below(child: Option<Box<Node>>, prefix: Seq<char>) -> Map<
    u32,
    Seq<char>,
>
    decreases child,
{
    match child {
        Some(node) => codes_of(*node, prefix),
        None => Map::empty(),
    }
}

/// A code table as the texts it holds.
pub open spec fn table_view(codes: Map<u32, String>) -> Map<u32, Seq<char>> {
    codes.map_values(|code: String| code@)
}

/// Writes the code of every symbol under `node` into `codes`, where the way
/// to `node` is `prefix`. Entries for other symbols stay as they are.
pub fn make_codes(node: &Node, prefix: String, codes: &mut HashMap<u32, String>)
    ensures
        table_view(final(codes)@) == table_view(old(codes)@).union_prefer_right(
            codes_of(*node, prefix@),
        ),
    decreases node,
{
    broadcast use vstd::std_specs::hash::group_hash_axioms;

    if let Some(ch) = node.ch {
        codes.insert(ch as u32, prefix);
        assert(table_view(codes@) =~= table_view(old(codes)@).union_prefer_right(
            codes_of(*node, prefix@),
        ));
    } else {
        let ghost before = table_view(codes@);
        if let Some(left) = &node.left {
            let mut way: String = prefix.clone();
            way.append("0");
            proof {
                reveal_strlit("0");
                assert(way@ =~= prefix@.push('0'));
            }
            make_codes(left, way, codes);
        }
        let ghost between = table_view(codes@);
        if let Some(right) = &node.right {
            let mut way: String = prefix;
            way.append("1");
            proof {
                reveal_strlit("1");
                assert(way@ =~= prefix@.push('1'));
            }
            make_codes(right, way, codes);
        }
        assert(between =~= before.union_prefer_right(codes_below(node.left, prefix@.push('0'))));
        assert(table_view(codes@) =~= between.union_prefer_right(
            codes_below(node.right, prefix@.push('1')),
        ));
        assert(table_view(codes@) =~= before.union_prefer_right(codes_of(*node, prefix@)));
    }
}

/// `text` coded symbol by symbol with `codes`.
pub open spec fn encoding(text: Seq<char>, codes: Map<u32, Seq<char>>) -> Seq<char>
    decreases text.len(),
{
    if text.len() == 0 {
        Seq::empty()
    } else {
        encoding(text.drop_last(), codes) + codes[text.last() as u32]
    }
}

/// Whether `codes` has a code for every symbol of `text`.
pub open spec fn covers(codes: Map<u32, Seq<char>>, text: Seq<char>) -> bool {
    forall|i: int| 0 <= i < text.len() ==> codes.contains_key(#[trigger] text[i] as u32)
}

/// Codes `text`: the codes of its symbols, one after the other.
pub fn encode(text: &str, codes: &HashMap<u32, String>) -> (bits: String)
    requires
        covers(table_view(codes@), text@),
    ensures
        bits@ == encoding(text@, table_view(codes@)),
{
    broadcast use vstd::std_specs::hash::group_hash_axioms;
    broadcast use vstd::string::group_string_axioms;

    let mut bits: String = String::new();
    for ch in it: text.chars()
        invariant
            it.seq() == text@,
            covers(table_view(codes@), text@),
            bits@ == encoding(text@.take(it.index() as int), table_view(codes@)),
    {
        proof {
            let so_far = text@.take(it.index() as int);
            let more = text@.take(it.index() + 1);
            assert(more.drop_last() =~= so_far);
            assert(more.last() == ch);
            assert(text@[it.index() as int] == ch);
        }
        match codes.get(&(ch as u32)) {
            Some(code) => {
                bits.append(code.as_str());
            },
            None => {
                assert(false);
            },
        }
    }
    assert(text@.take(text@.len() as int) =~= text@);
    bits
}

/// Codes `text` if `codes` has a code for each of its symbols, and says so
/// if it has not.
pub fn try_encode(text: &str, codes: &HashMap<u32, String>) -> (bits: Option<String>)
    ensures
        match bits {
            Some(bits) => covers(table_view(codes@), text@) && bits@ == encoding(
                text@,
                table_view(codes@),
            ),
            None => !covers(table_view(codes@), text@),
        },
{
    broadcast use vstd::std_specs::hash::group_hash_axioms;
    broadcast use vstd::string::group_string_axioms;

    for ch in it: text.chars()
        invariant
            it.seq() == text@,
            covers(table_view(codes@), text@.take(it.index() as int)),
    {
        if !codes.contains_key(&(ch as u32)) {
            assert(text@[it.index() as int] == ch);
            return None;
        }
        assert forall|i: int| 0 <= i < it.index() + 1 implies table_view(codes@).contains_key(
            #[trigger] text@.take(it.index() + 1)[i] as u32,
        ) by {
            if i < it.index() {
                assert(text@.take(it.index() as int)[i] == text@[i]);
            }
        }
    }
    assert(text@.take(text@.len() as int) =~= text@);
    Some(encode(text, codes))
}

/// `String::push` of the standard library appends one character to the
/// string and changes nothing else of it.
pub assume_specification[ String::push ](text: &mut String, ch: char)
    ensures
        final(text)@ == old(text)@.push(ch),
;

/// The child that one bit leads to: `0` to the left, anything else to the
/// right.
pub open spec fn child_at(at: Node, bit: char) -> Option<Box<Node>> {
    if bit == '0' {
        at.left
    } else {
        at.right
    }
}

/// What `bits` decode to when the walk through `tree` stands at `at`. Each
/// bit is a step down; on reaching a symbol the symbol is put out and the walk
/// starts again at the root. Bits left over at the end, short of a symbol, put
/// out nothing.
pub open spec fn decoding(tree: Node, at: Node, bits: Seq<char>) -> Seq<char>
    decreases bits.len(),
{
    if bits.len() == 0 {
        Seq::empty()
    } else {
        match child_at(at, bits.first()) {
            Some(next) => match next.ch {
                Some(ch) => seq![ch] + decoding(tree, tree, bits.drop_first()),
                None => decoding(tree, *next, bits.drop_first()),
            },
            None => Seq::empty(),
        }
    }
}

/// Decodes `encoded` with `tree`, which has to have at least two leaves:
/// with a single leaf there is no step to take.
pub fn decode(tree: &Node, encoded: &str) -> (text: String)
    requires
        tree.wf(),
        !tree.is_leaf(),
    ensures
        text@ == decoding(*tree, *tree, encoded@),
{
    broadcast use vstd::string::group_string_axioms;

    let mut text: String = String::new();
    let mut node: &Node = tree;
    assert(encoded@.skip(0) =~= encoded@);
    for bit in it: encoded.chars()
        invariant
            it.seq() == encoded@,
            tree.wf(),
            !tree.is_leaf(),
            node.wf(),
            !node.is_leaf(),
            text@ + decoding(*tree, *node, encoded@.skip(it.index() as int)) == decoding(
                *tree,
                *tree,
                encoded@,
            ),
    {
        proof {
            let rest = encoded@.skip(it.index() as int);
            assert(rest.first() == bit);
            assert(rest.drop_first() =~= encoded@.skip(it.index() + 1));
        }
        let child: &Option<Box<Node>> = if bit == '0' {
            &node.left
        } else {
            &node.right
        };
        match child {
            Some(next) => {
                node = &**next;
                if let Some(ch) = node.ch {
                    text.push(ch);
                    node = tree;
                }
            },
            None => {
                assert(false);
            },
        }
    }
    assert(encoded@.skip(encoded@.len() as int) =~= Seq::<char>::empty());
    text
}

/// The way to a node is the start of every code below it: the codes under
/// `node` for a way `prefix` are the codes for the empty way with `prefix` put
/// in front.
pub proof fn lemma_codes_start_with_prefix(node: Node, prefix: Seq<char>)
    ensures
        codes_of(node, prefix).dom() == codes_of(node, Seq::empty()).dom(),
        forall|key: u32| #[trigger]
            codes_of(node, prefix).contains_key(key) ==> codes_of(node, prefix)[key] == prefix
                + codes_of(node, Seq::empty())[key],
    decreases node,
{
    let none = Seq::<char>::empty();
    match node.ch {
        Some(ch) => {
            assert(codes_of(node, prefix).dom() =~= codes_of(node, none).dom());
            assert(prefix + none =~= prefix);
        },
        None => {
            lemma_codes_below_start_with_prefix(node.left, prefix.push('0'));
            lemma_codes_below_start_with_prefix(node.left, none.push('0'));
            lemma_codes_below_start_with_prefix(node.right, prefix.push('1'));
            lemma_codes_below_start_with_prefix(node.right, none.push('1'));
            assert(codes_of(node, prefix).dom() =~= codes_of(node, none).dom());
            assert forall|key: u32| #[trigger]
                codes_of(node, prefix).contains_key(key) implies codes_of(node, prefix)[key]
                == prefix + codes_of(node, none)[key] by {
                if codes_below(node.right, none).contains_key(key) {
                    let tail = codes_below(node.right, none)[key];
                    assert(prefix.push('1') + tail =~= prefix + (none.push('1') + tail));
                } else {
                    let tail = codes_below(node.left, none)[key];
                    assert(prefix.push('0') + tail =~= prefix + (none.push('0') + tail));
                }
            }
        },
    }
}

proof fn lemma_codes_below_start_with_prefix(child: Option<Box<Node>>, prefix: Seq<char>)
    ensures
        codes_below(child, prefix).dom() == codes_below(child, Seq::empty()).dom(),
        forall|key: u32| #[trigger]
            codes_below(child, prefix).contains_key(key) ==> codes_below(child, prefix)[key]
                == prefix + codes_below(child, Seq::empty())[key],
    decreases child,
{
    match child {
        Some(node) => {
            lemma_codes_start_with_prefix(*node, prefix);
        },
        None => {},
    }
}

/// No code is the start of another. In a well-formed tree the codes of two
/// different symbols differ somewhere before either of them ends, so coded
/// text can be cut into codes in one way only.
pub proof fn lemma_prefix_free(node: Node, one: u32, other: u32)
    requires
        node.wf(),
        one != other,
        codes_of(node, Seq::empty()).contains_key(one),
        codes_of(node, Seq::empty()).contains_key(other),
    ensures
        !codes_of(node, Seq::empty())[one].is_prefix_of(codes_of(node, Seq::empty())[other]),
    decreases node,
{
    let none = Seq::<char>::empty();
    let left = *node.left->0;
    let right = *node.right->0;
    lemma_codes_start_with_prefix(left, none.push('0'));
    lemma_codes_start_with_prefix(right, none.push('1'));
    let first = codes_of(node, none)[one];
    let second = codes_of(node, none)[other];
    let on_right = codes_of(right, none).contains_key(one);
    if on_right == codes_of(right, none).contains_key(other) {
        let child = if on_right {
            right
        } else {
            left
        };
        let bit = if on_right {
            '1'
        } else {
            '0'
        };
        lemma_prefix_free(child, one, other);
        let short = codes_of(child, none)[one];
        let long = codes_of(child, none)[other];
        assert(first == none.push(bit) + short);
        assert(second == none.push(bit) + long);
        if first.is_prefix_of(second) {
            assert(short =~= long.subrange(0, short.len() as int)) by {
                assert forall|i: int| 0 <= i < short.len() implies short[i] == long[i] by {
                    assert(first[i + 1] == second.subrange(0, first.len() as int)[i + 1]);
                }
            }
        }
    } else {
        assert(first[0] != second[0]);
        if first.is_prefix_of(second) {
            assert(first[0] == second.subrange(0, first.len() as int)[0]);
        }
    }
}

/// Two symbols with the same scalar value are the same symbol.
pub proof fn lemma_keys_tell_symbols_apart(a: char, b: char)
    ensures
        a as u32 == b as u32 <==> a == b,
{
}

/// A code leads to its symbol. From any inner node of a well-formed tree,
/// decoding the code that the node gives a symbol puts out that symbol and
/// goes on at the root with what follows.
pub proof fn lemma_code_decodes(tree: Node, at: Node, ch: char, rest: Seq<char>)
    requires
        at.wf(),
        !at.is_leaf(),
        codes_of(at, Seq::empty()).contains_key(ch as u32),
    ensures
        decoding(tree, at, codes_of(at, Seq::empty())[ch as u32] + rest) == seq![ch] + decoding(
            tree,
            tree,
            rest,
        ),
    decreases at,
{
    let none = Seq::<char>::empty();
    let key = ch as u32;
    let code = codes_of(at, none)[key];
    let left = at.left->0;
    let right = at.right->0;
    lemma_codes_start_with_prefix(*left, none.push('0'));
    lemma_codes_start_with_prefix(*right, none.push('1'));
    let (next, bit) = if codes_of(*right, none).contains_key(key) {
        (*right, '1')
    } else {
        (*left, '0')
    };
    let tail = codes_of(next, none)[key];
    assert(code == none.push(bit) + tail);
    let bits = code + rest;
    assert(bits.first() == bit);
    assert(bits.drop_first() =~= tail + rest);
    match next.ch {
        Some(symbol) => {
            lemma_keys_tell_symbols_apart(symbol, ch);
            assert(tail + rest =~= rest);
        },
        None => {
            lemma_code_decodes(tree, next, ch, rest);
        },
    }
}

/// Decoding undoes encoding. With the codes of a well-formed tree of at
/// least two leaves, every text whose symbols all have a code decodes, from
/// its encoding, to itself.
pub proof fn lemma_decode_inverts_encode(tree: Node, text: Seq<char>)
    requires
        tree.wf(),
        !tree.is_leaf(),
        covers(codes_of(tree, Seq::empty()), text),
    ensures
        decoding(tree, tree, encoding(text, codes_of(tree, Seq::empty()))) == text,
{
    lemma_decode_then_rest(tree, text, Seq::empty());
    let bits = encoding(text, codes_of(tree, Seq::empty()));
    assert(bits + Seq::<char>::empty() =~= bits);
    assert(text + Seq::<char>::empty() =~= text);
}

proof fn lemma_decode_then_rest(tree: Node, text: Seq<char>, rest: Seq<char>)
    requires
        tree.wf(),
        !tree.is_leaf(),
        covers(codes_of(tree, Seq::empty()), text),
    ensures
        decoding(tree, tree, encoding(text, codes_of(tree, Seq::empty())) + rest) == text
            + decoding(tree, tree, rest),
    decreases text.len(),
{
    let codes = codes_of(tree, Seq::empty());
    if text.len() == 0 {
        assert(encoding(text, codes) + rest =~= rest);
        assert(text + decoding(tree, tree, rest) =~= decoding(tree, tree, rest));
    } else {
        let front = text.drop_last();
        let last = text.last();
        let code = codes[last as u32];
        assert(codes.contains_key(text[text.len() - 1] as u32));
        assert forall|i: int| 0 <= i < front.len() implies codes.contains_key(
            #[trigger] front[i] as u32,
        ) by {
            assert(codes.contains_key(text[i] as u32));
        }
        lemma_decode_then_rest(tree, front, code + rest);
        lemma_code_decodes(tree, tree, last, rest);
        assert(encoding(text, codes) + rest =~= encoding(front, codes) + (code + rest));
        assert(front + (seq![last] + decoding(tree, tree, rest)) =~= text + decoding(
            tree,
            tree,
            rest,
        ));
    }
}

} // verus!
