//! Counting symbols: the frequency table of a text.

use std::collections::HashMap;
use vstd::prelude::*;
use crate::huffman::total_weight;

verus! {

/// How often `ch` occurs in `text`.
pub open spec fn occurrences(text: Seq<char>, ch: char) -> nat
    decreases text.len(),
{
    if text.len() == 0 {
        0
    } else {
        occurrences(text.drop_last(), ch) + if text.last() == ch {
            1nat
        } else {
            0nat
        }
    }
}

/// No symbol has two entries.
pub open spec fn distinct_symbols(freqs: Seq<(char, usize)>) -> bool {
    forall|i: int, j: int|
        0 <= i < j < freqs.len() ==> (#[trigger] freqs[i]).0 != (#[trigger] freqs[j]).0
}

/// `ch` has an entry in `freqs`.
pub open spec fn has_entry(freqs: Seq<(char, usize)>, ch: char) -> bool {
    exists|i: int| 0 <= i < freqs.len() && (#[trigger] freqs[i]).0 == ch
}

/// `freqs` is the frequency table of `text`: one entry for each symbol that
/// occurs, with the number of its occurrences.
pub open spec fn is_tally(freqs: Seq<(char, usize)>, text: Seq<char>) -> bool {
    &&& distinct_symbols(freqs)
    &&& forall|i: int|
        0 <= i < freqs.len() ==> (#[trigger] freqs[i]).1 == occurrences(text, freqs[i].0)
            && freqs[i].1 > 0
    &&& forall|k: int| 0 <= k < text.len() ==> has_entry(freqs, #[trigger] text[k])
}

/// `ch` does not occur in `text` at `k` or before.
pub open spec fn absent_until(text: Seq<char>, ch: char, k: int) -> bool {
    forall|m: int| 0 <= m <= k && m < text.len() ==> #[trigger] text[m] != ch
}

/// `first` occurs in `text` somewhere before the first occurrence of
/// `second`.
pub open spec fn appears_before(text: Seq<char>, first: char, second: char) -> bool {
    exists|k: int| 0 <= k < text.len() && text[k] == first && #[trigger] absent_until(text, second, k)
}

/// The entries stand in the order in which their symbols first appear in
/// `text`.
pub open spec fn in_order_of_appearance(freqs: Seq<(char, usize)>, text: Seq<char>) -> bool {
    forall|i: int, j: int|
        0 <= i < j < freqs.len() ==> appears_before(
            text,
            (#[trigger] freqs[i]).0,
            (#[trigger] freqs[j]).0,
        )
}

proof fn lemma_entry_within_total(freqs: Seq<(char, usize)>, i: int)
    requires
        0 <= i < freqs.len(),
    ensures
        0 <= freqs[i].1 <= total_weight(freqs),
        total_weight(freqs.update(i, (freqs[i].0, (freqs[i].1 + 1) as usize))) == total_weight(
            freqs,
        ) - freqs[i].1 + ((freqs[i].1 + 1) as usize),
    decreases freqs.len(),
{
    let bumped = freqs.update(i, (freqs[i].0, (freqs[i].1 + 1) as usize));
    lemma_total_is_nonnegative(freqs.drop_last());
    if i == freqs.len() - 1 {
        assert(bumped.drop_last() =~= freqs.drop_last());
    } else {
        lemma_entry_within_total(freqs.drop_last(), i);
        assert(bumped.drop_last() =~= freqs.drop_last().update(
            i,
            (freqs[i].0, (freqs[i].1 + 1) as usize),
        ));
    }
}

proof fn lemma_total_is_nonnegative(freqs: Seq<(char, usize)>)
    ensures
        total_weight(freqs) >= 0,
    decreases freqs.len(),
{
    if freqs.len() > 0 {
        lemma_total_is_nonnegative(freqs.drop_last());
    }
}

/// A symbol that occurs is somewhere, and one that is somewhere occurs.
proof fn lemma_occurs_somewhere(text: Seq<char>, ch: char)
    ensures
        occurrences(text, ch) > 0 <==> exists|k: int| 0 <= k < text.len() && text[k] == ch,
    decreases text.len(),
{
    if text.len() > 0 {
        lemma_occurs_somewhere(text.drop_last(), ch);
        if occurrences(text, ch) > 0 {
            if text.last() == ch {
                assert(text[text.len() - 1] == ch);
            } else {
                let k = choose|k: int| 0 <= k < text.len() - 1 && text.drop_last()[k] == ch;
                assert(text[k] == ch);
            }
        }
        if exists|k: int| 0 <= k < text.len() && text[k] == ch {
            let k = choose|k: int| 0 <= k < text.len() && text[k] == ch;
            if k < text.len() - 1 {
                assert(text.drop_last()[k] == ch);
            }
        }
    }
}

/// What holds of a text holds of it with one more symbol at its end.
proof fn lemma_one_more(seen: Seq<char>, ch: char, first: char, second: char)
    ensures
        occurrences(seen.push(ch), first) == occurrences(seen, first) + if ch == first {
            1nat
        } else {
            0nat
        },
        appears_before(seen, first, second) ==> appears_before(seen.push(ch), first, second),
        occurrences(seen, first) > 0 && occurrences(seen, second) == 0 ==> appears_before(
            seen.push(ch),
            first,
            second,
        ),
{
    let more = seen.push(ch);
    assert(more.drop_last() =~= seen);
    if appears_before(seen, first, second) {
        let k = choose|k: int|
            0 <= k < seen.len() && seen[k] == first && #[trigger] absent_until(seen, second, k);
        assert(more[k] == first);
        assert forall|m: int| 0 <= m <= k && m < more.len() implies #[trigger] more[m]
            != second by {
            assert(seen[m] != second);
        }
        assert(absent_until(more, second, k));
    }
    if occurrences(seen, first) > 0 && occurrences(seen, second) == 0 {
        lemma_occurs_somewhere(seen, first);
        lemma_occurs_somewhere(seen, second);
        let k = choose|k: int| 0 <= k < seen.len() && seen[k] == first;
        assert(more[k] == first);
        assert forall|m: int| 0 <= m <= k && m < more.len() implies #[trigger] more[m]
            != second by {
            assert(seen[m] == more[m]);
        }
        assert(absent_until(more, second, k));
    }
}

/// Counting one more occurrence of a symbol that has an entry keeps the
/// table in step with the text.
proof fn lemma_count_again(table: Seq<(char, usize)>, seen: Seq<char>, ch: char, i: int)
    requires
        is_tally(table, seen),
        in_order_of_appearance(table, seen),
        0 <= i < table.len(),
        table[i].0 == ch,
        table[i].1 < usize::MAX,
    ensures
        is_tally(table.update(i, (ch, (table[i].1 + 1) as usize)), seen.push(ch)),
        in_order_of_appearance(table.update(i, (ch, (table[i].1 + 1) as usize)), seen.push(ch)),
{
    let freqs = table.update(i, (ch, (table[i].1 + 1) as usize));
    let more = seen.push(ch);
    assert forall|a: int, b: int| 0 <= a < b < freqs.len() implies appears_before(
        more,
        (#[trigger] freqs[a]).0,
        (#[trigger] freqs[b]).0,
    ) by {
        assert(appears_before(seen, table[a].0, table[b].0));
        lemma_one_more(seen, ch, table[a].0, table[b].0);
    }
    assert forall|a: int, b: int| 0 <= a < b < freqs.len() implies (#[trigger] freqs[a]).0 != (
    #[trigger] freqs[b]).0 by {
        assert(table[a].0 != table[b].0);
    }
    assert forall|k: int| 0 <= k < more.len() implies has_entry(freqs, #[trigger] more[k]) by {
        if k < seen.len() {
            assert(has_entry(table, seen[k]));
            let a = choose|a: int| 0 <= a < table.len() && (#[trigger] table[a]).0 == seen[k];
            assert(freqs[a].0 == more[k]);
        } else {
            assert(freqs[i].0 == more[k]);
        }
    }
    assert forall|a: int| 0 <= a < freqs.len() implies (#[trigger] freqs[a]).1 == occurrences(
        more,
        freqs[a].0,
    ) && freqs[a].1 > 0 by {
        assert(table[a].1 == occurrences(seen, table[a].0));
        lemma_one_more(seen, ch, table[a].0, ch);
        if a != i {
            if a < i {
                assert(table[a].0 != table[i].0);
            } else {
                assert(table[i].0 != table[a].0);
            }
        }
    }
}

/// Giving a symbol that has no entry yet an entry of one, at the end, keeps
/// the table in step with the text.
proof fn lemma_count_first(table: Seq<(char, usize)>, seen: Seq<char>, ch: char)
    requires
        is_tally(table, seen),
        in_order_of_appearance(table, seen),
        forall|i: int| 0 <= i < table.len() ==> (#[trigger] table[i]).0 != ch,
    ensures
        is_tally(table.push((ch, 1)), seen.push(ch)),
        in_order_of_appearance(table.push((ch, 1)), seen.push(ch)),
{
    let freqs = table.push((ch, 1usize));
    let more = seen.push(ch);
    lemma_occurs_somewhere(seen, ch);
    assert(occurrences(seen, ch) == 0) by {
        if exists|k: int| 0 <= k < seen.len() && seen[k] == ch {
            let k = choose|k: int| 0 <= k < seen.len() && seen[k] == ch;
            assert(has_entry(table, seen[k]));
        }
    }
    assert forall|a: int, b: int| 0 <= a < b < freqs.len() implies appears_before(
        more,
        (#[trigger] freqs[a]).0,
        (#[trigger] freqs[b]).0,
    ) by {
        lemma_one_more(seen, ch, table[a].0, freqs[b].0);
        if b < table.len() {
            assert(appears_before(seen, table[a].0, table[b].0));
        } else {
            assert(table[a].1 > 0);
        }
    }
    assert forall|a: int, b: int| 0 <= a < b < freqs.len() implies (#[trigger] freqs[a]).0 != (
    #[trigger] freqs[b]).0 by {
        if b < table.len() {
            assert(table[a].0 != table[b].0);
        } else {
            assert(table[a].0 != ch);
        }
    }
    assert forall|k: int| 0 <= k < more.len() implies has_entry(freqs, #[trigger] more[k]) by {
        if k < seen.len() {
            assert(has_entry(table, seen[k]));
            let a = choose|a: int| 0 <= a < table.len() && (#[trigger] table[a]).0 == seen[k];
            assert(freqs[a].0 == more[k]);
        } else {
            assert(freqs[table.len() as int].0 == more[k]);
        }
    }
    assert forall|a: int| 0 <= a < freqs.len() implies (#[trigger] freqs[a]).1 == occurrences(
        more,
        freqs[a].0,
    ) && freqs[a].1 > 0 by {
        lemma_one_more(seen, ch, freqs[a].0, ch);
        if a < table.len() {
            assert(table[a].1 == occurrences(seen, table[a].0));
            assert(table[a].0 != ch);
        }
    }
}

/// `index` says of every symbol in `freqs` where its entry stands, and
/// speaks of no other symbol. Symbols are looked up by their scalar value.
spec fn is_index_of(index: Map<u32, usize>, freqs: Seq<(char, usize)>) -> bool {
    &&& forall|i: int|
        0 <= i < freqs.len() ==> index.contains_key((#[trigger] freqs[i]).0 as u32)
            && index[freqs[i].0 as u32] == i
    &&& forall|key: u32| #[trigger]
        index.contains_key(key) ==> index[key] < freqs.len() && freqs[index[key] as int].0 as u32
            == key
}

/// A symbol without a place in the index has no entry in the table.
proof fn lemma_not_indexed(index: Map<u32, usize>, freqs: Seq<(char, usize)>, ch: char)
    requires
        is_index_of(index, freqs),
        !index.contains_key(ch as u32),
    ensures
        forall|i: int| 0 <= i < freqs.len() ==> (#[trigger] freqs[i]).0 != ch,
{
}

/// The index stays one when a new symbol gets the next place.
proof fn lemma_index_grows(index: Map<u32, usize>, freqs: Seq<(char, usize)>, ch: char)
    requires
        is_index_of(index, freqs),
        !index.contains_key(ch as u32),
        freqs.len() < usize::MAX,
    ensures
        is_index_of(index.insert(ch as u32, freqs.len() as usize), freqs.push((ch, 1))),
{
    let more = freqs.push((ch, 1usize));
    let wider = index.insert(ch as u32, freqs.len() as usize);
    assert forall|i: int| 0 <= i < more.len() implies wider.contains_key(
        (#[trigger] more[i]).0 as u32,
    ) && wider[more[i].0 as u32] == i by {
        if i < freqs.len() {
            assert(index.contains_key(freqs[i].0 as u32));
        }
    }
    assert forall|key: u32| #[trigger] wider.contains_key(key) implies wider[key] < more.len()
        && more[wider[key] as int].0 as u32 == key by {
        if key != ch as u32 {
            assert(index.contains_key(key));
        }
    }
}

/// Counts the symbols of `text`. The table has one entry for each symbol
/// that occurs, in the order of first appearance, and its weights add up to
/// the length of the text.
pub fn count_freqs(text: &str) -> (freqs: Vec<(char, usize)>)
    ensures
        is_tally(freqs@, text@),
        in_order_of_appearance(freqs@, text@),
        total_weight(freqs@) == text@.len(),
        text@.len() <= usize::MAX,
{
    broadcast use vstd::string::group_string_axioms;
    broadcast use vstd::std_specs::hash::group_hash_axioms;

    let len: usize = text.unicode_len();
    let mut freqs: Vec<(char, usize)> = Vec::new();
    let mut index: HashMap<u32, usize> = HashMap::new();
    assert(is_tally(freqs@, text@.take(0)));
    assert(in_order_of_appearance(freqs@, text@.take(0)));
    for ch in it: text.chars()
        invariant
            it.seq() == text@,
            text@.len() == len,
            is_tally(freqs@, text@.take(it.index() as int)),
            in_order_of_appearance(freqs@, text@.take(it.index() as int)),
            total_weight(freqs@) == it.index(),
            is_index_of(index@, freqs@),
            freqs.len() <= it.index(),
    {
        let ghost seen = text@.take(it.index() as int);
        let ghost table = freqs@;
        assert(text@.take(it.index() + 1) =~= seen.push(ch));
        match index.get(&(ch as u32)) {
            Some(at) => {
                let i: usize = *at;
                let (symbol, count) = freqs[i];
                proof {
                    lemma_same_symbol(symbol, ch);
                    lemma_entry_within_total(table, i as int);
                    lemma_count_again(table, seen, ch, i as int);
                }
                freqs.set(i, (symbol, count + 1));
                assert(is_index_of(index@, freqs@)) by {
                    assert forall|k: int| 0 <= k < freqs.len() implies index@.contains_key(
                        (#[trigger] freqs[k]).0 as u32,
                    ) && index@[freqs[k].0 as u32] == k by {
                        assert(table[k].0 == freqs[k].0);
                    }
                }
            },
            None => {
                proof {
                    lemma_not_indexed(index@, table, ch);
                    lemma_count_first(table, seen, ch);
                    lemma_index_grows(index@, table, ch);
                }
                index.insert(ch as u32, freqs.len());
                freqs.push((ch, 1));
                assert(freqs@.drop_last() =~= table);
            },
        }
    }
    assert(text@.take(text@.len() as int) =~= text@);
    freqs
}

/// Two symbols with the same scalar value are the same symbol.
proof fn lemma_same_symbol(a: char, b: char)
    ensures
        a as u32 == b as u32 <==> a == b,
{
}

} // verus!
