//! Ground truth for lookup by row index.
//!
//! Only the index, the duration and the words of a row are kept; the heavy
//! audio column is left out when the file is read.
use crate::number::Number;
use crate::wer::Word;
use std::collections::HashMap;
use vstd::prelude::*;

verus! {

broadcast use vstd::std_specs::hash::group_hash_axioms;

/// The ground truth of one row.
#[derive(Debug)]
pub struct TruthRow {
    pub idx: i32,
    /// Seconds of audio.
    pub duration: Number,
    pub words: Vec<Word>,
}

/// Whether a column of the file is read.
pub open spec fn is_kept(name: Seq<char>) -> bool {
    name == "idx"@ || name == "duration"@ || name == "words"@
}

/// The positions of the columns to read, in ascending order.
pub fn kept_columns(names: &[String]) -> (kept: Vec<usize>)
    ensures
        forall|i: int, j: int| 0 <= i < j < kept@.len() ==> kept@[i] < kept@[j],
        forall|c: usize|
            kept@.contains(c) <==> c < names@.len() && is_kept((#[trigger] names@[c as int])@),
        forall|c: usize|
            kept@.contains(c) <==> c < names@.len() && ((#[trigger] names@[c as int])@ == "idx"@
                || names@[c as int]@ == "duration"@ || names@[c as int]@ == "words"@),
{
    let idx = "idx".to_owned();
    let duration = "duration".to_owned();
    let words = "words".to_owned();
    let mut kept: Vec<usize> = Vec::new();
    for c in 0..names.len()
        invariant
            idx@ == "idx"@,
            duration@ == "duration"@,
            words@ == "words"@,
            forall|i: int| 0 <= i < kept@.len() ==> (#[trigger] kept@[i]) < c,
            forall|i: int, j: int| 0 <= i < j < kept@.len() ==> kept@[i] < kept@[j],
            forall|d: usize|
                kept@.contains(d) <==> d < c && is_kept((#[trigger] names@[d as int])@),
    {
        let ghost before = kept@;
        if names[c] == idx || names[c] == duration || names[c] == words {
            kept.push(c);
            assert forall|d: usize|
                kept@.contains(d) <==> d < c + 1 && is_kept((#[trigger] names@[d as int])@) by {
                assert(kept@[before.len() as int] == c);
                if before.contains(d) {
                    let i = choose|i: int| 0 <= i < before.len() && before[i] == d;
                    assert(kept@[i] == d);
                }
                if kept@.contains(d) && d != c {
                    let i = choose|i: int| 0 <= i < kept@.len() && kept@[i] == d;
                    assert(before[i] == d);
                }
            }
        }
    }
    kept
}

/// The rows by their index; of two rows with one index, the later.
pub open spec fn truth_map(rows: Seq<TruthRow>) -> Map<i32, TruthRow>
    decreases rows.len(),
{
    if rows.len() == 0 {
        Map::empty()
    } else {
        truth_map(rows.drop_last()).insert(rows.last().idx, rows.last())
    }
}

/// The rows by their index; of two rows with one index, the later.
pub fn load_truth(rows: Vec<TruthRow>) -> (map: HashMap<i32, TruthRow>)
    ensures
        map@ == truth_map(rows@),
{
    let mut map: HashMap<i32, TruthRow> = HashMap::new();
    let ghost all = rows@;
    for row in it: rows
        invariant
            it.seq() == all,
            map@ == truth_map(all.take(it.index() as int)),
    {
        let ghost k = it.index() as int;
        assert(all.take(k + 1).drop_last() == all.take(k));
        map.insert(row.idx, row);
    }
    assert(all.take(all.len() as int) == all);
    map
}

/// A row is found under its index, unless a later row has the same index.
pub proof fn law_last_row_wins(rows: Seq<TruthRow>, i: int)
    requires
        0 <= i < rows.len(),
        forall|j: int| i < j < rows.len() ==> (#[trigger] rows[j]).idx != rows[i].idx,
    ensures
        truth_map(rows).contains_key(rows[i].idx),
        truth_map(rows)[rows[i].idx] == rows[i],
    decreases rows.len(),
{
    if i < rows.len() - 1 {
        let init = rows.drop_last();
        assert forall|j: int| i < j < init.len() implies (#[trigger] init[j]).idx
            != init[i].idx by {
            assert(rows[j].idx != rows[i].idx);
        }
        law_last_row_wins(init, i);
        assert(rows[rows.len() - 1].idx != rows[i].idx);
    }
}

/// What is found under an index is a row with that index.
pub proof fn law_found_row_is_a_row(rows: Seq<TruthRow>, idx: i32)
    requires
        truth_map(rows).contains_key(idx),
    ensures
        rows.contains(truth_map(rows)[idx]),
        truth_map(rows)[idx].idx == idx,
    decreases rows.len(),
{
    if rows.last().idx == idx {
        assert(rows[rows.len() - 1] == rows.last());
    } else {
        let init = rows.drop_last();
        law_found_row_is_a_row(init, idx);
        let k = choose|k: int| 0 <= k < init.len() && init[k] == truth_map(init)[idx];
        assert(rows[k] == init[k]);
    }
}

} // verus!
