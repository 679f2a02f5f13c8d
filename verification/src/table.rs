//! Tables with a primary key, as lists of rows. A table stands for the map
//! from each key to the value of its row.

use vstd::prelude::*;

verus! {

/// The map that a list of rows stands for. Where a key occurs twice, the
/// later row counts.
pub open spec fn to_map<K, V>(rows: Seq<(K, V)>) -> Map<K, V>
    decreases rows.len(),
{
    if rows.len() == 0 {
        Map::empty()
    } else {
        to_map(rows.drop_last()).insert(rows.last().0, rows.last().1)
    }
}

/// No key occurs in two rows.
pub open spec fn distinct_keys<K, V>(rows: Seq<(K, V)>) -> bool {
    forall|i: int, j: int| 0 <= i < j < rows.len() ==> rows[i].0 != rows[j].0
}

/// A key is in the map exactly if a row holds it.
pub proof fn lemma_to_map_keys<K, V>(rows: Seq<(K, V)>, k: K)
    ensures
        to_map(rows).contains_key(k) <==> exists|i: int| 0 <= i < rows.len() && rows[i].0 == k,
    decreases rows.len(),
{
    if rows.len() > 0 {
        let init = rows.drop_last();
        lemma_to_map_keys(init, k);
        if to_map(rows).contains_key(k) {
            if rows.last().0 == k {
                assert(rows[rows.len() - 1].0 == k);
            } else {
                let i = choose|i: int| 0 <= i < init.len() && init[i].0 == k;
                assert(rows[i].0 == k);
            }
        }
        if exists|i: int| 0 <= i < rows.len() && rows[i].0 == k {
            let i = choose|i: int| 0 <= i < rows.len() && rows[i].0 == k;
            if i < init.len() {
                assert(init[i].0 == k);
            }
        }
    }
}

/// Where keys are distinct, the map gives each row's key the row's value.
pub proof fn lemma_to_map_row<K, V>(rows: Seq<(K, V)>, i: int)
    requires
        0 <= i < rows.len(),
        distinct_keys(rows),
    ensures
        to_map(rows).contains_key(rows[i].0),
        to_map(rows)[rows[i].0] == rows[i].1,
    decreases rows.len(),
{
    let init = rows.drop_last();
    if i < rows.len() - 1 {
        assert(rows[i].0 != rows[rows.len() - 1].0);
        assert(distinct_keys(init)) by {
            assert forall|a: int, b: int| 0 <= a < b < init.len() implies init[a].0
                != init[b].0 by {
                assert(rows[a].0 != rows[b].0);
            }
        }
        assert(init[i] == rows[i]);
        lemma_to_map_row(init, i);
    }
}

/// Adding a row with a new key keeps the keys distinct.
pub proof fn lemma_push_distinct<K, V>(rows: Seq<(K, V)>, k: K, v: V)
    requires
        distinct_keys(rows),
        !to_map(rows).contains_key(k),
    ensures
        distinct_keys(rows.push((k, v))),
        to_map(rows.push((k, v))) == to_map(rows).insert(k, v),
{
    let next = rows.push((k, v));
    assert(next.drop_last() =~= rows);
    assert forall|i: int, j: int| 0 <= i < j < next.len() implies next[i].0 != next[j].0 by {
        if j == rows.len() {
            lemma_to_map_keys(rows, k);
            assert(rows[i].0 != k);
        } else {
            assert(rows[i].0 != rows[j].0);
        }
    }
}

/// One step of looking a key up: the row read next replaces what was found
/// if it holds the key.
pub proof fn lemma_lookup_step<K, V>(rows: Seq<(K, V)>, i: int)
    requires
        0 <= i < rows.len(),
    ensures
        to_map(rows.take(i + 1)) == to_map(rows.take(i)).insert(rows[i].0, rows[i].1),
{
    assert(rows.take(i + 1).drop_last() =~= rows.take(i));
}

/// Rows of a table with distinct keys, without its last row, still have
/// distinct keys, and none of them holds the key of the last.
pub proof fn lemma_drop_last_distinct<K, V>(rows: Seq<(K, V)>)
    requires
        rows.len() > 0,
        distinct_keys(rows),
    ensures
        distinct_keys(rows.drop_last()),
        !to_map(rows.drop_last()).contains_key(rows.last().0),
{
    let init = rows.drop_last();
    assert forall|a: int, b: int| 0 <= a < b < init.len() implies init[a].0 != init[b].0 by {
        assert(rows[a].0 != rows[b].0);
    }
    lemma_to_map_keys(init, rows.last().0);
    if to_map(init).contains_key(rows.last().0) {
        let j = choose|j: int| 0 <= j < init.len() && init[j].0 == rows.last().0;
        assert(rows[j].0 != rows[rows.len() - 1].0);
    }
}

/// Taking a row out of a table with distinct keys takes its key out of the
/// map.
pub proof fn lemma_remove_row<K, V>(rows: Seq<(K, V)>, i: int)
    requires
        0 <= i < rows.len(),
        distinct_keys(rows),
    ensures
        to_map(rows.remove(i)) == to_map(rows).remove(rows[i].0),
        distinct_keys(rows.remove(i)),
    decreases rows.len(),
{
    let init = rows.drop_last();
    let out = rows.remove(i);
    lemma_drop_last_distinct(rows);
    assert forall|a: int, b: int| 0 <= a < b < out.len() implies out[a].0 != out[b].0 by {
        let ra = if a < i { a } else { a + 1 };
        let rb = if b < i { b } else { b + 1 };
        assert(rows[ra].0 != rows[rb].0);
    }
    if i == rows.len() - 1 {
        assert(out =~= init);
        assert(to_map(init) =~= to_map(rows).remove(rows[i].0));
    } else {
        assert(out.drop_last() =~= init.remove(i));
        assert(out.last() == rows.last());
        assert(init[i] == rows[i]);
        lemma_remove_row(init, i);
        assert(rows[i].0 != rows[rows.len() - 1].0);
        assert(to_map(out) =~= to_map(rows).remove(rows[i].0));
    }
}

/// In a table with distinct keys, the key of row `i` is in none of the rows
/// before it.
pub proof fn lemma_take_fresh<K, V>(rows: Seq<(K, V)>, i: int)
    requires
        0 <= i < rows.len(),
        distinct_keys(rows),
    ensures
        !to_map(rows.take(i)).contains_key(rows[i].0),
{
    let prefix = rows.take(i);
    lemma_to_map_keys(prefix, rows[i].0);
    if to_map(prefix).contains_key(rows[i].0) {
        let j = choose|j: int| 0 <= j < prefix.len() && prefix[j].0 == rows[i].0;
        assert(rows[j].0 == rows[i].0);
    }
}

} // verus!
