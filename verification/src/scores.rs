//! The score table as a mathematical value: rows of key and score, kept in
//! key order, each key at most once.

use vstd::prelude::*;
use crate::key::{
    key_before, lemma_key_before_asymmetric, lemma_key_before_total, lemma_key_before_transitive,
};

verus! {

/// The largest score that can be recorded.
pub const MAX_SCORE: u32 = 10;

/// The rows stand in strictly rising key order, so no key occurs twice.
pub open spec fn ascending(table: Seq<(Seq<char>, u32)>) -> bool {
    forall|i: int, j: int|
        #![trigger table[i], table[j]]
        0 <= i < j < table.len() ==> key_before(table[i].0, table[j].0)
}

/// No row holds a score above `MAX_SCORE`.
pub open spec fn bounded(table: Seq<(Seq<char>, u32)>) -> bool {
    forall|i: int| 0 <= i < table.len() ==> (#[trigger] table[i]).1 <= MAX_SCORE
}

/// How many rows of a table in key order come before `key`.
pub open spec fn rank(table: Seq<(Seq<char>, u32)>, key: Seq<char>) -> int
    decreases table.len(),
{
    if table.len() == 0 {
        0
    } else if key_before(table.last().0, key) {
        table.len() as int
    } else {
        rank(table.drop_last(), key)
    }
}

/// The score recorded for `key`, if there is one.
pub open spec fn score_of(table: Seq<(Seq<char>, u32)>, key: Seq<char>) -> Option<u32> {
    let p: int = rank(table, key);
    if p < table.len() && table[p].0 == key {
        Some(table[p].1)
    } else {
        None
    }
}

/// The table after `score` is recorded for `key`: the row of `key` is
/// replaced where there is one, else a new row enters at its place in the
/// key order.
pub open spec fn upsert(table: Seq<(Seq<char>, u32)>, key: Seq<char>, score: u32) -> Seq<
    (Seq<char>, u32),
> {
    let p: int = rank(table, key);
    if p < table.len() && table[p].0 == key {
        table.update(p, (key, score))
    } else {
        table.insert(p, (key, score))
    }
}

/// The sum of the numbers in the rows: of a score table the total score,
/// of a distribution all that is handed out.
pub open spec fn total(rows: Seq<(Seq<char>, u32)>) -> nat
    decreases rows.len(),
{
    if rows.len() == 0 {
        0
    } else {
        total(rows.drop_last()) + rows.last().1 as nat
    }
}

/// In a table in key order, the rows before `rank` are exactly those whose
/// key comes before `key`.
pub proof fn lemma_rank_splits(table: Seq<(Seq<char>, u32)>, key: Seq<char>)
    requires
        ascending(table),
    ensures
        0 <= rank(table, key) <= table.len(),
        forall|i: int| 0 <= i < rank(table, key) ==> key_before((#[trigger] table[i]).0, key),
        forall|i: int|
            rank(table, key) <= i < table.len() ==> !key_before((#[trigger] table[i]).0, key),
    decreases table.len(),
{
    if table.len() == 0 {
    } else if key_before(table.last().0, key) {
        assert forall|i: int| 0 <= i < table.len() implies key_before(
            (#[trigger] table[i]).0,
            key,
        ) by {
            if i < table.len() - 1 {
                assert(key_before(table[i].0, table[table.len() - 1].0));
                lemma_key_before_transitive(table[i].0, table.last().0, key);
            }
        }
    } else {
        let front = table.drop_last();
        assert forall|i: int, j: int| 0 <= i < j < front.len() implies key_before(
            front[i].0,
            front[j].0,
        ) by {
            assert(front[i] == table[i] && front[j] == table[j]);
        }
        lemma_rank_splits(front, key);
        assert forall|i: int| 0 <= i < rank(table, key) implies key_before(
            (#[trigger] table[i]).0,
            key,
        ) by {
            assert(front[i] == table[i]);
        }
        assert forall|i: int| rank(table, key) <= i < table.len() implies !key_before(
            (#[trigger] table[i]).0,
            key,
        ) by {
            if i < table.len() - 1 {
                assert(front[i] == table[i]);
            }
        }
    }
}

/// A place that splits a table in key order as `rank` does is `rank`.
pub proof fn lemma_rank_is(table: Seq<(Seq<char>, u32)>, key: Seq<char>, p: int)
    requires
        ascending(table),
        0 <= p <= table.len(),
        forall|i: int| 0 <= i < p ==> key_before((#[trigger] table[i]).0, key),
        forall|i: int| p <= i < table.len() ==> !key_before((#[trigger] table[i]).0, key),
    ensures
        rank(table, key) == p,
{
    lemma_rank_splits(table, key);
    let r: int = rank(table, key);
    if r < p {
        assert(key_before(table[r].0, key));
    } else if p < r {
        assert(key_before(table[p].0, key));
    }
}

/// In a table in key order, the key of row `i` has rank `i`, and the score
/// found for it is that of the row.
pub proof fn lemma_row_is_found(table: Seq<(Seq<char>, u32)>, i: int)
    requires
        ascending(table),
        0 <= i < table.len(),
    ensures
        rank(table, table[i].0) == i,
        score_of(table, table[i].0) == Some(table[i].1),
{
    let key = table[i].0;
    assert forall|j: int| 0 <= j < i implies key_before((#[trigger] table[j]).0, key) by {
        assert(key_before(table[j].0, table[i].0));
    }
    assert forall|j: int| i <= j < table.len() implies !key_before(
        (#[trigger] table[j]).0,
        key,
    ) by {
        if key_before(table[j].0, key) {
            lemma_key_before_asymmetric(table[j].0, key);
            if i < j {
                assert(key_before(table[i].0, table[j].0));
            }
        }
    }
    lemma_rank_is(table, key, i);
}

/// In a table in key order, a score is found for a key exactly when the
/// table holds that row.
pub proof fn lemma_score_of_is_membership(table: Seq<(Seq<char>, u32)>, key: Seq<char>, score: u32)
    requires
        ascending(table),
    ensures
        score_of(table, key) == Some(score) <==> table.contains((key, score)),
{
    lemma_rank_splits(table, key);
    if table.contains((key, score)) {
        let i: int = choose|i: int| 0 <= i < table.len() && table[i] == (key, score);
        lemma_row_is_found(table, i);
    }
    if score_of(table, key) == Some(score) {
        let p: int = rank(table, key);
        assert(table[p] == (key, score));
    }
}

/// Recording a score keeps the table in key order.
pub proof fn lemma_upsert_ascending(table: Seq<(Seq<char>, u32)>, key: Seq<char>, score: u32)
    requires
        ascending(table),
    ensures
        ascending(upsert(table, key, score)),
        rank(upsert(table, key, score), key) == rank(table, key),
        upsert(table, key, score)[rank(table, key)] == (key, score),
{
    lemma_rank_splits(table, key);
    let p: int = rank(table, key);
    let after = upsert(table, key, score);
    if p < table.len() && table[p].0 == key {
        assert forall|i: int, j: int| 0 <= i < j < after.len() implies key_before(
            after[i].0,
            after[j].0,
        ) by {
            assert(key_before(table[i].0, table[j].0));
        }
    } else {
        assert forall|i: int, j: int| 0 <= i < j < after.len() implies key_before(
            after[i].0,
            after[j].0,
        ) by {
            if j < p {
                assert(key_before(table[i].0, table[j].0));
            } else if j == p {
                assert(key_before(table[i].0, key));
            } else if i == p {
                assert(!key_before(table[j - 1].0, key));
                lemma_key_before_total(table[j - 1].0, key);
                if table[j - 1].0 == key {
                    if p < j - 1 {
                        assert(key_before(table[p].0, table[j - 1].0));
                    }
                }
            } else if i < p {
                assert(key_before(table[i].0, table[j - 1].0));
            } else {
                assert(key_before(table[i - 1].0, table[j - 1].0));
            }
        }
    }
    lemma_row_is_found(after, p);
}

/// After a score is recorded for `key`, that score is found for `key`, and
/// every other key has the score it had.
pub proof fn lemma_upsert_score_of(
    table: Seq<(Seq<char>, u32)>,
    key: Seq<char>,
    score: u32,
    other: Seq<char>,
)
    requires
        ascending(table),
    ensures
        score_of(upsert(table, key, score), other) == if other == key {
            Some(score)
        } else {
            score_of(table, other)
        },
{
    lemma_rank_splits(table, key);
    lemma_upsert_ascending(table, key, score);
    let p: int = rank(table, key);
    let after = upsert(table, key, score);
    if other != key {
        lemma_rank_splits(table, other);
        let q: int = rank(table, other);
        let replaced = p < table.len() && table[p].0 == key;
        // where `other` stands after the change
        let q2: int = if replaced || q < p || (q == p && key_before(other, key)) {
            q
        } else {
            q + 1
        };
        lemma_key_before_total(other, key);
        if q < p {
            assert(key_before(table[q].0, key));
            if key_before(key, other) {
                lemma_key_before_transitive(table[q].0, key, other);
            }
        }
        if p < q {
            assert(key_before(table[p].0, other));
            if key_before(other, key) {
                lemma_key_before_transitive(table[p].0, other, key);
            }
        }
        assert forall|i: int| 0 <= i < q2 implies key_before((#[trigger] after[i]).0, other) by {
            if replaced {
                if i != p {
                    assert(after[i] == table[i]);
                } else {
                    assert(key_before(table[p].0, other));
                }
            } else if i < p {
                assert(after[i] == table[i]);
            } else if i == p {
            } else {
                assert(after[i] == table[i - 1]);
            }
        }
        assert forall|i: int| q2 <= i < after.len() implies !key_before(
            (#[trigger] after[i]).0,
            other,
        ) by {
            if replaced {
                if i != p {
                    assert(after[i] == table[i]);
                } else {
                    assert(!key_before(table[p].0, other));
                }
            } else if i < p {
                assert(after[i] == table[i]);
            } else if i == p {
                if key_before(key, other) {
                    lemma_key_before_asymmetric(key, other);
                }
            } else {
                assert(after[i] == table[i - 1]);
            }
        }
        lemma_rank_is(after, other, q2);
    }
}

/// Recording keeps every score within the bound when the new one is.
pub proof fn lemma_upsert_bounded(table: Seq<(Seq<char>, u32)>, key: Seq<char>, score: u32)
    requires
        ascending(table),
        bounded(table),
        score <= MAX_SCORE,
    ensures
        bounded(upsert(table, key, score)),
{
    lemma_rank_splits(table, key);
    let p: int = rank(table, key);
    let after = upsert(table, key, score);
    assert forall|i: int| 0 <= i < after.len() implies (#[trigger] after[i]).1 <= MAX_SCORE by {
        if p < table.len() && table[p].0 == key {
            if i != p {
                assert(after[i] == table[i]);
            }
        } else if i < p {
            assert(after[i] == table[i]);
        } else if i > p {
            assert(after[i] == table[i - 1]);
        }
    }
}

/// Recording a second score for a key leaves the table as if only the
/// second had been recorded: a score is replaced, never added to.
pub proof fn lemma_upsert_replaces(
    table: Seq<(Seq<char>, u32)>,
    key: Seq<char>,
    first: u32,
    second: u32,
)
    requires
        ascending(table),
    ensures
        upsert(upsert(table, key, first), key, second) == upsert(table, key, second),
        score_of(upsert(upsert(table, key, first), key, second), key) == Some(second),
{
    lemma_rank_splits(table, key);
    lemma_upsert_ascending(table, key, first);
    lemma_upsert_score_of(table, key, second, key);
    assert(upsert(upsert(table, key, first), key, second) =~= upsert(table, key, second));
}

/// Without its last row, a table in key order finds no score for the key of
/// that row, and for every other key the score that the whole table finds.
pub proof fn lemma_score_of_front(table: Seq<(Seq<char>, u32)>, key: Seq<char>)
    requires
        ascending(table),
        table.len() > 0,
    ensures
        ascending(table.drop_last()),
        score_of(table.drop_last(), key) == if key == table.last().0 {
            None
        } else {
            score_of(table, key)
        },
{
    let front = table.drop_last();
    assert forall|i: int, j: int| 0 <= i < j < front.len() implies key_before(
        front[i].0,
        front[j].0,
    ) by {
        assert(front[i] == table[i] && front[j] == table[j]);
    }
    lemma_rank_splits(front, key);
    let p: int = rank(front, key);
    if key_before(table.last().0, key) {
        lemma_key_before_asymmetric(table.last().0, key);
        if p < front.len() {
            assert(front[p] == table[p]);
            assert(key_before(table[p].0, table[table.len() - 1].0));
            lemma_key_before_transitive(table[p].0, table.last().0, key);
        }
    } else {
        if p < front.len() {
            assert(front[p] == table[p]);
            if key == table.last().0 {
                assert(key_before(table[p].0, table[table.len() - 1].0));
                lemma_key_before_asymmetric(table[p].0, key);
            }
        }
    }
}

/// A table in key order is fixed by what it finds for each key: two such
/// tables that find the same score for every key are the same table, row for
/// row. So the order of the rows depends on the content alone, not on the
/// order in which the scores were recorded.
pub proof fn lemma_table_fixed_by_content(a: Seq<(Seq<char>, u32)>, b: Seq<(Seq<char>, u32)>)
    requires
        ascending(a),
        ascending(b),
        forall|key: Seq<char>| score_of(a, key) == score_of(b, key),
    ensures
        a == b,
    decreases a.len(),
{
    if a.len() == 0 {
        if b.len() > 0 {
            lemma_row_is_found(b, 0);
            assert(score_of(a, b[0].0) == score_of(b, b[0].0));
        }
        assert(a =~= b);
    } else if b.len() == 0 {
        lemma_row_is_found(a, 0);
        assert(score_of(a, a[0].0) == score_of(b, a[0].0));
    } else {
        let last_a: int = a.len() - 1;
        let last_b: int = b.len() - 1;
        lemma_row_is_found(a, last_a);
        lemma_row_is_found(b, last_b);
        assert(score_of(b, a[last_a].0) == score_of(a, a[last_a].0));
        assert(score_of(a, b[last_b].0) == score_of(b, b[last_b].0));
        lemma_rank_splits(b, a[last_a].0);
        lemma_rank_splits(a, b[last_b].0);
        let j: int = rank(b, a[last_a].0);
        let i: int = rank(a, b[last_b].0);
        assert(b[j] == a[last_a]);
        assert(a[i] == b[last_b]);
        if j < last_b {
            assert(key_before(b[j].0, b[last_b].0));
            lemma_key_before_asymmetric(a[last_a].0, a[i].0);
            if i < last_a {
                assert(key_before(a[i].0, a[last_a].0));
            }
        }
        assert(a.last() == b.last());
        assert forall|key: Seq<char>| score_of(a.drop_last(), key) == score_of(
            b.drop_last(),
            key,
        ) by {
            lemma_score_of_front(a, key);
            lemma_score_of_front(b, key);
            assert(score_of(a, key) == score_of(b, key));
        }
        lemma_score_of_front(a, a.last().0);
        lemma_score_of_front(b, b.last().0);
        lemma_table_fixed_by_content(a.drop_last(), b.drop_last());
        assert(a =~= a.drop_last().push(a.last()));
        assert(b =~= b.drop_last().push(b.last()));
    }
}

/// Scores recorded for two different keys can be recorded in either order.
pub proof fn lemma_upsert_commutes(
    table: Seq<(Seq<char>, u32)>,
    key: Seq<char>,
    score: u32,
    other_key: Seq<char>,
    other_score: u32,
)
    requires
        ascending(table),
        key != other_key,
    ensures
        upsert(upsert(table, key, score), other_key, other_score) == upsert(
            upsert(table, other_key, other_score),
            key,
            score,
        ),
{
    let one = upsert(table, key, score);
    let other = upsert(table, other_key, other_score);
    let left = upsert(one, other_key, other_score);
    let right = upsert(other, key, score);
    lemma_upsert_ascending(table, key, score);
    lemma_upsert_ascending(table, other_key, other_score);
    lemma_upsert_ascending(one, other_key, other_score);
    lemma_upsert_ascending(other, key, score);
    assert forall|k: Seq<char>| score_of(left, k) == score_of(right, k) by {
        lemma_upsert_score_of(table, key, score, k);
        lemma_upsert_score_of(table, other_key, other_score, k);
        lemma_upsert_score_of(one, other_key, other_score, k);
        lemma_upsert_score_of(other, key, score, k);
    }
    lemma_table_fixed_by_content(left, right);
}

} // verus!
