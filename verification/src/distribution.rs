//! How the profit is divided: each participant receives the part of the
//! profit that their score is of the total score, rounded down. What the
//! rounding leaves over is handed to nobody.

use vstd::prelude::*;
use crate::scores::total;

verus! {

/// The share that `score` earns of `total_profit` when all scores sum to
/// `total_score`. With no score recorded there is nothing to divide by, and
/// the share is 0.
pub open spec fn share(score: u32, total_profit: u32, total_score: nat) -> nat {
    if total_score > 0 {
        (score as nat * total_profit as nat) / total_score
    } else {
        0
    }
}

/// The distribution of `total_profit` over a score table: one row per
/// participant, in the order of the table.
pub open spec fn shares(table: Seq<(Seq<char>, u32)>, total_profit: u32) -> Seq<(Seq<char>, u32)> {
    Seq::new(
        table.len(),
        |i: int| (table[i].0, share(table[i].1, total_profit, total(table)) as u32),
    )
}

/// The total of the first rows grows by the number in the next row.
pub proof fn lemma_total_step(rows: Seq<(Seq<char>, u32)>, n: int)
    requires
        0 <= n < rows.len(),
    ensures
        total(rows.take(n + 1)) == total(rows.take(n)) + rows[n].1,
{
    assert(rows.take(n + 1).drop_last() =~= rows.take(n));
}

/// The total of the first rows is at most the total of all.
pub proof fn lemma_total_of_prefix(rows: Seq<(Seq<char>, u32)>, n: int)
    requires
        0 <= n <= rows.len(),
    ensures
        total(rows.take(n)) <= total(rows),
    decreases rows.len() - n,
{
    if n == rows.len() {
        assert(rows.take(n) =~= rows);
    } else {
        lemma_total_step(rows, n);
        lemma_total_of_prefix(rows, n + 1);
    }
}

/// No row holds more than the total.
pub proof fn lemma_row_within_total(rows: Seq<(Seq<char>, u32)>, i: int)
    requires
        0 <= i < rows.len(),
    ensures
        rows[i].1 <= total(rows),
{
    lemma_total_step(rows, i);
    lemma_total_of_prefix(rows, i + 1);
}

/// A score that is part of the total earns at most the whole profit.
pub proof fn lemma_share_within_profit(score: u32, total_profit: u32, total_score: nat)
    requires
        score <= total_score,
    ensures
        share(score, total_profit, total_score) <= total_profit,
        share(score, total_profit, total_score) * total_score <= score * total_profit,
{
    if total_score > 0 {
        let product: nat = score as nat * total_profit as nat;
        assert(product <= total_score * total_profit) by (nonlinear_arith)
            requires
                product == score as nat * total_profit as nat,
                score <= total_score,
        ;
        assert(product / total_score <= total_profit && (product / total_score) * total_score
            <= product) by (nonlinear_arith)
            requires
                product <= total_score * total_profit,
                total_score > 0,
        ;
    } else {
        assert(0 * total_score == 0) by (nonlinear_arith);
    }
}

/// Every share of a distribution is the formula's value, and fits.
pub proof fn lemma_shares_rows(table: Seq<(Seq<char>, u32)>, total_profit: u32, i: int)
    requires
        0 <= i < table.len(),
    ensures
        shares(table, total_profit)[i].0 == table[i].0,
        shares(table, total_profit)[i].1 == share(table[i].1, total_profit, total(table)),
        shares(table, total_profit)[i].1 <= total_profit,
{
    lemma_row_within_total(table, i);
    lemma_share_within_profit(table[i].1, total_profit, total(table));
}

proof fn lemma_shares_against_scores(table: Seq<(Seq<char>, u32)>, total_profit: u32, n: int)
    requires
        0 <= n <= table.len(),
    ensures
        total(shares(table, total_profit).take(n)) * total(table) <= total(table.take(n))
            * total_profit,
    decreases n,
{
    let paid = shares(table, total_profit);
    let all: nat = total(table);
    if n == 0 {
        assert(0 * all == 0 && 0 * total_profit == 0) by (nonlinear_arith);
    } else {
        lemma_shares_against_scores(table, total_profit, n - 1);
        lemma_total_step(paid, n - 1);
        lemma_total_step(table, n - 1);
        lemma_shares_rows(table, total_profit, n - 1);
        lemma_row_within_total(table, n - 1);
        lemma_share_within_profit(table[n - 1].1, total_profit, all);
        let a: nat = total(paid.take(n - 1));
        let b: nat = paid[n - 1].1 as nat;
        let c: nat = total(table.take(n - 1));
        let d: nat = table[n - 1].1 as nat;
        assert((a + b) * all <= (c + d) * total_profit) by (nonlinear_arith)
            requires
                a * all <= c * total_profit,
                b * all <= d * total_profit,
        ;
    }
}

/// A distribution never hands out more than the profit. It may hand out
/// less: what the rounding of each share leaves over stays undistributed.
pub proof fn lemma_shares_within_profit(table: Seq<(Seq<char>, u32)>, total_profit: u32)
    ensures
        total(shares(table, total_profit)) <= total_profit,
{
    let paid = shares(table, total_profit);
    let all: nat = total(table);
    lemma_shares_against_scores(table, total_profit, table.len() as int);
    assert(paid.take(table.len() as int) =~= paid);
    assert(table.take(table.len() as int) =~= table);
    if all > 0 {
        assert(total(paid) <= total_profit) by (nonlinear_arith)
            requires
                total(paid) * all <= all * total_profit,
                all > 0,
        ;
    } else {
        lemma_nothing_to_share(table, total_profit, table.len() as int);
    }
}

proof fn lemma_nothing_to_share(table: Seq<(Seq<char>, u32)>, total_profit: u32, n: int)
    requires
        0 <= n <= table.len(),
        total(table) == 0,
    ensures
        total(shares(table, total_profit).take(n)) == 0,
    decreases n,
{
    if n > 0 {
        lemma_nothing_to_share(table, total_profit, n - 1);
        lemma_total_step(shares(table, total_profit), n - 1);
    }
}

/// Where no score is recorded, or every score is 0, every share is 0.
pub proof fn lemma_no_score_no_share(table: Seq<(Seq<char>, u32)>, total_profit: u32, i: int)
    requires
        total(table) == 0,
        0 <= i < table.len(),
    ensures
        shares(table, total_profit)[i].1 == 0,
{
}

} // verus!
