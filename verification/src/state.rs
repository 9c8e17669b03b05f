//! What is kept between operations: the ledger record and the score table.

use vstd::prelude::*;
use crate::error::ContractError;
use crate::key::{key_order, KeyOrder, key_before, lemma_key_before_asymmetric, lemma_key_before_transitive};
use crate::scores::{
    ascending, bounded, lemma_rank_is, lemma_row_is_found, lemma_upsert_ascending,
    lemma_upsert_bounded, rank, score_of, upsert, MAX_SCORE,
};

verus! {

/// The ledger record. There is at most one, made when the store is set up.
#[derive(Debug, PartialEq, Eq)]
pub struct State {
    /// Everything deposited so far.
    pub total_deposit: u32,
    /// The account that set the ledger up.
    pub owner: String,
    /// The profit last reported.
    pub total_profit: u32,
    /// Reference to the shared model, as last set.
    pub global_model_cid: String,
}

/// A ledger record as a mathematical value.
pub struct StateView {
    pub total_deposit: u32,
    pub owner: Seq<char>,
    pub total_profit: u32,
    pub global_model_cid: Seq<char>,
}

impl View for State {
    type V = StateView;

    open spec fn view(&self) -> StateView {
        StateView {
            total_deposit: self.total_deposit,
            owner: self.owner@,
            total_profit: self.total_profit,
            global_model_cid: self.global_model_cid@,
        }
    }
}

impl Clone for State {
    fn clone(&self) -> (r: Self)
        ensures
            r@ == self@,
    {
        State {
            total_deposit: self.total_deposit,
            owner: self.owner.clone(),
            total_profit: self.total_profit,
            global_model_cid: self.global_model_cid.clone(),
        }
    }
}

/// The content of a store as a mathematical value.
pub struct StoreView {
    /// The ledger record, once it has been made.
    pub config: Option<StateView>,
    /// The score table, one row per participant.
    pub scores: Seq<(Seq<char>, u32)>,
}

impl StoreView {
    /// The score table is in key order and every score is within the bound.
    pub open spec fn valid(self) -> bool {
        ascending(self.scores) && bounded(self.scores)
    }
}

struct Row {
    key: String,
    score: u32,
}

/// The persistent store: the ledger record and the score table. Every
/// store has its score table in key order and its scores within the bound.
pub struct Store {
    config: Option<State>,
    rows: Vec<Row>,
}

spec fn row_views(rows: Seq<Row>) -> Seq<(Seq<char>, u32)> {
    rows.map_values(|r: Row| (r.key@, r.score))
}

impl View for Store {
    type V = StoreView;

    closed spec fn view(&self) -> StoreView {
        StoreView {
            config: match self.config {
                Some(state) => Some(state@),
                None => None,
            },
            scores: row_views(self.rows@),
        }
    }
}

impl Store {
    /// Holds of every store, at all times.
    #[verifier::type_invariant]
    pub open spec fn inv(&self) -> bool {
        self@.valid()
    }

    /// A store that holds nothing: no ledger record and no scores.
    pub fn new() -> (r: Store)
        ensures
            r@.config is None,
            r@.scores.len() == 0,
            r@.valid(),
    {
        Store { config: None, rows: Vec::new() }
    }

    /// Whether the ledger record has been made.
    pub fn is_initialized(&self) -> (r: bool)
        ensures
            r == self@.config is Some,
            self@.valid(),
    {
        proof {
            use_type_invariant(self);
        }
        self.config.is_some()
    }

    /// The ledger record.
    pub fn load_config(&self) -> (r: Result<State, ContractError>)
        ensures
            self@.valid(),
            match r {
                Ok(state) => self@.config == Some(state@),
                Err(e) => self@.config is None && e == ContractError::NotInitialized,
            },
    {
        proof {
            use_type_invariant(self);
        }
        match &self.config {
            Some(state) => Ok(state.clone()),
            None => Err(ContractError::NotInitialized),
        }
    }

    /// Writes the ledger record, over the one that was there.
    pub fn save_config(&mut self, state: State)
        ensures
            final(self)@.valid(),
            final(self)@.config == Some(state@),
            final(self)@.scores == old(self)@.scores,
    {
        proof {
            use_type_invariant(&*self);
        }
        self.config = Some(state);
    }

    /// Where `key` stands in the table, and whether a row holds it.
    fn find(&self, key: &String) -> (r: (bool, usize))
        ensures
            self@.valid(),
            r.1 == rank(self@.scores, key@),
            r.1 <= self.rows.len(),
            r.0 <==> r.1 < self@.scores.len() && self@.scores[r.1 as int].0 == key@,
    {
        proof {
            use_type_invariant(self);
        }
        let ghost table = self@.scores;
        let mut low: usize = 0;
        let mut high: usize = self.rows.len();
        while low < high
            invariant
                low <= high <= self.rows.len(),
                table == self@.scores,
                table.len() == self.rows.len(),
                self@.valid(),
                forall|i: int| 0 <= i < low ==> key_before((#[trigger] table[i]).0, key@),
                forall|i: int| high <= i < table.len() ==> key_before(key@, (#[trigger] table[i]).0),
            decreases high - low,
        {
            let mid: usize = low + (high - low) / 2;
            assert(table[mid as int].0 == self.rows[mid as int].key@);
            match key_order(&self.rows[mid].key, key) {
                KeyOrder::Before => {
                    proof {
                        assert forall|i: int| 0 <= i < mid + 1 implies key_before(
                            (#[trigger] table[i]).0,
                            key@,
                        ) by {
                            if i < mid {
                                assert(key_before(table[i].0, table[mid as int].0));
                                lemma_key_before_transitive(table[i].0, table[mid as int].0, key@);
                            }
                        }
                    }
                    low = mid + 1;
                },
                KeyOrder::After => {
                    proof {
                        assert forall|i: int| mid <= i < table.len() implies key_before(
                            key@,
                            (#[trigger] table[i]).0,
                        ) by {
                            if mid < i {
                                assert(key_before(table[mid as int].0, table[i].0));
                                lemma_key_before_transitive(key@, table[mid as int].0, table[i].0);
                            }
                        }
                    }
                    high = mid;
                },
                KeyOrder::Same => {
                    proof {
                        lemma_row_is_found(table, mid as int);
                    }
                    return (true, mid);
                },
            }
        }
        proof {
            assert forall|i: int| low <= i < table.len() implies !key_before(
                (#[trigger] table[i]).0,
                key@,
            ) by {
                lemma_key_before_asymmetric(key@, table[i].0);
            }
            lemma_rank_is(table, key@, low as int);
            if low < table.len() {
                lemma_key_before_asymmetric(key@, table[low as int].0);
            }
        }
        (false, low)
    }

    /// The score recorded for `key`, if there is one.
    pub fn get_score(&self, key: &String) -> (r: Option<u32>)
        ensures
            self@.valid(),
            r == score_of(self@.scores, key@),
    {
        let (found, at): (bool, usize) = self.find(key);
        if found {
            Some(self.rows[at].score)
        } else {
            None
        }
    }

    /// Records `score` for `key`, over the score that `key` had. A score
    /// above `MAX_SCORE` is refused and nothing is written.
    pub fn put_score(&mut self, key: String, score: u32) -> (r: Result<(), ContractError>)
        ensures
            final(self)@.valid(),
            final(self)@.config == old(self)@.config,
            match r {
                Ok(_) => score <= MAX_SCORE && final(self)@.scores == upsert(
                    old(self)@.scores,
                    key@,
                    score,
                ),
                Err(e) => score > MAX_SCORE && e == ContractError::InvalidScore && final(self)@.scores
                    == old(self)@.scores,
            },
    {
        proof {
            use_type_invariant(&*self);
        }
        if score > MAX_SCORE {
            return Err(ContractError::InvalidScore);
        }
        let (found, at): (bool, usize) = self.find(&key);
        let ghost before = self@.scores;
        let ghost key_view = key@;
        proof {
            lemma_upsert_ascending(before, key_view, score);
            lemma_upsert_bounded(before, key_view, score);
        }
        let mut rows = Vec::new();
        std::mem::swap(&mut rows, &mut self.rows);
        if found {
            rows.set(at, Row { key, score });
        } else {
            rows.insert(at, Row { key, score });
        }
        assert(row_views(rows@) =~= upsert(before, key_view, score));
        self.rows = rows;
        Ok(())
    }

    /// The keys of the score table, in key order.
    pub fn iterate_score_keys(&self) -> (r: Vec<String>)
        ensures
            self@.valid(),
            r@.len() == self@.scores.len(),
            forall|i: int| 0 <= i < r@.len() ==> (#[trigger] r@[i])@ == self@.scores[i].0,
    {
        proof {
            use_type_invariant(self);
        }
        let mut keys: Vec<String> = Vec::new();
        let mut i: usize = 0;
        while i < self.rows.len()
            invariant
                i <= self.rows.len(),
                keys@.len() == i,
                forall|j: int| 0 <= j < i ==> (#[trigger] keys@[j])@ == self.rows@[j].key@,
            decreases self.rows.len() - i,
        {
            keys.push(self.rows[i].key.clone());
            i += 1;
        }
        keys
    }
}

} // verus!
