//! What holds of the engine across operations, proved from what the
//! operations are held to.

use vstd::prelude::*;
use crate::contract::{
    deposit_step, distribution_of, execute_step, instantiate_step, query_answer,
    record_contribution_step, record_total_profit_step, set_global_model_cid_step,
};
use crate::distribution::{lemma_shares_rows, lemma_shares_within_profit, shares};
use crate::error::ContractError;
use crate::msg::{ActionRecordView, ExecuteMsgView, QueryMsg, QueryResponseView};
use crate::scores::{
    lemma_upsert_ascending, lemma_upsert_bounded, lemma_upsert_replaces, lemma_upsert_score_of,
    score_of, total, MAX_SCORE,
};
use crate::state::StoreView;

verus! {

/// A deposit of `amount` into what an earlier operation left, if it left
/// anything.
pub open spec fn then_deposit(earlier: Result<StoreView, ContractError>, amount: u32) -> Result<
    StoreView,
    ContractError,
> {
    match earlier {
        Ok(s) => deposit_step(s, amount),
        Err(e) => Err(e),
    }
}

/// A contribution recorded in what an earlier operation left, if it left
/// anything.
pub open spec fn then_record_contribution(
    earlier: Result<StoreView, ContractError>,
    sender: Seq<char>,
    score: u32,
) -> Result<StoreView, ContractError> {
    match earlier {
        Ok(s) => record_contribution_step(s, sender, score),
        Err(e) => Err(e),
    }
}

/// Two deposits, one after the other, end as one deposit of their sum
/// ends: in the same store, or in the same failure. The order of the two
/// makes no difference, and two amounts whose sum leaves the integer range
/// cannot both be deposited.
pub proof fn lemma_deposits_add_up(s: StoreView, a: u32, b: u32)
    ensures
        then_deposit(deposit_step(s, a), b) == then_deposit(deposit_step(s, b), a),
        a + b <= u32::MAX ==> then_deposit(deposit_step(s, a), b) == deposit_step(
            s,
            (a + b) as u32,
        ),
        a + b > u32::MAX ==> then_deposit(deposit_step(s, a), b) is Err,
        a + b > u32::MAX && s.config is Some ==> then_deposit(deposit_step(s, a), b) == Err::<
            StoreView,
            ContractError,
        >(ContractError::ArithmeticOverflow),
{
}

/// A deposit never lowers the deposited total.
pub proof fn lemma_deposit_never_lowers(s: StoreView, amount: u32)
    requires
        deposit_step(s, amount) is Ok,
    ensures
        deposit_step(s, amount)->Ok_0.config->0.total_deposit == s.config->0.total_deposit
            + amount,
{
}

/// Once the ledger is set up, a score is recorded exactly when it is at
/// most `MAX_SCORE`; a greater one is refused as invalid whatever the store
/// holds.
pub proof fn lemma_score_bound_decides(s: StoreView, sender: Seq<char>, score: u32)
    ensures
        s.config is Some ==> (record_contribution_step(s, sender, score) is Ok <==> score
            <= MAX_SCORE),
        score > MAX_SCORE ==> record_contribution_step(s, sender, score) == Err::<
            StoreView,
            ContractError,
        >(ContractError::InvalidScore),
{
}

/// After a contribution is recorded, the participant has the new score and
/// every other participant the score they had.
pub proof fn lemma_recorded_score_is_found(
    s: StoreView,
    sender: Seq<char>,
    score: u32,
    other: Seq<char>,
)
    requires
        s.valid(),
        record_contribution_step(s, sender, score) is Ok,
    ensures
        score_of(record_contribution_step(s, sender, score)->Ok_0.scores, other) == if other
            == sender {
            Some(score)
        } else {
            score_of(s.scores, other)
        },
{
    lemma_upsert_score_of(s.scores, sender, score, other);
}

/// A second score recorded for a participant takes the place of the first:
/// the store ends as if only the second had been recorded.
pub proof fn lemma_last_score_stands(s: StoreView, sender: Seq<char>, first: u32, second: u32)
    requires
        s.valid(),
        s.config is Some,
        first <= MAX_SCORE,
    ensures
        then_record_contribution(record_contribution_step(s, sender, first), sender, second)
            == record_contribution_step(s, sender, second),
        record_contribution_step(s, sender, second) matches Ok(after) ==> score_of(
            after.scores,
            sender,
        ) == Some(second),
{
    lemma_upsert_replaces(s.scores, sender, first, second);
}

/// Before the ledger is set up every query fails as not initialized. Once
/// it is set up, the deposited total is the one it was set up with, and the
/// model reference is empty.
pub proof fn lemma_queries_around_instantiate(
    s: StoreView,
    sender: Seq<char>,
    total_deposit: u32,
    msg: QueryMsg,
)
    ensures
        s.config is None ==> query_answer(s, msg) == Err::<QueryResponseView, ContractError>(
            ContractError::NotInitialized,
        ),
        instantiate_step(s, sender, total_deposit) matches Ok(after) ==> {
            &&& query_answer(after, QueryMsg::GetTotalDeposit {  }) == Ok::<
                QueryResponseView,
                ContractError,
            >(QueryResponseView::TotalDeposit(total_deposit))
            &&& query_answer(after, QueryMsg::GetGlobalModelCID {  }) == Ok::<
                QueryResponseView,
                ContractError,
            >(QueryResponseView::GlobalModelCID(Seq::empty()))
        },
{
}

/// The ledger is set up at most once: on what a first setting up left, a
/// second fails.
pub proof fn lemma_instantiate_once(
    s: StoreView,
    sender: Seq<char>,
    total_deposit: u32,
    other_sender: Seq<char>,
    other_deposit: u32,
)
    requires
        instantiate_step(s, sender, total_deposit) is Ok,
    ensures
        instantiate_step(
            instantiate_step(s, sender, total_deposit)->Ok_0,
            other_sender,
            other_deposit,
        ) == Err::<StoreView, ContractError>(ContractError::AlreadyInitialized),
{
}

/// Setting the model reference a second time to the same text changes
/// nothing.
pub proof fn lemma_set_reference_twice(s: StoreView, cid: Seq<char>)
    requires
        set_global_model_cid_step(s, cid) is Ok,
    ensures
        set_global_model_cid_step(set_global_model_cid_step(s, cid)->Ok_0, cid)
            == set_global_model_cid_step(s, cid),
{
}

/// The reported profit is overwritten, not added up: after two reports the
/// store is as after the second alone.
pub proof fn lemma_last_profit_stands(s: StoreView, first: u32, second: u32)
    requires
        record_total_profit_step(s, first) is Ok,
    ensures
        record_total_profit_step(record_total_profit_step(s, first)->Ok_0, second)
            == record_total_profit_step(s, second),
{
}

/// No command takes a store out of its invariant, changes the owner,
/// lowers the deposited total or unmakes the ledger record; and a command
/// that succeeds found the ledger set up.
pub proof fn lemma_execute_keeps_invariant(s: StoreView, msg: ExecuteMsgView)
    requires
        s.valid(),
        execute_step(s, msg) is Ok,
    ensures
        execute_step(s, msg)->Ok_0.0.valid(),
        s.config is Some,
        execute_step(s, msg)->Ok_0.0.config is Some,
        execute_step(s, msg)->Ok_0.0.config->0.owner == s.config->0.owner,
        execute_step(s, msg)->Ok_0.0.config->0.total_deposit >= s.config->0.total_deposit,
{
    match msg {
        ExecuteMsgView::RecordContribution { sender, score } => {
            lemma_upsert_ascending(s.scores, sender, score);
            lemma_upsert_bounded(s.scores, sender, score);
        },
        _ => {},
    }
}

/// No command and no query fails as unauthorized: the engine asks nothing
/// of its caller.
pub proof fn lemma_never_unauthorized(
    s: StoreView,
    sender: Seq<char>,
    total_deposit: u32,
    msg: ExecuteMsgView,
    question: QueryMsg,
)
    ensures
        instantiate_step(s, sender, total_deposit) != Err::<StoreView, ContractError>(
            ContractError::Unauthorized,
        ),
        execute_step(s, msg) != Err::<(StoreView, ActionRecordView), ContractError>(
            ContractError::Unauthorized,
        ),
        query_answer(s, question) != Err::<QueryResponseView, ContractError>(
            ContractError::Unauthorized,
        ),
{
}

/// A distribution has one share for each row of the score table, in the
/// same order; each share is the rounded-down part of the profit that the
/// score is of the total score; no share exceeds the profit, and all
/// together do not exceed it. With no score to divide by, every share is 0
/// and the distribution still succeeds.
pub proof fn lemma_distribution_is_proportional(s: StoreView, i: int)
    requires
        distribution_of(s) is Ok,
        0 <= i < s.scores.len(),
    ensures
        distribution_of(s)->Ok_0.len() == s.scores.len(),
        distribution_of(s)->Ok_0[i].0 == s.scores[i].0,
        total(s.scores) > 0 ==> distribution_of(s)->Ok_0[i].1 == (s.scores[i].1
            * s.config->0.total_profit) / (total(s.scores) as int),
        total(s.scores) == 0 ==> distribution_of(s)->Ok_0[i].1 == 0,
        distribution_of(s)->Ok_0[i].1 <= s.config->0.total_profit,
        total(distribution_of(s)->Ok_0) <= s.config->0.total_profit,
{
    lemma_shares_rows(s.scores, s.config->0.total_profit, i);
    lemma_shares_within_profit(s.scores, s.config->0.total_profit);
}

/// A distribution fails only where the ledger is not set up or the scores
/// sum to more than the integer range holds; an empty score table gives an
/// empty distribution.
pub proof fn lemma_distribution_succeeds(s: StoreView)
    ensures
        distribution_of(s) is Ok <==> s.config is Some && total(s.scores) <= u32::MAX,
        s.config is Some && s.scores.len() == 0 ==> distribution_of(s) == Ok::<
            Seq<(Seq<char>, u32)>,
            ContractError,
        >(Seq::empty()),
{
    if s.config is Some && s.scores.len() == 0 {
        assert(shares(s.scores, s.config->0.total_profit) =~= Seq::empty());
    }
}

} // verus!
