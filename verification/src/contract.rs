//! The engine: one operation per command or query. Each operation reads the
//! store, validates what it was given, and only then writes; an operation
//! that fails leaves the store as it found it and leaves no record.
//!
//! What each operation does is first said as a function on the store's
//! content (`deposit_step` and the like); the operation itself is then held
//! to that function.

use vstd::prelude::*;
use crate::distribution::{
    lemma_row_within_total, lemma_share_within_profit, lemma_total_of_prefix, lemma_total_step,
    share, shares,
};
use crate::error::ContractError;
use crate::msg::{
    share_views, ActionRecord, ActionRecordView, ExecuteMsg, ExecuteMsgView, InstantiateMsg,
    QueryMsg, QueryResponse, QueryResponseView, Share,
};
use crate::scores::{lemma_row_is_found, total, upsert, MAX_SCORE};
use crate::state::{State, StateView, Store, StoreView};

verus! {

/// Setting up: refused on a store that has a ledger record; else the
/// record is made with the given deposit and owner, no profit and an empty
/// model reference.
pub open spec fn instantiate_step(s: StoreView, sender: Seq<char>, total_deposit: u32) -> Result<
    StoreView,
    ContractError,
> {
    if s.config is Some {
        Err(ContractError::AlreadyInitialized)
    } else {
        Ok(
            StoreView {
                config: Some(
                    StateView {
                        total_deposit,
                        owner: sender,
                        total_profit: 0,
                        global_model_cid: Seq::empty(),
                    },
                ),
                scores: s.scores,
            },
        )
    }
}

/// A deposit: the amount is added to the deposited total, unless the sum
/// leaves the integer range.
pub open spec fn deposit_step(s: StoreView, amount: u32) -> Result<StoreView, ContractError> {
    match s.config {
        None => Err(ContractError::NotInitialized),
        Some(state) => if state.total_deposit + amount > u32::MAX {
            Err(ContractError::ArithmeticOverflow)
        } else {
            Ok(
                StoreView {
                    config: Some(
                        StateView { total_deposit: (state.total_deposit + amount) as u32, ..state },
                    ),
                    scores: s.scores,
                },
            )
        },
    }
}

/// Recording a contribution: a score above `MAX_SCORE` is refused, whatever
/// the store holds; else the score takes the place of the participant's
/// earlier one.
pub open spec fn record_contribution_step(s: StoreView, sender: Seq<char>, score: u32) -> Result<
    StoreView,
    ContractError,
> {
    if score > MAX_SCORE {
        Err(ContractError::InvalidScore)
    } else if s.config is None {
        Err(ContractError::NotInitialized)
    } else {
        Ok(StoreView { config: s.config, scores: upsert(s.scores, sender, score) })
    }
}

/// Recording the profit: the reported value takes the place of the last.
pub open spec fn record_total_profit_step(s: StoreView, total_profit: u32) -> Result<
    StoreView,
    ContractError,
> {
    match s.config {
        None => Err(ContractError::NotInitialized),
        Some(state) => Ok(
            StoreView { config: Some(StateView { total_profit, ..state }), scores: s.scores },
        ),
    }
}

/// Setting the model reference: the given text takes the place of the last.
pub open spec fn set_global_model_cid_step(s: StoreView, cid: Seq<char>) -> Result<
    StoreView,
    ContractError,
> {
    match s.config {
        None => Err(ContractError::NotInitialized),
        Some(state) => Ok(
            StoreView { config: Some(StateView { global_model_cid: cid, ..state }), scores: s.scores },
        ),
    }
}

/// The distribution that a store calls for: the recorded profit divided
/// over the score table, unless the scores sum to more than the integer
/// range holds.
pub open spec fn distribution_of(s: StoreView) -> Result<Seq<(Seq<char>, u32)>, ContractError> {
    match s.config {
        None => Err(ContractError::NotInitialized),
        Some(state) => if total(s.scores) > u32::MAX {
            Err(ContractError::ArithmeticOverflow)
        } else {
            Ok(shares(s.scores, state.total_profit))
        },
    }
}

/// What a command makes of a store: the store's next content and the
/// record left, or the failure.
pub open spec fn execute_step(s: StoreView, msg: ExecuteMsgView) -> Result<
    (StoreView, ActionRecordView),
    ContractError,
> {
    match msg {
        ExecuteMsgView::Deposit { amount } => match deposit_step(s, amount) {
            Ok(next) => Ok((next, ActionRecordView::Deposit { amount })),
            Err(e) => Err(e),
        },
        ExecuteMsgView::RecordContribution { sender, score } => match record_contribution_step(
            s,
            sender,
            score,
        ) {
            Ok(next) => Ok((next, ActionRecordView::RecordContribution { sender, score })),
            Err(e) => Err(e),
        },
        ExecuteMsgView::DistributeProfit => match distribution_of(s) {
            Ok(distribution) => Ok((s, ActionRecordView::DistributeProfit { distribution })),
            Err(e) => Err(e),
        },
        ExecuteMsgView::RecordTotalProfit { total_profit } => match record_total_profit_step(
            s,
            total_profit,
        ) {
            Ok(next) => Ok((next, ActionRecordView::RecordTotalProfit { total_profit })),
            Err(e) => Err(e),
        },
        ExecuteMsgView::SetGlobalModelCID { cid } => match set_global_model_cid_step(s, cid) {
            Ok(next) => Ok((next, ActionRecordView::SetGlobalModelCID { cid })),
            Err(e) => Err(e),
        },
    }
}

/// The answer that a store gives to a query.
pub open spec fn query_answer(s: StoreView, msg: QueryMsg) -> Result<
    QueryResponseView,
    ContractError,
> {
    match s.config {
        None => Err(ContractError::NotInitialized),
        Some(state) => match msg {
            QueryMsg::GetTotalDeposit {  } => Ok(
                QueryResponseView::TotalDeposit(state.total_deposit),
            ),
            QueryMsg::GetGlobalModelCID {  } => Ok(
                QueryResponseView::GlobalModelCID(state.global_model_cid),
            ),
        },
    }
}

/// Sets the ledger up, once, with `sender` as its owner.
pub fn instantiate(store: &mut Store, sender: String, msg: InstantiateMsg) -> (r: Result<
    (),
    ContractError,
>)
    ensures
        final(store)@.valid(),
        match r {
            Ok(_) => instantiate_step(old(store)@, sender@, msg.total_deposit) == Ok::<
                StoreView,
                ContractError,
            >(final(store)@),
            Err(e) => instantiate_step(old(store)@, sender@, msg.total_deposit) == Err::<
                StoreView,
                ContractError,
            >(e) && final(store)@ == old(store)@,
        },
{
    if store.is_initialized() {
        return Err(ContractError::AlreadyInitialized);
    }
    let state = State {
        total_deposit: msg.total_deposit,
        owner: sender,
        total_profit: 0,
        global_model_cid: String::new(),
    };
    store.save_config(state);
    Ok(())
}

/// Carries out one command.
pub fn execute(store: &mut Store, msg: ExecuteMsg) -> (r: Result<ActionRecord, ContractError>)
    ensures
        final(store)@.valid(),
        match r {
            Ok(record) => execute_step(old(store)@, msg@) == Ok::<
                (StoreView, ActionRecordView),
                ContractError,
            >((final(store)@, record@)),
            Err(e) => execute_step(old(store)@, msg@) == Err::<
                (StoreView, ActionRecordView),
                ContractError,
            >(e) && final(store)@ == old(store)@,
        },
{
    match msg {
        ExecuteMsg::Deposit { amount } => handle_deposit(store, amount),
        ExecuteMsg::RecordContribution { sender, score } => handle_record_contribution(
            store,
            sender,
            score,
        ),
        ExecuteMsg::DistributeProfit {  } => handle_distribute_profit(store),
        ExecuteMsg::RecordTotalProfit { total_profit } => handle_record_total_profit(
            store,
            total_profit,
        ),
        ExecuteMsg::SetGlobalModelCID { cid } => handle_set_global_model_cid(store, cid),
    }
}

/// Adds `amount` to the deposited total.
pub fn handle_deposit(store: &mut Store, amount: u32) -> (r: Result<ActionRecord, ContractError>)
    ensures
        final(store)@.valid(),
        match r {
            Ok(record) => deposit_step(old(store)@, amount) == Ok::<StoreView, ContractError>(
                final(store)@,
            ) && record@ == (ActionRecordView::Deposit { amount }),
            Err(e) => deposit_step(old(store)@, amount) == Err::<StoreView, ContractError>(e)
                && final(store)@ == old(store)@,
        },
{
    let mut state = match store.load_config() {
        Ok(state) => state,
        Err(e) => {
            return Err(e);
        },
    };
    match state.total_deposit.checked_add(amount) {
        Some(sum) => {
            state.total_deposit = sum;
            store.save_config(state);
            Ok(ActionRecord::Deposit { amount })
        },
        None => Err(ContractError::ArithmeticOverflow),
    }
}

/// Records `score` for the participant `sender`.
pub fn handle_record_contribution(store: &mut Store, sender: String, score: u32) -> (r: Result<
    ActionRecord,
    ContractError,
>)
    ensures
        final(store)@.valid(),
        match r {
            Ok(record) => record_contribution_step(old(store)@, sender@, score) == Ok::<
                StoreView,
                ContractError,
            >(final(store)@) && record@ == (ActionRecordView::RecordContribution {
                sender: sender@,
                score,
            }),
            Err(e) => record_contribution_step(old(store)@, sender@, score) == Err::<
                StoreView,
                ContractError,
            >(e) && final(store)@ == old(store)@,
        },
{
    proof {
        use_type_invariant(&*store);
    }
    if score > MAX_SCORE {
        return Err(ContractError::InvalidScore);
    }
    if !store.is_initialized() {
        return Err(ContractError::NotInitialized);
    }
    match store.put_score(sender.clone(), score) {
        Ok(_) => Ok(ActionRecord::RecordContribution { sender, score }),
        Err(e) => Err(e),
    }
}

/// Computes every participant's share of the recorded profit, in key
/// order. The shares are reported, not written.
pub fn handle_distribute_profit(store: &mut Store) -> (r: Result<ActionRecord, ContractError>)
    ensures
        final(store)@.valid(),
        final(store)@ == old(store)@,
        match r {
            Ok(record) => distribution_of(old(store)@) matches Ok(distribution) && record@ == (
            ActionRecordView::DistributeProfit { distribution }),
            Err(e) => distribution_of(old(store)@) == Err::<Seq<(Seq<char>, u32)>, ContractError>(
                e,
            ),
        },
{
    let state = match store.load_config() {
        Ok(state) => state,
        Err(e) => {
            return Err(e);
        },
    };
    let total_profit: u32 = state.total_profit;
    let ghost table = store@.scores;
    let keys = store.iterate_score_keys();

    let mut total_score: u32 = 0;
    let mut i: usize = 0;
    while i < keys.len()
        invariant
            i <= keys.len(),
            keys@.len() == table.len(),
            forall|j: int| 0 <= j < keys@.len() ==> (#[trigger] keys@[j])@ == table[j].0,
            table == store@.scores,
            store@ == old(store)@,
            store@.config is Some,
            store@.valid(),
            total_score == total(table.take(i as int)),
        decreases keys.len() - i,
    {
        let score: u32 = match store.get_score(&keys[i]) {
            Some(score) => score,
            None => 0,
        };
        proof {
            lemma_row_is_found(table, i as int);
            lemma_total_step(table, i as int);
        }
        match total_score.checked_add(score) {
            Some(sum) => {
                total_score = sum;
            },
            None => {
                proof {
                    lemma_total_of_prefix(table, i + 1);
                }
                return Err(ContractError::ArithmeticOverflow);
            },
        }
        i += 1;
    }
    proof {
        assert(table.take(i as int) =~= table);
    }

    let mut distribution: Vec<Share> = Vec::new();
    let mut i: usize = 0;
    while i < keys.len()
        invariant
            i <= keys.len(),
            keys@.len() == table.len(),
            forall|j: int| 0 <= j < keys@.len() ==> (#[trigger] keys@[j])@ == table[j].0,
            table == store@.scores,
            store@.valid(),
            total_score == total(table),
            distribution@.len() == i,
            forall|j: int|
                0 <= j < i ==> (#[trigger] distribution@[j])@ == shares(table, total_profit)[j],
        decreases keys.len() - i,
    {
        let score: u32 = match store.get_score(&keys[i]) {
            Some(score) => score,
            None => 0,
        };
        proof {
            lemma_row_is_found(table, i as int);
            lemma_row_within_total(table, i as int);
            lemma_share_within_profit(score, total_profit, total_score as nat);
        }
        let amount: u32 = if total_score > 0 {
            assert(score as u64 * total_profit as u64 <= 0xffff_ffff * 0xffff_ffff)
                by (nonlinear_arith)
                requires
                    score <= 0xffff_ffff,
                    total_profit <= 0xffff_ffff,
            ;
            ((score as u64 * total_profit as u64) / (total_score as u64)) as u32
        } else {
            0
        };
        assert(amount == share(score, total_profit, total_score as nat));
        distribution.push(Share { participant: keys[i].clone(), amount });
        i += 1;
    }
    assert(share_views(distribution@) =~= shares(table, total_profit));
    Ok(ActionRecord::DistributeProfit { distribution })
}

/// Sets the profit that is to be shared.
pub fn handle_record_total_profit(store: &mut Store, total_profit: u32) -> (r: Result<
    ActionRecord,
    ContractError,
>)
    ensures
        final(store)@.valid(),
        match r {
            Ok(record) => record_total_profit_step(old(store)@, total_profit) == Ok::<
                StoreView,
                ContractError,
            >(final(store)@) && record@ == (ActionRecordView::RecordTotalProfit { total_profit }),
            Err(e) => record_total_profit_step(old(store)@, total_profit) == Err::<
                StoreView,
                ContractError,
            >(e) && final(store)@ == old(store)@,
        },
{
    let mut state = match store.load_config() {
        Ok(state) => state,
        Err(e) => {
            return Err(e);
        },
    };
    state.total_profit = total_profit;
    store.save_config(state);
    Ok(ActionRecord::RecordTotalProfit { total_profit })
}

/// Sets the reference to the shared model.
pub fn handle_set_global_model_cid(store: &mut Store, cid: String) -> (r: Result<
    ActionRecord,
    ContractError,
>)
    ensures
        final(store)@.valid(),
        match r {
            Ok(record) => set_global_model_cid_step(old(store)@, cid@) == Ok::<
                StoreView,
                ContractError,
            >(final(store)@) && record@ == (ActionRecordView::SetGlobalModelCID { cid: cid@ }),
            Err(e) => set_global_model_cid_step(old(store)@, cid@) == Err::<
                StoreView,
                ContractError,
            >(e) && final(store)@ == old(store)@,
        },
{
    let mut state = match store.load_config() {
        Ok(state) => state,
        Err(e) => {
            return Err(e);
        },
    };
    state.global_model_cid = cid.clone();
    store.save_config(state);
    Ok(ActionRecord::SetGlobalModelCID { cid })
}

/// Answers a query.
pub fn query(store: &Store, msg: QueryMsg) -> (r: Result<QueryResponse, ContractError>)
    ensures
        match r {
            Ok(answer) => query_answer(store@, msg) == Ok::<QueryResponseView, ContractError>(
                answer@,
            ),
            Err(e) => query_answer(store@, msg) == Err::<QueryResponseView, ContractError>(e),
        },
{
    match msg {
        QueryMsg::GetTotalDeposit {  } => match query_total_deposit(store) {
            Ok(amount) => Ok(QueryResponse::TotalDeposit(amount)),
            Err(e) => Err(e),
        },
        QueryMsg::GetGlobalModelCID {  } => match query_global_model_cid(store) {
            Ok(cid) => Ok(QueryResponse::GlobalModelCID(cid)),
            Err(e) => Err(e),
        },
    }
}

/// Everything deposited so far.
pub fn query_total_deposit(store: &Store) -> (r: Result<u32, ContractError>)
    ensures
        match r {
            Ok(amount) => store@.config matches Some(state) && amount == state.total_deposit,
            Err(e) => store@.config is None && e == ContractError::NotInitialized,
        },
{
    match store.load_config() {
        Ok(state) => Ok(state.total_deposit),
        Err(e) => Err(e),
    }
}

/// The reference to the shared model, as last set.
pub fn query_global_model_cid(store: &Store) -> (r: Result<String, ContractError>)
    ensures
        match r {
            Ok(cid) => store@.config matches Some(state) && cid@ == state.global_model_cid,
            Err(e) => store@.config is None && e == ContractError::NotInitialized,
        },
{
    match store.load_config() {
        Ok(state) => Ok(state.global_model_cid),
        Err(e) => Err(e),
    }
}

} // verus!
