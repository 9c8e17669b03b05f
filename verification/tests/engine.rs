use profit_ledger::contract::{
    execute, handle_deposit, handle_distribute_profit, handle_record_contribution,
    handle_record_total_profit, handle_set_global_model_cid, instantiate, query,
    query_global_model_cid, query_total_deposit,
};
use profit_ledger::error::ContractError;
use profit_ledger::msg::{
    ActionRecord, ExecuteMsg, InstantiateMsg, QueryMsg, QueryResponse, Share,
};
use profit_ledger::state::Store;

fn ready(total_deposit: u32) -> Store {
    let mut store = Store::new();
    instantiate(&mut store, "owner".to_string(), InstantiateMsg { total_deposit }).unwrap();
    store
}

fn share(participant: &str, amount: u32) -> Share {
    Share { participant: participant.to_string(), amount }
}

fn distribution(store: &mut Store) -> Vec<Share> {
    match handle_distribute_profit(store) {
        Ok(ActionRecord::DistributeProfit { distribution }) => distribution,
        other => panic!("no distribution: {:?}", other),
    }
}

#[test]
fn instantiate_makes_the_ledger() {
    let mut store = Store::new();
    assert!(!store.is_initialized());
    let done = instantiate(&mut store, "creator".to_string(), InstantiateMsg { total_deposit: 40 });
    assert_eq!(done, Ok(()));
    let state = store.load_config().unwrap();
    assert_eq!(state.total_deposit, 40);
    assert_eq!(state.owner, "creator");
    assert_eq!(state.total_profit, 0);
    assert_eq!(state.global_model_cid, "");
}

#[test]
fn instantiate_twice_is_refused() {
    let mut store = ready(40);
    let again = instantiate(&mut store, "other".to_string(), InstantiateMsg { total_deposit: 7 });
    assert_eq!(again, Err(ContractError::AlreadyInitialized));
    let state = store.load_config().unwrap();
    assert_eq!(state.total_deposit, 40);
    assert_eq!(state.owner, "owner");
}

#[test]
fn queries_before_instantiate_fail() {
    let store = Store::new();
    assert_eq!(query_total_deposit(&store), Err(ContractError::NotInitialized));
    assert_eq!(query_global_model_cid(&store), Err(ContractError::NotInitialized));
    assert_eq!(query(&store, QueryMsg::GetTotalDeposit {}), Err(ContractError::NotInitialized));
    assert_eq!(query(&store, QueryMsg::GetGlobalModelCID {}), Err(ContractError::NotInitialized));
}

#[test]
fn queries_after_instantiate_with_zero() {
    let store = ready(0);
    assert_eq!(query_total_deposit(&store), Ok(0));
    assert_eq!(query_global_model_cid(&store), Ok(String::new()));
    assert_eq!(query(&store, QueryMsg::GetTotalDeposit {}), Ok(QueryResponse::TotalDeposit(0)));
    assert_eq!(
        query(&store, QueryMsg::GetGlobalModelCID {}),
        Ok(QueryResponse::GlobalModelCID(String::new()))
    );
}

#[test]
fn commands_before_instantiate_fail() {
    let mut store = Store::new();
    assert_eq!(handle_deposit(&mut store, 1), Err(ContractError::NotInitialized));
    assert_eq!(
        handle_record_contribution(&mut store, "a".to_string(), 5),
        Err(ContractError::NotInitialized)
    );
    assert_eq!(handle_record_total_profit(&mut store, 9), Err(ContractError::NotInitialized));
    assert_eq!(
        handle_set_global_model_cid(&mut store, "Qm".to_string()),
        Err(ContractError::NotInitialized)
    );
    assert_eq!(handle_distribute_profit(&mut store), Err(ContractError::NotInitialized));
    assert!(!store.is_initialized());
    assert!(store.iterate_score_keys().is_empty());
}

#[test]
fn deposit_adds_to_the_total() {
    let mut store = ready(100);
    assert_eq!(handle_deposit(&mut store, 25), Ok(ActionRecord::Deposit { amount: 25 }));
    assert_eq!(query_total_deposit(&store), Ok(125));
    assert_eq!(handle_deposit(&mut store, 0), Ok(ActionRecord::Deposit { amount: 0 }));
    assert_eq!(query_total_deposit(&store), Ok(125));
}

#[test]
fn deposits_in_two_steps_equal_one_deposit() {
    let mut two = ready(5);
    handle_deposit(&mut two, 30).unwrap();
    handle_deposit(&mut two, 12).unwrap();
    let mut swapped = ready(5);
    handle_deposit(&mut swapped, 12).unwrap();
    handle_deposit(&mut swapped, 30).unwrap();
    let mut one = ready(5);
    handle_deposit(&mut one, 42).unwrap();
    assert_eq!(query_total_deposit(&two), Ok(47));
    assert_eq!(query_total_deposit(&swapped), Ok(47));
    assert_eq!(query_total_deposit(&one), Ok(47));
}

#[test]
fn deposit_up_to_the_range_succeeds() {
    let mut store = ready(u32::MAX - 10);
    assert_eq!(handle_deposit(&mut store, 10), Ok(ActionRecord::Deposit { amount: 10 }));
    assert_eq!(query_total_deposit(&store), Ok(u32::MAX));
}

#[test]
fn deposit_past_the_range_fails_and_changes_nothing() {
    let mut store = ready(u32::MAX - 10);
    assert_eq!(handle_deposit(&mut store, 11), Err(ContractError::ArithmeticOverflow));
    assert_eq!(query_total_deposit(&store), Ok(u32::MAX - 10));
}

#[test]
fn overflowing_deposits_fail_in_either_split() {
    let mut two = ready(u32::MAX - 10);
    assert_eq!(handle_deposit(&mut two, 6), Ok(ActionRecord::Deposit { amount: 6 }));
    assert_eq!(handle_deposit(&mut two, 5), Err(ContractError::ArithmeticOverflow));
    let mut swapped = ready(u32::MAX - 10);
    assert_eq!(handle_deposit(&mut swapped, 5), Ok(ActionRecord::Deposit { amount: 5 }));
    assert_eq!(handle_deposit(&mut swapped, 6), Err(ContractError::ArithmeticOverflow));
    let mut one = ready(u32::MAX - 10);
    assert_eq!(handle_deposit(&mut one, 11), Err(ContractError::ArithmeticOverflow));
}

#[test]
fn scores_from_zero_to_ten_are_recorded() {
    let mut store = ready(0);
    for score in 0..=10u32 {
        let done = handle_record_contribution(&mut store, "alice".to_string(), score);
        assert_eq!(
            done,
            Ok(ActionRecord::RecordContribution { sender: "alice".to_string(), score })
        );
        assert_eq!(store.get_score(&"alice".to_string()), Some(score));
    }
}

#[test]
fn score_eleven_is_refused_and_the_old_score_stays() {
    let mut store = ready(0);
    handle_record_contribution(&mut store, "alice".to_string(), 4).unwrap();
    assert_eq!(
        handle_record_contribution(&mut store, "alice".to_string(), 11),
        Err(ContractError::InvalidScore)
    );
    assert_eq!(store.get_score(&"alice".to_string()), Some(4));
    assert_eq!(
        handle_record_contribution(&mut store, "bob".to_string(), u32::MAX),
        Err(ContractError::InvalidScore)
    );
    assert_eq!(store.get_score(&"bob".to_string()), None);
    assert_eq!(store.iterate_score_keys(), vec!["alice".to_string()]);
}

#[test]
fn invalid_score_is_reported_before_the_missing_ledger() {
    let mut store = Store::new();
    assert_eq!(
        handle_record_contribution(&mut store, "alice".to_string(), 11),
        Err(ContractError::InvalidScore)
    );
}

#[test]
fn a_later_score_replaces_the_earlier() {
    let mut store = ready(0);
    handle_record_contribution(&mut store, "alice".to_string(), 3).unwrap();
    handle_record_contribution(&mut store, "alice".to_string(), 7).unwrap();
    assert_eq!(store.get_score(&"alice".to_string()), Some(7));
    assert_eq!(store.iterate_score_keys().len(), 1);
    handle_record_total_profit(&mut store, 100).unwrap();
    assert_eq!(distribution(&mut store), vec![share("alice", 100)]);
}

#[test]
fn equal_scores_share_equally() {
    let mut store = ready(0);
    handle_record_contribution(&mut store, "A".to_string(), 5).unwrap();
    handle_record_contribution(&mut store, "B".to_string(), 5).unwrap();
    handle_record_total_profit(&mut store, 100).unwrap();
    assert_eq!(distribution(&mut store), vec![share("A", 50), share("B", 50)]);
}

#[test]
fn shares_are_rounded_down_and_the_rest_stays() {
    let mut store = ready(0);
    handle_record_contribution(&mut store, "A".to_string(), 1).unwrap();
    handle_record_contribution(&mut store, "B".to_string(), 2).unwrap();
    handle_record_total_profit(&mut store, 10).unwrap();
    let shares = distribution(&mut store);
    assert_eq!(shares, vec![share("A", 3), share("B", 6)]);
    let paid: u32 = shares.iter().map(|s| s.amount).sum();
    assert_eq!(paid, 9);
    assert!(paid < 10);
}

#[test]
fn no_scores_give_no_shares() {
    let mut store = ready(0);
    handle_record_total_profit(&mut store, 100).unwrap();
    assert_eq!(distribution(&mut store), Vec::<Share>::new());
}

#[test]
fn all_zero_scores_give_zero_shares() {
    let mut store = ready(0);
    handle_record_contribution(&mut store, "A".to_string(), 0).unwrap();
    handle_record_contribution(&mut store, "B".to_string(), 0).unwrap();
    handle_record_total_profit(&mut store, 100).unwrap();
    assert_eq!(distribution(&mut store), vec![share("A", 0), share("B", 0)]);
}

#[test]
fn distribution_without_profit_is_all_zero() {
    let mut store = ready(0);
    handle_record_contribution(&mut store, "A".to_string(), 10).unwrap();
    assert_eq!(distribution(&mut store), vec![share("A", 0)]);
}

#[test]
fn distribution_of_the_largest_profit_does_not_overflow() {
    let mut store = ready(0);
    handle_record_contribution(&mut store, "A".to_string(), 10).unwrap();
    handle_record_contribution(&mut store, "B".to_string(), 10).unwrap();
    handle_record_contribution(&mut store, "C".to_string(), 1).unwrap();
    handle_record_total_profit(&mut store, u32::MAX).unwrap();
    // 10 * 4294967295 / 21 and 1 * 4294967295 / 21, rounded down
    assert_eq!(
        distribution(&mut store),
        vec![share("A", 2045222521), share("B", 2045222521), share("C", 204522252)]
    );
}

#[test]
fn distribution_follows_key_order_not_recording_order() {
    let mut store = ready(0);
    for (name, score) in [("carol", 1), ("alice", 2), ("bob", 3), ("al", 4)] {
        handle_record_contribution(&mut store, name.to_string(), score).unwrap();
    }
    handle_record_total_profit(&mut store, 1000).unwrap();
    assert_eq!(
        distribution(&mut store),
        vec![share("al", 400), share("alice", 200), share("bob", 300), share("carol", 100)]
    );
    let mut other = ready(0);
    for (name, score) in [("al", 4), ("bob", 3), ("alice", 2), ("carol", 1)] {
        handle_record_contribution(&mut other, name.to_string(), score).unwrap();
    }
    handle_record_total_profit(&mut other, 1000).unwrap();
    assert_eq!(distribution(&mut other), distribution(&mut store));
}

#[test]
fn distribution_writes_nothing() {
    let mut store = ready(3);
    handle_record_contribution(&mut store, "A".to_string(), 5).unwrap();
    handle_record_total_profit(&mut store, 100).unwrap();
    let first = distribution(&mut store);
    let second = distribution(&mut store);
    assert_eq!(first, second);
    assert_eq!(query_total_deposit(&store), Ok(3));
    assert_eq!(store.load_config().unwrap().total_profit, 100);
    assert_eq!(store.get_score(&"A".to_string()), Some(5));
}

#[test]
fn total_profit_is_overwritten() {
    let mut store = ready(0);
    assert_eq!(
        handle_record_total_profit(&mut store, 70),
        Ok(ActionRecord::RecordTotalProfit { total_profit: 70 })
    );
    assert_eq!(
        handle_record_total_profit(&mut store, 30),
        Ok(ActionRecord::RecordTotalProfit { total_profit: 30 })
    );
    assert_eq!(store.load_config().unwrap().total_profit, 30);
}

#[test]
fn model_reference_is_overwritten() {
    let mut store = ready(0);
    assert_eq!(
        handle_set_global_model_cid(&mut store, "QmFirst".to_string()),
        Ok(ActionRecord::SetGlobalModelCID { cid: "QmFirst".to_string() })
    );
    assert_eq!(query_global_model_cid(&store), Ok("QmFirst".to_string()));
    handle_set_global_model_cid(&mut store, String::new()).unwrap();
    assert_eq!(query_global_model_cid(&store), Ok(String::new()));
}

#[test]
fn setting_the_same_reference_twice_changes_nothing() {
    let mut once = ready(8);
    handle_set_global_model_cid(&mut once, "QmModel".to_string()).unwrap();
    let mut twice = ready(8);
    handle_set_global_model_cid(&mut twice, "QmModel".to_string()).unwrap();
    handle_set_global_model_cid(&mut twice, "QmModel".to_string()).unwrap();
    assert_eq!(once.load_config().unwrap(), twice.load_config().unwrap());
    assert_eq!(once.iterate_score_keys(), twice.iterate_score_keys());
}

#[test]
fn owner_is_never_reassigned() {
    let mut store = ready(1);
    handle_deposit(&mut store, 2).unwrap();
    handle_record_contribution(&mut store, "intruder".to_string(), 9).unwrap();
    handle_record_total_profit(&mut store, 5).unwrap();
    handle_set_global_model_cid(&mut store, "Qm".to_string()).unwrap();
    handle_distribute_profit(&mut store).unwrap();
    assert_eq!(store.load_config().unwrap().owner, "owner");
}

#[test]
fn execute_dispatches_every_command() {
    let mut store = ready(10);
    assert_eq!(
        execute(&mut store, ExecuteMsg::Deposit { amount: 5 }),
        Ok(ActionRecord::Deposit { amount: 5 })
    );
    assert_eq!(
        execute(&mut store, ExecuteMsg::RecordContribution { sender: "B".to_string(), score: 3 }),
        Ok(ActionRecord::RecordContribution { sender: "B".to_string(), score: 3 })
    );
    assert_eq!(
        execute(&mut store, ExecuteMsg::RecordContribution { sender: "A".to_string(), score: 1 }),
        Ok(ActionRecord::RecordContribution { sender: "A".to_string(), score: 1 })
    );
    assert_eq!(
        execute(&mut store, ExecuteMsg::RecordTotalProfit { total_profit: 8 }),
        Ok(ActionRecord::RecordTotalProfit { total_profit: 8 })
    );
    assert_eq!(
        execute(&mut store, ExecuteMsg::SetGlobalModelCID { cid: "QmX".to_string() }),
        Ok(ActionRecord::SetGlobalModelCID { cid: "QmX".to_string() })
    );
    assert_eq!(
        execute(&mut store, ExecuteMsg::DistributeProfit {}),
        Ok(ActionRecord::DistributeProfit { distribution: vec![share("A", 2), share("B", 6)] })
    );
    assert_eq!(query_total_deposit(&store), Ok(15));
    assert_eq!(query_global_model_cid(&store), Ok("QmX".to_string()));
}

#[test]
fn execute_reports_failures() {
    let mut empty = Store::new();
    assert_eq!(
        execute(&mut empty, ExecuteMsg::DistributeProfit {}),
        Err(ContractError::NotInitialized)
    );
    let mut store = ready(u32::MAX);
    assert_eq!(
        execute(&mut store, ExecuteMsg::Deposit { amount: 1 }),
        Err(ContractError::ArithmeticOverflow)
    );
    assert_eq!(
        execute(&mut store, ExecuteMsg::RecordContribution { sender: "A".to_string(), score: 11 }),
        Err(ContractError::InvalidScore)
    );
    assert_eq!(query_total_deposit(&store), Ok(u32::MAX));
    assert!(store.iterate_score_keys().is_empty());
}

#[test]
fn messages_can_be_copied_and_compared() {
    let msg = ExecuteMsg::RecordContribution { sender: "A".to_string(), score: 2 };
    assert_eq!(msg.clone(), msg);
    assert_ne!(msg, ExecuteMsg::DistributeProfit {});
    let init = InstantiateMsg { total_deposit: 3 };
    assert_eq!(init.clone(), init);
    assert_ne!(QueryMsg::GetTotalDeposit {}, QueryMsg::GetGlobalModelCID {});
}

#[test]
fn the_error_kinds_differ() {
    let kinds = [
        ContractError::NotInitialized,
        ContractError::AlreadyInitialized,
        ContractError::InvalidScore,
        ContractError::ArithmeticOverflow,
        ContractError::Unauthorized,
    ];
    for (i, a) in kinds.iter().enumerate() {
        for (j, b) in kinds.iter().enumerate() {
            assert_eq!(a == b, i == j);
        }
    }
}
