use profit_ledger::error::ContractError;
use profit_ledger::key::{key_order, KeyOrder};
use profit_ledger::scores::MAX_SCORE;
use profit_ledger::state::{State, Store};

fn state(total_deposit: u32, total_profit: u32) -> State {
    State {
        total_deposit,
        owner: "owner".to_string(),
        total_profit,
        global_model_cid: "Qm".to_string(),
    }
}

#[test]
fn new_store_is_empty() {
    let store = Store::new();
    assert!(!store.is_initialized());
    assert_eq!(store.load_config(), Err(ContractError::NotInitialized));
    assert_eq!(store.get_score(&"a".to_string()), None);
    assert!(store.iterate_score_keys().is_empty());
}

#[test]
fn save_config_overwrites() {
    let mut store = Store::new();
    store.save_config(state(1, 2));
    assert!(store.is_initialized());
    assert_eq!(store.load_config(), Ok(state(1, 2)));
    store.save_config(state(3, 4));
    assert_eq!(store.load_config(), Ok(state(3, 4)));
}

#[test]
fn state_clone_keeps_every_field() {
    let original = state(5, 6);
    let copy = original.clone();
    assert_eq!(copy, original);
    assert_eq!(copy.owner, "owner");
    assert_eq!(copy.global_model_cid, "Qm");
}

#[test]
fn put_score_needs_no_ledger() {
    let mut store = Store::new();
    assert_eq!(store.put_score("a".to_string(), 1), Ok(()));
    assert_eq!(store.get_score(&"a".to_string()), Some(1));
    assert!(!store.is_initialized());
}

#[test]
fn put_score_keeps_the_bound() {
    assert_eq!(MAX_SCORE, 10);
    let mut store = Store::new();
    assert_eq!(store.put_score("a".to_string(), 10), Ok(()));
    assert_eq!(store.put_score("a".to_string(), 11), Err(ContractError::InvalidScore));
    assert_eq!(store.put_score("b".to_string(), 11), Err(ContractError::InvalidScore));
    assert_eq!(store.get_score(&"a".to_string()), Some(10));
    assert_eq!(store.get_score(&"b".to_string()), None);
}

#[test]
fn put_score_replaces_in_place() {
    let mut store = Store::new();
    for (key, score) in [("m", 1), ("c", 2), ("x", 3)] {
        store.put_score(key.to_string(), score).unwrap();
    }
    store.put_score("m".to_string(), 9).unwrap();
    store.put_score("c".to_string(), 0).unwrap();
    store.put_score("x".to_string(), 10).unwrap();
    assert_eq!(store.iterate_score_keys(), vec!["c".to_string(), "m".to_string(), "x".to_string()]);
    assert_eq!(store.get_score(&"c".to_string()), Some(0));
    assert_eq!(store.get_score(&"m".to_string()), Some(9));
    assert_eq!(store.get_score(&"x".to_string()), Some(10));
}

#[test]
fn keys_come_out_in_key_order() {
    let names = ["delta", "", "alpha", "b", "alphabet", "Zed", "a", "charlie", "alp"];
    let mut store = Store::new();
    for (i, name) in names.iter().enumerate() {
        store.put_score(name.to_string(), (i % 11) as u32).unwrap();
    }
    let mut sorted: Vec<String> = names.iter().map(|n| n.to_string()).collect();
    sorted.sort();
    assert_eq!(store.iterate_score_keys(), sorted);
    for (i, name) in names.iter().enumerate() {
        assert_eq!(store.get_score(&name.to_string()), Some((i % 11) as u32));
    }
    assert_eq!(store.get_score(&"alph".to_string()), None);
    assert_eq!(store.get_score(&"zebra".to_string()), None);
}

#[test]
fn key_order_does_not_depend_on_recording_order() {
    let names = ["secret1qq", "secret1aa", "secret1zz", "secret1mm", "secret1a"];
    let mut forward = Store::new();
    for name in names.iter() {
        forward.put_score(name.to_string(), 1).unwrap();
    }
    let mut backward = Store::new();
    for name in names.iter().rev() {
        backward.put_score(name.to_string(), 1).unwrap();
    }
    assert_eq!(forward.iterate_score_keys(), backward.iterate_score_keys());
    assert_eq!(
        forward.iterate_score_keys(),
        vec!["secret1a", "secret1aa", "secret1mm", "secret1qq", "secret1zz"]
    );
}

#[test]
fn many_keys_stay_sorted() {
    let mut store = Store::new();
    let mut expected: Vec<String> = Vec::new();
    let mut n: u32 = 17;
    for _ in 0..200 {
        n = n.wrapping_mul(1103515245).wrapping_add(12345);
        let key = format!("k{}", n % 500);
        store.put_score(key.clone(), n % 11).unwrap();
        if !expected.contains(&key) {
            expected.push(key);
        }
    }
    expected.sort();
    assert_eq!(store.iterate_score_keys(), expected);
}

#[test]
fn key_order_is_the_order_of_strings() {
    let samples = ["", "a", "A", "aa", "ab", "b", "é", "z", "日本", "~", "a\u{0}", "\u{10ffff}"];
    for a in samples.iter() {
        for b in samples.iter() {
            let expected = match a.cmp(b) {
                std::cmp::Ordering::Less => KeyOrder::Before,
                std::cmp::Ordering::Equal => KeyOrder::Same,
                std::cmp::Ordering::Greater => KeyOrder::After,
            };
            assert_eq!(key_order(&a.to_string(), &b.to_string()), expected);
        }
    }
}

#[test]
fn key_order_on_chosen_keys() {
    assert_eq!(key_order(&"al".to_string(), &"alice".to_string()), KeyOrder::Before);
    assert_eq!(key_order(&"alice".to_string(), &"al".to_string()), KeyOrder::After);
    assert_eq!(key_order(&"bob".to_string(), &"bob".to_string()), KeyOrder::Same);
    assert_eq!(key_order(&"B".to_string(), &"a".to_string()), KeyOrder::Before);
    assert_eq!(key_order(&"z".to_string(), &"é".to_string()), KeyOrder::Before);
}

#[test]
fn every_error_has_its_words() {
    assert_eq!(ContractError::NotInitialized.message(), "The ledger is not initialized");
    assert_eq!(ContractError::AlreadyInitialized.message(), "The ledger is already initialized");
    assert_eq!(ContractError::InvalidScore.message(), "Score must be between 0 and 10");
    assert_eq!(ContractError::ArithmeticOverflow.message(), "Arithmetic overflow");
    assert_eq!(ContractError::Unauthorized.message(), "Unauthorized");
}

#[test]
fn get_score_finds_first_middle_and_last() {
    let mut store = Store::new();
    for (i, key) in ["a", "b", "c", "d", "e", "f", "g"].iter().enumerate() {
        store.put_score(key.to_string(), i as u32).unwrap();
    }
    for (i, key) in ["a", "b", "c", "d", "e", "f", "g"].iter().enumerate() {
        assert_eq!(store.get_score(&key.to_string()), Some(i as u32));
    }
    for absent in ["", "0", "aa", "cc", "h"] {
        assert_eq!(store.get_score(&absent.to_string()), None);
    }
}

#[test]
fn keys_beyond_ascii_are_ordered_by_their_bytes() {
    let mut store = Store::new();
    for key in ["\u{10000}", "\u{ff5e}", "z", "\u{e9}", "\u{7ff}", "\u{800}"] {
        store.put_score(key.to_string(), 1).unwrap();
    }
    assert_eq!(
        store.iterate_score_keys(),
        vec!["z", "\u{e9}", "\u{7ff}", "\u{800}", "\u{ff5e}", "\u{10000}"]
    );
}
