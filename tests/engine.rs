use oracle_consensus::consensus::{consensus_value, sort_ascending};
use oracle_consensus::decimal::{abs_diff, mul_floor, DECIMAL_FRACTIONAL};
use oracle_consensus::engine::{ContractError, InstantiateMsg, OracleVerifier};
use oracle_consensus::registry::{InstantiateOperator, Registry};
use oracle_consensus::task_queue::{
    ContractError as TaskError, InstantiateMsg as QueueMsg, RequestType, TaskQueue, TimeoutInfo,
};

/// A decimal given in hundredths.
fn dec(hundredths: u128) -> u128 {
    hundredths * (DECIMAL_FRACTIONAL / 100)
}

fn registry(names: &[&str]) -> Registry {
    let ops: Vec<InstantiateOperator> = names
        .iter()
        .map(|n| InstantiateOperator { addr: n.to_string(), voting_power: 1 })
        .collect();
    let ok = vec![true; ops.len()];
    Registry::instantiate(ops, &ok, "verifier".to_string()).unwrap()
}

fn engine(threshold: u128, spread: u128) -> OracleVerifier {
    OracleVerifier::instantiate(InstantiateMsg {
        threshold_percent: threshold,
        allowed_spread: spread,
        slashable_spread: spread,
        operator_contract: "operators".to_string(),
    })
}

fn owner() -> String {
    "operators".to_string()
}

fn sorted(v: &[String]) -> Vec<String> {
    let mut v = v.to_vec();
    v.sort();
    v
}

#[test]
fn median_is_element_at_half() {
    // sorted: 0.1, 0.5, 0.9, 1.0; index 4 / 2 = 2
    let results = vec![dec(100), dec(10), dec(90), dec(50)];
    assert_eq!(consensus_value(&results), dec(90));
    assert_eq!(consensus_value(&vec![dec(30)]), dec(30));
    assert_eq!(consensus_value(&vec![3, 1, 2]), 2);
    assert_eq!(consensus_value(&vec![4, 4, 1, 1]), 4);
    assert_eq!(sort_ascending(&vec![5, 1, 4, 1, 3]), vec![1, 1, 3, 4, 5]);
}

#[test]
fn decimal_helpers() {
    assert_eq!(mul_floor(4, dec(50)), 2);
    assert_eq!(mul_floor(5, dec(50)), 2);
    assert_eq!(mul_floor(u128::MAX, DECIMAL_FRACTIONAL), u128::MAX);
    assert_eq!(mul_floor(7, 0), 0);
    assert_eq!(abs_diff(dec(50), dec(80)), dec(30));
    assert_eq!(abs_diff(dec(80), dec(50)), dec(30));
}

#[test]
fn vote_needs_power_and_is_write_once() {
    let reg = registry(&["a", "b"]);
    let mut e = engine(dec(50), dec(20));
    assert_eq!(e.submit_vote(&reg, 1, "zed".to_string(), dec(50), 10), Err(ContractError::Unauthorized));
    assert_eq!(e.submit_vote(&reg, 1, "a".to_string(), dec(50), 10), Ok(()));
    assert_eq!(
        e.submit_vote(&reg, 1, "a".to_string(), dec(60), 10),
        Err(ContractError::OperatorAlreadyVoted("a".to_string()))
    );
    assert_eq!(e.submit_vote(&reg, 2, "a".to_string(), dec(60), 10), Ok(()));
    assert_eq!(e.votes.len(), 2);
    assert_eq!(e.votes[0].result, dec(50));
}

#[test]
fn zero_power_operator_cannot_vote() {
    let ops = vec![InstantiateOperator { addr: "idle".to_string(), voting_power: 0 }];
    let reg = Registry::instantiate(ops, &vec![true], "verifier".to_string()).unwrap();
    let mut e = engine(dec(50), dec(20));
    assert_eq!(e.submit_vote(&reg, 1, "idle".to_string(), dec(50), 1), Err(ContractError::Unauthorized));
    assert!(e.votes.is_empty());
}

#[test]
fn process_without_votes_fails_and_keeps_flags() {
    let reg = registry(&["a", "b", "c"]);
    let mut e = engine(dec(10), dec(20));
    e.submit_vote(&reg, 1, "a".to_string(), dec(100), 1).unwrap();
    e.submit_vote(&reg, 1, "b".to_string(), dec(300), 1).unwrap();
    e.submit_vote(&reg, 1, "c".to_string(), dec(500), 1).unwrap();
    e.record_task(&owner(), 1, "queue".to_string()).unwrap();
    e.process_votes(&reg, &owner(), 1).unwrap();
    let before = e.slashed.clone();
    assert!(!before.is_empty());
    assert_eq!(e.process_votes(&reg, &owner(), 2).err(), Some(ContractError::VoteProcessingFailed));
    assert_eq!(e.slashed, before);
}

#[test]
fn process_requires_the_registry_operator() {
    let reg = registry(&["a"]);
    let mut e = engine(dec(10), dec(20));
    e.submit_vote(&reg, 1, "a".to_string(), dec(100), 1).unwrap();
    assert_eq!(e.process_votes(&reg, &"a".to_string(), 1).err(), Some(ContractError::Unauthorized));
    assert_eq!(e.slash_operators(&"a".to_string(), 1).err(), Some(ContractError::Unauthorized));
}

#[test]
fn deviating_votes_are_flagged() {
    let reg = registry(&["a", "b", "c", "d", "e"]);
    let mut e = engine(dec(100), dec(20));
    let votes = [("a", 40), ("b", 50), ("c", 50), ("d", 65), ("e", 80)];
    for (op, r) in votes {
        e.submit_vote(&reg, 1, op.to_string(), dec(r), 1).unwrap();
    }
    // support: only whole parts count, 0 here; required is the full 5.
    assert_eq!(e.process_votes(&reg, &owner(), 1).err(), Some(ContractError::ThresholdNotMet));
    assert_eq!(e.slashed, vec!["e".to_string()]);
}

#[test]
fn threshold_not_met_keeps_flags() {
    let reg = registry(&["a", "b", "c", "d"]);
    let mut e = engine(dec(50), dec(20));
    let votes = [("a", 10), ("b", 50), ("c", 90), ("d", 100)];
    for (op, r) in votes {
        e.submit_vote(&reg, 7, op.to_string(), dec(r), 1).unwrap();
    }
    e.record_task(&owner(), 7, "queue".to_string()).unwrap();
    // consensus 0.9; support 0 + 1 = 1 < 4 * 0.5
    assert_eq!(e.process_votes(&reg, &owner(), 7).err(), Some(ContractError::ThresholdNotMet));
    assert_eq!(sorted(&e.slashed), vec!["a".to_string(), "b".to_string()]);
}

#[test]
fn threshold_met_completes_task() {
    let reg = registry(&["a", "b", "c", "d"]);
    let mut e = engine(dec(50), dec(50));
    let votes = [("a", 100), ("b", 200), ("c", 300)];
    for (op, r) in votes {
        e.submit_vote(&reg, 3, op.to_string(), dec(r), 1).unwrap();
    }
    e.record_task(&owner(), 3, "queue".to_string()).unwrap();
    let out = e.process_votes(&reg, &owner(), 3).unwrap();
    assert_eq!(out.task_id, 3);
    assert_eq!(out.task_contract, "queue");
    assert_eq!(out.median, dec(200));
    assert!(out.threshold_met);
    assert_eq!(sorted(&e.slashed), vec!["a".to_string(), "c".to_string()]);
}

#[test]
fn threshold_met_without_known_task_fails() {
    let reg = registry(&["a"]);
    let mut e = engine(dec(50), dec(50));
    e.submit_vote(&reg, 3, "a".to_string(), dec(300), 1).unwrap();
    assert_eq!(e.process_votes(&reg, &owner(), 3).err(), Some(ContractError::VoteProcessingFailed));
}

#[test]
fn flags_accumulate_and_are_cleared_by_slashing() {
    let reg = registry(&["a", "b", "c"]);
    let mut e = engine(0, dec(10));
    for (op, r) in [("a", 100), ("b", 300), ("c", 300)] {
        e.submit_vote(&reg, 1, op.to_string(), dec(r), 1).unwrap();
    }
    for (op, r) in [("a", 300), ("b", 300), ("c", 100)] {
        e.submit_vote(&reg, 2, op.to_string(), dec(r), 1).unwrap();
    }
    e.record_task(&owner(), 1, "queue".to_string()).unwrap();
    e.record_task(&owner(), 2, "queue".to_string()).unwrap();
    e.process_votes(&reg, &owner(), 1).unwrap();
    e.process_votes(&reg, &owner(), 2).unwrap();
    assert_eq!(sorted(&e.slashed), vec!["a".to_string(), "c".to_string()]);
    let out = e.slash_operators(&owner(), 2).unwrap();
    assert_eq!(out.task_id, 2);
    assert_eq!(out.task_contract, Some("queue".to_string()));
    assert_eq!(sorted(&out.slashed), vec!["a".to_string(), "c".to_string()]);
    assert!(e.slashed.is_empty());
    let again = e.slash_operators(&owner(), 1).unwrap();
    assert!(again.slashed.is_empty());
    assert_eq!(again.task_contract, Some("queue".to_string()));
}

#[test]
fn slashing_an_unknown_task_still_clears_flags() {
    let reg = registry(&["a", "b", "c"]);
    let mut e = engine(0, dec(10));
    for (op, r) in [("a", 100), ("b", 300), ("c", 300)] {
        e.submit_vote(&reg, 1, op.to_string(), dec(r), 1).unwrap();
    }
    e.record_task(&owner(), 1, "queue".to_string()).unwrap();
    e.process_votes(&reg, &owner(), 1).unwrap();
    assert_eq!(e.slashed, vec!["a".to_string()]);
    let out = e.slash_operators(&owner(), 9).unwrap();
    assert_eq!(out.task_id, 9);
    assert_eq!(out.task_contract, None);
    assert_eq!(out.slashed, vec!["a".to_string()]);
    assert!(e.slashed.is_empty());
}

#[test]
fn forwarded_queries() {
    let reg = registry(&["a", "b"]);
    let e = engine(dec(50), dec(50));
    let p = e.voting_power(&reg, &"b".to_string(), None, 77);
    assert_eq!(p.power, 1);
    assert_eq!(p.height, 77);
    let t = e.total_power(&reg, Some(5), 77);
    assert_eq!(t.power, 2);
    assert_eq!(t.height, 5);
    assert_eq!(e.all_voters(&reg).len(), 2);
    let mut q = TaskQueue::instantiate(QueueMsg {
        requestor: "r".to_string(),
        verifier: "v".to_string(),
        timeout: TimeoutInfo { default: 10, minimum: None, maximum: None },
    })
    .unwrap();
    q.create_task(&"r".to_string(), 0, "d".to_string(), None, RequestType::Json("{}".to_string()), vec![], "w".to_string())
        .unwrap();
    assert_eq!(e.task_info(&q, 1).unwrap().description, "d");
    assert!(matches!(e.task_info(&q, 2), Err(TaskError::TaskNotFound)));
}

#[test]
fn only_the_registry_operator_records_tasks() {
    let mut e = engine(dec(50), dec(50));
    assert_eq!(e.record_task(&"a".to_string(), 1, "elsewhere".to_string()), Err(ContractError::Unauthorized));
    assert!(e.tasks.is_empty());
    assert_eq!(e.record_task(&owner(), 1, "queue".to_string()), Ok(()));
    assert_eq!(e.tasks.len(), 1);
}

#[test]
fn engine_state_check() {
    let reg = registry(&["a", "b"]);
    let mut e = engine(dec(50), dec(50));
    e.submit_vote(&reg, 1, "a".to_string(), dec(100), 1).unwrap();
    e.submit_vote(&reg, 1, "b".to_string(), dec(100), 1).unwrap();
    assert!(e.is_wf());
    e.votes[1].operator = "a".to_string();
    assert!(!e.is_wf());
    let mut e = engine(dec(50), dec(50));
    e.slashed = vec!["a".to_string(), "a".to_string()];
    assert!(!e.is_wf());
    let mut e = engine(dec(50), dec(50));
    e.config.threshold_percent = DECIMAL_FRACTIONAL + 1;
    assert!(!e.is_wf());
}
