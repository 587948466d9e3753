use oracle_consensus::task_queue::{
    check_timeout, ContractError, InstantiateMsg, RequestType, ResponseType, Status, TaskQueue,
    TimeoutInfo,
};

const NOW: u64 = 1_571_797_419;

fn queue(timeout: u64) -> TaskQueue {
    TaskQueue::instantiate(InstantiateMsg {
        requestor: "requestor".to_string(),
        verifier: "verifier".to_string(),
        timeout: TimeoutInfo { default: timeout, minimum: None, maximum: None },
    })
    .unwrap()
}

fn create(q: &mut TaskQueue, timeout: Option<u64>, now: u64) -> Result<u64, ContractError> {
    q.create_task(
        &"requestor".to_string(),
        now,
        "Will Team A win?".to_string(),
        timeout,
        RequestType::Json("{\"event\":\"Team A vs Team B\"}".to_string()),
        vec!["Team A".to_string(), "Team B".to_string()],
        "Team A".to_string(),
    )
}

#[test]
fn test_instantiate_task_queue() {
    let q = queue(3600);
    assert_eq!(q.tasks.len(), 0);
    assert_eq!(q.next_id, 1);
    assert_eq!(q.config.requestor, "requestor");
    assert_eq!(q.config.verifier, "verifier");
}

#[test]
fn test_create_task() {
    let mut q = queue(3600);
    let id = create(&mut q, Some(7200), NOW).unwrap();
    assert_eq!(id, 1);
    let task = q.task_info(1).unwrap();
    assert_eq!(task.id, 1);
    assert_eq!(task.description, "Will Team A win?".to_string());
    assert!(matches!(task.status, Status::Open));
    assert_eq!(task.timing.created_at, NOW);
    assert_eq!(task.timing.expires_at, NOW + 7200);
    assert_eq!(task.payload, RequestType::Json("{\"event\":\"Team A vs Team B\"}".to_string()));
}

#[test]
fn test_complete_task_success() {
    let mut q = queue(3600);
    create(&mut q, Some(7200), NOW).unwrap();
    let res = q.complete_task(
        &"verifier".to_string(),
        NOW,
        1,
        ResponseType::Json("{\"winner\":\"Team A\"}".to_string()),
    );
    assert_eq!(res, Ok(()));
    let task = q.task_info(1).unwrap();
    assert!(matches!(task.status, Status::Completed { .. }));
    assert_eq!(task.result.unwrap(), ResponseType::Json("{\"winner\":\"Team A\"}".to_string()));
}

#[test]
fn test_complete_task_unauthorized() {
    let mut q = queue(3600);
    create(&mut q, Some(7200), NOW).unwrap();
    let err = q
        .complete_task(
            &"intruder".to_string(),
            NOW,
            1,
            ResponseType::Json("{\"winner\":\"Team A\"}".to_string()),
        )
        .unwrap_err();
    assert_eq!(err, ContractError::Unauthorized);
}

#[test]
fn test_expire_task_success() {
    let mut q = queue(1);
    create(&mut q, Some(1), NOW).unwrap();
    let later = NOW + 2;
    let res = q.expire_task(&"requestor".to_string(), later, 1);
    assert_eq!(res, Ok(()));
    let task = q.task_info(1).unwrap();
    assert!(matches!(task.status, Status::Expired));
}

#[test]
fn test_expire_task_unauthorized() {
    let mut q = queue(3600);
    create(&mut q, Some(7200), NOW).unwrap();
    let err = q.expire_task(&"intruder".to_string(), NOW, 1).unwrap_err();
    assert_eq!(err, ContractError::Unauthorized);
}

#[test]
fn test_complete_task_already_completed() {
    let mut q = queue(3600);
    create(&mut q, Some(7200), NOW).unwrap();
    q.complete_task(
        &"verifier".to_string(),
        NOW,
        1,
        ResponseType::Json("{\"winner\":\"Team A\"}".to_string()),
    )
    .unwrap();
    let res = q.complete_task(
        &"verifier".to_string(),
        NOW,
        1,
        ResponseType::Json("{\"winner\":\"Team B\"}".to_string()),
    );
    assert!(res.is_err());
    assert_eq!(res.unwrap_err(), ContractError::TaskCompleted);
}

#[test]
fn create_by_stranger_is_refused() {
    let mut q = queue(3600);
    let res = q.create_task(
        &"intruder".to_string(),
        NOW,
        "x".to_string(),
        None,
        RequestType::Json("{}".to_string()),
        vec![],
        "a".to_string(),
    );
    assert_eq!(res, Err(ContractError::Unauthorized));
    assert_eq!(q.tasks.len(), 0);
    assert_eq!(q.next_id, 1);
}

#[test]
fn ids_increase_from_one() {
    let mut q = queue(3600);
    assert_eq!(create(&mut q, None, NOW), Ok(1));
    assert_eq!(create(&mut q, None, NOW), Ok(2));
    assert_eq!(create(&mut q, None, NOW), Ok(3));
    assert_eq!(q.task_info(2).unwrap().timing.expires_at, NOW + 3600);
}

#[test]
fn timeout_bounds() {
    let t = TimeoutInfo { default: 100, minimum: Some(10), maximum: Some(1000) };
    assert_eq!(check_timeout(&t, None), Ok(100));
    assert_eq!(check_timeout(&t, Some(10)), Ok(10));
    assert_eq!(check_timeout(&t, Some(1000)), Ok(1000));
    assert_eq!(check_timeout(&t, Some(9)), Err(ContractError::TimeoutTooShort(10)));
    assert_eq!(check_timeout(&t, Some(1001)), Err(ContractError::TimeoutTooLong(1000)));
}

#[test]
fn create_with_out_of_bounds_timeout_fails() {
    let mut q = TaskQueue::instantiate(InstantiateMsg {
        requestor: "requestor".to_string(),
        verifier: "verifier".to_string(),
        timeout: TimeoutInfo { default: 100, minimum: Some(10), maximum: Some(1000) },
    })
    .unwrap();
    assert_eq!(create(&mut q, Some(5), NOW), Err(ContractError::TimeoutTooShort(10)));
    assert_eq!(create(&mut q, Some(5000), NOW), Err(ContractError::TimeoutTooLong(1000)));
    assert_eq!(q.tasks.len(), 0);
}

#[test]
fn invalid_timeout_info_is_refused() {
    let r = TaskQueue::instantiate(InstantiateMsg {
        requestor: "requestor".to_string(),
        verifier: "verifier".to_string(),
        timeout: TimeoutInfo { default: 5, minimum: Some(10), maximum: None },
    });
    assert!(matches!(r, Err(ContractError::InvalidTimeoutInfo)));
    let r = TaskQueue::instantiate(InstantiateMsg {
        requestor: "requestor".to_string(),
        verifier: "verifier".to_string(),
        timeout: TimeoutInfo { default: 50, minimum: None, maximum: Some(10) },
    });
    assert!(matches!(r, Err(ContractError::InvalidTimeoutInfo)));
}

#[test]
fn expire_boundary() {
    let mut q = queue(100);
    create(&mut q, None, NOW).unwrap();
    let deadline = NOW + 100;
    assert_eq!(q.expire_task(&"requestor".to_string(), deadline - 1, 1), Err(ContractError::TaskNotExpired));
    assert_eq!(q.expire_task(&"requestor".to_string(), deadline, 1), Err(ContractError::TaskNotExpired));
    assert_eq!(q.expire_task(&"requestor".to_string(), deadline + 1, 1), Ok(()));
    assert_eq!(q.expire_task(&"requestor".to_string(), deadline + 2, 1), Err(ContractError::TaskExpired));
}

#[test]
fn complete_after_expire_fails() {
    let mut q = queue(100);
    create(&mut q, None, NOW).unwrap();
    q.expire_task(&"requestor".to_string(), NOW + 101, 1).unwrap();
    let res = q.complete_task(&"verifier".to_string(), NOW + 102, 1, ResponseType::Json("{}".to_string()));
    assert_eq!(res, Err(ContractError::TaskExpired));
    let task = q.task_info(1).unwrap();
    assert!(matches!(task.status, Status::Expired));
    assert!(task.result.is_none());
}

#[test]
fn expire_after_complete_fails() {
    let mut q = queue(100);
    create(&mut q, None, NOW).unwrap();
    q.complete_task(&"verifier".to_string(), NOW + 1, 1, ResponseType::Json("{}".to_string())).unwrap();
    let res = q.expire_task(&"requestor".to_string(), NOW + 500, 1);
    assert_eq!(res, Err(ContractError::TaskCompleted));
    assert!(matches!(q.task_info(1).unwrap().status, Status::Completed { completed_at } if completed_at == NOW + 1));
}

#[test]
fn unknown_task_is_not_found() {
    let mut q = queue(100);
    assert!(matches!(q.task_info(7), Err(ContractError::TaskNotFound)));
    assert_eq!(
        q.complete_task(&"verifier".to_string(), NOW, 7, ResponseType::Json("{}".to_string())),
        Err(ContractError::TaskNotFound)
    );
    assert_eq!(q.expire_task(&"requestor".to_string(), NOW, 7), Err(ContractError::TaskNotFound));
}

#[test]
fn list_open_pages() {
    let mut q = queue(100);
    for _ in 0..5 {
        create(&mut q, None, NOW).unwrap();
    }
    let first: Vec<u64> = q.list_open(None, Some(2)).iter().map(|t| t.id).collect();
    assert_eq!(first, vec![1, 2]);
    let second: Vec<u64> = q.list_open(Some(2), Some(2)).iter().map(|t| t.id).collect();
    assert_eq!(second, vec![3, 4]);
    let third: Vec<u64> = q.list_open(Some(4), Some(2)).iter().map(|t| t.id).collect();
    assert_eq!(third, vec![5]);
}

#[test]
fn list_open_skips_closed_and_defaults_to_ten() {
    let mut q = queue(100);
    for _ in 0..12 {
        create(&mut q, None, NOW).unwrap();
    }
    q.complete_task(&"verifier".to_string(), NOW, 2, ResponseType::Json("{}".to_string())).unwrap();
    q.expire_task(&"requestor".to_string(), NOW + 101, 3).unwrap();
    let ids: Vec<u64> = q.list_open(None, None).iter().map(|t| t.id).collect();
    assert_eq!(ids, vec![1, 4, 5, 6, 7, 8, 9, 10, 11, 12]);
    let ids: Vec<u64> = q.list_open(Some(10), None).iter().map(|t| t.id).collect();
    assert_eq!(ids, vec![11, 12]);
    assert!(q.list_open(None, Some(0)).is_empty());
}

#[test]
fn queue_state_check() {
    let mut q = queue(100);
    create(&mut q, None, NOW).unwrap();
    create(&mut q, None, NOW).unwrap();
    assert!(q.is_wf());
    q.tasks[1].id = 1;
    assert!(!q.is_wf());
    let mut q = queue(100);
    create(&mut q, None, NOW).unwrap();
    q.tasks[0].result = Some(ResponseType::Json("{}".to_string()));
    assert!(!q.is_wf());
    let mut q = queue(100);
    q.config.timeout = TimeoutInfo { default: 100, minimum: Some(500), maximum: Some(50) };
    assert!(!q.is_wf());
}
