use brain_ledger::pubkey::Pubkey;
use brain_ledger::store::{task_key, Record, Store};
use brain_ledger::task_marketplace::{
    assign_task, create_task, submit_result, verify_task, AssignTask, CreateTask, SubmitResult,
    Task, TaskError, TaskStatus, TaskType, VerifyTask,
};

fn key(b: u8) -> Pubkey {
    Pubkey::new_from_array([b; 32])
}

fn task(store: &Store, id: u64) -> Task {
    match store.get(&task_key(id)) {
        Some(Record::Task(t)) => t.clone(),
        _ => panic!("no task"),
    }
}

fn new_task(store: &mut Store, creator: Pubkey, id: u64) {
    let r = create_task(store, &CreateTask { creator }, id, TaskType::Script, "write script".to_string(), 500);
    assert_eq!(r, Ok(()));
}

#[test]
fn task_lifecycle_end_to_end() {
    let creator = key(1);
    let agent = key(2);
    let mut store = Store::new();
    new_task(&mut store, creator, 1);
    let t = task(&store, 1);
    assert_eq!(t.status, TaskStatus::Open);
    assert_eq!(t.reward_brain, 500);
    assert_eq!(t.description, "write script");
    assert!(t.assigned_agent.is_zero());
    assert_eq!(t.result_uri, "");

    assert_eq!(assign_task(&mut store, &AssignTask { creator, task_id: 1 }, agent), Ok(()));
    assert_eq!(
        submit_result(&mut store, &SubmitResult { agent, task_id: 1 }, "ipfs://abc".to_string()),
        Ok(())
    );
    assert_eq!(verify_task(&mut store, &VerifyTask { creator, task_id: 1 }), Ok(()));
    let t = task(&store, 1);
    assert_eq!(t.status, TaskStatus::Verified);
    assert_eq!(t.assigned_agent, agent);
    assert_eq!(t.result_uri, "ipfs://abc");

    assert_eq!(
        submit_result(&mut store, &SubmitResult { agent, task_id: 1 }, "ipfs://def".to_string()),
        Err(TaskError::NotInProgress)
    );
    assert_eq!(task(&store, 1).result_uri, "ipfs://abc");
}

#[test]
fn second_assignment_fails_and_keeps_first_agent() {
    let creator = key(1);
    let mut store = Store::new();
    new_task(&mut store, creator, 7);
    assert_eq!(assign_task(&mut store, &AssignTask { creator, task_id: 7 }, key(2)), Ok(()));
    assert_eq!(
        assign_task(&mut store, &AssignTask { creator, task_id: 7 }, key(3)),
        Err(TaskError::NotOpen)
    );
    let t = task(&store, 7);
    assert_eq!(t.assigned_agent, key(2));
    assert_eq!(t.status, TaskStatus::InProgress);
}

#[test]
fn out_of_order_calls_fail_with_state_errors() {
    let creator = key(1);
    let agent = key(2);
    let mut store = Store::new();
    new_task(&mut store, creator, 3);
    assert_eq!(
        submit_result(&mut store, &SubmitResult { agent, task_id: 3 }, "u".to_string()),
        Err(TaskError::NotInProgress)
    );
    assert_eq!(verify_task(&mut store, &VerifyTask { creator, task_id: 3 }), Err(TaskError::NotCompleted));
    assert_eq!(task(&store, 3).status, TaskStatus::Open);
    assert_eq!(assign_task(&mut store, &AssignTask { creator, task_id: 3 }, agent), Ok(()));
    assert_eq!(verify_task(&mut store, &VerifyTask { creator, task_id: 3 }), Err(TaskError::NotCompleted));
    assert_eq!(task(&store, 3).status, TaskStatus::InProgress);
    assert_eq!(
        submit_result(&mut store, &SubmitResult { agent, task_id: 3 }, "u".to_string()),
        Ok(())
    );
    assert_eq!(
        assign_task(&mut store, &AssignTask { creator, task_id: 3 }, agent),
        Err(TaskError::NotOpen)
    );
    assert_eq!(task(&store, 3).status, TaskStatus::Completed);
}

#[test]
fn task_authorization_errors() {
    let creator = key(1);
    let agent = key(2);
    let stranger = key(9);
    let mut store = Store::new();
    new_task(&mut store, creator, 4);
    assert_eq!(
        assign_task(&mut store, &AssignTask { creator: stranger, task_id: 4 }, agent),
        Err(TaskError::NotCreator)
    );
    assert_eq!(assign_task(&mut store, &AssignTask { creator, task_id: 4 }, agent), Ok(()));
    assert_eq!(
        submit_result(&mut store, &SubmitResult { agent: stranger, task_id: 4 }, "u".to_string()),
        Err(TaskError::NotAssignedAgent)
    );
    assert_eq!(
        submit_result(&mut store, &SubmitResult { agent, task_id: 4 }, "u".to_string()),
        Ok(())
    );
    assert_eq!(
        verify_task(&mut store, &VerifyTask { creator: stranger, task_id: 4 }),
        Err(TaskError::NotCreator)
    );
    assert_eq!(task(&store, 4).status, TaskStatus::Completed);
}

#[test]
fn task_existence_and_length_errors() {
    let creator = key(1);
    let mut store = Store::new();
    new_task(&mut store, creator, 5);
    assert_eq!(
        create_task(&mut store, &CreateTask { creator }, 5, TaskType::Copy, "again".to_string(), 1),
        Err(TaskError::TaskAlreadyExists)
    );
    assert_eq!(task(&store, 5).description, "write script");
    assert_eq!(
        assign_task(&mut store, &AssignTask { creator, task_id: 6 }, key(2)),
        Err(TaskError::TaskNotFound)
    );
    assert_eq!(
        create_task(&mut store, &CreateTask { creator }, 6, TaskType::Ugc, "d".repeat(257), 1),
        Err(TaskError::DescriptionTooLong)
    );
    assert!(store.get(&task_key(6)).is_none());
    assert_eq!(
        create_task(&mut store, &CreateTask { creator }, 6, TaskType::Voiceover, "d".repeat(256), 1),
        Ok(())
    );
    assert_eq!(assign_task(&mut store, &AssignTask { creator, task_id: 6 }, key(2)), Ok(()));
    assert_eq!(
        submit_result(&mut store, &SubmitResult { agent: key(2), task_id: 6 }, "u".repeat(257)),
        Err(TaskError::UriTooLong)
    );
    assert_eq!(
        submit_result(&mut store, &SubmitResult { agent: key(2), task_id: 6 }, "u".repeat(256)),
        Ok(())
    );
}

#[test]
fn lengths_count_characters() {
    let creator = key(1);
    let mut store = Store::new();
    let text = "é".repeat(256);
    assert_eq!(
        create_task(&mut store, &CreateTask { creator }, 8, TaskType::Script, text, 0),
        Ok(())
    );
}
