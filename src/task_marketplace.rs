use vstd::prelude::*;

use crate::pubkey::Pubkey;
use crate::store::{lemma_other_keeps_count, Record, RecordKey, Store};
use vstd::string::StrSliceExecFns;

verus! {

/// Longest description or result URI, in characters.
pub const MAX_TEXT_LEN: usize = 256;

#[derive(Clone, Copy, Debug, PartialEq, Eq, Structural)]
pub enum TaskType {
    Script,
    Voiceover,
    Copy,
    Ugc,
}

/// The stages of a task, in the only order in which they can follow.
#[derive(Clone, Copy, Debug, PartialEq, Eq, Structural)]
pub enum TaskStatus {
    Open,
    InProgress,
    Completed,
    Verified,
}

/// A unit of work offered for a reward.
#[derive(Clone, Debug, PartialEq, Eq)]
pub struct Task {
    pub id: u64,
    pub creator: Pubkey,
    pub task_type: TaskType,
    pub description: String,
    pub reward_brain: u64,
    /// The zero identity until the task is assigned.
    pub assigned_agent: Pubkey,
    pub status: TaskStatus,
    /// Empty until a result is submitted.
    pub result_uri: String,
}

impl Task {
    pub open spec fn wf(&self) -> bool {
        &&& self.description@.len() <= MAX_TEXT_LEN
        &&& self.result_uri@.len() <= MAX_TEXT_LEN
        &&& self.status == TaskStatus::Open ==> self.assigned_agent.spec_is_zero()
        &&& (self.status == TaskStatus::Open || self.status == TaskStatus::InProgress)
            ==> self.result_uri@.len() == 0
    }
}

#[derive(Clone, Copy, Debug, PartialEq, Eq, Structural)]
pub enum TaskError {
    /// The description is longer than 256 characters.
    DescriptionTooLong,
    /// The result URI is longer than 256 characters.
    UriTooLong,
    NotOpen,
    NotInProgress,
    NotCompleted,
    /// The signer is not the agent the task was assigned to.
    NotAssignedAgent,
    /// The signer is not the task's creator.
    NotCreator,
    /// A task with this id exists already.
    TaskAlreadyExists,
    /// No task has this id.
    TaskNotFound,
}

/// The signer creating a task, who becomes its creator.
#[derive(Clone, Copy, Debug)]
pub struct CreateTask {
    pub creator: Pubkey,
}

/// The signer assigning a task, and the task.
#[derive(Clone, Copy, Debug)]
pub struct AssignTask {
    pub creator: Pubkey,
    pub task_id: u64,
}

/// The signer submitting a result, and the task.
#[derive(Clone, Copy, Debug)]
pub struct SubmitResult {
    pub agent: Pubkey,
    pub task_id: u64,
}

/// The signer verifying a task, and the task.
#[derive(Clone, Copy, Debug)]
pub struct VerifyTask {
    pub creator: Pubkey,
    pub task_id: u64,
}

/// The task numbered `id` in `m`, if there is one.
pub open spec fn task_of(m: Map<RecordKey, Record>, id: u64) -> Option<Task> {
    if m.contains_key(RecordKey::Task(id)) {
        match m[RecordKey::Task(id)] {
            Record::Task(t) => Some(t),
            _ => None,
        }
    } else {
        None
    }
}

/// Position of a status in the lifecycle.
pub open spec fn stage(s: TaskStatus) -> int {
    match s {
        TaskStatus::Open => 0,
        TaskStatus::InProgress => 1,
        TaskStatus::Completed => 2,
        TaskStatus::Verified => 3,
    }
}

/// Whether `t` is task `task_id` as it is created: open, unassigned and
/// without a result.
pub open spec fn is_fresh_task(
    t: Task,
    creator: Pubkey,
    task_id: u64,
    task_type: TaskType,
    description: String,
    reward_brain: u64,
) -> bool {
    &&& t.id == task_id
    &&& t.creator == creator
    &&& t.task_type == task_type
    &&& t.description == description
    &&& t.reward_brain == reward_brain
    &&& t.assigned_agent.spec_is_zero()
    &&& t.status == TaskStatus::Open
    &&& t.result_uri@.len() == 0
}

/// Relation between the store before (`m`) and after (`m2`) creating task
/// `task_id`, and the result `r`: the task must not exist and its
/// description must fit; then the store gains exactly the fresh task.
pub open spec fn create_task_post(
    m: Map<RecordKey, Record>,
    m2: Map<RecordKey, Record>,
    r: Result<(), TaskError>,
    ctx: CreateTask,
    task_id: u64,
    task_type: TaskType,
    description: String,
    reward_brain: u64,
) -> bool {
    if m.contains_key(RecordKey::Task(task_id)) {
        r == Err::<(), TaskError>(TaskError::TaskAlreadyExists) && m2 == m
    } else if description@.len() > MAX_TEXT_LEN {
        r == Err::<(), TaskError>(TaskError::DescriptionTooLong) && m2 == m
    } else {
        &&& r == Ok::<(), TaskError>(())
        &&& m2.contains_key(RecordKey::Task(task_id))
        &&& m2 == m.insert(RecordKey::Task(task_id), m2[RecordKey::Task(task_id)])
        &&& match m2[RecordKey::Task(task_id)] {
            Record::Task(t) => is_fresh_task(
                t,
                ctx.creator,
                task_id,
                task_type,
                description,
                reward_brain,
            ),
            _ => false,
        }
    }
}

/// Outcome of assigning task `ctx.task_id` to `agent`: only its creator may,
/// and only while it is open.
pub open spec fn assign_task_spec(m: Map<RecordKey, Record>, ctx: AssignTask, agent: Pubkey) -> (
    Result<(), TaskError>,
    Map<RecordKey, Record>,
) {
    match task_of(m, ctx.task_id) {
        None => (Err(TaskError::TaskNotFound), m),
        Some(t) => if t.creator != ctx.creator {
            (Err(TaskError::NotCreator), m)
        } else if t.status != TaskStatus::Open {
            (Err(TaskError::NotOpen), m)
        } else {
            let task = Task { assigned_agent: agent, status: TaskStatus::InProgress, ..t };
            (Ok(()), m.insert(RecordKey::Task(ctx.task_id), Record::Task(task)))
        },
    }
}

/// Outcome of submitting `result_uri` for task `ctx.task_id`: only while it
/// is in progress, and only by the agent it was assigned to.
pub open spec fn submit_result_spec(
    m: Map<RecordKey, Record>,
    ctx: SubmitResult,
    result_uri: String,
) -> (Result<(), TaskError>, Map<RecordKey, Record>) {
    match task_of(m, ctx.task_id) {
        None => (Err(TaskError::TaskNotFound), m),
        Some(t) => if result_uri@.len() > MAX_TEXT_LEN {
            (Err(TaskError::UriTooLong), m)
        } else if t.status != TaskStatus::InProgress {
            (Err(TaskError::NotInProgress), m)
        } else if t.assigned_agent != ctx.agent {
            (Err(TaskError::NotAssignedAgent), m)
        } else {
            let task = Task { result_uri, status: TaskStatus::Completed, ..t };
            (Ok(()), m.insert(RecordKey::Task(ctx.task_id), Record::Task(task)))
        },
    }
}

/// Outcome of verifying task `ctx.task_id`: only its creator may, and only
/// once it is completed.
pub open spec fn verify_task_spec(m: Map<RecordKey, Record>, ctx: VerifyTask) -> (
    Result<(), TaskError>,
    Map<RecordKey, Record>,
) {
    match task_of(m, ctx.task_id) {
        None => (Err(TaskError::TaskNotFound), m),
        Some(t) => if t.creator != ctx.creator {
            (Err(TaskError::NotCreator), m)
        } else if t.status != TaskStatus::Completed {
            (Err(TaskError::NotCompleted), m)
        } else {
            let task = Task { status: TaskStatus::Verified, ..t };
            (Ok(()), m.insert(RecordKey::Task(ctx.task_id), Record::Task(task)))
        },
    }
}

/// A copy of `t` with another status, assignee and result.
fn task_with(t: &Task, assigned_agent: Pubkey, status: TaskStatus, result_uri: String) -> (r: Task)
    ensures
        r == (Task { assigned_agent, status, result_uri, ..*t }),
{
    Task {
        id: t.id,
        creator: t.creator,
        task_type: t.task_type,
        description: t.description.clone(),
        reward_brain: t.reward_brain,
        assigned_agent,
        status,
        result_uri,
    }
}

/// Creates task `task_id`, open and unassigned, with the signer as creator.
pub fn create_task(
    store: &mut Store,
    ctx: &CreateTask,
    task_id: u64,
    task_type: TaskType,
    description: String,
    reward_brain: u64,
) -> (r: Result<(), TaskError>)
    requires
        old(store).inv(),
    ensures
        final(store).inv(),
        create_task_post(
            old(store)@,
            final(store)@,
            r,
            *ctx,
            task_id,
            task_type,
            description,
            reward_brain,
        ),
{
    let key = RecordKey::Task(task_id);
    if store.contains(&key) {
        return Err(TaskError::TaskAlreadyExists);
    }
    if description.as_str().unicode_len() > MAX_TEXT_LEN {
        return Err(TaskError::DescriptionTooLong);
    }
    let task = Task {
        id: task_id,
        creator: ctx.creator,
        task_type,
        description,
        reward_brain,
        assigned_agent: Pubkey::default(),
        status: TaskStatus::Open,
        result_uri: String::new(),
    };
    let ghost m0 = store@;
    store.put(key, Record::Task(task));
    proof {
        lemma_other_keeps_count(m0, key, store@[key]);
    }
    Ok(())
}

/// Hands an open task to `agent` and sets it in progress.
pub fn assign_task(store: &mut Store, ctx: &AssignTask, agent: Pubkey) -> (r: Result<
    (),
    TaskError,
>)
    requires
        old(store).inv(),
    ensures
        final(store).inv(),
        (r, final(store)@) == assign_task_spec(old(store)@, *ctx, agent),
{
    let key = RecordKey::Task(ctx.task_id);
    let task = match store.get(&key) {
        Some(Record::Task(t)) => {
            if !t.creator.same_as(&ctx.creator) {
                return Err(TaskError::NotCreator);
            }
            if t.status != TaskStatus::Open {
                return Err(TaskError::NotOpen);
            }
            task_with(t, agent, TaskStatus::InProgress, t.result_uri.clone())
        },
        _ => return Err(TaskError::TaskNotFound),
    };
    let ghost m0 = store@;
    store.put(key, Record::Task(task));
    proof {
        lemma_other_keeps_count(m0, key, store@[key]);
    }
    Ok(())
}

/// Records the assigned agent's result and marks the task completed.
pub fn submit_result(store: &mut Store, ctx: &SubmitResult, result_uri: String) -> (r: Result<
    (),
    TaskError,
>)
    requires
        old(store).inv(),
    ensures
        final(store).inv(),
        (r, final(store)@) == submit_result_spec(old(store)@, *ctx, result_uri),
{
    let key = RecordKey::Task(ctx.task_id);
    let task = match store.get(&key) {
        Some(Record::Task(t)) => {
            if result_uri.as_str().unicode_len() > MAX_TEXT_LEN {
                return Err(TaskError::UriTooLong);
            }
            if t.status != TaskStatus::InProgress {
                return Err(TaskError::NotInProgress);
            }
            if !t.assigned_agent.same_as(&ctx.agent) {
                return Err(TaskError::NotAssignedAgent);
            }
            task_with(t, t.assigned_agent, TaskStatus::Completed, result_uri)
        },
        _ => return Err(TaskError::TaskNotFound),
    };
    let ghost m0 = store@;
    store.put(key, Record::Task(task));
    proof {
        lemma_other_keeps_count(m0, key, store@[key]);
    }
    Ok(())
}

/// Marks a completed task verified, on its creator's word.
pub fn verify_task(store: &mut Store, ctx: &VerifyTask) -> (r: Result<(), TaskError>)
    requires
        old(store).inv(),
    ensures
        final(store).inv(),
        (r, final(store)@) == verify_task_spec(old(store)@, *ctx),
{
    let key = RecordKey::Task(ctx.task_id);
    let task = match store.get(&key) {
        Some(Record::Task(t)) => {
            if !t.creator.same_as(&ctx.creator) {
                return Err(TaskError::NotCreator);
            }
            if t.status != TaskStatus::Completed {
                return Err(TaskError::NotCompleted);
            }
            task_with(t, t.assigned_agent, TaskStatus::Verified, t.result_uri.clone())
        },
        _ => return Err(TaskError::TaskNotFound),
    };
    let ghost m0 = store@;
    store.put(key, Record::Task(task));
    proof {
        lemma_other_keeps_count(m0, key, store@[key]);
    }
    Ok(())
}

/// One call on an existing task.
#[derive(Clone, Debug)]
pub enum TaskCall {
    Assign(AssignTask, Pubkey),
    Submit(SubmitResult, String),
    Verify(VerifyTask),
}

/// The task a call is addressed to.
pub open spec fn call_task_id(c: TaskCall) -> u64 {
    match c {
        TaskCall::Assign(ctx, _) => ctx.task_id,
        TaskCall::Submit(ctx, _) => ctx.task_id,
        TaskCall::Verify(ctx) => ctx.task_id,
    }
}

/// Outcome of `c`.
pub open spec fn apply_task_call(m: Map<RecordKey, Record>, c: TaskCall) -> (
    Result<(), TaskError>,
    Map<RecordKey, Record>,
) {
    match c {
        TaskCall::Assign(ctx, agent) => assign_task_spec(m, ctx, agent),
        TaskCall::Submit(ctx, uri) => submit_result_spec(m, ctx, uri),
        TaskCall::Verify(ctx) => verify_task_spec(m, ctx),
    }
}

/// The status a call needs the task to be in.
pub open spec fn required_status(c: TaskCall) -> TaskStatus {
    match c {
        TaskCall::Assign(..) => TaskStatus::Open,
        TaskCall::Submit(..) => TaskStatus::InProgress,
        TaskCall::Verify(..) => TaskStatus::Completed,
    }
}

/// The error a call gives when the task is in another status.
pub open spec fn state_error(c: TaskCall) -> TaskError {
    match c {
        TaskCall::Assign(..) => TaskError::NotOpen,
        TaskCall::Submit(..) => TaskError::NotInProgress,
        TaskCall::Verify(..) => TaskError::NotCompleted,
    }
}

/// The checks a call passes before the status is looked at: the creator
/// signs an assignment or a verification, and a result URI fits.
pub open spec fn passes_checks_before_status(c: TaskCall, t: Task) -> bool {
    match c {
        TaskCall::Assign(ctx, _) => t.creator == ctx.creator,
        TaskCall::Submit(_, uri) => uri@.len() <= MAX_TEXT_LEN,
        TaskCall::Verify(ctx) => t.creator == ctx.creator,
    }
}

/// A status stays, or moves one stage forward.
pub open spec fn status_step(a: TaskStatus, b: TaskStatus) -> bool {
    a == b || stage(b) == stage(a) + 1
}

/// A call on a task either fails and leaves the store as it was, or moves
/// the task exactly one stage forward, from the status it requires.
pub proof fn lemma_task_call_step(m: Map<RecordKey, Record>, c: TaskCall)
    requires
        task_of(m, call_task_id(c)) is Some,
    ensures
        ({
            let (r, m2) = apply_task_call(m, c);
            let t = task_of(m, call_task_id(c))->0;
            &&& task_of(m2, call_task_id(c)) is Some
            &&& status_step(t.status, task_of(m2, call_task_id(c))->0.status)
            &&& r is Err ==> m2 == m
            &&& r is Ok ==> t.status == required_status(c) && stage(
                task_of(m2, call_task_id(c))->0.status,
            ) == stage(t.status) + 1
        }),
{
}

/// A call on a task in any status but the one it requires fails and leaves
/// the store as it was; once the earlier checks pass, it fails with the
/// state error.
pub proof fn lemma_out_of_order_fails(m: Map<RecordKey, Record>, c: TaskCall)
    requires
        task_of(m, call_task_id(c)) is Some,
        task_of(m, call_task_id(c))->0.status != required_status(c),
    ensures
        apply_task_call(m, c).1 == m,
        apply_task_call(m, c).0 is Err,
        passes_checks_before_status(c, task_of(m, call_task_id(c))->0) ==> apply_task_call(
            m,
            c,
        ).0 == Err::<(), TaskError>(state_error(c)),
{
}

/// Along a history of statuses in which each step stays or moves one stage
/// forward, the stage never goes down.
pub proof fn lemma_stage_monotone(trace: Seq<TaskStatus>, i: int, j: int)
    requires
        forall|k: int| 0 <= k < trace.len() - 1 ==> status_step(#[trigger] trace[k], trace[k + 1]),
        0 <= i <= j < trace.len(),
    ensures
        stage(trace[i]) <= stage(trace[j]),
    decreases j - i,
{
    if i < j {
        lemma_stage_monotone(trace, i, j - 1);
        assert(status_step(trace[j - 1], trace[j]));
    }
}

/// Along such a history, a stage above the first one is entered at some
/// step from the stage just below it.
pub proof fn lemma_stage_entered(trace: Seq<TaskStatus>, s: int) -> (i: int)
    requires
        forall|k: int| 0 <= k < trace.len() - 1 ==> status_step(#[trigger] trace[k], trace[k + 1]),
        trace.len() > 0,
        stage(trace[0]) < s <= stage(trace.last()),
    ensures
        0 < i < trace.len(),
        stage(trace[i]) == s,
        stage(trace[i - 1]) == s - 1,
    decreases trace.len(),
{
    let n = trace.len() - 1;
    assert(status_step(trace[n - 1], trace[n]));
    if stage(trace[n - 1]) >= s {
        let p = trace.drop_last();
        assert forall|k: int| 0 <= k < p.len() - 1 implies status_step(
            #[trigger] p[k],
            p[k + 1],
        ) by {
            assert(status_step(trace[k], trace[k + 1]));
        }
        lemma_stage_entered(p, s)
    } else {
        n
    }
}

/// A task that starts open and ends verified went through in progress,
/// then completed, then verified, each entered from the one just before.
pub proof fn lemma_verified_path(trace: Seq<TaskStatus>)
    requires
        forall|k: int| 0 <= k < trace.len() - 1 ==> status_step(#[trigger] trace[k], trace[k + 1]),
        trace.len() > 0,
        trace[0] == TaskStatus::Open,
        trace.last() == TaskStatus::Verified,
    ensures
        exists|i: int, j: int, k: int|
            0 < i < j < k < trace.len() && trace[i - 1] == TaskStatus::Open && #[trigger] trace[i]
                == TaskStatus::InProgress && trace[j - 1] == TaskStatus::InProgress && #[trigger] trace[j]
                == TaskStatus::Completed && trace[k - 1] == TaskStatus::Completed && #[trigger] trace[k]
                == TaskStatus::Verified,
{
    let i = lemma_stage_entered(trace, 1);
    let j = lemma_stage_entered(trace, 2);
    let k = lemma_stage_entered(trace, 3);
    if j <= i {
        lemma_stage_monotone(trace, j, i);
    }
    if k <= j {
        lemma_stage_monotone(trace, k, j);
    }
    assert(0 < i < j < k < trace.len() && trace[i - 1] == TaskStatus::Open && trace[i]
        == TaskStatus::InProgress && trace[j - 1] == TaskStatus::InProgress && trace[j]
        == TaskStatus::Completed && trace[k - 1] == TaskStatus::Completed && trace[k]
        == TaskStatus::Verified);
}

/// A call leaves every other task as it was, and moves the task it is
/// addressed to at most one stage forward.
pub proof fn lemma_call_on_any_task(m: Map<RecordKey, Record>, c: TaskCall, id: u64)
    requires
        task_of(m, id) is Some,
    ensures
        task_of(apply_task_call(m, c).1, id) is Some,
        status_step(task_of(m, id)->0.status, task_of(apply_task_call(m, c).1, id)->0.status),
        call_task_id(c) != id ==> task_of(apply_task_call(m, c).1, id) == task_of(m, id),
{
}

/// The store after each of `calls` in turn.
pub open spec fn run_task_calls(m: Map<RecordKey, Record>, calls: Seq<TaskCall>) -> Map<
    RecordKey,
    Record,
>
    decreases calls.len(),
{
    if calls.len() == 0 {
        m
    } else {
        apply_task_call(run_task_calls(m, calls.drop_last()), calls.last()).1
    }
}

/// The status of task `id` before the calls and after each of them.
pub open spec fn status_history(m: Map<RecordKey, Record>, calls: Seq<TaskCall>, id: u64) -> Seq<
    TaskStatus,
> {
    Seq::new(
        (calls.len() + 1) as nat,
        |i: int| task_of(run_task_calls(m, calls.take(i)), id)->0.status,
    )
}

/// A task that exists stays through any run of calls.
pub proof fn lemma_task_stays(m: Map<RecordKey, Record>, calls: Seq<TaskCall>, id: u64)
    requires
        task_of(m, id) is Some,
    ensures
        task_of(run_task_calls(m, calls), id) is Some,
    decreases calls.len(),
{
    if calls.len() > 0 {
        lemma_task_stays(m, calls.drop_last(), id);
        lemma_call_on_any_task(run_task_calls(m, calls.drop_last()), calls.last(), id);
    }
}

/// Along any run of calls, each call leaves the task's status as it was or
/// moves it one stage forward.
pub proof fn lemma_history_steps(m: Map<RecordKey, Record>, calls: Seq<TaskCall>, id: u64)
    requires
        task_of(m, id) is Some,
    ensures
        status_history(m, calls, id).len() == calls.len() + 1,
        status_history(m, calls, id)[0] == task_of(m, id)->0.status,
        status_history(m, calls, id).last() == task_of(run_task_calls(m, calls), id)->0.status,
        forall|k: int|
            0 <= k < calls.len() ==> status_step(
                #[trigger] status_history(m, calls, id)[k],
                status_history(m, calls, id)[k + 1],
            ),
{
    let h = status_history(m, calls, id);
    assert(calls.take(0) =~= Seq::<TaskCall>::empty());
    assert(calls.take(calls.len() as int) =~= calls);
    assert forall|k: int| 0 <= k < calls.len() implies status_step(
        #[trigger] h[k],
        h[k + 1],
    ) by {
        let p = calls.take(k + 1);
        assert(p.drop_last() =~= calls.take(k));
        assert(p.last() == calls[k]);
        lemma_task_stays(m, calls.take(k), id);
        lemma_call_on_any_task(run_task_calls(m, calls.take(k)), calls[k], id);
    }
}

/// Through any run of calls, a task that was open and ends verified was
/// set in progress, then completed, then verified, each by one call from
/// the status just before.
pub proof fn lemma_run_to_verified(m: Map<RecordKey, Record>, calls: Seq<TaskCall>, id: u64)
    requires
        task_of(m, id) is Some,
        task_of(m, id)->0.status == TaskStatus::Open,
        task_of(run_task_calls(m, calls), id) is Some,
        task_of(run_task_calls(m, calls), id)->0.status == TaskStatus::Verified,
    ensures
        ({
            let h = status_history(m, calls, id);
            exists|i: int, j: int, k: int|
                0 < i < j < k <= calls.len() && h[i - 1] == TaskStatus::Open && #[trigger] h[i]
                    == TaskStatus::InProgress && h[j - 1] == TaskStatus::InProgress
                    && #[trigger] h[j] == TaskStatus::Completed && h[k - 1]
                    == TaskStatus::Completed && #[trigger] h[k] == TaskStatus::Verified
        }),
{
    lemma_history_steps(m, calls, id);
    lemma_verified_path(status_history(m, calls, id));
}

/// The calls among `calls` that were addressed to task `id` and succeeded,
/// in the order they were made.
pub open spec fn successes_on(m: Map<RecordKey, Record>, calls: Seq<TaskCall>, id: u64) -> Seq<
    TaskCall,
>
    decreases calls.len(),
{
    if calls.len() == 0 {
        Seq::empty()
    } else {
        let before = successes_on(m, calls.drop_last(), id);
        let c = calls.last();
        if call_task_id(c) == id && apply_task_call(
            run_task_calls(m, calls.drop_last()),
            c,
        ).0 is Ok {
            before.push(c)
        } else {
            before
        }
    }
}

/// Every call that succeeds on a task moves it one stage forward from the
/// status it requires, and nothing else moves it: after a run, the task has
/// advanced by as many stages as calls succeeded on it, and the i-th of
/// those required the stage i past the start.
pub proof fn lemma_successes_advance(m: Map<RecordKey, Record>, calls: Seq<TaskCall>, id: u64)
    requires
        task_of(m, id) is Some,
    ensures
        task_of(run_task_calls(m, calls), id) is Some,
        stage(task_of(run_task_calls(m, calls), id)->0.status) == stage(task_of(m, id)->0.status)
            + successes_on(m, calls, id).len(),
        forall|i: int|
            0 <= i < successes_on(m, calls, id).len() ==> stage(
                required_status(#[trigger] successes_on(m, calls, id)[i]),
            ) == stage(task_of(m, id)->0.status) + i,
        forall|i: int|
            0 <= i < successes_on(m, calls, id).len() ==> call_task_id(
                #[trigger] successes_on(m, calls, id)[i],
            ) == id,
    decreases calls.len(),
{
    if calls.len() > 0 {
        let prev = run_task_calls(m, calls.drop_last());
        let c = calls.last();
        lemma_successes_advance(m, calls.drop_last(), id);
        lemma_call_on_any_task(prev, c, id);
        if call_task_id(c) == id {
            lemma_task_call_step(prev, c);
        }
        let before = successes_on(m, calls.drop_last(), id);
        let after = successes_on(m, calls, id);
        assert forall|i: int| 0 <= i < before.len() implies after[i] == before[i] by {}
    }
}

/// A task that was open and ends verified, after any run of calls by any
/// signers in any order, had exactly three calls succeed on it: an
/// assignment, then a result submission, then a verification.
pub proof fn lemma_exact_successes_to_verified(
    m: Map<RecordKey, Record>,
    calls: Seq<TaskCall>,
    id: u64,
)
    requires
        task_of(m, id) is Some,
        task_of(m, id)->0.status == TaskStatus::Open,
        task_of(run_task_calls(m, calls), id) is Some,
        task_of(run_task_calls(m, calls), id)->0.status == TaskStatus::Verified,
    ensures
        successes_on(m, calls, id).len() == 3,
        successes_on(m, calls, id)[0] is Assign,
        successes_on(m, calls, id)[1] is Submit,
        successes_on(m, calls, id)[2] is Verify,
{
    lemma_successes_advance(m, calls, id);
    let s = successes_on(m, calls, id);
    assert(stage(required_status(s[0])) == 0);
    assert(stage(required_status(s[1])) == 1);
    assert(stage(required_status(s[2])) == 2);
}

/// Once a task is assigned, a second assignment by its creator fails with
/// `NotOpen` and the first assignee stays.
pub proof fn lemma_assign_twice(
    m: Map<RecordKey, Record>,
    ctx: AssignTask,
    first: Pubkey,
    second: Pubkey,
)
    requires
        assign_task_spec(m, ctx, first).0 is Ok,
    ensures
        ({
            let m1 = assign_task_spec(m, ctx, first).1;
            &&& assign_task_spec(m1, ctx, second) == (
                Err::<(), TaskError>(TaskError::NotOpen),
                m1,
            )
            &&& task_of(m1, ctx.task_id)->0.assigned_agent == first
        }),
{
}

} // verus!
