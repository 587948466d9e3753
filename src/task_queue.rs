//! The task lifecycle: tasks are created open and move once, to completed or
//! to expired.
use vstd::prelude::*;

verus! {

/// What a task asks for.
#[derive(Debug, PartialEq, Eq)]
pub enum RequestType {
    Json(String),
}

/// The verified answer to a task.
#[derive(Debug, PartialEq, Eq)]
pub enum ResponseType {
    Json(String),
}

#[derive(Clone, Copy, Debug, PartialEq, Eq, Structural)]
pub enum Status {
    Open,
    Completed { completed_at: u64 },
    Expired,
}

/// Creation time and deadline, in seconds.
#[derive(Clone, Copy, Debug, PartialEq, Eq, Structural)]
pub struct Timing {
    pub created_at: u64,
    pub expires_at: u64,
}

/// Timeout bounds: a default, and optional least and greatest values that a
/// request may ask for.
#[derive(Clone, Copy, Debug, PartialEq, Eq, Structural)]
pub struct TimeoutInfo {
    pub default: u64,
    pub minimum: Option<u64>,
    pub maximum: Option<u64>,
}

pub struct Config {
    pub requestor: String,
    pub verifier: String,
    pub timeout: TimeoutInfo,
}

pub struct InstantiateMsg {
    pub requestor: String,
    pub verifier: String,
    pub timeout: TimeoutInfo,
}

pub struct Task {
    pub id: u64,
    pub description: String,
    pub payload: RequestType,
    pub options: Vec<String>,
    pub proposed_winner: String,
    pub status: Status,
    pub timing: Timing,
    pub result: Option<ResponseType>,
}

/// What a query tells of a task.
#[derive(Debug)]
pub struct TaskMetadata {
    pub id: u64,
    pub description: String,
    pub status: Status,
    pub timing: Timing,
    pub payload: RequestType,
    pub result: Option<ResponseType>,
}

#[derive(Clone, Copy, Debug, PartialEq, Eq, Structural)]
pub enum ContractError {
    Unauthorized,
    InvalidTimeoutInfo,
    TimeoutTooShort(u64),
    TimeoutTooLong(u64),
    TaskNotFound,
    TaskCompleted,
    TaskExpired,
    TaskNotExpired,
}

/// The page size when none is asked for.
pub const DEFAULT_LIMIT: u32 = 10;

/// The bounds are consistent with the default.
pub open spec fn timeout_info_valid(t: TimeoutInfo) -> bool {
    &&& (t.minimum matches Some(m) ==> m <= t.default)
    &&& (t.maximum matches Some(m) ==> t.default <= m)
}

/// The timeout that a request gets: the one asked for, within the bounds,
/// or the default.
pub open spec fn spec_check_timeout(t: TimeoutInfo, timeout: Option<u64>) -> Result<
    u64,
    ContractError,
> {
    match timeout {
        None => Ok(t.default),
        Some(x) => if t.minimum is Some && x < t.minimum->Some_0 {
            Err(ContractError::TimeoutTooShort(t.minimum->Some_0))
        } else if t.maximum is Some && x > t.maximum->Some_0 {
            Err(ContractError::TimeoutTooLong(t.maximum->Some_0))
        } else {
            Ok(x)
        },
    }
}

/// Checks the timeout that a request asks for against the bounds.
pub fn check_timeout(t: &TimeoutInfo, timeout: Option<u64>) -> (r: Result<u64, ContractError>)
    ensures
        r == spec_check_timeout(*t, timeout),
{
    match timeout {
        None => Ok(t.default),
        Some(x) => {
            if let Some(m) = t.minimum {
                if x < m {
                    return Err(ContractError::TimeoutTooShort(m));
                }
            }
            if let Some(m) = t.maximum {
                if x > m {
                    return Err(ContractError::TimeoutTooLong(m));
                }
            }
            Ok(x)
        },
    }
}

/// Whether a task with this id is stored.
pub open spec fn has_task(tasks: Seq<Task>, id: u64) -> bool {
    exists|i: int| 0 <= i < tasks.len() && #[trigger] tasks[i].id == id
}

/// The position of the task with this id.
pub open spec fn index_of(tasks: Seq<Task>, id: u64) -> int {
    choose|i: int| 0 <= i < tasks.len() && #[trigger] tasks[i].id == id
}

/// Ids strictly increase along the sequence.
pub open spec fn ids_ascending(tasks: Seq<Task>) -> bool {
    forall|i: int, j: int| 0 <= i < j < tasks.len() ==> #[trigger] tasks[i].id < #[trigger] tasks[j].id
}

/// A status may stay as it is or leave `Open`; nothing else.
pub open spec fn status_step(a: Status, b: Status) -> bool {
    a == b || (a is Open && !(b is Open))
}

/// `after` keeps every task of `before` in place, with the same id and a
/// status reached by at most one step out of `Open`.
pub open spec fn evolves(before: Seq<Task>, after: Seq<Task>) -> bool {
    &&& before.len() <= after.len()
    &&& forall|i: int|
        0 <= i < before.len() ==> (#[trigger] after[i]).id == before[i].id && status_step(
            before[i].status,
            after[i].status,
        )
}

/// The task after `complete` at time `now` with `result`.
pub open spec fn completed(t: Task, now: u64, result: ResponseType) -> Task {
    Task { status: Status::Completed { completed_at: now }, result: Some(result), ..t }
}

/// The task after `expire`.
pub open spec fn expired(t: Task) -> Task {
    Task { status: Status::Expired, ..t }
}

/// The error that a terminal status gives, if any.
pub open spec fn terminal_error(s: Status) -> Option<ContractError> {
    match s {
        Status::Open => None,
        Status::Completed { .. } => Some(ContractError::TaskCompleted),
        Status::Expired => Some(ContractError::TaskExpired),
    }
}

/// What the query answer holds of a task.
pub open spec fn metadata_of(t: Task) -> TaskMetadata {
    TaskMetadata {
        id: t.id,
        description: t.description,
        status: t.status,
        timing: t.timing,
        payload: t.payload,
        result: t.result,
    }
}

/// Whether a task is listed by `list_open` after the cursor.
pub open spec fn listed(t: Task, start_after: Option<u64>) -> bool {
    &&& t.status is Open
    &&& (start_after matches Some(s) ==> t.id > s)
}

/// The open tasks after the cursor, in storage order.
pub open spec fn open_after(tasks: Seq<Task>, start_after: Option<u64>) -> Seq<Task>
    decreases tasks.len(),
{
    if tasks.len() == 0 {
        Seq::empty()
    } else if listed(tasks.last(), start_after) {
        open_after(tasks.drop_last(), start_after).push(tasks.last())
    } else {
        open_after(tasks.drop_last(), start_after)
    }
}

/// At most `limit` items from the front.
pub open spec fn page(s: Seq<Task>, limit: nat) -> Seq<Task> {
    if s.len() <= limit {
        s
    } else {
        s.take(limit as int)
    }
}

pub open spec fn effective_limit(limit: Option<u32>) -> nat {
    match limit {
        Some(l) => l as nat,
        None => DEFAULT_LIMIT as nat,
    }
}

/// The open tasks of a prefix come first among those of the whole.
proof fn lemma_open_after_prefix(tasks: Seq<Task>, start_after: Option<u64>, i: int)
    requires
        0 <= i <= tasks.len(),
    ensures
        open_after(tasks.subrange(0, i), start_after).len() <= open_after(tasks, start_after).len(),
        open_after(tasks, start_after).subrange(
            0,
            open_after(tasks.subrange(0, i), start_after).len() as int,
        ) == open_after(tasks.subrange(0, i), start_after),
    decreases tasks.len() - i,
{
    if i == tasks.len() {
        assert(tasks.subrange(0, i) =~= tasks);
        assert(open_after(tasks, start_after).subrange(0, open_after(tasks, start_after).len() as int)
            =~= open_after(tasks, start_after));
    } else {
        lemma_open_after_prefix(tasks, start_after, i + 1);
        let a = open_after(tasks.subrange(0, i), start_after);
        let b = open_after(tasks.subrange(0, i + 1), start_after);
        let all = open_after(tasks, start_after);
        assert(tasks.subrange(0, i + 1).drop_last() =~= tasks.subrange(0, i));
        assert(b.subrange(0, a.len() as int) =~= a);
        assert(all.subrange(0, a.len() as int) =~= b.subrange(0, a.len() as int));
    }
}

fn copy_request(p: &RequestType) -> (r: RequestType)
    ensures
        r == *p,
{
    match p {
        RequestType::Json(s) => RequestType::Json(s.clone()),
    }
}

fn copy_response(p: &Option<ResponseType>) -> (r: Option<ResponseType>)
    ensures
        r == *p,
{
    match p {
        Some(ResponseType::Json(s)) => Some(ResponseType::Json(s.clone())),
        None => None,
    }
}

fn metadata(t: &Task) -> (r: TaskMetadata)
    ensures
        r == metadata_of(*t),
{
    TaskMetadata {
        id: t.id,
        description: t.description.clone(),
        status: t.status,
        timing: t.timing,
        payload: copy_request(&t.payload),
        result: copy_response(&t.result),
    }
}

pub struct TaskQueue {
    pub config: Config,
    pub tasks: Vec<Task>,
    pub next_id: u64,
}

impl TaskQueue {
    /// The timeout bounds agree with the default, ids are assigned in
    /// increasing order from 1, every stored id is below the next one to
    /// assign, and only a completed task holds a result.
    pub open spec fn wf(&self) -> bool {
        &&& timeout_info_valid(self.config.timeout)
        &&& self.next_id >= 1
        &&& ids_ascending(self.tasks@)
        &&& forall|i: int| 0 <= i < self.tasks@.len() ==> (#[trigger] self.tasks@[i]).id < self.next_id
        &&& forall|i: int|
            0 <= i < self.tasks@.len() && !((#[trigger] self.tasks@[i]).status is Completed)
                ==> self.tasks@[i].result is None
    }

    /// Whether the queue is well formed; for a queue read back from storage.
    pub fn is_wf(&self) -> (r: bool)
        ensures
            r == self.wf(),
    {
        if let Some(m) = self.config.timeout.minimum {
            if m > self.config.timeout.default {
                return false;
            }
        }
        if let Some(m) = self.config.timeout.maximum {
            if self.config.timeout.default > m {
                return false;
            }
        }
        if self.next_id < 1 {
            return false;
        }
        let n = self.tasks.len();
        let mut i: usize = 0;
        while i < n
            invariant
                n == self.tasks@.len(),
                i <= n,
                ids_ascending(self.tasks@.subrange(0, i as int)),
                forall|k: int| 0 <= k < i ==> (#[trigger] self.tasks@[k]).id < self.next_id,
                forall|k: int|
                    0 <= k < i && !((#[trigger] self.tasks@[k]).status is Completed)
                        ==> self.tasks@[k].result is None,
            decreases n - i,
        {
            let t = &self.tasks[i];
            if t.id >= self.next_id {
                return false;
            }
            if i > 0 && self.tasks[i - 1].id >= t.id {
                assert(!ids_ascending(self.tasks@)) by {
                    assert(self.tasks@[i - 1].id >= self.tasks@[i as int].id);
                }
                return false;
            }
            let completed = match t.status {
                Status::Completed { .. } => true,
                _ => false,
            };
            if !completed && t.result.is_some() {
                return false;
            }
            assert(ids_ascending(self.tasks@.subrange(0, i as int + 1))) by {
                let p = self.tasks@.subrange(0, i as int);
                let q = self.tasks@.subrange(0, i as int + 1);
                assert forall|a: int, b: int| 0 <= a < b < q.len() implies #[trigger] q[a].id
                    < #[trigger] q[b].id by {
                    if b < i {
                        assert(p[a] == q[a] && p[b] == q[b]);
                    } else if a < i - 1 {
                        assert(p[a] == q[a] && p[i - 1] == q[i - 1]);
                    }
                }
            }
            i = i + 1;
        }
        assert(self.tasks@.subrange(0, n as int) =~= self.tasks@);
        true
    }

    /// A queue with no tasks; the timeout bounds must agree with the default.
    pub fn instantiate(msg: InstantiateMsg) -> (r: Result<TaskQueue, ContractError>)
        ensures
            !timeout_info_valid(msg.timeout) ==> r == Err::<TaskQueue, ContractError>(
                ContractError::InvalidTimeoutInfo,
            ),
            timeout_info_valid(msg.timeout) ==> (r matches Ok(q) && q.wf() && q.tasks@.len() == 0
                && q.next_id == 1 && q.config.requestor == msg.requestor && q.config.verifier
                == msg.verifier && q.config.timeout == msg.timeout),
    {
        if let Some(m) = msg.timeout.minimum {
            if m > msg.timeout.default {
                return Err(ContractError::InvalidTimeoutInfo);
            }
        }
        if let Some(m) = msg.timeout.maximum {
            if msg.timeout.default > m {
                return Err(ContractError::InvalidTimeoutInfo);
            }
        }
        Ok(
            TaskQueue {
                config: Config {
                    requestor: msg.requestor,
                    verifier: msg.verifier,
                    timeout: msg.timeout,
                },
                tasks: Vec::new(),
                next_id: 1,
            },
        )
    }

    /// The position of the task with this id, if stored.
    fn find_task(&self, task_id: u64) -> (r: Option<usize>)
        requires
            self.wf(),
        ensures
            match r {
                Some(i) => has_task(self.tasks@, task_id) && i == index_of(self.tasks@, task_id) && i
                    < self.tasks@.len(),
                None => !has_task(self.tasks@, task_id),
            },
    {
        let n = self.tasks.len();
        let mut i: usize = 0;
        while i < n
            invariant
                n == self.tasks@.len(),
                i <= n,
                self.wf(),
                forall|j: int| 0 <= j < i ==> (#[trigger] self.tasks@[j]).id != task_id,
            decreases n - i,
        {
            if self.tasks[i].id == task_id {
                proof {
                    let k = index_of(self.tasks@, task_id);
                    assert(self.tasks@[i as int].id == task_id);
                    if k < i {
                        assert(self.tasks@[k].id < self.tasks@[i as int].id);
                    } else if k > i {
                        assert(self.tasks@[i as int].id < self.tasks@[k].id);
                    }
                }
                return Some(i);
            }
            i = i + 1;
        }
        None
    }

    /// Creates an open task for the requestor, with the next id.
    pub fn create_task(
        &mut self,
        sender: &String,
        now: u64,
        description: String,
        timeout: Option<u64>,
        payload: RequestType,
        options: Vec<String>,
        proposed_winner: String,
    ) -> (r: Result<u64, ContractError>)
        requires
            old(self).wf(),
            old(self).next_id < u64::MAX,
            spec_check_timeout(old(self).config.timeout, timeout) matches Ok(t) ==> now + t
                <= u64::MAX,
        ensures
            final(self).wf(),
            final(self).config == old(self).config,
            evolves(old(self).tasks@, final(self).tasks@),
            sender@ != old(self).config.requestor@ ==> {
                &&& r == Err::<u64, ContractError>(ContractError::Unauthorized)
                &&& final(self).tasks@ == old(self).tasks@
                &&& final(self).next_id == old(self).next_id
            },
            sender@ == old(self).config.requestor@ ==> match spec_check_timeout(
                old(self).config.timeout,
                timeout,
            ) {
                Err(e) => {
                    &&& r == Err::<u64, ContractError>(e)
                    &&& final(self).tasks@ == old(self).tasks@
                    &&& final(self).next_id == old(self).next_id
                },
                Ok(t) => {
                    &&& r == Ok::<u64, ContractError>(old(self).next_id)
                    &&& final(self).next_id == old(self).next_id + 1
                    &&& final(self).tasks@ == old(self).tasks@.push(
                        (Task {
                            id: old(self).next_id,
                            description,
                            payload,
                            options,
                            proposed_winner,
                            status: Status::Open,
                            timing: Timing { created_at: now, expires_at: (now + t) as u64 },
                            result: None,
                        }),
                    )
                },
            },
    {
        if !(*sender == self.config.requestor) {
            return Err(ContractError::Unauthorized);
        }
        let t = match check_timeout(&self.config.timeout, timeout) {
            Ok(t) => t,
            Err(e) => {
                return Err(e);
            },
        };
        let id = self.next_id;
        let task = Task {
            id,
            description,
            payload,
            options,
            proposed_winner,
            status: Status::Open,
            timing: Timing { created_at: now, expires_at: now + t },
            result: None,
        };
        self.tasks.push(task);
        self.next_id = id + 1;
        Ok(id)
    }

    /// Completes an open task with the verified result; only the verifier
    /// may do so.
    pub fn complete_task(&mut self, sender: &String, now: u64, task_id: u64, result: ResponseType) -> (r:
        Result<(), ContractError>)
        requires
            old(self).wf(),
        ensures
            final(self).wf(),
            final(self).config == old(self).config,
            final(self).next_id == old(self).next_id,
            evolves(old(self).tasks@, final(self).tasks@),
            r == complete_outcome(*old(self), sender@, task_id),
            r is Err ==> final(self).tasks@ == old(self).tasks@,
            r is Ok ==> final(self).tasks@ == old(self).tasks@.update(
                index_of(old(self).tasks@, task_id),
                completed(old(self).tasks@[index_of(old(self).tasks@, task_id)], now, result),
            ),
    {
        if !(*sender == self.config.verifier) {
            return Err(ContractError::Unauthorized);
        }
        let i = match self.find_task(task_id) {
            Some(i) => i,
            None => {
                return Err(ContractError::TaskNotFound);
            },
        };
        match self.tasks[i].status {
            Status::Completed { .. } => {
                return Err(ContractError::TaskCompleted);
            },
            Status::Expired => {
                return Err(ContractError::TaskExpired);
            },
            Status::Open => {},
        }
        let old_task = self.tasks.remove(i);
        let task = Task {
            status: Status::Completed { completed_at: now },
            result: Some(result),
            ..old_task
        };
        self.tasks.insert(i, task);
        assert(self.tasks@ =~= old(self).tasks@.update(i as int, task));
        assert(ids_ascending(self.tasks@)) by {
            assert forall|a: int, b: int| 0 <= a < b < self.tasks@.len() implies #[trigger] self.tasks@[a].id
                < #[trigger] self.tasks@[b].id by {
                assert(self.tasks@[a].id == old(self).tasks@[a].id);
                assert(self.tasks@[b].id == old(self).tasks@[b].id);
            }
        }
        assert forall|k: int| 0 <= k < self.tasks@.len() implies (#[trigger] self.tasks@[k]).id < self.next_id by {
            assert(self.tasks@[k].id == old(self).tasks@[k].id);
        }
        assert forall|k: int| 0 <= k < self.tasks@.len() && !((#[trigger] self.tasks@[k]).status is Completed)
            implies self.tasks@[k].result is None by {
            if k != i {
                assert(self.tasks@[k] == old(self).tasks@[k]);
            } else {
                assert(old(self).tasks@[k].result is None);
            }
        }
        Ok(())
    }

    /// Expires an open task whose deadline has passed; only the requestor
    /// may do so.
    pub fn expire_task(&mut self, sender: &String, now: u64, task_id: u64) -> (r: Result<(), ContractError>)
        requires
            old(self).wf(),
        ensures
            final(self).wf(),
            final(self).config == old(self).config,
            final(self).next_id == old(self).next_id,
            evolves(old(self).tasks@, final(self).tasks@),
            r == expire_outcome(*old(self), sender@, now, task_id),
            r is Err ==> final(self).tasks@ == old(self).tasks@,
            r is Ok ==> final(self).tasks@ == old(self).tasks@.update(
                index_of(old(self).tasks@, task_id),
                expired(old(self).tasks@[index_of(old(self).tasks@, task_id)]),
            ),
            r is Ok ==> final(self).tasks@[index_of(old(self).tasks@, task_id)].result is None,
    {
        if !(*sender == self.config.requestor) {
            return Err(ContractError::Unauthorized);
        }
        let i = match self.find_task(task_id) {
            Some(i) => i,
            None => {
                return Err(ContractError::TaskNotFound);
            },
        };
        match self.tasks[i].status {
            Status::Completed { .. } => {
                return Err(ContractError::TaskCompleted);
            },
            Status::Expired => {
                return Err(ContractError::TaskExpired);
            },
            Status::Open => {},
        }
        if now <= self.tasks[i].timing.expires_at {
            return Err(ContractError::TaskNotExpired);
        }
        let old_task = self.tasks.remove(i);
        let task = Task { status: Status::Expired, ..old_task };
        self.tasks.insert(i, task);
        assert(self.tasks@ =~= old(self).tasks@.update(i as int, task));
        assert(ids_ascending(self.tasks@)) by {
            assert forall|a: int, b: int| 0 <= a < b < self.tasks@.len() implies #[trigger] self.tasks@[a].id
                < #[trigger] self.tasks@[b].id by {
                assert(self.tasks@[a].id == old(self).tasks@[a].id);
                assert(self.tasks@[b].id == old(self).tasks@[b].id);
            }
        }
        assert forall|k: int| 0 <= k < self.tasks@.len() implies (#[trigger] self.tasks@[k]).id < self.next_id by {
            assert(self.tasks@[k].id == old(self).tasks@[k].id);
        }
        assert forall|k: int| 0 <= k < self.tasks@.len() && !((#[trigger] self.tasks@[k]).status is Completed)
            implies self.tasks@[k].result is None by {
            if k != i {
                assert(self.tasks@[k] == old(self).tasks@[k]);
            } else {
                assert(old(self).tasks@[k].result is None);
            }
        }
        Ok(())
    }

    /// The task with this id.
    pub fn task_info(&self, task_id: u64) -> (r: Result<TaskMetadata, ContractError>)
        requires
            self.wf(),
        ensures
            !has_task(self.tasks@, task_id) ==> r == Err::<TaskMetadata, ContractError>(
                ContractError::TaskNotFound,
            ),
            has_task(self.tasks@, task_id) ==> r == Ok::<TaskMetadata, ContractError>(
                metadata_of(self.tasks@[index_of(self.tasks@, task_id)]),
            ),
    {
        match self.find_task(task_id) {
            Some(i) => Ok(metadata(&self.tasks[i])),
            None => Err(ContractError::TaskNotFound),
        }
    }

    /// The open tasks with ids after `start_after`, ascending, at most
    /// `limit` of them (10 when not given).
    pub fn list_open(&self, start_after: Option<u64>, limit: Option<u32>) -> (r: Vec<TaskMetadata>)
        ensures
            r@ == page(open_after(self.tasks@, start_after), effective_limit(limit)).map_values(
                |t: Task| metadata_of(t),
            ),
    {
        let lim: usize = match limit {
            Some(l) => l as usize,
            None => DEFAULT_LIMIT as usize,
        };
        let n = self.tasks.len();
        let mut out: Vec<TaskMetadata> = Vec::new();
        let mut i: usize = 0;
        while i < n && out.len() < lim
            invariant
                n == self.tasks@.len(),
                i <= n,
                lim == effective_limit(limit),
                out@.len() <= lim,
                out@ == open_after(self.tasks@.subrange(0, i as int), start_after).map_values(
                    |t: Task| metadata_of(t),
                ),
            decreases n - i,
        {
            assert(self.tasks@.subrange(0, i as int + 1).drop_last() =~= self.tasks@.subrange(
                0,
                i as int,
            ));
            let t = &self.tasks[i];
            let keep = match t.status {
                Status::Open => match start_after {
                    Some(s) => t.id > s,
                    None => true,
                },
                _ => false,
            };
            if keep {
                out.push(metadata(t));
            }
            proof {
                let prev = open_after(self.tasks@.subrange(0, i as int), start_after);
                let next = open_after(self.tasks@.subrange(0, i as int + 1), start_after);
                if keep {
                    assert(next == prev.push(self.tasks@[i as int]));
                    assert(out@ =~= next.map_values(|t: Task| metadata_of(t)));
                } else {
                    assert(next == prev);
                }
            }
            i = i + 1;
        }
        proof {
            let all = open_after(self.tasks@, start_after);
            let part = open_after(self.tasks@.subrange(0, i as int), start_after);
            lemma_open_after_prefix(self.tasks@, start_after, i as int);
            if i == n {
                assert(self.tasks@.subrange(0, n as int) =~= self.tasks@);
            } else {
                assert(part.len() == lim);
                if all.len() == lim {
                    assert(all.subrange(0, lim as int) =~= all);
                }
                assert(page(all, lim as nat) =~= part);
            }
        }
        out
    }
}

/// What `complete` returns, from the state before it.
pub open spec fn complete_outcome(q: TaskQueue, sender: Seq<char>, task_id: u64) -> Result<
    (),
    ContractError,
> {
    if sender != q.config.verifier@ {
        Err(ContractError::Unauthorized)
    } else if !has_task(q.tasks@, task_id) {
        Err(ContractError::TaskNotFound)
    } else {
        match terminal_error(q.tasks@[index_of(q.tasks@, task_id)].status) {
            Some(e) => Err(e),
            None => Ok(()),
        }
    }
}

/// What `expire` returns, from the state before it.
pub open spec fn expire_outcome(q: TaskQueue, sender: Seq<char>, now: u64, task_id: u64) -> Result<
    (),
    ContractError,
> {
    if sender != q.config.requestor@ {
        Err(ContractError::Unauthorized)
    } else if !has_task(q.tasks@, task_id) {
        Err(ContractError::TaskNotFound)
    } else {
        match terminal_error(q.tasks@[index_of(q.tasks@, task_id)].status) {
            Some(e) => Err(e),
            None => if now <= q.tasks@[index_of(q.tasks@, task_id)].timing.expires_at {
                Err(ContractError::TaskNotExpired)
            } else {
                Ok(())
            },
        }
    }
}

/// Statuses only move forward: over any two successive changes, every task
/// keeps its place and either keeps its status or leaves `Open` once, so a
/// terminal status is never left and never exchanged for the other.
pub proof fn lemma_status_monotone(a: Seq<Task>, b: Seq<Task>, c: Seq<Task>)
    requires
        evolves(a, b),
        evolves(b, c),
    ensures
        evolves(a, c),
        forall|i: int|
            0 <= i < a.len() && !(a[i].status is Open) ==> (#[trigger] c[i]).status == a[i].status,
{
    assert forall|i: int| 0 <= i < a.len() implies (#[trigger] c[i]).id == a[i].id && status_step(
        a[i].status,
        c[i].status,
    ) by {
        assert(b[i].id == a[i].id && status_step(a[i].status, b[i].status));
        assert(c[i].id == b[i].id && status_step(b[i].status, c[i].status));
    }
}

/// With unique ids, the task at a position is the one found by its id.
proof fn lemma_index_of(tasks: Seq<Task>, i: int)
    requires
        ids_ascending(tasks),
        0 <= i < tasks.len(),
    ensures
        has_task(tasks, tasks[i].id),
        index_of(tasks, tasks[i].id) == i,
{
    let id = tasks[i].id;
    assert(tasks[i].id == id);
    let k = index_of(tasks, id);
    if k < i {
        assert(tasks[k].id < tasks[i].id);
    } else if k > i {
        assert(tasks[i].id < tasks[k].id);
    }
}

/// Expiry of an open task is refused at one second before its deadline and
/// granted at one second after it.
pub proof fn lemma_expiry_boundary(q: TaskQueue, task_id: u64)
    requires
        q.wf(),
        has_task(q.tasks@, task_id),
        q.tasks@[index_of(q.tasks@, task_id)].status is Open,
        1 <= q.tasks@[index_of(q.tasks@, task_id)].timing.expires_at < u64::MAX,
    ensures
        expire_outcome(
            q,
            q.config.requestor@,
            (q.tasks@[index_of(q.tasks@, task_id)].timing.expires_at - 1) as u64,
            task_id,
        ) == Err::<(), ContractError>(ContractError::TaskNotExpired),
        expire_outcome(
            q,
            q.config.requestor@,
            (q.tasks@[index_of(q.tasks@, task_id)].timing.expires_at + 1) as u64,
            task_id,
        ) == Ok::<(), ContractError>(()),
{
}

/// A completed task cannot be completed again.
pub proof fn lemma_complete_after_complete(
    before: TaskQueue,
    after: TaskQueue,
    task_id: u64,
    now: u64,
    result: ResponseType,
)
    requires
        before.wf(),
        has_task(before.tasks@, task_id),
        after.config == before.config,
        after.tasks@ == before.tasks@.update(
            index_of(before.tasks@, task_id),
            completed(before.tasks@[index_of(before.tasks@, task_id)], now, result),
        ),
    ensures
        complete_outcome(after, before.config.verifier@, task_id) == Err::<(), ContractError>(
            ContractError::TaskCompleted,
        ),
{
    let i = index_of(before.tasks@, task_id);
    assert(ids_ascending(after.tasks@)) by {
        assert forall|a: int, b: int| 0 <= a < b < after.tasks@.len() implies #[trigger] after.tasks@[a].id
            < #[trigger] after.tasks@[b].id by {
            assert(after.tasks@[a].id == before.tasks@[a].id);
            assert(after.tasks@[b].id == before.tasks@[b].id);
        }
    }
    lemma_index_of(after.tasks@, i);
}

/// A task that expired from open cannot be completed, and holds no result.
pub proof fn lemma_complete_after_expire(before: TaskQueue, after: TaskQueue, task_id: u64)
    requires
        before.wf(),
        has_task(before.tasks@, task_id),
        before.tasks@[index_of(before.tasks@, task_id)].status is Open,
        after.config == before.config,
        after.tasks@ == before.tasks@.update(
            index_of(before.tasks@, task_id),
            expired(before.tasks@[index_of(before.tasks@, task_id)]),
        ),
    ensures
        complete_outcome(after, before.config.verifier@, task_id) == Err::<(), ContractError>(
            ContractError::TaskExpired,
        ),
        after.tasks@[index_of(before.tasks@, task_id)].result is None,
{
    let i = index_of(before.tasks@, task_id);
    assert(ids_ascending(after.tasks@)) by {
        assert forall|a: int, b: int| 0 <= a < b < after.tasks@.len() implies #[trigger] after.tasks@[a].id
            < #[trigger] after.tasks@[b].id by {
            assert(after.tasks@[a].id == before.tasks@[a].id);
            assert(after.tasks@[b].id == before.tasks@[b].id);
        }
    }
    lemma_index_of(after.tasks@, i);
    assert(!(before.tasks@[i].status is Completed));
}

} // verus!
