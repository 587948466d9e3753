//! The vote aggregation and slashing engine.
use crate::consensus::{consensus_value, spec_consensus};
use crate::decimal::{
    abs_diff, mul_floor, spec_abs_diff, spec_floor, spec_mul_floor, to_uint_floor,
    DECIMAL_FRACTIONAL,
};
use crate::registry::{power_of, voters_of, PowerResponse, Registry, VoterInfo};
use crate::task_queue::{has_task, index_of, metadata_of, TaskMetadata, TaskQueue};
use vstd::prelude::*;

verus! {

/// The engine's fixed configuration; decimals are given by their atomics.
pub struct Config {
    pub threshold_percent: u128,
    pub allowed_spread: u128,
    pub slashable_spread: u128,
    pub operator_contract: String,
}

pub struct InstantiateMsg {
    pub threshold_percent: u128,
    pub allowed_spread: u128,
    pub slashable_spread: u128,
    pub operator_contract: String,
}

/// One operator's result for one task.
pub struct OperatorVote {
    pub task_id: u64,
    pub operator: String,
    pub result: u128,
}

/// The contract that a task came from, to which its completion is sent.
pub struct TaskOrigin {
    pub task_id: u64,
    pub task_contract: String,
}

/// A finalized round: the task to complete, where its completion goes, and
/// the consensus value.
pub struct ProcessOutcome {
    pub task_id: u64,
    pub task_contract: String,
    pub median: u128,
    pub threshold_met: bool,
}

/// A slashing pass: the operators whose flags were cleared, and the task
/// whose completion is sent afterwards, with its recorded origin if any.
pub struct SlashOutcome {
    pub task_id: u64,
    pub task_contract: Option<String>,
    pub slashed: Vec<String>,
}

#[derive(Debug, PartialEq, Eq)]
pub enum ContractError {
    Unauthorized,
    ThresholdNotMet,
    OperatorAlreadyVoted(String),
    VoteProcessingFailed,
}

/// Whether `votes` holds a vote of `operator` for `task_id`.
pub open spec fn has_vote(votes: Seq<OperatorVote>, task_id: u64, operator: Seq<char>) -> bool {
    exists|i: int|
        0 <= i < votes.len() && #[trigger] votes[i].task_id == task_id && votes[i].operator@
            == operator
}

/// The results of the votes for `task_id`, in storage order.
pub open spec fn task_results(votes: Seq<OperatorVote>, task_id: u64) -> Seq<u128>
    decreases votes.len(),
{
    if votes.len() == 0 {
        Seq::empty()
    } else if votes.last().task_id == task_id {
        task_results(votes.drop_last(), task_id).push(votes.last().result)
    } else {
        task_results(votes.drop_last(), task_id)
    }
}

/// The operators whose vote for `task_id` deviates from `median` by more
/// than `spread`.
pub open spec fn flagged(votes: Seq<OperatorVote>, task_id: u64, median: u128, spread: u128) -> Set<
    Seq<char>,
> {
    Set::new(
        |a: Seq<char>|
            exists|i: int|
                0 <= i < votes.len() && #[trigger] votes[i].task_id == task_id && votes[i].operator@
                    == a && spec_abs_diff(votes[i].result, median) > spread,
    )
}

/// The support for a round: the integer parts of the results, summed over the
/// votes for `task_id` whose result is at least `median`.
pub open spec fn aggregated_power(votes: Seq<OperatorVote>, task_id: u64, median: u128) -> int
    decreases votes.len(),
{
    if votes.len() == 0 {
        0
    } else {
        aggregated_power(votes.drop_last(), task_id, median) + if votes.last().task_id == task_id
            && votes.last().result >= median {
            spec_floor(votes.last().result)
        } else {
            0
        }
    }
}

/// The contract most recently recorded for `task_id`.
pub open spec fn origin_of(tasks: Seq<TaskOrigin>, task_id: u64) -> Option<Seq<char>>
    decreases tasks.len(),
{
    if tasks.len() == 0 {
        None
    } else if tasks.last().task_id == task_id {
        Some(tasks.last().task_contract@)
    } else {
        origin_of(tasks.drop_last(), task_id)
    }
}

/// The set of addresses in a list.
pub open spec fn address_set(s: Seq<String>) -> Set<Seq<char>> {
    Set::new(|a: Seq<char>| exists|i: int| 0 <= i < s.len() && #[trigger] s[i]@ == a)
}

/// No address occurs twice.
pub open spec fn distinct(s: Seq<String>) -> bool {
    forall|i: int, j: int| 0 <= i < j < s.len() ==> #[trigger] s[i]@ != #[trigger] s[j]@
}

/// No two votes share a task and an operator.
pub open spec fn votes_unique(votes: Seq<OperatorVote>) -> bool {
    forall|i: int, j: int|
        0 <= i < j < votes.len() ==> !(#[trigger] votes[i].task_id == #[trigger] votes[j].task_id
            && votes[i].operator@ == votes[j].operator@)
}

pub struct OracleVerifier {
    pub config: Config,
    pub votes: Vec<OperatorVote>,
    pub tasks: Vec<TaskOrigin>,
    pub slashed: Vec<String>,
}

/// Adds `op` to a list of distinct addresses, unless it is there.
fn add_flag(slashed: &mut Vec<String>, op: &String)
    requires
        distinct(old(slashed)@),
    ensures
        distinct(final(slashed)@),
        address_set(final(slashed)@) == address_set(old(slashed)@).insert(op@),
{
    let n = slashed.len();
    let mut i: usize = 0;
    while i < n
        invariant
            n == slashed@.len(),
            i <= n,
            distinct(slashed@),
            forall|j: int| 0 <= j < i ==> (#[trigger] slashed@[j])@ != op@,
        decreases n - i,
    {
        if slashed[i] == *op {
            assert(address_set(slashed@) =~= address_set(slashed@).insert(op@)) by {
                assert(address_set(slashed@).contains(slashed@[i as int]@));
            }
            return;
        }
        i = i + 1;
    }
    let ghost prev = slashed@;
    slashed.push(op.clone());
    assert(address_set(slashed@) =~= address_set(prev).insert(op@)) by {
        assert(slashed@[n as int]@ == op@);
        assert forall|a: Seq<char>| address_set(prev).contains(a) implies address_set(
            slashed@,
        ).contains(a) by {
            let k = choose|k: int| 0 <= k < prev.len() && #[trigger] prev[k]@ == a;
            assert(slashed@[k] == prev[k]);
        }
        assert forall|a: Seq<char>| address_set(slashed@).contains(a) implies address_set(
            prev,
        ).insert(op@).contains(a) by {
            let k = choose|k: int| 0 <= k < slashed@.len() && #[trigger] slashed@[k]@ == a;
            if k < n {
                assert(slashed@[k] == prev[k]);
            }
        }
    }
}

impl OracleVerifier {
    /// Votes are write-once per task and operator, flags are distinct, and
    /// the threshold is a fraction in `[0, 1]`.
    pub open spec fn wf(&self) -> bool {
        &&& votes_unique(self.votes@)
        &&& distinct(self.slashed@)
        &&& self.config.threshold_percent <= DECIMAL_FRACTIONAL
    }

    /// Whether the engine is well formed; for an engine read back from
    /// storage.
    pub fn is_wf(&self) -> (r: bool)
        ensures
            r == self.wf(),
    {
        if self.config.threshold_percent > DECIMAL_FRACTIONAL {
            return false;
        }
        let n = self.votes.len();
        let mut a: usize = 0;
        while a < n
            invariant
                n == self.votes@.len(),
                a <= n,
                forall|x: int, y: int|
                    0 <= x < y < a ==> !(#[trigger] self.votes@[x].task_id
                        == #[trigger] self.votes@[y].task_id && self.votes@[x].operator@
                        == self.votes@[y].operator@),
            decreases n - a,
        {
            let mut b: usize = 0;
            while b < a
                invariant
                    n == self.votes@.len(),
                    a < n,
                    b <= a,
                    forall|x: int|
                        0 <= x < b ==> !(#[trigger] self.votes@[x].task_id
                            == self.votes@[a as int].task_id && self.votes@[x].operator@
                            == self.votes@[a as int].operator@),
                decreases a - b,
            {
                if self.votes[b].task_id == self.votes[a].task_id && self.votes[b].operator
                    == self.votes[a].operator {
                    return false;
                }
                b = b + 1;
            }
            a = a + 1;
        }
        let m = self.slashed.len();
        let mut a: usize = 0;
        while a < m
            invariant
                m == self.slashed@.len(),
                a <= m,
                votes_unique(self.votes@),
                self.config.threshold_percent <= DECIMAL_FRACTIONAL,
                forall|x: int, y: int|
                    0 <= x < y < a ==> #[trigger] self.slashed@[x]@ != #[trigger] self.slashed@[y]@,
            decreases m - a,
        {
            let mut b: usize = 0;
            while b < a
                invariant
                    m == self.slashed@.len(),
                    a < m,
                    b <= a,
                    forall|x: int| 0 <= x < b ==> #[trigger] self.slashed@[x]@ != self.slashed@[a as int]@,
                decreases a - b,
            {
                if self.slashed[b] == self.slashed[a] {
                    return false;
                }
                b = b + 1;
            }
            a = a + 1;
        }
        true
    }

    /// An engine with no votes, flags or recorded tasks.
    pub fn instantiate(msg: InstantiateMsg) -> (r: OracleVerifier)
        requires
            msg.threshold_percent <= DECIMAL_FRACTIONAL,
        ensures
            r.wf(),
            r.config.threshold_percent == msg.threshold_percent,
            r.config.allowed_spread == msg.allowed_spread,
            r.config.slashable_spread == msg.slashable_spread,
            r.config.operator_contract == msg.operator_contract,
            r.votes@.len() == 0,
            r.tasks@.len() == 0,
            r.slashed@.len() == 0,
    {
        OracleVerifier {
            config: Config {
                threshold_percent: msg.threshold_percent,
                allowed_spread: msg.allowed_spread,
                slashable_spread: msg.slashable_spread,
                operator_contract: msg.operator_contract,
            },
            votes: Vec::new(),
            tasks: Vec::new(),
            slashed: Vec::new(),
        }
    }
}

/// Extending a sequence of votes by one extends the flagged set by that
/// vote's operator exactly when it deviates.
proof fn lemma_flagged_step(votes: Seq<OperatorVote>, i: int, task_id: u64, median: u128, spread: u128)
    requires
        0 <= i < votes.len(),
    ensures
        flagged(votes.subrange(0, i + 1), task_id, median, spread) == if votes[i].task_id == task_id
            && spec_abs_diff(votes[i].result, median) > spread {
            flagged(votes.subrange(0, i), task_id, median, spread).insert(votes[i].operator@)
        } else {
            flagged(votes.subrange(0, i), task_id, median, spread)
        },
{
    let a = votes.subrange(0, i);
    let b = votes.subrange(0, i + 1);
    let fa = flagged(a, task_id, median, spread);
    let fb = flagged(b, task_id, median, spread);
    assert forall|x: Seq<char>| fa.contains(x) implies fb.contains(x) by {
        let k = choose|k: int|
            0 <= k < a.len() && #[trigger] a[k].task_id == task_id && a[k].operator@ == x
                && spec_abs_diff(a[k].result, median) > spread;
        assert(b[k] == a[k]);
    }
    assert forall|x: Seq<char>| fb.contains(x) && x != votes[i].operator@ implies fa.contains(x) by {
        let k = choose|k: int|
            0 <= k < b.len() && #[trigger] b[k].task_id == task_id && b[k].operator@ == x
                && spec_abs_diff(b[k].result, median) > spread;
        assert(a[k] == b[k]);
    }
    if votes[i].task_id == task_id && spec_abs_diff(votes[i].result, median) > spread {
        assert(b[i] == votes[i]);
        assert(fb.contains(votes[i].operator@));
        assert(fb =~= fa.insert(votes[i].operator@));
    } else {
        assert forall|x: Seq<char>| fb.contains(x) implies fa.contains(x) by {
            let k = choose|k: int|
                0 <= k < b.len() && #[trigger] b[k].task_id == task_id && b[k].operator@ == x
                    && spec_abs_diff(b[k].result, median) > spread;
            assert(k != i);
            assert(a[k] == b[k]);
        }
        assert(fb =~= fa);
    }
}

impl OracleVerifier {
    /// The results of the votes for `task_id`.
    fn collect_results(&self, task_id: u64) -> (r: Vec<u128>)
        ensures
            r@ == task_results(self.votes@, task_id),
    {
        let n = self.votes.len();
        let mut out: Vec<u128> = Vec::new();
        let mut i: usize = 0;
        while i < n
            invariant
                n == self.votes@.len(),
                i <= n,
                out@ == task_results(self.votes@.subrange(0, i as int), task_id),
            decreases n - i,
        {
            assert(self.votes@.subrange(0, i as int + 1).drop_last() =~= self.votes@.subrange(
                0,
                i as int,
            ));
            if self.votes[i].task_id == task_id {
                out.push(self.votes[i].result);
            }
            i = i + 1;
        }
        assert(self.votes@.subrange(0, n as int) =~= self.votes@);
        out
    }

    /// The aggregated support for `task_id`, saturated at `u128::MAX`.
    fn support(&self, task_id: u64, median: u128) -> (r: u128)
        ensures
            r == if aggregated_power(self.votes@, task_id, median) > u128::MAX {
                u128::MAX as int
            } else {
                aggregated_power(self.votes@, task_id, median)
            },
    {
        let n = self.votes.len();
        let mut acc: u128 = 0;
        let mut i: usize = 0;
        while i < n
            invariant
                n == self.votes@.len(),
                i <= n,
                acc == if aggregated_power(self.votes@.subrange(0, i as int), task_id, median)
                    > u128::MAX {
                    u128::MAX as int
                } else {
                    aggregated_power(self.votes@.subrange(0, i as int), task_id, median)
                },
                aggregated_power(self.votes@.subrange(0, i as int), task_id, median) >= 0,
            decreases n - i,
        {
            assert(self.votes@.subrange(0, i as int + 1).drop_last() =~= self.votes@.subrange(
                0,
                i as int,
            ));
            let vote = &self.votes[i];
            if vote.task_id == task_id && vote.result >= median {
                let power = to_uint_floor(vote.result);
                if acc > u128::MAX - power {
                    acc = u128::MAX;
                } else {
                    acc = acc + power;
                }
            }
            i = i + 1;
        }
        assert(self.votes@.subrange(0, n as int) =~= self.votes@);
        acc
    }

    /// The contract most recently recorded for `task_id`.
    fn lookup_origin(&self, task_id: u64) -> (r: Option<String>)
        ensures
            match origin_of(self.tasks@, task_id) {
                Some(c) => r matches Some(s) && s@ == c,
                None => r is None,
            },
    {
        let mut i: usize = self.tasks.len();
        assert(self.tasks@.subrange(0, i as int) =~= self.tasks@);
        while i > 0
            invariant
                i <= self.tasks@.len(),
                origin_of(self.tasks@, task_id) == origin_of(
                    self.tasks@.subrange(0, i as int),
                    task_id,
                ),
            decreases i,
        {
            i = i - 1;
            assert(self.tasks@.subrange(0, i as int + 1).drop_last() =~= self.tasks@.subrange(
                0,
                i as int,
            ));
            if self.tasks[i].task_id == task_id {
                return Some(self.tasks[i].task_contract.clone());
            }
        }
        None
    }

    /// Records the contract that `task_id` came from; only the registry's
    /// operator may do so.
    pub fn record_task(&mut self, sender: &String, task_id: u64, task_contract: String) -> (r: Result<
        (),
        ContractError,
    >)
        requires
            old(self).wf(),
        ensures
            final(self).wf(),
            final(self).votes@ == old(self).votes@,
            final(self).slashed@ == old(self).slashed@,
            final(self).config == old(self).config,
            sender@ != old(self).config.operator_contract@ ==> {
                &&& r == Err::<(), ContractError>(ContractError::Unauthorized)
                &&& final(self).tasks@ == old(self).tasks@
            },
            sender@ == old(self).config.operator_contract@ ==> {
                &&& r is Ok
                &&& final(self).tasks@ == old(self).tasks@.push((TaskOrigin { task_id, task_contract }))
                &&& origin_of(final(self).tasks@, task_id) == Some(task_contract@)
            },
    {
        if !(*sender == self.config.operator_contract) {
            return Err(ContractError::Unauthorized);
        }
        self.tasks.push(TaskOrigin { task_id, task_contract });
        Ok(())
    }

    /// Decides a round for `task_id` against the registry's total power
    /// `total_power`: the consensus value, the operators to flag, and whether
    /// the support reaches the threshold.
    pub fn tally(&mut self, total_power: u128, sender: &String, task_id: u64) -> (r: Result<
        ProcessOutcome,
        ContractError,
    >)
        requires
            old(self).wf(),
        ensures
            final(self).wf(),
            tallied(*old(self), *final(self), total_power, sender@, task_id, r),
    {
        if !(*sender == self.config.operator_contract) {
            return Err(ContractError::Unauthorized);
        }
        let results = self.collect_results(task_id);
        if results.len() == 0 {
            return Err(ContractError::VoteProcessingFailed);
        }
        let median = consensus_value(&results);
        let spread = self.config.allowed_spread;
        let ghost old_slashed = self.slashed@;
        let n = self.votes.len();
        let mut i: usize = 0;
        assert(flagged(self.votes@.subrange(0, 0), task_id, median, spread) =~= Set::empty());
        assert(address_set(old_slashed).union(Set::empty()) =~= address_set(old_slashed));
        while i < n
            invariant
                n == self.votes@.len(),
                i <= n,
                self.votes@ == old(self).votes@,
                self.tasks@ == old(self).tasks@,
                self.config == old(self).config,
                old(self).wf(),
                distinct(self.slashed@),
                address_set(self.slashed@) == address_set(old_slashed).union(
                    flagged(self.votes@.subrange(0, i as int), task_id, median, spread),
                ),
            decreases n - i,
        {
            proof {
                lemma_flagged_step(self.votes@, i as int, task_id, median, spread);
            }
            if self.votes[i].task_id == task_id && abs_diff(self.votes[i].result, median) > spread {
                add_flag(&mut self.slashed, &self.votes[i].operator);
                assert(address_set(old_slashed).union(
                    flagged(self.votes@.subrange(0, i as int), task_id, median, spread),
                ).insert(self.votes@[i as int].operator@) =~= address_set(old_slashed).union(
                    flagged(self.votes@.subrange(0, i as int), task_id, median, spread).insert(
                        self.votes@[i as int].operator@,
                    ),
                ));
            }
            i = i + 1;
        }
        assert(self.votes@.subrange(0, n as int) =~= self.votes@);
        let required = mul_floor(total_power, self.config.threshold_percent);
        let support = self.support(task_id, median);
        if support >= required {
            match self.lookup_origin(task_id) {
                Some(task_contract) => Ok(
                    ProcessOutcome { task_id, task_contract, median, threshold_met: true },
                ),
                None => Err(ContractError::VoteProcessingFailed),
            }
        } else {
            Err(ContractError::ThresholdNotMet)
        }
    }

    /// Records `operator`'s result for `task_id`, given the operator's
    /// voting power. Only operators with power may vote, and each at most
    /// once per task.
    pub fn record_vote(&mut self, power: u128, task_id: u64, operator: String, result: u128) -> (r:
        Result<(), ContractError>)
        requires
            old(self).wf(),
        ensures
            final(self).wf(),
            vote_recorded(*old(self), *final(self), power, task_id, operator, result, r),
    {
        if power == 0 {
            return Err(ContractError::Unauthorized);
        }
        let n = self.votes.len();
        let mut i: usize = 0;
        while i < n
            invariant
                n == self.votes@.len(),
                i <= n,
                *self == *old(self),
                old(self).wf(),
                power != 0,
                forall|j: int|
                    0 <= j < i ==> !(#[trigger] self.votes@[j].task_id == task_id
                        && self.votes@[j].operator@ == operator@),
            decreases n - i,
        {
            if self.votes[i].task_id == task_id && self.votes[i].operator == operator {
                return Err(ContractError::OperatorAlreadyVoted(operator));
            }
            i = i + 1;
        }
        let ghost prev = self.votes@;
        self.votes.push(OperatorVote { task_id, operator, result });
        assert(votes_unique(self.votes@)) by {
            assert forall|a: int, b: int| 0 <= a < b < self.votes@.len() implies !(
            #[trigger] self.votes@[a].task_id == #[trigger] self.votes@[b].task_id
                && self.votes@[a].operator@ == self.votes@[b].operator@) by {
                if b < n {
                    assert(self.votes@[a] == prev[a] && self.votes@[b] == prev[b]);
                } else {
                    assert(self.votes@[a] == prev[a]);
                }
            }
        }
        Ok(())
    }

    /// Records `operator`'s result for `task_id`, looking up its power in
    /// the registry at `height`.
    pub fn submit_vote(
        &mut self,
        registry: &Registry,
        task_id: u64,
        operator: String,
        result: u128,
        height: u64,
    ) -> (r: Result<(), ContractError>)
        requires
            old(self).wf(),
        ensures
            final(self).wf(),
            vote_recorded(
                *old(self),
                *final(self),
                power_of(registry.operators@, operator@),
                task_id,
                operator,
                result,
                r,
            ),
    {
        let power = registry.voting_power(&operator, Some(height)).power;
        self.record_vote(power, task_id, operator, result)
    }

    /// Decides a round for `task_id` against the registry's total power.
    pub fn process_votes(&mut self, registry: &Registry, sender: &String, task_id: u64) -> (r:
        Result<ProcessOutcome, ContractError>)
        requires
            old(self).wf(),
        ensures
            final(self).wf(),
            tallied(*old(self), *final(self), registry.total_power, sender@, task_id, r),
    {
        let total_power = registry.total_power(None).power;
        self.tally(total_power, sender, task_id)
    }

    /// Clears every flag, of every task, and hands back the operators that
    /// carried one. The completion of `task_id` is sent afterwards in any
    /// case: to the task's recorded origin when there is one, else to a
    /// destination that the host chooses.
    pub fn slash_operators(&mut self, sender: &String, task_id: u64) -> (r: Result<
        SlashOutcome,
        ContractError,
    >)
        requires
            old(self).wf(),
        ensures
            final(self).wf(),
            final(self).votes@ == old(self).votes@,
            final(self).tasks@ == old(self).tasks@,
            final(self).config == old(self).config,
            sender@ != old(self).config.operator_contract@ ==> {
                &&& r == Err::<SlashOutcome, ContractError>(ContractError::Unauthorized)
                &&& final(self).slashed@ == old(self).slashed@
            },
            sender@ == old(self).config.operator_contract@ ==> {
                &&& r matches Ok(o) && o.task_id == task_id && o.slashed@ == old(self).slashed@
                    && match origin_of(old(self).tasks@, task_id) {
                    Some(c) => (o.task_contract matches Some(t) && t@ == c),
                    None => o.task_contract is None,
                }
                &&& final(self).slashed@.len() == 0
            },
    {
        if !(*sender == self.config.operator_contract) {
            return Err(ContractError::Unauthorized);
        }
        let task_contract = self.lookup_origin(task_id);
        let mut slashed: Vec<String> = Vec::new();
        core::mem::swap(&mut slashed, &mut self.slashed);
        Ok(SlashOutcome { task_id, task_contract, slashed })
    }
}

impl OracleVerifier {
    /// Asks the registry for `address`'s power at `height`, or at the current
    /// block height when none is given.
    pub fn voting_power(
        &self,
        registry: &Registry,
        address: &String,
        height: Option<u64>,
        block_height: u64,
    ) -> (r: PowerResponse)
        ensures
            r.power == power_of(registry.operators@, address@),
            r.height == match height {
                Some(h) => h,
                None => block_height,
            },
    {
        let h = match height {
            Some(h) => h,
            None => block_height,
        };
        registry.voting_power(address, Some(h))
    }

    /// Asks the registry for its total power, as `voting_power` does.
    pub fn total_power(&self, registry: &Registry, height: Option<u64>, block_height: u64) -> (r:
        PowerResponse)
        ensures
            r.power == registry.total_power,
            r.height == match height {
                Some(h) => h,
                None => block_height,
            },
    {
        let h = match height {
            Some(h) => h,
            None => block_height,
        };
        registry.total_power(Some(h))
    }

    /// Asks the registry for its membership.
    pub fn all_voters(&self, registry: &Registry) -> (r: Vec<VoterInfo>)
        ensures
            voters_of(registry.operators@, r@),
    {
        registry.all_voters()
    }

    /// Asks a task queue for one of its tasks.
    pub fn task_info(&self, queue: &TaskQueue, task_id: u64) -> (r: Result<
        TaskMetadata,
        crate::task_queue::ContractError,
    >)
        requires
            queue.wf(),
        ensures
            !has_task(queue.tasks@, task_id) ==> r == Err::<
                TaskMetadata,
                crate::task_queue::ContractError,
            >(crate::task_queue::ContractError::TaskNotFound),
            has_task(queue.tasks@, task_id) ==> r == Ok::<
                TaskMetadata,
                crate::task_queue::ContractError,
            >(metadata_of(queue.tasks@[index_of(queue.tasks@, task_id)])),
    {
        queue.task_info(task_id)
    }
}

/// What a vote submission does, for an operator with voting power `power`:
/// refused without power, refused when the operator already voted on the
/// task, else appended to the votes. Nothing else changes.
pub open spec fn vote_recorded(
    before: OracleVerifier,
    after: OracleVerifier,
    power: u128,
    task_id: u64,
    operator: String,
    result: u128,
    r: Result<(), ContractError>,
) -> bool {
    &&& after.tasks@ == before.tasks@
    &&& after.slashed@ == before.slashed@
    &&& after.config == before.config
    &&& power == 0 ==> {
        &&& r == Err::<(), ContractError>(ContractError::Unauthorized)
        &&& after.votes@ == before.votes@
    }
    &&& power != 0 && has_vote(before.votes@, task_id, operator@) ==> {
        &&& r == Err::<(), ContractError>(ContractError::OperatorAlreadyVoted(operator))
        &&& after.votes@ == before.votes@
    }
    &&& power != 0 && !has_vote(before.votes@, task_id, operator@) ==> {
        &&& r is Ok
        &&& after.votes@ == before.votes@.push((OperatorVote { task_id, operator, result }))
    }
}

/// What processing a round does, against a total power `total_power`. Only
/// the registry's operator may process; a task without votes fails and
/// changes nothing; otherwise the deviating operators are flagged and the
/// round succeeds exactly when the support reaches the threshold and the
/// task's origin is known.
pub open spec fn tallied(
    before: OracleVerifier,
    after: OracleVerifier,
    total_power: u128,
    sender: Seq<char>,
    task_id: u64,
    r: Result<ProcessOutcome, ContractError>,
) -> bool {
    let results = task_results(before.votes@, task_id);
    let median = spec_consensus(results);
    let required = spec_mul_floor(total_power, before.config.threshold_percent);
    let support = aggregated_power(before.votes@, task_id, median);
    &&& after.votes@ == before.votes@
    &&& after.tasks@ == before.tasks@
    &&& after.config == before.config
    &&& sender != before.config.operator_contract@ ==> {
        &&& r == Err::<ProcessOutcome, ContractError>(ContractError::Unauthorized)
        &&& after.slashed@ == before.slashed@
    }
    &&& sender == before.config.operator_contract@ && results.len() == 0 ==> {
        &&& r == Err::<ProcessOutcome, ContractError>(ContractError::VoteProcessingFailed)
        &&& after.slashed@ == before.slashed@
    }
    &&& sender == before.config.operator_contract@ && results.len() > 0 ==> {
        &&& address_set(after.slashed@) == address_set(before.slashed@).union(
            flagged(before.votes@, task_id, median, before.config.allowed_spread),
        )
        &&& support < required ==> r == Err::<ProcessOutcome, ContractError>(
            ContractError::ThresholdNotMet,
        )
        &&& support >= required ==> match origin_of(before.tasks@, task_id) {
            Some(c) => (r matches Ok(o) && o.task_id == task_id && o.task_contract@ == c && o.median
                == median && o.threshold_met),
            None => r == Err::<ProcessOutcome, ContractError>(ContractError::VoteProcessingFailed),
        }
    }
}

/// A round for a task without votes leaves the flags as they were, whoever
/// asks; asked by the registry's operator, it fails as unprocessable.
pub proof fn lemma_empty_round_fails(
    before: OracleVerifier,
    after: OracleVerifier,
    total_power: u128,
    sender: Seq<char>,
    task_id: u64,
    r: Result<ProcessOutcome, ContractError>,
)
    requires
        tallied(before, after, total_power, sender, task_id, r),
        task_results(before.votes@, task_id).len() == 0,
    ensures
        after.slashed@ == before.slashed@,
        sender == before.config.operator_contract@ ==> r == Err::<ProcessOutcome, ContractError>(
            ContractError::VoteProcessingFailed,
        ),
{
}

/// Once a vote of `operator` for `task_id` is recorded, the votes hold one;
/// so a second submission for the same pair is refused as a repeated vote.
pub proof fn lemma_vote_is_write_once(
    before: Seq<OperatorVote>,
    after: Seq<OperatorVote>,
    task_id: u64,
    operator: String,
    result: u128,
)
    requires
        after == before.push((OperatorVote { task_id, operator, result })),
    ensures
        has_vote(after, task_id, operator@),
{
    assert(after[before.len() as int].task_id == task_id);
}

/// Among the votes of one round, an operator is flagged exactly when its
/// vote deviates from the consensus value by more than the allowed spread.
pub proof fn lemma_flagged_iff_deviates(
    votes: Seq<OperatorVote>,
    task_id: u64,
    median: u128,
    spread: u128,
    i: int,
)
    requires
        votes_unique(votes),
        0 <= i < votes.len(),
        votes[i].task_id == task_id,
    ensures
        flagged(votes, task_id, median, spread).contains(votes[i].operator@) <==> spec_abs_diff(
            votes[i].result,
            median,
        ) > spread,
{
    if flagged(votes, task_id, median, spread).contains(votes[i].operator@) {
        let k = choose|k: int|
            0 <= k < votes.len() && #[trigger] votes[k].task_id == task_id && votes[k].operator@
                == votes[i].operator@ && spec_abs_diff(votes[k].result, median) > spread;
        if k < i {
            assert(!(votes[k].task_id == votes[i].task_id && votes[k].operator@ == votes[i].operator@));
        } else if k > i {
            assert(!(votes[i].task_id == votes[k].task_id && votes[i].operator@ == votes[k].operator@));
        }
    }
}

} // verus!
