//! The operator registry: a fixed set of operators with voting power.
use vstd::prelude::*;

verus! {

/// A registered operator and its voting power.
pub struct Operator {
    pub address: String,
    pub power: u128,
}

/// An operator as given at instantiation, before its address is checked.
pub struct InstantiateOperator {
    pub addr: String,
    pub voting_power: u128,
}

/// One entry of the membership snapshot.
pub struct VoterInfo {
    pub address: String,
    pub power: u128,
}

/// Answer to a power query; `height` echoes the requested height (0 when
/// none was given), as no historical snapshots are kept.
pub struct PowerResponse {
    pub power: u128,
    pub height: u64,
}

/// A vote forwarded by a registered operator to the verifier.
pub struct SubmitVoteMsg {
    pub contract: String,
    pub task_id: u64,
    pub result: u128,
}

/// Builds the vote message that an operator sends to a verifier.
pub trait OracleVerifierInterface {
    fn submit_vote(&self, task_id: u64, result: u128) -> SubmitVoteMsg;
}

/// The address of an oracle verifier.
pub struct VerifierEndpoint {
    pub contract: String,
}

impl OracleVerifierInterface for VerifierEndpoint {
    fn submit_vote(&self, task_id: u64, result: u128) -> (r: SubmitVoteMsg)
        ensures
            r.contract@ == self.contract@,
            r.task_id == task_id,
            r.result == result,
    {
        SubmitVoteMsg { contract: self.contract.clone(), task_id, result }
    }
}

#[derive(Debug, PartialEq, Eq)]
pub enum ContractError {
    /// An operator address failed identity validation.
    InvalidAddress(String),
    /// The total voting power does not fit in 128 bits.
    PowerOverflow,
    Unauthorized,
}

/// Sum of the powers of a sequence of operators.
pub open spec fn sum_powers(ops: Seq<Operator>) -> int
    decreases ops.len(),
{
    if ops.len() == 0 {
        0
    } else {
        sum_powers(ops.drop_last()) + ops.last().power
    }
}

/// Sum of the voting powers of a sequence of instantiation entries.
pub open spec fn sum_voting_powers(ops: Seq<InstantiateOperator>) -> int
    decreases ops.len(),
{
    if ops.len() == 0 {
        0
    } else {
        sum_voting_powers(ops.drop_last()) + ops.last().voting_power
    }
}

/// The power of the first operator with the given address, or 0.
pub open spec fn power_of(ops: Seq<Operator>, address: Seq<char>) -> u128
    decreases ops.len(),
{
    if ops.len() == 0 {
        0
    } else if ops[0].address@ == address {
        ops[0].power
    } else {
        power_of(ops.drop_first(), address)
    }
}

/// Whether some operator has the given address.
pub open spec fn is_member(ops: Seq<Operator>, address: Seq<char>) -> bool {
    exists|i: int| 0 <= i < ops.len() && #[trigger] ops[i].address@ == address
}

/// The index of the first entry whose address failed validation, if any.
pub open spec fn first_invalid(valid: Seq<bool>) -> Option<int>
    decreases valid.len(),
{
    if valid.len() == 0 {
        None
    } else {
        match first_invalid(valid.drop_last()) {
            Some(i) => Some(i),
            None => if !valid.last() {
                Some(valid.len() - 1)
            } else {
                None
            },
        }
    }
}

/// Each address occurs once.
pub open spec fn distinct_addresses(ops: Seq<Operator>) -> bool {
    forall|i: int, j: int|
        0 <= i < j < ops.len() ==> #[trigger] ops[i].address@ != #[trigger] ops[j].address@
}

/// Once a prefix holds an invalid entry, the whole sequence has the same
/// first invalid entry.
proof fn lemma_first_invalid_prefix(valid: Seq<bool>, m: int)
    requires
        0 <= m <= valid.len(),
        first_invalid(valid.subrange(0, m)) is Some,
    ensures
        first_invalid(valid) == first_invalid(valid.subrange(0, m)),
    decreases valid.len() - m,
{
    if m < valid.len() {
        assert(valid.subrange(0, m + 1).drop_last() =~= valid.subrange(0, m));
        lemma_first_invalid_prefix(valid, m + 1);
    } else {
        assert(valid.subrange(0, m) =~= valid);
    }
}

/// A prefix has at most the voting power of the whole sequence.
proof fn lemma_sum_voting_powers_prefix(ops: Seq<InstantiateOperator>, m: int)
    requires
        0 <= m <= ops.len(),
    ensures
        sum_voting_powers(ops.subrange(0, m)) <= sum_voting_powers(ops),
    decreases ops.len() - m,
{
    if m < ops.len() {
        lemma_sum_voting_powers_prefix(ops, m + 1);
        assert(ops.subrange(0, m + 1).drop_last() =~= ops.subrange(0, m));
    } else {
        assert(ops.subrange(0, m) =~= ops);
    }
}

/// Whether the entry at `k` has the address of an earlier entry.
pub open spec fn repeats_earlier(ops: Seq<InstantiateOperator>, k: int) -> bool {
    exists|j: int| 0 <= j < k && #[trigger] ops[j].addr@ == ops[k].addr@
}

/// The index of the first entry whose address already occurred, if any.
pub open spec fn first_repeat(ops: Seq<InstantiateOperator>) -> Option<int>
    decreases ops.len(),
{
    if ops.len() == 0 {
        None
    } else {
        match first_repeat(ops.drop_last()) {
            Some(i) => Some(i),
            None => if repeats_earlier(ops, ops.len() - 1) {
                Some(ops.len() - 1)
            } else {
                None
            },
        }
    }
}

/// Once a prefix holds a repeated address, the whole sequence has the same
/// first repeat.
proof fn lemma_first_repeat_prefix(ops: Seq<InstantiateOperator>, m: int)
    requires
        0 <= m <= ops.len(),
        first_repeat(ops.subrange(0, m)) is Some,
    ensures
        first_repeat(ops) == first_repeat(ops.subrange(0, m)),
    decreases ops.len() - m,
{
    if m < ops.len() {
        assert(ops.subrange(0, m + 1).drop_last() =~= ops.subrange(0, m));
        lemma_first_repeat_prefix(ops, m + 1);
    } else {
        assert(ops.subrange(0, m) =~= ops);
    }
}

/// Without a repeat, all addresses differ.
proof fn lemma_no_repeat_distinct(ops: Seq<InstantiateOperator>)
    requires
        first_repeat(ops) is None,
    ensures
        forall|a: int, b: int| 0 <= a < b < ops.len() ==> #[trigger] ops[a].addr@ != #[trigger] ops[b].addr@,
    decreases ops.len(),
{
    if ops.len() > 0 {
        let init = ops.drop_last();
        lemma_no_repeat_distinct(init);
        assert forall|a: int, b: int| 0 <= a < b < ops.len() implies #[trigger] ops[a].addr@
            != #[trigger] ops[b].addr@ by {
            if b < ops.len() - 1 {
                assert(init[a] == ops[a] && init[b] == ops[b]);
            } else {
                assert(!repeats_earlier(ops, ops.len() - 1));
            }
        }
    }
}

/// A prefix has at most the power of the whole sequence.
proof fn lemma_sum_powers_prefix(ops: Seq<Operator>, m: int)
    requires
        0 <= m <= ops.len(),
    ensures
        sum_powers(ops.subrange(0, m)) <= sum_powers(ops),
    decreases ops.len() - m,
{
    if m < ops.len() {
        lemma_sum_powers_prefix(ops, m + 1);
        assert(ops.subrange(0, m + 1).drop_last() =~= ops.subrange(0, m));
    } else {
        assert(ops.subrange(0, m) =~= ops);
    }
}

pub struct Registry {
    pub operators: Vec<Operator>,
    pub total_power: u128,
    pub oracle_verifier: VerifierEndpoint,
}

impl Registry {
    /// The total power is the sum of the operators' powers, and each address
    /// is registered once.
    pub open spec fn wf(&self) -> bool {
        &&& self.total_power == sum_powers(self.operators@)
        &&& distinct_addresses(self.operators@)
    }

    /// Builds the registry. `address_valid[i]` is the outcome of identity
    /// validation of `operators[i].addr`, made by the host. An invalid
    /// address is refused first, then an address that repeats an earlier
    /// one, then a total power that does not fit.
    pub fn instantiate(
        operators: Vec<InstantiateOperator>,
        address_valid: &Vec<bool>,
        oracle_verifier: String,
    ) -> (r: Result<Registry, ContractError>)
        requires
            address_valid@.len() == operators@.len(),
        ensures
            match first_invalid(address_valid@) {
                Some(i) => r == Err::<Registry, ContractError>(
                    ContractError::InvalidAddress(operators@[i].addr),
                ),
                None => match first_repeat(operators@) {
                    Some(i) => r == Err::<Registry, ContractError>(
                        ContractError::InvalidAddress(operators@[i].addr),
                    ),
                    None => if sum_voting_powers(operators@) > u128::MAX {
                        r == Err::<Registry, ContractError>(ContractError::PowerOverflow)
                    } else {
                        r is Ok && r->Ok_0.wf() && r->Ok_0.oracle_verifier.contract
                            == oracle_verifier && r->Ok_0.operators@.len() == operators@.len()
                            && (forall|i: int|
                            0 <= i < operators@.len() ==> {
                                &&& (#[trigger] r->Ok_0.operators@[i]).address
                                    == operators@[i].addr
                                &&& r->Ok_0.operators@[i].power == operators@[i].voting_power
                            })
                    },
                },
            },
    {
        let n = operators.len();
        let mut k: usize = 0;
        while k < n
            invariant
                n == operators@.len(),
                address_valid@.len() == n,
                k <= n,
                first_invalid(address_valid@.subrange(0, k as int)) is None,
            decreases n - k,
        {
            assert(address_valid@.subrange(0, k as int + 1).drop_last() =~= address_valid@.subrange(
                0,
                k as int,
            ));
            if !address_valid[k] {
                proof {
                    lemma_first_invalid_prefix(address_valid@, k as int + 1);
                }
                return Err(ContractError::InvalidAddress(operators[k].addr.clone()));
            }
            k = k + 1;
        }
        assert(address_valid@.subrange(0, n as int) =~= address_valid@);
        let mut k: usize = 0;
        while k < n
            invariant
                n == operators@.len(),
                k <= n,
                first_repeat(operators@.subrange(0, k as int)) is None,
                first_invalid(address_valid@) is None,
            decreases n - k,
        {
            let ghost pre = operators@.subrange(0, k as int + 1);
            assert(pre.drop_last() =~= operators@.subrange(0, k as int));
            let mut j: usize = 0;
            while j < k
                invariant
                    n == operators@.len(),
                    k < n,
                    j <= k,
                    pre == operators@.subrange(0, k as int + 1),
                    pre.drop_last() == operators@.subrange(0, k as int),
                    first_repeat(operators@.subrange(0, k as int)) is None,
                    first_invalid(address_valid@) is None,
                    forall|l: int|
                        0 <= l < j ==> (#[trigger] operators@[l]).addr@ != operators@[k as int].addr@,
                decreases k - j,
            {
                if operators[j].addr == operators[k].addr {
                    proof {
                        assert(pre[j as int] == operators@[j as int]);
                        assert(pre[k as int] == operators@[k as int]);
                        assert(repeats_earlier(pre, k as int));
                        lemma_first_repeat_prefix(operators@, k as int + 1);
                    }
                    return Err(ContractError::InvalidAddress(operators[k].addr.clone()));
                }
                j = j + 1;
            }
            assert(!repeats_earlier(pre, k as int)) by {
                if repeats_earlier(pre, k as int) {
                    let l = choose|l: int| 0 <= l < k && #[trigger] pre[l].addr@ == pre[k as int].addr@;
                    assert(pre[l] == operators@[l]);
                    assert(pre[k as int] == operators@[k as int]);
                }
            }
            k = k + 1;
        }
        assert(operators@.subrange(0, n as int) =~= operators@);
        proof {
            lemma_no_repeat_distinct(operators@);
        }
        let mut ops: Vec<Operator> = Vec::new();
        let mut total: u128 = 0;
        let ghost src = operators@;
        let mut i: usize = 0;
        while i < n
            invariant
                n == src.len(),
                i <= n,
                operators@ == src,
                first_invalid(address_valid@) is None,
                first_repeat(src) is None,
                forall|a: int, b: int| 0 <= a < b < n ==> #[trigger] src[a].addr@ != #[trigger] src[b].addr@,
                ops@.len() == i,
                total == sum_voting_powers(src.subrange(0, i as int)),
                sum_voting_powers(src.subrange(0, i as int)) == sum_powers(ops@),
                forall|j: int|
                    0 <= j < i ==> {
                        &&& (#[trigger] ops@[j]).address == src[j].addr
                        &&& ops@[j].power == src[j].voting_power
                    },
            decreases n - i,
        {
            assert(src.subrange(0, i as int + 1).drop_last() =~= src.subrange(0, i as int));
            let power = operators[i].voting_power as u128;
            assert(sum_voting_powers(src.subrange(0, i as int + 1)) == sum_voting_powers(
                src.subrange(0, i as int),
            ) + src[i as int].voting_power);
            if total > u128::MAX - power {
                proof {
                    lemma_sum_voting_powers_prefix(src, i as int + 1);
                }
                return Err(ContractError::PowerOverflow);
            }
            total = total + power;
            let ghost prev = ops@;
            ops.push(Operator { address: operators[i].addr.clone(), power });
            assert(ops@.drop_last() =~= prev);
            i = i + 1;
        }
        assert(src.subrange(0, n as int) =~= src);
        assert(distinct_addresses(ops@)) by {
            assert forall|a: int, b: int| 0 <= a < b < ops@.len() implies #[trigger] ops@[a].address@
                != #[trigger] ops@[b].address@ by {
                assert(src[a].addr@ != src[b].addr@);
            }
        }
        Ok(Registry { operators: ops, total_power: total, oracle_verifier: VerifierEndpoint { contract: oracle_verifier } })
    }

    /// Whether the registry is well formed; for a registry read back from
    /// storage.
    pub fn is_wf(&self) -> (r: bool)
        ensures
            r == self.wf(),
    {
        let n = self.operators.len();
        let mut total: u128 = 0;
        let mut i: usize = 0;
        while i < n
            invariant
                n == self.operators@.len(),
                i <= n,
                total == sum_powers(self.operators@.subrange(0, i as int)),
            decreases n - i,
        {
            assert(self.operators@.subrange(0, i as int + 1).drop_last() =~= self.operators@.subrange(
                0,
                i as int,
            ));
            let power = self.operators[i].power;
            if total > u128::MAX - power {
                proof {
                    lemma_sum_powers_prefix(self.operators@, i as int + 1);
                }
                return false;
            }
            total = total + power;
            i = i + 1;
        }
        assert(self.operators@.subrange(0, n as int) =~= self.operators@);
        if total != self.total_power {
            return false;
        }
        let mut a: usize = 0;
        while a < n
            invariant
                n == self.operators@.len(),
                a <= n,
                forall|x: int, y: int|
                    0 <= x < y < a ==> #[trigger] self.operators@[x].address@
                        != #[trigger] self.operators@[y].address@,
            decreases n - a,
        {
            let mut b: usize = 0;
            while b < a
                invariant
                    n == self.operators@.len(),
                    a < n,
                    b <= a,
                    forall|x: int| 0 <= x < b ==> #[trigger] self.operators@[x].address@
                        != self.operators@[a as int].address@,
                decreases a - b,
            {
                if self.operators[b].address == self.operators[a].address {
                    return false;
                }
                b = b + 1;
            }
            a = a + 1;
        }
        true
    }

    /// Power of `address`, or 0 when it is not registered; `height` is
    /// echoed back, defaulting to 0.
    pub fn voting_power(&self, address: &String, height: Option<u64>) -> (r: PowerResponse)
        ensures
            r.power == power_of(self.operators@, address@),
            r.height == match height {
                Some(h) => h,
                None => 0,
            },
    {
        let echoed = match height {
            Some(h) => h,
            None => 0,
        };
        let n = self.operators.len();
        let mut i: usize = 0;
        assert(self.operators@.subrange(0, n as int) =~= self.operators@);
        while i < n
            invariant
                n == self.operators@.len(),
                i <= n,
                power_of(self.operators@, address@) == power_of(
                    self.operators@.subrange(i as int, n as int),
                    address@,
                ),
                echoed == match height {
                    Some(h) => h,
                    None => 0,
                },
            decreases n - i,
        {
            let ghost rest = self.operators@.subrange(i as int, n as int);
            assert(rest.drop_first() =~= self.operators@.subrange(i as int + 1, n as int));
            assert(rest[0] == self.operators@[i as int]);
            if self.operators[i].address == *address {
                return PowerResponse { power: self.operators[i].power, height: echoed };
            }
            i = i + 1;
        }
        assert(self.operators@.subrange(n as int, n as int).len() == 0);
        PowerResponse { power: 0, height: echoed }
    }

    /// The fixed total power; `height` is echoed back, defaulting to 0.
    pub fn total_power(&self, height: Option<u64>) -> (r: PowerResponse)
        ensures
            r.power == self.total_power,
            r.height == match height {
                Some(h) => h,
                None => 0,
            },
    {
        let height = match height {
            Some(h) => h,
            None => 0,
        };
        PowerResponse { power: self.total_power, height }
    }

    /// The full membership, in registration order.
    pub fn all_voters(&self) -> (r: Vec<VoterInfo>)
        ensures
            voters_of(self.operators@, r@),
    {
        let n = self.operators.len();
        let mut out: Vec<VoterInfo> = Vec::new();
        let mut i: usize = 0;
        while i < n
            invariant
                n == self.operators@.len(),
                i <= n,
                out@.len() == i,
                forall|j: int|
                    0 <= j < i ==> {
                        &&& (#[trigger] out@[j]).address@ == self.operators@[j].address@
                        &&& out@[j].power == self.operators@[j].power
                    },
            decreases n - i,
        {
            out.push(
                VoterInfo { address: self.operators[i].address.clone(), power: self.operators[i].power },
            );
            i = i + 1;
        }
        out
    }

    /// A registered operator hands a vote to the verifier; anyone else is
    /// refused.
    pub fn submit_vote(&self, sender: &String, task_id: u64, result: u128) -> (r: Result<
        SubmitVoteMsg,
        ContractError,
    >)
        ensures
            !is_member(self.operators@, sender@) ==> r == Err::<SubmitVoteMsg, ContractError>(
                ContractError::Unauthorized,
            ),
            is_member(self.operators@, sender@) ==> (r matches Ok(m) && m.contract@
                == self.oracle_verifier.contract@ && m.task_id == task_id && m.result == result),
    {
        let n = self.operators.len();
        let mut i: usize = 0;
        while i < n
            invariant
                n == self.operators@.len(),
                i <= n,
                forall|j: int| 0 <= j < i ==> (#[trigger] self.operators@[j]).address@ != sender@,
            decreases n - i,
        {
            if self.operators[i].address == *sender {
                return Ok(self.oracle_verifier.submit_vote(task_id, result));
            }
            i = i + 1;
        }
        Err(ContractError::Unauthorized)
    }
}

/// `voters` lists each operator's address and power, in order.
pub open spec fn voters_of(ops: Seq<Operator>, voters: Seq<VoterInfo>) -> bool {
    &&& voters.len() == ops.len()
    &&& forall|j: int|
        0 <= j < ops.len() ==> {
            &&& (#[trigger] voters[j]).address@ == ops[j].address@
            &&& voters[j].power == ops[j].power
        }
}

/// Sum of the voting power that a lookup gives for each voter's address.
pub open spec fn sum_looked_up(ops: Seq<Operator>, voters: Seq<VoterInfo>) -> int
    decreases voters.len(),
{
    if voters.len() == 0 {
        0
    } else {
        sum_looked_up(ops, voters.drop_last()) + power_of(ops, voters.last().address@)
    }
}

/// With distinct addresses, looking up an operator's address gives its power.
proof fn lemma_power_of_member(ops: Seq<Operator>, i: int)
    requires
        distinct_addresses(ops),
        0 <= i < ops.len(),
    ensures
        power_of(ops, ops[i].address@) == ops[i].power,
    decreases i,
{
    if i > 0 {
        assert(ops[0].address@ != ops[i].address@);
        let rest = ops.drop_first();
        assert(rest[i - 1] == ops[i]);
        assert(distinct_addresses(rest)) by {
            assert forall|a: int, b: int| 0 <= a < b < rest.len() implies #[trigger] rest[a].address@
                != #[trigger] rest[b].address@ by {
                assert(rest[a] == ops[a + 1] && rest[b] == ops[b + 1]);
            }
        }
        lemma_power_of_member(rest, i - 1);
    }
}

/// The registry's total power equals the sum, over the membership snapshot,
/// of the voting power looked up for each member.
pub proof fn lemma_total_power_is_sum_of_voters(reg: Registry, voters: Seq<VoterInfo>)
    requires
        reg.wf(),
        voters_of(reg.operators@, voters),
    ensures
        reg.total_power == sum_looked_up(reg.operators@, voters),
{
    let ops = reg.operators@;
    assert forall|m: int| 0 <= m <= ops.len() implies sum_looked_up(ops, #[trigger] voters.subrange(0, m))
        == sum_powers(ops.subrange(0, m)) by {
        lemma_sum_prefix(ops, voters, m);
    }
    assert(voters.subrange(0, ops.len() as int) =~= voters);
    assert(ops.subrange(0, ops.len() as int) =~= ops);
}

proof fn lemma_sum_prefix(ops: Seq<Operator>, voters: Seq<VoterInfo>, m: int)
    requires
        distinct_addresses(ops),
        voters_of(ops, voters),
        0 <= m <= ops.len(),
    ensures
        sum_looked_up(ops, voters.subrange(0, m)) == sum_powers(ops.subrange(0, m)),
    decreases m,
{
    if m > 0 {
        lemma_sum_prefix(ops, voters, m - 1);
        assert(voters.subrange(0, m).drop_last() =~= voters.subrange(0, m - 1));
        assert(ops.subrange(0, m).drop_last() =~= ops.subrange(0, m - 1));
        lemma_power_of_member(ops, m - 1);
    }
}

} // verus!
