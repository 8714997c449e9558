//! The records that the ledger keeps: network membership, training requests
//! and governance proposals.

use vstd::prelude::*;
use crate::account::{account_set, accounts_are_distinct, distinct_accounts, distinct_keys, find_account, insert_account, keys_are_distinct, remove_account};

verus! {

/// No account has two entries in `entries`.
pub open spec fn distinct_stake_keys(entries: Seq<(String, u128)>) -> bool {
    forall|i: int, j: int|
        0 <= i < entries.len() && 0 <= j < entries.len() && i != j ==> (#[trigger] entries[i]).0@
            != (#[trigger] entries[j]).0@
}

/// Whether `entries` holds an amount for account `a`.
pub open spec fn has_stake(entries: Seq<(String, u128)>, a: Seq<char>) -> bool {
    exists|i: int| 0 <= i < entries.len() && (#[trigger] entries[i]).0@ == a
}

/// The map from accounts to staked amounts that `entries` stands for.
pub open spec fn stake_map(entries: Seq<(String, u128)>) -> Map<Seq<char>, u128> {
    Map::new(
        |a: Seq<char>| has_stake(entries, a),
        |a: Seq<char>|
            entries[choose|i: int| 0 <= i < entries.len() && (#[trigger] entries[i]).0@ == a].1,
    )
}

/// With distinct keys, the entry at position `i` is what the map holds for
/// its account.
pub proof fn lemma_stake_map_entry(entries: Seq<(String, u128)>, i: int)
    requires
        distinct_stake_keys(entries),
        0 <= i < entries.len(),
    ensures
        stake_map(entries).dom().contains(entries[i].0@),
        stake_map(entries)[entries[i].0@] == entries[i].1,
{
    let a = entries[i].0@;
    assert(has_stake(entries, a));
    let j = choose|j: int| 0 <= j < entries.len() && (#[trigger] entries[j]).0@ == a;
    assert(j == i);
}

/// The position of the entry for `name`, if there is one.
pub fn find_stake(entries: &Vec<(String, u128)>, name: &String) -> (found: Option<usize>)
    ensures
        match found {
            Some(i) => i < entries.len() && entries@[i as int].0@ == name@,
            None => !has_stake(entries@, name@),
        },
{
    let mut i: usize = 0;
    while i < entries.len()
        invariant
            i <= entries.len(),
            forall|j: int| 0 <= j < i ==> (#[trigger] entries@[j]).0@ != name@,
        decreases entries.len() - i,
    {
        if entries[i].0 == *name {
            return Some(i);
        }
        i += 1;
    }
    None
}

/// The admitted workers and what each has staked.
#[derive(Clone, Debug)]
pub struct NetworkState {
    pub workers: Vec<String>,
    pub stake: Vec<(String, u128)>,
}

impl NetworkState {
    /// Neither collection names an account twice.
    pub open spec fn wf(&self) -> bool {
        &&& distinct_accounts(self.workers@)
        &&& distinct_stake_keys(self.stake@)
    }

    /// The admitted workers.
    pub open spec fn worker_set(&self) -> Set<Seq<char>> {
        account_set(self.workers@)
    }

    /// The staked amount of each account that has one.
    pub open spec fn stakes(&self) -> Map<Seq<char>, u128> {
        stake_map(self.stake@)
    }

    /// Whether neither collection names an account twice.
    pub fn is_well_formed(&self) -> (ok: bool)
        ensures
            ok == self.wf(),
    {
        assert(distinct_keys(self.stake@) == distinct_stake_keys(self.stake@));
        accounts_are_distinct(&self.workers) && keys_are_distinct(&self.stake)
    }

    /// A network without workers.
    pub fn new() -> (network: Self)
        ensures
            network.wf(),
            network.worker_set() == Set::<Seq<char>>::empty(),
            network.stakes() == Map::<Seq<char>, u128>::empty(),
    {
        let network = NetworkState { workers: Vec::new(), stake: Vec::new() };
        proof {
            assert(network.worker_set() =~= Set::<Seq<char>>::empty());
            assert(network.stakes() =~= Map::<Seq<char>, u128>::empty());
        }
        network
    }

    /// Whether `account` is an admitted worker.
    pub fn is_worker(&self, account: &String) -> (member: bool)
        ensures
            member == self.worker_set().contains(account@),
    {
        find_account(&self.workers, account).is_some()
    }

    /// What `account` has staked, if anything.
    pub fn stake_of(&self, account: &String) -> (amount: Option<u128>)
        requires
            self.wf(),
        ensures
            amount == (if self.stakes().dom().contains(account@) {
                Some(self.stakes()[account@])
            } else {
                None
            }),
    {
        match find_stake(&self.stake, account) {
            Some(i) => {
                proof {
                    lemma_stake_map_entry(self.stake@, i as int);
                }
                Some(self.stake[i].1)
            },
            None => None,
        }
    }

    /// Makes `worker` a member and records `amount` as its stake, replacing
    /// an earlier amount.
    pub fn add_member(&mut self, worker: String, amount: u128)
        requires
            old(self).wf(),
        ensures
            final(self).wf(),
            final(self).worker_set() == old(self).worker_set().insert(worker@),
            final(self).stakes() == old(self).stakes().insert(worker@, amount),
    {
        let ghost before = self.stake@;
        let ghost name = worker@;
        let found = find_stake(&self.stake, &worker);
        match found {
            Some(i) => {
                self.stake.set(i, (worker.clone(), amount));
            },
            None => {
                self.stake.push((worker.clone(), amount));
            },
        }
        insert_account(&mut self.workers, worker);
        proof {
            let after = self.stake@;
            let k: int = match found {
                Some(i) => i as int,
                None => before.len() as int,
            };
            assert(after[k].0@ == name && after[k].1 == amount);
            assert forall|j: int| 0 <= j < after.len() && j != k implies j < before.len()
                && after[j] == before[j] by {}
            assert(distinct_stake_keys(after));
            assert forall|a: Seq<char>| has_stake(after, a) == (a == name || has_stake(before, a)) by {
                if has_stake(after, a) && a != name {
                    let j = choose|j: int| 0 <= j < after.len() && (#[trigger] after[j]).0@ == a;
                    assert(before[j].0@ == a);
                }
                if has_stake(before, a) && a != name {
                    let j = choose|j: int| 0 <= j < before.len() && (#[trigger] before[j]).0@ == a;
                    assert(after[j].0@ == a);
                }
            }
            assert forall|a: Seq<char>| has_stake(after, a) implies #[trigger] stake_map(after)[a]
                == stake_map(before).insert(name, amount)[a] by {
                let j = choose|j: int| 0 <= j < after.len() && (#[trigger] after[j]).0@ == a;
                lemma_stake_map_entry(after, j);
                if a != name {
                    lemma_stake_map_entry(before, j);
                } else {
                    assert(j == k);
                }
            }
            assert(stake_map(after) =~= stake_map(before).insert(name, amount));
        }
    }

    /// Ends the membership of `worker` and forgets its stake. A worker that
    /// is not a member leaves the network as it was.
    pub fn remove_member(&mut self, worker: &String)
        requires
            old(self).wf(),
        ensures
            final(self).wf(),
            final(self).worker_set() == old(self).worker_set().remove(worker@),
            final(self).stakes() == old(self).stakes().remove(worker@),
    {
        let ghost before = self.stake@;
        let ghost name = worker@;
        remove_account(&mut self.workers, worker);
        let found = find_stake(&self.stake, worker);
        match found {
            Some(i) => {
                self.stake.remove(i);
                proof {
                    let after = self.stake@;
                    let k = i as int;
                    assert forall|j: int| 0 <= j < after.len() implies after[j] == before[if j < k {
                        j
                    } else {
                        j + 1
                    }] by {}
                    assert forall|x: int, y: int|
                        0 <= x < after.len() && 0 <= y < after.len() && x != y implies (
                    #[trigger] after[x]).0@ != (#[trigger] after[y]).0@ by {
                        let x0 = if x < k { x } else { x + 1 };
                        let y0 = if y < k { y } else { y + 1 };
                        assert(after[x] == before[x0]);
                        assert(after[y] == before[y0]);
                    }
                    assert forall|a: Seq<char>| has_stake(after, a) == (a != name && has_stake(
                        before,
                        a,
                    )) by {
                        if has_stake(after, a) {
                            let j = choose|j: int|
                                0 <= j < after.len() && (#[trigger] after[j]).0@ == a;
                            let j0 = if j < k { j } else { j + 1 };
                            assert(before[j0].0@ == a);
                            assert(j0 != k);
                        }
                        if has_stake(before, a) && a != name {
                            let j = choose|j: int|
                                0 <= j < before.len() && (#[trigger] before[j]).0@ == a;
                            let j1 = if j < k { j } else { j - 1 };
                            assert(after[j1].0@ == a);
                        }
                    }
                    assert forall|a: Seq<char>| has_stake(after, a) implies #[trigger] stake_map(
                        after,
                    )[a] == stake_map(before)[a] by {
                        let j = choose|j: int|
                            0 <= j < after.len() && (#[trigger] after[j]).0@ == a;
                        let j0 = if j < k { j } else { j + 1 };
                        lemma_stake_map_entry(after, j);
                        lemma_stake_map_entry(before, j0);
                    }
                    assert(stake_map(after) =~= stake_map(before).remove(name));
                }
            },
            None => {
                proof {
                    assert(stake_map(before) =~= stake_map(before).remove(name));
                }
            },
        }
    }
}

/// A dataset and the key under which it was encrypted.
#[derive(Debug, PartialEq, Eq, Hash)]
pub struct ModelData {
    /// Content identifier of the dataset.
    pub dataset: String,
    /// The submitter's compressed secret key, serialized.
    pub compressed_secret_key: Vec<u8>,
}

impl View for ModelData {
    type V = (Seq<char>, Seq<u8>);

    open spec fn view(&self) -> (Seq<char>, Seq<u8>) {
        (self.dataset@, self.compressed_secret_key@)
    }
}

/// A copy of `bytes`.
pub fn copy_bytes(bytes: &Vec<u8>) -> (copy: Vec<u8>)
    ensures
        copy@ == bytes@,
{
    let mut copy: Vec<u8> = Vec::new();
    let mut i: usize = 0;
    while i < bytes.len()
        invariant
            i <= bytes.len(),
            copy@ == bytes@.take(i as int),
        decreases bytes.len() - i,
    {
        copy.push(bytes[i]);
        i += 1;
        assert(copy@ =~= bytes@.take(i as int));
    }
    assert(bytes@.take(bytes.len() as int) =~= bytes@);
    copy
}

impl ModelData {
    /// Whether both hold the same dataset identifier and the same key bytes.
    pub fn same_content(&self, other: &ModelData) -> (same: bool)
        ensures
            same == (self@ == other@),
    {
        if self.dataset != other.dataset {
            return false;
        }
        if self.compressed_secret_key.len() != other.compressed_secret_key.len() {
            return false;
        }
        let mut i: usize = 0;
        while i < self.compressed_secret_key.len()
            invariant
                i <= self.compressed_secret_key.len(),
                self.compressed_secret_key.len() == other.compressed_secret_key.len(),
                forall|j: int|
                    0 <= j < i ==> self.compressed_secret_key@[j] == other.compressed_secret_key@[j],
            decreases self.compressed_secret_key.len() - i,
        {
            if self.compressed_secret_key[i] != other.compressed_secret_key[i] {
                return false;
            }
            i += 1;
        }
        assert(self.compressed_secret_key@ =~= other.compressed_secret_key@);
        true
    }
}

impl Clone for ModelData {
    fn clone(&self) -> (copy: Self)
        ensures
            copy@ == self@,
    {
        ModelData {
            dataset: self.dataset.clone(),
            compressed_secret_key: copy_bytes(&self.compressed_secret_key),
        }
    }
}

/// How far a training request has come.
#[derive(Clone, Copy, Debug, PartialEq, Eq, Structural)]
pub enum ModelStatus {
    /// Submitted, waiting for the workers.
    Pending,
    Training,
    Finished,
}

/// One training request.
#[derive(Clone, Debug)]
pub struct RequestsState {
    pub status: ModelStatus,
    /// The assigned workers, each once.
    pub workers: Vec<String>,
    /// What each submitter handed in, by submitter.
    pub datasets: Vec<(String, ModelData)>,
    /// Content identifiers of the results, oldest first.
    pub model_cid: Vec<String>,
    pub creator: String,
    pub epochs: u32,
}

impl RequestsState {
    /// No worker is assigned twice, and no submitter has two datasets.
    pub open spec fn wf(&self) -> bool {
        &&& distinct_accounts(self.workers@)
        &&& distinct_keys(self.datasets@)
    }

    /// Whether no worker is assigned twice and no submitter has two
    /// datasets.
    pub fn is_well_formed(&self) -> (ok: bool)
        ensures
            ok == self.wf(),
    {
        accounts_are_distinct(&self.workers) && keys_are_distinct(&self.datasets)
    }

    /// The assigned workers.
    pub open spec fn worker_set(&self) -> Set<Seq<char>> {
        account_set(self.workers@)
    }
}

/// What a proposal asks for.
#[derive(Debug, PartialEq, Eq)]
pub enum ProposalType {
    AddWorker(String, u128),
    RemoveWorker(String),
    ChangeBaseFee(u128),
    ChangeStakeAmount(u128),
}

impl Clone for ProposalType {
    fn clone(&self) -> (copy: Self)
        ensures
            copy == *self,
    {
        match self {
            ProposalType::AddWorker(worker, stake) => ProposalType::AddWorker(
                worker.clone(),
                *stake,
            ),
            ProposalType::RemoveWorker(worker) => ProposalType::RemoveWorker(worker.clone()),
            ProposalType::ChangeBaseFee(fee) => ProposalType::ChangeBaseFee(*fee),
            ProposalType::ChangeStakeAmount(stake) => ProposalType::ChangeStakeAmount(*stake),
        }
    }
}

#[derive(Clone, Copy, Debug, PartialEq, Eq, Structural)]
pub enum ProposalStatus {
    Pending,
    Approved,
    Rejected,
}

#[derive(Clone, Copy, Debug, PartialEq, Eq, Structural)]
pub enum Vote {
    For,
    Against,
}

/// A governance proposal with its tally.
#[derive(Clone, Debug)]
pub struct Proposal {
    pub proposal_id: u32,
    pub proposal_type: ProposalType,
    pub proposar: String,
    pub status: ProposalStatus,
    pub votes: Vec<(String, Vote)>,
    pub for_votes: u32,
    pub angaist_votes: u32,
}

impl Proposal {
    /// No voter has two votes.
    pub open spec fn wf(&self) -> bool {
        distinct_keys(self.votes@)
    }

    /// Whether no voter has two votes.
    pub fn is_well_formed(&self) -> (ok: bool)
        ensures
            ok == self.wf(),
    {
        keys_are_distinct(&self.votes)
    }

    /// A pending proposal on which nobody has voted.
    pub fn new(proposal_id: u32, proposal_type: ProposalType, proposar: String) -> (proposal: Self)
        ensures
            proposal.wf(),
            proposal.proposal_id == proposal_id,
            proposal.proposal_type == proposal_type,
            proposal.proposar == proposar,
            proposal.status == ProposalStatus::Pending,
            proposal.votes@.len() == 0,
            proposal.for_votes == 0,
            proposal.angaist_votes == 0,
    {
        Proposal {
            proposal_id,
            proposal_type,
            proposar,
            status: ProposalStatus::Pending,
            votes: Vec::new(),
            for_votes: 0,
            angaist_votes: 0,
        }
    }

    /// The tally rule: more votes for than against. A tie is a rejection.
    pub open spec fn accepted(&self) -> bool {
        self.for_votes > self.angaist_votes
    }

    /// Whether the votes cast so far carry the proposal.
    pub fn is_accepted(&self) -> (yes: bool)
        ensures
            yes == self.accepted(),
    {
        self.for_votes > self.angaist_votes
    }
}

/// The proposals and the parameters that governance controls.
#[derive(Clone, Debug)]
pub struct GovernanceState {
    pub proposals: Vec<Proposal>,
    pub base_fee: u128,
    /// The only account that may execute proposals.
    pub admin: String,
    pub staking_fee: u128,
}

} // verus!
