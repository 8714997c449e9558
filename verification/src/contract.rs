//! The ledger's entry points: training requests and governance.
//!
//! Every entry point takes the calling account, and the deposit where one is
//! attached, as arguments. A call that fails leaves the contract as it was.

use std::collections::HashMap;
use vstd::prelude::*;
use crate::account::{account_set, all_valid, all_valid_accounts, distinct_accounts, find_account, insert_account, is_valid_account, valid_account_id};
use crate::state::{GovernanceState, ModelData, ModelStatus, NetworkState, Proposal, ProposalStatus, ProposalType, RequestsState};

verus! {

broadcast use vstd::std_specs::hash::group_hash_axioms;

/// Why an entry point refused a call.
#[derive(Clone, Copy, Debug, PartialEq, Eq, Structural)]
pub enum ContractError {
    /// The deposit does not cover the fee of the request.
    InsufficientDeposit,
    /// The deposit is below the staking fee.
    InsufficientStake,
    /// The caller may not make this call.
    Unauthorized,
    /// No request or proposal has this id.
    NotFound,
    /// A name is not a well-formed account id.
    InvalidAccount,
}

/// The whole state of the ledger.
#[derive(Debug)]
pub struct Contract {
    pub network: NetworkState,
    pub requests: HashMap<u32, RequestsState>,
    pub current_request_id: u32,
    pub governance: GovernanceState,
}

/// The deposit that a request for `epochs` epochs on `workers` workers costs.
pub open spec fn required_deposit(base_fee: u128, epochs: u32, workers: nat) -> int {
    base_fee * epochs * workers
}

/// The submissions that are accepted: the deposit covers the fee and every
/// worker is a well-formed account id.
pub open spec fn accepts_request(
    base_fee: u128,
    deposit: u128,
    epochs: u32,
    workers: Seq<String>,
) -> bool {
    deposit >= required_deposit(base_fee, epochs, workers.len()) && all_valid(workers)
}

/// Where every worker is a well-formed account id, the deposit alone decides
/// whether a submission is accepted.
pub proof fn lemma_deposit_decides(base_fee: u128, deposit: u128, epochs: u32, workers: Seq<String>)
    requires
        all_valid(workers),
    ensures
        accepts_request(base_fee, deposit, epochs, workers) <==> deposit >= base_fee * epochs
            * workers.len(),
{
}

/// Whether `deposit` covers the fee of a request.
pub fn covers_fee(deposit: u128, base_fee: u128, epochs: u32, workers: usize) -> (enough: bool)
    ensures
        enough == (deposit >= required_deposit(base_fee, epochs, workers as nat)),
{
    if base_fee == 0 || epochs == 0 || workers == 0 {
        assert(base_fee * epochs * workers == 0) by (nonlinear_arith)
            requires
                base_fee == 0 || epochs == 0 || workers == 0,
        ;
        return true;
    }
    let per_worker = match base_fee.checked_mul(epochs as u128) {
        Some(v) => v,
        None => {
            assert(base_fee * epochs * workers > u128::MAX) by (nonlinear_arith)
                requires
                    base_fee * epochs > u128::MAX,
                    workers >= 1,
            ;
            return false;
        },
    };
    match per_worker.checked_mul(workers as u128) {
        Some(total) => deposit >= total,
        None => false,
    }
}

/// The names of `names`, each once, in the order of their first occurrence.
pub fn distinct_names(names: &Vec<String>) -> (set: Vec<String>)
    ensures
        distinct_accounts(set@),
        account_set(set@) == account_set(names@),
{
    let mut set: Vec<String> = Vec::new();
    let mut i: usize = 0;
    assert(account_set(set@) =~= account_set(names@.take(0)));
    while i < names.len()
        invariant
            i <= names.len(),
            distinct_accounts(set@),
            account_set(set@) == account_set(names@.take(i as int)),
        decreases names.len() - i,
    {
        insert_account(&mut set, names[i].clone());
        proof {
            let shorter = names@.take(i as int);
            let longer = names@.take(i + 1);
            let name = names@[i as int]@;
            assert forall|a: Seq<char>|
                account_set(longer).contains(a) == account_set(shorter).insert(name).contains(
                    a,
                ) by {
                if account_set(longer).contains(a) {
                    let j = choose|j: int| 0 <= j < longer.len() && #[trigger] longer[j]@ == a;
                    if j < i {
                        assert(shorter[j]@ == a);
                    }
                }
                if account_set(shorter).contains(a) {
                    let j = choose|j: int| 0 <= j < shorter.len() && #[trigger] shorter[j]@ == a;
                    assert(longer[j]@ == a);
                }
                if a == name {
                    assert(longer[i as int]@ == a);
                }
            }
            assert(account_set(longer) =~= account_set(shorter).insert(name));
        }
        i += 1;
    }
    assert(names@.take(names.len() as int) =~= names@);
    set
}

/// The ids below `count`.
pub open spec fn ids_below(count: u32) -> Set<u32> {
    Set::new(|id: u32| id < count)
}

/// There are `count` ids below `count`.
pub proof fn lemma_ids_below(count: u32)
    ensures
        ids_below(count).finite(),
        ids_below(count).len() == count,
    decreases count,
{
    if count == 0 {
        assert(ids_below(count) =~= Set::<u32>::empty());
    } else {
        let fewer = (count - 1) as u32;
        lemma_ids_below(fewer);
        assert(ids_below(count) =~= ids_below(fewer).insert(fewer));
    }
}

/// What a successful submission does to the ledger: the request is stored
/// under the counter's value, pending and without results, the counter goes
/// up by one, and nothing else changes.
pub open spec fn request_added(
    before: Contract,
    after: Contract,
    sender: Seq<char>,
    epochs: u32,
    dataset_cid: Seq<char>,
    compressed_sk: Seq<u8>,
    workers: Set<Seq<char>>,
) -> bool {
    let id = before.current_request_id;
    let request = after.requests@[id];
    &&& after.current_request_id == id + 1
    &&& after.network == before.network
    &&& after.governance == before.governance
    &&& after.requests@ == before.requests@.insert(id, request)
    &&& request.status == ModelStatus::Pending
    &&& request.worker_set() == workers
    &&& request.datasets@.len() == 1
    &&& request.datasets@[0].0@ == sender
    &&& request.datasets@[0].1@ == (dataset_cid, compressed_sk)
    &&& request.model_cid@.len() == 0
    &&& request.creator@ == sender
    &&& request.epochs == epochs
}

/// What completing request `request_id` does to the ledger: the request is
/// finished, `model_cid` is its newest result, and nothing else changes.
pub open spec fn request_completed(
    before: Contract,
    after: Contract,
    request_id: u32,
    model_cid: String,
) -> bool {
    let was = before.requests@[request_id];
    let is = after.requests@[request_id];
    &&& after.current_request_id == before.current_request_id
    &&& after.network == before.network
    &&& after.governance == before.governance
    &&& after.requests@ == before.requests@.insert(request_id, is)
    &&& is.status == ModelStatus::Finished
    &&& is.model_cid@ == was.model_cid@.push(model_cid)
    &&& is.workers == was.workers
    &&& is.datasets == was.datasets
    &&& is.creator == was.creator
    &&& is.epochs == was.epochs
}

impl Contract {
    /// The invariant of the ledger: the network names no account twice, the
    /// requests are those with an id below the counter, each well-formed, and
    /// every proposal carries its position as its id.
    pub open spec fn wf(&self) -> bool {
        &&& self.network.wf()
        &&& forall|id: u32| self.requests@.contains_key(id) <==> id < self.current_request_id
        &&& forall|id: u32| self.requests@.contains_key(id) ==> (#[trigger] self.requests@[id]).wf()
        &&& self.governance.proposals@.len() <= u32::MAX
        &&& forall|i: int|
            0 <= i < self.governance.proposals@.len() ==> (
            #[trigger] self.governance.proposals@[i]).proposal_id == i
                && self.governance.proposals@[i].wf()
    }

    /// Whether the invariant of the ledger holds.
    pub fn is_well_formed(&self) -> (ok: bool)
        ensures
            ok == self.wf(),
    {
        if !self.network.is_well_formed() {
            return false;
        }
        if self.governance.proposals.len() > 0xffff_ffff {
            return false;
        }
        let mut i: usize = 0;
        while i < self.governance.proposals.len()
            invariant
                i <= self.governance.proposals.len(),
                self.governance.proposals.len() <= u32::MAX,
                forall|j: int|
                    0 <= j < i ==> (#[trigger] self.governance.proposals@[j]).proposal_id == j
                        && self.governance.proposals@[j].wf(),
            decreases self.governance.proposals.len() - i,
        {
            let proposal = &self.governance.proposals[i];
            if proposal.proposal_id as usize != i || !proposal.is_well_formed() {
                return false;
            }
            i += 1;
        }
        let count = self.current_request_id;
        proof {
            lemma_ids_below(count);
        }
        if self.requests.len() != count as usize {
            proof {
                if self.wf() {
                    assert(self.requests@.dom() =~= ids_below(count));
                }
            }
            return false;
        }
        let mut id: u32 = 0;
        while id < count
            invariant
                id <= count,
                count == self.current_request_id,
                forall|k: u32| k < id ==> #[trigger] self.requests@.contains_key(k),
                forall|k: u32| k < id ==> (#[trigger] self.requests@[k]).wf(),
            decreases count - id,
        {
            match self.requests.get(&id) {
                Some(request) => {
                    assert(self.requests@.contains_key(id) && *request == self.requests@[id]);
                    if !request.is_well_formed() {
                        assert(!self.requests@[id].wf());
                        return false;
                    }
                },
                None => {
                    proof {
                        if self.wf() {
                            assert(self.requests@.contains_key(id));
                        }
                    }
                    return false;
                },
            }
            id += 1;
        }
        proof {
            assert forall|k: u32| ids_below(count).contains(k) implies self.requests@.dom().contains(
                k,
            ) by {
                assert(self.requests@.contains_key(k));
            }
            assert(ids_below(count).subset_of(self.requests@.dom()));
            vstd::set_lib::lemma_subset_equality(ids_below(count), self.requests@.dom());
            assert forall|k: u32| self.requests@.contains_key(k) <==> k < count by {
                assert(ids_below(count).contains(k) == (k < count));
            }
        }
        true
    }

    /// A ledger without workers, requests or proposals.
    pub fn new(admin: String, base_fee: u128, staking_fee: u128) -> (contract: Self)
        ensures
            contract.wf(),
            contract.network.worker_set() == Set::<Seq<char>>::empty(),
            contract.network.stakes() == Map::<Seq<char>, u128>::empty(),
            contract.requests@ == Map::<u32, RequestsState>::empty(),
            contract.current_request_id == 0,
            contract.governance.proposals@.len() == 0,
            contract.governance.admin == admin,
            contract.governance.base_fee == base_fee,
            contract.governance.staking_fee == staking_fee,
    {
        Contract {
            network: NetworkState::new(),
            requests: HashMap::new(),
            current_request_id: 0,
            governance: GovernanceState { proposals: Vec::new(), base_fee, admin, staking_fee },
        }
    }

    /// Submits a training request and returns its id.
    ///
    /// The deposit must cover `base_fee × epochs × workers.len()`, and every
    /// worker must be a well-formed account id. The fee is tested first. Once
    /// the largest id has been given out, only submissions that are refused
    /// can still be made.
    pub fn add_request(
        &mut self,
        sender: String,
        deposit: u128,
        epochs: u32,
        dataset_cid: String,
        compressed_sk: Vec<u8>,
        workers: Vec<String>,
    ) -> (result: Result<u32, ContractError>)
        requires
            old(self).wf(),
            old(self).current_request_id == u32::MAX ==> !accepts_request(
                old(self).governance.base_fee,
                deposit,
                epochs,
                workers@,
            ),
        ensures
            final(self).wf(),
            result == (if deposit < required_deposit(
                old(self).governance.base_fee,
                epochs,
                workers@.len(),
            ) {
                Err(ContractError::InsufficientDeposit)
            } else if !all_valid(workers@) {
                Err(ContractError::InvalidAccount)
            } else {
                Ok(old(self).current_request_id)
            }),
            result is Ok <==> accepts_request(
                old(self).governance.base_fee,
                deposit,
                epochs,
                workers@,
            ),
            id_issued(*old(self), *final(self), result),
            result is Err ==> *final(self) == *old(self),
            result is Ok ==> request_added(
                *old(self),
                *final(self),
                sender@,
                epochs,
                dataset_cid@,
                compressed_sk@,
                account_set(workers@),
            ),
    {
        if !covers_fee(deposit, self.governance.base_fee, epochs, workers.len()) {
            return Err(ContractError::InsufficientDeposit);
        }
        if !all_valid_accounts(&workers) {
            return Err(ContractError::InvalidAccount);
        }
        let model_data = ModelData { dataset: dataset_cid, compressed_secret_key: compressed_sk };
        let mut datasets: Vec<(String, ModelData)> = Vec::new();
        datasets.push((sender.clone(), model_data));
        let request = RequestsState {
            status: ModelStatus::Pending,
            workers: distinct_names(&workers),
            datasets,
            model_cid: Vec::new(),
            creator: sender,
            epochs,
        };
        let id = self.current_request_id;
        self.requests.insert(id, request);
        self.current_request_id = id + 1;
        Ok(id)
    }

    /// Records the result of a request and marks it finished.
    ///
    /// The call is refused with `NotFound` where no request has this id, and
    /// with `Unauthorized` where the sender is one of the workers assigned to
    /// the request.
    pub fn complete_request(&mut self, sender: &String, request_id: u32, model_cid: String) -> (result:
        Result<(), ContractError>)
        requires
            old(self).wf(),
        ensures
            final(self).wf(),
            result == (if !old(self).requests@.contains_key(request_id) {
                Err(ContractError::NotFound)
            } else if old(self).requests@[request_id].worker_set().contains(sender@) {
                Err(ContractError::Unauthorized)
            } else {
                Ok(())
            }),
            result is Err ==> *final(self) == *old(self),
            result is Ok ==> request_completed(*old(self), *final(self), request_id, model_cid),
    {
        let is_worker = match self.requests.get(&request_id) {
            Some(request) => find_account(&request.workers, sender).is_some(),
            None => {
                return Err(ContractError::NotFound);
            },
        };
        if is_worker {
            return Err(ContractError::Unauthorized);
        }
        let taken = self.requests.remove(&request_id);
        match taken {
            Some(request) => {
                let mut request = request;
                request.status = ModelStatus::Finished;
                request.model_cid.push(model_cid);
                self.requests.insert(request_id, request);
            },
            None => {},
        }
        assert(self.requests@ =~= old(self).requests@.insert(
            request_id,
            self.requests@[request_id],
        ));
        Ok(())
    }
}

/// What submitting a proposal of type `kind` by `proposar` does to the ledger:
/// one pending proposal without votes is appended, with its position as its
/// id, and nothing else changes.
pub open spec fn proposal_appended(
    before: Contract,
    after: Contract,
    kind: ProposalType,
    proposar: String,
) -> bool {
    let n = before.governance.proposals@.len() as int;
    let added = after.governance.proposals@[n];
    &&& after.governance.proposals@ == before.governance.proposals@.push(added)
    &&& added.proposal_id == n
    &&& added.proposal_type == kind
    &&& added.proposar == proposar
    &&& added.status == ProposalStatus::Pending
    &&& added.votes@.len() == 0
    &&& added.for_votes == 0
    &&& added.angaist_votes == 0
    &&& after.governance.base_fee == before.governance.base_fee
    &&& after.governance.staking_fee == before.governance.staking_fee
    &&& after.governance.admin == before.governance.admin
    &&& after.network == before.network
    &&& after.requests == before.requests
    &&& after.current_request_id == before.current_request_id
}

/// What carrying out an accepted proposal of type `kind` does to the network
/// and to the fees.
pub open spec fn proposal_applied(before: Contract, after: Contract, kind: ProposalType) -> bool {
    match kind {
        ProposalType::AddWorker(worker, stake) => {
            &&& after.network.worker_set() == before.network.worker_set().insert(worker@)
            &&& after.network.stakes() == before.network.stakes().insert(worker@, stake)
            &&& after.governance.base_fee == before.governance.base_fee
            &&& after.governance.staking_fee == before.governance.staking_fee
        },
        ProposalType::RemoveWorker(worker) => {
            &&& after.network.worker_set() == before.network.worker_set().remove(worker@)
            &&& after.network.stakes() == before.network.stakes().remove(worker@)
            &&& after.governance.base_fee == before.governance.base_fee
            &&& after.governance.staking_fee == before.governance.staking_fee
        },
        ProposalType::ChangeBaseFee(fee) => {
            &&& after.network == before.network
            &&& after.governance.base_fee == fee
            &&& after.governance.staking_fee == before.governance.staking_fee
        },
        ProposalType::ChangeStakeAmount(stake) => {
            &&& after.network == before.network
            &&& after.governance.base_fee == before.governance.base_fee
            &&& after.governance.staking_fee == stake
        },
    }
}

/// What executing proposal `id` does to the ledger: the proposal gets its
/// final status by the tally rule, an accepted one is carried out, a rejected
/// one changes neither the network nor the fees.
pub open spec fn proposal_executed(before: Contract, after: Contract, id: int) -> bool {
    let proposal = before.governance.proposals@[id];
    &&& after.governance.proposals@ == before.governance.proposals@.update(
        id,
        (Proposal {
            status: if proposal.accepted() {
                ProposalStatus::Approved
            } else {
                ProposalStatus::Rejected
            },
            ..proposal
        }),
    )
    &&& after.governance.admin == before.governance.admin
    &&& after.requests == before.requests
    &&& after.current_request_id == before.current_request_id
    &&& if proposal.accepted() {
        proposal_applied(before, after, proposal.proposal_type)
    } else {
        &&& after.network == before.network
        &&& after.governance.base_fee == before.governance.base_fee
        &&& after.governance.staking_fee == before.governance.staking_fee
    }
}

impl Contract {
    fn submit_proposal(&mut self, kind: ProposalType, proposar: String)
        requires
            old(self).wf(),
            old(self).governance.proposals@.len() < u32::MAX,
        ensures
            final(self).wf(),
            proposal_appended(*old(self), *final(self), kind, proposar),
    {
        let id = self.governance.proposals.len() as u32;
        let proposal = Proposal::new(id, kind, proposar);
        self.governance.proposals.push(proposal);
    }

    /// Proposes the sender as a worker, with the deposit as its stake.
    ///
    /// The deposit must reach the staking fee.
    pub fn add_worker(&mut self, sender: String, deposit: u128) -> (result: Result<
        (),
        ContractError,
    >)
        requires
            old(self).wf(),
            old(self).governance.proposals@.len() < u32::MAX,
        ensures
            final(self).wf(),
            result == (if deposit >= old(self).governance.staking_fee {
                Ok(())
            } else {
                Err(ContractError::InsufficientStake)
            }),
            result is Err ==> *final(self) == *old(self),
            result is Ok ==> proposal_appended(
                *old(self),
                *final(self),
                ProposalType::AddWorker(sender, deposit),
                sender,
            ),
    {
        if deposit < self.governance.staking_fee {
            return Err(ContractError::InsufficientStake);
        }
        let kind = ProposalType::AddWorker(sender.clone(), deposit);
        self.submit_proposal(kind, sender);
        Ok(())
    }

    /// Proposes to end the membership of `worker`, which must be a
    /// well-formed account id.
    pub fn propose_remove_worker(&mut self, sender: String, worker: String) -> (result: Result<
        (),
        ContractError,
    >)
        requires
            old(self).wf(),
            old(self).governance.proposals@.len() < u32::MAX,
        ensures
            final(self).wf(),
            result == (if valid_account_id(worker@) {
                Ok(())
            } else {
                Err(ContractError::InvalidAccount)
            }),
            result is Err ==> *final(self) == *old(self),
            result is Ok ==> proposal_appended(
                *old(self),
                *final(self),
                ProposalType::RemoveWorker(worker),
                sender,
            ),
    {
        if !is_valid_account(worker.as_str()) {
            return Err(ContractError::InvalidAccount);
        }
        self.submit_proposal(ProposalType::RemoveWorker(worker), sender);
        Ok(())
    }

    /// Proposes `fee` as the new base fee.
    pub fn propose_change_base_fee(&mut self, sender: String, fee: u128)
        requires
            old(self).wf(),
            old(self).governance.proposals@.len() < u32::MAX,
        ensures
            final(self).wf(),
            proposal_appended(*old(self), *final(self), ProposalType::ChangeBaseFee(fee), sender),
    {
        self.submit_proposal(ProposalType::ChangeBaseFee(fee), sender);
    }

    /// Proposes `stake` as the new staking fee.
    pub fn propose_change_stake_amount(&mut self, sender: String, stake: u128)
        requires
            old(self).wf(),
            old(self).governance.proposals@.len() < u32::MAX,
        ensures
            final(self).wf(),
            proposal_appended(
                *old(self),
                *final(self),
                ProposalType::ChangeStakeAmount(stake),
                sender,
            ),
    {
        self.submit_proposal(ProposalType::ChangeStakeAmount(stake), sender);
    }

    /// Closes proposal `proposal_id` by the tally rule and carries it out if
    /// it was accepted.
    ///
    /// Only the admin may call this; the id must be that of a proposal. A
    /// proposal that was executed before is executed again.
    pub fn execute_proposal(&mut self, sender: &String, proposal_id: usize) -> (result: Result<
        (),
        ContractError,
    >)
        requires
            old(self).wf(),
        ensures
            final(self).wf(),
            result == (if sender@ != old(self).governance.admin@ {
                Err(ContractError::Unauthorized)
            } else if proposal_id >= old(self).governance.proposals@.len() {
                Err(ContractError::NotFound)
            } else {
                Ok(())
            }),
            result is Err ==> *final(self) == *old(self),
            result is Ok ==> proposal_executed(*old(self), *final(self), proposal_id as int),
            !(result is Ok && old(self).governance.proposals@[proposal_id as int].accepted())
                ==> final(self).network == old(self).network,
    {
        if *sender != self.governance.admin {
            return Err(ContractError::Unauthorized);
        }
        if proposal_id >= self.governance.proposals.len() {
            return Err(ContractError::NotFound);
        }
        let accepted = self.governance.proposals[proposal_id].is_accepted();
        if accepted {
            let kind = self.governance.proposals[proposal_id].proposal_type.clone();
            match kind {
                ProposalType::AddWorker(worker, stake) => {
                    self.network.add_member(worker, stake);
                },
                ProposalType::RemoveWorker(worker) => {
                    self.network.remove_member(&worker);
                },
                ProposalType::ChangeBaseFee(fee) => {
                    self.governance.base_fee = fee;
                },
                ProposalType::ChangeStakeAmount(stake) => {
                    self.governance.staking_fee = stake;
                },
            }
            self.governance.proposals[proposal_id].status = ProposalStatus::Approved;
        } else {
            self.governance.proposals[proposal_id].status = ProposalStatus::Rejected;
        }
        Ok(())
    }
}

impl Default for Contract {
    /// A ledger without workers, requests or proposals, with both fees zero.
    fn default() -> (contract: Self)
        ensures
            contract.wf(),
            contract.network.worker_set() == Set::<Seq<char>>::empty(),
            contract.requests@ == Map::<u32, RequestsState>::empty(),
            contract.current_request_id == 0,
            contract.governance.proposals@.len() == 0,
            contract.governance.admin@ == "0"@,
            contract.governance.base_fee == 0,
            contract.governance.staking_fee == 0,
    {
        Contract::new("0".to_owned(), 0, 0)
    }
}

/// Executing a proposal that was not accepted changes nothing but that
/// proposal's status, which becomes `Rejected`.
pub proof fn lemma_rejected_changes_nothing(before: Contract, after: Contract, id: int)
    requires
        0 <= id < before.governance.proposals@.len(),
        proposal_executed(before, after, id),
        before.governance.proposals@[id].for_votes <= before.governance.proposals@[id].angaist_votes,
    ensures
        after.network == before.network,
        after.requests == before.requests,
        after.current_request_id == before.current_request_id,
        after.governance.base_fee == before.governance.base_fee,
        after.governance.staking_fee == before.governance.staking_fee,
        after.governance.proposals@[id].status == ProposalStatus::Rejected,
{
}

/// Executing an accepted proposal to add `worker` with `stake` makes the
/// worker a member, listed once, with exactly that stake, and approves the
/// proposal.
pub proof fn lemma_accepted_add_worker(
    before: Contract,
    after: Contract,
    id: int,
    worker: String,
    stake: u128,
)
    requires
        after.wf(),
        0 <= id < before.governance.proposals@.len(),
        proposal_executed(before, after, id),
        before.governance.proposals@[id].accepted(),
        before.governance.proposals@[id].proposal_type == ProposalType::AddWorker(worker, stake),
    ensures
        after.network.worker_set().contains(worker@),
        after.network.stakes().dom().contains(worker@),
        after.network.stakes()[worker@] == stake,
        after.governance.proposals@[id].status == ProposalStatus::Approved,
        exists|i: int|
            0 <= i < after.network.workers@.len() && #[trigger] after.network.workers@[i]@
                == worker@,
        forall|i: int, j: int|
            0 <= i < after.network.workers@.len() && 0 <= j < after.network.workers@.len()
                && #[trigger] after.network.workers@[i]@ == worker@
                && #[trigger] after.network.workers@[j]@ == worker@ ==> i == j,
{
    assert(after.network.worker_set().contains(worker@));
}

/// Executing an accepted proposal to remove `worker` leaves it outside the
/// worker set and without a stake, whether or not it was a member, and
/// approves the proposal. Where it was no member and had no stake, the
/// membership and the stakes stay as they were.
pub proof fn lemma_accepted_remove_worker(
    before: Contract,
    after: Contract,
    id: int,
    worker: String,
)
    requires
        0 <= id < before.governance.proposals@.len(),
        proposal_executed(before, after, id),
        before.governance.proposals@[id].accepted(),
        before.governance.proposals@[id].proposal_type == ProposalType::RemoveWorker(worker),
    ensures
        !after.network.worker_set().contains(worker@),
        !after.network.stakes().dom().contains(worker@),
        after.governance.proposals@[id].status == ProposalStatus::Approved,
        !before.network.worker_set().contains(worker@) ==> after.network.worker_set()
            == before.network.worker_set(),
        !before.network.stakes().dom().contains(worker@) ==> after.network.stakes()
            == before.network.stakes(),
{
    if !before.network.worker_set().contains(worker@) {
        assert(after.network.worker_set() =~= before.network.worker_set());
    }
    if !before.network.stakes().dom().contains(worker@) {
        assert(after.network.stakes() =~= before.network.stakes());
    }
}

/// A new request gets an id that no request had before and that is above
/// every id given out so far; the requests that were there stay, each under its
/// id, and the next id is higher still.
pub proof fn lemma_request_ids_increase(
    before: Contract,
    after: Contract,
    sender: Seq<char>,
    epochs: u32,
    dataset_cid: Seq<char>,
    compressed_sk: Seq<u8>,
    workers: Set<Seq<char>>,
)
    requires
        before.wf(),
        request_added(before, after, sender, epochs, dataset_cid, compressed_sk, workers),
    ensures
        !before.requests@.contains_key(before.current_request_id),
        after.requests@.contains_key(before.current_request_id),
        forall|id: u32| #[trigger]
            before.requests@.contains_key(id) ==> id < before.current_request_id
                && after.requests@.contains_key(id) && after.requests@[id] == before.requests@[id],
        after.current_request_id > before.current_request_id,
{
}

/// What one submission does to the counter of request ids: a submission
/// that is accepted gets the counter's value and moves the counter up by one,
/// one that is refused leaves the counter alone.
pub open spec fn id_issued(
    before: Contract,
    after: Contract,
    result: Result<u32, ContractError>,
) -> bool {
    match result {
        Ok(id) => id == before.current_request_id && after.current_request_id == id + 1,
        Err(_) => after.current_request_id == before.current_request_id,
    }
}

/// A run of submissions: `states` are the ledger before the first, between
/// every two, and after the last, and `results` what each returned.
pub open spec fn submissions(
    states: Seq<Contract>,
    results: Seq<Result<u32, ContractError>>,
) -> bool {
    &&& states.len() == results.len() + 1
    &&& forall|k: int|
        0 <= k < results.len() ==> id_issued(states[k], states[k + 1], #[trigger] results[k])
}

/// Over a run of submissions the counter of request ids never goes down.
pub proof fn lemma_counter_never_decreases(
    states: Seq<Contract>,
    results: Seq<Result<u32, ContractError>>,
    i: int,
    j: int,
)
    requires
        submissions(states, results),
        0 <= i <= j < states.len(),
    ensures
        states[i].current_request_id <= states[j].current_request_id,
    decreases j - i,
{
    if i < j {
        lemma_counter_never_decreases(states, results, i, j - 1);
        assert(id_issued(states[j - 1], states[j - 1 + 1], results[j - 1]));
    }
}

/// Over a run of submissions, of two that are accepted the later one gets the
/// larger id: no id is given out twice.
pub proof fn lemma_request_ids_strictly_increase(
    states: Seq<Contract>,
    results: Seq<Result<u32, ContractError>>,
    i: int,
    j: int,
)
    requires
        submissions(states, results),
        0 <= i < j < results.len(),
        results[i] is Ok,
        results[j] is Ok,
    ensures
        results[i]->Ok_0 < results[j]->Ok_0,
{
    assert(id_issued(states[i], states[i + 1], results[i]));
    assert(id_issued(states[j], states[j + 1], results[j]));
    lemma_counter_never_decreases(states, results, i + 1, j);
}

/// Submissions that are refused use up no id: after a run of them the
/// counter stands where it stood.
pub proof fn lemma_refused_submissions_use_no_id(
    states: Seq<Contract>,
    results: Seq<Result<u32, ContractError>>,
    i: int,
)
    requires
        submissions(states, results),
        0 <= i <= results.len(),
        forall|k: int| 0 <= k < i ==> (#[trigger] results[k]) is Err,
    ensures
        states[i].current_request_id == states[0].current_request_id,
    decreases i,
{
    if i > 0 {
        lemma_refused_submissions_use_no_id(states, results, i - 1);
        assert(id_issued(states[i - 1], states[i - 1 + 1], results[i - 1]));
    }
}

/// The first submission that is accepted gets the id at which the counter
/// stood before the run, however many were refused before it. On a new
/// ledger that is 0.
pub proof fn lemma_first_accepted_gets_first_id(
    states: Seq<Contract>,
    results: Seq<Result<u32, ContractError>>,
    i: int,
)
    requires
        submissions(states, results),
        0 <= i < results.len(),
        forall|k: int| 0 <= k < i ==> (#[trigger] results[k]) is Err,
        results[i] is Ok,
    ensures
        results[i]->Ok_0 == states[0].current_request_id,
{
    lemma_refused_submissions_use_no_id(states, results, i);
    assert(id_issued(states[i], states[i + 1], results[i]));
}

/// A request that is finished stays finished, and keeps the results it has,
/// when a request is completed: the same one or another.
pub proof fn lemma_finished_stays_finished(
    before: Contract,
    after: Contract,
    completed: u32,
    model_cid: String,
    request_id: u32,
)
    requires
        before.requests@.contains_key(completed),
        request_completed(before, after, completed, model_cid),
        before.requests@.contains_key(request_id),
        before.requests@[request_id].status == ModelStatus::Finished,
    ensures
        after.requests@.contains_key(request_id),
        after.requests@[request_id].status == ModelStatus::Finished,
        before.requests@[request_id].model_cid@.is_prefix_of(
            after.requests@[request_id].model_cid@,
        ),
{
    if request_id == completed {
        let was = before.requests@[request_id].model_cid@;
        assert(was.push(model_cid).subrange(0, was.len() as int) =~= was);
    }
}

} // verus!
