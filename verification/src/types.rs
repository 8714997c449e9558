//! What a worker node keeps beside the ledger: its cursor into the block
//! stream, the queue of work that concerns it, and the messages it exchanges
//! with the storage service.

use vstd::prelude::*;
pub use crate::state::ModelData;

verus! {

/// The last block that a worker has processed.
#[derive(Clone, Debug)]
pub struct LatestBlockHeight {
    pub account_id: String,
    pub block_height: u64,
}

impl LatestBlockHeight {
    /// Moves the cursor to `block_height`.
    pub fn set(&mut self, block_height: u64) -> (cursor: &mut Self)
        ensures
            cursor.block_height == block_height,
            cursor.account_id == old(self).account_id,
            *final(self) == *final(cursor),
    {
        self.block_height = block_height;
        self
    }
}

/// The work that waits for the local worker. No two entries have the same
/// dataset identifier and the same key bytes.
#[derive(Debug)]
pub struct RequestQueue {
    pub requests: Vec<ModelData>,
}

/// Whether some entry of `entries` has the content `m`.
pub open spec fn holds_content(entries: Seq<ModelData>, m: (Seq<char>, Seq<u8>)) -> bool {
    exists|i: int| 0 <= i < entries.len() && (#[trigger] entries[i])@ == m
}

/// No two entries of `entries` have the same content.
pub open spec fn distinct_contents(entries: Seq<ModelData>) -> bool {
    forall|i: int, j: int|
        0 <= i < entries.len() && 0 <= j < entries.len() && i != j ==> (#[trigger] entries[i])@ != (
        #[trigger] entries[j])@
}

/// The entries of a queue after `item` was put into it: `item` comes last,
/// unless an entry with its content was there already.
pub open spec fn enqueued(entries: Seq<ModelData>, item: ModelData) -> Seq<ModelData> {
    if holds_content(entries, item@) {
        entries
    } else {
        entries.push(item)
    }
}

/// The entries of a queue after the items of `items` were put into it, one
/// after the other.
pub open spec fn enqueued_all(entries: Seq<ModelData>, items: Seq<ModelData>) -> Seq<ModelData>
    decreases items.len(),
{
    if items.len() == 0 {
        entries
    } else {
        enqueued(enqueued_all(entries, items.drop_last()), items.last())
    }
}

/// Whatever is put into a queue, and in whatever order, no two of its entries
/// ever have the same content.
pub proof fn lemma_enqueue_keeps_distinct(entries: Seq<ModelData>, items: Seq<ModelData>)
    requires
        distinct_contents(entries),
    ensures
        distinct_contents(enqueued_all(entries, items)),
    decreases items.len(),
{
    if items.len() > 0 {
        lemma_enqueue_keeps_distinct(entries, items.drop_last());
        let earlier = enqueued_all(entries, items.drop_last());
        let item = items.last();
        if !holds_content(earlier, item@) {
            let later = earlier.push(item);
            assert forall|i: int, j: int|
                0 <= i < later.len() && 0 <= j < later.len() && i != j implies (
            #[trigger] later[i])@ != (#[trigger] later[j])@ by {
                if i < earlier.len() && j < earlier.len() {
                    assert(later[i] == earlier[i]);
                    assert(later[j] == earlier[j]);
                } else if i < earlier.len() {
                    assert(earlier[i]@ != item@);
                } else {
                    assert(earlier[j]@ != item@);
                }
            }
        }
    }
}

impl RequestQueue {
    /// No two entries have the same content.
    pub open spec fn wf(&self) -> bool {
        distinct_contents(self.requests@)
    }

    /// The contents of the queue, each as dataset identifier and key bytes.
    pub open spec fn contents(&self) -> Set<(Seq<char>, Seq<u8>)> {
        Set::new(|m: (Seq<char>, Seq<u8>)| holds_content(self.requests@, m))
    }

    /// An empty queue.
    pub fn new() -> (queue: Self)
        ensures
            queue.wf(),
            queue.requests@.len() == 0,
            queue.contents() == Set::<(Seq<char>, Seq<u8>)>::empty(),
    {
        let queue = RequestQueue { requests: Vec::new() };
        assert(queue.contents() =~= Set::<(Seq<char>, Seq<u8>)>::empty());
        queue
    }

    /// Whether no two entries have the same content.
    pub fn is_well_formed(&self) -> (ok: bool)
        ensures
            ok == self.wf(),
    {
        let mut i: usize = 0;
        while i < self.requests.len()
            invariant
                i <= self.requests.len(),
                forall|a: int, b: int|
                    0 <= a < b < i ==> (#[trigger] self.requests@[a])@ != (
                    #[trigger] self.requests@[b])@,
            decreases self.requests.len() - i,
        {
            let mut j: usize = 0;
            while j < i
                invariant
                    j <= i,
                    i < self.requests.len(),
                    forall|a: int| 0 <= a < j ==> (#[trigger] self.requests@[a])@ != self.requests@[i as int]@,
                decreases i - j,
            {
                if self.requests[j].same_content(&self.requests[i]) {
                    return false;
                }
                j += 1;
            }
            i += 1;
        }
        assert forall|a: int, b: int|
            0 <= a < self.requests@.len() && 0 <= b < self.requests@.len() && a != b implies (
        #[trigger] self.requests@[a])@ != (#[trigger] self.requests@[b])@ by {
            if a < b {
            } else {
                assert(self.requests@[b]@ != self.requests@[a]@);
            }
        }
        true
    }

    /// The number of entries.
    pub fn len(&self) -> (n: usize)
        ensures
            n == self.requests@.len(),
    {
        self.requests.len()
    }

    /// Whether an entry with the content of `request` waits in the queue.
    pub fn contains(&self, request: &ModelData) -> (found: bool)
        ensures
            found == self.contents().contains(request@),
    {
        let mut i: usize = 0;
        while i < self.requests.len()
            invariant
                i <= self.requests.len(),
                forall|j: int| 0 <= j < i ==> (#[trigger] self.requests@[j])@ != request@,
            decreases self.requests.len() - i,
        {
            if self.requests[i].same_content(request) {
                assert(holds_content(self.requests@, request@));
                return true;
            }
            i += 1;
        }
        false
    }

    /// Puts `request` into the queue unless an entry with the same content
    /// is there already.
    pub fn add_request(&mut self, request: ModelData)
        requires
            old(self).wf(),
        ensures
            final(self).wf(),
            final(self).contents() == old(self).contents().insert(request@),
            final(self).requests@ == enqueued(old(self).requests@, request),
    {
        if self.contains(&request) {
            assert(self.contents() =~= self.contents().insert(request@));
            return;
        }
        let ghost before = self.requests@;
        let ghost added = request@;
        self.requests.push(request);
        proof {
            let after = self.requests@;
            assert forall|m: (Seq<char>, Seq<u8>)|
                holds_content(after, m) == (m == added || holds_content(before, m)) by {
                if holds_content(after, m) && m != added {
                    let i = choose|i: int| 0 <= i < after.len() && (#[trigger] after[i])@ == m;
                    assert(before[i]@ == m);
                }
                if holds_content(before, m) {
                    let i = choose|i: int| 0 <= i < before.len() && (#[trigger] before[i])@ == m;
                    assert(after[i]@ == m);
                }
                if m == added {
                    assert(after[before.len() as int]@ == m);
                }
            }
            assert(self.contents() =~= old(self).contents().insert(added));
        }
    }

    /// Takes one entry out of the queue and returns it: the one that was put
    /// in last. An empty queue gives `None`.
    pub fn try_claim(&mut self) -> (claimed: Option<ModelData>)
        requires
            old(self).wf(),
        ensures
            final(self).wf(),
            match claimed {
                Some(request) => {
                    &&& old(self).requests@.len() > 0
                    &&& request == old(self).requests@.last()
                    &&& final(self).requests@ == old(self).requests@.drop_last()
                    &&& old(self).contents().contains(request@)
                    &&& final(self).contents() == old(self).contents().remove(request@)
                },
                None => old(self).requests@.len() == 0 && final(self).requests@.len() == 0,
            },
    {
        let ghost before = self.requests@;
        let claimed = self.requests.pop();
        proof {
            if claimed is Some {
                let request = claimed->Some_0;
                let after = self.requests@;
                let last = before.len() - 1;
                assert(request == before.last());
                assert(after =~= before.drop_last());
                assert(before[last]@ == request@);
                assert(holds_content(before, request@));
                assert forall|m: (Seq<char>, Seq<u8>)|
                    holds_content(after, m) == (m != request@ && holds_content(before, m)) by {
                    if holds_content(after, m) {
                        let i = choose|i: int| 0 <= i < after.len() && (#[trigger] after[i])@ == m;
                        assert(before[i]@ == m);
                    }
                    if holds_content(before, m) && m != request@ {
                        let i = choose|i: int|
                            0 <= i < before.len() && (#[trigger] before[i])@ == m;
                        assert(after[i]@ == m);
                    }
                }
                assert(self.contents() =~= old(self).contents().remove(request@));
            }
        }
        claimed
    }
}

impl Default for RequestQueue {
    fn default() -> (queue: Self)
        ensures
            queue.wf(),
            queue.requests@.len() == 0,
    {
        RequestQueue::new()
    }
}

/// The arguments of a request submission, as they stand in a block.
#[derive(Debug, Clone, PartialEq, Eq)]
pub struct RequestArguments {
    pub epochs: u32,
    pub dataset_cid: String,
    pub compressed_sk: Vec<u8>,
    pub workers: Vec<String>,
}

/// What the node asks of the storage service.
#[derive(Debug, Clone, PartialEq, Eq)]
pub enum IpfsMessage {
    FetchFile { cid: String, filename: String },
    /// Publish a document, given as JSON text.
    PublishJson { data: String },
    ShutDown,
}

/// What the storage service answers.
#[derive(Debug, Clone, PartialEq, Eq)]
pub enum IpfsResponse {
    FileFetched { path: String },
    JsonPublished { cid: String },
}

} // verus!
