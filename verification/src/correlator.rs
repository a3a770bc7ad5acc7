//! Matching log records against the targets.
//!
//! A log record is a creation event if its first topic is the event's
//! signature hash and it carries the two indexed arguments: the created
//! account in the second topic and an auxiliary value in the third. Such a
//! record resolves the target that it names, if that target is still
//! unresolved. Looking up the sender of the creating transaction is the
//! caller's part; where the lookup fails the match still counts and the
//! creator is recorded as unavailable.

use crate::address::{event_topic, keccak256_digest, Address, Word32};
use crate::registry::{
    entry, holds, leftovers, lemma_leftovers_are_the_outstanding, outstanding, with_resolved, Target,
    TargetRegistry,
};
use crate::sink::ResolutionRecord;
use vstd::prelude::*;
use vstd::string::StringSliceAdditionalSpecFns;

verus! {

/// One log record of a receipt.
#[derive(Clone, Debug, PartialEq, Eq)]
pub struct LogRecord {
    pub block_number: u64,
    pub transaction_hash: Option<Word32>,
    pub topics: Vec<Word32>,
    pub log_index: u64,
}

/// What a creation event says.
#[derive(Clone, Copy, Debug, PartialEq, Eq)]
pub struct Candidate {
    /// The created account, from the second topic.
    pub account: Address,
    /// The auxiliary value, from the third topic.
    pub auxiliary: Word32,
    /// The fourth topic, where there is one.
    pub index: Option<Word32>,
    /// The transaction that emitted the event, where the record names it.
    pub transaction_hash: Option<Word32>,
}

/// A log record together with the sender of its transaction, or `None`
/// where the sender could not be had.
#[derive(Clone, Debug, PartialEq, Eq)]
pub struct Observation {
    pub log: LogRecord,
    pub sender: Option<Address>,
}

/// What to do with a log record.
#[derive(Clone, Copy, Debug, PartialEq, Eq)]
pub enum Inspection {
    /// Nothing: it is no creation event, or names no unresolved target.
    Ignore,
    /// It names an unresolved target. Look up the sender of the transaction,
    /// if the record names one, and settle the match.
    Creation { transaction_hash: Option<Word32> },
}

/// Whether `log` is a creation event under `signature`.
pub open spec fn is_creation(log: LogRecord, signature: Word32) -> bool {
    log.topics@.len() >= 3 && log.topics@[0] == signature
}

/// What `log` says, if it is a creation event.
pub open spec fn candidate_of(log: LogRecord, signature: Word32) -> Option<Candidate> {
    if is_creation(log, signature) {
        Some(
            Candidate {
                account: log.topics@[1].account(),
                auxiliary: log.topics@[2],
                index: if log.topics@.len() >= 4 {
                    Some(log.topics@[3])
                } else {
                    None
                },
                transaction_hash: log.transaction_hash,
            },
        )
    } else {
        None
    }
}

/// Whether `log` names a target that is still unresolved.
pub open spec fn is_match(targets: Seq<Target>, log: LogRecord, signature: Word32) -> bool {
    is_creation(log, signature) && outstanding(targets, log.topics@[1].account())
}

/// What to do with `log`.
pub open spec fn inspection_of(targets: Seq<Target>, log: LogRecord, signature: Word32) -> Inspection {
    if is_match(targets, log, signature) {
        Inspection::Creation { transaction_hash: log.transaction_hash }
    } else {
        Inspection::Ignore
    }
}

/// The targets after `log` has been settled with `sender`.
pub open spec fn targets_after(
    targets: Seq<Target>,
    log: LogRecord,
    signature: Word32,
    sender: Option<Address>,
) -> Seq<Target> {
    if is_creation(log, signature) {
        with_resolved(targets, log.topics@[1].account(), sender)
    } else {
        targets
    }
}

/// The record to write when `log` is settled with `sender`: one for a first
/// match, none otherwise.
pub open spec fn record_of(
    targets: Seq<Target>,
    log: LogRecord,
    signature: Word32,
    sender: Option<Address>,
) -> Option<ResolutionRecord> {
    if is_match(targets, log, signature) {
        Some(
            ResolutionRecord {
                target_address: log.topics@[1].account(),
                metadata: entry(targets, log.topics@[1].account())->0.metadata,
                creator: sender,
            },
        )
    } else {
        None
    }
}

/// The targets after the observations of `batch` have been settled in order.
pub open spec fn after_batch(
    targets: Seq<Target>,
    signature: Word32,
    batch: Seq<Observation>,
) -> Seq<Target>
    decreases batch.len(),
{
    if batch.len() == 0 {
        targets
    } else {
        targets_after(
            after_batch(targets, signature, batch.drop_last()),
            batch.last().log,
            signature,
            batch.last().sender,
        )
    }
}

/// The records to write for `batch`, in order.
pub open spec fn records_of_batch(
    targets: Seq<Target>,
    signature: Word32,
    batch: Seq<Observation>,
) -> Seq<ResolutionRecord>
    decreases batch.len(),
{
    if batch.len() == 0 {
        Seq::empty()
    } else {
        let earlier = records_of_batch(targets, signature, batch.drop_last());
        match record_of(
            after_batch(targets, signature, batch.drop_last()),
            batch.last().log,
            signature,
            batch.last().sender,
        ) {
            Some(record) => earlier.push(record),
            None => earlier,
        }
    }
}

/// Finds the creation events of one kind among log records.
#[derive(Clone, Copy, Debug, PartialEq, Eq)]
pub struct Correlator {
    /// The hash of the event's signature, which a creation event carries as
    /// its first topic.
    pub signature: Word32,
}

/// The signature of the event that a factory emits when it creates an
/// account.
pub fn account_creation_signature() -> (signature: &'static str)
    ensures
        signature@ == "AccountCreation(address,address,uint256)"@,
{
    "AccountCreation(address,address,uint256)"
}

impl Correlator {
    /// A correlator for events with the given signature hash.
    pub fn new(signature: Word32) -> (correlator: Correlator)
        ensures
            correlator.signature == signature,
    {
        Correlator { signature }
    }

    /// A correlator for the event with the given signature, such as
    /// `AccountCreation(address,address,uint256)`.
    pub fn for_event(signature: &str) -> (correlator: Correlator)
        ensures
            correlator.signature.bytes@ == keccak256_digest(signature.spec_bytes()),
    {
        Correlator { signature: event_topic(signature) }
    }

    /// What `log` says, if it is a creation event.
    pub fn candidate(&self, log: &LogRecord) -> (found: Option<Candidate>)
        ensures
            found == candidate_of(*log, self.signature),
    {
        if log.topics.len() < 3 {
            return None;
        }
        if !log.topics[0].equals(&self.signature) {
            return None;
        }
        let index = if log.topics.len() >= 4 {
            Some(log.topics[3])
        } else {
            None
        };
        Some(
            Candidate {
                account: Address::from_word(&log.topics[1]),
                auxiliary: log.topics[2],
                index,
                transaction_hash: log.transaction_hash,
            },
        )
    }

    /// Says what to do with `log`: whether it names a target that is still
    /// searched for, and which transaction's sender to look up.
    pub fn inspect(&self, registry: &TargetRegistry, log: &LogRecord) -> (verdict: Inspection)
        requires
            registry.wf(),
        ensures
            verdict == inspection_of(registry@, *log, self.signature),
    {
        match self.candidate(log) {
            Some(candidate) => {
                if registry.is_outstanding(&candidate.account) {
                    Inspection::Creation { transaction_hash: candidate.transaction_hash }
                } else {
                    Inspection::Ignore
                }
            },
            None => Inspection::Ignore,
        }
    }

    /// Settles `log`, whose transaction was sent by `sender`. If the record
    /// names a target that is still unresolved, the target is resolved and
    /// its record is returned for the sink; otherwise nothing changes and
    /// nothing is returned.
    pub fn settle(
        &self,
        registry: &mut TargetRegistry,
        log: &LogRecord,
        sender: Option<Address>,
    ) -> (record: Option<ResolutionRecord>)
        requires
            old(registry).wf(),
        ensures
            final(registry).wf(),
            final(registry)@ == targets_after(old(registry)@, *log, self.signature, sender),
            record == record_of(old(registry)@, *log, self.signature, sender),
    {
        match self.candidate(log) {
            Some(candidate) => {
                let found = registry.lookup(&candidate.account);
                if registry.resolve(&candidate.account, sender) {
                    match found {
                        Some(target) => Some(
                            ResolutionRecord {
                                target_address: candidate.account,
                                metadata: target.metadata,
                                creator: sender,
                            },
                        ),
                        None => None,
                    }
                } else {
                    None
                }
            },
            None => None,
        }
    }

    /// Settles the observations of `batch` one after the other and returns
    /// the records of those that were first matches, in order.
    pub fn settle_batch(&self, registry: &mut TargetRegistry, batch: &Vec<Observation>) -> (records:
        Vec<ResolutionRecord>)
        requires
            old(registry).wf(),
        ensures
            final(registry).wf(),
            final(registry)@ == after_batch(old(registry)@, self.signature, batch@),
            records@ == records_of_batch(old(registry)@, self.signature, batch@),
    {
        let ghost before = registry@;
        let mut records: Vec<ResolutionRecord> = Vec::new();
        let mut i: usize = 0;
        while i < batch.len()
            invariant
                i <= batch.len(),
                registry.wf(),
                registry@ == after_batch(before, self.signature, batch@.take(i as int)),
                records@ == records_of_batch(before, self.signature, batch@.take(i as int)),
            decreases batch.len() - i,
        {
            proof {
                assert(batch@.take(i + 1).drop_last() =~= batch@.take(i as int));
                assert(batch@.take(i + 1).last() == batch@[i as int]);
            }
            match self.settle(registry, &batch[i].log, batch[i].sender) {
                Some(record) => records.push(record),
                None => {},
            }
            i += 1;
        }
        proof {
            assert(batch@.take(batch.len() as int) =~= batch@);
        }
        records
    }
}

/// Whether no observation of `batch` names a target that is still
/// unresolved.
pub open spec fn quiet(targets: Seq<Target>, signature: Word32, batch: Seq<Observation>) -> bool {
    forall|k: int| 0 <= k < batch.len() ==> !is_match(targets, (#[trigger] batch[k]).log, signature)
}

/// Settling a log record never makes an address outstanding, and leaves the
/// account that the record names settled.
pub proof fn lemma_settling_only_resolves(
    targets: Seq<Target>,
    log: LogRecord,
    signature: Word32,
    sender: Option<Address>,
    address: Address,
)
    ensures
        outstanding(targets_after(targets, log, signature, sender), address) ==> outstanding(
            targets,
            address,
        ),
        !is_match(targets_after(targets, log, signature, sender), log, signature),
        !is_match(targets, log, signature) ==> targets_after(targets, log, signature, sender)
            == targets,
{
}

/// Settling a batch never makes an address outstanding.
pub proof fn lemma_batch_only_resolves(
    targets: Seq<Target>,
    signature: Word32,
    batch: Seq<Observation>,
    address: Address,
)
    ensures
        outstanding(after_batch(targets, signature, batch), address) ==> outstanding(
            targets,
            address,
        ),
    decreases batch.len(),
{
    if batch.len() > 0 {
        lemma_batch_only_resolves(targets, signature, batch.drop_last(), address);
    }
}

/// A batch none of whose records names an unresolved target changes nothing
/// and gives no record.
pub proof fn lemma_quiet_batch_changes_nothing(
    targets: Seq<Target>,
    signature: Word32,
    batch: Seq<Observation>,
)
    requires
        quiet(targets, signature, batch),
    ensures
        after_batch(targets, signature, batch) == targets,
        records_of_batch(targets, signature, batch) == Seq::<ResolutionRecord>::empty(),
    decreases batch.len(),
{
    if batch.len() > 0 {
        let rest = batch.drop_last();
        lemma_quiet_batch_changes_nothing(targets, signature, rest);
    }
}

/// Once a batch has been settled, none of its records names an unresolved
/// target any more.
pub proof fn lemma_batch_settles_its_matches(
    targets: Seq<Target>,
    signature: Word32,
    batch: Seq<Observation>,
)
    ensures
        quiet(after_batch(targets, signature, batch), signature, batch),
    decreases batch.len(),
{
    if batch.len() > 0 {
        let rest = batch.drop_last();
        let middle = after_batch(targets, signature, rest);
        let after = after_batch(targets, signature, batch);
        lemma_batch_settles_its_matches(targets, signature, rest);
        assert forall|k: int| 0 <= k < batch.len() implies !is_match(
            after,
            (#[trigger] batch[k]).log,
            signature,
        ) by {
            if k < rest.len() {
                assert(!is_match(middle, rest[k].log, signature));
            }
        }
    }
}

/// Replaying a batch is a no-op. Settling the same observations a second
/// time, against the registry as the first time left it, changes no target
/// and gives no record, so no line is written twice.
pub proof fn lemma_replay_is_noop(targets: Seq<Target>, signature: Word32, batch: Seq<Observation>)
    ensures
        after_batch(after_batch(targets, signature, batch), signature, batch) == after_batch(
            targets,
            signature,
            batch,
        ),
        records_of_batch(after_batch(targets, signature, batch), signature, batch) == Seq::<
            ResolutionRecord,
        >::empty(),
{
    lemma_batch_settles_its_matches(targets, signature, batch);
    lemma_quiet_batch_changes_nothing(after_batch(targets, signature, batch), signature, batch);
}

/// At most one record is written for a target. The records of a batch name
/// pairwise different targets, each of which was unresolved before the batch
/// and is resolved after it, however often the batch observes a match for
/// it.
pub proof fn lemma_one_record_per_target(
    targets: Seq<Target>,
    signature: Word32,
    batch: Seq<Observation>,
)
    ensures
        forall|i: int, j: int|
            0 <= i < j < records_of_batch(targets, signature, batch).len() ==> (
            #[trigger] records_of_batch(targets, signature, batch)[i]).target_address != (
            #[trigger] records_of_batch(targets, signature, batch)[j]).target_address,
        forall|i: int|
            0 <= i < records_of_batch(targets, signature, batch).len() ==> outstanding(
                targets,
                (#[trigger] records_of_batch(targets, signature, batch)[i]).target_address,
            ) && !outstanding(
                after_batch(targets, signature, batch),
                records_of_batch(targets, signature, batch)[i].target_address,
            ),
    decreases batch.len(),
{
    if batch.len() > 0 {
        let rest = batch.drop_last();
        let after = after_batch(targets, signature, batch);
        let earlier = records_of_batch(targets, signature, rest);
        let records = records_of_batch(targets, signature, batch);
        let log = batch.last().log;
        lemma_one_record_per_target(targets, signature, rest);
        assert forall|i: int| 0 <= i < records.len() implies outstanding(
            targets,
            (#[trigger] records[i]).target_address,
        ) && !outstanding(after, records[i].target_address) by {
            if i >= earlier.len() {
                let account = log.topics@[1].account();
                lemma_batch_only_resolves(targets, signature, rest, account);
            }
        }
    }
}

/// Whether one of `records` is for `address`.
pub open spec fn names(records: Seq<ResolutionRecord>, address: Address) -> bool {
    exists|i: int| 0 <= i < records.len() && (#[trigger] records[i]).target_address == address
}

/// Every target is written for exactly once. A target that was unresolved
/// before a batch is either named by a record of the batch or returned by
/// the final sweep after it, never both and never neither.
pub proof fn lemma_every_target_is_written_once(
    targets: Seq<Target>,
    signature: Word32,
    batch: Seq<Observation>,
    address: Address,
)
    requires
        outstanding(targets, address),
    ensures
        names(records_of_batch(targets, signature, batch), address) != holds(
            leftovers(after_batch(targets, signature, batch)),
            address,
        ),
        names(records_of_batch(targets, signature, batch), address) != outstanding(
            after_batch(targets, signature, batch),
            address,
        ),
    decreases batch.len(),
{
    let records = records_of_batch(targets, signature, batch);
    let after = after_batch(targets, signature, batch);
    lemma_leftovers_are_the_outstanding(after);
    lemma_one_record_per_target(targets, signature, batch);
    if !names(records, address) && batch.len() > 0 {
        let rest = batch.drop_last();
        let middle = after_batch(targets, signature, rest);
        let earlier = records_of_batch(targets, signature, rest);
        let log = batch.last().log;
        lemma_every_target_is_written_once(targets, signature, rest, address);
        if names(earlier, address) {
            let i = choose|i: int|
                0 <= i < earlier.len() && (#[trigger] earlier[i]).target_address == address;
            assert(records[i].target_address == address);
        } else {
            let k = choose|k: int|
                0 <= k < middle.len() && (#[trigger] middle[k]).address == address
                    && middle[k].resolution is Unresolved;
            if is_creation(log, signature) && log.topics@[1].account() == address {
                assert(records[records.len() - 1].target_address == address);
            } else {
                assert(after[k].address == address && after[k].resolution is Unresolved);
            }
        }
    }
}

} // verus!
