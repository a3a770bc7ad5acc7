//! The targets of a scan and what has been found out about each.
//!
//! A target starts unresolved and is settled once: either a creation event
//! names it, and the first such match wins, or the scan ends without one and
//! the target is marked as not found. A settled target never changes again.
//! All changes go through `&mut` methods, so callers that share a registry
//! between workers hold it behind one lock and every call is a whole step.

use crate::address::Address;
use vstd::prelude::*;

verus! {

/// What is known of a target.
#[derive(Clone, Copy, Debug, PartialEq, Eq)]
pub enum Resolution {
    /// No creation event has been seen yet.
    Unresolved,
    /// A creation event was seen. The creator is `None` where the sender of
    /// the creating transaction could not be had.
    Resolved(Option<Address>),
    /// The scan ended without a creation event.
    NotFound,
}

/// An account that the scan looks for.
#[derive(Clone, Debug, PartialEq, Eq)]
pub struct Target {
    pub address: Address,
    pub metadata: String,
    pub resolution: Resolution,
}

impl Target {
    /// A target that has not been resolved yet.
    pub fn new(address: Address, metadata: String) -> (target: Target)
        ensures
            target == (Target { address, metadata, resolution: Resolution::Unresolved }),
    {
        Target { address, metadata, resolution: Resolution::Unresolved }
    }

    /// A copy of the target.
    pub fn duplicate(&self) -> (copy: Target)
        ensures
            copy == *self,
    {
        Target {
            address: self.address,
            metadata: self.metadata.clone(),
            resolution: self.resolution,
        }
    }
}

/// Whether no address occurs twice among `targets`.
pub open spec fn distinct_addresses(targets: Seq<Target>) -> bool {
    forall|i: int, j: int|
        0 <= i < j < targets.len() ==> (#[trigger] targets[i]).address != (
        #[trigger] targets[j]).address
}

/// Whether `address` is one of the targets.
pub open spec fn holds(targets: Seq<Target>, address: Address) -> bool {
    exists|i: int| 0 <= i < targets.len() && (#[trigger] targets[i]).address == address
}

/// Where `address` stands among the targets, if it is one of them.
pub open spec fn index_of(targets: Seq<Target>, address: Address) -> int {
    choose|i: int| 0 <= i < targets.len() && (#[trigger] targets[i]).address == address
}

/// The target with the given address, if there is one.
pub open spec fn entry(targets: Seq<Target>, address: Address) -> Option<Target> {
    if holds(targets, address) {
        Some(targets[index_of(targets, address)])
    } else {
        None
    }
}

/// Whether `address` is a target that is still unresolved.
pub open spec fn outstanding(targets: Seq<Target>, address: Address) -> bool {
    exists|i: int|
        0 <= i < targets.len() && (#[trigger] targets[i]).address == address
            && targets[i].resolution is Unresolved
}

/// The targets after a match for `address`: where it was unresolved it is now
/// resolved with `creator`, and nothing else has changed.
pub open spec fn with_resolved(
    targets: Seq<Target>,
    address: Address,
    creator: Option<Address>,
) -> Seq<Target> {
    Seq::new(
        targets.len(),
        |i: int|
            if targets[i].address == address && targets[i].resolution is Unresolved {
                Target { resolution: Resolution::Resolved(creator), ..targets[i] }
            } else {
                targets[i]
            },
    )
}

/// The targets that are still unresolved, in order.
pub open spec fn leftovers(targets: Seq<Target>) -> Seq<Target> {
    targets.filter(|target: Target| target.resolution is Unresolved)
}

/// The targets after the final sweep: what was unresolved is not found, and
/// nothing else has changed.
pub open spec fn swept(targets: Seq<Target>) -> Seq<Target> {
    Seq::new(
        targets.len(),
        |i: int|
            if targets[i].resolution is Unresolved {
                Target { resolution: Resolution::NotFound, ..targets[i] }
            } else {
                targets[i]
            },
    )
}

/// The first target of each address, in order.
pub open spec fn first_of_each(targets: Seq<Target>) -> Seq<Target>
    decreases targets.len(),
{
    if targets.len() == 0 {
        Seq::empty()
    } else {
        let kept = first_of_each(targets.drop_last());
        if holds(kept, targets.last().address) {
            kept
        } else {
            kept.push(targets.last())
        }
    }
}

/// The targets of a scan, each address once.
#[derive(Clone, Debug)]
pub struct TargetRegistry {
    targets: Vec<Target>,
}

impl View for TargetRegistry {
    type V = Seq<Target>;

    closed spec fn view(&self) -> Seq<Target> {
        self.targets@
    }
}

impl TargetRegistry {
    /// The invariant of a registry: no address occurs twice.
    pub open spec fn wf(&self) -> bool {
        distinct_addresses(self@)
    }

    /// A registry of the given targets. Where an address occurs more than
    /// once the first target with it is kept and the later ones are dropped.
    pub fn from_targets(targets: Vec<Target>) -> (registry: TargetRegistry)
        ensures
            registry.wf(),
            registry@ == first_of_each(targets@),
    {
        let mut registry = TargetRegistry { targets: Vec::new() };
        let mut i: usize = 0;
        while i < targets.len()
            invariant
                i <= targets.len(),
                registry.wf(),
                registry@ == first_of_each(targets@.take(i as int)),
            decreases targets.len() - i,
        {
            proof {
                assert(targets@.take(i + 1).drop_last() =~= targets@.take(i as int));
                assert(targets@.take(i + 1).last() == targets@[i as int]);
            }
            if registry.find(&targets[i].address).is_none() {
                registry.targets.push(targets[i].duplicate());
            }
            i += 1;
        }
        proof {
            assert(targets@.take(targets.len() as int) =~= targets@);
        }
        registry
    }

    /// The number of targets.
    pub fn len(&self) -> (count: usize)
        ensures
            count == self@.len(),
    {
        self.targets.len()
    }

    /// Where `address` stands in the registry, if it is a target.
    pub fn find(&self, address: &Address) -> (found: Option<usize>)
        requires
            self.wf(),
        ensures
            found is Some <==> holds(self@, *address),
            found matches Some(i) ==> i == index_of(self@, *address) && i < self@.len()
                && self@[i as int].address == *address,
    {
        let mut i: usize = 0;
        while i < self.targets.len()
            invariant
                self.wf(),
                i <= self.targets.len(),
                forall|j: int| 0 <= j < i ==> (#[trigger] self.targets@[j]).address != *address,
            decreases self.targets.len() - i,
        {
            if self.targets[i].address.equals(address) {
                proof {
                    let k = index_of(self@, *address);
                    assert(self@[i as int].address == *address);
                    assert(self@[k].address == *address);
                    if k < i {
                        assert(self@[k].address != self@[i as int].address);
                    } else if i < k {
                        assert(self@[i as int].address != self@[k].address);
                    }
                }
                return Some(i);
            }
            i += 1;
        }
        None
    }

    /// A copy of the target with the given address, if there is one.
    pub fn lookup(&self, address: &Address) -> (target: Option<Target>)
        requires
            self.wf(),
        ensures
            target == entry(self@, *address),
    {
        match self.find(address) {
            Some(i) => Some(self.targets[i].duplicate()),
            None => None,
        }
    }

    /// Whether `address` is a target that is still unresolved.
    pub fn is_outstanding(&self, address: &Address) -> (open: bool)
        requires
            self.wf(),
        ensures
            open == outstanding(self@, *address),
    {
        match self.find(address) {
            Some(i) => {
                proof {
                    self.lemma_only_at(i as int, *address);
                }
                match self.targets[i].resolution {
                    Resolution::Unresolved => true,
                    _ => false,
                }
            },
            None => false,
        }
    }

    /// Records a match: `address` was created by `creator`. Returns `true`,
    /// and resolves the target, if and only if the address is a target and
    /// is still unresolved; otherwise nothing changes. Of several matches for
    /// one target only the first is taken.
    pub fn resolve(&mut self, address: &Address, creator: Option<Address>) -> (won: bool)
        requires
            old(self).wf(),
        ensures
            final(self).wf(),
            won == outstanding(old(self)@, *address),
            final(self)@ == with_resolved(old(self)@, *address, creator),
    {
        let ghost before = self@;
        match self.find(address) {
            Some(i) => {
                proof {
                    self.lemma_only_at(i as int, *address);
                }
                match self.targets[i].resolution {
                    Resolution::Unresolved => {
                        let updated = Target {
                            address: self.targets[i].address,
                            metadata: self.targets[i].metadata.clone(),
                            resolution: Resolution::Resolved(creator),
                        };
                        self.targets.set(i, updated);
                        assert(self@ =~= with_resolved(before, *address, creator));
                        true
                    },
                    _ => {
                        assert(self@ =~= with_resolved(before, *address, creator));
                        false
                    },
                }
            },
            None => {
                assert(self@ =~= with_resolved(before, *address, creator));
                false
            },
        }
    }

    /// The final sweep. Returns the targets that are still unresolved, as
    /// they stood, and marks each of them as not found.
    pub fn sweep_unresolved(&mut self) -> (left: Vec<Target>)
        requires
            old(self).wf(),
        ensures
            final(self).wf(),
            left@ == leftovers(old(self)@),
            final(self)@ == swept(old(self)@),
    {
        let ghost before = self@;
        let mut left: Vec<Target> = Vec::new();
        let count = self.targets.len();
        let mut i: usize = 0;
        while i < count
            invariant
                i <= count,
                count == before.len(),
                self@.len() == count,
                left@ == leftovers(before.take(i as int)),
                forall|j: int| 0 <= j < i ==> #[trigger] self@[j] == swept(before)[j],
                forall|j: int| i <= j < count ==> #[trigger] self@[j] == before[j],
            decreases count - i,
        {
            proof {
                reveal(Seq::filter);
                assert(before.take(i + 1).drop_last() =~= before.take(i as int));
                assert(before.take(i + 1).last() == before[i as int]);
            }
            match self.targets[i].resolution {
                Resolution::Unresolved => {
                    left.push(self.targets[i].duplicate());
                    let marked = Target {
                        address: self.targets[i].address,
                        metadata: self.targets[i].metadata.clone(),
                        resolution: Resolution::NotFound,
                    };
                    self.targets.set(i, marked);
                },
                _ => {},
            }
            i += 1;
        }
        proof {
            assert(before.take(count as int) =~= before);
            assert(self@ =~= swept(before));
        }
        left
    }

    proof fn lemma_only_at(&self, i: int, address: Address)
        requires
            self.wf(),
            0 <= i < self@.len(),
            self@[i].address == address,
        ensures
            forall|j: int| 0 <= j < self@.len() && j != i ==> (#[trigger] self@[j]).address != address,
            outstanding(self@, address) <==> self@[i].resolution is Unresolved,
    {
    }
}

/// After the final sweep every target is settled, in exactly one way: it is
/// resolved if it was resolved before, and not found otherwise. None is left
/// unresolved.
pub proof fn lemma_sweep_settles_all(targets: Seq<Target>)
    ensures
        swept(targets).len() == targets.len(),
        forall|i: int|
            0 <= i < targets.len() ==> {
                &&& !((#[trigger] swept(targets)[i]).resolution is Unresolved)
                &&& swept(targets)[i].resolution is Resolved != swept(targets)[i].resolution is NotFound
                &&& swept(targets)[i].resolution is Resolved <==> targets[i].resolution is Resolved
                &&& swept(targets)[i].address == targets[i].address
                &&& swept(targets)[i].metadata == targets[i].metadata
            },
        forall|address: Address| !outstanding(swept(targets), address),
        leftovers(swept(targets)).len() == 0,
{
    lemma_no_leftovers(swept(targets));
}

/// Where no target is unresolved, none is left over.
pub proof fn lemma_no_leftovers(targets: Seq<Target>)
    requires
        forall|i: int| 0 <= i < targets.len() ==> !((#[trigger] targets[i]).resolution is Unresolved),
    ensures
        leftovers(targets).len() == 0,
    decreases targets.len(),
{
    reveal(Seq::filter);
    if targets.len() > 0 {
        let rest = targets.drop_last();
        lemma_no_leftovers(rest);
    }
}

/// A settled target never changes: neither a later match nor the final sweep
/// touches a target that is resolved or not found, and a match for one
/// address touches no target of another.
pub proof fn lemma_settled_stays(targets: Seq<Target>, address: Address, creator: Option<Address>)
    ensures
        forall|i: int|
            0 <= i < targets.len() && !(targets[i].resolution is Unresolved) ==> {
                &&& (#[trigger] with_resolved(targets, address, creator)[i]) == targets[i]
            },
        forall|i: int|
            0 <= i < targets.len() && !(targets[i].resolution is Unresolved) ==> {
                &&& (#[trigger] swept(targets)[i]) == targets[i]
            },
        forall|i: int|
            0 <= i < targets.len() && targets[i].address != address ==> (#[trigger] with_resolved(
                targets,
                address,
                creator,
            )[i]) == targets[i],
        distinct_addresses(targets) ==> distinct_addresses(with_resolved(targets, address, creator)),
        distinct_addresses(targets) ==> distinct_addresses(swept(targets)),
{
}

/// The targets after one call of `resolve` for `address` with each of
/// `creators`, in order.
pub open spec fn after_calls(
    targets: Seq<Target>,
    address: Address,
    creators: Seq<Option<Address>>,
) -> Seq<Target>
    decreases creators.len(),
{
    if creators.len() == 0 {
        targets
    } else {
        with_resolved(after_calls(targets, address, creators.drop_last()), address, creators.last())
    }
}

/// How many of those calls return `true`.
pub open spec fn wins(targets: Seq<Target>, address: Address, creators: Seq<Option<Address>>) -> nat
    decreases creators.len(),
{
    if creators.len() == 0 {
        0
    } else {
        let earlier = wins(targets, address, creators.drop_last());
        if outstanding(after_calls(targets, address, creators.drop_last()), address) {
            earlier + 1
        } else {
            earlier
        }
    }
}

/// Of any number of calls of `resolve` for one address, made one after the
/// other in whatever order the lock grants, exactly one succeeds if the
/// target was unresolved, and none otherwise. The registry ends as the first
/// call left it.
pub proof fn lemma_resolve_wins_once(
    targets: Seq<Target>,
    address: Address,
    creators: Seq<Option<Address>>,
)
    requires
        creators.len() >= 1,
    ensures
        wins(targets, address, creators) == if outstanding(targets, address) {
            1nat
        } else {
            0nat
        },
        after_calls(targets, address, creators) == with_resolved(targets, address, creators[0]),
        !outstanding(after_calls(targets, address, creators), address),
    decreases creators.len(),
{
    if creators.len() == 1 {
        assert(wins(targets, address, creators.drop_last()) == 0);
    } else {
        let earlier = creators.drop_last();
        lemma_resolve_wins_once(targets, address, earlier);
    }
}

/// A second match for a resolved target is a no-op: after `resolve` the
/// address is no longer outstanding, and resolving it again, with whatever
/// creator, changes nothing.
pub proof fn lemma_resolve_is_idempotent(
    targets: Seq<Target>,
    address: Address,
    creator: Option<Address>,
    again: Option<Address>,
)
    ensures
        !outstanding(with_resolved(targets, address, creator), address),
        with_resolved(with_resolved(targets, address, creator), address, again) == with_resolved(
            targets,
            address,
            creator,
        ),
        !outstanding(targets, address) ==> with_resolved(targets, address, creator) == targets,
{
}

/// The final sweep returns exactly the targets that are outstanding: an
/// address is among those left over if and only if it is a target that is
/// still unresolved, and where no address occurs twice among the targets,
/// none occurs twice among those left over.
pub proof fn lemma_leftovers_are_the_outstanding(targets: Seq<Target>)
    ensures
        forall|address: Address|
            #![trigger holds(leftovers(targets), address)]
            #![trigger outstanding(targets, address)]
            holds(leftovers(targets), address) <==> outstanding(targets, address),
        forall|i: int|
            0 <= i < leftovers(targets).len() ==> (#[trigger] leftovers(targets)[i]).resolution is Unresolved,
        distinct_addresses(targets) ==> distinct_addresses(leftovers(targets)),
    decreases targets.len(),
{
    reveal(Seq::filter);
    if targets.len() > 0 {
        let rest = targets.drop_last();
        let end = targets.len() - 1;
        let left = leftovers(targets);
        let before = leftovers(rest);
        lemma_leftovers_are_the_outstanding(rest);
        assert forall|address: Address| holds(left, address) <==> outstanding(
            targets,
            address,
        ) by {
            if outstanding(targets, address) {
                let j = choose|j: int|
                    0 <= j < targets.len() && (#[trigger] targets[j]).address == address
                        && targets[j].resolution is Unresolved;
                if j < end {
                    assert(rest[j].address == address && rest[j].resolution is Unresolved);
                    assert(holds(before, address));
                    let i = choose|i: int|
                        0 <= i < before.len() && (#[trigger] before[i]).address == address;
                    assert(left[i].address == address);
                } else {
                    assert(left[left.len() - 1].address == address);
                }
            }
        }
        if distinct_addresses(targets) {
            assert forall|i: int, j: int| 0 <= i < j < left.len() implies (#[trigger] left[i]).address
                != (#[trigger] left[j]).address by {
                if j >= before.len() {
                    assert(outstanding(rest, before[i].address));
                }
            }
        }
    }
}

/// A registry loses no address and holds none twice: the first target of
/// each address is kept, so an address is held after seeding if and only if
/// it was among the targets given.
pub proof fn lemma_first_of_each_keeps_every_address(targets: Seq<Target>)
    ensures
        distinct_addresses(first_of_each(targets)),
        forall|address: Address|
            #![trigger holds(first_of_each(targets), address)]
            #![trigger holds(targets, address)]
            holds(first_of_each(targets), address) <==> holds(targets, address),
    decreases targets.len(),
{
    if targets.len() > 0 {
        let rest = targets.drop_last();
        let last = targets.last();
        let end = targets.len() - 1;
        let kept = first_of_each(rest);
        let all = first_of_each(targets);
        lemma_first_of_each_keeps_every_address(rest);
        assert forall|address: Address| holds(all, address) <==> holds(targets, address) by {
            if holds(all, address) {
                let i = choose|i: int| 0 <= i < all.len() && (#[trigger] all[i]).address == address;
                if i < kept.len() {
                    assert(holds(rest, address));
                }
            }
            if holds(targets, address) {
                let j = choose|j: int|
                    0 <= j < targets.len() && (#[trigger] targets[j]).address == address;
                if j < end {
                    assert(rest[j].address == address);
                    assert(holds(kept, address));
                    let i = choose|i: int| 0 <= i < kept.len() && (#[trigger] kept[i]).address == address;
                    assert(all[i].address == address);
                } else if !holds(kept, last.address) {
                    assert(all[all.len() - 1].address == address);
                }
            }
        }
    }
}

} // verus!
