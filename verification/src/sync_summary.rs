//! Counting what a sync did: the summary of each kind of sync result.
use vstd::prelude::*;


verus! {

/// The counts of a summary, as unbounded naturals.
pub struct SyncTally {
    pub skipped_tags: nat,
    pub synced_tags: nat,
    pub skipped_objects: nat,
    pub synced_objects: nat,
    pub skipped_payloads: nat,
    pub synced_payloads: nat,
    pub synced_payload_bytes: nat,
}

pub open spec fn tally_zero() -> SyncTally {
    SyncTally {
        skipped_tags: 0,
        synced_tags: 0,
        skipped_objects: 0,
        synced_objects: 0,
        skipped_payloads: 0,
        synced_payloads: 0,
        synced_payload_bytes: 0,
    }
}

/// Field-by-field addition of two tallies.
pub open spec fn tally_add(a: SyncTally, b: SyncTally) -> SyncTally {
    SyncTally {
        skipped_tags: a.skipped_tags + b.skipped_tags,
        synced_tags: a.synced_tags + b.synced_tags,
        skipped_objects: a.skipped_objects + b.skipped_objects,
        synced_objects: a.synced_objects + b.synced_objects,
        skipped_payloads: a.skipped_payloads + b.skipped_payloads,
        synced_payloads: a.synced_payloads + b.synced_payloads,
        synced_payload_bytes: a.synced_payload_bytes + b.synced_payload_bytes,
    }
}

/// Every count is no larger in `a` than in `b`.
pub open spec fn tally_le(a: SyncTally, b: SyncTally) -> bool {
    &&& a.skipped_tags <= b.skipped_tags
    &&& a.synced_tags <= b.synced_tags
    &&& a.skipped_objects <= b.skipped_objects
    &&& a.synced_objects <= b.synced_objects
    &&& a.skipped_payloads <= b.skipped_payloads
    &&& a.synced_payloads <= b.synced_payloads
    &&& a.synced_payload_bytes <= b.synced_payload_bytes
}

/// Every count fits in the machine integer that holds it.
pub open spec fn tally_fits(t: SyncTally) -> bool {
    &&& t.skipped_tags <= usize::MAX
    &&& t.synced_tags <= usize::MAX
    &&& t.skipped_objects <= usize::MAX
    &&& t.synced_objects <= usize::MAX
    &&& t.skipped_payloads <= usize::MAX
    &&& t.synced_payloads <= usize::MAX
    &&& t.synced_payload_bytes <= u64::MAX
}

/// The sum of a sequence of tallies, first to last.
pub open spec fn tally_sum(s: Seq<SyncTally>) -> SyncTally
    decreases s.len(),
{
    if s.len() == 0 {
        tally_zero()
    } else {
        tally_add(tally_sum(s.drop_last()), s.last())
    }
}

pub open spec fn one_skipped_object() -> SyncTally {
    SyncTally { skipped_objects: 1, ..tally_zero() }
}

pub open spec fn one_synced_object() -> SyncTally {
    SyncTally { synced_objects: 1, ..tally_zero() }
}

/// A count of the tags, objects and payloads that a sync visited.
#[derive(Clone, Copy, Debug)]
pub struct SyncSummary {
    pub skipped_tags: usize,
    pub synced_tags: usize,
    pub skipped_objects: usize,
    pub synced_objects: usize,
    pub skipped_payloads: usize,
    pub synced_payloads: usize,
    pub synced_payload_bytes: u64,
}

impl View for SyncSummary {
    type V = SyncTally;

    open spec fn view(&self) -> SyncTally {
        SyncTally {
            skipped_tags: self.skipped_tags as nat,
            synced_tags: self.synced_tags as nat,
            skipped_objects: self.skipped_objects as nat,
            synced_objects: self.synced_objects as nat,
            skipped_payloads: self.skipped_payloads as nat,
            synced_payloads: self.synced_payloads as nat,
            synced_payload_bytes: self.synced_payload_bytes as nat,
        }
    }
}

impl Default for SyncSummary {
    fn default() -> (s: Self)
        ensures
            s@ == tally_zero(),
    {
        SyncSummary {
            skipped_tags: 0,
            synced_tags: 0,
            skipped_objects: 0,
            synced_objects: 0,
            skipped_payloads: 0,
            synced_payloads: 0,
            synced_payload_bytes: 0,
        }
    }
}

impl SyncSummary {
    pub fn skipped_one_object() -> (s: Self)
        ensures
            s@ == one_skipped_object(),
    {
        SyncSummary { skipped_objects: 1, ..SyncSummary::default() }
    }

    pub fn synced_one_object() -> (s: Self)
        ensures
            s@ == one_synced_object(),
    {
        SyncSummary { synced_objects: 1, ..SyncSummary::default() }
    }

    /// Adds every count of `rhs` into this summary.
    pub fn add_assign(&mut self, rhs: Self)
        requires
            tally_fits(tally_add(old(self)@, rhs@)),
        ensures
            final(self)@ == tally_add(old(self)@, rhs@),
    {
        self.skipped_tags = self.skipped_tags + rhs.skipped_tags;
        self.synced_tags = self.synced_tags + rhs.synced_tags;
        self.skipped_objects = self.skipped_objects + rhs.skipped_objects;
        self.synced_objects = self.synced_objects + rhs.synced_objects;
        self.skipped_payloads = self.skipped_payloads + rhs.skipped_payloads;
        self.synced_payloads = self.synced_payloads + rhs.synced_payloads;
        self.synced_payload_bytes = self.synced_payload_bytes + rhs.synced_payload_bytes;
    }

    /// The sum of all of the given summaries.
    pub fn sum(summaries: Vec<SyncSummary>) -> (s: Self)
        requires
            tally_fits(tally_sum(summaries@.map_values(|x: SyncSummary| x@))),
        ensures
            s@ == tally_sum(summaries@.map_values(|x: SyncSummary| x@)),
    {
        let ghost tallies = summaries@.map_values(|x: SyncSummary| x@);
        let mut total = SyncSummary::default();
        let mut i: usize = 0;
        while i < summaries.len()
            invariant
                i <= summaries.len(),
                tallies == summaries@.map_values(|x: SyncSummary| x@),
                total@ == tally_sum(tallies.take(i as int)),
                tally_fits(tally_sum(tallies)),
            decreases summaries.len() - i,
        {
            proof {
                lemma_tally_sum_prefix_le(tallies, i as int + 1);
                assert(tallies.take(i as int + 1).drop_last() =~= tallies.take(i as int));
            }
            total.add_assign(summaries[i]);
            i = i + 1;
        }
        proof {
            assert(tallies.take(i as int) =~= tallies);
        }
        total
    }
}

/// The sum of a prefix is bounded by the sum of the whole sequence.
pub proof fn lemma_tally_sum_prefix_le(s: Seq<SyncTally>, i: int)
    requires
        0 <= i <= s.len(),
    ensures
        tally_le(tally_sum(s.take(i)), tally_sum(s)),
    decreases s.len(),
{
    if i == s.len() {
        assert(s.take(i) =~= s);
    } else {
        lemma_tally_sum_prefix_le(s.drop_last(), i);
        assert(s.drop_last().take(i) =~= s.take(i));
    }
}

} // verus!
