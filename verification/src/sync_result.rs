//! What a sync did to each object that it visited, and the summary of each result.
use vstd::prelude::*;

use crate::graph;
use crate::sync_summary::{
    one_skipped_object, one_synced_object, tally_add, tally_fits, tally_le, tally_sum, tally_zero,
    SyncSummary, SyncTally,
};
use crate::tracking;

verus! {

pub enum SyncPayloadResult {
    /// The payload did not need to be synced
    Skipped,
    /// The payload was synced
    Synced { size: u64 },
}

pub enum SyncBlobResult {
    /// The blob did not need to be synced
    Skipped,
    /// The blob was synced
    Synced { blob: graph::Blob, result: SyncPayloadResult },
}

pub enum SyncEntryResult {
    /// The entry did not need to be synced
    Skipped,
    /// The entry was synced
    Synced { entry: graph::Entry, result: SyncBlobResult },
}

pub enum SyncManifestResult {
    /// The manifest did not need to be synced
    Skipped,
    /// The manifest was at least partially synced
    Synced { manifest: graph::Manifest, results: Vec<SyncEntryResult> },
}

pub enum SyncLayerResult {
    /// The layer did not need to be synced
    Skipped,
    /// The layer was synced
    Synced { layer: graph::Layer, result: SyncManifestResult },
}

pub enum SyncPlatformResult {
    /// The platform did not need to be synced
    Skipped,
    /// The platform was at least partially synced
    Synced { platform: graph::Platform, results: Vec<SyncObjectResult> },
}

pub enum SyncObjectResult {
    Platform(SyncPlatformResult),
    Layer(SyncLayerResult),
    Blob(SyncBlobResult),
    Manifest(SyncManifestResult),
    Tree(graph::Tree),
    Mask,
}

pub enum SyncTagResult {
    /// The tag did not need to be synced
    Skipped,
    /// The tag was synced
    Synced { tag: tracking::TagSpec, result: SyncObjectResult },
}

pub enum SyncEnvItemResult {
    Tag(SyncTagResult),
    Object(SyncObjectResult),
}

pub struct SyncEnvResult {
    pub env: tracking::EnvSpec,
    pub results: Vec<SyncEnvItemResult>,
}

// ---- what each result counts ----

pub open spec fn payload_tally(r: SyncPayloadResult) -> SyncTally {
    match r {
        SyncPayloadResult::Skipped => SyncTally { skipped_payloads: 1, ..tally_zero() },
        SyncPayloadResult::Synced { size } => SyncTally {
            synced_payloads: 1,
            synced_payload_bytes: size as nat,
            ..tally_zero()
        },
    }
}

pub open spec fn blob_tally(r: SyncBlobResult) -> SyncTally {
    match r {
        SyncBlobResult::Skipped => one_skipped_object(),
        SyncBlobResult::Synced { result, .. } => tally_add(payload_tally(result), one_synced_object()),
    }
}

pub open spec fn entry_tally(r: SyncEntryResult) -> SyncTally {
    match r {
        SyncEntryResult::Skipped => one_skipped_object(),
        SyncEntryResult::Synced { result, .. } => tally_add(blob_tally(result), one_synced_object()),
    }
}

pub open spec fn entries_tally(s: Seq<SyncEntryResult>) -> SyncTally {
    tally_sum(s.map_values(|r: SyncEntryResult| entry_tally(r)))
}

pub open spec fn manifest_tally(r: SyncManifestResult) -> SyncTally {
    match r {
        SyncManifestResult::Skipped => one_skipped_object(),
        SyncManifestResult::Synced { results, .. } => tally_add(
            entries_tally(results@),
            one_synced_object(),
        ),
    }
}

pub open spec fn layer_tally(r: SyncLayerResult) -> SyncTally {
    match r {
        SyncLayerResult::Skipped => one_skipped_object(),
        SyncLayerResult::Synced { result, .. } => tally_add(
            manifest_tally(result),
            one_synced_object(),
        ),
    }
}

pub open spec fn object_tally(r: SyncObjectResult) -> SyncTally
    decreases r, 0nat,
{
    match r {
        SyncObjectResult::Platform(p) => platform_tally(p),
        SyncObjectResult::Layer(l) => layer_tally(l),
        SyncObjectResult::Blob(b) => blob_tally(b),
        SyncObjectResult::Manifest(m) => manifest_tally(m),
        SyncObjectResult::Tree(_) => tally_zero(),
        SyncObjectResult::Mask => tally_zero(),
    }
}

pub open spec fn platform_tally(r: SyncPlatformResult) -> SyncTally
    decreases r, 1nat,
{
    match r {
        SyncPlatformResult::Skipped => one_skipped_object(),
        SyncPlatformResult::Synced { results, .. } => {
            proof {
                assert(decreases_to!(r => results));
            }
            tally_add(objects_tally(results@), one_synced_object())
        },
    }
}

/// The sum of the tallies of a sequence of object results, first to last.
pub open spec fn objects_tally(s: Seq<SyncObjectResult>) -> SyncTally
    decreases s, 2nat,
{
    if s.len() == 0 {
        tally_zero()
    } else {
        proof {
            assert(decreases_to!(s => s.drop_last()));
        }
        tally_add(objects_tally(s.drop_last()), object_tally(s.last()))
    }
}

pub open spec fn tag_tally(r: SyncTagResult) -> SyncTally {
    match r {
        SyncTagResult::Skipped => SyncTally { skipped_tags: 1, ..tally_zero() },
        SyncTagResult::Synced { result, .. } => tally_add(
            object_tally(result),
            SyncTally { synced_tags: 1, ..tally_zero() },
        ),
    }
}

pub open spec fn env_item_tally(r: SyncEnvItemResult) -> SyncTally {
    match r {
        SyncEnvItemResult::Tag(t) => tag_tally(t),
        SyncEnvItemResult::Object(o) => object_tally(o),
    }
}

pub open spec fn env_tally(r: SyncEnvResult) -> SyncTally {
    tally_sum(r.results@.map_values(|i: SyncEnvItemResult| env_item_tally(i)))
}

/// An object result counts no tags: tags are counted by tag results alone.
pub proof fn lemma_object_tally_counts_no_tags(r: SyncObjectResult)
    ensures
        object_tally(r).synced_tags == 0,
        object_tally(r).skipped_tags == 0,
    decreases r, 0nat,
{
    match r {
        SyncObjectResult::Platform(p) => {
            match p {
                SyncPlatformResult::Skipped => {},
                SyncPlatformResult::Synced { results, .. } => {
                    assert(decreases_to!(r => p));
                    assert(decreases_to!(p => results));
                    assert(decreases_to!(results => results@));
                    lemma_objects_tally_counts_no_tags(results@);
                },
            }
        },
        SyncObjectResult::Layer(SyncLayerResult::Synced { result: SyncManifestResult::Synced { results, .. }, .. }) => {
            lemma_entries_tally_counts_no_tags(results@);
        },
        SyncObjectResult::Manifest(SyncManifestResult::Synced { results, .. }) => {
            lemma_entries_tally_counts_no_tags(results@);
        },
        _ => {},
    }
}

/// A sequence of entry results counts no tags.
proof fn lemma_entries_tally_counts_no_tags(s: Seq<SyncEntryResult>)
    ensures
        entries_tally(s).synced_tags == 0,
        entries_tally(s).skipped_tags == 0,
    decreases s.len(),
{
    if s.len() > 0 {
        let f = |r: SyncEntryResult| entry_tally(r);
        assert(s.map_values(f).drop_last() =~= s.drop_last().map_values(f));
        lemma_entries_tally_counts_no_tags(s.drop_last());
    }
}

/// A sequence of object results counts no tags.
pub proof fn lemma_objects_tally_counts_no_tags(s: Seq<SyncObjectResult>)
    ensures
        objects_tally(s).synced_tags == 0,
        objects_tally(s).skipped_tags == 0,
    decreases s, 1nat,
{
    if s.len() > 0 {
        assert(decreases_to!(s => s.drop_last()));
        assert(decreases_to!(s => s[s.len() - 1]));
        lemma_objects_tally_counts_no_tags(s.drop_last());
        lemma_object_tally_counts_no_tags(s.last());
    }
}

// ---- prefix lemmas ----

proof fn lemma_entries_tally_step(s: Seq<SyncEntryResult>, i: int)
    requires
        0 <= i < s.len(),
    ensures
        entries_tally(s.take(i + 1)) == tally_add(entries_tally(s.take(i)), entry_tally(s[i])),
        tally_le(entries_tally(s.take(i + 1)), entries_tally(s)),
{
    let f = |r: SyncEntryResult| entry_tally(r);
    assert(s.take(i + 1).map_values(f).drop_last() =~= s.take(i).map_values(f));
    assert(s.map_values(f).take(i + 1) =~= s.take(i + 1).map_values(f));
    crate::sync_summary::lemma_tally_sum_prefix_le(s.map_values(f), i + 1);
}

proof fn lemma_env_items_tally_step(s: Seq<SyncEnvItemResult>, i: int)
    requires
        0 <= i < s.len(),
    ensures
        tally_sum(s.take(i + 1).map_values(|r: SyncEnvItemResult| env_item_tally(r))) == tally_add(
            tally_sum(s.take(i).map_values(|r: SyncEnvItemResult| env_item_tally(r))),
            env_item_tally(s[i]),
        ),
        tally_le(
            tally_sum(s.take(i + 1).map_values(|r: SyncEnvItemResult| env_item_tally(r))),
            tally_sum(s.map_values(|r: SyncEnvItemResult| env_item_tally(r))),
        ),
{
    let f = |r: SyncEnvItemResult| env_item_tally(r);
    assert(s.take(i + 1).map_values(f).drop_last() =~= s.take(i).map_values(f));
    assert(s.map_values(f).take(i + 1) =~= s.take(i + 1).map_values(f));
    crate::sync_summary::lemma_tally_sum_prefix_le(s.map_values(f), i + 1);
}

proof fn lemma_objects_tally_prefix_le(s: Seq<SyncObjectResult>, i: int)
    requires
        0 <= i <= s.len(),
    ensures
        tally_le(objects_tally(s.take(i)), objects_tally(s)),
    decreases s.len(),
{
    if i == s.len() {
        assert(s.take(i) =~= s);
    } else {
        lemma_objects_tally_prefix_le(s.drop_last(), i);
        assert(s.drop_last().take(i) =~= s.take(i));
    }
}

proof fn lemma_objects_tally_step(s: Seq<SyncObjectResult>, i: int)
    requires
        0 <= i < s.len(),
    ensures
        objects_tally(s.take(i + 1)) == tally_add(objects_tally(s.take(i)), object_tally(s[i])),
        tally_le(objects_tally(s.take(i + 1)), objects_tally(s)),
{
    assert(s.take(i + 1).drop_last() =~= s.take(i));
    lemma_objects_tally_prefix_le(s, i + 1);
}

// ---- summaries ----

impl SyncPayloadResult {
    pub fn summary(&self) -> (s: SyncSummary)
        ensures
            s@ == payload_tally(*self),
    {
        match self {
            SyncPayloadResult::Skipped => SyncSummary { skipped_payloads: 1, ..SyncSummary::default() },
            SyncPayloadResult::Synced { size } => SyncSummary {
                synced_payloads: 1,
                synced_payload_bytes: *size,
                ..SyncSummary::default()
            },
        }
    }
}

impl SyncBlobResult {
    pub fn summary(&self) -> (s: SyncSummary)
        requires
            tally_fits(blob_tally(*self)),
        ensures
            s@ == blob_tally(*self),
    {
        match self {
            SyncBlobResult::Skipped => SyncSummary::skipped_one_object(),
            SyncBlobResult::Synced { result, .. } => {
                let mut summary = result.summary();
                summary.add_assign(SyncSummary::synced_one_object());
                summary
            },
        }
    }
}

impl SyncEntryResult {
    pub fn summary(&self) -> (s: SyncSummary)
        requires
            tally_fits(entry_tally(*self)),
        ensures
            s@ == entry_tally(*self),
    {
        match self {
            SyncEntryResult::Skipped => SyncSummary::skipped_one_object(),
            SyncEntryResult::Synced { result, .. } => {
                let mut summary = result.summary();
                summary.add_assign(SyncSummary::synced_one_object());
                summary
            },
        }
    }
}

impl SyncManifestResult {
    pub fn summary(&self) -> (s: SyncSummary)
        requires
            tally_fits(manifest_tally(*self)),
        ensures
            s@ == manifest_tally(*self),
    {
        match self {
            SyncManifestResult::Skipped => SyncSummary::skipped_one_object(),
            SyncManifestResult::Synced { results, .. } => {
                let ghost total = entries_tally(results@);
                let mut summary = SyncSummary::default();
                let mut i: usize = 0;
                while i < results.len()
                    invariant
                        i <= results.len(),
                        total == entries_tally(results@),
                        tally_fits(total),
                        tally_le(total, manifest_tally(*self)),
                        summary@ == entries_tally(results@.take(i as int)),
                    decreases results.len() - i,
                {
                    proof {
                        lemma_entries_tally_step(results@, i as int);
                        assert(results@.take(i as int) =~= results@.take(i as int));
                    }
                    let child = results[i].summary();
                    summary.add_assign(child);
                    i = i + 1;
                }
                proof {
                    assert(results@.take(i as int) =~= results@);
                }
                summary.add_assign(SyncSummary::synced_one_object());
                summary
            },
        }
    }
}

impl SyncLayerResult {
    pub fn summary(&self) -> (s: SyncSummary)
        requires
            tally_fits(layer_tally(*self)),
        ensures
            s@ == layer_tally(*self),
    {
        match self {
            SyncLayerResult::Skipped => SyncSummary::skipped_one_object(),
            SyncLayerResult::Synced { result, .. } => {
                let mut summary = result.summary();
                summary.add_assign(SyncSummary::synced_one_object());
                summary
            },
        }
    }
}

impl SyncPlatformResult {
    pub fn summary(&self) -> (s: SyncSummary)
        requires
            tally_fits(platform_tally(*self)),
        ensures
            s@ == platform_tally(*self),
        decreases *self, 1nat,
    {
        match self {
            SyncPlatformResult::Skipped => SyncSummary::skipped_one_object(),
            SyncPlatformResult::Synced { results, .. } => {
                let ghost total = objects_tally(results@);
                let mut summary = SyncSummary::default();
                let mut i: usize = 0;
                while i < results.len()
                    invariant
                        i <= results.len(),
                        total == objects_tally(results@),
                        tally_fits(total),
                        summary@ == objects_tally(results@.take(i as int)),
                        *self is Synced,
                        *results == self->results,
                    decreases results.len() - i,
                {
                    proof {
                        lemma_objects_tally_step(results@, i as int);
                        assert(*results == self->results);
                        assert(decreases_to!(*self => self->results));
                        assert(decreases_to!(*results => results@));
                        assert(decreases_to!(results@ => results@[i as int]));
                    }
                    let child = results[i].summary();
                    summary.add_assign(child);
                    i = i + 1;
                }
                proof {
                    assert(results@.take(i as int) =~= results@);
                }
                summary.add_assign(SyncSummary::synced_one_object());
                summary
            },
        }
    }
}

impl SyncObjectResult {
    pub fn summary(&self) -> (s: SyncSummary)
        requires
            tally_fits(object_tally(*self)),
        ensures
            s@ == object_tally(*self),
        decreases *self, 0nat,
    {
        match self {
            SyncObjectResult::Platform(res) => res.summary(),
            SyncObjectResult::Layer(res) => res.summary(),
            SyncObjectResult::Blob(res) => res.summary(),
            SyncObjectResult::Manifest(res) => res.summary(),
            SyncObjectResult::Tree(_) => SyncSummary::default(),
            SyncObjectResult::Mask => SyncSummary::default(),
        }
    }
}

impl SyncTagResult {
    pub fn summary(&self) -> (s: SyncSummary)
        requires
            tally_fits(tag_tally(*self)),
        ensures
            s@ == tag_tally(*self),
    {
        match self {
            SyncTagResult::Skipped => SyncSummary { skipped_tags: 1, ..SyncSummary::default() },
            SyncTagResult::Synced { result, .. } => {
                let mut summary = result.summary();
                summary.synced_tags = summary.synced_tags + 1;
                summary
            },
        }
    }
}

impl SyncEnvItemResult {
    /// The summary of the tag or object result that this item holds.
    pub fn summary(&self) -> (s: SyncSummary)
        requires
            tally_fits(env_item_tally(*self)),
        ensures
            s@ == env_item_tally(*self),
            *self matches SyncEnvItemResult::Tag(t) ==> s@ == tag_tally(t),
            *self matches SyncEnvItemResult::Object(o) ==> s@ == object_tally(o),
    {
        match self {
            SyncEnvItemResult::Tag(r) => r.summary(),
            SyncEnvItemResult::Object(r) => r.summary(),
        }
    }
}

impl SyncEnvResult {
    pub fn summary(&self) -> (s: SyncSummary)
        requires
            tally_fits(env_tally(*self)),
        ensures
            s@ == env_tally(*self),
    {
        let ghost f = |r: SyncEnvItemResult| env_item_tally(r);
        let mut summary = SyncSummary::default();
        let mut i: usize = 0;
        while i < self.results.len()
            invariant
                i <= self.results@.len(),
                tally_fits(env_tally(*self)),
                env_tally(*self) == tally_sum(self.results@.map_values(f)),
                f == (|r: SyncEnvItemResult| env_item_tally(r)),
                summary@ == tally_sum(self.results@.take(i as int).map_values(f)),
            decreases self.results.len() - i,
        {
            proof {
                lemma_env_items_tally_step(self.results@, i as int);
            }
            let child = self.results[i].summary();
            summary.add_assign(child);
            i = i + 1;
        }
        proof {
            assert(self.results@.take(i as int) =~= self.results@);
        }
        summary
    }
}

} // verus!
