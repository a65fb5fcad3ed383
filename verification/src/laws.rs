//! Properties that hold across the library's functions.
use vstd::prelude::*;

use crate::diff::{diff_at, diff_kind, is_reported, Diff, DiffKind, DiffMode};
use crate::meta::label_map;
use crate::sync_result::{
    env_item_tally, env_tally, lemma_object_tally_counts_no_tags, SyncEnvItemResult, SyncEnvResult,
    SyncTagResult,
};
use crate::sync_summary::{tally_add, tally_sum, SyncTally};
use crate::text::{occurs_at, path_lt, replace_all};
use crate::tracking::{entry_copy, Manifest};
use crate::upgrade::{version_after, RepoVersion};

verus! {

/// Summing summaries in two parts and adding the two totals gives the
/// total of all of them.
pub proof fn law_summary_sum_splits(a: Seq<SyncTally>, b: Seq<SyncTally>)
    ensures
        tally_sum(a + b) == tally_add(tally_sum(a), tally_sum(b)),
    decreases b.len(),
{
    if b.len() == 0 {
        assert(a + b =~= a);
    } else {
        law_summary_sum_splits(a, b.drop_last());
        assert((a + b).drop_last() =~= a + b.drop_last());
        assert((a + b).last() == b.last());
    }
}

/// The items of an environment sync that are tags it synced.
pub open spec fn synced_tag_items(s: Seq<SyncEnvItemResult>) -> Seq<SyncEnvItemResult> {
    s.filter(|i: SyncEnvItemResult| i matches SyncEnvItemResult::Tag(SyncTagResult::Synced { .. }))
}

/// The items of an environment sync that are tags it skipped.
pub open spec fn skipped_tag_items(s: Seq<SyncEnvItemResult>) -> Seq<SyncEnvItemResult> {
    s.filter(|i: SyncEnvItemResult| i matches SyncEnvItemResult::Tag(SyncTagResult::Skipped))
}

/// The summary of an environment sync counts one synced tag for each tag
/// item that was synced and one skipped tag for each tag item that was
/// skipped, and no other tags: the objects that were synced count none.
pub proof fn law_env_summary_counts_tags(r: SyncEnvResult)
    ensures
        env_tally(r).synced_tags == synced_tag_items(r.results@).len(),
        env_tally(r).skipped_tags == skipped_tag_items(r.results@).len(),
{
    lemma_env_items_count_tags(r.results@);
}

proof fn lemma_env_items_count_tags(s: Seq<SyncEnvItemResult>)
    ensures
        tally_sum(s.map_values(|i: SyncEnvItemResult| env_item_tally(i))).synced_tags == synced_tag_items(s).len(),
        tally_sum(s.map_values(|i: SyncEnvItemResult| env_item_tally(i))).skipped_tags == skipped_tag_items(s).len(),
    decreases s.len(),
{
    reveal_with_fuel(Seq::filter, 1);
    if s.len() > 0 {
        let f = |i: SyncEnvItemResult| env_item_tally(i);
        assert(s.map_values(f).drop_last() =~= s.drop_last().map_values(f));
        lemma_env_items_count_tags(s.drop_last());
        match s.last() {
            SyncEnvItemResult::Tag(SyncTagResult::Synced { result, .. }) => {
                lemma_object_tally_counts_no_tags(result);
            },
            SyncEnvItemResult::Object(o) => {
                lemma_object_tally_counts_no_tags(o);
            },
            _ => {},
        }
    }
}

/// A manifest compared with itself shows every entry unchanged, but for a
/// mask, which shows as removed.
pub proof fn law_diff_with_itself<U>(a: Manifest<U>, p: Seq<char>)
    requires
        a.has_path(p),
    ensures
        a.entry_at(p).kind is Mask ==> diff_kind(a, a, p) == DiffKind::Removed,
        !(a.entry_at(p).kind is Mask) ==> diff_kind(a, a, p) == DiffKind::Unchanged,
{
}

/// The diffs of a manifest without masks with itself, as `compute_diff`
/// gives them (each reported diff is the diff at its path, in path order,
/// and every path is reported), are one per path of the manifest, each
/// unchanged and holding the manifest's entry at that path.
pub proof fn law_compute_diff_with_itself<U: Clone>(a: Manifest<U>, changes: Seq<Diff<U, U>>)
    requires
        forall|p: Seq<char>| a.has_path(p) ==> !(#[trigger] a.entry_at(p).kind is Mask),
        forall|k: int|
            0 <= k < changes.len() ==> #[trigger] is_reported(diff_kind(a, a, changes[k].path@))
                && diff_at(a, a, changes[k].path@, changes[k]),
        forall|k1: int, k2: int|
            0 <= k1 < k2 < changes.len() ==> path_lt(
                #[trigger] changes[k1].path@,
                #[trigger] changes[k2].path@,
            ),
        forall|p: Seq<char>|
            (a.has_path(p) || a.has_path(p)) && is_reported(#[trigger] diff_kind(a, a, p))
                ==> exists|k: int| 0 <= k < changes.len() && #[trigger] changes[k].path@ == p,
    ensures
        forall|k: int|
            0 <= k < changes.len() ==> a.has_path(changes[k].path@) && (#[trigger] changes[k].mode matches DiffMode::Unchanged(e)
                && entry_copy(a.entry_at(changes[k].path@), e)),
        forall|p: Seq<char>|
            #[trigger] a.has_path(p) ==> exists|k: int| 0 <= k < changes.len() && changes[k].path@ == p,
        forall|k1: int, k2: int|
            0 <= k1 < k2 < changes.len() ==> #[trigger] changes[k1].path@ != #[trigger] changes[k2].path@,
{
    assert forall|k: int| 0 <= k < changes.len() implies a.has_path(changes[k].path@) && (
    #[trigger] changes[k].mode matches DiffMode::Unchanged(e) && entry_copy(
        a.entry_at(changes[k].path@),
        e,
    )) by {
        assert(is_reported(diff_kind(a, a, changes[k].path@)));
        assert(diff_at(a, a, changes[k].path@, changes[k]));
        law_diff_with_itself(a, changes[k].path@);
    }
    assert forall|p: Seq<char>| #[trigger] a.has_path(p) implies exists|k: int|
        0 <= k < changes.len() && changes[k].path@ == p by {
        law_diff_with_itself(a, p);
        assert(is_reported(diff_kind(a, a, p)));
    }
    assert forall|k1: int, k2: int| 0 <= k1 < k2 < changes.len() implies #[trigger] changes[k1].path@
        != #[trigger] changes[k2].path@ by {
        assert(path_lt(changes[k1].path@, changes[k2].path@));
        crate::text::lemma_path_lt_irreflexive(changes[k1].path@);
    }
}

/// An entry that only one side has shows as added one way round and as
/// removed the other way round (masks aside).
pub proof fn law_diff_added_is_removed_reversed<U>(a: Manifest<U>, b: Manifest<U>, p: Seq<char>)
    requires
        b.has_path(p),
        !a.has_path(p),
        !(b.entry_at(p).kind is Mask),
    ensures
        diff_kind(a, b, p) == DiffKind::Added,
        diff_kind(b, a, p) == DiffKind::Removed,
{
}

/// Two entries at the same path that hold the same content show as
/// unchanged both ways round; different content shows as changed both ways.
pub proof fn law_diff_symmetric_in_content<U>(a: Manifest<U>, b: Manifest<U>, p: Seq<char>)
    requires
        a.has_path(p),
        b.has_path(p),
        !(a.entry_at(p).kind is Mask),
        !(b.entry_at(p).kind is Mask),
    ensures
        diff_kind(a, b, p) == DiffKind::Unchanged <==> diff_kind(b, a, p) == DiffKind::Unchanged,
        diff_kind(a, b, p) == DiffKind::Changed <==> diff_kind(b, a, p) == DiffKind::Changed,
{
}

/// At a path that both manifests hold, neither as a mask, the entries show
/// as unchanged exactly when their kind, object, mode and size all agree,
/// and as changed otherwise; in particular a change of mode alone (a file
/// made executable) shows as changed.
pub proof fn law_diff_unchanged_iff_fields_agree<U1, U2>(a: Manifest<U1>, b: Manifest<U2>, p: Seq<char>)
    requires
        a.has_path(p),
        b.has_path(p),
        !(a.entry_at(p).kind is Mask),
        !(b.entry_at(p).kind is Mask),
    ensures
        diff_kind(a, b, p) == DiffKind::Unchanged <==> (a.entry_at(p).kind == b.entry_at(p).kind
            && a.entry_at(p).object == b.entry_at(p).object && a.entry_at(p).mode == b.entry_at(p).mode
            && a.entry_at(p).size == b.entry_at(p).size),
        diff_kind(a, b, p) == DiffKind::Changed <==> !(a.entry_at(p).kind == b.entry_at(p).kind
            && a.entry_at(p).object == b.entry_at(p).object && a.entry_at(p).mode == b.entry_at(p).mode
            && a.entry_at(p).size == b.entry_at(p).size),
        a.entry_at(p).mode != b.entry_at(p).mode ==> diff_kind(a, b, p) == DiffKind::Changed,
{
}

/// The place of a version in the order of versions: its major, minor and
/// patch numbers read as the digits of one number in base 2^64.
pub open spec fn version_rank(v: RepoVersion) -> int {
    v.major * 0x1_0000_0000_0000_0000_0000_0000_0000_0000int + v.minor * 0x1_0000_0000_0000_0000int
        + v.patch
}

/// One version is later than another exactly when it comes after it in the
/// order of (major, minor, patch), compared number by number: the patch
/// number counts where major and minor agree.
pub proof fn law_version_order_is_numeric(a: RepoVersion, b: RepoVersion)
    ensures
        version_after(a, b) <==> version_rank(a) > version_rank(b),
{
    let w: int = 0x1_0000_0000_0000_0000int;
    assert(0x1_0000_0000_0000_0000_0000_0000_0000_0000int == w * w);
    assert(a.minor * w + a.patch < w * w) by (nonlinear_arith)
        requires
            a.minor < w,
            a.patch < w,
            w > 0,
    ;
    assert(b.minor * w + b.patch < w * w) by (nonlinear_arith)
        requires
            b.minor < w,
            b.patch < w,
            w > 0,
    ;
    if a.major > b.major {
        assert(a.major * (w * w) >= b.major * (w * w) + w * w) by (nonlinear_arith)
            requires
                a.major >= b.major + 1,
                w > 0,
        ;
    } else if a.major < b.major {
        assert(b.major * (w * w) >= a.major * (w * w) + w * w) by (nonlinear_arith)
            requires
                b.major >= a.major + 1,
                w > 0,
        ;
    } else if a.minor > b.minor {
        assert(a.minor * w >= b.minor * w + w) by (nonlinear_arith)
            requires
                a.minor >= b.minor + 1,
                w > 0,
        ;
    } else if a.minor < b.minor {
        assert(b.minor * w >= a.minor * w + w) by (nonlinear_arith)
            requires
                b.minor >= a.minor + 1,
                w > 0,
        ;
    }
}

/// Later-than is a strict total order on versions: no version is later than
/// itself, it is transitive, and of two different versions exactly one is
/// later than the other. So a layout `1.0.1` is later than `1.0.0`.
pub proof fn law_version_order_total(a: RepoVersion, b: RepoVersion, c: RepoVersion)
    ensures
        !version_after(a, a),
        version_after(a, b) && version_after(b, c) ==> version_after(a, c),
        a != b ==> (version_after(a, b) <==> !version_after(b, a)),
        a.major == b.major && a.minor == b.minor && a.patch != b.patch ==> (version_after(a, b)
            <==> a.patch > b.patch),
{
    law_version_order_is_numeric(a, a);
    law_version_order_is_numeric(a, b);
    law_version_order_is_numeric(b, a);
    law_version_order_is_numeric(b, c);
    law_version_order_is_numeric(a, c);
}

/// A text in which a dot is never followed by another dot or by a `+`.
pub open spec fn no_dot_before_dot_or_plus(s: Seq<char>) -> bool {
    forall|i: int| 0 <= i < s.len() - 1 && #[trigger] s[i] == '.' ==> s[i + 1] != '.' && s[i + 1] != '+'
}

/// Decoding the tag form of a text gives the text back: `+` is written as
/// two dots, and two dots are read as `+`, for any text in which a dot is
/// never followed by another dot or by a `+` (as in package identifiers).
pub proof fn law_tag_encoding_round_trip(s: Seq<char>)
    requires
        no_dot_before_dot_or_plus(s),
    ensures
        replace_all(replace_all(s, seq!['+'], seq!['.', '.']), seq!['.', '.'], seq!['+']) == s,
    decreases s.len(),
{
    let plus = seq!['+'];
    let dots = seq!['.', '.'];
    if s.len() == 0 {
        return;
    }
    let rest = s.drop_first();
    assert(no_dot_before_dot_or_plus(rest)) by {
        assert forall|i: int| 0 <= i < rest.len() - 1 && #[trigger] rest[i] == '.' implies rest[i + 1] != '.'
            && rest[i + 1] != '+' by {
            assert(rest[i] == s[i + 1]);
            assert(rest[i + 1] == s[i + 2]);
        }
    }
    law_tag_encoding_round_trip(rest);
    let enc_rest = replace_all(rest, plus, dots);
    if s[0] == '+' {
        assert(occurs_at(s, plus, 0)) by {
            assert(s.subrange(0, 1) =~= plus);
        }
        assert(s.skip(1) =~= rest);
        let enc = dots + enc_rest;
        assert(replace_all(s, plus, dots) == enc);
        assert(occurs_at(enc, dots, 0)) by {
            assert(enc.subrange(0, 2) =~= dots);
        }
        assert(enc.skip(2) =~= enc_rest);
        assert(replace_all(enc, dots, plus) == plus + replace_all(enc_rest, dots, plus));
        assert(plus + rest =~= s);
    } else {
        assert(!occurs_at(s, plus, 0)) by {
            assert(s.subrange(0, 1)[0] == s[0]);
        }
        let enc = seq![s[0]] + enc_rest;
        assert(replace_all(s, plus, dots) == enc);
        lemma_encoded_start(rest);
        assert(!occurs_at(enc, dots, 0)) by {
            if s[0] == '.' && enc.len() >= 2 {
                assert(rest.len() > 0);
                assert(s[1] != '.' && s[1] != '+');
                assert(enc[1] == enc_rest[0]);
                assert(enc_rest[0] == rest[0]);
                assert(enc.subrange(0, 2)[1] == enc[1]);
            } else if enc.len() >= 2 {
                assert(enc.subrange(0, 2)[0] == s[0]);
            }
        }
        assert(enc.drop_first() =~= enc_rest);
        assert(replace_all(enc, dots, plus) == seq![s[0]] + replace_all(enc_rest, dots, plus));
        assert(seq![s[0]] + rest =~= s);
    }
}

/// The encoded form of a non-empty text that starts with neither `.` nor
/// `+` starts with the same character.
proof fn lemma_encoded_start(s: Seq<char>)
    ensures
        s.len() > 0 && s[0] != '+' ==> replace_all(s, seq!['+'], seq!['.', '.']).len() > 0
            && replace_all(s, seq!['+'], seq!['.', '.'])[0] == s[0],
        s.len() == 0 ==> replace_all(s, seq!['+'], seq!['.', '.']).len() == 0,
{
    if s.len() > 0 && s[0] != '+' {
        assert(!occurs_at(s, seq!['+'], 0)) by {
            assert(s.subrange(0, 1)[0] == s[0]);
        }
    }
}

/// A label that has just been set reads back with the value it was set to,
/// and every other label is as it was.
pub proof fn law_label_set_then_read(
    labels: Map<Seq<char>, Seq<char>>,
    key: Seq<char>,
    value: Seq<char>,
    other: Seq<char>,
)
    ensures
        labels.insert(key, value).contains_key(key),
        labels.insert(key, value)[key] == value,
        other != key ==> (labels.insert(key, value).contains_key(other) == labels.contains_key(other)),
        other != key && labels.contains_key(other) ==> labels.insert(key, value)[other] == labels[other],
{
}

} // verus!
