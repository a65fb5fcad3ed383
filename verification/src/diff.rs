//! Differences between two tracked manifests.
use vstd::prelude::*;

use crate::text::{compare_paths, path_lt};
use crate::tracking::{entry_copy, kind_display, kind_name, same_content, Entry, Manifest};

verus! {

/// Identifies a difference between two file system entries
#[derive(Debug)]
pub enum DiffMode<U1, U2> {
    Unchanged(Entry<U1>),
    Changed(Entry<U1>, Entry<U2>),
    Added(Entry<U2>),
    Removed(Entry<U1>),
}

impl<U1, U2> DiffMode<U1, U2> {
    pub fn is_unchanged(&self) -> (r: bool)
        ensures
            r == (*self is Unchanged),
    {
        match self {
            DiffMode::Unchanged(..) => true,
            _ => false,
        }
    }

    pub fn is_changed(&self) -> (r: bool)
        ensures
            r == (*self is Changed),
    {
        match self {
            DiffMode::Changed(..) => true,
            _ => false,
        }
    }

    pub fn is_added(&self) -> (r: bool)
        ensures
            r == (*self is Added),
    {
        match self {
            DiffMode::Added(..) => true,
            _ => false,
        }
    }

    pub fn is_removed(&self) -> (r: bool)
        ensures
            r == (*self is Removed),
    {
        match self {
            DiffMode::Removed(..) => true,
            _ => false,
        }
    }

    /// True if the underlying entry is/was a directory.
    ///
    /// In the case of a change, both the earlier and later
    /// entries must be directories for this to return true.
    pub fn is_dir(&self) -> (r: bool)
        ensures
            r == match *self {
                DiffMode::Unchanged(e) => e.kind is Tree,
                DiffMode::Changed(a, b) => a.kind is Tree && b.kind is Tree,
                DiffMode::Added(e) => e.kind is Tree,
                DiffMode::Removed(e) => e.kind is Tree,
            },
    {
        match self {
            DiffMode::Unchanged(entry) => entry.is_dir(),
            DiffMode::Changed(a, b) => a.is_dir() && b.is_dir(),
            DiffMode::Added(entry) => entry.is_dir(),
            DiffMode::Removed(entry) => entry.is_dir(),
        }
    }

    /// The symbol that stands for this kind of difference.
    pub open spec fn symbol(&self) -> char {
        match *self {
            DiffMode::Unchanged(..) => '=',
            DiffMode::Changed(..) => '~',
            DiffMode::Added(..) => '+',
            DiffMode::Removed(..) => '-',
        }
    }

    /// The displayed form: one symbol for the kind of difference.
    pub fn to_string(&self) -> (s: String)
        ensures
            s@ == seq![self.symbol()],
    {
        let mut s = String::new();
        match self {
            DiffMode::Unchanged(..) => crate::text::push_char(&mut s, '='),
            DiffMode::Changed(..) => crate::text::push_char(&mut s, '~'),
            DiffMode::Added(..) => crate::text::push_char(&mut s, '+'),
            DiffMode::Removed(..) => crate::text::push_char(&mut s, '-'),
        }
        s
    }
}

impl<U1> DiffMode<U1, U1> {
    /// The associated user data from the underlying entry.
    ///
    /// In the case of a [`Self::Changed`] entry, the earlier entry's
    /// data is returned.
    pub fn user_data(&self) -> (r: &U1)
        ensures
            *r == match *self {
                DiffMode::Unchanged(e) => e.user_data,
                DiffMode::Changed(a, _) => a.user_data,
                DiffMode::Added(e) => e.user_data,
                DiffMode::Removed(e) => e.user_data,
            },
    {
        match self {
            DiffMode::Unchanged(entry) => &entry.user_data,
            DiffMode::Changed(a, _) => &a.user_data,
            DiffMode::Added(entry) => &entry.user_data,
            DiffMode::Removed(entry) => &entry.user_data,
        }
    }
}

/// A difference found at one path.
#[derive(Debug)]
pub struct Diff<U1, U2> {
    pub mode: DiffMode<U1, U2>,
    pub path: String,
}

pub open spec fn octal_digit(d: nat) -> char {
    if d == 0 {
        '0'
    } else if d == 1 {
        '1'
    } else if d == 2 {
        '2'
    } else if d == 3 {
        '3'
    } else if d == 4 {
        '4'
    } else if d == 5 {
        '5'
    } else if d == 6 {
        '6'
    } else {
        '7'
    }
}

/// The base-8 digits of `n`, most significant first, without leading zeros.
pub open spec fn octal_digits(n: nat) -> Seq<char>
    decreases n,
{
    if n < 8 {
        seq![octal_digit(n)]
    } else {
        octal_digits(n / 8).push(octal_digit(n % 8))
    }
}

/// `n` in base 8, padded with leading zeros to at least six digits.
pub open spec fn octal6(n: nat) -> Seq<char> {
    let d = octal_digits(n);
    if d.len() >= 6 {
        d
    } else {
        Seq::new((6 - d.len()) as nat, |i: int| '0') + d
    }
}

fn octal_digit_char(d: u32) -> (c: char)
    requires
        d < 8,
    ensures
        c == octal_digit(d as nat),
{
    match d {
        0 => '0',
        1 => '1',
        2 => '2',
        3 => '3',
        4 => '4',
        5 => '5',
        6 => '6',
        _ => '7',
    }
}

fn octal_digits_of(n: u32) -> (v: Vec<char>)
    ensures
        v@ == octal_digits(n as nat),
    decreases n,
{
    if n < 8 {
        let mut v = Vec::new();
        v.push(octal_digit_char(n));
        proof {
            assert(v@ =~= seq![octal_digit(n as nat)]);
        }
        v
    } else {
        let mut v = octal_digits_of(n / 8);
        v.push(octal_digit_char(n % 8));
        v
    }
}

/// `n` in base 8, padded with leading zeros to at least six digits.
pub fn format_octal6(n: u32) -> (s: String)
    ensures
        s@ == octal6(n as nat),
{
    let digits = octal_digits_of(n);
    let mut s = String::new();
    let mut pad: usize = 0;
    let width: usize = if digits.len() >= 6 {
        0
    } else {
        6 - digits.len()
    };
    while pad < width
        invariant
            pad <= width,
            s@ == Seq::new(pad as nat, |i: int| '0'),
        decreases width - pad,
    {
        crate::text::push_char(&mut s, '0');
        proof {
            assert(s@ =~= Seq::new(pad as nat + 1, |i: int| '0'));
        }
        pad = pad + 1;
    }
    let tail = crate::text::string_from_chars(&digits);
    s.append(tail.as_str());
    proof {
        if digits@.len() >= 6 {
            assert(s@ =~= digits@);
        }
    }
    s
}

/// The details that follow a changed entry's path when it is displayed:
/// a change of mode, then of kind, then of content.
pub open spec fn change_details<U1, U2>(a: Entry<U1>, b: Entry<U2>) -> Seq<char> {
    let mode_part = if a.mode != b.mode {
        " {"@ + octal6(a.mode as nat) + " => "@ + octal6(b.mode as nat) + "}"@
    } else {
        Seq::empty()
    };
    let kind_part = if a.kind != b.kind {
        " {"@ + kind_name(a.kind) + " => "@ + kind_name(b.kind) + "}"@
    } else {
        Seq::empty()
    };
    let content_part = if a.object != b.object {
        " {!content!}"@
    } else {
        Seq::empty()
    };
    mode_part + kind_part + content_part
}

impl<U1, U2> Diff<U1, U2> {
    /// The details shown after the path: empty unless the entry changed.
    pub open spec fn details_spec(&self) -> Seq<char> {
        match self.mode {
            DiffMode::Changed(a, b) => change_details(a, b),
            _ => Seq::empty(),
        }
    }

    pub fn details(&self) -> (s: String)
        ensures
            s@ == self.details_spec(),
    {
        let mut details = String::new();
        if let DiffMode::Changed(a, b) = &self.mode {
            if a.mode != b.mode {
                details.append(" {");
                details.append(format_octal6(a.mode).as_str());
                details.append(" => ");
                details.append(format_octal6(b.mode).as_str());
                details.append("}");
            }
            let ghost after_mode = details@;
            if a.kind != b.kind {
                details.append(" {");
                details.append(kind_display(a.kind).as_str());
                details.append(" => ");
                details.append(kind_display(b.kind).as_str());
                details.append("}");
            }
            let ghost after_kind = details@;
            if a.object != b.object {
                details.append(" {!content!}");
            }
            proof {
                reveal_strlit(" {");
                reveal_strlit(" => ");
                reveal_strlit("}");
                reveal_strlit(" {!content!}");
                let mode_part = if a.mode != b.mode {
                    " {"@ + octal6(a.mode as nat) + " => "@ + octal6(b.mode as nat) + "}"@
                } else {
                    Seq::empty()
                };
                assert(after_mode =~= mode_part);
                assert(details@ =~= change_details(*a, *b));
            }
        }
        details
    }

    /// The displayed form: the mode's symbol, a space, the path, then the details.
    pub fn to_string(&self) -> (s: String)
        ensures
            s@ == seq![self.mode.symbol(), ' '] + self.path@ + self.details_spec(),
    {
        let mut s = self.mode.to_string();
        crate::text::push_char(&mut s, ' ');
        s.append(self.path.as_str());
        s.append(self.details().as_str());
        proof {
            assert(s@ =~= seq![self.mode.symbol(), ' '] + self.path@ + self.details_spec());
        }
        s
    }
}

/// The outcome of comparing two manifests at one path.
#[derive(Debug)]
pub enum DiffPathResult<U1, U2> {
    /// Successful diff
    Diff(Diff<U1, U2>),
    /// The path was missing from both manifests (coding error?)
    PathMissingFromBothManifests,
    /// The path was masked in the right manifest but didn't exist in the left
    UselessMask,
}

/// What comparing two manifests at one path finds.
#[derive(PartialEq, Eq, Structural, Debug, Clone, Copy)]
pub enum DiffKind {
    Missing,
    UselessMask,
    Unchanged,
    Changed,
    Added,
    Removed,
}

/// What comparing `a` and `b` at path `p` finds.
pub open spec fn diff_kind<U1, U2>(a: Manifest<U1>, b: Manifest<U2>, p: Seq<char>) -> DiffKind {
    let ha = a.has_path(p);
    let hb = b.has_path(p);
    if !ha && !hb {
        DiffKind::Missing
    } else if hb && b.entry_at(p).kind is Mask {
        if ha {
            DiffKind::Removed
        } else {
            DiffKind::UselessMask
        }
    } else if !ha {
        DiffKind::Added
    } else if !hb {
        DiffKind::Removed
    } else if same_content(a.entry_at(p), b.entry_at(p)) {
        DiffKind::Unchanged
    } else {
        DiffKind::Changed
    }
}

/// A kind of outcome that is reported as a difference.
pub open spec fn is_reported(k: DiffKind) -> bool {
    !(k is Missing) && !(k is UselessMask)
}

/// `d` is the difference that `a` and `b` show at path `p`: its mode is the
/// kind that `diff_kind` finds, and it holds copies of the entries involved.
pub open spec fn diff_at<U: Clone>(a: Manifest<U>, b: Manifest<U>, p: Seq<char>, d: Diff<U, U>) -> bool {
    &&& d.path@ == p
    &&& match diff_kind(a, b, p) {
        DiffKind::Unchanged => d.mode matches DiffMode::Unchanged(e) && entry_copy(a.entry_at(p), e),
        DiffKind::Changed => d.mode matches DiffMode::Changed(x, y) && entry_copy(a.entry_at(p), x)
            && entry_copy(b.entry_at(p), y),
        DiffKind::Added => d.mode matches DiffMode::Added(e) && entry_copy(b.entry_at(p), e),
        DiffKind::Removed => d.mode matches DiffMode::Removed(e) && entry_copy(a.entry_at(p), e),
        _ => false,
    }
}

/// Compares the two entries, creating a diff to represent their delta.
///
/// In the case of no change, the entry from `a` is returned.
pub fn diff_path<U: Clone>(a: &Manifest<U>, b: &Manifest<U>, path: &str) -> (r: DiffPathResult<U, U>)
    requires
        a.well_formed(),
        b.well_formed(),
    ensures
        diff_kind(*a, *b, path@) is Missing <==> r is PathMissingFromBothManifests,
        diff_kind(*a, *b, path@) is UselessMask <==> r is UselessMask,
        r matches DiffPathResult::Diff(d) ==> diff_at(*a, *b, path@, d),
{
    match (a.get_path(path), b.get_path(path)) {
        (None, None) => DiffPathResult::PathMissingFromBothManifests,
        (Some(a_entry), Some(b_entry)) if b_entry.is_mask() => {
            DiffPathResult::Diff(Diff { mode: DiffMode::Removed(a_entry.copy()), path: path.to_owned() })
        },
        (None, Some(b_entry)) if b_entry.is_mask() => {
            // Can't return `a` as documented since the left side is None.
            DiffPathResult::UselessMask
        },
        (None, Some(e)) => DiffPathResult::Diff(Diff { mode: DiffMode::Added(e.copy()), path: path.to_owned() }),
        (Some(e), None) => DiffPathResult::Diff(Diff { mode: DiffMode::Removed(e.copy()), path: path.to_owned() }),
        (Some(a_entry), Some(b_entry)) => DiffPathResult::Diff(
            {
                if a_entry.same_content_as(b_entry) {
                    // use the entry from `a` as it's more representative
                    // of the unchanged item (in the case of the user data
                    // being different, one would expect the earlier value)
                    Diff { mode: DiffMode::Unchanged(a_entry.copy()), path: path.to_owned() }
                } else {
                    Diff {
                        mode: DiffMode::Changed(a_entry.copy(), b_entry.copy()),
                        path: path.to_owned(),
                    }
                }
            },
        ),
    }
}

/// The differences between two manifests, one for every path of either
/// (but a mask in `b` over nothing in `a`), in path order.
pub fn compute_diff<U: Clone>(a: &Manifest<U>, b: &Manifest<U>) -> (changes: Vec<Diff<U, U>>)
    requires
        a.well_formed(),
        b.well_formed(),
    ensures
        forall|k: int|
            0 <= k < changes@.len() ==> #[trigger] is_reported(diff_kind(*a, *b, changes@[k].path@))
                && diff_at(*a, *b, changes@[k].path@, changes@[k]),
        forall|k1: int, k2: int|
            0 <= k1 < k2 < changes@.len() ==> path_lt(
                #[trigger] changes@[k1].path@,
                #[trigger] changes@[k2].path@,
            ),
        forall|p: Seq<char>|
            (a.has_path(p) || b.has_path(p)) && is_reported(#[trigger] diff_kind(*a, *b, p))
                ==> exists|k: int| 0 <= k < changes@.len() && #[trigger] changes@[k].path@ == p,
{
    let mut changes: Vec<Diff<U, U>> = Vec::new();
    let na = a.nodes.len();
    let nb = b.nodes.len();
    let mut i: usize = 0;
    let mut j: usize = 0;
    while i < na || j < nb
        invariant
            a.well_formed(),
            b.well_formed(),
            na == a.nodes@.len(),
            nb == b.nodes@.len(),
            i <= na,
            j <= nb,
            forall|k: int|
                0 <= k < changes@.len() ==> #[trigger] is_reported(diff_kind(*a, *b, changes@[k].path@))
                    && diff_at(*a, *b, changes@[k].path@, changes@[k]),
            forall|k1: int, k2: int|
                0 <= k1 < k2 < changes@.len() ==> path_lt(
                    #[trigger] changes@[k1].path@,
                    #[trigger] changes@[k2].path@,
                ),
            forall|k: int, x: int|
                0 <= k < changes@.len() && i <= x < na ==> path_lt(
                    #[trigger] changes@[k].path@,
                    #[trigger] a.nodes@[x].path@,
                ),
            forall|k: int, y: int|
                0 <= k < changes@.len() && j <= y < nb ==> path_lt(
                    #[trigger] changes@[k].path@,
                    #[trigger] b.nodes@[y].path@,
                ),
            forall|x: int|
                0 <= x < i && is_reported(#[trigger] diff_kind(*a, *b, a.nodes@[x].path@))
                    ==> exists|k: int|
                    0 <= k < changes@.len() && #[trigger] changes@[k].path@ == a.nodes@[x].path@,
            forall|y: int|
                0 <= y < j && is_reported(#[trigger] diff_kind(*a, *b, b.nodes@[y].path@))
                    ==> exists|k: int|
                    0 <= k < changes@.len() && #[trigger] changes@[k].path@ == b.nodes@[y].path@,
        decreases (na - i) + (nb - j),
    {
        let take_a: bool;
        let take_b: bool;
        if i < na && j < nb {
            let c = compare_paths(a.nodes[i].path.as_str(), b.nodes[j].path.as_str());
            take_a = c <= 0;
            take_b = c >= 0;
        } else if i < na {
            take_a = true;
            take_b = false;
        } else {
            take_a = false;
            take_b = true;
        }
        let path: &String = if take_a {
            &a.nodes[i].path
        } else {
            &b.nodes[j].path
        };
        let ghost p = path@;
        let ghost old_changes = changes@;
        proof {
            // the chosen path comes before every path still to visit
            assert forall|x: int| i < x < na implies path_lt(p, #[trigger] a.nodes@[x].path@) by {
                if take_a {
                    assert(path_lt(a.nodes@[i as int].path@, a.nodes@[x].path@));
                } else {
                    assert(path_lt(a.nodes@[i as int].path@, a.nodes@[x].path@));
                    crate::text::lemma_path_lt_transitive(p, a.nodes@[i as int].path@, a.nodes@[x].path@);
                }
            }
            assert forall|y: int| j < y < nb implies path_lt(p, #[trigger] b.nodes@[y].path@) by {
                if take_b {
                    assert(path_lt(b.nodes@[j as int].path@, b.nodes@[y].path@));
                } else {
                    assert(path_lt(b.nodes@[j as int].path@, b.nodes@[y].path@));
                    crate::text::lemma_path_lt_transitive(p, b.nodes@[j as int].path@, b.nodes@[y].path@);
                }
            }
            if i < na && !take_a {
                assert(path_lt(p, a.nodes@[i as int].path@));
            }
            if j < nb && !take_b {
                assert(path_lt(p, b.nodes@[j as int].path@));
            }
            if take_a && take_b {
                assert(a.nodes@[i as int].path@ == b.nodes@[j as int].path@);
            }
        }
        let res = diff_path(a, b, path.as_str());
        match res {
            DiffPathResult::Diff(d) => {
                changes.push(d);
                proof {
                    let n = changes@.len() - 1;
                    assert(changes@[n].path@ == p);
                    assert(is_reported(diff_kind(*a, *b, p)));
                    assert forall|k: int| 0 <= k < changes@.len() implies #[trigger] is_reported(
                        diff_kind(*a, *b, changes@[k].path@),
                    ) && diff_at(*a, *b, changes@[k].path@, changes@[k]) by {
                        if k < n {
                            assert(changes@[k] == old_changes[k]);
                        }
                    }
                    assert forall|k: int| 0 <= k < n implies path_lt(
                        #[trigger] changes@[k].path@,
                        p,
                    ) by {
                        assert(changes@[k] == old_changes[k]);
                        if take_a {
                            assert(path_lt(old_changes[k].path@, a.nodes@[i as int].path@));
                        } else {
                            assert(path_lt(old_changes[k].path@, b.nodes@[j as int].path@));
                        }
                    }
                }
            },
            _ => {},
        }
        proof {
            assert forall|x: int|
                0 <= x < i + (if take_a { 1int } else { 0int }) && is_reported(
                    #[trigger] diff_kind(*a, *b, a.nodes@[x].path@),
                ) implies exists|k: int|
                0 <= k < changes@.len() && #[trigger] changes@[k].path@ == a.nodes@[x].path@ by {
                if x == i {
                    let n = changes@.len() - 1;
                    assert(changes@[n].path@ == a.nodes@[x].path@);
                } else {
                    let k = choose|k: int|
                        0 <= k < old_changes.len() && #[trigger] old_changes[k].path@
                            == a.nodes@[x].path@;
                    assert(changes@[k] == old_changes[k]);
                }
            }
            assert forall|y: int|
                0 <= y < j + (if take_b { 1int } else { 0int }) && is_reported(
                    #[trigger] diff_kind(*a, *b, b.nodes@[y].path@),
                ) implies exists|k: int|
                0 <= k < changes@.len() && #[trigger] changes@[k].path@ == b.nodes@[y].path@ by {
                if y == j {
                    let n = changes@.len() - 1;
                    assert(changes@[n].path@ == b.nodes@[y].path@);
                } else {
                    let k = choose|k: int|
                        0 <= k < old_changes.len() && #[trigger] old_changes[k].path@
                            == b.nodes@[y].path@;
                    assert(changes@[k] == old_changes[k]);
                }
            }
        }
        if take_a {
            i = i + 1;
        }
        if take_b {
            j = j + 1;
        }
    }
    proof {
        assert forall|p: Seq<char>|
            (a.has_path(p) || b.has_path(p)) && is_reported(#[trigger] diff_kind(*a, *b, p))
                implies exists|k: int| 0 <= k < changes@.len() && #[trigger] changes@[k].path@ == p by {
            if a.has_path(p) {
                let x = choose|x: int| 0 <= x < a.nodes@.len() && #[trigger] a.nodes@[x].path@ == p;
                assert(is_reported(diff_kind(*a, *b, a.nodes@[x].path@)));
            } else {
                let y = choose|y: int| 0 <= y < b.nodes@.len() && #[trigger] b.nodes@[y].path@ == p;
                assert(is_reported(diff_kind(*a, *b, b.nodes@[y].path@)));
            }
        }
    }
    changes
}

} // verus!
