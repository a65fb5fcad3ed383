//! References to stored data: tag specs and environment specs.
use vstd::prelude::*;

use crate::graph::{Digest, EntryKind};
use crate::text::{compare_paths, path_lt};

verus! {

/// Identifies a tag stream by its path, eg: `spk/spec/my-pkg/1.0.0`.
#[derive(Clone, Debug)]
pub struct TagSpec {
    pub path: String,
}

impl View for TagSpec {
    type V = Seq<char>;

    open spec fn view(&self) -> Seq<char> {
        self.path@
    }
}

/// One item of an environment spec.
#[derive(Clone, Debug)]
pub enum EnvSpecItem {
    TagSpec(TagSpec),
    /// A shortened digest, as raw bytes
    PartialDigest(Vec<u8>),
    Digest(Digest),
}

/// A list of items that together identify the contents of an environment.
#[derive(Clone, Debug)]
pub struct EnvSpec {
    pub items: Vec<EnvSpecItem>,
}

/// The name under which an entry kind is displayed.
pub open spec fn kind_name(kind: EntryKind) -> Seq<char> {
    match kind {
        EntryKind::Tree => seq!['t', 'r', 'e', 'e'],
        EntryKind::Blob => seq!['f', 'i', 'l', 'e'],
        EntryKind::Mask => seq!['m', 'a', 's', 'k'],
    }
}

/// The name under which an entry kind is displayed.
pub fn kind_display(kind: EntryKind) -> (s: String)
    ensures
        s@ == kind_name(kind),
{
    let mut s = String::new();
    match kind {
        EntryKind::Tree => {
            crate::text::push_char(&mut s, 't');
            crate::text::push_char(&mut s, 'r');
            crate::text::push_char(&mut s, 'e');
            crate::text::push_char(&mut s, 'e');
        },
        EntryKind::Blob => {
            crate::text::push_char(&mut s, 'f');
            crate::text::push_char(&mut s, 'i');
            crate::text::push_char(&mut s, 'l');
            crate::text::push_char(&mut s, 'e');
        },
        EntryKind::Mask => {
            crate::text::push_char(&mut s, 'm');
            crate::text::push_char(&mut s, 'a');
            crate::text::push_char(&mut s, 's');
            crate::text::push_char(&mut s, 'k');
        },
    }
    proof {
        assert(s@ =~= kind_name(kind));
    }
    s
}

/// One file system entry of a tracked manifest, with data of the user's.
#[derive(Debug)]
pub struct Entry<U> {
    pub kind: EntryKind,
    pub object: Digest,
    pub mode: u32,
    pub size: u64,
    pub user_data: U,
}

/// Two entries hold the same content: kind, object, mode and size agree
/// (the user data takes no part).
pub open spec fn same_content<U1, U2>(a: Entry<U1>, b: Entry<U2>) -> bool {
    &&& a.kind == b.kind
    &&& a.object == b.object
    &&& a.mode == b.mode
    &&& a.size == b.size
}

/// `b` is a copy of `a`: the same content, and user data cloned from `a`'s.
pub open spec fn entry_copy<U: Clone>(a: Entry<U>, b: Entry<U>) -> bool {
    same_content(a, b) && cloned(a.user_data, b.user_data)
}

impl<U> Entry<U> {
    /// True if this entry is a directory.
    pub fn is_dir(&self) -> (r: bool)
        ensures
            r == (self.kind is Tree),
    {
        self.kind.is_tree()
    }

    pub fn is_mask(&self) -> (r: bool)
        ensures
            r == (self.kind is Mask),
    {
        self.kind.is_mask()
    }

    /// True if both entries hold the same content: the same kind, object,
    /// mode and size.
    pub fn same_content_as<U2>(&self, other: &Entry<U2>) -> (r: bool)
        ensures
            r == same_content(*self, *other),
            r <==> (self.kind == other.kind && self.object == other.object && self.mode == other.mode
                && self.size == other.size),
    {
        self.kind == other.kind && self.object == other.object && self.mode == other.mode
            && self.size == other.size
    }
}

impl<U: Clone> Entry<U> {
    /// A copy of this entry.
    pub fn copy(&self) -> (r: Entry<U>)
        ensures
            entry_copy(*self, r),
    {
        Entry {
            kind: self.kind,
            object: self.object,
            mode: self.mode,
            size: self.size,
            user_data: self.user_data.clone(),
        }
    }
}

/// An entry of a manifest together with its full path.
#[derive(Debug)]
pub struct ManifestNode<U> {
    pub path: String,
    pub entry: Entry<U>,
}

/// A tracked file system tree: every entry under its full path, in path order.
#[derive(Debug)]
pub struct Manifest<U> {
    pub nodes: Vec<ManifestNode<U>>,
}

impl<U> Manifest<U> {
    /// The paths are in strictly increasing path order (so none occurs twice).
    pub open spec fn well_formed(&self) -> bool {
        forall|i: int, j: int|
            0 <= i < j < self.nodes@.len() ==> path_lt(
                #[trigger] self.nodes@[i].path@,
                #[trigger] self.nodes@[j].path@,
            )
    }

    /// True if some entry lies at the path.
    pub open spec fn has_path(&self, p: Seq<char>) -> bool {
        exists|i: int| 0 <= i < self.nodes@.len() && #[trigger] self.nodes@[i].path@ == p
    }

    /// The entry at the path (meaningful where `has_path` holds).
    pub open spec fn entry_at(&self, p: Seq<char>) -> Entry<U> {
        let i = choose|i: int| 0 <= i < self.nodes@.len() && #[trigger] self.nodes@[i].path@ == p;
        self.nodes@[i].entry
    }

    /// The set of all paths in this manifest.
    pub open spec fn paths(&self) -> Set<Seq<char>> {
        Set::new(|p: Seq<char>| self.has_path(p))
    }

    pub fn new() -> (m: Self)
        ensures
            m.nodes@.len() == 0,
            m.well_formed(),
    {
        Manifest { nodes: Vec::new() }
    }

    /// Checks that the paths are in strictly increasing path order.
    pub fn check_well_formed(&self) -> (r: bool)
        ensures
            r == self.well_formed(),
    {
        let n = self.nodes.len();
        if n == 0 {
            return true;
        }
        let mut i: usize = 1;
        while i < n
            invariant
                n == self.nodes@.len(),
                1 <= i <= n,
                forall|a: int, b: int|
                    0 <= a < b < i ==> path_lt(
                        #[trigger] self.nodes@[a].path@,
                        #[trigger] self.nodes@[b].path@,
                    ),
            decreases n - i,
        {
            let c = compare_paths(self.nodes[i - 1].path.as_str(), self.nodes[i].path.as_str());
            if c >= 0 {
                proof {
                    crate::text::lemma_path_lt_total(self.nodes@[i - 1].path@, self.nodes@[i as int].path@);
                }
                return false;
            }
            proof {
                assert forall|a: int, b: int|
                    0 <= a < b < i + 1 implies path_lt(
                        #[trigger] self.nodes@[a].path@,
                        #[trigger] self.nodes@[b].path@,
                    ) by {
                    if b == i && a < i - 1 {
                        crate::text::lemma_path_lt_transitive(
                            self.nodes@[a].path@,
                            self.nodes@[i - 1].path@,
                            self.nodes@[b].path@,
                        );
                    }
                }
            }
            i = i + 1;
        }
        true
    }

    /// The entry at the given path, if any.
    pub fn get_path(&self, path: &str) -> (r: Option<&Entry<U>>)
        requires
            self.well_formed(),
        ensures
            r is Some <==> self.has_path(path@),
            r is Some ==> *r->0 == self.entry_at(path@),
    {
        let n = self.nodes.len();
        let mut i: usize = 0;
        while i < n
            invariant
                n == self.nodes@.len(),
                i <= n,
                self.well_formed(),
                forall|k: int| 0 <= k < i ==> #[trigger] self.nodes@[k].path@ != path@,
            decreases n - i,
        {
            if compare_paths(self.nodes[i].path.as_str(), path) == 0 {
                proof {
                    let j = choose|j: int|
                        0 <= j < self.nodes@.len() && #[trigger] self.nodes@[j].path@ == path@;
                    if j != i {
                        if j < i {
                            assert(path_lt(self.nodes@[j].path@, self.nodes@[i as int].path@));
                        } else {
                            assert(path_lt(self.nodes@[i as int].path@, self.nodes@[j].path@));
                        }
                        crate::text::lemma_path_lt_irreflexive(path@);
                    }
                }
                return Some(&self.nodes[i].entry);
            }
            i = i + 1;
        }
        None
    }
}

} // verus!
