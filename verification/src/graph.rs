//! The stored object graph: digests, entries, blobs, layers, platforms and manifests.
use vstd::prelude::*;

verus! {

/// The content digest that identifies a stored object or payload
/// (a 256-bit hash, held as four words).
#[derive(Clone, Copy, PartialEq, Eq, Structural, Debug)]
pub struct Digest {
    pub w0: u64,
    pub w1: u64,
    pub w2: u64,
    pub w3: u64,
}

impl Digest {
    pub fn new(w0: u64, w1: u64, w2: u64, w3: u64) -> (d: Digest)
        ensures
            d == (Digest { w0, w1, w2, w3 }),
    {
        Digest { w0, w1, w2, w3 }
    }

    pub fn equals(&self, other: &Digest) -> (r: bool)
        ensures
            r == (*self == *other),
    {
        *self == *other
    }
}

/// The kind of an entry in a stored manifest.
#[derive(Clone, Copy, PartialEq, Eq, Structural, Debug)]
pub enum EntryKind {
    /// A directory
    Tree,
    /// A file, whose contents are a payload
    Blob,
    /// A removal of whatever lies below in the stack
    Mask,
}

impl EntryKind {
    pub fn is_blob(&self) -> (r: bool)
        ensures
            r == (*self is Blob),
    {
        match self {
            EntryKind::Blob => true,
            _ => false,
        }
    }

    pub fn is_tree(&self) -> (r: bool)
        ensures
            r == (*self is Tree),
    {
        match self {
            EntryKind::Tree => true,
            _ => false,
        }
    }

    pub fn is_mask(&self) -> (r: bool)
        ensures
            r == (*self is Mask),
    {
        match self {
            EntryKind::Mask => true,
            _ => false,
        }
    }
}

/// One named entry of a stored manifest.
#[derive(Clone, Debug)]
pub struct Entry {
    pub name: String,
    pub kind: EntryKind,
    pub mode: u32,
    pub size: u64,
    pub object: Digest,
}

/// A file's contents, identified by the digest of its payload.
#[derive(Clone, Copy, PartialEq, Eq, Structural, Debug)]
pub struct Blob {
    pub payload: Digest,
    pub size: u64,
}

impl Blob {
    /// A blob is identified by the digest of its payload.
    pub fn digest(&self) -> (d: Digest)
        ensures
            d == self.payload,
    {
        self.payload
    }
}

/// A layer names the manifest of the files that it holds.
#[derive(Clone, Copy, PartialEq, Eq, Structural, Debug)]
pub struct Layer {
    pub manifest: Digest,
}

/// A platform is a stack of layers (or other platforms), bottom first.
#[derive(Clone, Debug)]
pub struct Platform {
    pub stack: Vec<Digest>,
}

/// A stored manifest: every entry of the file tree that it describes.
#[derive(Clone, Debug)]
pub struct Manifest {
    pub entries: Vec<Entry>,
}

impl Manifest {
    /// All of the entries in this manifest.
    pub fn list_entries(&self) -> (r: &Vec<Entry>)
        ensures
            r@ == self.entries@,
    {
        &self.entries
    }

    /// A copy of this manifest, with the same entries.
    pub fn duplicate(&self) -> (r: Manifest)
        ensures
            r.entries@ == self.entries@,
    {
        let mut entries: Vec<Entry> = Vec::new();
        let mut i: usize = 0;
        while i < self.entries.len()
            invariant
                i <= self.entries@.len(),
                entries@ == self.entries@.take(i as int),
            decreases self.entries.len() - i,
        {
            let e = &self.entries[i];
            entries.push(
                Entry {
                    name: e.name.clone(),
                    kind: e.kind,
                    mode: e.mode,
                    size: e.size,
                    object: e.object,
                },
            );
            proof {
                assert(entries@ =~= self.entries@.take(i as int + 1));
            }
            i = i + 1;
        }
        proof {
            assert(self.entries@.take(i as int) =~= self.entries@);
        }
        Manifest { entries }
    }
}

/// One directory level of a stored manifest.
#[derive(Clone, Debug)]
pub struct Tree {
    pub entries: Vec<Entry>,
}

/// Any object that can be stored in a repository.
#[derive(Clone, Debug)]
pub enum Object {
    Platform(Platform),
    Layer(Layer),
    Manifest(Manifest),
    Blob(Blob),
    Tree(Tree),
    Mask,
}

} // verus!
