use vstd::prelude::*;

use crate::types::Doi;
use crate::types::Name;

verus! {

/// The version of an index's format.
#[derive(Debug, Clone, Copy)]
pub struct Version {
    pub major: u64,
    pub minor: u64,
    pub patch: u64,
}

/// An encoding in which a file is served.
#[derive(Debug, Clone)]
pub enum Compression {
    /// The raw file, served as is.
    NoneCompression { suffix: Name },
    /// A Brotli-compressed copy, with its own size and digest.
    Brotli { size: u64, hash: crate::digest::Hash, suffix: Name },
}

/// The encodings of a file: at least one.
#[derive(Debug, Clone)]
pub struct Compressions {
    pub first: Compression,
    pub rest: Vec<Compression>,
}

impl Compressions {
    /// All encodings, in order.
    pub open spec fn all(&self) -> Seq<Compression> {
        seq![self.first].add(self.rest@)
    }

    /// The encodings of a list; `None` when the list is empty.
    pub fn from_vec(list: Vec<Compression>) -> (r: Option<Compressions>)
        ensures
            list@.len() == 0 ==> r is None,
            list@.len() > 0 ==> r is Some && r.unwrap().all() == list@,
    {
        let mut list = list;
        if list.len() == 0 {
            return None;
        }
        let ghost whole = list@;
        let first = list.remove(0);
        assert(seq![first].add(list@) =~= whole);
        Some(Compressions { first, rest: list })
    }

    /// All encodings, in order.
    pub fn to_vec(self) -> (r: Vec<Compression>)
        ensures
            r@ == self.all(),
    {
        let mut v = Vec::new();
        v.push(self.first);
        let mut rest = self.rest;
        v.append(&mut rest);
        assert(v@ =~= self.all());
        v
    }
}

/// A file of a dataset: its raw size and digest, and the encodings in which
/// it is served.
#[derive(Debug, Clone)]
pub struct Resource {
    pub name: Name,
    pub size: u64,
    pub hash: crate::digest::Hash,
    pub compressions: Compressions,
    pub doi: Option<Doi>,
}

/// What is transferred for one encoding of a resource.
pub struct CompressionProperties<'a> {
    pub size: u64,
    pub hash: &'a crate::digest::Hash,
    pub suffix: &'a Name,
}

/// The size transferred for encoding `c` of a resource of raw size `size`.
pub open spec fn encoded_size(size: u64, c: Compression) -> u64 {
    match c {
        Compression::NoneCompression { .. } => size,
        Compression::Brotli { size, .. } => size,
    }
}

/// The digest of what is transferred for encoding `c`.
pub open spec fn encoded_hash(hash: crate::digest::Hash, c: Compression) -> crate::digest::Hash {
    match c {
        Compression::NoneCompression { .. } => hash,
        Compression::Brotli { hash, .. } => hash,
    }
}

/// The suffix of the file name for encoding `c`.
pub open spec fn encoded_suffix(c: Compression) -> Name {
    match c {
        Compression::NoneCompression { suffix } => suffix,
        Compression::Brotli { suffix, .. } => suffix,
    }
}

/// Encoding `i` of `all` is the best: no encoding is smaller, and every
/// earlier one is larger.
pub open spec fn is_best(size: u64, all: Seq<Compression>, i: int) -> bool {
    &&& 0 <= i < all.len()
    &&& forall|j: int| 0 <= j < all.len() ==> encoded_size(size, all[i]) <= encoded_size(size, #[trigger] all[j])
    &&& forall|j: int| 0 <= j < i ==> encoded_size(size, all[i]) < encoded_size(size, #[trigger] all[j])
}

impl Resource {
    /// The position of the best encoding: the smallest, the first of equals.
    pub open spec fn best_index(&self) -> int {
        choose|i: int| is_best(self.size, self.compressions.all(), i)
    }

    /// The best encoding.
    pub open spec fn best(&self) -> Compression {
        self.compressions.all()[self.best_index()]
    }

    /// What is transferred for `compression`.
    pub fn compression_properties_from<'a>(&'a self, compression: &'a Compression) -> (r:
        CompressionProperties<'a>)
        ensures
            r.size == encoded_size(self.size, *compression),
            *r.hash == encoded_hash(self.hash, *compression),
            *r.suffix == encoded_suffix(*compression),
    {
        match compression {
            Compression::NoneCompression { suffix } => CompressionProperties {
                size: self.size,
                hash: &self.hash,
                suffix,
            },
            Compression::Brotli { size, hash, suffix } => CompressionProperties {
                size: *size,
                hash,
                suffix,
            },
        }
    }

    /// The encoding with the smallest transferred size, the first of equals,
    /// with what is transferred for it.
    pub fn best_compression(&self) -> (r: (&Compression, CompressionProperties))
        ensures
            is_best(self.size, self.compressions.all(), self.best_index()),
            *r.0 == self.best(),
            r.1.size == encoded_size(self.size, self.best()),
            *r.1.hash == encoded_hash(self.hash, self.best()),
            *r.1.suffix == encoded_suffix(self.best()),
    {
        let ghost all = self.compressions.all();
        let mut best: &Compression = &self.compressions.first;
        let mut best_size = self.compression_properties_from(best).size;
        let ghost mut best_at: int = 0;
        let mut i: usize = 0;
        while i < self.compressions.rest.len()
            invariant
                all == self.compressions.all(),
                i <= self.compressions.rest@.len(),
                0 <= best_at <= i,
                *best == all[best_at],
                best_size == encoded_size(self.size, all[best_at]),
                forall|j: int|
                    0 <= j <= i ==> encoded_size(self.size, all[best_at]) <= encoded_size(
                        self.size,
                        #[trigger] all[j],
                    ),
                forall|j: int|
                    0 <= j < best_at ==> encoded_size(self.size, all[best_at]) < encoded_size(
                        self.size,
                        #[trigger] all[j],
                    ),
            decreases self.compressions.rest@.len() - i,
        {
            let candidate = &self.compressions.rest[i];
            assert(*candidate == all[i + 1]);
            let size = self.compression_properties_from(candidate).size;
            if size < best_size {
                best = candidate;
                best_size = size;
                proof {
                    best_at = i + 1;
                }
            }
            i = i + 1;
        }
        assert(is_best(self.size, all, best_at));
        proof {
            lemma_best_unique(self.size, all, best_at, self.best_index());
        }
        (best, self.compression_properties_from(best))
    }
}

proof fn lemma_best_unique(size: u64, all: Seq<Compression>, i: int, j: int)
    requires
        is_best(size, all, i),
        j == choose|k: int| is_best(size, all, k),
    ensures
        is_best(size, all, j),
        i == j,
{
    if i < j {
        assert(encoded_size(size, all[j]) < encoded_size(size, all[i]));
    } else if j < i {
        assert(encoded_size(size, all[i]) < encoded_size(size, all[j]));
    }
}

/// What a data file holds.
#[derive(Debug, Clone, Copy)]
pub enum Properties {
    Aps { width: u64, height: u64 },
    Dvs { width: u64, height: u64 },
    Imu,
}

/// A data file listed in an index.
#[derive(Debug, Clone)]
pub struct File {
    pub resource: Resource,
    pub properties: Properties,
    /// Free-form metadata, as JSON text.
    pub metadata: Option<String>,
}

/// Another file listed in an index.
#[derive(Debug, Clone)]
pub struct OtherFile {
    pub resource: Resource,
    /// Free-form metadata, as JSON text.
    pub metadata: Option<String>,
}

/// The index of one directory.
#[derive(Debug, Clone)]
pub struct Index {
    pub version: Version,
    pub doi: Option<Doi>,
    pub directories: Vec<Name>,
    pub files: Vec<File>,
    pub other_files: Vec<OtherFile>,
    /// Free-form metadata, as JSON text.
    pub metadata: Option<String>,
}

impl Index {
    /// How many resources the index lists: files, then other files.
    pub open spec fn resource_count(&self) -> nat {
        self.files@.len() + self.other_files@.len()
    }

    /// Resource `i`: the files first, then the other files.
    pub open spec fn resource_at(&self, i: int) -> Resource {
        if i < self.files@.len() {
            self.files@[i].resource
        } else {
            self.other_files@[i - self.files@.len()].resource
        }
    }

    /// Resource `i`.
    pub fn resource(&self, i: usize) -> (r: &Resource)
        requires
            i < self.resource_count(),
        ensures
            *r == self.resource_at(i as int),
    {
        if i < self.files.len() {
            &self.files[i].resource
        } else {
            &self.other_files[i - self.files.len()].resource
        }
    }

    /// How many resources the index lists.
    pub fn resource_len(&self) -> (r: usize)
        requires
            self.resource_count() <= usize::MAX,
        ensures
            r == self.resource_count(),
    {
        self.files.len() + self.other_files.len()
    }
}

} // verus!
