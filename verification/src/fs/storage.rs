//! Where file bytes live: an in-memory store keyed by handle, and the
//! path mapping of an on-disk store.
use crate::fs::error::FSError;
use crate::fs::meta::{FSHandle, Meta};
use crate::text::{trim, trim_matches};
use std::collections::HashMap;
use vstd::prelude::*;
use vstd::slice::slice_to_vec;
use vstd::string::*;

verus! {

broadcast use vstd::std_specs::hash::group_hash_axioms;

/// How bytes and metadata are kept: what a read of each handle gives, and
/// the metadata recorded under it.
pub trait Storage {
    /// The bytes a read of handle `h` gives.
    spec fn bytes_at(&self, h: u64) -> Seq<u8>;

    /// The metadata recorded under handle `h`, if any.
    spec fn meta_at(&self, h: u64) -> Option<Meta>;

    fn read(&self, h: &FSHandle) -> (r: Result<Vec<u8>, FSError>)
        ensures
            r matches Ok(v) ==> v@ == self.bytes_at(h.0),
    ;

    fn write(&mut self, h: &FSHandle, data: Vec<u8>) -> (r: Result<(), FSError>)
        ensures
            r is Ok ==> final(self).bytes_at(h.0) == data@,
            r is Ok ==> forall|k: u64|
                k != h.0 ==> #[trigger] final(self).bytes_at(k) == old(self).bytes_at(k),
    ;

    fn append(&mut self, h: &FSHandle, data: Vec<u8>) -> (r: Result<(), FSError>)
        ensures
            r is Ok ==> final(self).bytes_at(h.0) == old(self).bytes_at(h.0) + data@,
            r is Ok ==> forall|k: u64|
                k != h.0 ==> #[trigger] final(self).bytes_at(k) == old(self).bytes_at(k),
    ;

    fn meta(&self, h: &FSHandle) -> (r: Result<Meta, FSError>)
        ensures
            match r {
                Ok(m) => self.meta_at(h.0) matches Some(x) && m.same_as(x),
                Err(_) => self.meta_at(h.0) is None,
            },
    ;
}

/// A store of bytes by handle that a backend provides; the library holds
/// no backend of this kind.
pub trait Backend {
    fn read(&self, handle: &FSHandle) -> Result<Vec<u8>, FSError>;

    fn write(&self, handle: &FSHandle, data: Vec<u8>) -> Result<(), FSError>;

    fn append(&self, handle: &FSHandle, data: Vec<u8>) -> Result<(), FSError>;
}

/// File bytes and metadata held in memory, keyed by handle.
pub struct MemStorage {
    pub files: HashMap<u64, Vec<u8>>,
    pub meta: HashMap<u64, Meta>,
}

impl MemStorage {
    /// The bytes stored under each handle.
    pub open spec fn contents(&self) -> Map<u64, Seq<u8>> {
        self.files@.map_values(|v: Vec<u8>| v@)
    }

    /// What a read of handle `h` gives: the stored bytes, or nothing when
    /// none were stored.
    pub open spec fn bytes_of(&self, h: u64) -> Seq<u8> {
        if self.files@.contains_key(h) {
            self.files@[h]@
        } else {
            Seq::empty()
        }
    }

    pub fn new() -> (r: Self)
        ensures
            r.files@ == Map::<u64, Vec<u8>>::empty(),
            r.meta@ == Map::<u64, Meta>::empty(),
    {
        MemStorage { files: HashMap::new(), meta: HashMap::new() }
    }
}

impl Storage for MemStorage {
    open spec fn bytes_at(&self, h: u64) -> Seq<u8> {
        self.bytes_of(h)
    }

    open spec fn meta_at(&self, h: u64) -> Option<Meta> {
        if self.meta@.contains_key(h) {
            Some(self.meta@[h])
        } else {
            None
        }
    }

    /// The bytes stored under `h`; empty when nothing was stored.
    fn read(&self, h: &FSHandle) -> (r: Result<Vec<u8>, FSError>)
        ensures
            r matches Ok(v) && v@ == self.bytes_of(h.0),
    {
        match self.files.get(&h.0) {
            Some(v) => Ok(slice_to_vec(v.as_slice())),
            None => Ok(Vec::new()),
        }
    }

    /// Replaces the bytes stored under `h` with `data`.
    fn write(&mut self, h: &FSHandle, data: Vec<u8>) -> (r: Result<(), FSError>)
        ensures
            r is Ok,
            final(self).files@ == old(self).files@.insert(h.0, data),
            final(self).meta@ == old(self).meta@,
    {
        self.files.insert(h.0, data);
        Ok(())
    }

    /// Adds `data` after the bytes stored under `h` (none, when nothing was
    /// stored).
    fn append(&mut self, h: &FSHandle, data: Vec<u8>) -> (r: Result<(), FSError>)
        ensures
            r is Ok,
            final(self).files@.dom() == old(self).files@.dom().insert(h.0),
            forall|k: u64|
                k != h.0 && #[trigger] old(self).files@.contains_key(k) ==> final(self).files@[k]
                    == old(self).files@[k],
            final(self).files@[h.0]@ == old(self).bytes_of(h.0) + data@,
            final(self).meta@ == old(self).meta@,
    {
        let mut cur = match self.files.remove(&h.0) {
            Some(v) => v,
            None => Vec::new(),
        };
        let ghost before = cur@;
        let mut extra = data;
        cur.append(&mut extra);
        assert(cur@ == before + data@);
        self.files.insert(h.0, cur);
        assert forall|k: u64| k != h.0 implies #[trigger] self.bytes_of(k) == old(self).bytes_of(k) by {
            if old(self).files@.contains_key(k) {
                assert(self.files@.contains_key(k));
            }
        }
        Ok(())
    }

    /// A copy of the metadata recorded under `h`.
    fn meta(&self, h: &FSHandle) -> (r: Result<Meta, FSError>)
        ensures
            match r {
                Ok(m) => self.meta@.contains_key(h.0) && m.same_as(self.meta@[h.0]),
                Err(e) => !self.meta@.contains_key(h.0) && e == FSError::NotFound,
            },
    {
        match self.meta.get(&h.0) {
            Some(m) => Ok(m.duplicate()),
            None => Err(FSError::NotFound),
        }
    }
}

/// Files kept under a directory of the host.
pub struct DiskStorage {
    pub path_root: String,
}

/// `Path::join` of a root with a relative path, as text: a separator goes
/// between them unless the root is empty or already ends in one.
pub open spec fn path_join(root: Seq<char>, rel: Seq<char>) -> Seq<char> {
    if root.len() == 0 {
        rel
    } else if root.last() == '/' {
        root + rel
    } else {
        root + seq!['/'] + rel
    }
}

impl DiskStorage {
    pub fn new() -> (r: Self)
        ensures
            r.path_root@ == Seq::<char>::empty(),
    {
        DiskStorage { path_root: String::new() }
    }

    pub fn with_root(path: String) -> (r: Self)
        ensures
            r.path_root@ == path@,
    {
        DiskStorage { path_root: path }
    }

    /// The host path of `path`: the root joined with `path` trimmed of `/`.
    pub fn walk(&self, path: &str) -> (r: String)
        ensures
            r@ == path_join(self.path_root@, trim(path@, '/')),
    {
        let clean = trim_matches(path, '/');
        let n = self.path_root.as_str().unicode_len();
        if n == 0 {
            clean
        } else if self.path_root.as_str().get_char(n - 1) == '/' {
            let mut out = self.path_root.clone();
            out.append(clean.as_str());
            out
        } else {
            let mut out = self.path_root.clone();
            out.append("/");
            proof {
                reveal_strlit("/");
            }
            out.append(clean.as_str());
            out
        }
    }
}

} // verus!
