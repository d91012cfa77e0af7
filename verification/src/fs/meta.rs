//! Addresses, identifiers and metadata of file-system nodes.
use crate::text::{join, join_strings, pieces, split_pieces, strs, trim, trim_matches};
use vstd::prelude::*;
use vstd::string::*;

verus! {

/// The identifier that grabs a node's data.
#[derive(Clone, Copy, Debug, PartialEq, Eq, Hash, Structural)]
pub struct FSHandle(pub u64);

impl Default for FSHandle {
    fn default() -> (r: Self)
        ensures
            r.0 == 0,
    {
        FSHandle(0)
    }
}

/// Whether a node holds bytes or other nodes.
#[derive(Debug, Clone, Copy, PartialEq, Eq, Structural)]
pub enum NodeType {
    File,
    Directory,
}

/// A conceptual address: the sequence of names from the top (`/src/main.rs`
/// is `["src", "main.rs"]`).
#[derive(Clone, Debug, PartialEq, Eq, Hash)]
pub struct FSPath(pub Vec<String>);

impl View for FSPath {
    type V = Seq<Seq<char>>;

    open spec fn view(&self) -> Seq<Seq<char>> {
        strs(self.0@)
    }
}

/// A copy of `v`, string by string.
pub fn copy_strings(v: &Vec<String>) -> (r: Vec<String>)
    ensures
        strs(r@) == strs(v@),
{
    let mut out: Vec<String> = Vec::new();
    let n = v.len();
    let mut i: usize = 0;
    while i < n
        invariant
            n == v@.len(),
            i <= n,
            strs(out@) == strs(v@).subrange(0, i as int),
        decreases n - i,
    {
        let ghost before = out@;
        out.push(v[i].clone());
        proof {
            assert(strs(out@) =~= strs(before).push(v@[i as int]@));
            assert(strs(v@).subrange(0, i + 1) =~= strs(v@).subrange(0, i as int).push(
                v@[i as int]@,
            ));
        }
        i = i + 1;
    }
    proof {
        assert(strs(v@).subrange(0, n as int) =~= strs(v@));
    }
    out
}

impl FSPath {
    pub fn new(segments: Vec<String>) -> (r: Self)
        ensures
            r@ == strs(segments@),
    {
        FSPath(segments)
    }

    pub fn empty() -> (r: Self)
        ensures
            r@ == Seq::<Seq<char>>::empty(),
    {
        let r = FSPath(Vec::new());
        assert(r@ =~= Seq::<Seq<char>>::empty());
        r
    }

    /// The segments joined by `/`.
    pub fn to_string(&self) -> (r: String)
        ensures
            r@ == join(self@, "/"@),
    {
        join_strings(&self.0, "/")
    }

    /// The segments of `self` followed by those of `other`.
    pub fn join(&self, other: &FSPath) -> (r: Self)
        ensures
            r@ == self@ + other@,
    {
        let mut new_segments = copy_strings(&self.0);
        let mut tail = copy_strings(&other.0);
        let ghost a = new_segments@;
        let ghost b = tail@;
        new_segments.append(&mut tail);
        proof {
            assert(strs(new_segments@) =~= strs(a) + strs(b));
        }
        FSPath::new(new_segments)
    }

    /// The fields of `path` between `/`, after the leading and trailing `/`
    /// are trimmed; empty fields in between are kept.
    pub fn from_string(path: &str) -> (r: Self)
        ensures
            r@ == pieces(trim(path@, '/'), '/'),
    {
        let trimmed = trim_matches(path, '/');
        FSPath::new(split_pieces(trimmed.as_str(), '/'))
    }

    /// A copy of this path.
    pub fn duplicate(&self) -> (r: Self)
        ensures
            r@ == self@,
    {
        FSPath(copy_strings(&self.0))
    }
}

/// What is known of a node besides its name and children.
#[derive(Clone, Debug)]
pub struct Meta {
    pub handle: FSHandle,
    pub size: u64,
    pub mode: u32,
    pub ext: String,
    pub language: String,
    pub path_abs: FSPath,
    pub path_rel: FSPath,
    pub node_type: NodeType,
}

impl Default for Meta {
    fn default() -> (r: Self)
        ensures
            r.handle.0 == 0,
            r.size == 0,
            r.mode == 0o644,
            r.ext@ == Seq::<char>::empty(),
            r.language@ == Seq::<char>::empty(),
            r.node_type == NodeType::File,
            r.path_abs@ == Seq::<Seq<char>>::empty(),
            r.path_rel@ == Seq::<Seq<char>>::empty(),
    {
        Meta {
            size: 0,
            mode: 0o644,
            ext: String::new(),
            language: String::new(),
            node_type: NodeType::File,
            path_abs: FSPath::empty(),
            path_rel: FSPath::empty(),
            handle: FSHandle(0),
        }
    }
}

impl Meta {
    pub fn is_dir(&self) -> (r: bool)
        ensures
            r == (self.node_type == NodeType::Directory),
    {
        self.node_type == NodeType::Directory
    }

    /// Metadata of a fresh node at `path_segments`: both paths are the
    /// segments, size 0, mode `0o644`, no extension or language, handle 0.
    pub fn new(path_segments: Vec<String>, node_type: NodeType) -> (r: Self)
        ensures
            r.node_type == node_type,
            r.path_rel@ == strs(path_segments@),
            r.path_abs@ == strs(path_segments@),
            r.size == 0,
            r.mode == 0o644,
            r.ext@ == Seq::<char>::empty(),
            r.language@ == Seq::<char>::empty(),
            r.handle.0 == 0,
    {
        let path_rel = FSPath::new(path_segments);
        let path_abs = path_rel.duplicate();
        Meta {
            node_type,
            path_rel,
            path_abs,
            size: 0,
            mode: 0o644,
            ext: String::new(),
            language: String::new(),
            handle: FSHandle(0),
        }
    }

    /// Whether two records hold the same values.
    pub open spec fn same_as(&self, o: Meta) -> bool {
        &&& self.handle == o.handle
        &&& self.size == o.size
        &&& self.mode == o.mode
        &&& self.ext@ == o.ext@
        &&& self.language@ == o.language@
        &&& self.path_abs@ == o.path_abs@
        &&& self.path_rel@ == o.path_rel@
        &&& self.node_type == o.node_type
    }

    /// A field-by-field copy.
    pub fn duplicate(&self) -> (r: Self)
        ensures
            r.same_as(*self),
    {
        Meta {
            handle: self.handle,
            size: self.size,
            mode: self.mode,
            ext: self.ext.clone(),
            language: self.language.clone(),
            path_abs: self.path_abs.duplicate(),
            path_rel: self.path_rel.duplicate(),
            node_type: self.node_type,
        }
    }

    /// The same metadata with `handle` in place of the old handle.
    pub fn with_handle(self, handle: FSHandle) -> (r: Self)
        ensures
            r == (Meta { handle, ..self }),
    {
        let mut m = self;
        m.handle = handle;
        m
    }
}

/// Hands out node handles in increasing order, starting at 1; the counter
/// wraps around after `u64::MAX`. An allocator is never copied: it moves
/// into the file system whose nodes it numbers, so one counter hands out
/// every handle of that file system, each once (until the counter wraps).
#[derive(Debug)]
pub struct HandleAllocator {
    pub next: u64,
}

impl Default for HandleAllocator {
    fn default() -> (r: Self)
        ensures
            r.next == 0,
    {
        HandleAllocator { next: 0 }
    }
}

impl HandleAllocator {
    pub fn new() -> (r: Self)
        ensures
            r.next == 1,
    {
        HandleAllocator { next: 1 }
    }

    /// The current counter value; the counter moves on by one.
    pub fn new_handle(&mut self) -> (r: FSHandle)
        ensures
            r.0 == old(self).next,
            final(self).next == (if old(self).next == u64::MAX {
                0
            } else {
                old(self).next + 1
            }),
    {
        let id = self.next;
        self.next = self.next.wrapping_add(1);
        FSHandle(id)
    }
}

/// What a script is told of a node: size, mode, kind, extension, paths
/// and language.
pub struct Metadata {
    pub size: u64,
    pub mode: u32,
    pub is_dir: bool,
    pub ext: String,
    pub path_abs: String,
    pub path_rel: String,
    pub language: String,
}

impl Default for Metadata {
    /// An empty file with mode `0o644`.
    fn default() -> (r: Self)
        ensures
            r.size == 0,
            r.mode == 0o644,
            !r.is_dir,
            r.ext@ == Seq::<char>::empty(),
            r.path_abs@ == Seq::<char>::empty(),
            r.path_rel@ == Seq::<char>::empty(),
            r.language@ == Seq::<char>::empty(),
    {
        Metadata {
            size: 0,
            mode: 0o644,
            is_dir: false,
            path_abs: String::new(),
            path_rel: String::new(),
            ext: String::new(),
            language: String::new(),
        }
    }
}

} // verus!
