//! The tree of a file system and the operations that walk and grow it.
//!
//! Nodes live in an arena: node 0 is the root, every other node records its
//! parent, and every node lists its children. Abstractly the tree is a map
//! from paths (sequences of names, the root being the empty path) to the
//! handle and type of the node found there.
use crate::fs::error::FSError;
use crate::fs::inode::{Dentry, Inode};
use crate::fs::meta::{copy_strings, FSHandle, HandleAllocator, Meta, NodeType};
use crate::fs::storage::{MemStorage, Storage};
use crate::fs::laws::law_ensure_keeps_and_covers;
use crate::text::{fields, pieces, split_fields, split_pieces, starts_with, str_eq, strs};
use vstd::prelude::*;
use vstd::string::*;

verus! {

/// What the tree records of the node at a path.
#[derive(Clone, Copy, Debug, PartialEq, Eq, Structural)]
pub struct NodeView {
    pub handle: u64,
    pub node_type: NodeType,
}

/// The path `Vec::pop`/`push` walk of `parts`: `.` and empty parts are
/// skipped, `..` drops the last name kept so far (if any), other parts are
/// kept.
pub open spec fn normalize(parts: Seq<Seq<char>>) -> Seq<Seq<char>>
    decreases parts.len(),
{
    if parts.len() == 0 {
        Seq::empty()
    } else {
        let r = normalize(parts.drop_last());
        let x = parts.last();
        if x.len() == 0 || x == seq!['.'] {
            r
        } else if x == seq!['.', '.'] {
            if r.len() > 0 {
                r.drop_last()
            } else {
                r
            }
        } else {
            r.push(x)
        }
    }
}

/// Following `parts` from the path `start` in the tree `m`: `.` stays,
/// `..` goes up (failing at the top), a name goes down to that child
/// (failing when there is none).
pub open spec fn resolve_from(
    m: Map<Seq<Seq<char>>, NodeView>,
    start: Seq<Seq<char>>,
    parts: Seq<Seq<char>>,
) -> Option<Seq<Seq<char>>>
    decreases parts.len(),
{
    if parts.len() == 0 {
        Some(start)
    } else {
        match resolve_from(m, start, parts.drop_last()) {
            None => None,
            Some(cur) => {
                let x = parts.last();
                if x == seq!['.'] {
                    Some(cur)
                } else if x == seq!['.', '.'] {
                    if cur.len() == 0 {
                        None
                    } else {
                        Some(cur.drop_last())
                    }
                } else if m.contains_key(cur.push(x)) {
                    Some(cur.push(x))
                } else {
                    None
                }
            }
        }
    }
}

/// The path that `walk` follows for `path`: its `/`-separated parts,
/// normalized.
pub open spec fn walk_target(path: Seq<char>) -> Seq<Seq<char>> {
    normalize(pieces(path, '/'))
}

/// The handle counter after one step.
pub open spec fn next_handle(n: u64) -> u64 {
    if n == u64::MAX {
        0
    } else {
        (n + 1) as u64
    }
}

/// The tree `m` and handle counter `next` after making sure that the first
/// `k` prefixes of `parts` exist: each missing prefix gets a new node with
/// the next handle, typed `t` when it is the whole of `parts` and
/// `Directory` otherwise.
pub open spec fn ensure_upto(
    m: Map<Seq<Seq<char>>, NodeView>,
    parts: Seq<Seq<char>>,
    k: nat,
    t: NodeType,
    next: u64,
) -> (Map<Seq<Seq<char>>, NodeView>, u64)
    decreases k,
{
    if k == 0 {
        (m, next)
    } else {
        let prev = ensure_upto(m, parts, (k - 1) as nat, t, next);
        let p = parts.subrange(0, k as int);
        let ty = if k == parts.len() {
            t
        } else {
            NodeType::Directory
        };
        if prev.0.contains_key(p) {
            prev
        } else {
            (prev.0.insert(p, NodeView { handle: prev.1, node_type: ty }), next_handle(prev.1))
        }
    }
}

/// The metadata a node gets when it is made at `path`: both paths are
/// `path`, size 0, mode `0o644`, no extension or language, handle 0.
pub open spec fn made_meta(m: Meta, path: Seq<Seq<char>>) -> bool {
    &&& m.path_rel@ == path
    &&& m.path_abs@ == path
    &&& m.size == 0
    &&& m.mode == 0o644
    &&& m.ext@.len() == 0
    &&& m.language@.len() == 0
    &&& m.handle.0 == 0
}

/// The tree of a file system, its storage, handle allocator and current
/// directory.
pub struct Engine<S> {
    pub nodes: Vec<Dentry>,
    pub storage: S,
    pub allocator: HandleAllocator,
    pub cwd: FSHandle,
}

impl<S> View for Engine<S> {
    type V = Map<Seq<Seq<char>>, NodeView>;

    open spec fn view(&self) -> Map<Seq<Seq<char>>, NodeView> {
        Map::new(|p: Seq<Seq<char>>| self.has_path(p), |p: Seq<Seq<char>>| self.node_view(self.index_of(p)))
    }
}

fn is_dot(s: &str) -> (r: bool)
    ensures
        r == (s@ == seq!['.']),
{
    let r = s.unicode_len() == 1 && s.get_char(0) == '.';
    proof {
        if s@.len() == 1 && s@[0] == '.' {
            assert(s@ =~= seq!['.']);
        }
    }
    r
}

fn is_dot_dot(s: &str) -> (r: bool)
    ensures
        r == (s@ == seq!['.', '.']),
{
    let r = s.unicode_len() == 2 && s.get_char(0) == '.' && s.get_char(1) == '.';
    proof {
        if s@.len() == 2 && s@[0] == '.' && s@[1] == '.' {
            assert(s@ =~= seq!['.', '.']);
        }
    }
    r
}

proof fn lemma_push_injective(a: Seq<Seq<char>>, x: Seq<char>, b: Seq<Seq<char>>, y: Seq<char>)
    requires
        a.push(x) == b.push(y),
    ensures
        a == b,
        x == y,
{
    assert(a.push(x).drop_last() =~= a);
    assert(b.push(y).drop_last() =~= b);
    assert(a.push(x).last() == x);
    assert(b.push(y).last() == y);
}

proof fn lemma_resolve_none_stays(
    m: Map<Seq<Seq<char>>, NodeView>,
    start: Seq<Seq<char>>,
    parts: Seq<Seq<char>>,
    k: int,
)
    requires
        0 <= k <= parts.len(),
        resolve_from(m, start, parts.subrange(0, k)) is None,
    ensures
        resolve_from(m, start, parts) is None,
    decreases parts.len() - k,
{
    if k == parts.len() {
        assert(parts.subrange(0, k) =~= parts);
    } else {
        assert(parts.subrange(0, k + 1).drop_last() =~= parts.subrange(0, k));
        lemma_resolve_none_stays(m, start, parts, k + 1);
    }
}

impl<S> Engine<S> {
    pub open spec fn node_path(&self, i: int) -> Seq<Seq<char>> {
        if i == 0 {
            Seq::empty()
        } else {
            self.nodes@[i].inode.spec_meta().path_rel@
        }
    }

    pub open spec fn handle_at(&self, i: int) -> u64 {
        self.nodes@[i].inode.spec_handle().0
    }

    pub open spec fn node_view(&self, i: int) -> NodeView {
        NodeView {
            handle: self.handle_at(i),
            node_type: self.nodes@[i].inode.spec_meta().node_type,
        }
    }

    pub open spec fn has_path(&self, p: Seq<Seq<char>>) -> bool {
        exists|i: int| 0 <= i < self.nodes@.len() && #[trigger] self.node_path(i) == p
    }

    pub open spec fn index_of(&self, p: Seq<Seq<char>>) -> int {
        choose|i: int| 0 <= i < self.nodes@.len() && #[trigger] self.node_path(i) == p
    }

    pub open spec fn parent_ok(&self, i: int) -> bool {
        match self.nodes@[i].parent {
            Some(p) => {
                &&& (p as int) < self.nodes@.len()
                &&& self.node_path(i) == self.node_path(p as int).push(self.nodes@[i].name@)
                &&& self.nodes@[p as int].children@.contains(i as usize)
                &&& self.nodes@[i].inode !is Root
            },
            None => false,
        }
    }

    pub open spec fn child_ok(&self, i: int, c: usize) -> bool {
        &&& 0 < c < self.nodes@.len()
        &&& self.nodes@[c as int].parent == Some(i as usize)
    }

    /// The well-formedness of the tree.
    pub open spec fn wf(&self) -> bool {
        &&& self.nodes@.len() >= 1
        &&& self.nodes@.len() <= usize::MAX
        &&& self.nodes@[0].parent is None
        &&& self.nodes@[0].inode is Root
        &&& forall|i: int| 1 <= i < self.nodes@.len() ==> #[trigger] self.parent_ok(i)
        &&& forall|i: int, k: int|
            0 <= i < self.nodes@.len() && 0 <= k < self.nodes@[i].children@.len() ==> self.child_ok(
                i,
                #[trigger] self.nodes@[i].children@[k],
            )
        &&& forall|i: int|
            0 <= i < self.nodes@.len() ==> (#[trigger] self.nodes@[i].children@).no_duplicates()
        &&& forall|i: int, j: int|
            0 <= i < self.nodes@.len() && 0 <= j < self.nodes@.len() && #[trigger] self.node_path(i)
                == #[trigger] self.node_path(j) ==> i == j
        &&& forall|i: int|
            1 <= i < self.nodes@.len() ==> made_meta(
                #[trigger] self.nodes@[i].inode.spec_meta(),
                self.node_path(i),
            )
    }

    /// Every handle in the tree is distinct and below the allocator's
    /// counter.
    pub open spec fn handles_fresh(&self) -> bool {
        &&& forall|i: int|
            0 <= i < self.nodes@.len() ==> #[trigger] self.handle_at(i) < self.allocator.next
        &&& forall|i: int, j: int|
            0 <= i < self.nodes@.len() && 0 <= j < self.nodes@.len() && i != j ==> #[trigger] self.handle_at(i)
                != #[trigger] self.handle_at(j)
    }

    /// Whether node `i` is the first in the arena with handle `h`.
    pub open spec fn is_first_with(&self, i: int, h: u64) -> bool {
        &&& 0 <= i < self.nodes@.len()
        &&& self.handle_at(i) == h
        &&& forall|j: int| 0 <= j < i ==> #[trigger] self.handle_at(j) != h
    }

    pub open spec fn holds_handle(&self, h: u64) -> bool {
        exists|i: int| 0 <= i < self.nodes@.len() && #[trigger] self.handle_at(i) == h
    }

    pub open spec fn first_with(&self, h: u64) -> int {
        choose|i: int| self.is_first_with(i, h)
    }

    /// The path that a lookup of `path` starts from: the top for an absolute
    /// path, else the node of the current directory (if any node holds its
    /// handle).
    pub open spec fn start_of(&self, path: Seq<char>) -> Option<Seq<Seq<char>>> {
        if path.len() > 0 && path[0] == '/' {
            Some(Seq::empty())
        } else if self.holds_handle(self.cwd.0) {
            Some(self.node_path(self.first_with(self.cwd.0)))
        } else {
            None
        }
    }

    /// Where `path` leads, `..` and `.` included.
    pub open spec fn resolve_spec(&self, path: Seq<char>) -> Option<Seq<Seq<char>>> {
        match self.start_of(path) {
            None => None,
            Some(s) => resolve_from(self@, s, fields(path, Some('/'))),
        }
    }

    /// What `walk` gives for `path`: the handle at the normalized path, or
    /// `NotFound` when the tree holds no node there.
    pub open spec fn walk_result(&self, path: Seq<char>) -> Result<FSHandle, FSError> {
        if self@.contains_key(walk_target(path)) {
            Ok(FSHandle(self@[walk_target(path)].handle))
        } else {
            Err(FSError::NotFound)
        }
    }

    /// Whether `r` is what `readdir` may give for `path`: for a path that
    /// leads somewhere, the names below the first node holding the handle
    /// found there, each once; `NotFound` otherwise.
    pub open spec fn readdir_spec(&self, path: Seq<char>, r: Result<Vec<String>, FSError>) -> bool {
        match (r, self.resolve_spec(path)) {
            (Ok(names), Some(q)) => {
                let dir = self.node_path(self.first_with(self@[q].handle));
                &&& strs(names@).no_duplicates()
                &&& forall|x: Seq<char>|
                    strs(names@).contains(x) <==> self@.contains_key(dir.push(x))
            },
            (Err(e), None) => e == FSError::NotFound,
            _ => false,
        }
    }

    pub proof fn lemma_index_of(&self, i: int)
        requires
            self.wf(),
            0 <= i < self.nodes@.len(),
        ensures
            self.has_path(self.node_path(i)),
            self.index_of(self.node_path(i)) == i,
            self@.contains_key(self.node_path(i)),
            self@[self.node_path(i)] == self.node_view(i),
    {
        let p = self.node_path(i);
        assert(self.has_path(p));
        let j = self.index_of(p);
        assert(self.node_path(j) == p);
    }

    pub proof fn lemma_first_with(&self, i: int, h: u64)
        requires
            self.is_first_with(i, h),
        ensures
            self.holds_handle(h),
            self.first_with(h) == i,
    {
        assert(self.handle_at(i) == h);
        let j = self.first_with(h);
        assert(self.is_first_with(j, h));
        if j < i {
            assert(self.handle_at(j) != h);
        }
        if i < j {
            assert(self.handle_at(i) != h);
        }
    }

    /// Every prefix of a path in the tree is in the tree.
    pub proof fn lemma_prefix_closed(&self, p: Seq<Seq<char>>, k: int)
        requires
            self.wf(),
            self.has_path(p),
            0 <= k <= p.len(),
        ensures
            self.has_path(p.subrange(0, k)),
        decreases p.len() - k,
    {
        if k == p.len() {
            assert(p.subrange(0, k) =~= p);
        } else {
            let i = choose|i: int| 0 <= i < self.nodes@.len() && #[trigger] self.node_path(i) == p;
            assert(i != 0);
            assert(self.parent_ok(i));
            let par = self.nodes@[i].parent.unwrap() as int;
            assert(self.node_path(par) =~= p.drop_last());
            assert(self.has_path(p.drop_last()));
            self.lemma_prefix_closed(p.drop_last(), k);
            assert(p.drop_last().subrange(0, k) =~= p.subrange(0, k));
        }
    }

    /// The position of the root.
    pub fn root(&self) -> (r: usize)
        ensures
            r == 0,
    {
        0
    }

    /// The child of node `dir` named `name`, if there is one.
    pub fn lookup(&self, dir: usize, name: &str) -> (r: Result<usize, FSError>)
        requires
            self.wf(),
            dir < self.nodes@.len(),
        ensures
            match r {
                Ok(c) => c < self.nodes@.len() && self.node_path(c as int) == self.node_path(
                    dir as int,
                ).push(name@),
                Err(e) => e == FSError::NotFound && !self@.contains_key(
                    self.node_path(dir as int).push(name@),
                ),
            },
    {
        match self.lookup_child(dir, name) {
            Some(c) => Ok(c),
            None => Err(FSError::NotFound),
        }
    }

    pub(crate) fn lookup_child(&self, dir: usize, name: &str) -> (r: Option<usize>)
        requires
            self.wf(),
            dir < self.nodes@.len(),
        ensures
            match r {
                Some(c) => c < self.nodes@.len() && self.node_path(c as int) == self.node_path(
                    dir as int,
                ).push(name@),
                None => !self.has_path(self.node_path(dir as int).push(name@)),
            },
    {
        let n = self.nodes[dir].children.len();
        let mut k: usize = 0;
        while k < n
            invariant
                self.wf(),
                dir < self.nodes@.len(),
                n == self.nodes@[dir as int].children@.len(),
                k <= n,
                forall|m: int|
                    0 <= m < k ==> self.nodes@[self.nodes@[dir as int].children@[m] as int].name@
                        != name@,
            decreases n - k,
        {
            let c = self.nodes[dir].children[k];
            assert(self.child_ok(dir as int, self.nodes@[dir as int].children@[k as int]));
            if str_eq(self.nodes[c].name.as_str(), name) {
                assert(self.parent_ok(c as int));
                return Some(c);
            }
            k = k + 1;
        }
        proof {
            let target = self.node_path(dir as int).push(name@);
            assert forall|j: int| 0 <= j < self.nodes@.len() implies #[trigger] self.node_path(j)
                != target by {
                if self.node_path(j) == target {
                    assert(target.len() == self.node_path(dir as int).len() + 1);
                    if j == 0 {
                        assert(self.node_path(0).len() == 0);
                    }
                    assert(self.parent_ok(j));
                    let p = self.nodes@[j].parent.unwrap();
                    assert(self.node_path(j) == self.node_path(p as int).push(self.nodes@[j].name@));
                    lemma_push_injective(
                        self.node_path(p as int),
                        self.nodes@[j].name@,
                        self.node_path(dir as int),
                        name@,
                    );
                    assert(self.node_path(p as int) == self.node_path(dir as int));
                    assert(p == dir);
                    assert(self.nodes@[dir as int].children@.contains(j as usize));
                    let m = self.nodes@[dir as int].children@.index_of(j as usize);
                    assert(self.nodes@[dir as int].children@[m] == j as usize);
                    assert(self.nodes@[self.nodes@[dir as int].children@[m] as int].name@ != name@);
                    assert(false);
                }
            }
        }
        None
    }

    /// The first node in the arena whose handle is `h`.
    fn find_dentry(&self, h: &FSHandle) -> (r: Option<usize>)
        ensures
            match r {
                Some(i) => self.is_first_with(i as int, h.0),
                None => !self.holds_handle(h.0),
            },
    {
        let n = self.nodes.len();
        let mut i: usize = 0;
        while i < n
            invariant
                n == self.nodes@.len(),
                i <= n,
                forall|j: int| 0 <= j < i ==> #[trigger] self.handle_at(j) != h.0,
            decreases n - i,
        {
            if self.nodes[i].inode.handle().0 == h.0 {
                return Some(i);
            }
            i = i + 1;
        }
        None
    }

    /// The position of the first node holding `handle`.
    pub fn resolve_handle_to_dentry(&self, handle: &FSHandle) -> (r: Result<usize, FSError>)
        ensures
            match r {
                Ok(i) => self.is_first_with(i as int, handle.0),
                Err(e) => e == FSError::NotFound && !self.holds_handle(handle.0),
            },
    {
        match self.find_dentry(handle) {
            Some(i) => Ok(i),
            None => Err(FSError::NotFound),
        }
    }

    /// `path` split at `/`, with `.` and empty parts dropped and each `..`
    /// dropping the name before it.
    pub fn normalize_path(path: &str) -> (r: Vec<String>)
        ensures
            strs(r@) == normalize(pieces(path@, '/')),
    {
        let ps = split_pieces(path, '/');
        let n = ps.len();
        let mut parts: Vec<String> = Vec::new();
        let mut i: usize = 0;
        while i < n
            invariant
                n == ps@.len(),
                i <= n,
                strs(ps@) == pieces(path@, '/'),
                strs(parts@) == normalize(strs(ps@).subrange(0, i as int)),
            decreases n - i,
        {
            let part = &ps[i];
            let ghost pre = strs(ps@).subrange(0, i as int);
            proof {
                assert(strs(ps@).subrange(0, i + 1).drop_last() =~= pre);
                assert(strs(ps@).subrange(0, i + 1).last() == part@);
            }
            let len = part.as_str().unicode_len();
            if len == 0 || is_dot(part.as_str()) {
            } else if is_dot_dot(part.as_str()) {
                let ghost before = parts@;
                if parts.len() > 0 {
                    parts.pop();
                    proof {
                        assert(strs(parts@) =~= strs(before).drop_last());
                    }
                }
            } else {
                let ghost before = parts@;
                parts.push(part.clone());
                proof {
                    assert(strs(parts@) =~= strs(before).push(part@));
                }
            }
            i = i + 1;
        }
        proof {
            assert(strs(ps@).subrange(0, n as int) =~= strs(ps@));
        }
        parts
    }

    /// The handle of the node that `path`, normalized, names from the top.
    pub fn walk(&self, path: &str) -> (r: Result<FSHandle, FSError>)
        requires
            self.wf(),
        ensures
            r == self.walk_result(path@),
    {
        let parts = Self::normalize_path(path);
        let ghost q = normalize(pieces(path@, '/'));
        assert(q == walk_target(path@));
        let n = parts.len();
        let mut current: usize = 0;
        let mut i: usize = 0;
        while i < n
            invariant
                self.wf(),
                n == parts@.len(),
                q == walk_target(path@),
                strs(parts@) == q,
                i <= n,
                current < self.nodes@.len(),
                self.node_path(current as int) == q.subrange(0, i as int),
            decreases n - i,
        {
            proof {
                assert(q[i as int] == parts@[i as int]@);
                assert(q.subrange(0, i + 1) =~= q.subrange(0, i as int).push(parts@[i as int]@));
            }
            match self.lookup_child(current, parts[i].as_str()) {
                Some(c) => {
                    current = c;
                },
                None => {
                    proof {
                        if self.has_path(q) {
                            self.lemma_prefix_closed(q, i + 1);
                            assert(self.has_path(q.subrange(0, i + 1)));
                            assert(q.subrange(0, i + 1) == self.node_path(current as int).push(parts@[i as int]@));
                            assert(false);
                        }
                        assert(!self.has_path(q));
                        assert(!self@.contains_key(q));
                        assert(!self@.contains_key(walk_target(path@)));
                    }
                    let e = FSError::NotFound;
                    assert(e == FSError::NotFound);
                    return Err(e);
                },
            }
            i = i + 1;
        }
        proof {
            assert(q.subrange(0, n as int) =~= q);
            self.lemma_index_of(current as int);
        }
        Ok(self.nodes[current].inode.handle())
    }

    /// The handle of the node that `path` leads to, from the top when it
    /// starts with `/` and from the current directory otherwise.
    pub fn resolve_path(&self, path: &str) -> (r: Result<FSHandle, FSError>)
        requires
            self.wf(),
        ensures
            match (r, self.resolve_spec(path@)) {
                (Ok(h), Some(q)) => self@.contains_key(q) && h.0 == self@[q].handle,
                (Err(e), None) => e == FSError::NotFound,
                _ => false,
            },
    {
        let mut current: usize = 0;
        let ghost mut start: Seq<Seq<char>> = Seq::empty();
        let absolute = starts_with(path, "/");
        proof {
            reveal_strlit("/");
            if path@.len() > 0 {
                assert(path@.subrange(0, 1)[0] == path@[0]);
                if path@[0] == '/' {
                    assert(path@.subrange(0, 1) =~= "/"@);
                }
            }
            assert(absolute == (path@.len() > 0 && path@[0] == '/'));
        }
        if !absolute {
            match self.find_dentry(&self.cwd) {
                Some(i) => {
                    proof {
                        self.lemma_first_with(i as int, self.cwd.0);
                        start = self.node_path(i as int);
                    }
                    current = i;
                },
                None => {
                    return Err(FSError::NotFound);
                },
            }
        }
        assert(self.start_of(path@) == Some(start));
        assert(self.node_path(current as int) == start);
        let parts = split_fields(path, Some('/'));
        let ghost ps = fields(path@, Some('/'));
        let n = parts.len();
        let mut i: usize = 0;
        assert(ps.subrange(0, 0) =~= Seq::<Seq<char>>::empty());
        while i < n
            invariant
                self.wf(),
                n == parts@.len(),
                ps == fields(path@, Some('/')),
                strs(parts@) == ps,
                i <= n,
                current < self.nodes@.len(),
                self.start_of(path@) == Some(start),
                resolve_from(self@, start, ps.subrange(0, i as int)) == Some(
                    self.node_path(current as int),
                ),
            decreases n - i,
        {
            let part = parts[i].as_str();
            proof {
                assert(ps.subrange(0, i + 1).drop_last() =~= ps.subrange(0, i as int));
                assert(ps.subrange(0, i + 1).last() == part@);
            }
            if is_dot(part) {
            } else if is_dot_dot(part) {
                match self.nodes[current].parent {
                    None => {
                        proof {
                            assert(self.wf());
                            assert((current as int) < self.nodes@.len());
                            assert(self.nodes@[current as int].parent is None);
                            assert(current == 0) by {
                                if current != 0 {
                                    assert(1 <= current as int);
                                    assert(self.parent_ok(current as int));
                                }
                            }
                            lemma_resolve_none_stays(self@, start, ps, i + 1);
                        }
                        return Err(FSError::NotFound);
                    },
                    Some(p) => {
                        proof {
                            assert(current != 0);
                            assert(self.parent_ok(current as int));
                            assert(self.node_path(p as int) =~= self.node_path(
                                current as int,
                            ).drop_last());
                        }
                        current = p;
                    },
                }
            } else {
                match self.lookup_child(current, part) {
                    Some(c) => {
                        proof {
                            self.lemma_index_of(c as int);
                        }
                        current = c;
                    },
                    None => {
                        proof {
                            lemma_resolve_none_stays(self@, start, ps, i + 1);
                        }
                        return Err(FSError::NotFound);
                    },
                }
            }
            i = i + 1;
        }
        proof {
            assert(ps.subrange(0, n as int) =~= ps);
            self.lemma_index_of(current as int);
        }
        Ok(self.nodes[current].inode.handle())
    }

    /// The node reached from the top by `path`, created (with any missing
    /// node on the way) when absent: the last part gets type `final_type`,
    /// the ones before it are directories. Existing nodes are kept as they
    /// are, whatever their type.
    pub fn ensure_path(&mut self, path: &str, final_type: NodeType)
        requires
            old(self).wf(),
        ensures
            final(self).wf(),
            (final(self)@, final(self).allocator.next) == ensure_upto(
                old(self)@,
                fields(path@, Some('/')),
                fields(path@, Some('/')).len(),
                final_type,
                old(self).allocator.next,
            ),
            final(self).cwd == old(self).cwd,
            final(self).storage == old(self).storage,
            old(self).handles_fresh() && old(self).allocator.next + fields(path@, Some('/')).len()
                <= u64::MAX ==> final(self).handles_fresh() && final(self).allocator.next
                <= old(self).allocator.next + fields(path@, Some('/')).len(),
    {
        let parts = split_fields(path, Some('/'));
        let _ = self.ensure_parts(&parts, final_type);
    }

    /// The node at the path of names `parts`, created (with any missing node
    /// on the way) when absent, as `ensure_path` does. Gives the node's
    /// position and whether it was created.
    pub fn ensure_parts(&mut self, parts: &Vec<String>, final_type: NodeType) -> (r: (usize, bool))
        requires
            old(self).wf(),
        ensures
            final(self).wf(),
            (final(self)@, final(self).allocator.next) == ensure_upto(
                old(self)@,
                strs(parts@),
                parts@.len(),
                final_type,
                old(self).allocator.next,
            ),
            final(self).cwd == old(self).cwd,
            final(self).storage == old(self).storage,
            old(self).handles_fresh() && old(self).allocator.next + parts@.len() <= u64::MAX
                ==> final(self).handles_fresh() && final(self).allocator.next
                <= old(self).allocator.next + parts@.len(),
            r.0 < final(self).nodes@.len(),
            final(self).node_path(r.0 as int) == strs(parts@),
            r.1 == (parts@.len() > 0 && !old(self)@.contains_key(strs(parts@))),
    {
        let ghost ps = strs(parts@);
        let ghost old_next = self.allocator.next;
        let ghost fresh = self.handles_fresh() && self.allocator.next + ps.len() <= u64::MAX;
        let n = parts.len();
        let mut current: usize = 0;
        let mut created = false;
        let mut i: usize = 0;
        assert(ps.subrange(0, 0) =~= Seq::<Seq<char>>::empty());
        while i < n
            invariant
                self.wf(),
                n == parts@.len(),
                ps == strs(parts@),
                i <= n,
                current < self.nodes@.len(),
                self.node_path(current as int) == ps.subrange(0, i as int),
                (self@, self.allocator.next) == ensure_upto(
                    old(self)@,
                    ps,
                    i as nat,
                    final_type,
                    old_next,
                ),
                self.cwd == old(self).cwd,
                self.storage == old(self).storage,
                fresh ==> self.handles_fresh() && self.allocator.next <= old_next + i,
                fresh == (old(self).handles_fresh() && old_next + ps.len() <= u64::MAX),
                i > 0 ==> (created == !old(self)@.contains_key(ps.subrange(0, i as int))),
                i == 0 ==> !created,
            decreases n - i,
        {
            let ghost p = ps.subrange(0, i + 1);
            proof {
                assert(p =~= ps.subrange(0, i as int).push(parts@[i as int]@));
                assert(p.len() == i + 1);
                lemma_ensure_adds_short(old(self)@, ps, i as nat, final_type, old_next);
                law_ensure_keeps_and_covers(old(self)@, ps, i as nat, final_type, old_next);
            }
            match self.lookup_child(current, parts[i].as_str()) {
                Some(c) => {
                    proof {
                        self.lemma_index_of(c as int);
                    }
                    current = c;
                    created = false;
                },
                None => {
                    let node_type = if i == n - 1 {
                        final_type
                    } else {
                        NodeType::Directory
                    };
                    let segments = TreeBuilder::build_meta_path(parts, i);
                    current = self.add_child(current, parts[i].clone(), segments, node_type);
                    created = true;
                },
            }
            i = i + 1;
        }
        proof {
            assert(ps.subrange(0, n as int) =~= ps);
        }
        (current, created)
    }

    /// Turns the node at position `idx` into a file node, keeping its name,
    /// place, handle and children; its metadata becomes that of a new file
    /// at its path.
    pub fn make_file(&mut self, idx: usize)
        requires
            old(self).wf(),
            1 <= idx < old(self).nodes@.len(),
        ensures
            final(self).wf(),
            final(self)@ == old(self)@.insert(
                old(self).node_path(idx as int),
                NodeView { handle: old(self).handle_at(idx as int), node_type: NodeType::File },
            ),
            final(self).nodes@.len() == old(self).nodes@.len(),
            forall|i: int| 0 <= i < final(self).nodes@.len() ==> #[trigger] final(self).handle_at(i)
                == old(self).handle_at(i),
            final(self).allocator == old(self).allocator,
            final(self).cwd == old(self).cwd,
            final(self).storage == old(self).storage,
    {
        let ghost a = *self;
        let handle = self.nodes[idx].inode.handle();
        let segments = match &self.nodes[idx].inode {
            Inode::File(f) => copy_strings(&f.meta.path_rel.0),
            Inode::Directory(d) => copy_strings(&d.meta.path_rel.0),
            Inode::Root(t) => copy_strings(&t.meta.path_rel.0),
        };
        assert(strs(segments@) == a.node_path(idx as int));
        let meta = Meta::new(segments, NodeType::File);
        let inode = Inode::build(NodeType::File, handle, meta);
        self.nodes[idx].inode = inode;
        proof {
            let b = *self;
            let l = idx as int;
            assert forall|i: int| 0 <= i < b.nodes@.len() && i != l implies b.nodes@[i] == a.nodes@[i] by {}
            assert(b.node_path(l) == a.node_path(l));
            assert forall|i: int| 0 <= i < b.nodes@.len() implies #[trigger] b.node_path(i)
                == a.node_path(i) by {
                if i != l {
                    assert(b.nodes@[i] == a.nodes@[i]);
                }
            }
            assert forall|i: int| 0 <= i < b.nodes@.len() implies #[trigger] b.parent_ok(i)
                == a.parent_ok(i) by {
                if a.nodes@[i].parent is Some && (a.nodes@[i].parent.unwrap() as int) < a.nodes@.len() {
                    assert(a.node_path(a.nodes@[i].parent.unwrap() as int) == b.node_path(
                        a.nodes@[i].parent.unwrap() as int,
                    ));
                }
            }
            assert forall|i: int, c: usize| #[trigger] b.child_ok(i, c) == a.child_ok(i, c) by {}
            assert forall|i: int| 1 <= i < b.nodes@.len() implies #[trigger] b.parent_ok(i) by {
                assert(a.parent_ok(i));
            }
            assert forall|i: int, k: int|
                0 <= i < b.nodes@.len() && 0 <= k < b.nodes@[i].children@.len() implies b.child_ok(
                i,
                #[trigger] b.nodes@[i].children@[k],
            ) by {
                assert(a.child_ok(i, a.nodes@[i].children@[k]));
            }
            assert forall|i: int| 0 <= i < b.nodes@.len() implies (
            #[trigger] b.nodes@[i].children@).no_duplicates() by {
                assert(a.nodes@[i].children@.no_duplicates());
            }
            assert forall|i: int, j: int|
                0 <= i < b.nodes@.len() && 0 <= j < b.nodes@.len() && #[trigger] b.node_path(i)
                    == #[trigger] b.node_path(j) implies i == j by {
                assert(a.node_path(i) == a.node_path(j));
            }
            assert forall|i: int| 1 <= i < b.nodes@.len() implies made_meta(
                #[trigger] b.nodes@[i].inode.spec_meta(),
                b.node_path(i),
            ) by {
                if i != l {
                    assert(made_meta(a.nodes@[i].inode.spec_meta(), a.node_path(i)));
                }
            }
            assert(b.wf());
            assert forall|i: int| 0 <= i < b.nodes@.len() implies #[trigger] b.handle_at(i)
                == a.handle_at(i) by {}
            assert forall|p: Seq<Seq<char>>| #[trigger] b.has_path(p) == a.has_path(p) by {
                if a.has_path(p) {
                    let i = choose|i: int| 0 <= i < a.nodes@.len() && #[trigger] a.node_path(i) == p;
                    assert(b.node_path(i) == p);
                }
                if b.has_path(p) {
                    let i = choose|i: int| 0 <= i < b.nodes@.len() && #[trigger] b.node_path(i) == p;
                    assert(a.node_path(i) == p);
                }
            }
            let q = a.node_path(l);
            let nv = NodeView { handle: a.handle_at(l), node_type: NodeType::File };
            assert forall|p: Seq<Seq<char>>| #[trigger] b@.contains_key(p) implies b@[p]
                == a@.insert(q, nv)[p] by {
                let j = b.index_of(p);
                b.lemma_index_of(j);
                a.lemma_index_of(j);
                if j == l {
                    assert(p == q);
                } else {
                    assert(p != q) by {
                        assert(b.node_path(l) == q);
                    }
                    assert(b.node_view(j) == a.node_view(j));
                }
            }
            assert(b@.dom() =~= a@.insert(q, nv).dom()) by {
                assert(a.has_path(q)) by {
                    a.lemma_index_of(l);
                }
            }
            assert(b@ =~= a@.insert(q, nv));
        }
    }

    /// Adds a child named `name` under node `parent`, with a new handle and
    /// metadata for the path `segments`.
    fn add_child(
        &mut self,
        parent: usize,
        name: String,
        segments: Vec<String>,
        node_type: NodeType,
    ) -> (r: usize)
        requires
            old(self).wf(),
            parent < old(self).nodes@.len(),
            strs(segments@) == old(self).node_path(parent as int).push(name@),
            !old(self).has_path(strs(segments@)),
        ensures
            final(self).wf(),
            r == old(self).nodes@.len(),
            final(self).nodes@.len() == old(self).nodes@.len() + 1,
            final(self).node_path(r as int) == strs(segments@),
            final(self)@ == old(self)@.insert(
                strs(segments@),
                NodeView { handle: old(self).allocator.next, node_type },
            ),
            final(self).allocator.next == next_handle(old(self).allocator.next),
            final(self).cwd == old(self).cwd,
            final(self).storage == old(self).storage,
            old(self).handles_fresh() && old(self).allocator.next < u64::MAX ==> final(self).handles_fresh(),
    {
        let ghost old_self = *self;
        let ghost path = strs(segments@);
        let handle = self.allocator.new_handle();
        let meta = Meta::new(segments, node_type);
        let inode = Inode::build(node_type, handle, meta);
        let idx = self.nodes.len();
        let node = Dentry::new(name, inode, Some(parent));
        self.nodes.push(node);
        self.nodes[parent].children.push(idx);
        // Reading the length tells the proof that the arena still fits in
        // `usize`.
        let count = self.nodes.len();
        proof {
            assert(count == idx + 1);
            let l = idx as int;
            assert forall|i: int| 0 <= i < l implies self.node_path(i) == old_self.node_path(i)
                && self.nodes@[i].inode == old_self.nodes@[i].inode && self.nodes@[i].name
                == old_self.nodes@[i].name && self.nodes@[i].parent
                == old_self.nodes@[i].parent by {}
            assert(self.node_path(l) == path);
            assert(self.node_view(l) == NodeView { handle: old_self.allocator.next, node_type });
            // parents
            assert forall|i: int| 1 <= i < self.nodes@.len() implies #[trigger] self.parent_ok(
                i,
            ) by {
                if i < l {
                    assert(old_self.parent_ok(i));
                    let p = self.nodes@[i].parent.unwrap() as int;
                    if p == parent {
                        assert(old_self.nodes@[p].children@.contains(i as usize));
                        let m = old_self.nodes@[p].children@.index_of(i as usize);
                        assert(self.nodes@[p].children@[m] == i as usize);
                    }
                } else {
                    assert(self.nodes@[parent as int].children@.last() == idx);
                }
            }
            // children
            assert forall|i: int, k: int|
                0 <= i < self.nodes@.len() && 0 <= k < self.nodes@[i].children@.len() implies self.child_ok(
                i,
                #[trigger] self.nodes@[i].children@[k],
            ) by {
                if i == l {
                } else if i == parent && k == self.nodes@[i].children@.len() - 1 {
                } else {
                    assert(old_self.child_ok(i, old_self.nodes@[i].children@[k]));
                }
            }
            assert forall|i: int| 0 <= i < self.nodes@.len() implies (
            #[trigger] self.nodes@[i].children@).no_duplicates() by {
                if i == parent {
                    let cs = old_self.nodes@[i].children@;
                    assert forall|k: int| 0 <= k < cs.len() implies cs[k] != idx by {
                        assert(old_self.child_ok(i, cs[k]));
                    }
                    assert(self.nodes@[i].children@ == cs.push(idx));
                } else if i == l {
                    assert(self.nodes@[i].children@.len() == 0);
                } else {
                    assert(self.nodes@[i].children@ == old_self.nodes@[i].children@);
                }
            }
            assert forall|i: int, j: int|
                0 <= i < self.nodes@.len() && 0 <= j < self.nodes@.len() && #[trigger] self.node_path(
                    i,
                ) == #[trigger] self.node_path(j) implies i == j by {
                if i < l && j < l {
                    assert(old_self.node_path(i) == old_self.node_path(j));
                } else if i < l {
                    assert(old_self.node_path(i) == path);
                } else if j < l {
                    assert(old_self.node_path(j) == path);
                }
            }
            assert(self.wf());
            // the abstract tree
            assert forall|q: Seq<Seq<char>>| #[trigger] self.has_path(q) == (old_self.has_path(q)
                || q == path) by {
                if self.has_path(q) {
                    let i = choose|i: int| 0 <= i < self.nodes@.len() && #[trigger] self.node_path(i)
                        == q;
                    if i < l {
                        assert(old_self.node_path(i) == q);
                    }
                }
                if old_self.has_path(q) {
                    let i = choose|i: int| 0 <= i < old_self.nodes@.len() && #[trigger] old_self.node_path(i)
                        == q;
                    assert(self.node_path(i) == q);
                }
                if q == path {
                    assert(self.node_path(l) == q);
                }
            }
            assert forall|q: Seq<Seq<char>>| #[trigger] self@.contains_key(q) implies self@[q] == old_self@.insert(
                path,
                NodeView { handle: old_self.allocator.next, node_type },
            )[q] by {
                if q == path {
                    self.lemma_index_of(l);
                } else {
                    let i = choose|i: int| 0 <= i < old_self.nodes@.len() && #[trigger] old_self.node_path(i)
                        == q;
                    old_self.lemma_index_of(i);
                    self.lemma_index_of(i);
                }
            }
            assert(self@ =~= old_self@.insert(
                path,
                NodeView { handle: old_self.allocator.next, node_type },
            ));
            if old_self.handles_fresh() && old_self.allocator.next < u64::MAX {
                assert forall|i: int| 0 <= i < self.nodes@.len() implies #[trigger] self.handle_at(i)
                    < self.allocator.next by {
                    if i < l {
                        assert(old_self.handle_at(i) < old_self.allocator.next);
                    }
                }
                assert forall|i: int, j: int|
                    0 <= i < self.nodes@.len() && 0 <= j < self.nodes@.len() && i != j implies #[trigger] self.handle_at(
                    i,
                ) != #[trigger] self.handle_at(j) by {
                    if i < l && j < l {
                        assert(old_self.handle_at(i) != old_self.handle_at(j));
                    } else if i < l {
                        assert(old_self.handle_at(i) < old_self.allocator.next);
                    } else if j < l {
                        assert(old_self.handle_at(j) < old_self.allocator.next);
                    }
                }
            }
        }
        idx
    }

    /// Makes sure a directory exists at `path` and at every path above it.
    pub fn mkdir(&mut self, path: &str) -> (r: Result<(), FSError>)
        requires
            old(self).wf(),
        ensures
            r is Ok,
            final(self).wf(),
            (final(self)@, final(self).allocator.next) == ensure_upto(
                old(self)@,
                fields(path@, Some('/')),
                fields(path@, Some('/')).len(),
                NodeType::Directory,
                old(self).allocator.next,
            ),
            final(self).cwd == old(self).cwd,
            final(self).storage == old(self).storage,
    {
        self.ensure_path(path, NodeType::Directory);
        Ok(())
    }

    /// The names of the children of the node that `path` leads to.
    pub fn readdir(&self, path: &str) -> (r: Result<Vec<String>, FSError>)
        requires
            self.wf(),
        ensures
            self.readdir_spec(path@, r),
    {
        let handle = match self.resolve_path(path) {
            Ok(h) => h,
            Err(e) => {
                return Err(e);
            },
        };
        let ghost q = self.resolve_spec(path@).unwrap();
        proof {
            let i = self.index_of(q);
            assert(self.has_path(q));
            assert(self.handle_at(i) == handle.0);
        }
        let node = match self.find_dentry(&handle) {
            Some(i) => i,
            None => {
                return Err(FSError::NotFound);
            },
        };
        proof {
            self.lemma_first_with(node as int, handle.0);
        }
        Ok(self.child_names(node))
    }

    /// The names of the children of node `dir`.
    pub fn child_names(&self, dir: usize) -> (r: Vec<String>)
        requires
            self.wf(),
            dir < self.nodes@.len(),
        ensures
            strs(r@).no_duplicates(),
            forall|x: Seq<char>|
                strs(r@).contains(x) <==> self@.contains_key(self.node_path(dir as int).push(x)),
    {
        let n = self.nodes[dir].children.len();
        let ghost cs = self.nodes@[dir as int].children@;
        let ghost base = self.node_path(dir as int);
        let mut out: Vec<String> = Vec::new();
        let mut k: usize = 0;
        while k < n
            invariant
                self.wf(),
                dir < self.nodes@.len(),
                cs == self.nodes@[dir as int].children@,
                base == self.node_path(dir as int),
                n == cs.len(),
                k <= n,
                out@.len() == k,
                forall|m: int|
                    0 <= m < k ==> (#[trigger] strs(out@)[m]) == self.nodes@[cs[m] as int].name@,
                strs(out@).no_duplicates(),
            decreases n - k,
        {
            let c = self.nodes[dir].children[k];
            assert(self.child_ok(dir as int, cs[k as int]));
            assert(self.parent_ok(c as int));
            let ghost before = out@;
            proof {
                assert forall|m: int| 0 <= m < k implies strs(before)[m] != self.nodes@[c as int].name@ by {
                    let d = cs[m];
                    assert(self.child_ok(dir as int, cs[m]));
                    assert(self.parent_ok(d as int));
                    if strs(before)[m] == self.nodes@[c as int].name@ {
                        assert(self.node_path(d as int) == self.node_path(c as int));
                    }
                }
            }
            out.push(self.nodes[c].name.clone());
            proof {
                assert(strs(out@) =~= strs(before).push(self.nodes@[c as int].name@));
            }
            k = k + 1;
        }
        proof {
            assert forall|x: Seq<char>| strs(out@).contains(x) <==> self@.contains_key(
                base.push(x),
            ) by {
                if strs(out@).contains(x) {
                    let m = strs(out@).index_of(x);
                    let d = cs[m];
                    assert(self.child_ok(dir as int, cs[m]));
                    assert(self.parent_ok(d as int));
                    self.lemma_index_of(d as int);
                }
                if self@.contains_key(base.push(x)) {
                    assert(self.has_path(base.push(x)));
                    let j = self.index_of(base.push(x));
                    assert(self.node_path(j) == base.push(x));
                    if j == 0 {
                        assert(self.node_path(0).len() == 0);
                    }
                    assert(self.parent_ok(j));
                    let p = self.nodes@[j].parent.unwrap();
                    assert(self.node_path(j) == self.node_path(p as int).push(self.nodes@[j].name@));
                    lemma_push_injective(self.node_path(p as int), self.nodes@[j].name@, base, x);
                    assert(self.node_path(p as int) == self.node_path(dir as int));
                    assert(p == dir);
                    assert(cs.contains(j as usize));
                    let m = cs.index_of(j as usize);
                    assert(cs[m] == j as usize);
                    assert(strs(out@)[m] == self.nodes@[cs[m] as int].name@);
                    assert(strs(out@).contains(x));
                }
            }
        }
        out
    }

    /// Makes the node that `path` leads to the current directory.
    pub fn cd(&mut self, path: &str) -> (r: Result<(), FSError>)
        requires
            old(self).wf(),
        ensures
            final(self).nodes == old(self).nodes,
            final(self).allocator == old(self).allocator,
            final(self).storage == old(self).storage,
            match (r, old(self).resolve_spec(path@)) {
                (Ok(()), Some(q)) => final(self).cwd.0 == old(self)@[q].handle,
                (Err(e), None) => e == FSError::NotFound && final(self).cwd == old(self).cwd,
                _ => false,
            },
    {
        match self.resolve_path(path) {
            Ok(h) => {
                self.cwd = h;
                Ok(())
            },
            Err(e) => Err(e),
        }
    }

    /// `/` followed by the name of the current directory's node.
    pub fn pwd(&self) -> (r: Result<String, FSError>)
        ensures
            match r {
                Ok(s) => self.holds_handle(self.cwd.0) && s@ == seq!['/'] + self.nodes@[self.first_with(
                    self.cwd.0,
                )].name@,
                Err(e) => e == FSError::NotFound && !self.holds_handle(self.cwd.0),
            },
    {
        match self.find_dentry(&self.cwd) {
            Some(i) => {
                proof {
                    self.lemma_first_with(i as int, self.cwd.0);
                }
                let mut s = String::from_str("/");
                proof {
                    reveal_strlit("/");
                }
                s.append(self.nodes[i].name.as_str());
                Ok(s)
            },
            None => Err(FSError::NotFound),
        }
    }
}

impl Engine<MemStorage> {
    /// Replaces the bytes of the node that `path` names from the top.
    pub fn write(&mut self, path: &str, data: Vec<u8>) -> (r: Result<(), FSError>)
        requires
            old(self).wf(),
        ensures
            final(self).nodes == old(self).nodes,
            final(self).allocator == old(self).allocator,
            final(self).cwd == old(self).cwd,
            match r {
                    Ok(()) => old(self)@.contains_key(walk_target(path@)) && final(self).storage.files@ == old(self).storage.files@.insert(old(self)@[walk_target(path@)].handle, data),
                    Err(e) => e == FSError::NotFound && !old(self)@.contains_key(walk_target(path@)) && final(self).storage == old(self).storage,
            },
    {
        let handle = match self.walk(path) {
            Ok(h) => h,
            Err(e) => {
                return Err(e);
            },
        };
        self.storage.write(&handle, data)
    }

    /// The bytes of the node that `path` names from the top.
    pub fn read(&self, path: &str) -> (r: Result<Vec<u8>, FSError>)
        requires
            self.wf(),
        ensures
            match r {
                    Ok(v) => self@.contains_key(walk_target(path@)) && v@ == self.storage.bytes_of(self@[walk_target(path@)].handle),
                    Err(e) => e == FSError::NotFound && !self@.contains_key(walk_target(path@)),
            },
    {
        let handle = match self.walk(path) {
            Ok(h) => h,
            Err(e) => {
                return Err(e);
            },
        };
        self.storage.read(&handle)
    }
}

/// Builds a tree from a list of entries.
pub struct TreeBuilder;

impl TreeBuilder {
    /// `path` split at `/`, empty parts dropped.
    pub fn split_path(path: &str) -> (r: Vec<String>)
        ensures
            strs(r@) == fields(path@, Some('/')),
    {
        split_fields(path, Some('/'))
    }

    /// A copy of the first `i + 1` parts.
    pub fn build_meta_path(parts: &Vec<String>, i: usize) -> (r: Vec<String>)
        requires
            i < parts@.len(),
        ensures
            strs(r@) == strs(parts@).subrange(0, i + 1),
    {
        let mut out: Vec<String> = Vec::new();
        let n = parts.len();
        let mut k: usize = 0;
        while k <= i
            invariant
                i < parts@.len(),
                n == parts@.len(),
                k <= i + 1,
                strs(out@) == strs(parts@).subrange(0, k as int),
            decreases i + 1 - k,
        {
            let ghost before = out@;
            out.push(parts[k].clone());
            proof {
                assert(strs(out@) =~= strs(before).push(parts@[k as int]@));
                assert(strs(parts@).subrange(0, k + 1) =~= strs(parts@).subrange(
                    0,
                    k as int,
                ).push(parts@[k as int]@));
            }
            k = k + 1;
        }
        out
    }
}

/// Ensuring the first `k` parts of a path adds only paths of at most `k`
/// names.
pub proof fn lemma_ensure_adds_short(
    m: Map<Seq<Seq<char>>, NodeView>,
    parts: Seq<Seq<char>>,
    k: nat,
    t: NodeType,
    next: u64,
)
    requires
        k <= parts.len(),
    ensures
        forall|q: Seq<Seq<char>>| #[trigger]
            ensure_upto(m, parts, k, t, next).0.contains_key(q) ==> m.contains_key(q) || q.len()
                <= k,
    decreases k,
{
    if k > 0 {
        lemma_ensure_adds_short(m, parts, (k - 1) as nat, t, next);
        let prev = ensure_upto(m, parts, (k - 1) as nat, t, next);
        assert forall|q: Seq<Seq<char>>| #[trigger]
            ensure_upto(m, parts, k, t, next).0.contains_key(q) implies m.contains_key(q)
                || q.len() <= k by {
            if q != parts.subrange(0, k as int) {
                assert(prev.0.contains_key(q));
            }
        }
    }
}

} // verus!
