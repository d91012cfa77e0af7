//! Building a file system from an input: the tree builder and the
//! storage-choosing builder.
use crate::fs::laws::{law_ensure_keeps_and_covers, lemma_same_tree};
use crate::fs::engine::{ensure_upto, lemma_ensure_adds_short, next_handle, Engine, NodeView, TreeBuilder};
use crate::fs::inode::Inode;
use crate::fs::meta::{FSHandle, HandleAllocator, Meta, Metadata, NodeType};
use std::collections::HashMap;
use crate::fs::storage::{DiskStorage, MemStorage, Storage};
use crate::fs::system::{entry_views, root_tree, FSInput, FS};
use crate::text::{fields, pieces, split_fields, split_pieces, strs, trim, trim_matches};
use vstd::utf8::encode_utf8;
use vstd::prelude::*;
use vstd::string::*;

verus! {

broadcast use vstd::std_specs::hash::group_hash_axioms;

/// The tree `m` and handle counter `next` after ensuring, in order, the
/// path of every entry of `entries`.
pub open spec fn build_spec(
    m: Map<Seq<Seq<char>>, NodeView>,
    entries: Seq<(Seq<char>, NodeType)>,
    next: u64,
) -> (Map<Seq<Seq<char>>, NodeView>, u64)
    decreases entries.len(),
{
    if entries.len() == 0 {
        (m, next)
    } else {
        let prev = build_spec(m, entries.drop_last(), next);
        let e = entries.last();
        let parts = fields(e.0, Some('/'));
        ensure_upto(prev.0, parts, parts.len(), e.1, prev.1)
    }
}

/// The handles of the files that ensuring `entries` in order creates: an
/// entry of type file whose path was not in the tree yet makes one.
pub open spec fn created_files(
    m: Map<Seq<Seq<char>>, NodeView>,
    entries: Seq<(Seq<char>, NodeType)>,
    next: u64,
) -> Set<u64>
    decreases entries.len(),
{
    if entries.len() == 0 {
        Set::empty()
    } else {
        let prev = build_spec(m, entries.drop_last(), next);
        let e = entries.last();
        let parts = fields(e.0, Some('/'));
        let before = created_files(m, entries.drop_last(), next);
        if e.1 == NodeType::File && parts.len() > 0 && !prev.0.contains_key(parts) {
            before.insert(build_spec(m, entries, next).0[parts].handle)
        } else {
            before
        }
    }
}

/// `files` with empty contents stored under each handle of `made`.
pub open spec fn with_empty(files: Map<u64, Seq<u8>>, made: Set<u64>) -> Map<u64, Seq<u8>> {
    files.union_prefer_right(Map::new(|h: u64| made.contains(h), |h: u64| Seq::<u8>::empty()))
}

/// How many path parts the entries hold in all.
pub open spec fn parts_total(entries: Seq<(Seq<char>, NodeType)>) -> nat
    decreases entries.len(),
{
    if entries.len() == 0 {
        0
    } else {
        parts_total(entries.drop_last()) + fields(entries.last().0, Some('/')).len()
    }
}

impl TreeBuilder {
    /// Ensures the path of every entry of `input`, in order, leaving the
    /// storage alone.
    fn ensure_entries<S>(engine: &mut Engine<S>, input: FSInput)
        requires
            old(engine).wf(),
        ensures
            final(engine).wf(),
            (final(engine)@, final(engine).allocator.next) == build_spec(
                old(engine)@,
                entry_views(input.files@),
                old(engine).allocator.next,
            ),
            final(engine).cwd == old(engine).cwd,
            final(engine).storage == old(engine).storage,
            old(engine).handles_fresh() && old(engine).allocator.next + parts_total(
                entry_views(input.files@),
            ) <= u64::MAX ==> final(engine).handles_fresh(),
    {
        let n = input.files.len();
        let ghost fresh = engine.handles_fresh() && engine.allocator.next + parts_total(
            entry_views(input.files@),
        ) <= u64::MAX;
        let mut i: usize = 0;
        let ghost es = entry_views(input.files@);
        while i < n
            invariant
                engine.wf(),
                n == input.files@.len(),
                es == entry_views(input.files@),
                i <= n,
                (engine@, engine.allocator.next) == build_spec(
                    old(engine)@,
                    es.subrange(0, i as int),
                    old(engine).allocator.next,
                ),
                engine.cwd == old(engine).cwd,
                engine.storage == old(engine).storage,
                fresh == (old(engine).handles_fresh() && old(engine).allocator.next + parts_total(es)
                    <= u64::MAX),
                fresh ==> engine.handles_fresh() && engine.allocator.next <= old(engine).allocator.next + parts_total(es.subrange(0, i as int)),
            decreases n - i,
        {
            proof {
                assert(es.subrange(0, i + 1).drop_last() =~= es.subrange(0, i as int));
                assert(es.subrange(0, i + 1).last() == es[i as int]);
                lemma_parts_total_prefix(es, i as int);
            }
            engine.ensure_path(input.files[i].path.as_str(), input.files[i].node_type);
            i = i + 1;
        }
        proof {
            assert(es.subrange(0, n as int) =~= es);
        }
    }
}

impl TreeBuilder {
    /// Ensures the path of every entry of `input`, in order; each file
    /// node created on the way gets empty contents in the storage.
    pub fn build_into(engine: &mut Engine<MemStorage>, input: FSInput)
        requires
            old(engine).wf(),
        ensures
            final(engine).wf(),
            (final(engine)@, final(engine).allocator.next) == build_spec(
                old(engine)@,
                entry_views(input.files@),
                old(engine).allocator.next,
            ),
            final(engine).cwd == old(engine).cwd,
            final(engine).storage.contents() == with_empty(
                old(engine).storage.contents(),
                created_files(old(engine)@, entry_views(input.files@), old(engine).allocator.next),
            ),
            final(engine).storage.meta@ == old(engine).storage.meta@,
            old(engine).handles_fresh() && old(engine).allocator.next + parts_total(
                entry_views(input.files@),
            ) <= u64::MAX ==> final(engine).handles_fresh(),
    {
        let n = input.files.len();
        let ghost m0 = engine@;
        let ghost next0 = engine.allocator.next;
        let ghost files0 = engine.storage.contents();
        let ghost fresh = engine.handles_fresh() && engine.allocator.next + parts_total(
            entry_views(input.files@),
        ) <= u64::MAX;
        let mut i: usize = 0;
        let ghost es = entry_views(input.files@);
        proof {
            assert(with_empty(files0, Set::empty()) =~= files0);
        }
        while i < n
            invariant
                engine.wf(),
                n == input.files@.len(),
                es == entry_views(input.files@),
                i <= n,
                m0 == old(engine)@,
                next0 == old(engine).allocator.next,
                files0 == old(engine).storage.contents(),
                (engine@, engine.allocator.next) == build_spec(m0, es.subrange(0, i as int), next0),
                engine.cwd == old(engine).cwd,
                engine.storage.contents() == with_empty(
                    files0,
                    created_files(m0, es.subrange(0, i as int), next0),
                ),
                engine.storage.meta@ == old(engine).storage.meta@,
                fresh == (old(engine).handles_fresh() && next0 + parts_total(es) <= u64::MAX),
                fresh ==> engine.handles_fresh() && engine.allocator.next <= next0 + parts_total(
                    es.subrange(0, i as int),
                ),
            decreases n - i,
        {
            proof {
                assert(es.subrange(0, i + 1).drop_last() =~= es.subrange(0, i as int));
                assert(es.subrange(0, i + 1).last() == es[i as int]);
                lemma_parts_total_prefix(es, i as int);
            }
            let parts = split_fields(input.files[i].path.as_str(), Some('/'));
            let node_type = input.files[i].node_type;
            let (at, created) = engine.ensure_parts(&parts, node_type);
            let ghost mid = *engine;
            if created && node_type == NodeType::File {
                let handle = engine.nodes[at].inode.handle();
                let ghost before = engine.storage;
                proof {
                    engine.lemma_index_of(at as int);
                }
                let _ = engine.storage.write(&handle, Vec::new());
                proof {
                    lemma_same_tree(mid, *engine);
                    lemma_same_nodes_fresh(mid, *engine);
                    let made = created_files(m0, es.subrange(0, i as int), next0);
                    assert(engine.storage.contents() =~= before.contents().insert(
                        handle.0,
                        Seq::<u8>::empty(),
                    ));
                    assert(with_empty(files0, made).insert(handle.0, Seq::<u8>::empty())
                        =~= with_empty(files0, made.insert(handle.0)));
                }
            }
            i = i + 1;
        }
        proof {
            assert(es.subrange(0, n as int) =~= es);
        }
    }
}

/// Engines with the same nodes and counter agree on whether their handles
/// are fresh.
proof fn lemma_same_nodes_fresh<S, T>(a: Engine<S>, b: Engine<T>)
    requires
        a.nodes@ == b.nodes@,
        a.allocator == b.allocator,
    ensures
        a.handles_fresh() == b.handles_fresh(),
{
    assert forall|i: int| #[trigger] a.handle_at(i) == b.handle_at(i) by {}
    if a.handles_fresh() {
        assert forall|i: int, j: int|
            0 <= i < b.nodes@.len() && 0 <= j < b.nodes@.len() && i != j implies #[trigger] b.handle_at(i)
                != #[trigger] b.handle_at(j) by {
            assert(a.handle_at(i) != a.handle_at(j));
        }
        assert forall|i: int| 0 <= i < b.nodes@.len() implies #[trigger] b.handle_at(i)
            < b.allocator.next by {
            assert(a.handle_at(i) < a.allocator.next);
        }
    }
    if b.handles_fresh() {
        assert forall|i: int, j: int|
            0 <= i < a.nodes@.len() && 0 <= j < a.nodes@.len() && i != j implies #[trigger] a.handle_at(i)
                != #[trigger] a.handle_at(j) by {
            assert(b.handle_at(i) != b.handle_at(j));
        }
        assert forall|i: int| 0 <= i < a.nodes@.len() implies #[trigger] a.handle_at(i)
            < a.allocator.next by {
            assert(b.handle_at(i) < b.allocator.next);
        }
    }
}

proof fn lemma_parts_total_prefix(es: Seq<(Seq<char>, NodeType)>, i: int)
    requires
        0 <= i < es.len(),
    ensures
        parts_total(es.subrange(0, i)) + fields(es[i].0, Some('/')).len() <= parts_total(es),
    decreases es.len() - i,
{
    assert(es.subrange(0, i + 1).drop_last() =~= es.subrange(0, i));
    if i + 1 < es.len() {
        lemma_parts_total_prefix(es, i + 1);
    } else {
        assert(es.subrange(0, i + 1) =~= es);
    }
}

/// Which storage a built file system uses.
#[derive(Clone, Copy, Debug, PartialEq, Eq, Structural)]
pub enum FsKind {
    Mem,
    Disk,
}

/// A file system over either storage.
pub enum AnyFS {
    Mem(FS<MemStorage>),
    Disk(FS<DiskStorage>),
}

/// Builds a file system of a chosen kind from an input.
pub struct FSBuilder {
    pub kind: FsKind,
    pub allocator: HandleAllocator,
}

/// The tree that `FSBuilder::build` makes from `input` with a builder whose
/// counter stands at `next`: one handle is drawn and left unused, the next
/// goes to the root (a directory), then the entries are ensured in order.
pub open spec fn built_tree(next: u64, input: Seq<(Seq<char>, NodeType)>) -> (
    Map<Seq<Seq<char>>, NodeView>,
    u64,
) {
    let root = next_handle(next);
    build_spec(root_tree(root, NodeType::Directory), input, next_handle(root))
}

/// The handles of the files that `FSBuilder::build` creates from `input`
/// with a builder whose counter stands at `next`.
pub open spec fn built_files(next: u64, input: Seq<(Seq<char>, NodeType)>) -> Set<u64> {
    let root = next_handle(next);
    created_files(root_tree(root, NodeType::Directory), input, next_handle(root))
}

impl FSBuilder {
    pub fn new(kind: FsKind) -> (r: Self)
        ensures
            r.kind == kind,
            r.allocator.next == 1,
    {
        Self { kind, allocator: HandleAllocator::new() }
    }

    /// A file system of the builder's kind holding the paths of `input`.
    /// In memory, each file created gets empty contents in the storage; a
    /// disk build leaves its storage alone.
    pub fn build(self, input: FSInput) -> (r: AnyFS)
        ensures
            match r {
                AnyFS::Mem(fs) => self.kind == FsKind::Mem && fs.core.wf() && (
                fs.core@,
                fs.core.allocator.next,
                ) == built_tree(self.allocator.next, entry_views(input.files@))
                    && fs.core.storage.contents() == with_empty(
                    Map::empty(),
                    built_files(self.allocator.next, entry_views(input.files@)),
                ) && fs.core.storage.meta@ == Map::<u64, Meta>::empty(),
                AnyFS::Disk(fs) => self.kind == FsKind::Disk && fs.core.wf() && (
                fs.core@,
                fs.core.allocator.next,
                ) == built_tree(self.allocator.next, entry_views(input.files@))
                    && fs.core.storage.path_root@ == Seq::<char>::empty(),
            },
            self.allocator.next + 2 + parts_total(entry_views(input.files@)) <= u64::MAX ==> match r {
                AnyFS::Mem(fs) => fs.core.handles_fresh(),
                AnyFS::Disk(fs) => fs.core.handles_fresh(),
            },
    {
        let mut allocator = self.allocator;
        let root_handle = allocator.new_handle();
        let mut root_segments: Vec<String> = Vec::new();
        root_segments.push(String::from_str("/"));
        let root_meta = Meta::new(root_segments, NodeType::Directory);
        match self.kind {
            FsKind::Mem => {
                let mut fs: FS<MemStorage> = FS::new(
                    MemStorage::new(),
                    allocator,
                    root_handle,
                    root_meta,
                );
                TreeBuilder::build_into(&mut fs.core, input);
                AnyFS::Mem(fs)
            },
            FsKind::Disk => {
                let mut fs: FS<DiskStorage> = FS::new(
                    DiskStorage::new(),
                    allocator,
                    root_handle,
                    root_meta,
                );
                TreeBuilder::ensure_entries(&mut fs.core, input);
                AnyFS::Disk(fs)
            },
        }
    }
}

/// A file of a flat input: its paths, name, extension, text and language.
pub struct FlatEntry {
    pub path_abs: String,
    pub path_rel: String,
    pub name: String,
    pub ext: String,
    pub content: String,
    pub language: String,
}

/// Files given by path, each with its entry.
pub struct FlatInput {
    pub files: Vec<(String, FlatEntry)>,
}

/// A flat build's file system, and what each node reports of itself, by
/// handle.
pub struct FlatTree {
    pub fs: FS<MemStorage>,
    pub stats: HashMap<u64, Metadata>,
}

/// A node's report as values: size, mode, whether a directory, extension,
/// absolute path, relative path, language.
pub type StatView = (u64, u32, bool, Seq<char>, Seq<char>, Seq<char>, Seq<char>);

pub open spec fn stat_view(m: Metadata) -> StatView {
    (m.size, m.mode, m.is_dir, m.ext@, m.path_abs@, m.path_rel@, m.language@)
}

pub open spec fn stat_views(m: Map<u64, Metadata>) -> Map<u64, StatView> {
    m.map_values(|x: Metadata| stat_view(x))
}

/// The report of the top: the default one.
pub open spec fn top_stat() -> StatView {
    (0, 0o644, false, Seq::empty(), Seq::empty(), Seq::empty(), Seq::empty())
}

/// The report of a directory made on the way to a file.
pub open spec fn dir_stat() -> StatView {
    (0, 0o644, true, Seq::empty(), Seq::empty(), Seq::empty(), Seq::empty())
}

/// The report of a file made from `e`: its UTF-8 length, mode `0o644`, and
/// the entry's extension, paths and language.
pub open spec fn file_stat(e: FlatEntry) -> StatView {
    (
        encode_utf8(e.content@).len() as u64,
        0o644,
        false,
        e.ext@,
        e.path_abs@,
        e.path_rel@,
        e.language@,
    )
}

/// A flat build's tree, handle counter, stored bytes by handle and node
/// reports by handle.
pub type FlatState = (
    Map<Seq<Seq<char>>, NodeView>,
    u64,
    Map<u64, Seq<u8>>,
    Map<u64, StatView>,
);

/// The names of a flat path: the path trimmed of `/` and cut at every `/`.
pub open spec fn flat_parts(path: Seq<char>) -> Seq<Seq<char>> {
    pieces(trim(path, '/'), '/')
}

/// The reports after marking, in `tree`, the nodes at the first `k`
/// prefixes of `ps` that have no report yet as directories.
pub open spec fn dir_stats(
    stats: Map<u64, StatView>,
    tree: Map<Seq<Seq<char>>, NodeView>,
    ps: Seq<Seq<char>>,
    k: nat,
) -> Map<u64, StatView>
    decreases k,
{
    if k == 0 {
        stats
    } else {
        let prev = dir_stats(stats, tree, ps, (k - 1) as nat);
        let h = tree[ps.subrange(0, k as int)].handle;
        if prev.contains_key(h) {
            prev
        } else {
            prev.insert(h, dir_stat())
        }
    }
}

/// One entry added to a tree, taking nothing away: its path is ensured
/// with directories above; a directory made on the way is reported as one;
/// the node at the path becomes a file (keeping its handle), holding
/// `bytes` and reporting `stat`. Nodes below the path stay.
pub open spec fn grow_step(st: FlatState, path: Seq<char>, bytes: Seq<u8>, stat: StatView) -> FlatState {
    let ps = flat_parts(path);
    let e = ensure_upto(st.0, ps, ps.len(), NodeType::File, st.1);
    if ps.len() == 0 {
        (e.0, e.1, st.2, st.3)
    } else {
        let s1 = dir_stats(st.3, e.0, ps, (ps.len() - 1) as nat);
        let h = e.0[ps].handle;
        (
            e.0.insert(ps, NodeView { handle: h, node_type: NodeType::File }),
            e.1,
            st.2.insert(h, bytes),
            s1.insert(h, stat),
        )
    }
}

/// `grow_step` for each of `entries` in order, from a tree that holds only
/// its top directory, with handle 1 and the default report.
pub open spec fn grow_build(entries: Seq<(Seq<char>, Seq<u8>, StatView)>) -> FlatState
    decreases entries.len(),
{
    if entries.len() == 0 {
        (root_tree(1, NodeType::Directory), 2, Map::empty(), Map::empty().insert(1, top_stat()))
    } else {
        let prev = grow_build(entries.drop_last());
        let e = entries.last();
        grow_step(prev, e.0, e.1, e.2)
    }
}

/// Whether `q` names a node strictly below the one `ps` names.
pub open spec fn is_below(q: Seq<Seq<char>>, ps: Seq<Seq<char>>) -> bool {
    q.len() > ps.len() && q.subrange(0, ps.len() as int) == ps
}

/// The handles of the nodes of `tree` strictly below `ps`.
pub open spec fn handles_below(tree: Map<Seq<Seq<char>>, NodeView>, ps: Seq<Seq<char>>) -> Set<u64> {
    Set::new(|h: u64| exists|q: Seq<Seq<char>>| #[trigger] tree.contains_key(q) && is_below(q, ps) && tree[q].handle == h)
}

/// One entry added to a flat build: its path is ensured with directories
/// above; a directory made on the way is reported as one; the node at the
/// path becomes a file holding `bytes` and reporting `stat`, in place of
/// what stood there (a directory there turns into a file, keeping its
/// handle, and the nodes below it go, with their bytes and reports).
pub open spec fn flat_step(st: FlatState, path: Seq<char>, bytes: Seq<u8>, stat: StatView) -> FlatState {
    let ps = flat_parts(path);
    let e = ensure_upto(st.0, ps, ps.len(), NodeType::File, st.1);
    if ps.len() == 0 {
        (e.0, e.1, st.2, st.3)
    } else {
        let gone = handles_below(e.0, ps);
        let s1 = dir_stats(st.3, e.0, ps, (ps.len() - 1) as nat);
        let h = e.0[ps].handle;
        let kept = Map::new(|q: Seq<Seq<char>>| e.0.contains_key(q) && !is_below(q, ps), |q: Seq<Seq<char>>| e.0[q]);
        (
            kept.insert(ps, NodeView { handle: h, node_type: NodeType::File }),
            e.1,
            st.2.remove_keys(gone).insert(h, bytes),
            s1.remove_keys(gone).insert(h, stat),
        )
    }
}

/// A flat build of `entries` in order, from a tree that holds only its top
/// directory, with handle 1 and the default report.
pub open spec fn flat_build(entries: Seq<(Seq<char>, Seq<u8>, StatView)>) -> FlatState
    decreases entries.len(),
{
    if entries.len() == 0 {
        (root_tree(1, NodeType::Directory), 2, Map::empty(), Map::empty().insert(1, top_stat()))
    } else {
        let prev = flat_build(entries.drop_last());
        let e = entries.last();
        flat_step(prev, e.0, e.1, e.2)
    }
}

/// Whether the paths of `seq` never get shorter.
pub open spec fn depths_rise(seq: Seq<(Seq<char>, Seq<u8>, StatView)>) -> bool {
    forall|i: int, j: int| 0 <= i <= j < seq.len() ==> depth(#[trigger] seq[i]) <= depth(#[trigger] seq[j])
}

/// Adding entries with paths that never get shorter, nothing ever stands
/// below an entry's path when it is added, so a flat build equals the build
/// that takes nothing away; and no node is deeper than the last entry's
/// path.
proof fn lemma_rising_build(seq: Seq<(Seq<char>, Seq<u8>, StatView)>)
    requires
        depths_rise(seq),
    ensures
        flat_build(seq) == grow_build(seq),
        forall|q: Seq<Seq<char>>| #[trigger] grow_build(seq).0.contains_key(q) ==> q.len() <= (
        if seq.len() == 0 {
            0
        } else {
            depth(seq.last())
        }),
    decreases seq.len(),
{
    if seq.len() > 0 {
        let d = seq.drop_last();
        assert forall|i: int, j: int| 0 <= i <= j < d.len() implies depth(#[trigger] d[i]) <= depth(#[trigger] d[j]) by {
            assert(d[i] == seq[i]);
            assert(d[j] == seq[j]);
        }
        lemma_rising_build(d);
        let st = grow_build(d);
        let e = seq.last();
        let ps = flat_parts(e.0);
        let k = ps.len();
        if d.len() > 0 {
            assert(d.last() == seq[d.len() - 1]);
            assert(depth(seq[d.len() - 1]) <= depth(seq[seq.len() - 1]));
        }
        let after = ensure_upto(st.0, ps, k, NodeType::File, st.1).0;
        lemma_ensure_adds_short(st.0, ps, k, NodeType::File, st.1);
        assert forall|q: Seq<Seq<char>>| #[trigger] after.contains_key(q) implies q.len() <= k by {
            if st.0.contains_key(q) {
            }
        }
        if k > 0 {
            let kept = Map::new(|q: Seq<Seq<char>>| after.contains_key(q) && !is_below(q, ps), |q: Seq<Seq<char>>| after[q]);
            assert(kept =~= after);
            assert(handles_below(after, ps) =~= Set::<u64>::empty());
            assert(st.2.remove_keys(Set::<u64>::empty()) =~= st.2);
            let s1 = dir_stats(st.3, after, ps, (k - 1) as nat);
            assert(s1.remove_keys(Set::<u64>::empty()) =~= s1);
        }
    }
}

/// Adding the entries in the order of `flat_order`, no entry lands where a
/// node with nodes below it already stands: a flat build, which drops what
/// is below the path of each entry, equals the build that takes nothing
/// away.
pub proof fn law_flat_order_replaces_nothing_below(es: Seq<(Seq<char>, Seq<u8>, StatView)>)
    ensures
        flat_build(flat_order(es)) == grow_build(flat_order(es)),
{
    lemma_up_to_depth_rises(es, max_depth(es));
    lemma_rising_build(flat_order(es));
}

/// The entries of `at_depth(es, d)` have paths of `d` names.
proof fn lemma_at_depth(es: Seq<(Seq<char>, Seq<u8>, StatView)>, d: nat)
    ensures
        forall|i: int| 0 <= i < at_depth(es, d).len() ==> depth(#[trigger] at_depth(es, d)[i]) == d,
    decreases es.len(),
{
    if es.len() > 0 {
        let prev = at_depth(es.drop_last(), d);
        lemma_at_depth(es.drop_last(), d);
        if depth(es.last()) == d {
            assert forall|i: int| 0 <= i < at_depth(es, d).len() implies depth(
                #[trigger] at_depth(es, d)[i],
            ) == d by {
                if i < prev.len() {
                    assert(at_depth(es, d)[i] == prev[i]);
                }
            }
        }
    }
}

/// `up_to_depth(es, d)` has paths of at most `d` names that never get
/// shorter.
proof fn lemma_up_to_depth_rises(es: Seq<(Seq<char>, Seq<u8>, StatView)>, d: nat)
    ensures
        depths_rise(up_to_depth(es, d)),
        forall|i: int| 0 <= i < up_to_depth(es, d).len() ==> depth(#[trigger] up_to_depth(es, d)[i]) <= d,
    decreases d,
{
    if d > 0 {
        lemma_up_to_depth_rises(es, (d - 1) as nat);
        lemma_at_depth(es, d);
        let a = up_to_depth(es, (d - 1) as nat);
        let b = at_depth(es, d);
        let c = a + b;
        assert(up_to_depth(es, d) == c);
        assert forall|i: int| 0 <= i < c.len() implies depth(#[trigger] c[i]) <= d by {
            if i < a.len() {
                assert(c[i] == a[i]);
            } else {
                assert(c[i] == b[i - a.len()]);
            }
        }
        assert forall|i: int, j: int| 0 <= i <= j < c.len() implies depth(#[trigger] c[i]) <= depth(#[trigger] c[j]) by {
            if j < a.len() {
                assert(c[i] == a[i]);
                assert(c[j] == a[j]);
            } else if i < a.len() {
                assert(c[i] == a[i]);
                assert(c[j] == b[j - a.len()]);
            } else {
                assert(c[i] == b[i - a.len()]);
                assert(c[j] == b[j - a.len()]);
            }
        }
    }
}

/// The paths of flat entries, the UTF-8 bytes of their texts and the
/// reports of the files made from them.
pub open spec fn flat_views(v: Seq<(String, FlatEntry)>) -> Seq<(Seq<char>, Seq<u8>, StatView)> {
    v.map_values(|e: (String, FlatEntry)| (e.0@, encode_utf8(e.1.content@), file_stat(e.1)))
}

/// Whether an inode is a file's.
fn inode_is_file(inode: &Inode) -> (r: bool)
    ensures
        r == (inode.spec_meta().node_type == NodeType::File),
{
    let m = match inode {
        Inode::File(f) => &f.meta,
        Inode::Directory(d) => &d.meta,
        Inode::Root(t) => &t.meta,
    };
    m.node_type == NodeType::File
}

/// Marks, as directories, the nodes on the way to the last part of
/// `parts` that have no report yet.
fn mark_dirs(engine: &Engine<MemStorage>, parts: &Vec<String>, stats: &mut HashMap<u64, Metadata>)
    requires
        engine.wf(),
        parts@.len() > 0,
        forall|j: int|
            1 <= j <= parts@.len() ==> #[trigger] engine@.contains_key(
                strs(parts@).subrange(0, j),
            ),
    ensures
        stat_views(final(stats)@) == dir_stats(
            stat_views(old(stats)@),
            engine@,
            strs(parts@),
            (parts@.len() - 1) as nat,
        ),
{
    let ghost ps = strs(parts@);
    let n = parts.len();
    let mut current: usize = 0;
    let mut i: usize = 0;
    assert(ps.subrange(0, 0) =~= Seq::<Seq<char>>::empty());
    assert(engine.node_path(0) =~= Seq::<Seq<char>>::empty()) by {
        engine.lemma_index_of(0);
    }
    while i + 1 < n
        invariant
            engine.wf(),
            n == parts@.len(),
            n > 0,
            ps == strs(parts@),
            i < n,
            current < engine.nodes@.len(),
            engine.node_path(current as int) == ps.subrange(0, i as int),
            forall|j: int| 1 <= j <= n ==> #[trigger] engine@.contains_key(ps.subrange(0, j)),
            stat_views(stats@) == dir_stats(stat_views(old(stats)@), engine@, ps, i as nat),
        decreases n - i,
    {
        proof {
            assert(ps.subrange(0, i + 1) =~= ps.subrange(0, i as int).push(parts@[i as int]@));
            assert(engine@.contains_key(ps.subrange(0, i + 1)));
        }
        let c = match engine.lookup_child(current, parts[i].as_str()) {
            Some(c) => c,
            None => {
                proof {
                    assert(false);
                }
                current
            },
        };
        proof {
            engine.lemma_index_of(c as int);
        }
        let h = engine.nodes[c].inode.handle();
        let ghost before = stats@;
        if !stats.contains_key(&h.0) {
            stats.insert(
                h.0,
                Metadata {
                    size: 0,
                    mode: 0o644,
                    is_dir: true,
                    ext: String::new(),
                    path_abs: String::new(),
                    path_rel: String::new(),
                    language: String::new(),
                },
            );
            proof {
                assert(stat_views(stats@) =~= stat_views(before).insert(h.0, dir_stat()));
            }
        }
        current = c;
        i = i + 1;
    }
}

/// Adds one entry to the tree, taking nothing away, as `grow_step` says.
fn add_flat_entry(
    fs: &mut FS<MemStorage>,
    stats: &mut HashMap<u64, Metadata>,
    path: &str,
    entry: &FlatEntry,
)
    requires
        old(fs).core.wf(),
    ensures
        final(fs).core.wf(),
        (
            final(fs).core@,
            final(fs).core.allocator.next,
            final(fs).core.storage.contents(),
            stat_views(final(stats)@),
        ) == grow_step(
            (
                old(fs).core@,
                old(fs).core.allocator.next,
                old(fs).core.storage.contents(),
                stat_views(old(stats)@),
            ),
            path@,
            encode_utf8(entry.content@),
            file_stat(*entry),
        ),
{
    let ghost prev = fs.core@;
    let ghost prev_next = fs.core.allocator.next;
    let trimmed = trim_matches(path, '/');
    let parts = split_pieces(trimmed.as_str(), '/');
    let (at, _created) = fs.core.ensure_parts(&parts, NodeType::File);
    let ghost ps = strs(parts@);
    assert(ps.len() > 0);
    proof {
        law_ensure_keeps_and_covers(
            prev,
            ps,
            ps.len(),
            NodeType::File,
            prev_next,
        );
    }
    mark_dirs(&fs.core, &parts, stats);
    proof {
        fs.core.lemma_index_of(at as int);
        assert(at != 0) by {
            assert(fs.core.node_path(0) == Seq::<Seq<char>>::empty());
        }
    }
    let ghost before_tree = fs.core@;
    let ghost pre = fs.core;
    assert(pre.handle_at(at as int) == before_tree[ps].handle);
    if !inode_is_file(&fs.core.nodes[at].inode) {
        fs.core.make_file(at);
    } else {
        assert(before_tree.insert(ps, NodeView { handle: before_tree[ps].handle, node_type: NodeType::File })
            =~= before_tree);
    }
    let ghost file_view = NodeView { handle: before_tree[ps].handle, node_type: NodeType::File };
    assert(fs.core@ == before_tree.insert(ps, file_view));
    let ghost mid = fs.core;
    let handle = fs.core.nodes[at].inode.handle();
    assert(fs.core.handle_at(at as int) == pre.handle_at(at as int));
    assert(handle.0 == before_tree[ps].handle);
            let bytes = entry.content.as_str().as_bytes_vec();
    let size = bytes.len() as u64;
    let ghost before = fs.core.storage;
    let ghost stats_before = stats@;
    let _ = fs.core.storage.write(&handle, bytes);
    stats.insert(
        handle.0,
        Metadata {
            size,
            mode: 0o644,
            is_dir: false,
            ext: entry.ext.clone(),
            path_abs: entry.path_abs.clone(),
            path_rel: entry.path_rel.clone(),
            language: entry.language.clone(),
        },
    );
    proof {
        assert(fs.core.storage.contents() =~= before.contents().insert(
            handle.0,
            encode_utf8(entry.content@),
        ));
        assert(stat_views(stats@) =~= stat_views(stats_before).insert(handle.0, file_stat(*entry)));
    }
    proof {
        lemma_same_tree(mid, fs.core);
    }
}

/// How many names a flat path has.
pub open spec fn depth(e: (Seq<char>, Seq<u8>, StatView)) -> nat {
    flat_parts(e.0).len()
}

/// The entries of `es` whose paths have `d` names, in their order.
pub open spec fn at_depth(es: Seq<(Seq<char>, Seq<u8>, StatView)>, d: nat) -> Seq<
    (Seq<char>, Seq<u8>, StatView),
>
    decreases es.len(),
{
    if es.len() == 0 {
        Seq::empty()
    } else if depth(es.last()) == d {
        at_depth(es.drop_last(), d).push(es.last())
    } else {
        at_depth(es.drop_last(), d)
    }
}

/// The entries of `es` whose paths have at most `d` names, the shorter
/// paths first and, among paths of one length, in their order.
pub open spec fn up_to_depth(es: Seq<(Seq<char>, Seq<u8>, StatView)>, d: nat) -> Seq<
    (Seq<char>, Seq<u8>, StatView),
>
    decreases d,
{
    if d == 0 {
        Seq::empty()
    } else {
        up_to_depth(es, (d - 1) as nat) + at_depth(es, d)
    }
}

/// The largest number of names of a path of `es`.
pub open spec fn max_depth(es: Seq<(Seq<char>, Seq<u8>, StatView)>) -> nat
    decreases es.len(),
{
    if es.len() == 0 {
        0
    } else {
        let m = max_depth(es.drop_last());
        if depth(es.last()) > m {
            depth(es.last())
        } else {
            m
        }
    }
}

/// The order in which a flat build adds entries: shorter paths first, so
/// that no file entry lands where a directory was already made.
pub open spec fn flat_order(es: Seq<(Seq<char>, Seq<u8>, StatView)>) -> Seq<
    (Seq<char>, Seq<u8>, StatView),
> {
    up_to_depth(es, max_depth(es))
}

/// Growing a tree by `e` after growing it by `done` grows it by `done`
/// then `e`.
proof fn lemma_grow_build_append(
    done: Seq<(Seq<char>, Seq<u8>, StatView)>,
    e: (Seq<char>, Seq<u8>, StatView),
)
    ensures
        grow_build(done.push(e)) == grow_step(grow_build(done), e.0, e.1, e.2),
{
    assert(done.push(e).drop_last() =~= done);
}

/// A file system in memory holding every path of `input`: a file at the
/// end of each path, directories above it. The entries are added shorter
/// paths first (paths of one length in their order), which is one of the
/// orders in which entries keyed by path may come. The node at a path is a
/// file holding the entry's text and reporting the entry's metadata (size
/// the text's UTF-8 length, mode `0o644`, the entry's extension, paths and
/// language); an entry replaces what stood at its path, with the nodes
/// below it, so a later entry for the same path replaces an earlier one.
/// Directories made on the way report as directories; the top gives the
/// default report.
pub fn build_fs_from_flat_json(input: FlatInput) -> (r: FlatTree)
    ensures
        r.fs.core.wf(),
        (r.fs.core@, r.fs.core.allocator.next, r.fs.core.storage.contents(), stat_views(r.stats@))
            == flat_build(flat_order(flat_views(input.files@))),
{
    let mut root_segments: Vec<String> = Vec::new();
    root_segments.push(String::from_str("/"));
    let root_meta = Meta::new(root_segments, NodeType::Directory);
    let allocator = HandleAllocator::new();
    let mut fs: FS<MemStorage> = FS::new(MemStorage::new(), allocator, FSHandle(0), root_meta);
    let mut stats: HashMap<u64, Metadata> = HashMap::new();
    stats.insert(1, Metadata::default());
    let ghost es = flat_views(input.files@);
    proof {
        assert(fs.core.storage.contents() =~= Map::<u64, Seq<u8>>::empty());
        assert(stat_views(stats@) =~= Map::<u64, StatView>::empty().insert(1, top_stat()));
    }
    let n = input.files.len();
    // the number of names of each path, and the largest
    let mut depths: Vec<usize> = Vec::new();
    let mut most: usize = 0;
    let mut i: usize = 0;
    while i < n
        invariant
            n == input.files@.len(),
            es == flat_views(input.files@),
            i <= n,
            depths@.len() == i,
            forall|k: int| 0 <= k < i ==> #[trigger] depths@[k] == depth(es[k]),
            most == max_depth(es.subrange(0, i as int)),
        decreases n - i,
    {
        let trimmed = trim_matches(input.files[i].0.as_str(), '/');
        let parts = split_pieces(trimmed.as_str(), '/');
        proof {
            assert(es.subrange(0, i + 1).drop_last() =~= es.subrange(0, i as int));
            assert(es.subrange(0, i + 1).last() == es[i as int]);
        }
        depths.push(parts.len());
        if parts.len() > most {
            most = parts.len();
        }
        i = i + 1;
    }
    proof {
        assert(es.subrange(0, n as int) =~= es);
        assert(up_to_depth(es, 0) =~= Seq::<(Seq<char>, Seq<u8>, StatView)>::empty());
    }
    let mut d: usize = 0;
    while d < most
        invariant
            fs.core.wf(),
            n == input.files@.len(),
            es == flat_views(input.files@),
            depths@.len() == n,
            forall|k: int| 0 <= k < n ==> #[trigger] depths@[k] == depth(es[k]),
            most == max_depth(es),
            d <= most,
            (fs.core@, fs.core.allocator.next, fs.core.storage.contents(), stat_views(stats@))
                == grow_build(up_to_depth(es, d as nat)),
        decreases most - d,
    {
        d = d + 1;
        let ghost base = up_to_depth(es, (d - 1) as nat);
        let mut j: usize = 0;
        proof {
            assert(es.subrange(0, 0) =~= Seq::<(Seq<char>, Seq<u8>, StatView)>::empty());
            assert(base + at_depth(es.subrange(0, 0), d as nat) =~= base);
        }
        while j < n
            invariant
                fs.core.wf(),
                n == input.files@.len(),
                es == flat_views(input.files@),
                depths@.len() == n,
                forall|k: int| 0 <= k < n ==> #[trigger] depths@[k] == depth(es[k]),
                j <= n,
                (fs.core@, fs.core.allocator.next, fs.core.storage.contents(), stat_views(stats@))
                    == grow_build(base + at_depth(es.subrange(0, j as int), d as nat)),
            decreases n - j,
        {
            let ghost sub = es.subrange(0, j + 1);
            proof {
                assert(sub.drop_last() =~= es.subrange(0, j as int));
                assert(sub.last() == es[j as int]);
            }
            if depths[j] == d {
                let ghost prior = base + at_depth(es.subrange(0, j as int), d as nat);
                add_flat_entry(&mut fs, &mut stats, input.files[j].0.as_str(), &input.files[j].1);
                proof {
                    lemma_grow_build_append(prior, es[j as int]);
                    assert(base + at_depth(sub, d as nat) =~= prior.push(es[j as int]));
                }
            }
            j = j + 1;
        }
        proof {
            assert(es.subrange(0, n as int) =~= es);
        }
    }
    proof {
        law_flat_order_replaces_nothing_below(es);
    }
    FlatTree { fs, stats }
}

} // verus!
