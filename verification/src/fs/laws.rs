//! Properties that hold across the file-system operations.
use crate::fs::builder::{build_spec, created_files, with_empty};
use crate::fs::engine::{ensure_upto, next_handle, walk_target, Engine, NodeView};
use crate::fs::meta::NodeType;
use crate::fs::meta::FSPath;
use crate::fs::storage::MemStorage;
use crate::text::{fields, join, pieces, scan_pieces, trim, trim_end, trim_start};
use vstd::prelude::*;

verus! {

/// Ensuring a path keeps every node already in the tree, unchanged, and
/// leaves a node at every prefix of the path.
pub proof fn law_ensure_keeps_and_covers(
    m: Map<Seq<Seq<char>>, NodeView>,
    parts: Seq<Seq<char>>,
    k: nat,
    t: NodeType,
    next: u64,
)
    requires
        k <= parts.len(),
    ensures
        forall|p: Seq<Seq<char>>| #[trigger]
            m.contains_key(p) ==> ensure_upto(m, parts, k, t, next).0.contains_key(p)
                && ensure_upto(m, parts, k, t, next).0[p] == m[p],
        forall|j: int|
            1 <= j <= k ==> #[trigger] ensure_upto(m, parts, k, t, next).0.contains_key(
                parts.subrange(0, j),
            ),
    decreases k,
{
    if k > 0 {
        law_ensure_keeps_and_covers(m, parts, (k - 1) as nat, t, next);
        let prev = ensure_upto(m, parts, (k - 1) as nat, t, next);
        let cur = ensure_upto(m, parts, k, t, next);
        assert forall|j: int| 1 <= j <= k implies #[trigger] cur.0.contains_key(
            parts.subrange(0, j),
        ) by {
            if j < k {
                assert(prev.0.contains_key(parts.subrange(0, j)));
            }
        }
    }
}

/// Ensuring a path a second time changes neither the tree nor the handle
/// counter.
pub proof fn law_ensure_idempotent(
    m: Map<Seq<Seq<char>>, NodeView>,
    parts: Seq<Seq<char>>,
    t: NodeType,
    next: u64,
)
    ensures
        ({
            let once = ensure_upto(m, parts, parts.len(), t, next);
            ensure_upto(once.0, parts, parts.len(), t, once.1) == once
        }),
{
    let once = ensure_upto(m, parts, parts.len(), t, next);
    law_ensure_keeps_and_covers(m, parts, parts.len(), t, next);
    lemma_ensure_on_covered(once.0, parts, parts.len(), t, once.1);
}

proof fn lemma_ensure_on_covered(
    m: Map<Seq<Seq<char>>, NodeView>,
    parts: Seq<Seq<char>>,
    k: nat,
    t: NodeType,
    next: u64,
)
    requires
        k <= parts.len(),
        forall|j: int| 1 <= j <= parts.len() ==> #[trigger] m.contains_key(parts.subrange(0, j)),
    ensures
        ensure_upto(m, parts, k, t, next) == (m, next),
    decreases k,
{
    if k > 0 {
        lemma_ensure_on_covered(m, parts, (k - 1) as nat, t, next);
        assert(m.contains_key(parts.subrange(0, k as int)));
    }
}

/// Building from a list of entries keeps every node already in the tree,
/// unchanged, and leaves a node at every path of every entry and at each
/// of the directories above it.
pub proof fn law_build_covers_entries(
    m: Map<Seq<Seq<char>>, NodeView>,
    entries: Seq<(Seq<char>, NodeType)>,
    next: u64,
)
    ensures
        forall|p: Seq<Seq<char>>| #[trigger]
            m.contains_key(p) ==> build_spec(m, entries, next).0.contains_key(p) && build_spec(
                m,
                entries,
                next,
            ).0[p] == m[p],
        forall|i: int, j: int|
            0 <= i < entries.len() && 1 <= j <= fields(entries[i].0, Some('/')).len()
                ==> #[trigger] build_spec(m, entries, next).0.contains_key(
                fields(entries[i].0, Some('/')).subrange(0, j),
            ),
    decreases entries.len(),
{
    if entries.len() > 0 {
        let d = entries.drop_last();
        law_build_covers_entries(m, d, next);
        let prev = build_spec(m, d, next);
        let e = entries.last();
        let parts = fields(e.0, Some('/'));
        law_ensure_keeps_and_covers(prev.0, parts, parts.len(), e.1, prev.1);
        let cur = build_spec(m, entries, next);
        assert forall|i: int, j: int|
            0 <= i < entries.len() && 1 <= j <= fields(entries[i].0, Some('/')).len()
                implies #[trigger] cur.0.contains_key(fields(entries[i].0, Some('/')).subrange(0, j)) by {
            if i < d.len() {
                assert(d[i] == entries[i]);
                assert(prev.0.contains_key(fields(d[i].0, Some('/')).subrange(0, j)));
            }
        }
    }
}

/// Building a second time from the same entries changes nothing: the
/// tree, the handle counter and, since no file is created, the stored
/// contents stay as the first build left them.
pub proof fn law_build_twice_changes_nothing(
    m: Map<Seq<Seq<char>>, NodeView>,
    entries: Seq<(Seq<char>, NodeType)>,
    next: u64,
)
    ensures
        ({
            let once = build_spec(m, entries, next);
            &&& build_spec(once.0, entries, once.1) == once
            &&& created_files(once.0, entries, once.1) == Set::<u64>::empty()
            &&& forall|f: Map<u64, Seq<u8>>|
                #[trigger] with_empty(f, created_files(once.0, entries, once.1)) == f
        }),
{
    let once = build_spec(m, entries, next);
    law_build_covers_entries(m, entries, next);
    lemma_build_on_covered(once.0, entries, once.1);
    assert forall|f: Map<u64, Seq<u8>>|
        #[trigger] with_empty(f, created_files(once.0, entries, once.1)) == f by {
        assert(with_empty(f, Set::<u64>::empty()) =~= f);
    }
}

/// Building over a tree that already holds every path of the entries, and
/// the directories above them, changes nothing and creates no file.
proof fn lemma_build_on_covered(
    t: Map<Seq<Seq<char>>, NodeView>,
    entries: Seq<(Seq<char>, NodeType)>,
    next: u64,
)
    requires
        forall|i: int, j: int|
            0 <= i < entries.len() && 1 <= j <= fields(entries[i].0, Some('/')).len()
                ==> #[trigger] t.contains_key(fields(entries[i].0, Some('/')).subrange(0, j)),
    ensures
        build_spec(t, entries, next) == (t, next),
        created_files(t, entries, next) == Set::<u64>::empty(),
    decreases entries.len(),
{
    if entries.len() > 0 {
        let d = entries.drop_last();
        assert forall|i: int, j: int|
            0 <= i < d.len() && 1 <= j <= fields(d[i].0, Some('/')).len() implies #[trigger] t.contains_key(
            fields(d[i].0, Some('/')).subrange(0, j),
        ) by {
            assert(d[i] == entries[i]);
            assert(t.contains_key(fields(entries[i].0, Some('/')).subrange(0, j)));
        }
        lemma_build_on_covered(t, d, next);
        let e = entries.last();
        let parts = fields(e.0, Some('/'));
        assert forall|j: int| 1 <= j <= parts.len() implies #[trigger] t.contains_key(
            parts.subrange(0, j),
        ) by {
            assert(t.contains_key(fields(entries[entries.len() - 1].0, Some('/')).subrange(0, j)));
        }
        lemma_ensure_on_covered(t, parts, parts.len(), e.1, next);
        if parts.len() > 0 {
            assert(parts.subrange(0, parts.len() as int) =~= parts);
            assert(t.contains_key(parts.subrange(0, parts.len() as int)));
        }
    }
}

/// A call on a storage: the handle, whether it writes (else it appends),
/// and the bytes.
pub type StorageCall = (u64, bool, Seq<u8>);

/// What a read of handle `h` gives after `calls`, starting from `start`:
/// a write to `h` puts its bytes in place, an append to `h` adds its bytes
/// after, and a call on another handle changes nothing.
pub open spec fn read_after(h: u64, calls: Seq<StorageCall>, start: Seq<u8>) -> Seq<u8>
    decreases calls.len(),
{
    if calls.len() == 0 {
        start
    } else {
        let prev = read_after(h, calls.drop_last(), start);
        let c = calls.last();
        if c.0 != h {
            prev
        } else if c.1 {
            c.2
        } else {
            prev + c.2
        }
    }
}

/// `after` is what the call `c` made of `before`, as the contracts of
/// `write` and `append` say.
pub open spec fn call_made(before: MemStorage, after: MemStorage, c: StorageCall) -> bool {
    &&& after.files@.dom() == before.files@.dom().insert(c.0)
    &&& forall|k: u64|
        k != c.0 && #[trigger] before.files@.contains_key(k) ==> after.files@[k]
            == before.files@[k]
    &&& after.files@[c.0]@ == (if c.1 {
        c.2
    } else {
        before.bytes_of(c.0) + c.2
    })
}

/// Handles drawn one after another from one allocator never repeat: with
/// `counters[i]` the allocator's counter before the `i`-th draw and
/// `handles[i]` what that draw returned, as `new_handle` says, the draws
/// count up by one from the first counter, each larger than the one
/// before, as long as the counter does not wrap.
pub proof fn law_handles_never_repeat(counters: Seq<u64>, handles: Seq<u64>)
    requires
        counters.len() == handles.len() + 1,
        forall|i: int|
            0 <= i < handles.len() ==> #[trigger] handles[i] == counters[i] && counters[i + 1]
                == next_handle(counters[i]),
        counters[0] + handles.len() <= u64::MAX,
    ensures
        forall|i: int| 0 <= i < handles.len() ==> #[trigger] handles[i] == counters[0] + i,
        forall|i: int, j: int|
            0 <= i < j < handles.len() ==> #[trigger] handles[i] < #[trigger] handles[j],
    decreases handles.len(),
{
    if handles.len() > 0 {
        let n = handles.len() - 1;
        law_handles_never_repeat(counters.drop_last(), handles.drop_last());
        assert forall|i: int| 0 <= i < handles.len() implies #[trigger] handles[i] == counters[0] + i by {
            if i < n {
                assert(handles.drop_last()[i] == handles[i]);
            } else if n > 0 {
                assert(handles.drop_last()[n - 1] == handles[n - 1]);
                assert(counters[n] == next_handle(counters[n - 1]));
            }
        }
    }
}

/// Reading a handle gives what the last write to it stored followed by
/// what each later append to it added, in order, whatever calls on other
/// handles came in between (a handle never written reads as empty, then
/// its appends). `states[i + 1]` is what `calls[i]` made of `states[i]`.
pub proof fn law_read_after_calls(states: Seq<MemStorage>, calls: Seq<StorageCall>, h: u64)
    requires
        states.len() == calls.len() + 1,
        forall|i: int| 0 <= i < calls.len() ==> #[trigger] call_made(states[i], states[i + 1], calls[i]),
    ensures
        states.last().bytes_of(h) == read_after(h, calls, states[0].bytes_of(h)),
    decreases calls.len(),
{
    if calls.len() > 0 {
        let k = calls.len() - 1;
        let s2 = states.drop_last();
        let c2 = calls.drop_last();
        assert forall|i: int| 0 <= i < c2.len() implies #[trigger] call_made(s2[i], s2[i + 1], c2[i]) by {
            assert(s2[i] == states[i]);
            assert(s2[i + 1] == states[i + 1]);
            assert(c2[i] == calls[i]);
            assert(call_made(states[i], states[i + 1], calls[i]));
        }
        law_read_after_calls(s2, c2, h);
        assert(call_made(states[k], states[k + 1], calls[k]));
        assert(s2.last() == states[k]);
        assert(states.last() == states[k + 1]);
        if calls[k].0 != h {
            if states[k].files@.contains_key(h) {
                assert(states[k + 1].files@.contains_key(h));
            } else {
                assert(!states[k + 1].files@.contains_key(h));
            }
        } else {
            assert(states[k + 1].files@.contains_key(h));
        }
    }
}

/// A read through a path gives back what the last write through that path
/// wrote, as long as the tree is unchanged in between.
pub proof fn law_read_after_write(
    before: Engine<MemStorage>,
    after: Engine<MemStorage>,
    path: Seq<char>,
    data: Vec<u8>,
)
    requires
        before.wf(),
        after.nodes@ == before.nodes@,
        before@.contains_key(walk_target(path)),
        after.storage.files@ == before.storage.files@.insert(
            before@[walk_target(path)].handle,
            data,
        ),
    ensures
        after.wf(),
        after.walk_result(path) == before.walk_result(path),
        after.walk_result(path) matches Ok(h) && after.storage.bytes_of(h.0) == data@,
{
    lemma_same_tree(before, after);
}

/// Two engines with the same nodes hold the same tree.
pub proof fn lemma_same_tree<S, T>(a: Engine<S>, b: Engine<T>)
    requires
        a.wf(),
        a.nodes@ == b.nodes@,
    ensures
        b.wf(),
        a@ == b@,
{
    assert forall|i: int| #[trigger] a.node_path(i) == b.node_path(i) by {}
    assert forall|i: int| #[trigger] a.parent_ok(i) == b.parent_ok(i) by {
        assert(a.node_path(i) == b.node_path(i));
        if a.nodes@[i].parent is Some {
            assert(a.node_path(a.nodes@[i].parent.unwrap() as int) == b.node_path(
                a.nodes@[i].parent.unwrap() as int,
            ));
        }
    }
    assert forall|i: int, c: usize| #[trigger] a.child_ok(i, c) == b.child_ok(i, c) by {}
    assert forall|p: Seq<Seq<char>>| #[trigger] a.has_path(p) == b.has_path(p) by {
        if a.has_path(p) {
            let i = choose|i: int| 0 <= i < a.nodes@.len() && #[trigger] a.node_path(i) == p;
            assert(b.node_path(i) == p);
        }
        if b.has_path(p) {
            let i = choose|i: int| 0 <= i < b.nodes@.len() && #[trigger] b.node_path(i) == p;
            assert(a.node_path(i) == p);
        }
    }
    assert forall|i: int| #[trigger] a.node_view(i) == b.node_view(i) by {}
    assert forall|i: int, j: int|
        0 <= i < b.nodes@.len() && 0 <= j < b.nodes@.len() && #[trigger] b.node_path(i)
            == #[trigger] b.node_path(j) implies i == j by {
        assert(a.node_path(i) == a.node_path(j));
    }
    assert forall|i: int| 1 <= i < b.nodes@.len() implies #[trigger] b.parent_ok(i) by {
        assert(a.parent_ok(i));
    }
    assert forall|i: int, k: int|
        0 <= i < b.nodes@.len() && 0 <= k < b.nodes@[i].children@.len() implies b.child_ok(
        i,
        #[trigger] b.nodes@[i].children@[k],
    ) by {
        assert(a.child_ok(i, a.nodes@[i].children@[k]));
    }
    assert(b.wf());
    assert forall|p: Seq<Seq<char>>| #[trigger] a@.contains_key(p) implies a@[p] == b@[p] by {
        let i = a.index_of(p);
        let j = b.index_of(p);
        assert(b.has_path(p));
        assert(a.node_path(i) == p);
        assert(b.node_path(j) == p);
        assert(a.node_path(j) == p);
    }
    assert(a@ =~= b@);
}

/// A path of non-empty names without `/` reads back as itself: parsing the
/// text that `to_string` gives yields the same names.
pub proof fn law_path_text_round_trip(p: FSPath)
    requires
        p@.len() > 0,
        forall|i: int| 0 <= i < p@.len() ==> #[trigger] p@[i].len() > 0 && !p@[i].contains('/'),
    ensures
        pieces(trim(join(p@, "/"@), '/'), '/') == p@,
{
    reveal_strlit("/");
    assert("/"@ =~= seq!['/']);
    let segs = p@;
    lemma_join_ends(segs);
    let s = join(segs, seq!['/']);
    let first = segs[0];
    let last = segs.last();
    assert(first[0] != '/') by {
        assert(!first.contains('/'));
        assert(first.len() > 0);
    }
    assert(last.last() != '/') by {
        assert(segs[segs.len() - 1] == last);
        assert(!last.contains('/'));
        assert(last[last.len() - 1] == last.last());
    }
    assert(trim_start(s, '/') == s);
    assert(trim_end(s, '/') == s);
    lemma_pieces_of_join(segs);
}

/// The joined text starts with the first name's first character and ends
/// with the last name's last character.
proof fn lemma_join_ends(segs: Seq<Seq<char>>)
    requires
        segs.len() > 0,
        forall|i: int| 0 <= i < segs.len() ==> #[trigger] segs[i].len() > 0,
    ensures
        join(segs, seq!['/']).len() > 0,
        join(segs, seq!['/'])[0] == segs[0][0],
        join(segs, seq!['/']).last() == segs.last().last(),
    decreases segs.len(),
{
    if segs.len() > 1 {
        let d = segs.drop_last();
        assert(d[0] == segs[0]);
        assert forall|i: int| 0 <= i < d.len() implies #[trigger] d[i].len() > 0 by {
            assert(d[i] == segs[i]);
        }
        lemma_join_ends(d);
    }
}

/// Splitting the text of names joined by `/` gives the names back.
proof fn lemma_pieces_of_join(segs: Seq<Seq<char>>)
    requires
        segs.len() > 0,
        forall|i: int| 0 <= i < segs.len() ==> !(#[trigger] segs[i]).contains('/'),
    ensures
        pieces(join(segs, seq!['/']), '/') == segs,
    decreases segs.len(),
{
    let last = segs.last();
    if segs.len() == 1 {
        lemma_scan_plain(Seq::empty(), last);
        assert(Seq::<char>::empty() + last =~= last);
        assert(pieces(last, '/') =~= segs);
    } else {
        let d = segs.drop_last();
        assert forall|i: int| 0 <= i < d.len() implies !(#[trigger] d[i]).contains('/') by {
            assert(d[i] == segs[i]);
        }
        lemma_pieces_of_join(d);
        let j = join(d, seq!['/']);
        let x = j + seq!['/'];
        assert(x.drop_last() =~= j);
        lemma_scan_plain(x, last);
        assert(join(segs, seq!['/']) == x + last);
        assert(pieces(join(segs, seq!['/']), '/') =~= pieces(j, '/').push(last));
        assert(pieces(j, '/').push(last) =~= segs);
    }
}

/// Scanning past text without separators only extends the field being
/// read.
proof fn lemma_scan_plain(x: Seq<char>, y: Seq<char>)
    requires
        !y.contains('/'),
    ensures
        scan_pieces(x + y, '/') == (scan_pieces(x, '/').0, scan_pieces(x, '/').1 + y),
    decreases y.len(),
{
    if y.len() == 0 {
        assert(x + y =~= x);
        assert(scan_pieces(x, '/').1 + y =~= scan_pieces(x, '/').1);
    } else {
        let yd = y.drop_last();
        assert(!yd.contains('/')) by {
            if yd.contains('/') {
                let k = choose|k: int| 0 <= k < yd.len() && yd[k] == '/';
                assert(y[k] == '/');
            }
        }
        lemma_scan_plain(x, yd);
        assert((x + y).drop_last() =~= x + yd);
        assert((x + y).last() == y.last());
        assert(y.last() != '/') by {
            assert(y[y.len() - 1] == y.last());
        }
        assert(scan_pieces(x, '/').1 + yd.push(y.last()) =~= scan_pieces(x, '/').1 + y);
        assert(yd.push(y.last()) =~= y);
    }
}

} // verus!
