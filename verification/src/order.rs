//! Ordering: the lexicographic order of strings, the order of (number,
//! name) keys, and the stable sorting of positions by key.
use vstd::prelude::*;
use vstd::string::*;

verus! {

/// `a < b` for strings: lexicographic by code point, a proper prefix
/// first (the order of `str`'s `Ord`, which compares UTF-8 bytes).
pub open spec fn seq_lt(a: Seq<char>, b: Seq<char>) -> bool
    decreases a.len(),
{
    if a.len() == 0 {
        b.len() > 0
    } else if b.len() == 0 {
        false
    } else if a[0] != b[0] {
        a[0] < b[0]
    } else {
        seq_lt(a.drop_first(), b.drop_first())
    }
}

/// The string order is a strict total order: irreflexive, transitive, and
/// any two different strings are ordered one way.
pub proof fn lemma_seq_lt_total(a: Seq<char>, b: Seq<char>)
    ensures
        !seq_lt(a, a),
        a != b ==> (seq_lt(a, b) || seq_lt(b, a)),
        !(seq_lt(a, b) && seq_lt(b, a)),
    decreases a.len(),
{
    if a.len() > 0 {
        lemma_seq_lt_total(a.drop_first(), a.drop_first());
        if b.len() > 0 {
            lemma_seq_lt_total(a.drop_first(), b.drop_first());
            if a[0] == b[0] && a.drop_first() == b.drop_first() {
                assert(a =~= seq![a[0]] + a.drop_first());
                assert(b =~= seq![b[0]] + b.drop_first());
            }
        }
    } else {
        if b.len() == 0 {
            assert(a =~= b);
        }
    }
}

pub proof fn lemma_seq_lt_trans(a: Seq<char>, b: Seq<char>, c: Seq<char>)
    requires
        seq_lt(a, b),
        seq_lt(b, c),
    ensures
        seq_lt(a, c),
    decreases a.len(),
{
    if a.len() > 0 && b.len() > 0 && c.len() > 0 {
        if a[0] == b[0] && b[0] == c[0] {
            lemma_seq_lt_trans(a.drop_first(), b.drop_first(), c.drop_first());
        }
    }
}

/// The key order: by number, then by name.
pub open spec fn key_lt(a: (u32, Seq<char>), b: (u32, Seq<char>)) -> bool {
    a.0 < b.0 || (a.0 == b.0 && seq_lt(a.1, b.1))
}

pub proof fn lemma_key_lt(a: (u32, Seq<char>), b: (u32, Seq<char>), c: (u32, Seq<char>))
    ensures
        !key_lt(a, a),
        a != b ==> (key_lt(a, b) || key_lt(b, a)),
        !(key_lt(a, b) && key_lt(b, a)),
        key_lt(a, b) && key_lt(b, c) ==> key_lt(a, c),
{
    lemma_seq_lt_total(a.1, b.1);
    if key_lt(a, b) && key_lt(b, c) && a.0 == b.0 && b.0 == c.0 {
        lemma_seq_lt_trans(a.1, b.1, c.1);
    }
}

/// Whether the item at `i` goes strictly before the one at `j`: by
/// ascending key, or by descending key when `desc`.
pub open spec fn goes_before(keys: Seq<(u32, Seq<char>)>, desc: bool, i: int, j: int) -> bool {
    if desc {
        key_lt(keys[j], keys[i])
    } else {
        key_lt(keys[i], keys[j])
    }
}

/// `p` is the stable sort of the positions of `keys`: each position once,
/// no position before one that goes strictly before it, and positions
/// with equal keys in their first order.
pub open spec fn sorts(p: Seq<usize>, keys: Seq<(u32, Seq<char>)>, desc: bool) -> bool {
    &&& p.len() == keys.len()
    &&& forall|i: int| 0 <= i < p.len() ==> (#[trigger] p[i]) < keys.len()
    &&& forall|i: int, j: int| 0 <= i < j < p.len() ==> #[trigger] p[i] != #[trigger] p[j]
    &&& forall|i: int, j: int|
        0 <= i < j < p.len() ==> !goes_before(keys, desc, #[trigger] p[j] as int, #[trigger] p[i] as int)
    &&& forall|i: int, j: int|
        0 <= i < j < p.len() && !goes_before(keys, desc, #[trigger] p[i] as int, #[trigger] p[j] as int)
            ==> p[i] < p[j]
}

/// `a < b` for strings.
pub fn str_lt(a: &str, b: &str) -> (r: bool)
    ensures
        r == seq_lt(a@, b@),
{
    let n = a.unicode_len();
    let m = b.unicode_len();
    let mut i: usize = 0;
    proof {
        assert(a@.subrange(0, n as int) =~= a@);
        assert(b@.subrange(0, m as int) =~= b@);
    }
    while i < n && i < m
        invariant
            n == a@.len(),
            m == b@.len(),
            i <= n,
            i <= m,
            seq_lt(a@, b@) == seq_lt(a@.subrange(i as int, n as int), b@.subrange(i as int, m as int)),
        decreases n - i,
    {
        let x = a.get_char(i);
        let y = b.get_char(i);
        proof {
            let s = a@.subrange(i as int, n as int);
            let t = b@.subrange(i as int, m as int);
            assert(s.drop_first() =~= a@.subrange(i + 1, n as int));
            assert(t.drop_first() =~= b@.subrange(i + 1, m as int));
            assert(s[0] == x);
            assert(t[0] == y);
        }
        if x != y {
            return x < y;
        }
        i = i + 1;
    }
    i == n && i < m
}

/// `a < b` for keys.
pub fn key_less(a: &(u32, String), b: &(u32, String)) -> (r: bool)
    ensures
        r == key_lt((a.0, a.1@), (b.0, b.1@)),
{
    a.0 < b.0 || (a.0 == b.0 && str_lt(a.1.as_str(), b.1.as_str()))
}

/// The keys as values.
pub open spec fn key_views(keys: Seq<(u32, String)>) -> Seq<(u32, Seq<char>)> {
    keys.map_values(|k: (u32, String)| (k.0, k.1@))
}

/// Whether the item at `i` goes strictly before the one at `j`.
fn before(keys: &Vec<(u32, String)>, desc: bool, i: usize, j: usize) -> (r: bool)
    requires
        i < keys@.len(),
        j < keys@.len(),
    ensures
        r == goes_before(key_views(keys@), desc, i as int, j as int),
{
    if desc {
        key_less(&keys[j], &keys[i])
    } else {
        key_less(&keys[i], &keys[j])
    }
}

/// The stable sort of the positions of `keys`, ascending, or descending
/// when `desc`.
pub fn stable_order(keys: &Vec<(u32, String)>, desc: bool) -> (p: Vec<usize>)
    ensures
        sorts(p@, key_views(keys@), desc),
{
    let ghost kv = key_views(keys@);
    let n = keys.len();
    let mut out: Vec<usize> = Vec::new();
    let mut k: usize = 0;
    while k < n
        invariant
            n == keys@.len(),
            kv == key_views(keys@),
            k <= n,
            out@.len() == k,
            forall|i: int| 0 <= i < out@.len() ==> (#[trigger] out@[i]) < k,
            forall|i: int, j: int| 0 <= i < j < out@.len() ==> #[trigger] out@[i] != #[trigger] out@[j],
            forall|i: int, j: int|
                0 <= i < j < out@.len() ==> !goes_before(kv, desc, #[trigger] out@[j] as int, #[trigger] out@[i] as int),
            forall|i: int, j: int|
                0 <= i < j < out@.len() && !goes_before(kv, desc, #[trigger] out@[i] as int, #[trigger] out@[j] as int)
                    ==> out@[i] < out@[j],
        decreases n - k,
    {
        let mut j: usize = out.len();
        while j > 0 && before(keys, desc, k, out[j - 1])
            invariant
                n == keys@.len(),
                kv == key_views(keys@),
                k < n,
                j <= out@.len(),
                out@.len() == k,
                forall|i: int| 0 <= i < out@.len() ==> (#[trigger] out@[i]) < k,
                forall|i: int| j <= i < out@.len() ==> goes_before(kv, desc, k as int, #[trigger] out@[i] as int),
            decreases j,
        {
            j = j - 1;
        }
        proof {
            assert forall|i: int| 0 <= i < j implies !goes_before(kv, desc, k as int, #[trigger] out@[i] as int) by {
                let x = out@[j - 1] as int;
                let y = out@[i] as int;
                lemma_key_lt(kv[x], kv[y], kv[k as int]);
                lemma_key_lt(kv[y], kv[x], kv[k as int]);
                lemma_key_lt(kv[k as int], kv[x], kv[y]);
                lemma_key_lt(kv[y], kv[k as int], kv[x]);
                lemma_key_lt(kv[x], kv[k as int], kv[y]);
                if i < j - 1 {
                    assert(!goes_before(kv, desc, x, y));
                }
            }
        }
        let ghost old_out = out@;
        out.insert(j, k);
        proof {
            assert forall|a: int, b: int| 0 <= a < b < out@.len() implies !goes_before(
                kv,
                desc,
                #[trigger] out@[b] as int,
                #[trigger] out@[a] as int,
            ) by {
                if a < j && b < j {
                    assert(out@[a] == old_out[a] && out@[b] == old_out[b]);
                } else if a < j && b == j {
                    assert(out@[a] == old_out[a]);
                    let x = old_out[a] as int;
                    lemma_key_lt(kv[x], kv[k as int], kv[x]);
                } else if a < j && b > j {
                    assert(out@[a] == old_out[a] && out@[b] == old_out[b - 1]);
                } else if a == j {
                    assert(out@[b] == old_out[b - 1]);
                    let y = old_out[b - 1] as int;
                    assert(goes_before(kv, desc, k as int, y));
                    lemma_key_lt(kv[k as int], kv[y], kv[k as int]);
                } else {
                    assert(out@[a] == old_out[a - 1] && out@[b] == old_out[b - 1]);
                }
            }
            assert forall|a: int, b: int|
                0 <= a < b < out@.len() && !goes_before(kv, desc, #[trigger] out@[a] as int, #[trigger] out@[b] as int)
                    implies out@[a] < out@[b] by {
                if a < j && b < j {
                    assert(out@[a] == old_out[a] && out@[b] == old_out[b]);
                } else if a < j && b == j {
                    assert(out@[a] == old_out[a]);
                } else if a < j && b > j {
                    assert(out@[a] == old_out[a] && out@[b] == old_out[b - 1]);
                } else if a == j {
                    assert(out@[b] == old_out[b - 1]);
                } else {
                    assert(out@[a] == old_out[a - 1] && out@[b] == old_out[b - 1]);
                }
            }
            assert forall|a: int, b: int| 0 <= a < b < out@.len() implies #[trigger] out@[a] != #[trigger] out@[b] by {
                if a < j && b < j {
                    assert(out@[a] == old_out[a] && out@[b] == old_out[b]);
                } else if a < j && b == j {
                    assert(out@[a] == old_out[a]);
                } else if a < j && b > j {
                    assert(out@[a] == old_out[a] && out@[b] == old_out[b - 1]);
                } else if a == j {
                    assert(out@[b] == old_out[b - 1]);
                } else {
                    assert(out@[a] == old_out[a - 1] && out@[b] == old_out[b - 1]);
                }
            }
            assert forall|a: int| 0 <= a < out@.len() implies (#[trigger] out@[a]) < k + 1 by {
                if a < j {
                    assert(out@[a] == old_out[a]);
                } else if a > j {
                    assert(out@[a] == old_out[a - 1]);
                }
            }
        }
        k = k + 1;
    }
    out
}

} // verus!
