//! What the registry views show: the colours of headings and messages,
//! and the rows, lines and groups that the renderers print.
use crate::command::{meta_spec, opt_static, BuildAllArgs, BuildTarget, Command, CommandMeta, CommandView, ListFilter, ViewArgs};
use crate::order::{sorts, stable_order, key_views};
use crate::registry::{FileMeta, FileStack, Registry};
use crate::text::{decimal, decimal_string, strs};
use colored::Colorize;
use vstd::prelude::*;
use vstd::string::*;

verus! {

/// The escape that ends every style.
pub open spec fn ansi_reset() -> Seq<char> {
    "\x1b[0m"@
}

/// `s` with the escape `style` put again after each reset escape in it, so
/// that a style ended inside the text starts over.
pub open spec fn restyled(s: Seq<char>, style: Seq<char>) -> Seq<char>
    decreases s.len(),
{
    if s.len() == 0 {
        s
    } else if s.len() >= 4 && s.subrange(0, 4) == ansi_reset() {
        ansi_reset() + style + restyled(s.subrange(4, s.len() as int), style)
    } else {
        seq![s[0]] + restyled(s.subrange(1, s.len() as int), style)
    }
}

/// `r` is how `text` in the style with codes `codes` shows: the text alone
/// when colouring is off; else `ESC[`, the codes, `m`, the text restyled
/// after each reset in it, then the reset.
pub open spec fn shown_styled(codes: Seq<char>, text: Seq<char>, r: Seq<char>) -> bool {
    let style = "\x1b["@ + codes + "m"@;
    r == text || r == style + restyled(text, style) + ansi_reset()
}

/// `Colorize::bold` then `Colorize::cyan` of the colored crate on `text`,
/// displayed. Whether colouring is on depends on the environment and on
/// whether standard output is a terminal, so the contract says only that
/// the result is one of the two ways `ColoredString`'s `Display` writes it
/// (lib.rs `fmt`, `compute_style`, `escape_inner_reset_sequences`): the
/// text alone, or `ESC[1;36m`, the text restyled, `ESC[0m`.
#[verifier::external_body]
fn bold_cyan(text: &str) -> (r: String)
    ensures
        shown_styled("1;36"@, text@, r@),
{
    format!("{}", text.bold().cyan())
}

/// `Colorize::red` of the colored crate, displayed: the text alone, or
/// `ESC[31m`, the text restyled, `ESC[0m`.
#[verifier::external_body]
fn red(text: &str) -> (r: String)
    ensures
        shown_styled("31"@, text@, r@),
{
    format!("{}", text.red())
}

/// `Colorize::green` of the colored crate, displayed: the text alone, or
/// `ESC[32m`, the text restyled, `ESC[0m`.
#[verifier::external_body]
fn green(text: &str) -> (r: String)
    ensures
        shown_styled("32"@, text@, r@),
{
    format!("{}", text.green())
}

/// `Colorize::yellow` of the colored crate, displayed: the text alone, or
/// `ESC[33m`, the text restyled, `ESC[0m`.
#[verifier::external_body]
fn yellow(text: &str) -> (r: String)
    ensures
        shown_styled("33"@, text@, r@),
{
    format!("{}", text.yellow())
}

/// The colours of the registry views.
pub struct Theme;

impl Theme {
    /// A heading: bold and cyan.
    pub fn header(text: &str) -> (r: String)
        ensures
            shown_styled("1;36"@, text@, r@),
    {
        bold_cyan(text)
    }

    /// An error message: red.
    pub fn error(text: &str) -> (r: String)
        ensures
            shown_styled("31"@, text@, r@),
    {
        red(text)
    }

    /// A success message: green.
    pub fn success(text: &str) -> (r: String)
        ensures
            shown_styled("32"@, text@, r@),
    {
        green(text)
    }

    /// A highlighted word: yellow.
    pub fn highlight(text: &str) -> (r: String)
        ensures
            shown_styled("33"@, text@, r@),
    {
        yellow(text)
    }
}

/// Draws the registry on a terminal: the rows, groups and histories it
/// draws are those that the functions of this module compute.
pub struct RegistryRenderer;

/// A row of the registry listing.
pub struct FileView {
    pub namespace: String,
    pub index: usize,
    pub filename: String,
    pub active: String,
    pub name: String,
    pub utter: String,
    pub version: String,
    pub tag: String,
    pub ext: String,
    pub capabilities: String,
}

/// The text of an optional string: the string, or nothing.
pub open spec fn or_empty(o: Option<String>) -> Seq<char> {
    match o {
        Some(s) => s@,
        None => Seq::empty(),
    }
}

/// The strings of `v` one after another.
pub open spec fn concat(v: Seq<Seq<char>>) -> Seq<char>
    decreases v.len(),
{
    if v.len() == 0 {
        Seq::empty()
    } else {
        concat(v.drop_last()) + v.last()
    }
}

/// `true` or `false`, as text.
pub open spec fn bool_text(b: bool) -> Seq<char> {
    if b {
        "true"@
    } else {
        "false"@
    }
}

/// `r` is the row numbered `index` for file `f`, current or not.
pub open spec fn row_is(r: FileView, f: FileMeta, active: bool, index: nat) -> bool {
    &&& r.index == index
    &&& r.namespace@ == f.namespace@
    &&& r.filename@ == f.filename@
    &&& r.active@ == bool_text(active)
    &&& r.name@ == f.name@
    &&& r.utter@ == or_empty(f.utter)
    &&& r.version@ == decimal(f.version as nat)
    &&& r.tag@ == or_empty(f.tag)
    &&& r.ext@ == f.ext@
    &&& r.capabilities@ == concat(strs(f.capabilities@))
}

/// Whether a listing with `filter` shows a file that is current or not.
pub open spec fn shown(filter: ListFilter, active: bool) -> bool {
    match filter {
        ListFilter::Active => active,
        ListFilter::Archived => !active,
        ListFilter::All => true,
    }
}

/// Whether a listing with `filter` shows a file that is current or not.
pub fn shows(filter: ListFilter, active: bool) -> (r: bool)
    ensures
        r == shown(filter, active),
{
    match filter {
        ListFilter::Active => active,
        ListFilter::Archived => !active,
        ListFilter::All => true,
    }
}

/// The files of `files` that the listing shows, each with whether it has
/// the id `current`.
pub open spec fn shown_files(files: Seq<FileMeta>, current: u128, filter: ListFilter) -> Seq<
    (FileMeta, bool),
>
    decreases files.len(),
{
    if files.len() == 0 {
        Seq::empty()
    } else {
        let prev = shown_files(files.drop_last(), current, filter);
        let f = files.last();
        let active = f.id == current;
        if shown(filter, active) {
            prev.push((f, active))
        } else {
            prev
        }
    }
}

/// The keys that order stacks: the version and name of the current file.
pub open spec fn stack_keys(stacks: Seq<FileStack>) -> Seq<(u32, Seq<char>)> {
    stacks.map_values(|s: FileStack| (s.active_file.version, s.active_file.name@))
}

/// The keys that order a stack's older files: their versions.
pub open spec fn version_keys(files: Seq<FileMeta>) -> Seq<(u32, Seq<char>)> {
    files.map_values(|f: FileMeta| (f.version, Seq::<char>::empty()))
}

/// The files of a stack in listing order: its older files in the order
/// `q`, then its current file.
pub open spec fn stack_files(st: FileStack, q: Seq<usize>) -> Seq<FileMeta> {
    q.map_values(|i: usize| st.archive_files@[i as int]).push(st.active_file)
}

/// The files a listing shows, stack by stack in the order `p`, each stack
/// in its order of `qs`.
pub open spec fn listed(stacks: Seq<FileStack>, p: Seq<usize>, qs: Seq<Seq<usize>>, filter: ListFilter) -> Seq<
    (FileMeta, bool),
>
    decreases p.len(),
{
    if p.len() == 0 {
        Seq::empty()
    } else {
        let st = stacks[p.last() as int];
        listed(stacks, p.drop_last(), qs, filter) + shown_files(
            stack_files(st, qs[p.last() as int]),
            st.active_file.id,
            filter,
        )
    }
}

/// `p` orders the stacks by descending version and name of their current
/// files, and each `qs[s]` the older files of stack `s` by ascending
/// version, both stably.
pub open spec fn listing_orders(stacks: Seq<FileStack>, p: Seq<usize>, qs: Seq<Seq<usize>>) -> bool {
    &&& sorts(p, stack_keys(stacks), true)
    &&& qs.len() == stacks.len()
    &&& forall|s: int|
        0 <= s < stacks.len() ==> sorts(#[trigger] qs[s], version_keys(stacks[s].archive_files@), false)
}

/// `rows` are the rows of `files`, numbered from 1.
pub open spec fn rows_of(rows: Seq<FileView>, files: Seq<(FileMeta, bool)>) -> bool {
    &&& rows.len() == files.len()
    &&& forall|i: int| 0 <= i < rows.len() ==> row_is(#[trigger] rows[i], files[i].0, files[i].1, (i + 1) as nat)
}

/// The concatenation of `v`.
fn concat_strings(v: &Vec<String>) -> (r: String)
    ensures
        r@ == concat(strs(v@)),
{
    let mut out = String::new();
    let n = v.len();
    let mut i: usize = 0;
    while i < n
        invariant
            n == v@.len(),
            i <= n,
            out@ == concat(strs(v@).subrange(0, i as int)),
        decreases n - i,
    {
        proof {
            assert(strs(v@).subrange(0, i + 1).drop_last() =~= strs(v@).subrange(0, i as int));
        }
        out.append(v[i].as_str());
        i = i + 1;
    }
    proof {
        assert(strs(v@).subrange(0, n as int) =~= strs(v@));
    }
    out
}

fn text_or_empty(o: &Option<String>) -> (r: String)
    ensures
        r@ == or_empty(*o),
{
    match o {
        Some(s) => s.clone(),
        None => String::new(),
    }
}

/// The row numbered `index` for `f`.
fn make_row(f: &FileMeta, active: bool, index: usize) -> (r: FileView)
    ensures
        row_is(r, *f, active, index as nat),
{
    let active_text = if active {
        String::from_str("true")
    } else {
        String::from_str("false")
    };
    FileView {
        index,
        filename: f.filename.clone(),
        namespace: f.namespace.clone(),
        active: active_text,
        name: f.name.clone(),
        utter: text_or_empty(&f.utter),
        ext: f.ext.clone(),
        version: decimal_string(f.version as u64),
        tag: text_or_empty(&f.tag),
        capabilities: concat_strings(&f.capabilities),
    }
}

/// The file that a listing entry names: an older file of a stack, or its
/// current file.
pub open spec fn entry_file(stacks: Seq<FileStack>, e: (usize, usize, bool)) -> FileMeta {
    if e.2 {
        stacks[e.0 as int].active_file
    } else {
        stacks[e.0 as int].archive_files@[e.1 as int]
    }
}

/// The files and flags that listing entries name.
pub open spec fn entry_files(stacks: Seq<FileStack>, es: Seq<((usize, usize, bool), bool)>) -> Seq<
    (FileMeta, bool),
> {
    es.map_values(|e: ((usize, usize, bool), bool)| (entry_file(stacks, e.0), e.1))
}

/// The rows of the registry listing: stacks by descending version and name
/// of their current file, each stack's older files by ascending version
/// and then its current file, keeping the files that `filter` shows.
pub fn list_rows(registry: &Registry, filter: ListFilter) -> (r: Vec<FileView>)
    ensures
        exists|p: Seq<usize>, qs: Seq<Seq<usize>>|
            listing_orders(registry.stacks@, p, qs) && rows_of(r@, #[trigger] listed(registry.stacks@, p, qs, filter)),
{
    let stacks = &registry.stacks;
    let n = stacks.len();
    let mut keys: Vec<(u32, String)> = Vec::new();
    let mut orders: Vec<Vec<usize>> = Vec::new();
    let mut s: usize = 0;
    while s < n
        invariant
            n == stacks@.len(),
            s <= n,
            key_views(keys@) == stack_keys(stacks@).subrange(0, s as int),
            orders@.len() == s,
            forall|t: int| 0 <= t < s ==> sorts(#[trigger] orders@[t]@, version_keys(stacks@[t].archive_files@), false),
        decreases n - s,
    {
        let st = &stacks[s];
        let ghost k0 = keys@;
        keys.push((st.active_file.version, st.active_file.name.clone()));
        proof {
            assert(key_views(keys@) =~= key_views(k0).push((st.active_file.version, st.active_file.name@)));
            assert(stack_keys(stacks@).subrange(0, s + 1) =~= stack_keys(stacks@).subrange(0, s as int).push(
                (st.active_file.version, st.active_file.name@),
            ));
        }
        let mut vkeys: Vec<(u32, String)> = Vec::new();
        let m = st.archive_files.len();
        let mut a: usize = 0;
        while a < m
            invariant
                m == st.archive_files@.len(),
                a <= m,
                key_views(vkeys@) == version_keys(st.archive_files@).subrange(0, a as int),
            decreases m - a,
        {
            let ghost v0 = vkeys@;
            vkeys.push((st.archive_files[a].version, String::new()));
            proof {
                assert(key_views(vkeys@) =~= key_views(v0).push((st.archive_files@[a as int].version, Seq::<char>::empty())));
                assert(version_keys(st.archive_files@).subrange(0, a + 1) =~= version_keys(st.archive_files@).subrange(0, a as int).push(
                    (st.archive_files@[a as int].version, Seq::<char>::empty()),
                ));
            }
            a = a + 1;
        }
        proof {
            assert(version_keys(st.archive_files@).subrange(0, m as int) =~= version_keys(st.archive_files@));
        }
        let q = stable_order(&vkeys, false);
        orders.push(q);
        s = s + 1;
    }
    proof {
        assert(stack_keys(stacks@).subrange(0, n as int) =~= stack_keys(stacks@));
    }
    let p = stable_order(&keys, true);
    let ghost qs: Seq<Seq<usize>> = orders@.map_values(|v: Vec<usize>| v@);
    proof {
        assert(listing_orders(stacks@, p@, qs));
    }
    let mut entries: Vec<((usize, usize, bool), bool)> = Vec::new();
    let mut t: usize = 0;
    proof {
        assert(p@.subrange(0, 0) =~= Seq::<usize>::empty());
    }
    while t < n
        invariant
            n == stacks@.len(),
            p@.len() == n,
            t <= n,
            orders@.len() == n,
            qs == orders@.map_values(|v: Vec<usize>| v@),
            listing_orders(stacks@, p@, qs),
            forall|i: int| 0 <= i < entries@.len() ==> (#[trigger] entries@[i]).0.0 < n,
            forall|i: int|
                0 <= i < entries@.len() && !(#[trigger] entries@[i]).0.2 ==> entries@[i].0.1
                    < stacks@[entries@[i].0.0 as int].archive_files@.len(),
            entry_files(stacks@, entries@) == listed(stacks@, p@.subrange(0, t as int), qs, filter),
        decreases n - t,
    {
        let si = p[t];
        let st = &stacks[si];
        let q = &orders[si];
        let current = st.active_file.id;
        let ghost before = entry_files(stacks@, entries@);
        let ghost files = stack_files(*st, q@);
        let m = q.len();
        proof {
            assert(q@ == qs[si as int]);
            assert(sorts(qs[si as int], version_keys(st.archive_files@), false));
        }
        let mut u: usize = 0;
        while u < m
            invariant
                n == stacks@.len(),
                si < n,
                *st == stacks@[si as int],
                m == q@.len(),
                u <= m,
                files == stack_files(*st, q@),
                forall|i: int| 0 <= i < m ==> (#[trigger] q@[i]) < st.archive_files@.len(),
                forall|i: int| 0 <= i < entries@.len() ==> (#[trigger] entries@[i]).0.0 < n,
                forall|i: int|
                    0 <= i < entries@.len() && !(#[trigger] entries@[i]).0.2 ==> entries@[i].0.1
                        < stacks@[entries@[i].0.0 as int].archive_files@.len(),
                entry_files(stacks@, entries@) == before + shown_files(files.subrange(0, u as int), current, filter),
                current == st.active_file.id,
            decreases m - u,
        {
            let ai = q[u];
            let f = &st.archive_files[ai];
            proof {
                assert(files.subrange(0, u + 1).drop_last() =~= files.subrange(0, u as int));
                assert(files.subrange(0, u + 1).last() == *f);
            }
            let is_active = f.id == current;
            if shows(filter, is_active) {
                let ghost e0 = entries@;
                entries.push(((si, ai, false), is_active));
                proof {
                    assert(entry_files(stacks@, entries@) =~= entry_files(stacks@, e0).push((*f, is_active)));
                }
            }
            u = u + 1;
        }
        proof {
            assert(files.subrange(0, m + 1).drop_last() =~= files.subrange(0, m as int));
            assert(files.subrange(0, m + 1).last() == st.active_file);
            assert(files.subrange(0, m + 1) =~= files);
        }
        if shows(filter, true) {
            let ghost e0 = entries@;
            entries.push(((si, 0, true), true));
            proof {
                assert(entry_files(stacks@, entries@) =~= entry_files(stacks@, e0).push((st.active_file, true)));
            }
        }
        proof {
            let pt = p@.subrange(0, t + 1);
            assert(pt.drop_last() =~= p@.subrange(0, t as int));
            assert(pt.last() == si);
        }
        t = t + 1;
    }
    proof {
        assert(p@.subrange(0, n as int) =~= p@);
    }
    let ghost listed_all = listed(stacks@, p@, qs, filter);
    let mut rows: Vec<FileView> = Vec::new();
    let k = entries.len();
    let mut i: usize = 0;
    while i < k
        invariant
            k == entries@.len(),
            n == stacks@.len(),
            i <= k,
            forall|j: int| 0 <= j < entries@.len() ==> (#[trigger] entries@[j]).0.0 < n,
            forall|j: int|
                0 <= j < entries@.len() && !(#[trigger] entries@[j]).0.2 ==> entries@[j].0.1
                    < stacks@[entries@[j].0.0 as int].archive_files@.len(),
            entry_files(stacks@, entries@) == listed_all,
            rows_of(rows@, listed_all.subrange(0, i as int)),
        decreases k - i,
    {
        let ((si, ai, is_current), active) = entries[i];
        let st = &stacks[si];
        let f = if is_current {
            &st.active_file
        } else {
            &st.archive_files[ai]
        };
        proof {
            assert(entry_files(stacks@, entries@)[i as int] == (*f, active));
        }
        let row = make_row(f, active, i + 1);
        rows.push(row);
        i = i + 1;
    }
    proof {
        assert(listed_all.subrange(0, k as int) =~= listed_all);
    }
    rows
}

/// One line of a comparison of two files: a label and each side's value.
pub struct DiffLine {
    pub label: String,
    pub left: String,
    pub right: String,
    pub differs: bool,
}

/// The position of the first file named `name`.
pub open spec fn first_named(files: Seq<FileMeta>, name: Seq<char>) -> Option<int>
    decreases files.len(),
{
    if files.len() == 0 {
        None
    } else {
        match first_named(files.drop_last(), name) {
            Some(i) => Some(i),
            None => if files.last().name@ == name {
                Some(files.len() - 1)
            } else {
                None
            },
        }
    }
}

proof fn lemma_first_named(files: Seq<FileMeta>, name: Seq<char>, k: int)
    requires
        0 <= k <= files.len(),
        forall|j: int| 0 <= j < k ==> (#[trigger] files[j]).name@ != name,
    ensures
        k < files.len() && files[k].name@ == name ==> first_named(files, name) == Some(k),
        k == files.len() ==> first_named(files, name) is None,
    decreases files.len(),
{
    if files.len() > 0 {
        if k < files.len() {
            if k < files.len() - 1 {
                lemma_first_named(files.drop_last(), name, k);
                if files[k].name@ == name {
                    assert(files.drop_last()[k] == files[k]);
                }
            } else {
                lemma_first_named(files.drop_last(), name, k);
            }
        } else {
            lemma_first_named(files.drop_last(), name, k - 1);
            assert forall|j: int| 0 <= j < k - 1 implies (#[trigger] files.drop_last()[j]).name@ != name by {
                assert(files.drop_last()[j] == files[j]);
            }
        }
    }
}

/// The first file named `name`.
fn find_named<'a>(files: &'a Vec<FileMeta>, name: &str) -> (r: Option<&'a FileMeta>)
    ensures
        match (r, first_named(files@, name@)) {
            (Some(f), Some(i)) => *f == files@[i],
            (None, None) => true,
            _ => false,
        },
{
    let n = files.len();
    let mut i: usize = 0;
    while i < n
        invariant
            n == files@.len(),
            i <= n,
            forall|j: int| 0 <= j < i ==> (#[trigger] files@[j]).name@ != name@,
        decreases n - i,
    {
        if crate::text::str_eq(files[i].name.as_str(), name) {
            proof {
                lemma_first_named(files@, name@, i as int);
            }
            return Some(&files[i]);
        }
        i = i + 1;
    }
    proof {
        lemma_first_named(files@, name@, n as int);
    }
    None
}

/// The lines comparing two files: name, version, tag, extension and
/// utter, each marked when the sides differ.
pub open spec fn diff_spec(a: FileMeta, b: FileMeta) -> Seq<(Seq<char>, Seq<char>, Seq<char>)> {
    seq![
        ("name"@, a.name@, b.name@),
        ("version"@, decimal(a.version as nat), decimal(b.version as nat)),
        ("tag"@, or_empty(a.tag), or_empty(b.tag)),
        ("ext"@, a.ext@, b.ext@),
        ("utter"@, or_empty(a.utter), or_empty(b.utter)),
    ]
}

/// `r` holds the lines of `d`, each marked when its sides differ.
pub open spec fn lines_are(r: Seq<DiffLine>, d: Seq<(Seq<char>, Seq<char>, Seq<char>)>) -> bool {
    &&& r.len() == d.len()
    &&& forall|i: int|
        0 <= i < r.len() ==> (#[trigger] r[i]).label@ == d[i].0 && r[i].left@ == d[i].1
            && r[i].right@ == d[i].2 && r[i].differs == (d[i].1 != d[i].2)
}

/// The lines of a comparison of `a` with `b` show, in order, name,
/// version, tag, extension and engine; each line's left side is the field
/// of `a`, its right side the field of `b`, and it is marked exactly when
/// the two differ.
pub proof fn law_diff_lines_compare_fields(a: FileMeta, b: FileMeta, v: Seq<DiffLine>)
    requires
        lines_are(v, diff_spec(a, b)),
    ensures
        v.len() == 5,
        v[0].label@ == "name"@ && v[0].left@ == a.name@ && v[0].right@ == b.name@,
        v[0].differs == (a.name@ != b.name@),
        v[1].label@ == "version"@ && v[1].left@ == decimal(a.version as nat) && v[1].right@
            == decimal(b.version as nat),
        v[2].label@ == "tag"@ && v[2].left@ == or_empty(a.tag) && v[2].right@ == or_empty(b.tag),
        v[3].label@ == "ext"@ && v[3].left@ == a.ext@ && v[3].right@ == b.ext@,
        v[3].differs == (a.ext@ != b.ext@),
        v[4].label@ == "utter"@ && v[4].left@ == or_empty(a.utter) && v[4].right@ == or_empty(
            b.utter,
        ),
        forall|i: int| 0 <= i < 5 ==> (#[trigger] v[i]).differs == (v[i].left@ != v[i].right@),
{
    assert(v[0].label@ == diff_spec(a, b)[0].0);
    assert(v[1].label@ == diff_spec(a, b)[1].0);
    assert(v[2].label@ == diff_spec(a, b)[2].0);
    assert(v[3].label@ == diff_spec(a, b)[3].0);
    assert(v[4].label@ == diff_spec(a, b)[4].0);
}

/// Comparing `b` with `a` gives the lines of comparing `a` with `b` with
/// the two sides swapped, and comparing a file with itself marks nothing.
pub proof fn law_diff_swapped(a: FileMeta, b: FileMeta)
    ensures
        diff_spec(b, a).len() == diff_spec(a, b).len(),
        forall|i: int|
            0 <= i < diff_spec(a, b).len() ==> #[trigger] diff_spec(b, a)[i] == (
                diff_spec(a, b)[i].0,
                diff_spec(a, b)[i].2,
                diff_spec(a, b)[i].1,
            ),
        forall|i: int| 0 <= i < diff_spec(a, a).len() ==> #[trigger] diff_spec(a, a)[i].1 == diff_spec(a, a)[i].2,
{
}

fn diff_line(label: &str, left: String, right: String) -> (r: DiffLine)
    ensures
        r.label@ == label@ && r.left@ == left@ && r.right@ == right@ && r.differs == (left@
            != right@),
{
    let differs = !crate::text::str_eq(left.as_str(), right.as_str());
    DiffLine { label: String::from_str(label), left, right, differs }
}

/// The comparison of the first files named `a` and `b`; `None` when
/// either is missing.
pub fn diff_lines(registry: &Registry, a: &str, b: &str) -> (r: Option<Vec<DiffLine>>)
    ensures
        match (first_named(registry.files@, a@), first_named(registry.files@, b@)) {
            (Some(i), Some(j)) => r matches Some(v) && lines_are(
                v@,
                diff_spec(registry.files@[i], registry.files@[j]),
            ),
            _ => r is None,
        },
{
    let fa = match find_named(&registry.files, a) {
        Some(f) => f,
        None => {
            return None;
        },
    };
    let fb = match find_named(&registry.files, b) {
        Some(f) => f,
        None => {
            return None;
        },
    };
    let mut v: Vec<DiffLine> = Vec::new();
    v.push(diff_line("name", fa.name.clone(), fb.name.clone()));
    v.push(diff_line("version", decimal_string(fa.version as u64), decimal_string(fb.version as u64)));
    v.push(diff_line("tag", text_or_empty(&fa.tag), text_or_empty(&fb.tag)));
    v.push(diff_line("ext", fa.ext.clone(), fb.ext.clone()));
    v.push(diff_line("utter", text_or_empty(&fa.utter), text_or_empty(&fb.utter)));
    proof {
        assert(lines_are(v@, diff_spec(*fa, *fb)));
    }
    Some(v)
}

/// The positions of the files named `name`, in order.
pub open spec fn named_positions(files: Seq<FileMeta>, name: Seq<char>) -> Seq<usize>
    decreases files.len(),
{
    if files.len() == 0 {
        Seq::empty()
    } else {
        let prev = named_positions(files.drop_last(), name);
        if files.last().name@ == name {
            prev.push((files.len() - 1) as usize)
        } else {
            prev
        }
    }
}

/// The history of `name`: the positions of the files so named, ordered
/// stably by ascending version (`q` orders them).
pub open spec fn history_of(files: Seq<FileMeta>, name: Seq<char>, q: Seq<usize>) -> Seq<usize> {
    q.map_values(|k: usize| named_positions(files, name)[k as int])
}

/// The versions of the files at `pos`.
pub open spec fn versions_at(files: Seq<FileMeta>, pos: Seq<usize>) -> Seq<(u32, Seq<char>)> {
    pos.map_values(|i: usize| (files[i as int].version, Seq::<char>::empty()))
}

/// The positions of the files named `name` in `registry.files`, ordered
/// stably by ascending version.
pub fn version_history(registry: &Registry, name: &str) -> (r: Vec<usize>)
    ensures
        exists|q: Seq<usize>|
            sorts(q, versions_at(registry.files@, named_positions(registry.files@, name@)), false)
                && r@ == #[trigger] history_of(registry.files@, name@, q),
{
    let files = &registry.files;
    let n = files.len();
    let mut pos: Vec<usize> = Vec::new();
    let mut keys: Vec<(u32, String)> = Vec::new();
    let mut i: usize = 0;
    while i < n
        invariant
            n == files@.len(),
            i <= n,
            pos@ == named_positions(files@.subrange(0, i as int), name@),
            forall|k: int| 0 <= k < pos@.len() ==> (#[trigger] pos@[k]) < i,
            key_views(keys@) == versions_at(files@, pos@),
        decreases n - i,
    {
        proof {
            assert(files@.subrange(0, i + 1).drop_last() =~= files@.subrange(0, i as int));
        }
        if crate::text::str_eq(files[i].name.as_str(), name) {
            let ghost k0 = keys@;
            let ghost p0 = pos@;
            pos.push(i);
            keys.push((files[i].version, String::new()));
            proof {
                assert(key_views(keys@) =~= key_views(k0).push((files@[i as int].version, Seq::<char>::empty())));
                assert(versions_at(files@, pos@) =~= versions_at(files@, p0).push((files@[i as int].version, Seq::<char>::empty())));
            }
        }
        i = i + 1;
    }
    proof {
        assert(files@.subrange(0, n as int) =~= files@);
    }
    let q = stable_order(&keys, false);
    let mut out: Vec<usize> = Vec::new();
    let m = q.len();
    let mut j: usize = 0;
    while j < m
        invariant
            m == q@.len(),
            m == pos@.len(),
            forall|k: int| 0 <= k < m ==> (#[trigger] q@[k]) < pos@.len(),
            j <= m,
            out@ == q@.subrange(0, j as int).map_values(|k: usize| pos@[k as int]),
        decreases m - j,
    {
        out.push(pos[q[j]]);
        proof {
            assert(q@.subrange(0, j + 1).map_values(|k: usize| pos@[k as int]) =~= q@.subrange(0, j as int).map_values(|k: usize| pos@[k as int]).push(pos@[q@[j as int] as int]));
        }
        j = j + 1;
    }
    proof {
        assert(q@.subrange(0, m as int) =~= q@);
        assert(out@ =~= history_of(files@, name@, q@));
    }
    out
}

/// Every command with default arguments, in declaration order.
pub open spec fn all_commands() -> Seq<CommandView> {
    seq![
        CommandView::Mode(Seq::empty()),
        CommandView::List(ListFilter::Active),
        CommandView::Tree,
        CommandView::History(None),
        CommandView::CapabilityMap,
        CommandView::Diff(Seq::empty(), Seq::empty()),
        CommandView::Build(crate::command::TargetSpec::ByIndex(1)),
        CommandView::BuildAll((None, false, None, None)),
        CommandView::View((None, (None, None, None))),
        CommandView::Clear,
        CommandView::Help,
        CommandView::Exit,
    ]
}

impl Command {
    /// Every command, with default arguments, in declaration order.
    pub fn all() -> (r: Vec<Command>)
        ensures
            r@.map_values(|c: Command| c@) == all_commands(),
    {
        let mut v: Vec<Command> = Vec::new();
        v.push(Command::Mode(String::new()));
        v.push(Command::List(ListFilter::Active));
        v.push(Command::Tree);
        v.push(Command::History(None));
        v.push(Command::CapabilityMap);
        v.push(Command::Diff(String::new(), String::new()));
        v.push(Command::Build(BuildTarget::ByIndex(1)));
        v.push(Command::BuildAll(BuildAllArgs::default()));
        v.push(Command::View(ViewArgs::default()));
        v.push(Command::Clear);
        v.push(Command::Help);
        v.push(Command::Exit);
        proof {
            assert(v@.map_values(|c: Command| c@) =~= all_commands());
        }
        v
    }
}

/// A listing of a command as values: label, alias, description, hidden
/// mark and weight.
pub open spec fn meta_view(m: CommandMeta) -> (Seq<char>, Option<Seq<char>>, Seq<char>, bool, u32) {
    (m.label@, opt_static(m.alias), m.description@, m.hidden, m.weight)
}

/// The listings of the commands of `cmds` that are not hidden, in order.
pub open spec fn visible_metas(cmds: Seq<CommandView>) -> Seq<(Seq<char>, Option<Seq<char>>, Seq<char>, bool, u32)>
    decreases cmds.len(),
{
    if cmds.len() == 0 {
        Seq::empty()
    } else {
        let prev = visible_metas(cmds.drop_last());
        let m = meta_spec(cmds.last());
        if m.3 {
            prev
        } else {
            prev.push(m)
        }
    }
}

/// The weights of listings, as sort keys.
pub open spec fn weight_keys(ms: Seq<(Seq<char>, Option<Seq<char>>, Seq<char>, bool, u32)>) -> Seq<(u32, Seq<char>)> {
    ms.map_values(|m: (Seq<char>, Option<Seq<char>>, Seq<char>, bool, u32)| (m.4, Seq::<char>::empty()))
}

/// `r` lists the visible commands in the order `q`.
pub open spec fn listed_in(r: Seq<CommandMeta>, q: Seq<usize>) -> bool {
    &&& r.len() == q.len()
    &&& forall|i: int| 0 <= i < r.len() ==> meta_view(#[trigger] r[i]) == visible_metas(all_commands())[q[i] as int]
}

/// The shortcuts: the listings of the commands that are not hidden,
/// ordered stably by descending weight.
pub fn shortcuts() -> (r: Vec<CommandMeta>)
    ensures
        exists|q: Seq<usize>|
            sorts(q, weight_keys(visible_metas(all_commands())), true) && #[trigger] listed_in(r@, q),
{
    let cmds = Command::all();
    let ghost all = all_commands();
    let mut metas: Vec<CommandMeta> = Vec::new();
    let mut keys: Vec<(u32, String)> = Vec::new();
    let n = cmds.len();
    let mut i: usize = 0;
    while i < n
        invariant
            n == cmds@.len(),
            all == cmds@.map_values(|c: Command| c@),
            all == all_commands(),
            i <= n,
            metas@.len() == visible_metas(all.subrange(0, i as int)).len(),
            forall|k: int| 0 <= k < metas@.len() ==> meta_view(#[trigger] metas@[k]) == visible_metas(all.subrange(0, i as int))[k],
            key_views(keys@) == weight_keys(visible_metas(all.subrange(0, i as int))),
        decreases n - i,
    {
        let m = cmds[i].metadata();
        proof {
            assert(all.subrange(0, i + 1).drop_last() =~= all.subrange(0, i as int));
            assert(all.subrange(0, i + 1).last() == cmds@[i as int]@);
        }
        if !m.hidden {
            let ghost k0 = keys@;
            keys.push((m.weight, String::new()));
            metas.push(m);
            proof {
                assert(key_views(keys@) =~= key_views(k0).push((m.weight, Seq::<char>::empty())));
                assert(weight_keys(visible_metas(all.subrange(0, i + 1))) =~= weight_keys(visible_metas(all.subrange(0, i as int))).push((m.weight, Seq::<char>::empty())));
            }
        } else {
            proof {
                assert(visible_metas(all.subrange(0, i + 1)) == visible_metas(all.subrange(0, i as int)));
            }
        }
        i = i + 1;
    }
    proof {
        assert(all.subrange(0, n as int) =~= all);
    }
    let q = stable_order(&keys, true);
    let mut out: Vec<CommandMeta> = Vec::new();
    let k = q.len();
    let mut j: usize = 0;
    while j < k
        invariant
            k == q@.len(),
            k == metas@.len(),
            forall|t: int| 0 <= t < k ==> (#[trigger] q@[t]) < metas@.len(),
            j <= k,
            out@.len() == j,
            forall|t: int| 0 <= t < j ==> #[trigger] meta_view(out@[t]) == meta_view(metas@[q@[t] as int]),
        decreases k - j,
    {
        let src = &metas[q[j]];
        out.push(CommandMeta {
            label: src.label,
            alias: src.alias,
            description: src.description,
            hidden: src.hidden,
            weight: src.weight,
        });
        j = j + 1;
    }
    proof {
        assert(listed_in(out@, q@));
    }
    out
}

/// Consecutive items with the same key gathered into one group, in order.
pub open spec fn group_runs(items: Seq<(Seq<char>, usize)>) -> Seq<(Seq<char>, Seq<usize>)>
    decreases items.len(),
{
    if items.len() == 0 {
        Seq::empty()
    } else {
        let prev = group_runs(items.drop_last());
        let (k, v) = items.last();
        if prev.len() > 0 && prev.last().0 == k {
            prev.update(prev.len() - 1, (k, prev.last().1.push(v)))
        } else {
            prev.push((k, seq![v]))
        }
    }
}

/// Groups as values.
pub open spec fn group_views(g: Seq<(String, Vec<usize>)>) -> Seq<(Seq<char>, Seq<usize>)> {
    g.map_values(|e: (String, Vec<usize>)| (e.0@, e.1@))
}

fn group_items(items: &Vec<(String, usize)>) -> (r: Vec<(String, Vec<usize>)>)
    ensures
        group_views(r@) == group_runs(items@.map_values(|e: (String, usize)| (e.0@, e.1))),
{
    let ghost iv = items@.map_values(|e: (String, usize)| (e.0@, e.1));
    let mut out: Vec<(String, Vec<usize>)> = Vec::new();
    let n = items.len();
    let mut i: usize = 0;
    while i < n
        invariant
            n == items@.len(),
            iv == items@.map_values(|e: (String, usize)| (e.0@, e.1)),
            i <= n,
            group_views(out@) == group_runs(iv.subrange(0, i as int)),
        decreases n - i,
    {
        proof {
            assert(iv.subrange(0, i + 1).drop_last() =~= iv.subrange(0, i as int));
            assert(iv.subrange(0, i + 1).last() == (items@[i as int].0@, items@[i as int].1));
        }
        let k = out.len();
        let ghost o0 = out@;
        if k > 0 && crate::text::str_eq(out[k - 1].0.as_str(), items[i].0.as_str()) {
            let (key, mut vals) = out.pop().unwrap();
            vals.push(items[i].1);
            out.push((key, vals));
            proof {
                assert(group_views(out@) =~= group_views(o0).update(
                    k - 1,
                    (o0[k - 1].0@, o0[k - 1].1@.push(items@[i as int].1)),
                ));
            }
        } else {
            let mut vals: Vec<usize> = Vec::new();
            vals.push(items[i].1);
            out.push((items[i].0.clone(), vals));
            proof {
                assert(group_views(out@) =~= group_views(o0).push((items@[i as int].0@, seq![items@[i as int].1])));
            }
        }
        i = i + 1;
    }
    proof {
        assert(iv.subrange(0, n as int) =~= iv);
    }
    out
}

/// The namespace of each file, as a sort key.
pub open spec fn namespace_keys(files: Seq<FileMeta>) -> Seq<(u32, Seq<char>)> {
    files.map_values(|f: FileMeta| (0u32, f.namespace@))
}

/// The files of `files` by namespace, in the order `p`.
pub open spec fn by_namespace(files: Seq<FileMeta>, p: Seq<usize>) -> Seq<(Seq<char>, usize)> {
    p.map_values(|i: usize| (files[i as int].namespace@, i))
}

/// The namespace tree: the files' positions grouped by namespace, the
/// namespaces in ascending order, the files of each in their order.
pub fn namespace_tree(registry: &Registry) -> (r: Vec<(String, Vec<usize>)>)
    ensures
        exists|p: Seq<usize>|
            sorts(p, namespace_keys(registry.files@), false) && group_views(r@) == group_runs(
                #[trigger] by_namespace(registry.files@, p),
            ),
{
    let files = &registry.files;
    let n = files.len();
    let mut keys: Vec<(u32, String)> = Vec::new();
    let mut i: usize = 0;
    while i < n
        invariant
            n == files@.len(),
            i <= n,
            key_views(keys@) == namespace_keys(files@).subrange(0, i as int),
        decreases n - i,
    {
        let ghost k0 = keys@;
        keys.push((0, files[i].namespace.clone()));
        proof {
            assert(key_views(keys@) =~= key_views(k0).push((0u32, files@[i as int].namespace@)));
            assert(namespace_keys(files@).subrange(0, i + 1) =~= namespace_keys(files@).subrange(0, i as int).push((0u32, files@[i as int].namespace@)));
        }
        i = i + 1;
    }
    proof {
        assert(namespace_keys(files@).subrange(0, n as int) =~= namespace_keys(files@));
    }
    let p = stable_order(&keys, false);
    let mut items: Vec<(String, usize)> = Vec::new();
    let mut j: usize = 0;
    while j < n
        invariant
            n == files@.len(),
            p@.len() == n,
            forall|t: int| 0 <= t < n ==> (#[trigger] p@[t]) < n,
            j <= n,
            items@.map_values(|e: (String, usize)| (e.0@, e.1)) == by_namespace(files@, p@.subrange(0, j as int)),
        decreases n - j,
    {
        let ghost i0 = items@;
        let k = p[j];
        items.push((files[k].namespace.clone(), k));
        proof {
            assert(items@.map_values(|e: (String, usize)| (e.0@, e.1)) =~= i0.map_values(|e: (String, usize)| (e.0@, e.1)).push((files@[k as int].namespace@, k)));
            assert(by_namespace(files@, p@.subrange(0, j + 1)) =~= by_namespace(files@, p@.subrange(0, j as int)).push((files@[k as int].namespace@, k)));
        }
        j = j + 1;
    }
    proof {
        assert(p@.subrange(0, n as int) =~= p@);
    }
    group_items(&items)
}

/// Each capability of each file with the file's position, files in order
/// and each file's capabilities in order.
pub open spec fn capability_entries(files: Seq<FileMeta>) -> Seq<(Seq<char>, usize)>
    decreases files.len(),
{
    if files.len() == 0 {
        Seq::empty()
    } else {
        let k = (files.len() - 1) as usize;
        capability_entries(files.drop_last()) + strs(files.last().capabilities@).map_values(
            |c: Seq<char>| (c, k),
        )
    }
}

/// The capability of each entry, as a sort key.
pub open spec fn capability_keys(es: Seq<(Seq<char>, usize)>) -> Seq<(u32, Seq<char>)> {
    es.map_values(|e: (Seq<char>, usize)| (0u32, e.0))
}

/// The entries of `es` in the order `q`.
pub open spec fn entries_in(es: Seq<(Seq<char>, usize)>, q: Seq<usize>) -> Seq<(Seq<char>, usize)> {
    q.map_values(|k: usize| es[k as int])
}

/// The capability matrix: the files' positions grouped by capability, the
/// capabilities in ascending order, the files of each in their order.
pub fn capability_map(registry: &Registry) -> (r: Vec<(String, Vec<usize>)>)
    ensures
        exists|q: Seq<usize>|
            sorts(q, capability_keys(capability_entries(registry.files@)), false) && group_views(
                r@,
            ) == group_runs(#[trigger] entries_in(capability_entries(registry.files@), q)),
{
    let files = &registry.files;
    let n = files.len();
    let mut entries: Vec<(String, usize)> = Vec::new();
    let mut i: usize = 0;
    proof {
        assert(files@.subrange(0, 0) =~= Seq::<FileMeta>::empty());
    }
    while i < n
        invariant
            n == files@.len(),
            i <= n,
            entries@.map_values(|e: (String, usize)| (e.0@, e.1)) == capability_entries(files@.subrange(0, i as int)),
        decreases n - i,
    {
        let caps = &files[i].capabilities;
        let ghost e0 = entries@.map_values(|e: (String, usize)| (e.0@, e.1));
        let m = caps.len();
        let mut c: usize = 0;
        while c < m
            invariant
                m == caps@.len(),
                c <= m,
                entries@.map_values(|e: (String, usize)| (e.0@, e.1)) == e0 + strs(caps@).subrange(0, c as int).map_values(|x: Seq<char>| (x, i)),
            decreases m - c,
        {
            let ghost before = entries@;
            entries.push((caps[c].clone(), i));
            proof {
                assert(entries@.map_values(|e: (String, usize)| (e.0@, e.1)) =~= before.map_values(|e: (String, usize)| (e.0@, e.1)).push((caps@[c as int]@, i)));
                assert(strs(caps@).subrange(0, c + 1).map_values(|x: Seq<char>| (x, i)) =~= strs(caps@).subrange(0, c as int).map_values(|x: Seq<char>| (x, i)).push((caps@[c as int]@, i)));
            }
            c = c + 1;
        }
        proof {
            assert(strs(caps@).subrange(0, m as int) =~= strs(caps@));
            let fs = files@.subrange(0, i + 1);
            assert(fs.drop_last() =~= files@.subrange(0, i as int));
            assert(fs.last() == files@[i as int]);
        }
        i = i + 1;
    }
    proof {
        assert(files@.subrange(0, n as int) =~= files@);
    }
    let ghost ev = capability_entries(files@);
    let mut keys: Vec<(u32, String)> = Vec::new();
    let k = entries.len();
    let mut j: usize = 0;
    while j < k
        invariant
            k == entries@.len(),
            ev == entries@.map_values(|e: (String, usize)| (e.0@, e.1)),
            j <= k,
            key_views(keys@) == capability_keys(ev).subrange(0, j as int),
        decreases k - j,
    {
        let ghost k0 = keys@;
        keys.push((0, entries[j].0.clone()));
        proof {
            assert(key_views(keys@) =~= key_views(k0).push((0u32, entries@[j as int].0@)));
            assert(capability_keys(ev).subrange(0, j + 1) =~= capability_keys(ev).subrange(0, j as int).push((0u32, ev[j as int].0)));
        }
        j = j + 1;
    }
    proof {
        assert(capability_keys(ev).subrange(0, k as int) =~= capability_keys(ev));
    }
    let q = stable_order(&keys, false);
    let mut items: Vec<(String, usize)> = Vec::new();
    let mut t: usize = 0;
    while t < k
        invariant
            k == entries@.len(),
            ev == entries@.map_values(|e: (String, usize)| (e.0@, e.1)),
            q@.len() == k,
            forall|x: int| 0 <= x < k ==> (#[trigger] q@[x]) < k,
            t <= k,
            items@.map_values(|e: (String, usize)| (e.0@, e.1)) == q@.subrange(0, t as int).map_values(|x: usize| ev[x as int]),
        decreases k - t,
    {
        let ghost i0 = items@;
        let x = q[t];
        items.push((entries[x].0.clone(), entries[x].1));
        proof {
            assert(items@.map_values(|e: (String, usize)| (e.0@, e.1)) =~= i0.map_values(|e: (String, usize)| (e.0@, e.1)).push(ev[x as int]));
            assert(q@.subrange(0, t + 1).map_values(|y: usize| ev[y as int]) =~= q@.subrange(0, t as int).map_values(|y: usize| ev[y as int]).push(ev[x as int]));
        }
        t = t + 1;
    }
    proof {
        assert(q@.subrange(0, k as int) =~= q@);
        assert(q@.map_values(|y: usize| ev[y as int]) =~= entries_in(ev, q@));
    }
    group_items(&items)
}

} // verus!
