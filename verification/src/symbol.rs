//! The symbols that source files export, and the table that collects them
//! by name and origin, noting each redefinition.
use crate::bundle::IR;
use crate::registry::FileMeta;
use crate::text::str_eq;
use crate::utter::{no_flags, UtterFlags};
use vstd::prelude::*;
use vstd::string::*;

verus! {

/// What a symbol stands for.
#[derive(Debug, Clone, Copy, PartialEq, Eq, Hash, Structural)]
pub enum SymbolKind {
    Constant,
    Variable,
    Function,
    Method,
    Component,
    Action,
    Style,
    Theme,
    Type,
    Interface,
    Unknown,
}

/// A named thing a file exports.
pub struct Symbol {
    pub name: String,
    pub kind: SymbolKind,
    pub value: String,
    pub file: FileMeta,
    pub origin: String,
    pub metadata: Vec<(String, String)>,
}

/// The text of a list of name and value pairs.
pub open spec fn pair_views(v: Seq<(String, String)>) -> Seq<(Seq<char>, Seq<char>)> {
    v.map_values(|p: (String, String)| (p.0@, p.1@))
}

/// A copy of a list of pairs, pair by pair.
pub fn copy_pairs(v: &Vec<(String, String)>) -> (r: Vec<(String, String)>)
    ensures
        pair_views(r@) == pair_views(v@),
{
    let mut out: Vec<(String, String)> = Vec::new();
    let n = v.len();
    let mut i: usize = 0;
    while i < n
        invariant
            n == v@.len(),
            i <= n,
            pair_views(out@) == pair_views(v@).subrange(0, i as int),
        decreases n - i,
    {
        let ghost before = out@;
        let item = (v[i].0.clone(), v[i].1.clone());
        out.push(item);
        proof {
            assert(pair_views(out@) =~= pair_views(before).push((v@[i as int].0@, v@[i as int].1@)));
            assert(pair_views(v@).subrange(0, i + 1) =~= pair_views(v@).subrange(0, i as int).push(
                (v@[i as int].0@, v@[i as int].1@),
            ));
        }
        i = i + 1;
    }
    proof {
        assert(pair_views(v@).subrange(0, n as int) =~= pair_views(v@));
    }
    out
}

impl Symbol {
    /// Whether two symbols hold the same values.
    pub open spec fn same_as(&self, o: Symbol) -> bool {
        &&& self.name@ == o.name@
        &&& self.kind == o.kind
        &&& self.value@ == o.value@
        &&& self.file.same_as(o.file)
        &&& self.origin@ == o.origin@
        &&& pair_views(self.metadata@) == pair_views(o.metadata@)
    }

    /// A field-by-field copy.
    pub fn duplicate(&self) -> (r: Symbol)
        ensures
            r.same_as(*self),
    {
        Symbol {
            name: self.name.clone(),
            kind: self.kind,
            value: self.value.clone(),
            file: self.file.duplicate(),
            origin: self.origin.clone(),
            metadata: copy_pairs(&self.metadata),
        }
    }
}

/// Whether two lists hold the same symbols in the same order.
pub open spec fn same_symbols(a: Seq<Symbol>, b: Seq<Symbol>) -> bool {
    a.len() == b.len() && forall|i: int| 0 <= i < a.len() ==> #[trigger] a[i].same_as(b[i])
}

/// A copy of a list of symbols, symbol by symbol.
pub fn copy_symbols(v: &Vec<Symbol>) -> (r: Vec<Symbol>)
    ensures
        same_symbols(r@, v@),
{
    let mut out: Vec<Symbol> = Vec::new();
    let n = v.len();
    let mut i: usize = 0;
    while i < n
        invariant
            n == v@.len(),
            i <= n,
            out@.len() == i,
            forall|j: int| 0 <= j < i ==> #[trigger] out@[j].same_as(v@[j]),
        decreases n - i,
    {
        out.push(v[i].duplicate());
        i = i + 1;
    }
    out
}

/// What hands out the symbols a file exports.
pub trait SymbolProvider {
    fn extract(&self, file: &FileMeta) -> Vec<Symbol>;
}

/// What identifies a symbol: its name and origin.
pub struct SymbolId {
    pub name: String,
    pub origin: String,
}

/// The identity of a symbol as a value.
pub open spec fn key_of(s: Symbol) -> (Seq<char>, Seq<char>) {
    (s.name@, s.origin@)
}

/// The table that a list of symbols makes when added in order: a later
/// symbol with the same identity replaces an earlier one.
pub open spec fn table_of(v: Seq<Symbol>) -> Map<(Seq<char>, Seq<char>), Symbol>
    decreases v.len(),
{
    if v.len() == 0 {
        Map::empty()
    } else {
        table_of(v.drop_last()).insert(key_of(v.last()), v.last())
    }
}

/// The warning for a symbol `name` redefined while adding from `source`.
pub open spec fn redefined_warning(name: Seq<char>, source: Seq<char>) -> Seq<char> {
    "Warning: Symbol '"@ + name + "' in "@ + source + " redefined"@
}

/// The warnings of adding symbols from the file `source`.
pub open spec fn in_file(source: Seq<char>) -> spec_fn(Symbol) -> Seq<char> {
    |s: Symbol| redefined_warning(s.name@, source)
}

/// The warnings of a build step for the file named `filename`: the
/// symbol, its origin, and the file.
pub open spec fn redefined_by(filename: Seq<char>) -> spec_fn(Symbol) -> Seq<char> {
    |s: Symbol| "Warning: Symbol '"@ + s.name@ + "' in "@ + s.origin@ + " redefined by "@ + filename
}

/// The warnings of an incremental build: the symbol alone.
pub open spec fn plainly_redefined() -> spec_fn(Symbol) -> Seq<char> {
    |s: Symbol| "Warning: Symbol '"@ + s.name@ + "' redefined"@
}

/// The table and warnings after adding `syms` in order: a symbol whose
/// identity is already in the table adds the warning `note` gives for it.
pub open spec fn add_spec(
    table: Map<(Seq<char>, Seq<char>), Symbol>,
    warnings: Seq<Seq<char>>,
    syms: Seq<Symbol>,
    note: spec_fn(Symbol) -> Seq<char>,
) -> (Map<(Seq<char>, Seq<char>), Symbol>, Seq<Seq<char>>)
    decreases syms.len(),
{
    if syms.len() == 0 {
        (table, warnings)
    } else {
        let prev = add_spec(table, warnings, syms.drop_last(), note);
        let s = syms.last();
        let w = if prev.0.contains_key(key_of(s)) {
            prev.1.push(note(s))
        } else {
            prev.1
        };
        (prev.0.insert(key_of(s), s), w)
    }
}

/// The position of the last symbol of `syms` with identity `k`.
pub open spec fn last_keyed(syms: Seq<Symbol>, k: (Seq<char>, Seq<char>)) -> Option<int>
    decreases syms.len(),
{
    if syms.len() == 0 {
        None
    } else if key_of(syms.last()) == k {
        Some(syms.len() - 1)
    } else {
        last_keyed(syms.drop_last(), k)
    }
}

proof fn lemma_last_keyed(syms: Seq<Symbol>, k: (Seq<char>, Seq<char>))
    ensures
        last_keyed(syms, k) matches Some(i) ==> 0 <= i < syms.len() && key_of(syms[i]) == k,
    decreases syms.len(),
{
    if syms.len() > 0 {
        lemma_last_keyed(syms.drop_last(), k);
    }
}

/// After adding symbols, looking up an identity finds the last symbol
/// added with it; an identity none of them has keeps what the table held.
/// The warnings already raised stay, in order, ahead of the new ones.
pub proof fn law_lookup_after_add(
    table: Map<(Seq<char>, Seq<char>), Symbol>,
    warnings: Seq<Seq<char>>,
    syms: Seq<Symbol>,
    note: spec_fn(Symbol) -> Seq<char>,
    k: (Seq<char>, Seq<char>),
)
    ensures
        match last_keyed(syms, k) {
            Some(i) => add_spec(table, warnings, syms, note).0.contains_key(k) && add_spec(
                table,
                warnings,
                syms,
                note,
            ).0[k] == syms[i],
            None => add_spec(table, warnings, syms, note).0.contains_key(k) == table.contains_key(k)
                && (table.contains_key(k) ==> add_spec(table, warnings, syms, note).0[k]
                == table[k]),
        },
        add_spec(table, warnings, syms, note).1.len() >= warnings.len(),
        add_spec(table, warnings, syms, note).1.subrange(0, warnings.len() as int) == warnings,
    decreases syms.len(),
{
    if syms.len() > 0 {
        law_lookup_after_add(table, warnings, syms.drop_last(), note, k);
        let prev = add_spec(table, warnings, syms.drop_last(), note);
        let w = add_spec(table, warnings, syms, note).1;
        assert(w.subrange(0, warnings.len() as int) =~= prev.1.subrange(0, warnings.len() as int));
        let last = syms.last();
        assert(add_spec(table, warnings, syms, note).0 == prev.0.insert(key_of(last), last));
        if key_of(last) != k {
            lemma_last_keyed(syms.drop_last(), k);
            match last_keyed(syms.drop_last(), k) {
                Some(i) => {
                    assert(syms[i] == syms.drop_last()[i]);
                },
                None => {},
            }
        }
    } else {
        assert(warnings.subrange(0, warnings.len() as int) =~= warnings);
    }
}

/// Which warning a batch of symbols raises on a redefinition.
pub enum Notice {
    InFile(String),
    RedefinedBy(String),
    Plain,
}

/// The warnings of a notice.
pub open spec fn notice_fn(n: Notice) -> spec_fn(Symbol) -> Seq<char> {
    match n {
        Notice::InFile(f) => in_file(f@),
        Notice::RedefinedBy(f) => redefined_by(f@),
        Notice::Plain => plainly_redefined(),
    }
}

/// The warning of `n` for `s`.
fn notice_text(n: &Notice, s: &Symbol) -> (r: String)
    ensures
        r@ == (notice_fn(*n))(*s),
{
    let mut msg = String::from_str("Warning: Symbol '");
    msg.append(s.name.as_str());
    match n {
        Notice::InFile(f) => {
            msg.append("' in ");
            msg.append(f.as_str());
            msg.append(" redefined");
        },
        Notice::RedefinedBy(f) => {
            msg.append("' in ");
            msg.append(s.origin.as_str());
            msg.append(" redefined by ");
            msg.append(f.as_str());
        },
        Notice::Plain => {
            msg.append("' redefined");
        },
    }
    msg
}

/// Every symbol that files export, by identity, with the warnings raised
/// while collecting them.
pub struct SymbolRegistry {
    pub table: Vec<Symbol>,
    pub warnings: Vec<String>,
}

impl View for SymbolRegistry {
    type V = Map<(Seq<char>, Seq<char>), Symbol>;

    open spec fn view(&self) -> Map<(Seq<char>, Seq<char>), Symbol> {
        table_of(self.table@)
    }
}

pub open spec fn warning_views(w: Seq<String>) -> Seq<Seq<char>> {
    w.map_values(|s: String| s@)
}

/// An identity is in the table of a list exactly when some entry has it.
proof fn lemma_table_has(v: Seq<Symbol>, k: (Seq<char>, Seq<char>))
    ensures
        table_of(v).contains_key(k) <==> exists|i: int| 0 <= i < v.len() && #[trigger] key_of(v[i]) == k,
    decreases v.len(),
{
    if v.len() > 0 {
        let u = v.drop_last();
        lemma_table_has(u, k);
        if exists|i: int| 0 <= i < u.len() && #[trigger] key_of(u[i]) == k {
            let i = choose|i: int| 0 <= i < u.len() && #[trigger] key_of(u[i]) == k;
            assert(key_of(v[i]) == k);
        }
        if exists|i: int| 0 <= i < v.len() && #[trigger] key_of(v[i]) == k {
            let i = choose|i: int| 0 <= i < v.len() && #[trigger] key_of(v[i]) == k;
            if i < v.len() - 1 {
                assert(key_of(u[i]) == k);
            }
        }
    }
}

/// The table of a list holds, for an identity, the last entry with it.
proof fn lemma_table_last(v: Seq<Symbol>, k: (Seq<char>, Seq<char>), j: int)
    requires
        0 <= j < v.len(),
        key_of(v[j]) == k,
        forall|i: int| j < i < v.len() ==> #[trigger] key_of(v[i]) != k,
    ensures
        table_of(v).contains_key(k),
        table_of(v)[k] == v[j],
    decreases v.len(),
{
    let u = v.drop_last();
    if j < v.len() - 1 {
        assert(key_of(v[v.len() - 1]) != k);
        assert forall|i: int| j < i < u.len() implies #[trigger] key_of(u[i]) != k by {
            assert(key_of(v[i]) != k);
        }
        lemma_table_last(u, k, j);
    }
}

impl SymbolRegistry {
    pub fn new() -> (r: Self)
        ensures
            r@ == Map::<(Seq<char>, Seq<char>), Symbol>::empty(),
            r.warnings@.len() == 0,
    {
        Self { table: Vec::new(), warnings: Vec::new() }
    }

    /// Whether a symbol with this identity is in the table.
    fn contains(&self, name: &str, origin: &str) -> (r: bool)
        ensures
            r == self@.contains_key((name@, origin@)),
    {
        match self.lookup(name, origin) {
            Some(_) => true,
            None => false,
        }
    }

    /// The symbol named `name` from `origin`.
    pub fn lookup(&self, name: &str, origin: &str) -> (r: Option<&Symbol>)
        ensures
            match r {
                Some(s) => self@.contains_key((name@, origin@)) && *s == self@[(name@, origin@)],
                None => !self@.contains_key((name@, origin@)),
            },
    {
        let ghost k = (name@, origin@);
        let n = self.table.len();
        let mut i: usize = n;
        while i > 0
            invariant
                n == self.table@.len(),
                i <= n,
                k == (name@, origin@),
                forall|m: int| i <= m < n ==> #[trigger] key_of(self.table@[m]) != k,
            decreases i,
        {
            let s = &self.table[i - 1];
            if str_eq(s.name.as_str(), name) && str_eq(s.origin.as_str(), origin) {
                proof {
                    assert(key_of(self.table@[i - 1]) == k);
                    lemma_table_last(self.table@, k, i - 1);
                }
                return Some(s);
            }
            i = i - 1;
        }
        proof {
            lemma_table_has(self.table@, k);
        }
        None
    }

    /// Empties the table and the warnings.
    pub fn reset(&mut self)
        ensures
            final(self)@ == Map::<(Seq<char>, Seq<char>), Symbol>::empty(),
            final(self).warnings@.len() == 0,
    {
        self.table.clear();
        self.warnings.clear();
    }

    /// Adds `symbols` in order; each one whose identity is already in the
    /// table replaces the old one and adds the warning of `notice`.
    pub(crate) fn absorb(&mut self, symbols: Vec<Symbol>, notice: &Notice)
        ensures
            (final(self)@, warning_views(final(self).warnings@)) == add_spec(
                old(self)@,
                warning_views(old(self).warnings@),
                symbols@,
                notice_fn(*notice),
            ),
    {
        let ghost syms = symbols@;
        let mut pending = symbols;
        let mut rev: Vec<Symbol> = Vec::new();
        while pending.len() > 0
            invariant
                syms == pending@ + rev@.reverse(),
            decreases pending@.len(),
        {
            let ghost p0 = pending@;
            let ghost r0 = rev@;
            let s = pending.pop().unwrap();
            rev.push(s);
            proof {
                assert(p0 =~= pending@.push(s));
                assert(rev@.reverse() =~= seq![s] + r0.reverse());
                assert(syms =~= pending@ + rev@.reverse());
            }
        }
        proof {
            assert(syms =~= rev@.reverse());
            assert(syms.subrange(0, 0) =~= Seq::<Symbol>::empty());
        }
        while rev.len() > 0
            invariant
                rev@.len() <= syms.len(),
                syms == syms.subrange(0, syms.len() - rev@.len()) + rev@.reverse(),
                (self@, warning_views(self.warnings@)) == add_spec(
                    old(self)@,
                    warning_views(old(self).warnings@),
                    syms.subrange(0, syms.len() - rev@.len()),
                    notice_fn(*notice),
                ),
            decreases rev@.len(),
        {
            let ghost k = syms.len() - rev@.len();
            let ghost r0 = rev@;
            let s = rev.pop().unwrap();
            proof {
                assert(r0.reverse() =~= seq![s] + rev@.reverse());
                assert(syms[k] == s) by {
                    assert(syms[k] == (syms.subrange(0, k) + r0.reverse())[k]);
                }
                assert(syms.subrange(0, k + 1).drop_last() =~= syms.subrange(0, k));
                assert(syms.subrange(0, k + 1).last() == s);
                assert(syms =~= syms.subrange(0, k + 1) + rev@.reverse());
            }
            if self.contains(s.name.as_str(), s.origin.as_str()) {
                let msg = notice_text(notice, &s);
                let ghost w0 = self.warnings@;
                self.warnings.push(msg);
                proof {
                    assert(warning_views(self.warnings@) =~= warning_views(w0).push(
                        (notice_fn(*notice))(s),
                    ));
                }
            }
            let ghost t0 = self.table@;
            self.table.push(s);
            proof {
                assert(self.table@.drop_last() =~= t0);
            }
        }
        proof {
            assert(syms.subrange(0, syms.len() as int) =~= syms);
        }
    }

    /// Adds `symbols` in order; each one whose identity is already in the
    /// table replaces the old one and adds a warning naming `source_file`.
    pub fn add_symbols(&mut self, symbols: Vec<Symbol>, source_file: &str)
        ensures
            (final(self)@, warning_views(final(self).warnings@)) == add_spec(
                old(self)@,
                warning_views(old(self).warnings@),
                symbols@,
                in_file(source_file@),
            ),
    {
        let notice = Notice::InFile(String::from_str(source_file));
        self.absorb(symbols, &notice);
    }
}

/// A symbol source that hands out symbols registered per file name.
pub struct MockEngine {
    pub name: String,
    pub registry: Vec<(String, Vec<Symbol>)>,
}

impl MockEngine {
    pub fn new(name: &str) -> (r: Self)
        ensures
            r.name@ == name@,
            r.registry@.len() == 0,
    {
        Self { name: String::from_str(name), registry: Vec::new() }
    }

    /// Appends `symbol` to the list of `filename`, starting the list when
    /// there is none.
    pub fn add_symbol(&mut self, filename: &str, symbol: Symbol)
        ensures
            final(self).name == old(self).name,
            match find_file(old(self).registry@, filename@) {
                Some(i) => final(self).registry@.len() == old(self).registry@.len() && final(self).registry@[i].0@ == filename@ && final(self).registry@[i].1@ == old(self).registry@[i].1@.push(symbol) && forall|j: int|
                    0 <= j < old(self).registry@.len() && j != i ==> #[trigger] final(self).registry@[j] == old(self).registry@[j],
                None => final(self).registry@.len() == old(self).registry@.len() + 1 && final(self).registry@.last().0@ == filename@ && final(self).registry@.last().1@ == seq![
                    symbol,
                ] && forall|j: int|
                    0 <= j < old(self).registry@.len() ==> #[trigger] final(self).registry@[j]
                        == old(self).registry@[j],
            },
    {
        let n = self.registry.len();
        let mut i: usize = 0;
        while i < n
            invariant
                n == self.registry@.len(),
                self.registry@ == old(self).registry@,
                self.name == old(self).name,
                i <= n,
                forall|j: int| 0 <= j < i ==> #[trigger] self.registry@[j].0@ != filename@,
            decreases n - i,
        {
            if str_eq(self.registry[i].0.as_str(), filename) {
                proof {
                    lemma_find_file(self.registry@, filename@, i as int);
                }
                self.registry[i].1.push(symbol);
                return;
            }
            i = i + 1;
        }
        proof {
            lemma_find_file_none(self.registry@, filename@);
        }
        let mut list: Vec<Symbol> = Vec::new();
        list.push(symbol);
        self.registry.push((String::from_str(filename), list));
    }
}

impl MockEngine {
    pub fn name(&self) -> (r: &str)
        ensures
            r@ == self.name@,
    {
        self.name.as_str()
    }

    /// A stand-in engine allows nothing.
    pub fn flags(&self) -> (r: UtterFlags)
        ensures
            r == no_flags(),
    {
        UtterFlags { browser_dom: false, allow_network: false, fs_access: false, db_access: false }
    }

    /// Always an empty structured IR.
    pub fn to_ir(&self, metadata: &FileMeta) -> (r: Result<IR, String>)
        ensures
            r matches Ok(ir) && ir.is_empty_structured(),
    {
        Ok(IR::new())
    }

    /// A copy of the symbols loaded for the file's name; none when none
    /// were loaded.
    pub fn get_exported_symbols(&self, metadata: &FileMeta) -> (r: Vec<Symbol>)
        ensures
            match find_file(self.registry@, metadata.filename@) {
                Some(i) => same_symbols(r@, self.registry@[i].1@),
                None => r@.len() == 0,
            },
    {
        let n = self.registry.len();
        let mut i: usize = 0;
        while i < n
            invariant
                n == self.registry@.len(),
                i <= n,
                forall|j: int| 0 <= j < i ==> #[trigger] self.registry@[j].0@ != metadata.filename@,
            decreases n - i,
        {
            if str_eq(self.registry[i].0.as_str(), metadata.filename.as_str()) {
                proof {
                    lemma_find_file(self.registry@, metadata.filename@, i as int);
                }
                return copy_symbols(&self.registry[i].1);
            }
            i = i + 1;
        }
        proof {
            lemma_find_file_none(self.registry@, metadata.filename@);
        }
        Vec::new()
    }
}

impl SymbolProvider for MockEngine {
    fn extract(&self, file: &FileMeta) -> (r: Vec<Symbol>)
        ensures
            match find_file(self.registry@, file.filename@) {
                Some(i) => same_symbols(r@, self.registry@[i].1@),
                None => r@.len() == 0,
            },
    {
        self.get_exported_symbols(file)
    }
}

/// The symbols loaded for the file named `name`, in the order they were
/// added; none when none were.
pub open spec fn loaded(e: MockEngine, name: Seq<char>) -> Seq<Symbol> {
    match find_file(e.registry@, name) {
        Some(i) => e.registry@[i].1@,
        None => Seq::empty(),
    }
}

/// Adding a symbol for a file name puts it after the symbols already
/// loaded for that name; the lists of the other names and the engine's
/// name stay as they were. `after` is what `add_symbol(filename, symbol)`
/// made of `before`.
pub proof fn law_mock_add_then_get(before: MockEngine, after: MockEngine, filename: Seq<char>, symbol: Symbol)
    requires
        after.name == before.name,
        match find_file(before.registry@, filename) {
            Some(i) => after.registry@.len() == before.registry@.len() && after.registry@[i].0@
                == filename && after.registry@[i].1@ == before.registry@[i].1@.push(symbol) && forall|
                j: int,
            |
                0 <= j < before.registry@.len() && j != i ==> #[trigger] after.registry@[j]
                    == before.registry@[j],
            None => after.registry@.len() == before.registry@.len() + 1 && after.registry@.last().0@
                == filename && after.registry@.last().1@ == seq![symbol] && forall|j: int|
                0 <= j < before.registry@.len() ==> #[trigger] after.registry@[j]
                    == before.registry@[j],
        },
    ensures
        loaded(after, filename) == loaded(before, filename).push(symbol),
        forall|g: Seq<char>| g != filename ==> #[trigger] loaded(after, g) == loaded(before, g),
        after.name == before.name,
{
    let r0 = before.registry@;
    let r1 = after.registry@;
    lemma_find_file_props(r0, filename);
    match find_file(r0, filename) {
        Some(i) => {
            assert forall|j: int| 0 <= j < i implies #[trigger] r1[j].0@ != filename by {
                assert(r1[j] == r0[j]);
            }
            lemma_find_file(r1, filename, i);
        },
        None => {
            let l = r0.len() as int;
            assert(r1[l] == r1.last());
            assert forall|j: int| 0 <= j < l implies #[trigger] r1[j].0@ != filename by {
                assert(r1[j] == r0[j]);
            }
            lemma_find_file(r1, filename, l);
            assert(Seq::<Symbol>::empty().push(symbol) =~= seq![symbol]);
        },
    }
    assert forall|g: Seq<char>| g != filename implies #[trigger] loaded(after, g) == loaded(before, g) by {
        lemma_find_file_props(r0, g);
        assert forall|j: int| 0 <= j < r0.len() implies (#[trigger] r1[j]).0@ == r0[j].0@ by {
            match find_file(r0, filename) {
                Some(i) => {
                    if j != i {
                        assert(r1[j] == r0[j]);
                    }
                },
                None => {
                    assert(r1[j] == r0[j]);
                },
            }
        }
        match find_file(r0, g) {
            Some(k) => {
                assert forall|j: int| 0 <= j < k implies #[trigger] r1[j].0@ != g by {
                    assert(r0[j].0@ != g);
                }
                lemma_find_file(r1, g, k);
                match find_file(r0, filename) {
                    Some(i) => {
                        assert(k != i);
                        assert(r1[k] == r0[k]);
                    },
                    None => {
                        assert(r1[k] == r0[k]);
                    },
                }
            },
            None => {
                assert forall|j: int| 0 <= j < r1.len() implies #[trigger] r1[j].0@ != g by {
                    if j < r0.len() {
                        assert(r0[j].0@ != g);
                    } else {
                        assert(r1[j] == r1.last());
                    }
                }
                lemma_find_file_none(r1, g);
            },
        }
    }
}

/// What the position of the first list for a name tells: the list there
/// is for that name and none before it is; with no position, no list is.
proof fn lemma_find_file_props(r: Seq<(String, Vec<Symbol>)>, filename: Seq<char>)
    ensures
        match find_file(r, filename) {
            Some(i) => 0 <= i < r.len() && r[i].0@ == filename && forall|j: int|
                0 <= j < i ==> #[trigger] r[j].0@ != filename,
            None => forall|j: int| 0 <= j < r.len() ==> #[trigger] r[j].0@ != filename,
        },
{
    if exists|i: int| 0 <= i < r.len() && #[trigger] r[i].0@ == filename {
        let w = choose|i: int| 0 <= i < r.len() && #[trigger] r[i].0@ == filename;
        lemma_first_exists(r, filename, w);
    }
}

/// Where some list is for `filename`, a first one is.
proof fn lemma_first_exists(r: Seq<(String, Vec<Symbol>)>, filename: Seq<char>, w: int)
    requires
        0 <= w < r.len(),
        r[w].0@ == filename,
    ensures
        exists|i: int|
            0 <= i < r.len() && #[trigger] r[i].0@ == filename && forall|j: int|
                0 <= j < i ==> #[trigger] r[j].0@ != filename,
    decreases w,
{
    if exists|j: int| 0 <= j < w && #[trigger] r[j].0@ == filename {
        let j = choose|j: int| 0 <= j < w && #[trigger] r[j].0@ == filename;
        lemma_first_exists(r, filename, j);
    } else {
        assert(forall|j: int| 0 <= j < w ==> #[trigger] r[j].0@ != filename);
    }
}

/// The table and warnings after adding `batches` in order, each batch of
/// symbols with its own warning text.
pub open spec fn add_batches(
    table: Map<(Seq<char>, Seq<char>), Symbol>,
    warnings: Seq<Seq<char>>,
    batches: Seq<(Seq<Symbol>, spec_fn(Symbol) -> Seq<char>)>,
) -> (Map<(Seq<char>, Seq<char>), Symbol>, Seq<Seq<char>>)
    decreases batches.len(),
{
    if batches.len() == 0 {
        (table, warnings)
    } else {
        let prev = add_batches(table, warnings, batches.drop_last());
        add_spec(prev.0, prev.1, batches.last().0, batches.last().1)
    }
}

/// The symbols of `batches`, one batch after another.
pub open spec fn batch_symbols(batches: Seq<(Seq<Symbol>, spec_fn(Symbol) -> Seq<char>)>) -> Seq<
    Symbol,
>
    decreases batches.len(),
{
    if batches.len() == 0 {
        Seq::empty()
    } else {
        batch_symbols(batches.drop_last()) + batches.last().0
    }
}

/// After several batches of insertions, looking up an identity finds the
/// symbol inserted last with it, over all batches; an identity none of
/// them has keeps what the table held (nothing, after a reset). Another
/// origin with the same name is another identity.
pub proof fn law_lookup_after_batches(
    table: Map<(Seq<char>, Seq<char>), Symbol>,
    warnings: Seq<Seq<char>>,
    batches: Seq<(Seq<Symbol>, spec_fn(Symbol) -> Seq<char>)>,
    k: (Seq<char>, Seq<char>),
)
    ensures
        ({
            let end = add_batches(table, warnings, batches).0;
            let all = batch_symbols(batches);
            match last_keyed(all, k) {
                Some(i) => end.contains_key(k) && end[k] == all[i],
                None => end.contains_key(k) == table.contains_key(k) && (table.contains_key(k)
                    ==> end[k] == table[k]),
            }
        }),
    decreases batches.len(),
{
    if batches.len() > 0 {
        let d = batches.drop_last();
        law_lookup_after_batches(table, warnings, d, k);
        let prev = add_batches(table, warnings, d);
        law_lookup_after_add(prev.0, prev.1, batches.last().0, batches.last().1, k);
        lemma_last_keyed_concat(batch_symbols(d), batches.last().0, k);
        lemma_last_keyed(batches.last().0, k);
        match last_keyed(batches.last().0, k) {
            Some(j) => {
                assert(batch_symbols(batches)[batch_symbols(d).len() + j] == batches.last().0[j]);
            },
            None => {
                match last_keyed(batch_symbols(d), k) {
                    Some(i) => {
                        lemma_last_keyed(batch_symbols(d), k);
                        assert(batch_symbols(batches)[i] == batch_symbols(d)[i]);
                    },
                    None => {},
                }
            },
        }
    }
}

/// The last symbol with identity `k` in `a` then `b`: the last in `b` if
/// `b` has one, else the last in `a`.
proof fn lemma_last_keyed_concat(a: Seq<Symbol>, b: Seq<Symbol>, k: (Seq<char>, Seq<char>))
    ensures
        last_keyed(a + b, k) == match last_keyed(b, k) {
            Some(j) => Some(a.len() + j),
            None => last_keyed(a, k),
        },
    decreases b.len(),
{
    if b.len() == 0 {
        assert(a + b =~= a);
    } else {
        assert((a + b).drop_last() =~= a + b.drop_last());
        assert((a + b).last() == b.last());
        lemma_last_keyed_concat(a, b.drop_last(), k);
    }
}

/// The position of the first list for `filename`.
pub open spec fn find_file(r: Seq<(String, Vec<Symbol>)>, filename: Seq<char>) -> Option<int> {
    if exists|i: int| 0 <= i < r.len() && #[trigger] r[i].0@ == filename {
        Some(
            choose|i: int|
                0 <= i < r.len() && #[trigger] r[i].0@ == filename && forall|j: int|
                    0 <= j < i ==> #[trigger] r[j].0@ != filename,
        )
    } else {
        None
    }
}

proof fn lemma_find_file(r: Seq<(String, Vec<Symbol>)>, filename: Seq<char>, i: int)
    requires
        0 <= i < r.len(),
        r[i].0@ == filename,
        forall|j: int| 0 <= j < i ==> #[trigger] r[j].0@ != filename,
    ensures
        find_file(r, filename) == Some(i),
{
    assert(exists|c: int|
        0 <= c < r.len() && #[trigger] r[c].0@ == filename && forall|j: int|
            0 <= j < c ==> #[trigger] r[j].0@ != filename);
    let c = choose|c: int|
        0 <= c < r.len() && #[trigger] r[c].0@ == filename && forall|j: int|
            0 <= j < c ==> #[trigger] r[j].0@ != filename;
    if c < i {
        assert(r[c].0@ != filename);
    }
    if i < c {
        assert(r[i].0@ != filename);
    }
}

proof fn lemma_find_file_none(r: Seq<(String, Vec<Symbol>)>, filename: Seq<char>)
    requires
        forall|j: int| 0 <= j < r.len() ==> #[trigger] r[j].0@ != filename,
    ensures
        find_file(r, filename) is None,
{
}

} // verus!
