//! Language engines ("utters"): what each may touch, how it turns a file
//! into IR, and which symbols it finds in a file's text.
use crate::bundle::{GenericHandler, RenderTarget, IR};
use crate::registry::{opt_view, FileMeta, FileStack, Registry};
use crate::symbol::{
    add_spec, key_of, last_keyed, law_lookup_after_add, pair_views, plainly_redefined, redefined_by, warning_views, Notice, Symbol, SymbolKind,
    SymbolRegistry,
};
use vstd::prelude::*;
use vstd::string::*;

verus! {

/// What a language engine may touch.
#[derive(Clone, Copy, Debug, PartialEq, Eq, Structural)]
pub struct UtterFlags {
    pub browser_dom: bool,
    pub allow_network: bool,
    pub fs_access: bool,
    pub db_access: bool,
}

/// Flags that allow nothing.
pub open spec fn no_flags() -> UtterFlags {
    UtterFlags { browser_dom: false, allow_network: false, fs_access: false, db_access: false }
}

impl Default for UtterFlags {
    fn default() -> (r: Self)
        ensures
            r == no_flags(),
    {
        UtterFlags { browser_dom: false, allow_network: false, fs_access: false, db_access: false }
    }
}

/// How an engine turns a file into IR: as its source text, raw, or as an
/// empty structured IR.
#[derive(Clone, Copy, Debug, PartialEq, Eq, Structural)]
pub enum IrSource {
    Empty,
    SourceText,
}

/// The definition of a language engine.
pub struct LanguageConfig {
    pub name: String,
    pub flags: UtterFlags,
    pub symbol_patterns: Vec<(String, SymbolKind)>,
    pub to_ir: IrSource,
}

impl Default for LanguageConfig {
    fn default() -> (r: Self)
        ensures
            r.name@.len() == 0,
            r.flags == no_flags(),
            r.symbol_patterns@.len() == 0,
            r.to_ir == IrSource::Empty,
    {
        LanguageConfig {
            name: String::new(),
            flags: UtterFlags::default(),
            symbol_patterns: Vec::new(),
            to_ir: IrSource::Empty,
        }
    }
}

/// The patterns of a definition as values.
pub open spec fn pattern_views(v: Seq<(String, SymbolKind)>) -> Seq<(Seq<char>, SymbolKind)> {
    v.map_values(|e: (String, SymbolKind)| (e.0@, e.1))
}

/// A language engine made from its definition.
pub struct GenericUtter {
    pub name: String,
    pub config: LanguageConfig,
}

/// What the regex crate finds for each match of `pattern` in `text`: the
/// text of its first group, if that group took part; `None` when `pattern`
/// does not compile.
pub uninterp spec fn regex_group_one(pattern: Seq<char>, text: Seq<char>) -> Option<
    Seq<Option<Seq<char>>>,
>;

/// The values of a list of optional strings.
pub open spec fn opt_views(v: Seq<Option<String>>) -> Seq<Option<Seq<char>>> {
    v.map_values(|o: Option<String>| opt_view(o))
}

/// `regex::Regex::new(pattern)` and, when it compiles, the first group of
/// each item of `captures_iter(text)`, in order. The contract names the
/// result and says nothing more of it.
#[verifier::external_body]
fn capture_group_one(pattern: &str, text: &str) -> (r: Option<Vec<Option<String>>>)
    ensures
        match r {
            Some(v) => regex_group_one(pattern@, text@) == Some(opt_views(v@)),
            None => regex_group_one(pattern@, text@) is None,
        },
{
    match regex::Regex::new(pattern) {
        Ok(re) => Some(
            re.captures_iter(text).map(|c| c.get(1).map(|m| m.as_str().to_string())).collect(),
        ),
        Err(_) => None,
    }
}

/// The groups that took part, in order.
pub open spec fn hits(g: Seq<Option<Seq<char>>>) -> Seq<Seq<char>>
    decreases g.len(),
{
    if g.len() == 0 {
        Seq::empty()
    } else {
        let h = hits(g.drop_last());
        match g.last() {
            Some(n) => h.push(n),
            None => h,
        }
    }
}

/// The names found by each pattern in turn, with the kind of the pattern
/// that found them; a pattern that does not compile finds nothing.
pub open spec fn exported_names(pats: Seq<(Seq<char>, SymbolKind)>, text: Seq<char>) -> Seq<
    (Seq<char>, SymbolKind),
>
    decreases pats.len(),
{
    if pats.len() == 0 {
        Seq::empty()
    } else {
        let prev = exported_names(pats.drop_last(), text);
        let kind = pats.last().1;
        match regex_group_one(pats.last().0, text) {
            Some(g) => prev + hits(g).map_values(|n: Seq<char>| (n, kind)),
            None => prev,
        }
    }
}

/// `s` is the symbol `name` of `kind` found in `file` by `origin`, with no
/// value and no metadata.
pub open spec fn found_symbol(
    s: Symbol,
    name: Seq<char>,
    kind: SymbolKind,
    file: FileMeta,
    origin: Seq<char>,
) -> bool {
    &&& s.name@ == name
    &&& s.kind == kind
    &&& s.value@.len() == 0
    &&& s.file.same_as(file)
    &&& s.origin@ == origin
    &&& s.metadata@.len() == 0
}

/// `r` holds, in order, the symbols of `names` found in `file` by `origin`.
pub open spec fn found_all(
    r: Seq<Symbol>,
    names: Seq<(Seq<char>, SymbolKind)>,
    file: FileMeta,
    origin: Seq<char>,
) -> bool {
    &&& r.len() == names.len()
    &&& forall|i: int|
        0 <= i < r.len() ==> found_symbol(#[trigger] r[i], names[i].0, names[i].1, file, origin)
}

impl GenericUtter {
    pub fn new(config: LanguageConfig) -> (r: Self)
        ensures
            r.name@ == config.name@,
            r.config == config,
    {
        let name = config.name.clone();
        Self { name, config }
    }

    pub fn name(&self) -> (r: &str)
        ensures
            r@ == self.name@,
    {
        self.name.as_str()
    }

    pub fn flags(&self) -> (r: UtterFlags)
        ensures
            r == self.config.flags,
    {
        self.config.flags
    }

    /// Whether two engines have the same name.
    pub fn equals(&self, other: &GenericUtter) -> (r: bool)
        ensures
            r == (self.name@ == other.name@),
    {
        crate::text::str_eq(self.name.as_str(), other.name.as_str())
    }

    /// Engines leave output text as it is.
    pub fn optimize(&self, content: String, minify: bool, remove_comments: bool) -> (r: String)
        ensures
            r == content,
    {
        content
    }

    /// The IR of a file: its source text, raw, for an engine that reads
    /// it (an error reading it is returned as it is), else an empty
    /// structured IR. `source` is what reading the file's text gave.
    pub fn to_ir(&self, metadata: &FileMeta, source: &Result<String, String>) -> (r: Result<
        IR,
        String,
    >)
        ensures
            match self.config.to_ir {
                IrSource::SourceText => match (source, r) {
                    (Ok(text), Ok(IR::Raw(t))) => t@ == text@,
                    (Err(e), Err(m)) => m@ == e@,
                    _ => false,
                },
                IrSource::Empty => r matches Ok(ir) && ir.is_empty_structured(),
            },
    {
        match self.config.to_ir {
            IrSource::SourceText => match source {
                Ok(text) => Ok(IR::Raw(text.clone())),
                Err(e) => Err(e.clone()),
            },
            IrSource::Empty => Ok(IR::new()),
        }
    }

    /// The symbols that the engine's patterns find in `content`, the text
    /// of `metadata`'s file: one per match whose first group took part,
    /// pattern by pattern.
    pub fn get_exported_symbols(&self, metadata: &FileMeta, content: &str) -> (r: Vec<Symbol>)
        ensures
            found_all(
                r@,
                exported_names(pattern_views(self.config.symbol_patterns@), content@),
                *metadata,
                self.name@,
            ),
    {
        let ghost pats = pattern_views(self.config.symbol_patterns@);
        let mut out: Vec<Symbol> = Vec::new();
        let n = self.config.symbol_patterns.len();
        let mut i: usize = 0;
        while i < n
            invariant
                n == self.config.symbol_patterns@.len(),
                pats == pattern_views(self.config.symbol_patterns@),
                i <= n,
                found_all(out@, exported_names(pats.subrange(0, i as int), content@), *metadata, self.name@),
            decreases n - i,
        {
            let kind = self.config.symbol_patterns[i].1;
            let ghost before = out@;
            let ghost prev = exported_names(pats.subrange(0, i as int), content@);
            proof {
                assert(pats.subrange(0, i + 1).drop_last() =~= pats.subrange(0, i as int));
                assert(pats.subrange(0, i + 1).last() == pats[i as int]);
                assert(pats[i as int] == (self.config.symbol_patterns@[i as int].0@, kind));
            }
            match capture_group_one(self.config.symbol_patterns[i].0.as_str(), content) {
                Some(groups) => {
                    let ghost g = opt_views(groups@);
                    let m = groups.len();
                    let mut j: usize = 0;
                    while j < m
                        invariant
                            m == groups@.len(),
                            g == opt_views(groups@),
                            j <= m,
                            found_all(
                                out@,
                                prev + hits(g.subrange(0, j as int)).map_values(
                                    |s: Seq<char>| (s, kind),
                                ),
                                *metadata,
                                self.name@,
                            ),
                        decreases m - j,
                    {
                        let ghost o0 = out@;
                        proof {
                            assert(g.subrange(0, j + 1).drop_last() =~= g.subrange(0, j as int));
                            assert(g.subrange(0, j + 1).last() == opt_view(groups@[j as int]));
                        }
                        match &groups[j] {
                            Some(name) => {
                                let sym = Symbol {
                                    name: name.clone(),
                                    kind,
                                    value: String::new(),
                                    file: metadata.duplicate(),
                                    origin: self.name.clone(),
                                    metadata: Vec::new(),
                                };
                                out.push(sym);
                                proof {
                                    let a = prev + hits(g.subrange(0, j as int)).map_values(
                                        |s: Seq<char>| (s, kind),
                                    );
                                    let b = prev + hits(g.subrange(0, j + 1)).map_values(
                                        |s: Seq<char>| (s, kind),
                                    );
                                    assert(b =~= a.push((name@, kind)));
                                    assert forall|k: int| 0 <= k < out@.len() implies found_symbol(
                                        #[trigger] out@[k],
                                        b[k].0,
                                        b[k].1,
                                        *metadata,
                                        self.name@,
                                    ) by {
                                        if k < o0.len() {
                                            assert(out@[k] == o0[k]);
                                            assert(b[k] == a[k]);
                                        }
                                    }
                                }
                            },
                            None => {
                                proof {
                                    assert(hits(g.subrange(0, j + 1)) =~= hits(
                                        g.subrange(0, j as int),
                                    ));
                                }
                            },
                        }
                        j = j + 1;
                    }
                    proof {
                        assert(g.subrange(0, m as int) =~= g);
                    }
                },
                None => {},
            }
            i = i + 1;
        }
        proof {
            assert(pats.subrange(0, n as int) =~= pats);
        }
        out
    }
}

/// The JavaScript declarations: `const`, `let`, `var` or `function` and a
/// name.
pub const JS_SYMBOLS: &'static str = "(?:const|let|var|function)\\s+([a-zA-Z_]\\w*)";

/// The TypeScript declarations: those of JavaScript and `interface`,
/// `type`, `class`.
pub const TS_SYMBOLS: &'static str =
    "(?:const|let|var|function|interface|type|class)\\s+([a-zA-Z_]\\w*)";

/// A CSS class selector opening a block.
pub const CSS_SYMBOLS: &'static str = "\\.([a-zA-Z_]\\w*)\\s*\\{";

/// An HTML `id` attribute.
pub const HTML_SYMBOLS: &'static str = "id=\"([^\"]+)\"";

/// A Markdown heading.
pub const MD_SYMBOLS: &'static str = "^#+\\s+(.*)";

/// A JSON object key.
pub const JSON_SYMBOLS: &'static str = "\"([^\"]+)\"\\s*:";

/// A function of the project's own language.
pub const LOI_SYMBOLS: &'static str = "fn\\s+([a-zA-Z_]\\w*)";

/// The flags with only the given ones set.
pub open spec fn flags_of(browser_dom: bool, allow_network: bool, fs_access: bool) -> UtterFlags {
    UtterFlags { browser_dom, allow_network, fs_access, db_access: false }
}

/// The built-in language engines, in order: name, flags, symbol patterns
/// and how each makes IR.
pub open spec fn language_definitions() -> Seq<
    (Seq<char>, UtterFlags, Seq<(Seq<char>, SymbolKind)>, IrSource),
> {
    seq![
        ("identity"@, flags_of(false, false, true), Seq::empty(), IrSource::SourceText),
        ("ui"@, flags_of(true, false, false), Seq::empty(), IrSource::Empty),
        ("lib"@, flags_of(false, false, false), Seq::empty(), IrSource::Empty),
        ("js_engine"@, flags_of(true, true, false), seq![(JS_SYMBOLS@, SymbolKind::Function)], IrSource::Empty),
        ("ts_engine"@, flags_of(true, true, false), seq![(TS_SYMBOLS@, SymbolKind::Function)], IrSource::Empty),
        ("css_engine"@, flags_of(false, false, false), seq![(CSS_SYMBOLS@, SymbolKind::Style)], IrSource::Empty),
        ("html_engine"@, flags_of(true, false, false), seq![(HTML_SYMBOLS@, SymbolKind::Component)], IrSource::Empty),
        ("md_engine"@, flags_of(false, false, false), seq![(MD_SYMBOLS@, SymbolKind::Component)], IrSource::Empty),
        ("json_engine"@, flags_of(false, false, false), seq![(JSON_SYMBOLS@, SymbolKind::Component)], IrSource::Empty),
        ("loi_engine"@, flags_of(false, false, true), seq![(LOI_SYMBOLS@, SymbolKind::Function)], IrSource::Empty),
    ]
}

/// An engine as the values of its definition.
pub open spec fn utter_view(u: GenericUtter) -> (
    Seq<char>,
    UtterFlags,
    Seq<(Seq<char>, SymbolKind)>,
    IrSource,
) {
    (u.name@, u.config.flags, pattern_views(u.config.symbol_patterns@), u.config.to_ir)
}

/// An engine whose name is that of its definition.
pub open spec fn utter_ok(u: GenericUtter) -> bool {
    u.name@ == u.config.name@
}

/// An engine from its parts.
fn define(
    name: &str,
    flags: UtterFlags,
    pattern: Option<(&str, SymbolKind)>,
    to_ir: IrSource,
) -> (r: GenericUtter)
    ensures
        utter_ok(r),
        utter_view(r) == (
            name@,
            flags,
            match pattern {
                Some(p) => seq![(p.0@, p.1)],
                None => Seq::empty(),
            },
            to_ir,
        ),
{
    let mut symbol_patterns: Vec<(String, SymbolKind)> = Vec::new();
    match pattern {
        Some(p) => {
            symbol_patterns.push((String::from_str(p.0), p.1));
        },
        None => {},
    }
    proof {
        assert(pattern_views(symbol_patterns@) =~= match pattern {
            Some(p) => seq![(p.0@, p.1)],
            None => Seq::empty(),
        });
    }
    GenericUtter::new(LanguageConfig { name: String::from_str(name), flags, symbol_patterns, to_ir })
}

/// The built-in language engines.
pub fn get_language_definitions() -> (r: Vec<GenericUtter>)
    ensures
        r@.len() == language_definitions().len(),
        forall|i: int|
            0 <= i < r@.len() ==> utter_ok(#[trigger] r@[i]) && utter_view(r@[i])
                == language_definitions()[i],
{
    let mut v: Vec<GenericUtter> = Vec::new();
    v.push(define("identity", UtterFlags { browser_dom: false, allow_network: false, fs_access: true, db_access: false }, None, IrSource::SourceText));
    v.push(define("ui", UtterFlags { browser_dom: true, allow_network: false, fs_access: false, db_access: false }, None, IrSource::Empty));
    v.push(define("lib", UtterFlags::default(), None, IrSource::Empty));
    v.push(define("js_engine", UtterFlags { browser_dom: true, allow_network: true, fs_access: false, db_access: false }, Some((JS_SYMBOLS, SymbolKind::Function)), IrSource::Empty));
    v.push(define("ts_engine", UtterFlags { browser_dom: true, allow_network: true, fs_access: false, db_access: false }, Some((TS_SYMBOLS, SymbolKind::Function)), IrSource::Empty));
    v.push(define("css_engine", UtterFlags::default(), Some((CSS_SYMBOLS, SymbolKind::Style)), IrSource::Empty));
    v.push(define("html_engine", UtterFlags { browser_dom: true, allow_network: false, fs_access: false, db_access: false }, Some((HTML_SYMBOLS, SymbolKind::Component)), IrSource::Empty));
    v.push(define("md_engine", UtterFlags::default(), Some((MD_SYMBOLS, SymbolKind::Component)), IrSource::Empty));
    v.push(define("json_engine", UtterFlags::default(), Some((JSON_SYMBOLS, SymbolKind::Component)), IrSource::Empty));
    v.push(define("loi_engine", UtterFlags { browser_dom: false, allow_network: false, fs_access: true, db_access: false }, Some((LOI_SYMBOLS, SymbolKind::Function)), IrSource::Empty));
    proof {
        assert forall|i: int| 0 <= i < v@.len() implies utter_ok(#[trigger] v@[i]) && utter_view(v@[i])
            == language_definitions()[i] by {}
    }
    v
}

/// The position of the last entry of `v` keyed `key`.
pub open spec fn last_with<T>(v: Seq<(String, T)>, key: Seq<char>) -> Option<int>
    decreases v.len(),
{
    if v.len() == 0 {
        None
    } else if v.last().0@ == key {
        Some(v.len() - 1)
    } else {
        last_with(v.drop_last(), key)
    }
}

/// What the last entry keyed `key` is: the one at the position found, with
/// no later entry keyed so; when none is found, no entry is keyed so.
pub proof fn lemma_last_with<T>(v: Seq<(String, T)>, key: Seq<char>)
    ensures
        match last_with(v, key) {
            Some(i) => 0 <= i < v.len() && v[i].0@ == key && forall|j: int|
                i < j < v.len() ==> (#[trigger] v[j]).0@ != key,
            None => forall|j: int| 0 <= j < v.len() ==> (#[trigger] v[j]).0@ != key,
        },
    decreases v.len(),
{
    if v.len() > 0 {
        let u = v.drop_last();
        lemma_last_with(u, key);
        if v.last().0@ != key {
            assert(last_with(v, key) == last_with(u, key));
            match last_with(u, key) {
                Some(i) => {
                    assert(v[i] == u[i]);
                    assert forall|j: int| i < j < v.len() implies (#[trigger] v[j]).0@ != key by {
                        if j < v.len() - 1 {
                            assert(v[j] == u[j]);
                        }
                    }
                },
                None => {
                    assert forall|j: int| 0 <= j < v.len() implies (#[trigger] v[j]).0@ != key by {
                        if j < v.len() - 1 {
                            assert(v[j] == u[j]);
                        }
                    }
                },
            }
        }
    }
}

/// The position of the last entry of `v` keyed `key`: later entries
/// override earlier ones, as later inserts into a map do.
pub fn find_last<T>(v: &Vec<(String, T)>, key: &str) -> (r: Option<usize>)
    ensures
        match r {
            Some(i) => last_with(v@, key@) == Some(i as int) && i < v@.len(),
            None => last_with(v@, key@) is None,
        },
{
    let n = v.len();
    let mut i: usize = n;
    proof {
        assert(v@.subrange(0, n as int) =~= v@);
    }
    while i > 0
        invariant
            n == v@.len(),
            i <= n,
            last_with(v@.subrange(0, i as int), key@) == last_with(v@, key@),
        decreases i,
    {
        proof {
            assert(v@.subrange(0, i as int).drop_last() =~= v@.subrange(0, i - 1));
            assert(v@.subrange(0, i as int).last() == v@[i - 1]);
        }
        if crate::text::str_eq(v[i - 1].0.as_str(), key) {
            return Some(i - 1);
        }
        i = i - 1;
    }
    None
}

/// The handlers as keys and targets.
pub open spec fn handler_views(v: Seq<(String, GenericHandler)>) -> Seq<(Seq<char>, RenderTarget)> {
    v.map_values(|e: (String, GenericHandler)| (e.0@, e.1.target))
}

/// The built-in handlers: extension and target.
pub open spec fn default_handlers() -> Seq<(Seq<char>, RenderTarget)> {
    seq![
        ("loi"@, RenderTarget::Loi),
        ("html"@, RenderTarget::Html),
        ("css"@, RenderTarget::Css),
        ("js"@, RenderTarget::Js),
        ("ts"@, RenderTarget::Js),
    ]
}

/// The language engines by capability, and the output handlers by file
/// extension; a later entry with a key overrides an earlier one.
pub struct UtterRegistry {
    pub utters: Vec<(String, GenericUtter)>,
    pub handlers: Vec<(String, GenericHandler)>,
}

/// Whether two engine lists hold engines of the same names under the same
/// keys, each key taken by its last entry.
pub open spec fn same_engines(a: Seq<(String, GenericUtter)>, b: Seq<(String, GenericUtter)>) -> bool {
    forall|k: Seq<char>|
        #![trigger last_with(a, k)]
        #![trigger last_with(b, k)]
        (last_with(a, k) is Some <==> last_with(b, k) is Some) && (last_with(a, k) is Some
            ==> a[last_with(a, k).unwrap()].1.name@ == b[last_with(b, k).unwrap()].1.name@)
}

impl PartialEq for UtterRegistry {
    /// Two registries are equal when they hold engines of the same names
    /// under the same keys; handlers are not compared.
    fn eq(&self, other: &Self) -> (r: bool) {
        let a = &self.utters;
        let b = &other.utters;
        let n = a.len();
        let mut i: usize = 0;
        while i < n
            invariant
                n == a@.len(),
                a == &self.utters,
                b == &other.utters,
                i <= n,
                forall|m: int|
                    0 <= m < i ==> #[trigger] last_with(b@, a@[m].0@) is Some
                        && a@[last_with(a@, a@[m].0@).unwrap()].1.name@ == b@[last_with(
                        b@,
                        a@[m].0@,
                    ).unwrap()].1.name@,
            decreases n - i,
        {
            let ka = find_last(a, a[i].0.as_str());
            let kb = find_last(b, a[i].0.as_str());
            match (ka, kb) {
                (Some(x), Some(y)) => {
                    if !a[x].1.equals(&b[y].1) {
                        return false;
                    }
                },
                _ => {
                    proof {
                        lemma_last_with_from_any(a@, a@[i as int].0@, i as int);
                    }
                    return false;
                },
            }
            i = i + 1;
        }
        let nb = b.len();
        let mut j: usize = 0;
        while j < nb
            invariant
                nb == b@.len(),
                a == &self.utters,
                b == &other.utters,
                j <= nb,
                forall|m: int| 0 <= m < j ==> #[trigger] last_with(a@, b@[m].0@) is Some,
            decreases nb - j,
        {
            if find_last(a, b[j].0.as_str()).is_none() {
                proof {
                    lemma_last_with_from_any(b@, b@[j as int].0@, j as int);
                }
                return false;
            }
            j = j + 1;
        }
        proof {
            assert forall|k: Seq<char>| #![trigger last_with(a@, k)] #![trigger last_with(b@, k)]
                (last_with(a@, k) is Some <==> last_with(b@, k) is Some) && (last_with(a@, k) is Some
                    ==> a@[last_with(a@, k).unwrap()].1.name@ == b@[last_with(b@, k).unwrap()].1.name@) by {
                lemma_last_with(a@, k);
                lemma_last_with(b@, k);
                if let Some(x) = last_with(a@, k) {
                    assert(a@[x].0@ == k);
                    assert(last_with(b@, a@[x].0@) is Some);
                }
                if let Some(y) = last_with(b@, k) {
                    assert(b@[y].0@ == k);
                    assert(last_with(a@, b@[y].0@) is Some);
                }
            }
        }
        true
    }
}

impl vstd::std_specs::cmp::PartialEqSpecImpl for UtterRegistry {
    open spec fn obeys_eq_spec() -> bool {
        true
    }

    open spec fn eq_spec(&self, other: &UtterRegistry) -> bool {
        same_engines(self.utters@, other.utters@)
    }
}

/// A key that some entry holds has a last entry.
proof fn lemma_last_with_from_any<T>(v: Seq<(String, T)>, key: Seq<char>, i: int)
    requires
        0 <= i < v.len(),
        v[i].0@ == key,
    ensures
        last_with(v, key) is Some,
{
    lemma_last_with(v, key);
    assert(v[i].0@ == key);
}

/// A registry of the built-in engines and handlers.
pub open spec fn builtin_utters(u: UtterRegistry) -> bool {
    &&& u.utters@.len() == language_definitions().len()
    &&& forall|i: int|
        0 <= i < u.utters@.len() ==> (#[trigger] u.utters@[i]).0@ == language_definitions()[i].0
            && utter_ok(u.utters@[i].1) && utter_view(u.utters@[i].1)
            == language_definitions()[i]
    &&& handler_views(u.handlers@) == default_handlers()
}

/// In a registry of the built-in engines, each built-in name finds its
/// own engine: the names differ, so no later entry overrides an earlier.
pub proof fn law_builtin_engine_found(u: UtterRegistry, i: int)
    requires
        builtin_utters(u),
        0 <= i < language_definitions().len(),
    ensures
        last_with(u.utters@, language_definitions()[i].0) == Some(i),
        utter_view(u.utters@[i].1) == language_definitions()[i],
{
    reveal_strlit("identity");
    reveal_strlit("ui");
    reveal_strlit("lib");
    reveal_strlit("js_engine");
    reveal_strlit("ts_engine");
    reveal_strlit("css_engine");
    reveal_strlit("html_engine");
    reveal_strlit("md_engine");
    reveal_strlit("json_engine");
    reveal_strlit("loi_engine");
    let defs = language_definitions();
    let v = u.utters@;
    let names = seq![
        "identity"@, "ui"@, "lib"@, "js_engine"@, "ts_engine"@, "css_engine"@, "html_engine"@,
        "md_engine"@, "json_engine"@, "loi_engine"@,
    ];
    assert(names.len() == 10);
    assert forall|k: int| 0 <= k < 10 implies #[trigger] defs[k].0 == names[k] by {}
    let lens = seq![8nat, 2nat, 3nat, 9nat, 9nat, 10nat, 11nat, 9nat, 11nat, 10nat];
    let firsts = seq!['i', 'u', 'l', 'j', 't', 'c', 'h', 'm', 'j', 'l'];
    assert forall|k: int| 0 <= k < 10 implies (#[trigger] names[k]).len() == lens[k] && names[k][0] == firsts[k] by {}
    assert forall|j: int| i < j < v.len() implies (#[trigger] v[j]).0@ != defs[i].0 by {
        assert(v[j].0@ == defs[j].0);
        assert(names[j].len() != names[i].len() || names[j][0] != names[i][0]);
    }
    lemma_last_with_from(v, defs[i].0, i);
}

/// The last entry keyed `key` is at `i` when `v[i]` is keyed so and no
/// later one is.
proof fn lemma_last_with_from<T>(v: Seq<(String, T)>, key: Seq<char>, i: int)
    requires
        0 <= i < v.len(),
        v[i].0@ == key,
        forall|j: int| i < j < v.len() ==> (#[trigger] v[j]).0@ != key,
    ensures
        last_with(v, key) == Some(i),
    decreases v.len(),
{
    if i < v.len() - 1 {
        assert forall|j: int| i < j < v.drop_last().len() implies (#[trigger] v.drop_last()[j]).0@ != key by {
            assert(v.drop_last()[j] == v[j]);
        }
        assert(v.drop_last()[i] == v[i]);
        lemma_last_with_from(v.drop_last(), key, i);
    }
}

impl UtterRegistry {
    /// The built-in engines, each under its own name, and the built-in
    /// handlers.
    pub fn new() -> (r: Self)
        ensures
            builtin_utters(r),
    {
        let definitions = get_language_definitions();
        let mut utters: Vec<(String, GenericUtter)> = Vec::new();
        let mut defs = definitions;
        let mut rev: Vec<GenericUtter> = Vec::new();
        let ghost all = defs@;
        while defs.len() > 0
            invariant
                all == defs@ + rev@.reverse(),
            decreases defs@.len(),
        {
            let ghost d0 = defs@;
            let ghost r0 = rev@;
            let u = defs.pop().unwrap();
            rev.push(u);
            proof {
                assert(d0 =~= defs@.push(u));
                assert(rev@.reverse() =~= seq![u] + r0.reverse());
                assert(all =~= defs@ + rev@.reverse());
            }
        }
        proof {
            assert(all =~= rev@.reverse());
        }
        while rev.len() > 0
            invariant
                all.len() == language_definitions().len(),
                forall|i: int|
                    0 <= i < all.len() ==> utter_ok(#[trigger] all[i]) && utter_view(all[i])
                        == language_definitions()[i],
                rev@.len() <= all.len(),
                utters@.len() == all.len() - rev@.len(),
                all == all.subrange(0, utters@.len() as int) + rev@.reverse(),
                forall|i: int|
                    0 <= i < utters@.len() ==> (#[trigger] utters@[i]).0@ == all[i].name@
                        && utters@[i].1 == all[i],
            decreases rev@.len(),
        {
            let ghost k: int = utters@.len() as int;
            let ghost r0 = rev@;
            let u = rev.pop().unwrap();
            proof {
                assert(r0.reverse() =~= seq![u] + rev@.reverse());
                assert(all[k] == u) by {
                    assert(all[k] == (all.subrange(0, k) + r0.reverse())[k]);
                }
                assert(all =~= all.subrange(0, k + 1) + rev@.reverse());
            }
            let key = u.name.clone();
            utters.push((key, u));
        }
        let mut handlers: Vec<(String, GenericHandler)> = Vec::new();
        handlers.push((String::from_str("loi"), GenericHandler { target: RenderTarget::Loi }));
        handlers.push((String::from_str("html"), GenericHandler { target: RenderTarget::Html }));
        handlers.push((String::from_str("css"), GenericHandler { target: RenderTarget::Css }));
        handlers.push((String::from_str("js"), GenericHandler { target: RenderTarget::Js }));
        handlers.push((String::from_str("ts"), GenericHandler { target: RenderTarget::Js }));
        proof {
            assert(handler_views(handlers@) =~= default_handlers());
        }
        UtterRegistry { utters, handlers }
    }

    /// The engine for a capability.
    pub fn get_utter(&self, capability: &str) -> (r: Option<&GenericUtter>)
        ensures
            match last_with(self.utters@, capability@) {
                Some(i) => r matches Some(u) && *u == self.utters@[i].1,
                None => r is None,
            },
    {
        match find_last(&self.utters, capability) {
            Some(i) => Some(&self.utters[i].1),
            None => None,
        }
    }

    /// The handler for a file extension.
    pub fn get_handler(&self, ext: &str) -> (r: Option<&GenericHandler>)
        ensures
            match last_with(self.handlers@, ext@) {
                Some(i) => r matches Some(h) && *h == self.handlers@[i].1,
                None => r is None,
            },
    {
        match find_last(&self.handlers, ext) {
            Some(i) => Some(&self.handlers[i].1),
            None => None,
        }
    }
}

/// The text of the file at `path` among `sources` (the last entry for
/// it); empty when it is not there, as an unreadable file reads.
pub open spec fn source_text(sources: Seq<(String, String)>, path: Seq<char>) -> Seq<char> {
    match last_with(sources, path) {
        Some(i) => sources[i].1@,
        None => Seq::empty(),
    }
}

/// The text of the file at `path` among `sources`.
pub fn source_of<'a>(sources: &'a Vec<(String, String)>, path: &str) -> (r: &'a str)
    ensures
        r@ == source_text(sources@, path@),
{
    proof {
        reveal_strlit("");
        assert(""@ =~= Seq::<char>::empty());
    }
    match find_last(sources, path) {
        Some(i) => sources[i].1.as_str(),
        None => "",
    }
}

/// The engine that a stack's current file names by its capability, if
/// there is one.
pub open spec fn engine_of(stack: FileStack, engines: Seq<(String, GenericUtter)>) -> Option<
    GenericUtter,
> {
    match opt_view(stack.active_file.utter) {
        None => None,
        Some(cap) => match last_with(engines, cap) {
            Some(i) => Some(engines[i].1),
            None => None,
        },
    }
}

/// The warnings of a build over a stack: naming its current file, or
/// plain.
pub open spec fn stack_note(stack: FileStack, by_file: bool) -> spec_fn(Symbol) -> Seq<char> {
    if by_file {
        redefined_by(stack.active_file.filename@)
    } else {
        plainly_redefined()
    }
}

/// `(t1, w1)` is `(t, w)` with the symbols that engine `u` finds in the
/// current file of `stack`, whose text is `text`, added.
pub open spec fn adds_found(
    t: Map<(Seq<char>, Seq<char>), Symbol>,
    w: Seq<Seq<char>>,
    stack: FileStack,
    u: GenericUtter,
    text: Seq<char>,
    note: spec_fn(Symbol) -> Seq<char>,
    t1: Map<(Seq<char>, Seq<char>), Symbol>,
    w1: Seq<Seq<char>>,
) -> bool {
    exists|syms: Seq<Symbol>|
        found_all(
            syms,
            exported_names(pattern_views(u.config.symbol_patterns@), text),
            stack.active_file,
            u.name@,
        ) && #[trigger] add_spec(t, w, syms, note) == (t1, w1)
}

/// One stack of a build: the symbols its engine finds in its current file
/// are added; a stack without an engine changes nothing.
pub open spec fn build_step_spec(
    t: Map<(Seq<char>, Seq<char>), Symbol>,
    w: Seq<Seq<char>>,
    stack: FileStack,
    engines: Seq<(String, GenericUtter)>,
    sources: Seq<(String, String)>,
    by_file: bool,
    t1: Map<(Seq<char>, Seq<char>), Symbol>,
    w1: Seq<Seq<char>>,
) -> bool {
    match engine_of(stack, engines) {
        None => t1 == t && w1 == w,
        Some(u) => adds_found(
            t,
            w,
            stack,
            u,
            source_text(sources, stack.active_file.path@),
            stack_note(stack, by_file),
            t1,
            w1,
        ),
    }
}

/// `states` is the course of a build over `stacks` from `(t0, w0)`: one
/// state before each stack and one after the last, each step a build step.
pub open spec fn build_trace(
    states: Seq<(Map<(Seq<char>, Seq<char>), Symbol>, Seq<Seq<char>>)>,
    t0: Map<(Seq<char>, Seq<char>), Symbol>,
    w0: Seq<Seq<char>>,
    stacks: Seq<FileStack>,
    engines: Seq<(String, GenericUtter)>,
    sources: Seq<(String, String)>,
    by_file: bool,
) -> bool {
    &&& states.len() == stacks.len() + 1
    &&& states[0] == (t0, w0)
    &&& forall|i: int|
        0 <= i < stacks.len() ==> #[trigger] build_step_spec(
            states[i].0,
            states[i].1,
            stacks[i],
            engines,
            sources,
            by_file,
            states[i + 1].0,
            states[i + 1].1,
        )
}

/// `(t1, w1)` is what building over `stacks` in order makes of `(t0, w0)`.
pub open spec fn builds(
    t0: Map<(Seq<char>, Seq<char>), Symbol>,
    w0: Seq<Seq<char>>,
    stacks: Seq<FileStack>,
    engines: Seq<(String, GenericUtter)>,
    sources: Seq<(String, String)>,
    by_file: bool,
    t1: Map<(Seq<char>, Seq<char>), Symbol>,
    w1: Seq<Seq<char>>,
) -> bool {
    exists|states: Seq<(Map<(Seq<char>, Seq<char>), Symbol>, Seq<Seq<char>>)>|
        #[trigger] build_trace(states, t0, w0, stacks, engines, sources, by_file)
            && states.last() == (t1, w1)
}

/// Two tables hold the same identities, each with symbols of the same
/// values.
pub open spec fn same_table(
    a: Map<(Seq<char>, Seq<char>), Symbol>,
    b: Map<(Seq<char>, Seq<char>), Symbol>,
) -> bool {
    &&& a.dom() == b.dom()
    &&& forall|k: (Seq<char>, Seq<char>)| #[trigger] a.contains_key(k) ==> a[k].same_as(b[k])
}

/// Adding symbols of the same values, in the same order, to tables of the
/// same values with the same warnings gives tables of the same values and
/// the same warnings.
proof fn lemma_add_same(
    t1: Map<(Seq<char>, Seq<char>), Symbol>,
    t2: Map<(Seq<char>, Seq<char>), Symbol>,
    w: Seq<Seq<char>>,
    a: Seq<Symbol>,
    b: Seq<Symbol>,
    note: spec_fn(Symbol) -> Seq<char>,
)
    requires
        same_table(t1, t2),
        a.len() == b.len(),
        forall|i: int| 0 <= i < a.len() ==> (#[trigger] a[i]).same_as(b[i]),
        forall|x: Symbol, y: Symbol| #[trigger] x.same_as(y) ==> note(x) == note(y),
    ensures
        same_table(add_spec(t1, w, a, note).0, add_spec(t2, w, b, note).0),
        add_spec(t1, w, a, note).1 == add_spec(t2, w, b, note).1,
    decreases a.len(),
{
    if a.len() > 0 {
        let a2 = a.drop_last();
        let b2 = b.drop_last();
        assert forall|i: int| 0 <= i < a2.len() implies (#[trigger] a2[i]).same_as(b2[i]) by {
            assert(a2[i] == a[i]);
            assert(b2[i] == b[i]);
        }
        lemma_add_same(t1, t2, w, a2, b2, note);
        let p1 = add_spec(t1, w, a2, note);
        let p2 = add_spec(t2, w, b2, note);
        let x = a.last();
        let y = b.last();
        assert(x.same_as(y)) by {
            assert(a[a.len() - 1].same_as(b[a.len() - 1]));
        }
        assert(key_of(x) == key_of(y));
        assert(note(x) == note(y));
        assert(p1.0.contains_key(key_of(x)) == p2.0.contains_key(key_of(x)));
        let r1 = p1.0.insert(key_of(x), x);
        let r2 = p2.0.insert(key_of(y), y);
        assert(r1.dom() =~= r2.dom());
        assert forall|k: (Seq<char>, Seq<char>)| #[trigger] r1.contains_key(k) implies r1[k].same_as(r2[k]) by {
            if k != key_of(x) {
                assert(p1.0.contains_key(k));
            }
        }
    }
}

/// Symbols found for the same names, in the same file, by the same engine
/// hold the same values, position by position.
proof fn lemma_found_same(
    a: Seq<Symbol>,
    b: Seq<Symbol>,
    names: Seq<(Seq<char>, SymbolKind)>,
    file: FileMeta,
    origin: Seq<char>,
)
    requires
        found_all(a, names, file, origin),
        found_all(b, names, file, origin),
    ensures
        a.len() == b.len(),
        forall|i: int| 0 <= i < a.len() ==> (#[trigger] a[i]).same_as(b[i]),
{
    assert forall|i: int| 0 <= i < a.len() implies (#[trigger] a[i]).same_as(b[i]) by {
        assert(found_symbol(a[i], names[i].0, names[i].1, file, origin));
        assert(found_symbol(b[i], names[i].0, names[i].1, file, origin));
        assert(pair_views(a[i].metadata@) =~= pair_views(b[i].metadata@));
        assert(a[i].value@ =~= b[i].value@);
    }
}

/// A note tells symbols of the same values alike.
proof fn lemma_note_same(stack: FileStack, by_file: bool)
    ensures
        forall|x: Symbol, y: Symbol| #[trigger] x.same_as(y) ==> stack_note(stack, by_file)(x)
            == stack_note(stack, by_file)(y),
{
}

/// Building over the same stacks, with the same engines and texts, from
/// tables of the same values and the same warnings, gives tables of the
/// same values and the same warnings: a second build right after a first
/// one, which starts again from an empty table, ends where the first did.
pub proof fn law_build_again_same(
    t0: Map<(Seq<char>, Seq<char>), Symbol>,
    u0: Map<(Seq<char>, Seq<char>), Symbol>,
    w0: Seq<Seq<char>>,
    stacks: Seq<FileStack>,
    engines: Seq<(String, GenericUtter)>,
    sources: Seq<(String, String)>,
    by_file: bool,
    t1: Map<(Seq<char>, Seq<char>), Symbol>,
    w1: Seq<Seq<char>>,
    t2: Map<(Seq<char>, Seq<char>), Symbol>,
    w2: Seq<Seq<char>>,
)
    requires
        same_table(t0, u0),
        builds(t0, w0, stacks, engines, sources, by_file, t1, w1),
        builds(u0, w0, stacks, engines, sources, by_file, t2, w2),
    ensures
        same_table(t1, t2),
        w1 == w2,
{
    let s1 = choose|states: Seq<(Map<(Seq<char>, Seq<char>), Symbol>, Seq<Seq<char>>)>|
        #[trigger] build_trace(states, t0, w0, stacks, engines, sources, by_file) && states.last()
            == (t1, w1);
    let s2 = choose|states: Seq<(Map<(Seq<char>, Seq<char>), Symbol>, Seq<Seq<char>>)>|
        #[trigger] build_trace(states, u0, w0, stacks, engines, sources, by_file) && states.last()
            == (t2, w2);
    lemma_traces_agree(s1, s2, t0, u0, w0, stacks, engines, sources, by_file, stacks.len() as int);
}

/// Two courses of a build from tables of the same values agree, state by
/// state, up to the values of the symbols held.
proof fn lemma_traces_agree(
    s1: Seq<(Map<(Seq<char>, Seq<char>), Symbol>, Seq<Seq<char>>)>,
    s2: Seq<(Map<(Seq<char>, Seq<char>), Symbol>, Seq<Seq<char>>)>,
    t0: Map<(Seq<char>, Seq<char>), Symbol>,
    u0: Map<(Seq<char>, Seq<char>), Symbol>,
    w0: Seq<Seq<char>>,
    stacks: Seq<FileStack>,
    engines: Seq<(String, GenericUtter)>,
    sources: Seq<(String, String)>,
    by_file: bool,
    i: int,
)
    requires
        same_table(t0, u0),
        build_trace(s1, t0, w0, stacks, engines, sources, by_file),
        build_trace(s2, u0, w0, stacks, engines, sources, by_file),
        0 <= i <= stacks.len(),
    ensures
        same_table(s1[i].0, s2[i].0),
        s1[i].1 == s2[i].1,
    decreases i,
{
    if i > 0 {
        let k = i - 1;
        lemma_traces_agree(s1, s2, t0, u0, w0, stacks, engines, sources, by_file, k);
        assert(build_step_spec(s1[k].0, s1[k].1, stacks[k], engines, sources, by_file, s1[k + 1].0, s1[k + 1].1));
        assert(build_step_spec(s2[k].0, s2[k].1, stacks[k], engines, sources, by_file, s2[k + 1].0, s2[k + 1].1));
        match engine_of(stacks[k], engines) {
            None => {},
            Some(u) => {
                let text = source_text(sources, stacks[k].active_file.path@);
                let names = exported_names(pattern_views(u.config.symbol_patterns@), text);
                let note = stack_note(stacks[k], by_file);
                let a = choose|syms: Seq<Symbol>|
                    found_all(syms, names, stacks[k].active_file, u.name@) && #[trigger] add_spec(
                        s1[k].0,
                        s1[k].1,
                        syms,
                        note,
                    ) == (s1[k + 1].0, s1[k + 1].1);
                let b = choose|syms: Seq<Symbol>|
                    found_all(syms, names, stacks[k].active_file, u.name@) && #[trigger] add_spec(
                        s2[k].0,
                        s2[k].1,
                        syms,
                        note,
                    ) == (s2[k + 1].0, s2[k + 1].1);
                lemma_found_same(a, b, names, stacks[k].active_file, u.name@);
                lemma_note_same(stacks[k], by_file);
                lemma_add_same(s1[k].0, s2[k].0, s1[k].1, a, b, note);
            },
        }
    } else {
        assert(s1[0] == (t0, w0));
        assert(s2[0] == (u0, w0));
    }
}

/// The position of the last of `names` called `name`.
pub open spec fn last_named(names: Seq<(Seq<char>, SymbolKind)>, name: Seq<char>) -> Option<int>
    decreases names.len(),
{
    if names.len() == 0 {
        None
    } else if names.last().0 == name {
        Some(names.len() - 1)
    } else {
        last_named(names.drop_last(), name)
    }
}

/// The kind of the last symbol with identity `k` that the engine of
/// `stack` finds in the stack's current file, if it finds one.
pub open spec fn hit_in(
    stack: FileStack,
    engines: Seq<(String, GenericUtter)>,
    sources: Seq<(String, String)>,
    k: (Seq<char>, Seq<char>),
) -> Option<SymbolKind> {
    match engine_of(stack, engines) {
        None => None,
        Some(u) => {
            let names = exported_names(
                pattern_views(u.config.symbol_patterns@),
                source_text(sources, stack.active_file.path@),
            );
            if u.name@ == k.1 {
                match last_named(names, k.0) {
                    Some(j) => Some(names[j].1),
                    None => None,
                }
            } else {
                None
            }
        },
    }
}

/// The last stack, over `stacks` in order, whose engine finds a symbol
/// with identity `k`, and the kind of the last such symbol it finds.
pub open spec fn last_hit(
    stacks: Seq<FileStack>,
    engines: Seq<(String, GenericUtter)>,
    sources: Seq<(String, String)>,
    k: (Seq<char>, Seq<char>),
) -> Option<(int, SymbolKind)>
    decreases stacks.len(),
{
    if stacks.len() == 0 {
        None
    } else {
        match hit_in(stacks.last(), engines, sources, k) {
            Some(kind) => Some((stacks.len() - 1, kind)),
            None => last_hit(stacks.drop_last(), engines, sources, k),
        }
    }
}

/// What a lookup finds after a build: for an identity that some stack's
/// engine finds, the symbol found last, with that name, kind and origin,
/// in that stack's current file; for any other identity, what the table
/// held before the build (nothing, after a build that starts afresh).
pub proof fn law_lookup_after_build(
    t0: Map<(Seq<char>, Seq<char>), Symbol>,
    w0: Seq<Seq<char>>,
    stacks: Seq<FileStack>,
    engines: Seq<(String, GenericUtter)>,
    sources: Seq<(String, String)>,
    by_file: bool,
    t1: Map<(Seq<char>, Seq<char>), Symbol>,
    w1: Seq<Seq<char>>,
    k: (Seq<char>, Seq<char>),
)
    requires
        builds(t0, w0, stacks, engines, sources, by_file, t1, w1),
    ensures
        match last_hit(stacks, engines, sources, k) {
            Some((i, kind)) => 0 <= i < stacks.len() && t1.contains_key(k) && found_symbol(
                t1[k],
                k.0,
                kind,
                stacks[i].active_file,
                k.1,
            ),
            None => t1.contains_key(k) == t0.contains_key(k) && (t0.contains_key(k) ==> t1[k]
                == t0[k]),
        },
{
    let st = choose|states: Seq<(Map<(Seq<char>, Seq<char>), Symbol>, Seq<Seq<char>>)>|
        #[trigger] build_trace(states, t0, w0, stacks, engines, sources, by_file) && states.last()
            == (t1, w1);
    lemma_lookup_along(st, t0, w0, stacks, engines, sources, by_file, k, stacks.len() as int);
    assert(stacks.subrange(0, stacks.len() as int) =~= stacks);
}

proof fn lemma_lookup_along(
    st: Seq<(Map<(Seq<char>, Seq<char>), Symbol>, Seq<Seq<char>>)>,
    t0: Map<(Seq<char>, Seq<char>), Symbol>,
    w0: Seq<Seq<char>>,
    stacks: Seq<FileStack>,
    engines: Seq<(String, GenericUtter)>,
    sources: Seq<(String, String)>,
    by_file: bool,
    k: (Seq<char>, Seq<char>),
    i: int,
)
    requires
        build_trace(st, t0, w0, stacks, engines, sources, by_file),
        0 <= i <= stacks.len(),
    ensures
        match last_hit(stacks.subrange(0, i), engines, sources, k) {
            Some((s, kind)) => 0 <= s < i && st[i].0.contains_key(k) && found_symbol(
                st[i].0[k],
                k.0,
                kind,
                stacks[s].active_file,
                k.1,
            ),
            None => st[i].0.contains_key(k) == t0.contains_key(k) && (t0.contains_key(k)
                ==> st[i].0[k] == t0[k]),
        },
    decreases i,
{
    if i == 0 {
        assert(st[0] == (t0, w0));
    } else {
        let p = i - 1;
        lemma_lookup_along(st, t0, w0, stacks, engines, sources, by_file, k, p);
        let pre = stacks.subrange(0, i);
        assert(pre.drop_last() =~= stacks.subrange(0, p));
        assert(pre.last() == stacks[p]);
        assert(build_step_spec(st[p].0, st[p].1, stacks[p], engines, sources, by_file, st[p + 1].0, st[p + 1].1));
        match engine_of(stacks[p], engines) {
            None => {},
            Some(u) => {
                let text = source_text(sources, stacks[p].active_file.path@);
                let names = exported_names(pattern_views(u.config.symbol_patterns@), text);
                let note = stack_note(stacks[p], by_file);
                let syms = choose|syms: Seq<Symbol>|
                    found_all(syms, names, stacks[p].active_file, u.name@) && #[trigger] add_spec(
                        st[p].0,
                        st[p].1,
                        syms,
                        note,
                    ) == (st[p + 1].0, st[p + 1].1);
                law_lookup_after_add(st[p].0, st[p].1, syms, note, k);
                lemma_last_keyed_named(syms, names, stacks[p].active_file, u.name@, k);
                lemma_last_named(names, k.0);
                match last_keyed(syms, k) {
                    Some(j) => {
                        assert(found_symbol(syms[j], names[j].0, names[j].1, stacks[p].active_file, u.name@));
                    },
                    None => {},
                }
            },
        }
    }
}

/// The last of `names` called `name` is one of them, and called so.
proof fn lemma_last_named(names: Seq<(Seq<char>, SymbolKind)>, name: Seq<char>)
    ensures
        last_named(names, name) matches Some(j) ==> 0 <= j < names.len() && names[j].0 == name,
    decreases names.len(),
{
    if names.len() > 0 {
        lemma_last_named(names.drop_last(), name);
    }
}

/// For symbols found for `names` by the engine called `origin`, the last
/// one with identity `k` is at the last of `names` called `k.0`, when the
/// engine is the one `k` names; otherwise there is none.
proof fn lemma_last_keyed_named(
    syms: Seq<Symbol>,
    names: Seq<(Seq<char>, SymbolKind)>,
    file: FileMeta,
    origin: Seq<char>,
    k: (Seq<char>, Seq<char>),
)
    requires
        found_all(syms, names, file, origin),
    ensures
        last_keyed(syms, k) == (if origin == k.1 {
            last_named(names, k.0)
        } else {
            None
        }),
    decreases syms.len(),
{
    if syms.len() > 0 {
        let l = syms.len() - 1;
        assert(found_symbol(syms[l], names[l].0, names[l].1, file, origin));
        assert(syms.last() == syms[l]);
        assert(names.last() == names[l]);
        let s2 = syms.drop_last();
        let n2 = names.drop_last();
        assert forall|i: int| 0 <= i < s2.len() implies found_symbol(
            #[trigger] s2[i],
            n2[i].0,
            n2[i].1,
            file,
            origin,
        ) by {
            assert(s2[i] == syms[i]);
            assert(n2[i] == names[i]);
            assert(found_symbol(syms[i], names[i].0, names[i].1, file, origin));
        }
        lemma_last_keyed_named(s2, n2, file, origin, k);
    }
}

impl SymbolRegistry {
    /// Adds the symbols that `engine` finds in `text`, the text of the
    /// stack's current file; a redefinition warns naming the symbol, its
    /// origin and the file.
    pub fn build_step(&mut self, stack: &FileStack, engine: &GenericUtter, text: &str)
        ensures
            adds_found(
                old(self)@,
                warning_views(old(self).warnings@),
                *stack,
                *engine,
                text@,
                redefined_by(stack.active_file.filename@),
                final(self)@,
                warning_views(final(self).warnings@),
            ),
    {
        let symbols = engine.get_exported_symbols(&stack.active_file, text);
        let ghost syms = symbols@;
        let notice = Notice::RedefinedBy(stack.active_file.filename.clone());
        self.absorb(symbols, &notice);
        proof {
            assert(add_spec(
                old(self)@,
                warning_views(old(self).warnings@),
                syms,
                redefined_by(stack.active_file.filename@),
            ) == (self@, warning_views(self.warnings@)));
        }
    }

    /// Adds the symbols that `engine` finds in `text`, the text of the
    /// stack's current file; a redefinition warns naming the symbol.
    pub fn build_incremental(&mut self, stack: &FileStack, engine: &GenericUtter, text: &str)
        ensures
            adds_found(
                old(self)@,
                warning_views(old(self).warnings@),
                *stack,
                *engine,
                text@,
                plainly_redefined(),
                final(self)@,
                warning_views(final(self).warnings@),
            ),
    {
        let symbols = engine.get_exported_symbols(&stack.active_file, text);
        let ghost syms = symbols@;
        self.absorb(symbols, &Notice::Plain);
        proof {
            assert(add_spec(
                old(self)@,
                warning_views(old(self).warnings@),
                syms,
                plainly_redefined(),
            ) == (self@, warning_views(self.warnings@)));
        }
    }

    /// Builds over the stacks of `registry` in order, each with the engine
    /// its current file names, reading texts from `sources`.
    fn build_over(
        &mut self,
        registry: &Registry,
        engines: &UtterRegistry,
        sources: &Vec<(String, String)>,
        by_file: bool,
    )
        ensures
            builds(
                old(self)@,
                warning_views(old(self).warnings@),
                registry.stacks@,
                engines.utters@,
                sources@,
                by_file,
                final(self)@,
                warning_views(final(self).warnings@),
            ),
    {
        let n = registry.stacks.len();
        let mut i: usize = 0;
        let ghost t0 = self@;
        let ghost w0 = warning_views(self.warnings@);
        let ghost mut states: Seq<(Map<(Seq<char>, Seq<char>), Symbol>, Seq<Seq<char>>)> = seq![
            (t0, w0),
        ];
        while i < n
            invariant
                n == registry.stacks@.len(),
                i <= n,
                t0 == old(self)@,
                w0 == warning_views(old(self).warnings@),
                build_trace(
                    states,
                    t0,
                    w0,
                    registry.stacks@.subrange(0, i as int),
                    engines.utters@,
                    sources@,
                    by_file,
                ),
                states.last() == (self@, warning_views(self.warnings@)),
            decreases n - i,
        {
            let stack = &registry.stacks[i];
            let ghost tm = self@;
            let ghost wm = warning_views(self.warnings@);
            match &stack.active_file.utter {
                Some(cap) => match engines.get_utter(cap.as_str()) {
                    Some(engine) => {
                        let text = source_of(sources, stack.active_file.path.as_str());
                        if by_file {
                            self.build_step(stack, engine, text);
                        } else {
                            self.build_incremental(stack, engine, text);
                        }
                    },
                    None => {},
                },
                None => {},
            }
            proof {
                assert(build_step_spec(
                    tm,
                    wm,
                    *stack,
                    engines.utters@,
                    sources@,
                    by_file,
                    self@,
                    warning_views(self.warnings@),
                ));
                let old_states = states;
                states = states.push((self@, warning_views(self.warnings@)));
                let s1 = registry.stacks@.subrange(0, i + 1);
                assert forall|k: int| 0 <= k < s1.len() implies #[trigger] build_step_spec(
                    states[k].0,
                    states[k].1,
                    s1[k],
                    engines.utters@,
                    sources@,
                    by_file,
                    states[k + 1].0,
                    states[k + 1].1,
                ) by {
                    if k < i {
                        assert(s1[k] == registry.stacks@.subrange(0, i as int)[k]);
                        assert(states[k] == old_states[k]);
                        assert(states[k + 1] == old_states[k + 1]);
                    } else {
                        assert(s1[k] == *stack);
                        assert(states[k] == old_states.last());
                    }
                }
            }
            i = i + 1;
        }
        proof {
            assert(registry.stacks@.subrange(0, n as int) =~= registry.stacks@);
            assert(build_trace(states, t0, w0, registry.stacks@, engines.utters@, sources@, by_file));
        }
    }

    /// Empties the table and warnings, then adds, stack by stack, the
    /// symbols that each current file's engine finds in its text;
    /// redefinitions warn naming the file.
    pub fn build(&mut self, registry: &Registry, engines: &UtterRegistry, sources: &Vec<(String, String)>)
        ensures
            builds(
                Map::empty(),
                Seq::empty(),
                registry.stacks@,
                engines.utters@,
                sources@,
                true,
                final(self)@,
                warning_views(final(self).warnings@),
            ),
    {
        self.reset();
        proof {
            assert(warning_views(self.warnings@) =~= Seq::<Seq<char>>::empty());
        }
        self.build_over(registry, engines, sources, true);
    }

    /// Adds, stack by stack, the symbols that each current file's engine
    /// finds in its text, keeping what the table held.
    pub fn build_all(&mut self, registry: &Registry, engines: &UtterRegistry, sources: &Vec<(String, String)>)
        ensures
            builds(
                old(self)@,
                warning_views(old(self).warnings@),
                registry.stacks@,
                engines.utters@,
                sources@,
                false,
                final(self)@,
                warning_views(final(self).warnings@),
            ),
    {
        self.build_over(registry, engines, sources, false);
    }

    /// Empties the table and warnings, builds as `build_all` does, and
    /// returns the warnings raised.
    pub fn build_with_warnings(
        &mut self,
        registry: &Registry,
        engines: &UtterRegistry,
        sources: &Vec<(String, String)>,
    ) -> (r: Vec<String>)
        ensures
            builds(
                Map::empty(),
                Seq::empty(),
                registry.stacks@,
                engines.utters@,
                sources@,
                false,
                final(self)@,
                warning_views(final(self).warnings@),
            ),
            warning_views(r@) == warning_views(final(self).warnings@),
    {
        self.reset();
        proof {
            assert(warning_views(self.warnings@) =~= Seq::<Seq<char>>::empty());
        }
        self.build_over(registry, engines, sources, false);
        crate::fs::meta::copy_strings(&self.warnings)
    }
}

/// A flag table as names and values.
pub open spec fn flag_views(v: Seq<(String, bool)>) -> Seq<(Seq<char>, bool)> {
    v.map_values(|e: (String, bool)| (e.0@, e.1))
}

/// A table of flags from its entries, in order.
fn flag_table(entries: &[(&str, bool)]) -> (r: Vec<(String, bool)>)
    ensures
        r@.len() == entries@.len(),
        forall|i: int|
            0 <= i < r@.len() ==> (#[trigger] r@[i]).0@ == entries@[i].0@ && r@[i].1
                == entries@[i].1,
{
    let mut out: Vec<(String, bool)> = Vec::new();
    let n = entries.len();
    let mut i: usize = 0;
    while i < n
        invariant
            n == entries@.len(),
            i <= n,
            out@.len() == i,
            forall|k: int|
                0 <= k < i ==> (#[trigger] out@[k]).0@ == entries@[k].0@ && out@[k].1
                    == entries@[k].1,
        decreases n - i,
    {
        let (name, on) = entries[i];
        out.push((String::from_str(name), on));
        i = i + 1;
    }
    out
}

/// The engine for user-interface files.
pub struct HtmlUtter;

/// The engine for style sheets.
pub struct CssUtter;

/// The engine for scripts.
pub struct JsUtter;

/// The flags of the user-interface engine: browser and network on,
/// file system and database off.
pub open spec fn html_flags() -> Seq<(Seq<char>, bool)> {
    seq![("browser_dom"@, true), ("allow_network"@, true), ("fs_access"@, false), ("db_access"@, false)]
}

/// The flags of the style engine: scoped styles and minifying on, browser
/// off.
pub open spec fn css_flags() -> Seq<(Seq<char>, bool)> {
    seq![("scoped_styles"@, true), ("minify"@, true), ("browser_dom"@, false)]
}

/// The flags of the script engine: async, strict mode and side effects on.
pub open spec fn js_flags() -> Seq<(Seq<char>, bool)> {
    seq![("async_enabled"@, true), ("strict_mode"@, true), ("allow_side_effects"@, true)]
}

impl HtmlUtter {
    pub fn name(&self) -> (r: &'static str)
        ensures
            r@ == "html_ui"@,
    {
        "html_ui"
    }

    pub fn get_flags(&self) -> (r: Vec<(String, bool)>)
        ensures
            flag_views(r@) == html_flags(),
    {
        let r = flag_table(&[("browser_dom", true), ("allow_network", true), ("fs_access", false), ("db_access", false)]);
        proof {
            assert(flag_views(r@) =~= html_flags());
        }
        r
    }

    /// An empty structured IR, whatever the file.
    pub fn to_ir(&self, metadata: &FileMeta) -> (r: Result<IR, String>)
        ensures
            r matches Ok(ir) && ir.is_empty_structured(),
    {
        Ok(IR::new())
    }
}

impl CssUtter {
    pub fn name(&self) -> (r: &'static str)
        ensures
            r@ == "style_engine"@,
    {
        "style_engine"
    }

    pub fn get_flags(&self) -> (r: Vec<(String, bool)>)
        ensures
            flag_views(r@) == css_flags(),
    {
        let r = flag_table(&[("scoped_styles", true), ("minify", true), ("browser_dom", false)]);
        proof {
            assert(flag_views(r@) =~= css_flags());
        }
        r
    }

    /// An empty structured IR, whatever the file.
    pub fn to_ir(&self, metadata: &FileMeta) -> (r: Result<IR, String>)
        ensures
            r matches Ok(ir) && ir.is_empty_structured(),
    {
        Ok(IR::new())
    }
}

impl JsUtter {
    pub fn name(&self) -> (r: &'static str)
        ensures
            r@ == "logic_engine"@,
    {
        "logic_engine"
    }

    pub fn get_flags(&self) -> (r: Vec<(String, bool)>)
        ensures
            flag_views(r@) == js_flags(),
    {
        let r = flag_table(&[("async_enabled", true), ("strict_mode", true), ("allow_side_effects", true)]);
        proof {
            assert(flag_views(r@) =~= js_flags());
        }
        r
    }

    /// An empty structured IR, whatever the file.
    pub fn to_ir(&self, metadata: &FileMeta) -> (r: Result<IR, String>)
        ensures
            r matches Ok(ir) && ir.is_empty_structured(),
    {
        Ok(IR::new())
    }
}

} // verus!
