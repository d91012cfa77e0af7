//! Compiling a source file into its outputs: the engine that the file's
//! capability selects and the handler that its extension selects, its IR,
//! and the files a build writes for it.
use crate::bundle::{
    components, emit_spec, loi_path_spec, path_components, push_into, push_path, render,
    render_path, render_spec, strip_base, strip_components, web_path_spec, Artifact, ArtifactKind,
    AssetOptimizer, BundleManifest, CompilerConfig, GenericHandler, OutputArtifact, OutputKind,
    OutputResolver, IR,
};
use crate::text::{pieces, split_pieces, str_eq, strip_suffix, strs, suffix_stripped};
use crate::registry::{is_loi_path, is_wrapped_loi_path, opt_view, FileMeta, Registry};
use crate::symbol::SymbolRegistry;
use crate::utter::{builds, last_with, GenericUtter, IrSource, UtterRegistry};
use crate::symbol::warning_views;
use vstd::prelude::*;
use vstd::string::*;

verus! {

/// What reading a source file gave: its text, and its bytes (each read's
/// error as a message).
pub struct FileRead {
    pub text: Result<String, String>,
    pub bytes: Result<Vec<u8>, String>,
}

/// A file's IR and the output files made of it.
pub struct CompiledArtifact<A> {
    pub ir: IR,
    pub bundle: Vec<A>,
}

/// The capability that selects a file's engine: its own, else `identity`.
pub open spec fn engine_key(f: FileMeta) -> Seq<char> {
    match opt_view(f.utter) {
        Some(u) => u,
        None => "identity"@,
    }
}

/// The entry keyed `key`, else the one keyed `identity`.
pub open spec fn with_fallback<T>(v: Seq<(String, T)>, key: Seq<char>) -> Option<int> {
    match last_with(v, key) {
        Some(i) => Some(i),
        None => last_with(v, "identity"@),
    }
}

pub open spec fn no_engine_error(key: Seq<char>) -> Seq<char> {
    "No utter engine for '"@ + key + "'"@
}

pub open spec fn no_handler_error(ext: Seq<char>) -> Seq<char> {
    "No handler for ."@ + ext
}

/// A file that a build copies as it is: a `.loi` file that does not wrap
/// a web file.
pub open spec fn copied_as_is(f: FileMeta) -> bool {
    is_loi_path(f.path@) && !is_wrapped_loi_path(f.path@)
}

/// `ir` is the IR that `u` makes of a file with text `text`, after
/// `tidy`: raw text for an engine that reads the source, else empty
/// structured IR.
pub open spec fn ir_made(ir: IR, u: GenericUtter, text: Seq<char>, tidy: spec_fn(Seq<char>) -> Seq<char>) -> bool {
    match u.config.to_ir {
        IrSource::SourceText => ir matches IR::Raw(t) && t@ == tidy(text),
        IrSource::Empty => ir.is_empty_structured(),
    }
}

/// The bytes of the web output of `ir` for handler `h`.
pub open spec fn web_bytes(h: GenericHandler, ir: IR) -> Seq<u8> {
    vstd::utf8::encode_utf8(emit_spec(h.target, render_spec(ir)))
}

pub open spec fn text_of(r: Result<String, String>) -> Seq<char> {
    match r {
        Ok(t) => t@,
        Err(_) => Seq::empty(),
    }
}

/// The error of a read, if it failed.
pub open spec fn read_error<T>(r: Result<T, String>) -> Option<Seq<char>> {
    match r {
        Ok(_) => None,
        Err(e) => Some(e@),
    }
}

pub open spec fn bytes_of(r: Result<Vec<u8>, String>) -> Seq<u8> {
    match r {
        Ok(b) => b@,
        Err(_) => Seq::empty(),
    }
}

pub open spec fn artifact_is(a: Artifact, path: Seq<char>, bytes: Seq<u8>, kind: ArtifactKind) -> bool {
    a.path@ == path && a.bytes@ == bytes && a.kind == kind
}

/// Runs the built-in engines over the files of a registry and writes
/// their outputs where the manifest puts them.
pub struct BundleService {
    pub registry: Registry,
    pub utter_registry: UtterRegistry,
    pub symbols: SymbolRegistry,
    pub manifest: BundleManifest,
    pub resolver: OutputResolver,
    pub optimizer: AssetOptimizer,
}

/// A copy of `v`.
fn copy_bytes(v: &Vec<u8>) -> (r: Vec<u8>)
    ensures
        r@ == v@,
{
    vstd::slice::slice_to_vec(v.as_slice())
}

/// The message of a source file whose bytes could not be read.
pub open spec fn read_failed(path: Seq<char>, err: Seq<char>) -> Seq<char> {
    "Failed to read "@ + path + ": "@ + err
}

/// The message of a failed lookup: `prefix`, `key`, then `suffix`.
fn message(prefix: &str, key: &str, suffix: &str) -> (r: String)
    ensures
        r@ == prefix@ + key@ + suffix@,
{
    let mut e = String::from_str(prefix);
    e.append(key);
    e.append(suffix);
    e
}

impl BundleService {
    /// Empties the symbol table and its warnings, then adds, stack by
    /// stack, the symbols that each current file's engine finds in its text
    /// (read from `sources`).
    pub fn rebuild_symbols(&mut self, sources: &Vec<(String, String)>)
        ensures
            final(self).registry == old(self).registry,
            final(self).utter_registry == old(self).utter_registry,
            final(self).manifest == old(self).manifest,
            final(self).resolver == old(self).resolver,
            final(self).optimizer == old(self).optimizer,
            builds(
                Map::empty(),
                Seq::empty(),
                old(self).registry.stacks@,
                old(self).utter_registry.utters@,
                sources@,
                false,
                final(self).symbols@,
                warning_views(final(self).symbols.warnings@),
            ),
    {
        self.symbols.reset();
        proof {
            assert(warning_views(self.symbols.warnings@) =~= Seq::<Seq<char>>::empty());
        }
        self.symbols.build_all(&self.registry, &self.utter_registry, sources);
    }

    pub fn new(registry: Registry, manifest: BundleManifest, utter: UtterRegistry) -> (r: Self)
        ensures
            r.registry == registry,
            r.utter_registry == utter,
            r.symbols@ == Map::<(Seq<char>, Seq<char>), crate::symbol::Symbol>::empty(),
            r.symbols.warnings@.len() == 0,
            r.manifest == manifest,
            r.resolver.manifest.same_as(manifest),
            r.optimizer.minify == manifest.minify,
            r.optimizer.remove_comments == manifest.remove_comments,
    {
        let resolver = OutputResolver::new(manifest.duplicate());
        let optimizer = AssetOptimizer {
            minify: manifest.minify,
            remove_comments: manifest.remove_comments,
        };
        BundleService {
            registry,
            symbols: SymbolRegistry::new(),
            resolver,
            optimizer,
            utter_registry: utter,
            manifest,
        }
    }

    /// What compiling `file` gives, whose reads gave `read`: an error when
    /// no engine or no handler is found (falling back on `identity` for
    /// both), the error of a read that is needed; else the engine's IR,
    /// tidied by the optimizer, and the output: a copy of the file's bytes
    /// where `.loi` copies go, for a file copied as it is, else the web
    /// rendering of the IR where its web output goes, when it has a place.
    pub open spec fn compiled(
        &self,
        file: FileMeta,
        read: FileRead,
        r: Result<CompiledArtifact<Artifact>, String>,
    ) -> bool {
        let utters = self.utter_registry.utters@;
        let handlers = self.utter_registry.handlers@;
        match with_fallback(utters, engine_key(file)) {
            None => r matches Err(e) && e@ == no_engine_error(engine_key(file)),
            Some(ui) => match with_fallback(handlers, file.ext@) {
                None => r matches Err(e) && e@ == no_handler_error(file.ext@),
                Some(hi) => {
                    let u = utters[ui].1;
                    let h = handlers[hi].1;
                    if u.config.to_ir == IrSource::SourceText && read_error(read.text) is Some {
                        r matches Err(e) && Some(e@) == read_error(read.text)
                    } else if copied_as_is(file) && read_error(read.bytes) is Some {
                        r matches Err(e) && e@ == read_failed(file.path@, read_error(read.bytes).unwrap())
                    } else {
                        &&& r matches Ok(a)
                        &&& ir_made(
                            a.ir,
                            u,
                            text_of(read.text),
                            |t: Seq<char>| self.optimizer.optimize_spec(t, file.ext@),
                        )
                        &&& if copied_as_is(file) {
                            a.bundle@.len() == 1 && artifact_is(
                                a.bundle@[0],
                                loi_path_spec(self.resolver.manifest, file),
                                bytes_of(read.bytes),
                                ArtifactKind::Loi,
                            )
                        } else {
                            match web_path_spec(self.resolver.manifest, file) {
                                Some(p) => a.bundle@.len() == 1 && artifact_is(
                                    a.bundle@[0],
                                    p,
                                    web_bytes(h, a.ir),
                                    ArtifactKind::Web,
                                ),
                                None => a.bundle@.len() == 0,
                            }
                        }
                    }
                },
            },
        }
    }

    /// Compiles each file, whose reads gave the paired result, in order;
    /// each success is paired with a copy of its file.
    pub fn compile_all(&self, files: &Vec<(FileMeta, FileRead)>) -> (r: Vec<
        Result<(FileMeta, CompiledArtifact<Artifact>), String>,
    >)
        ensures
            r@.len() == files@.len(),
            forall|i: int|
                0 <= i < r@.len() ==> match #[trigger] r@[i] {
                    Ok((f, a)) => f.same_as(files@[i].0) && self.compiled(
                        files@[i].0,
                        files@[i].1,
                        Ok(a),
                    ),
                    Err(e) => self.compiled(files@[i].0, files@[i].1, Err(e)),
                },
    {
        let mut results: Vec<Result<(FileMeta, CompiledArtifact<Artifact>), String>> = Vec::new();
        let n = files.len();
        let mut i: usize = 0;
        while i < n
            invariant
                n == files@.len(),
                i <= n,
                results@.len() == i,
                forall|k: int|
                    0 <= k < i ==> match #[trigger] results@[k] {
                        Ok((f, a)) => f.same_as(files@[k].0) && self.compiled(
                            files@[k].0,
                            files@[k].1,
                            Ok(a),
                        ),
                        Err(e) => self.compiled(files@[k].0, files@[k].1, Err(e)),
                    },
            decreases n - i,
        {
            let file = &files[i].0;
            let result = match self.compile(file, &files[i].1) {
                Ok(a) => Ok((file.duplicate(), a)),
                Err(e) => Err(e),
            };
            results.push(result);
            i = i + 1;
        }
        results
    }

    /// Compiles `file`, whose reads gave `read`.
    pub fn compile(&self, file: &FileMeta, read: &FileRead) -> (r: Result<
        CompiledArtifact<Artifact>,
        String,
    >)
        ensures
            self.compiled(*file, *read, r),
    {
        let cap: &str = match &file.utter {
            Some(u) => u.as_str(),
            None => "identity",
        };
        let utter = match self.utter_registry.get_utter(cap) {
            Some(u) => u,
            None => match self.utter_registry.get_utter("identity") {
                Some(u) => u,
                None => {
                    return Err(message("No utter engine for '", cap, "'"));
                },
            },
        };
        proof {
            reveal_strlit("");
            assert(""@ =~= Seq::<char>::empty());
        }
        let handler = match self.utter_registry.get_handler(file.ext.as_str()) {
            Some(h) => h,
            None => match self.utter_registry.get_handler("identity") {
                Some(h) => h,
                None => {
                    return Err(message("No handler for .", file.ext.as_str(), ""));
                },
            },
        };
        let ir0 = match utter.to_ir(file, &read.text) {
            Ok(ir) => ir,
            Err(e) => {
                return Err(e);
            },
        };
        let ir = self.optimizer.optimize(ir0, file.ext.as_str());
        let web = match handler.emit(&ir) {
            Ok(s) => s,
            Err(e) => {
                return Err(e);
            },
        };
        let web_output = vstd::slice::slice_to_vec(web.as_str().as_bytes());
        let mut bundle: Vec<Artifact> = Vec::new();
        if file.is_wrapped_loi() {
            match self.resolver.get_web_path(file) {
                Some(p) => {
                    bundle.push(Artifact { path: p, bytes: web_output, kind: ArtifactKind::Web });
                },
                None => {},
            }
        } else if file.is_loi() {
            match &read.bytes {
                Ok(b) => {
                    let path = self.resolver.get_loi_path(file);
                    bundle.push(Artifact { path, bytes: copy_bytes(b), kind: ArtifactKind::Loi });
                },
                Err(e) => {
                    let mut m = message("Failed to read ", file.path.as_str(), ": ");
                    m.append(e.as_str());
                    return Err(m);
                },
            }
        } else {
            match self.resolver.get_web_path(file) {
                Some(p) => {
                    bundle.push(Artifact { path: p, bytes: web_output, kind: ArtifactKind::Web });
                },
                None => {},
            }
        }
        Ok(CompiledArtifact { ir, bundle })
    }
}

/// `Path::file_name` of a list of components: the last one, unless it is
/// the root or `..`.
pub open spec fn file_name_of(c: Seq<Seq<char>>) -> Option<Seq<char>> {
    if c.len() == 0 || c.last() == seq!['/'] || c.last() == seq!['.', '.'] {
        None
    } else {
        Some(c.last())
    }
}

/// The components of where a file at `path` goes under `out`: its place
/// below `root`, or, when it is not below `root`, its whole path pushed
/// onto `out`.
pub open spec fn output_components(root: Seq<char>, out: Seq<char>, path: Seq<char>) -> Seq<
    Seq<char>,
> {
    match strip_base(components(path), components(root)) {
        Some(rel) => components(out) + rel,
        None => push_path(components(out), path),
    }
}

/// Where the web output of a wrapped `.loi` file at `path` goes: its
/// output place with `.loi` dropped from its name, when what is left ends
/// in `.html`, `.css` or `.js`.
pub open spec fn web_output_spec(root: Seq<char>, out: Seq<char>, path: Seq<char>) -> Option<
    Seq<char>,
> {
    let c = output_components(root, out, path);
    match file_name_of(c) {
        None => None,
        Some(name) => match suffix_stripped(name, ".loi"@) {
            None => None,
            Some(base) => {
                let ext = pieces(base, '.').last();
                if ext == "html"@ || ext == "css"@ || ext == "js"@ {
                    Some(render(c.drop_last().push(base)))
                } else {
                    None
                }
            },
        },
    }
}

/// The last piece of `b`, a dot, then `e` cut at dots is `e` when `e`
/// holds no dot.
proof fn lemma_last_piece(b: Seq<char>, e: Seq<char>)
    requires
        forall|i: int| 0 <= i < e.len() ==> e[i] != '.',
    ensures
        pieces(b + seq!['.'] + e, '.').last() == e,
{
    lemma_scan_tail(b, e);
}

proof fn lemma_scan_tail(b: Seq<char>, e: Seq<char>)
    requires
        forall|i: int| 0 <= i < e.len() ==> e[i] != '.',
    ensures
        crate::text::scan_pieces(b + seq!['.'] + e, '.').1 == e,
    decreases e.len(),
{
    let s = b + seq!['.'] + e;
    if e.len() == 0 {
        assert(s.drop_last() =~= b);
        assert(s =~= b + seq!['.']);
    } else {
        lemma_scan_tail(b, e.drop_last());
        assert(s.drop_last() =~= b + seq!['.'] + e.drop_last());
        assert(s.last() == e.last());
        assert(e =~= e.drop_last().push(e.last()));
    }
}

/// A wrapped file whose output place ends in `<base>.<ext>.loi`, with
/// `ext` one of `html`, `css`, `js`, has a web output: the same place with
/// the trailing `.loi` taken off its name.
pub proof fn law_wrapped_web_output(
    root: Seq<char>,
    out: Seq<char>,
    path: Seq<char>,
    base: Seq<char>,
    ext: Seq<char>,
)
    requires
        output_components(root, out, path).len() > 0,
        output_components(root, out, path).last() == base + seq!['.'] + ext + ".loi"@,
        ext == "html"@ || ext == "css"@ || ext == "js"@,
    ensures
        web_output_spec(root, out, path) == Some(
            render(output_components(root, out, path).drop_last().push(base + seq!['.'] + ext)),
        ),
{
    reveal_strlit("html");
    reveal_strlit("css");
    reveal_strlit("js");
    reveal_strlit(".loi");
    let c = output_components(root, out, path);
    let name = c.last();
    let stem = base + seq!['.'] + ext;
    assert(name.len() >= 5);
    assert(name != seq!['/'] && name != seq!['.', '.']);
    assert(name.subrange(name.len() - 4, name.len() as int) =~= ".loi"@);
    assert(name.subrange(0, name.len() - 4) =~= stem);
    assert(forall|i: int| 0 <= i < ext.len() ==> ext[i] != '.');
    lemma_last_piece(base, ext);
}

pub open spec fn output_is(a: OutputArtifact, path: Seq<char>, bytes: Seq<u8>, kind: OutputKind) -> bool {
    a.path@ == path && a.bytes@ == bytes && a.kind == kind
}

/// Compiles files with the built-in engines, placing outputs by their
/// place below the source root.
pub struct CompilerService {
    pub registry: Registry,
    pub utter_registry: UtterRegistry,
    pub symbols: SymbolRegistry,
    pub config: CompilerConfig,
}

impl CompilerService {
    /// A service whose symbol table is built from the registry's stacks
    /// with the given engines, reading texts from `sources`.
    pub fn new(
        registry: Registry,
        utter_registry: UtterRegistry,
        config: CompilerConfig,
        sources: &Vec<(String, String)>,
    ) -> (r: Self)
        ensures
            r.registry == registry,
            r.utter_registry == utter_registry,
            r.config == config,
            builds(
                Map::empty(),
                Seq::empty(),
                registry.stacks@,
                utter_registry.utters@,
                sources@,
                true,
                r.symbols@,
                warning_views(r.symbols.warnings@),
            ),
    {
        let mut symbols = SymbolRegistry::new();
        symbols.build(&registry, &utter_registry, sources);
        CompilerService { registry, utter_registry, symbols, config }
    }

    /// The components of where `file` goes.
    fn output_place(&self, file: &FileMeta) -> (r: Vec<String>)
        ensures
            strs(r@) == output_components(
                self.config.dir_root@,
                self.config.dir_out@,
                file.path@,
            ),
    {
        let comps = path_components(file.path.as_str());
        let root = path_components(self.config.dir_root.as_str());
        let out = path_components(self.config.dir_out.as_str());
        match strip_components(&comps, &root) {
            Some(rel) => {
                let mut out = out;
                let mut rel = rel;
                let ghost a = out@;
                let ghost b = rel@;
                out.append(&mut rel);
                proof {
                    assert(strs(out@) =~= strs(a) + strs(b));
                }
                out
            },
            None => push_into(out, file.path.as_str()),
        }
    }

    /// Where the web output of `file` goes.
    pub fn web_output_path(&self, file: &FileMeta) -> (r: Option<String>)
        ensures
            opt_view(r) == web_output_spec(
                self.config.dir_root@,
                self.config.dir_out@,
                file.path@,
            ),
    {
        let mut out = self.output_place(file);
        let ghost c = strs(out@);
        let n = out.len();
        if n == 0 {
            return None;
        }
        proof {
            reveal_strlit("/");
            reveal_strlit("..");
            assert("/"@ =~= seq!['/']);
            assert(".."@ =~= seq!['.', '.']);
            assert(c.last() == out@[n - 1]@);
        }
        if str_eq(out[n - 1].as_str(), "/") || str_eq(out[n - 1].as_str(), "..") {
            return None;
        }
        let base = match strip_suffix(out[n - 1].as_str(), ".loi") {
            Some(b) => b,
            None => {
                return None;
            },
        };
        let parts = split_pieces(base.as_str(), '.');
        let k = parts.len();
        proof {
            assert(strs(parts@).last() == parts@[k - 1]@);
        }
        let ext = parts[k - 1].as_str();
        if str_eq(ext, "html") || str_eq(ext, "css") || str_eq(ext, "js") {
            let ghost before = out@;
            out.pop();
            out.push(base);
            proof {
                assert(strs(out@) =~= c.drop_last().push(base@));
            }
            Some(render_path(&out))
        } else {
            None
        }
    }

    /// Where a `.loi` copy of `file` goes.
    pub fn loi_output_path(&self, file: &FileMeta) -> (r: String)
        ensures
            r@ == render(
                output_components(self.config.dir_root@, self.config.dir_out@, file.path@),
            ),
    {
        let out = self.output_place(file);
        render_path(&out)
    }

    /// What compiling `file`, whose reads gave `read`, gives: as for a
    /// bundle, without tidying, with outputs placed by
    /// `web_output_path` and `loi_output_path`.
    pub open spec fn compiled(
        &self,
        file: FileMeta,
        read: FileRead,
        r: Result<CompiledArtifact<OutputArtifact>, String>,
    ) -> bool {
        let utters = self.utter_registry.utters@;
        let handlers = self.utter_registry.handlers@;
        let root = self.config.dir_root@;
        let out = self.config.dir_out@;
        match with_fallback(utters, engine_key(file)) {
            None => r matches Err(e) && e@ == no_engine_error(engine_key(file)),
            Some(ui) => match with_fallback(handlers, file.ext@) {
                None => r matches Err(e) && e@ == no_handler_error(file.ext@),
                Some(hi) => {
                    let u = utters[ui].1;
                    let h = handlers[hi].1;
                    if u.config.to_ir == IrSource::SourceText && read_error(read.text) is Some {
                        r matches Err(e) && Some(e@) == read_error(read.text)
                    } else if copied_as_is(file) && read_error(read.bytes) is Some {
                        r matches Err(e) && e@ == read_failed(file.path@, read_error(read.bytes).unwrap())
                    } else {
                        &&& r matches Ok(a)
                        &&& ir_made(a.ir, u, text_of(read.text), |t: Seq<char>| t)
                        &&& if copied_as_is(file) {
                            a.bundle@.len() == 1 && output_is(
                                a.bundle@[0],
                                render(output_components(root, out, file.path@)),
                                bytes_of(read.bytes),
                                OutputKind::Loi,
                            )
                        } else {
                            match web_output_spec(root, out, file.path@) {
                                Some(p) => a.bundle@.len() == 1 && output_is(
                                    a.bundle@[0],
                                    p,
                                    web_bytes(h, a.ir),
                                    OutputKind::Web,
                                ),
                                None => a.bundle@.len() == 0,
                            }
                        }
                    }
                },
            },
        }
    }

    /// Compiles each file, whose reads gave the paired result, in order;
    /// each success is paired with a copy of its file.
    pub fn compile_all(&self, files: &Vec<(FileMeta, FileRead)>) -> (r: Vec<
        Result<(FileMeta, CompiledArtifact<OutputArtifact>), String>,
    >)
        ensures
            r@.len() == files@.len(),
            forall|i: int|
                0 <= i < r@.len() ==> match #[trigger] r@[i] {
                    Ok((f, a)) => f.same_as(files@[i].0) && self.compiled(
                        files@[i].0,
                        files@[i].1,
                        Ok(a),
                    ),
                    Err(e) => self.compiled(files@[i].0, files@[i].1, Err(e)),
                },
    {
        let mut results: Vec<Result<(FileMeta, CompiledArtifact<OutputArtifact>), String>> = Vec::new();
        let n = files.len();
        let mut i: usize = 0;
        while i < n
            invariant
                n == files@.len(),
                i <= n,
                results@.len() == i,
                forall|k: int|
                    0 <= k < i ==> match #[trigger] results@[k] {
                        Ok((f, a)) => f.same_as(files@[k].0) && self.compiled(
                            files@[k].0,
                            files@[k].1,
                            Ok(a),
                        ),
                        Err(e) => self.compiled(files@[k].0, files@[k].1, Err(e)),
                    },
            decreases n - i,
        {
            let file = &files[i].0;
            let result = match self.compile(file, &files[i].1) {
                Ok(a) => Ok((file.duplicate(), a)),
                Err(e) => Err(e),
            };
            results.push(result);
            i = i + 1;
        }
        results
    }

    /// Compiles `file`, whose reads gave `read`.
    pub fn compile(&self, file: &FileMeta, read: &FileRead) -> (r: Result<
        CompiledArtifact<OutputArtifact>,
        String,
    >)
        ensures
            self.compiled(*file, *read, r),
    {
        let cap: &str = match &file.utter {
            Some(u) => u.as_str(),
            None => "identity",
        };
        let utter = match self.utter_registry.get_utter(cap) {
            Some(u) => u,
            None => match self.utter_registry.get_utter("identity") {
                Some(u) => u,
                None => {
                    return Err(message("No utter engine for '", cap, "'"));
                },
            },
        };
        proof {
            reveal_strlit("");
            assert(""@ =~= Seq::<char>::empty());
        }
        let handler = match self.utter_registry.get_handler(file.ext.as_str()) {
            Some(h) => h,
            None => match self.utter_registry.get_handler("identity") {
                Some(h) => h,
                None => {
                    return Err(message("No handler for .", file.ext.as_str(), ""));
                },
            },
        };
        let ir = match utter.to_ir(file, &read.text) {
            Ok(ir) => ir,
            Err(e) => {
                return Err(e);
            },
        };
        let web = match handler.emit(&ir) {
            Ok(s) => s,
            Err(e) => {
                return Err(e);
            },
        };
        let web_output = vstd::slice::slice_to_vec(web.as_str().as_bytes());
        let mut bundle: Vec<OutputArtifact> = Vec::new();
        if file.is_wrapped_loi() {
            match self.web_output_path(file) {
                Some(p) => {
                    bundle.push(OutputArtifact { path: p, bytes: web_output, kind: OutputKind::Web });
                },
                None => {},
            }
        } else if file.is_loi() {
            match &read.bytes {
                Ok(b) => {
                    let path = self.loi_output_path(file);
                    bundle.push(OutputArtifact { path, bytes: copy_bytes(b), kind: OutputKind::Loi });
                },
                Err(e) => {
                    let mut m = message("Failed to read ", file.path.as_str(), ": ");
                    m.append(e.as_str());
                    return Err(m);
                },
            }
        } else {
            match self.web_output_path(file) {
                Some(p) => {
                    bundle.push(OutputArtifact { path: p, bytes: web_output, kind: OutputKind::Web });
                },
                None => {},
            }
        }
        Ok(CompiledArtifact { ir, bundle })
    }
}

} // verus!
