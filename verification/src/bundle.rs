//! Where build outputs go and how their text is tidied: output naming from
//! a file's name parts, output paths under the output directory, comment
//! stripping, minifying, and rendering for a web target.
use crate::registry::{is_loi_path, is_wrapped_loi_path, opt_view, FileMeta};
use crate::symbol::Symbol;
use crate::text::{
    decimal, decimal_string, fields, join, join_strings, split_fields, str_eq, strs,
};
use vstd::prelude::*;
use vstd::string::*;

verus! {

/// How a build transforms and places its outputs.
pub struct BundleManifest {
    pub dir_root: String,
    pub dir_out: String,
    pub strip_namespace: bool,
    pub strip_tag: bool,
    pub strip_utter: bool,
    pub strip_variant: bool,
    pub strip_version: bool,
    pub minify: bool,
    pub remove_comments: bool,
}

impl Default for BundleManifest {
    fn default() -> (r: Self)
        ensures
            r.dir_root@ == "./"@,
            r.dir_out@ == "./dist"@,
            !r.strip_namespace && !r.strip_tag && !r.strip_utter && !r.strip_variant
                && !r.strip_version && !r.minify && !r.remove_comments,
    {
        BundleManifest {
            dir_root: String::from_str("./"),
            dir_out: String::from_str("./dist"),
            strip_namespace: false,
            strip_tag: false,
            strip_utter: false,
            strip_variant: false,
            strip_version: false,
            minify: false,
            remove_comments: false,
        }
    }
}

impl BundleManifest {
    /// Whether two manifests hold the same values.
    pub open spec fn same_as(&self, o: BundleManifest) -> bool {
        &&& self.dir_root@ == o.dir_root@
        &&& self.dir_out@ == o.dir_out@
        &&& self.strip_namespace == o.strip_namespace
        &&& self.strip_tag == o.strip_tag
        &&& self.strip_utter == o.strip_utter
        &&& self.strip_variant == o.strip_variant
        &&& self.strip_version == o.strip_version
        &&& self.minify == o.minify
        &&& self.remove_comments == o.remove_comments
    }

    /// A field-by-field copy.
    pub fn duplicate(&self) -> (r: Self)
        ensures
            r.same_as(*self),
    {
        BundleManifest {
            dir_root: self.dir_root.clone(),
            dir_out: self.dir_out.clone(),
            strip_namespace: self.strip_namespace,
            strip_tag: self.strip_tag,
            strip_utter: self.strip_utter,
            strip_variant: self.strip_variant,
            strip_version: self.strip_version,
            minify: self.minify,
            remove_comments: self.remove_comments,
        }
    }
}

/// The source and output directories of a build.
pub struct BundleConfig {
    pub dir_root: String,
    pub dir_out: String,
}

/// The source and output directories of a compiler service.
pub struct CompilerConfig {
    pub dir_root: String,
    pub dir_out: String,
}

/// What kind of output an artifact is.
#[derive(Clone, Copy, Debug, PartialEq, Eq, Structural)]
pub enum ArtifactKind {
    Web,
    Loi,
}

/// The same distinction, as the compiler service names it.
#[derive(Clone, Copy, Debug, PartialEq, Eq, Structural)]
pub enum OutputKind {
    Web,
    Loi,
}

/// An output file: where it goes and its bytes.
pub struct Artifact {
    pub path: String,
    pub bytes: Vec<u8>,
    pub kind: ArtifactKind,
}

/// An output file of the compiler service.
pub struct OutputArtifact {
    pub path: String,
    pub bytes: Vec<u8>,
    pub kind: OutputKind,
}

/// The web languages an output can be.
pub enum WebTarget {
    Html,
    Css,
    Js,
}

/// The components of a path, as `Path::components` gives them for a path
/// without `.` parts: a leading `/` is one component, the others are the
/// non-empty names between separators.
pub open spec fn components(s: Seq<char>) -> Seq<Seq<char>> {
    if s.len() > 0 && s[0] == '/' {
        seq![seq!['/']] + fields(s, Some('/'))
    } else {
        fields(s, Some('/'))
    }
}

/// The text of a list of components.
pub open spec fn render(c: Seq<Seq<char>>) -> Seq<char> {
    if c.len() > 0 && c[0] == seq!['/'] {
        seq!['/'] + join(c.subrange(1, c.len() as int), "/"@)
    } else {
        join(c, "/"@)
    }
}

/// `Path::parent`: all components but the last, for a path with a last
/// component other than the root.
pub open spec fn parent_of(c: Seq<Seq<char>>) -> Option<Seq<Seq<char>>> {
    if c.len() == 0 || (c.len() == 1 && c[0] == seq!['/']) {
        None
    } else {
        Some(c.drop_last())
    }
}

/// `Path::strip_prefix`: what follows `base` in `c`, when `base` is a
/// component-wise prefix of `c`.
pub open spec fn strip_base(c: Seq<Seq<char>>, base: Seq<Seq<char>>) -> Option<Seq<Seq<char>>> {
    if base.len() <= c.len() && c.subrange(0, base.len() as int) == base {
        Some(c.subrange(base.len() as int, c.len() as int))
    } else {
        None
    }
}

/// `PathBuf::push`: an absolute path replaces, a relative one is appended.
pub open spec fn push_path(c: Seq<Seq<char>>, s: Seq<char>) -> Seq<Seq<char>> {
    if s.len() > 0 && s[0] == '/' {
        components(s)
    } else {
        c + components(s)
    }
}

/// The dot-joined parts of an output file name: namespace, name, utter,
/// variant, `v` and the version, tag, each unless the manifest strips it
/// (and the optional ones only when present).
pub open spec fn base_name_parts(m: BundleManifest, f: FileMeta) -> Seq<Seq<char>> {
    let p0: Seq<Seq<char>> = if !m.strip_namespace {
        seq![f.namespace@]
    } else {
        Seq::empty()
    };
    let p1 = p0.push(f.name@);
    let p2 = match (m.strip_utter, opt_view(f.utter)) {
        (false, Some(u)) => p1.push(u),
        _ => p1,
    };
    let p3 = match (m.strip_variant, opt_view(f.variant)) {
        (false, Some(v)) => p2.push(v),
        _ => p2,
    };
    let p4 = if !m.strip_version {
        p3.push(seq!['v'] + decimal(f.version as nat))
    } else {
        p3
    };
    match (m.strip_tag, opt_view(f.tag)) {
        (false, Some(t)) => p4.push(t),
        _ => p4,
    }
}

/// 1 when a field is kept in the base name, else 0.
pub open spec fn kept(strip: bool, present: bool) -> nat {
    if !strip && present {
        1
    } else {
        0
    }
}

/// The parts of a base name are exactly the fields not stripped and
/// present, in the order namespace, name, utter, variant, version (`v`
/// and its decimal), tag: each kept field stands at the place that counts
/// the kept fields before it, and there are no other parts.
pub proof fn law_base_name_parts_in_order(m: BundleManifest, f: FileMeta)
    ensures
        ({
            let p = base_name_parts(m, f);
            let kn = kept(m.strip_namespace, true);
            let ku = kept(m.strip_utter, f.utter is Some);
            let kv = kept(m.strip_variant, f.variant is Some);
            let kr = kept(m.strip_version, true);
            let kt = kept(m.strip_tag, f.tag is Some);
            &&& p.len() == kn + 1 + ku + kv + kr + kt
            &&& kn == 1 ==> p[0] == f.namespace@
            &&& p[kn as int] == f.name@
            &&& ku == 1 ==> p[(kn + 1) as int] == f.utter.unwrap()@
            &&& kv == 1 ==> p[(kn + 1 + ku) as int] == f.variant.unwrap()@
            &&& kr == 1 ==> p[(kn + 1 + ku + kv) as int] == seq!['v'] + decimal(f.version as nat)
            &&& kt == 1 ==> p[(kn + 1 + ku + kv + kr) as int] == f.tag.unwrap()@
        }),
{
}

/// The output file name without its extension.
pub open spec fn base_name(m: BundleManifest, f: FileMeta) -> Seq<char> {
    join(base_name_parts(m, f), "."@)
}

/// Where the web output of `f` goes: under the output directory, at the
/// place of `f`'s directory below the source root, named after its parts
/// and extension; nowhere when `f` has no directory or lies outside the
/// source root.
pub open spec fn web_path_spec(m: BundleManifest, f: FileMeta) -> Option<Seq<char>> {
    match parent_of(components(f.path@)) {
        None => None,
        Some(dir) => match strip_base(dir, components(m.dir_root@)) {
            None => None,
            Some(rel) => Some(
                render(
                    push_path(components(m.dir_out@) + rel, base_name(m, f) + seq!['.'] + f.ext@),
                ),
            ),
        },
    }
}

/// Where a `.loi` copy of `f` goes: as for the web output, with the
/// extension `loi`, and directly under the output directory when `f`'s
/// directory is not below the source root.
pub open spec fn loi_path_spec(m: BundleManifest, f: FileMeta) -> Seq<char> {
    let rel = match parent_of(components(f.path@)) {
        None => Seq::empty(),
        Some(dir) => match strip_base(dir, components(m.dir_root@)) {
            None => Seq::empty(),
            Some(r) => r,
        },
    };
    render(push_path(components(m.dir_out@) + rel, base_name(m, f) + ".loi"@))
}

/// The directory, below the output directory, where the outputs of `f`
/// go: `f`'s directory taken relative to the source root, when it is below
/// it.
pub open spec fn placed_dir(m: BundleManifest, f: FileMeta) -> Option<Seq<Seq<char>>> {
    match parent_of(components(f.path@)) {
        None => None,
        Some(dir) => match strip_base(dir, components(m.dir_root@)) {
            None => None,
            Some(rel) => Some(components(m.dir_out@) + rel),
        },
    }
}

/// The `.loi` copy of a file goes beside its web output, under the same
/// name with the extension `loi`; a file with no web output has its copy
/// directly under the output directory.
pub proof fn law_loi_path_beside_web_path(m: BundleManifest, f: FileMeta)
    ensures
        match placed_dir(m, f) {
            Some(d) => web_path_spec(m, f) == Some(
                render(push_path(d, base_name(m, f) + seq!['.'] + f.ext@)),
            ) && loi_path_spec(m, f) == render(push_path(d, base_name(m, f) + ".loi"@)),
            None => web_path_spec(m, f) is None && loi_path_spec(m, f) == render(
                push_path(components(m.dir_out@), base_name(m, f) + ".loi"@),
            ),
        },
{
    assert(components(m.dir_out@) + Seq::<Seq<char>>::empty() =~= components(m.dir_out@));
}

/// The components of `s`.
pub fn path_components(s: &str) -> (r: Vec<String>)
    ensures
        strs(r@) == components(s@),
{
    let rest = split_fields(s, Some('/'));
    proof {
        reveal_strlit("/");
        assert("/"@ =~= seq!['/']);
    }
    if s.unicode_len() > 0 && s.get_char(0) == '/' {
        let mut out: Vec<String> = Vec::new();
        out.push(String::from_str("/"));
        proof {
            assert(out@[0]@ == seq!['/']);
            assert(strs(out@) =~= seq![seq!['/']]);
        }
        let ghost a = out@;
        let ghost b = rest@;
        let mut rest = rest;
        out.append(&mut rest);
        proof {
            assert(strs(out@) =~= strs(a) + strs(b));
        }
        out
    } else {
        rest
    }
}

/// The text of a list of components.
pub fn render_path(c: &Vec<String>) -> (r: String)
    ensures
        r@ == render(strs(c@)),
{
    proof {
        reveal_strlit("/");
        assert("/"@ =~= seq!['/']);
    }
    if c.len() > 0 && str_eq(c[0].as_str(), "/") {
        let mut tail: Vec<String> = Vec::new();
        let n = c.len();
        let mut i: usize = 1;
        while i < n
            invariant
                n == c@.len(),
                1 <= i <= n,
                strs(tail@) == strs(c@).subrange(1, i as int),
            decreases n - i,
        {
            let ghost before = tail@;
            tail.push(c[i].clone());
            proof {
                assert(strs(tail@) =~= strs(before).push(c@[i as int]@));
                assert(strs(c@).subrange(1, i + 1) =~= strs(c@).subrange(1, i as int).push(
                    c@[i as int]@,
                ));
            }
            i = i + 1;
        }
        let mut out = String::from_str("/");
        let joined = join_strings(&tail, "/");
        out.append(joined.as_str());
        proof {
            assert(strs(c@)[0] == c@[0]@);
        }
        out
    } else {
        proof {
            if c@.len() > 0 {
                assert(strs(c@)[0] == c@[0]@);
            }
        }
        join_strings(c, "/")
    }
}

/// Appends `s` to `c` as `PathBuf::push` does.
pub(crate) fn push_into(c: Vec<String>, s: &str) -> (r: Vec<String>)
    ensures
        strs(r@) == push_path(strs(c@), s@),
{
    let mut extra = path_components(s);
    if s.unicode_len() > 0 && s.get_char(0) == '/' {
        extra
    } else {
        let mut out = c;
        let ghost a = out@;
        let ghost b = extra@;
        out.append(&mut extra);
        proof {
            assert(strs(out@) =~= strs(a) + strs(b));
        }
        out
    }
}

/// `c` without the leading components `base`, if they lead it.
pub(crate) fn strip_components(c: &Vec<String>, base: &Vec<String>) -> (r: Option<Vec<String>>)
    ensures
        match r {
            Some(v) => strip_base(strs(c@), strs(base@)) == Some(strs(v@)),
            None => strip_base(strs(c@), strs(base@)) is None,
        },
{
    let n = c.len();
    let m = base.len();
    if m > n {
        return None;
    }
    let mut i: usize = 0;
    while i < m
        invariant
            n == c@.len(),
            m == base@.len(),
            m <= n,
            i <= m,
            forall|j: int| 0 <= j < i ==> c@[j]@ == base@[j]@,
        decreases m - i,
    {
        if !str_eq(c[i].as_str(), base[i].as_str()) {
            proof {
                assert(strs(c@).subrange(0, m as int)[i as int] != strs(base@)[i as int]);
            }
            return None;
        }
        i = i + 1;
    }
    assert(strs(c@).subrange(0, m as int) =~= strs(base@));
    let mut rest: Vec<String> = Vec::new();
    let mut k: usize = m;
    while k < n
        invariant
            n == c@.len(),
            m <= k <= n,
            strs(rest@) == strs(c@).subrange(m as int, k as int),
        decreases n - k,
    {
        let ghost before = rest@;
        rest.push(c[k].clone());
        proof {
            assert(strs(rest@) =~= strs(before).push(c@[k as int]@));
            assert(strs(c@).subrange(m as int, k + 1) =~= strs(c@).subrange(
                m as int,
                k as int,
            ).push(c@[k as int]@));
        }
        k = k + 1;
    }
    Some(rest)
}

/// Decides the names and places of outputs.
pub struct OutputResolver {
    pub manifest: BundleManifest,
}

fn push_opt(parts: &mut Vec<String>, strip: bool, o: &Option<String>)
    ensures
        strs(final(parts)@) == match (strip, opt_view(*o)) {
            (false, Some(u)) => strs(old(parts)@).push(u),
            _ => strs(old(parts)@),
        },
{
    if !strip {
        match o {
            Some(u) => {
                let ghost before = parts@;
                parts.push(u.clone());
                proof {
                    assert(strs(parts@) =~= strs(before).push(u@));
                }
            },
            None => {},
        }
    }
}

impl OutputResolver {
    pub fn new(manifest: BundleManifest) -> (r: Self)
        ensures
            r.manifest == manifest,
    {
        Self { manifest }
    }

    /// The output file name of `meta` without its extension.
    pub fn get_stripped_base_name(&self, meta: &FileMeta) -> (r: String)
        ensures
            r@ == base_name(self.manifest, *meta),
    {
        let mut parts: Vec<String> = Vec::new();
        let m = &self.manifest;
        if !m.strip_namespace {
            parts.push(meta.namespace.clone());
            proof {
                assert(strs(parts@) =~= seq![meta.namespace@]);
            }
        } else {
            proof {
                assert(strs(parts@) =~= Seq::<Seq<char>>::empty());
            }
        }
        let ghost p0 = parts@;
        parts.push(meta.name.clone());
        proof {
            assert(strs(parts@) =~= strs(p0).push(meta.name@));
        }
        push_opt(&mut parts, m.strip_utter, &meta.utter);
        push_opt(&mut parts, m.strip_variant, &meta.variant);
        if !m.strip_version {
            let mut v = String::from_str("v");
            proof {
                reveal_strlit("v");
                assert("v"@ =~= seq!['v']);
            }
            let digits = decimal_string(meta.version as u64);
            v.append(digits.as_str());
            let ghost p3 = parts@;
            parts.push(v);
            proof {
                assert(strs(parts@) =~= strs(p3).push(seq!['v'] + decimal(meta.version as nat)));
            }
        }
        push_opt(&mut parts, m.strip_tag, &meta.tag);
        join_strings(&parts, ".")
    }

    /// The components of the output directory followed by where `file`'s
    /// directory lies below the source root, if it has a directory below
    /// the source root.
    fn relative_dir(&self, file: &FileMeta) -> (r: Option<Vec<String>>)
        ensures
            match r {
                Some(v) => match parent_of(components(file.path@)) {
                    Some(dir) => strip_base(dir, components(self.manifest.dir_root@)) == Some(
                        strs(v@),
                    ),
                    None => false,
                },
                None => match parent_of(components(file.path@)) {
                    Some(dir) => strip_base(dir, components(self.manifest.dir_root@)) is None,
                    None => true,
                },
            },
    {
        let mut comps = path_components(file.path.as_str());
        let n = comps.len();
        proof {
            reveal_strlit("/");
            assert("/"@ =~= seq!['/']);
        }
        if n == 0 || (n == 1 && str_eq(comps[0].as_str(), "/")) {
            proof {
                if n == 1 {
                    assert(strs(comps@)[0] == comps@[0]@);
                }
            }
            return None;
        }
        proof {
            assert(strs(comps@)[0] == comps@[0]@);
        }
        let ghost before = comps@;
        comps.pop();
        proof {
            assert(strs(comps@) =~= strs(before).drop_last());
        }
        let root = path_components(self.manifest.dir_root.as_str());
        strip_components(&comps, &root)
    }

    /// Where the web output of `file` goes.
    pub fn get_web_path(&self, file: &FileMeta) -> (r: Option<String>)
        ensures
            match r {
                Some(p) => web_path_spec(self.manifest, *file) == Some(p@),
                None => web_path_spec(self.manifest, *file) is None,
            },
    {
        let rel = match self.relative_dir(file) {
            Some(r) => r,
            None => {
                return None;
            },
        };
        let mut out = path_components(self.manifest.dir_out.as_str());
        let ghost a = out@;
        let ghost b = rel@;
        let mut rel = rel;
        out.append(&mut rel);
        proof {
            assert(strs(out@) =~= strs(a) + strs(b));
        }
        let mut name = self.get_stripped_base_name(file);
        name.append(".");
        name.append(file.ext.as_str());
        proof {
            reveal_strlit(".");
            assert(name@ =~= base_name(self.manifest, *file) + seq!['.'] + file.ext@);
        }
        let full = push_into(out, name.as_str());
        Some(render_path(&full))
    }

    /// Where a `.loi` copy of `file` goes.
    pub fn get_loi_path(&self, file: &FileMeta) -> (r: String)
        ensures
            r@ == loi_path_spec(self.manifest, *file),
    {
        let rel = match self.relative_dir(file) {
            Some(r) => r,
            None => Vec::new(),
        };
        proof {
            if rel@.len() == 0 {
                assert(strs(rel@) =~= Seq::<Seq<char>>::empty());
            }
        }
        let mut out = path_components(self.manifest.dir_out.as_str());
        let ghost a = out@;
        let ghost b = rel@;
        let mut rel = rel;
        out.append(&mut rel);
        proof {
            assert(strs(out@) =~= strs(a) + strs(b));
        }
        let mut name = self.get_stripped_base_name(file);
        name.append(".loi");
        let full = push_into(out, name.as_str());
        render_path(&full)
    }

    /// Which output a build makes of `file`: a wrapped `.loi` file and a
    /// non-`.loi` file give their web output (if it has a place), another
    /// `.loi` file a copy of itself.
    pub fn plan(&self, file: &FileMeta) -> (r: Option<(String, ArtifactKind)>)
        ensures
            match r {
                Some((p, k)) => if is_loi_path(file.path@) && !is_wrapped_loi_path(file.path@) {
                    k == ArtifactKind::Loi && p@ == loi_path_spec(self.manifest, *file)
                } else {
                    k == ArtifactKind::Web && web_path_spec(self.manifest, *file) == Some(p@)
                },
                None => !(is_loi_path(file.path@) && !is_wrapped_loi_path(file.path@))
                    && web_path_spec(self.manifest, *file) is None,
            },
    {
        if file.is_loi() && !file.is_wrapped_loi() {
            Some((self.get_loi_path(file), ArtifactKind::Loi))
        } else {
            match self.get_web_path(file) {
                Some(p) => Some((p, ArtifactKind::Web)),
                None => None,
            }
        }
    }
}

/// What the regex crate leaves of `text` when every match of `pattern` is
/// replaced by nothing, or `None` when `pattern` does not compile.
pub uninterp spec fn regex_erased(pattern: Seq<char>, text: Seq<char>) -> Option<Seq<char>>;

/// `regex::Regex::new(pattern)` and, when it compiles, `replace_all(text,
/// "")`. The contract names the result and says nothing more of it.
#[verifier::external_body]
fn regex_erase(pattern: &str, text: &str) -> (r: Option<String>)
    ensures
        match r {
            Some(s) => regex_erased(pattern@, text@) == Some(s@),
            None => regex_erased(pattern@, text@) is None,
        },
{
    match regex::Regex::new(pattern) {
        Ok(re) => Some(re.replace_all(text, "").to_string()),
        Err(_) => None,
    }
}

/// The comment pattern of a language: line and block comments for `js`,
/// `ts` and `css`, none for the others.
pub open spec fn comment_pattern(lang: Seq<char>) -> Option<Seq<char>> {
    if lang == "js"@ || lang == "ts"@ || lang == "css"@ {
        Some(COMMENTS@)
    } else {
        None
    }
}

/// Line (`//` to the end of the line) and block (`/* ... */`) comments.
pub const COMMENTS: &'static str = "(?s)(//.*?\\n|/\\*.*?\\*/)";

/// `content` without the comments of `lang`.
pub open spec fn strip_comments_spec(content: Seq<char>, lang: Seq<char>) -> Seq<char> {
    match comment_pattern(lang) {
        None => content,
        Some(p) => match regex_erased(p, content) {
            Some(s) => s,
            None => content,
        },
    }
}

/// The intermediate form of a compiled file: raw text, or structured
/// symbols and metadata.
pub enum IR {
    Raw(String),
    Structured { symbols: Vec<(String, Symbol)>, metadata: Vec<(String, String)> },
}

impl IR {
    /// Structured IR with no symbols and no metadata.
    pub open spec fn is_empty_structured(&self) -> bool {
        self matches IR::Structured { symbols, metadata } && symbols@.len() == 0 && metadata@.len()
            == 0
    }

    pub fn new() -> (r: Self)
        ensures
            r.is_empty_structured(),
    {
        IR::Structured { symbols: Vec::new(), metadata: Vec::new() }
    }
}

/// Tidies the text of outputs.
pub struct AssetOptimizer {
    pub minify: bool,
    pub remove_comments: bool,
}

impl AssetOptimizer {
    /// `content` without the comments of `lang`.
    pub fn strip_comments(&self, content: &str, lang: &str) -> (r: String)
        ensures
            r@ == strip_comments_spec(content@, lang@),
    {
        if str_eq(lang, "js") || str_eq(lang, "ts") || str_eq(lang, "css") {
            match regex_erase(COMMENTS, content) {
                Some(s) => s,
                None => String::from_str(content),
            }
        } else {
            String::from_str(content)
        }
    }

    /// The text of raw output after comment removal (when asked for) and
    /// minifying (when asked for: words joined by single spaces).
    pub open spec fn optimize_spec(&self, content: Seq<char>, ext: Seq<char>) -> Seq<char> {
        let a = if self.remove_comments {
            strip_comments_spec(content, ext)
        } else {
            content
        };
        if self.minify {
            join(fields(a, None), " "@)
        } else {
            a
        }
    }

    /// Raw output tidied as the flags ask; structured output unchanged.
    pub fn optimize(&self, ir: IR, ext: &str) -> (r: IR)
        ensures
            match ir {
                IR::Raw(c) => r matches IR::Raw(o) && o@ == self.optimize_spec(c@, ext@),
                _ => r == ir,
            },
    {
        match ir {
            IR::Raw(content) => {
                let mut optimized = content;
                if self.remove_comments {
                    optimized = self.strip_comments(optimized.as_str(), ext);
                }
                if self.minify {
                    let words = split_fields(optimized.as_str(), None);
                    optimized = join_strings(&words, " ");
                }
                IR::Raw(optimized)
            },
            other => other,
        }
    }
}

/// The language an output is rendered for.
#[derive(Clone, Copy, Debug, PartialEq, Eq, Structural)]
pub enum RenderTarget {
    Html,
    Css,
    Js,
    Ts,
    Json,
    Md,
    Loi,
}

/// Renders output for one target language.
#[derive(Clone, Copy)]
pub struct GenericHandler {
    pub target: RenderTarget,
}

/// The sections of a rendering: raw text, metadata lines, symbol names,
/// then the heading of the node section.
pub open spec fn render_spec(ir: IR) -> Seq<char> {
    match ir {
        IR::Raw(raw) => {
            let head = if raw@.len() > 0 {
                "=== RAW ===\n"@ + raw@ + "\n\n"@
            } else {
                Seq::empty()
            };
            head + "=== NODES ===\n"@
        },
        IR::Structured { symbols, metadata } => {
            let m = if metadata@.len() > 0 {
                "=== METADATA ===\n"@ + metadata_lines(metadata@) + "\n"@
            } else {
                Seq::empty()
            };
            let s = if symbols@.len() > 0 {
                "=== SYMBOLS ===\n"@ + symbol_lines(symbols@) + "\n"@
            } else {
                Seq::empty()
            };
            m + s + "=== NODES ===\n"@
        },
    }
}

/// One `key: value` line per metadata entry.
pub open spec fn metadata_lines(m: Seq<(String, String)>) -> Seq<char>
    decreases m.len(),
{
    if m.len() == 0 {
        Seq::empty()
    } else {
        metadata_lines(m.drop_last()) + m.last().0@ + ": "@ + m.last().1@ + "\n"@
    }
}

/// One line per symbol name.
pub open spec fn symbol_lines(s: Seq<(String, Symbol)>) -> Seq<char>
    decreases s.len(),
{
    if s.len() == 0 {
        Seq::empty()
    } else {
        symbol_lines(s.drop_last()) + s.last().0@ + "\n"@
    }
}

/// The wrapping of each target around a rendering.
pub open spec fn emit_spec(t: RenderTarget, out: Seq<char>) -> Seq<char> {
    match t {
        RenderTarget::Html => "<html>"@ + out + "</html>"@,
        RenderTarget::Css => "/* css */\n"@ + out,
        RenderTarget::Js | RenderTarget::Ts | RenderTarget::Json | RenderTarget::Md => "// js\n"@
            + out,
        RenderTarget::Loi => out,
    }
}

impl GenericHandler {
    fn render_ir(&self, ir: &IR) -> (r: String)
        ensures
            r@ == render_spec(*ir),
    {
        let mut out = String::new();
        match ir {
            IR::Raw(raw) => {
                if raw.as_str().unicode_len() > 0 {
                    out.append("=== RAW ===\n");
                    out.append(raw.as_str());
                    out.append("\n\n");
                }
            },
            IR::Structured { symbols, metadata } => {
                if metadata.len() > 0 {
                    out.append("=== METADATA ===\n");
                    let n = metadata.len();
                    let mut i: usize = 0;
                    let ghost start = out@;
                    while i < n
                        invariant
                            n == metadata@.len(),
                            i <= n,
                            out@ == start + metadata_lines(metadata@.subrange(0, i as int)),
                        decreases n - i,
                    {
                        proof {
                            assert(metadata@.subrange(0, i + 1).drop_last() =~= metadata@.subrange(
                                0,
                                i as int,
                            ));
                        }
                        out.append(metadata[i].0.as_str());
                        out.append(": ");
                        out.append(metadata[i].1.as_str());
                        out.append("\n");
                        i = i + 1;
                    }
                    proof {
                        assert(metadata@.subrange(0, n as int) =~= metadata@);
                    }
                    out.append("\n");
                }
                if symbols.len() > 0 {
                    out.append("=== SYMBOLS ===\n");
                    let n = symbols.len();
                    let mut i: usize = 0;
                    let ghost start = out@;
                    while i < n
                        invariant
                            n == symbols@.len(),
                            i <= n,
                            out@ == start + symbol_lines(symbols@.subrange(0, i as int)),
                        decreases n - i,
                    {
                        proof {
                            assert(symbols@.subrange(0, i + 1).drop_last() =~= symbols@.subrange(
                                0,
                                i as int,
                            ));
                        }
                        out.append(symbols[i].0.as_str());
                        out.append("\n");
                        i = i + 1;
                    }
                    proof {
                        assert(symbols@.subrange(0, n as int) =~= symbols@);
                    }
                    out.append("\n");
                }
            },
        }
        out.append("=== NODES ===\n");
        out
    }

    /// The rendering of `ir` wrapped for the handler's target.
    pub fn emit(&self, ir: &IR) -> (r: Result<String, String>)
        ensures
            r matches Ok(s) && s@ == emit_spec(self.target, render_spec(*ir)),
    {
        let out = self.render_ir(ir);
        let mut res = String::new();
        match self.target {
            RenderTarget::Html => {
                res.append("<html>");
                res.append(out.as_str());
                res.append("</html>");
            },
            RenderTarget::Css => {
                res.append("/* css */\n");
                res.append(out.as_str());
            },
            RenderTarget::Js | RenderTarget::Ts | RenderTarget::Json | RenderTarget::Md => {
                res.append("// js\n");
                res.append(out.as_str());
            },
            RenderTarget::Loi => {
                res.append(out.as_str());
            },
        }
        Ok(res)
    }
}

} // verus!
