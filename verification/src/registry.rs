//! What the build knows of each source file: its parsed name parts and
//! where it is, grouped into stacks of versions.
use crate::text::{contains, ends_with, str_eq, strs};
use vstd::prelude::*;
use vstd::string::*;

verus! {

/// A source file and the parts of its name.
pub struct FileMeta {
    pub id: u128,
    pub filename: String,
    pub namespace: String,
    pub name: String,
    pub utter: Option<String>,
    pub version: u32,
    pub tag: Option<String>,
    pub variant: Option<String>,
    pub ext: String,
    pub path: String,
    pub active: bool,
    pub capabilities: Vec<String>,
}

pub open spec fn opt_view(o: Option<String>) -> Option<Seq<char>> {
    match o {
        Some(s) => Some(s@),
        None => None,
    }
}

pub fn copy_opt(o: &Option<String>) -> (r: Option<String>)
    ensures
        opt_view(r) == opt_view(*o),
{
    match o {
        Some(s) => Some(s.clone()),
        None => None,
    }
}

/// Whether a file's path ends in `.loi`.
pub open spec fn is_loi_path(p: Seq<char>) -> bool {
    p.len() >= 4 && p.subrange(p.len() - 4, p.len() as int) == ".loi"@
}

/// Whether `needle` occurs in `s`.
pub open spec fn occurs(s: Seq<char>, needle: Seq<char>) -> bool {
    exists|k: int|
        0 <= k && k + needle.len() <= s.len() && #[trigger] s.subrange(k, k + needle.len())
            == needle
}

/// Whether a `.loi` path wraps a web file (`.html.loi`, `.css.loi` or
/// `.js.loi` occurs in it).
pub open spec fn is_wrapped_loi_path(p: Seq<char>) -> bool {
    is_loi_path(p) && (occurs(p, ".html.loi"@) || occurs(p, ".css.loi"@) || occurs(
        p,
        ".js.loi"@,
    ))
}

impl FileMeta {
    pub fn is_loi(&self) -> (r: bool)
        ensures
            r == is_loi_path(self.path@),
    {
        proof {
            reveal_strlit(".loi");
        }
        ends_with(self.path.as_str(), ".loi")
    }

    pub fn is_wrapped_loi(&self) -> (r: bool)
        ensures
            r == is_wrapped_loi_path(self.path@),
    {
        let p = self.path.as_str();
        self.is_loi() && (contains(p, ".html.loi") || contains(p, ".css.loi") || contains(
            p,
            ".js.loi",
        ))
    }

    /// A field-by-field copy.
    pub fn duplicate(&self) -> (r: Self)
        ensures
            r.same_as(*self),
    {
        let mut caps: Vec<String> = Vec::new();
        let n = self.capabilities.len();
        let mut i: usize = 0;
        while i < n
            invariant
                n == self.capabilities@.len(),
                i <= n,
                strs(caps@) == strs(self.capabilities@).subrange(0, i as int),
            decreases n - i,
        {
            let ghost before = caps@;
            caps.push(self.capabilities[i].clone());
            proof {
                assert(strs(caps@) =~= strs(before).push(self.capabilities@[i as int]@));
                assert(strs(self.capabilities@).subrange(0, i + 1) =~= strs(
                    self.capabilities@,
                ).subrange(0, i as int).push(self.capabilities@[i as int]@));
            }
            i = i + 1;
        }
        proof {
            assert(strs(self.capabilities@).subrange(0, n as int) =~= strs(self.capabilities@));
        }
        FileMeta {
            id: self.id,
            filename: self.filename.clone(),
            namespace: self.namespace.clone(),
            name: self.name.clone(),
            utter: copy_opt(&self.utter),
            version: self.version,
            tag: copy_opt(&self.tag),
            variant: copy_opt(&self.variant),
            ext: self.ext.clone(),
            path: self.path.clone(),
            active: self.active,
            capabilities: caps,
        }
    }

    /// Whether two records hold the same values.
    pub open spec fn same_as(&self, o: FileMeta) -> bool {
        &&& self.id == o.id
        &&& self.filename@ == o.filename@
        &&& self.namespace@ == o.namespace@
        &&& self.name@ == o.name@
        &&& opt_view(self.utter) == opt_view(o.utter)
        &&& self.version == o.version
        &&& opt_view(self.tag) == opt_view(o.tag)
        &&& opt_view(self.variant) == opt_view(o.variant)
        &&& self.ext@ == o.ext@
        &&& self.path@ == o.path@
        &&& self.active == o.active
        &&& strs(self.capabilities@) == strs(o.capabilities@)
    }
}

/// The name parts that put files into one group of versions.
pub struct GroupKey {
    pub namespace: String,
    pub name: String,
    pub utter: Option<String>,
    pub variant: Option<String>,
    pub ext: String,
}

/// What a file name says beyond its base name.
pub struct ParsedPath {
    pub variant: Option<String>,
    pub version: u32,
    pub is_versioned: bool,
    pub is_ui: bool,
}

/// The versions of one group: the active file and the archived ones.
pub struct FileStack {
    pub active_file: FileMeta,
    pub archive_files: Vec<FileMeta>,
}

/// Every file the build knows of.
pub struct Registry {
    pub files: Vec<FileMeta>,
    pub files_archive: Vec<FileMeta>,
    pub stacks: Vec<FileStack>,
}

/// How many files of `fs` satisfy `f`.
pub open spec fn count_where(fs: Seq<FileMeta>, f: spec_fn(FileMeta) -> bool) -> nat
    decreases fs.len(),
{
    if fs.len() == 0 {
        0
    } else {
        count_where(fs.drop_last(), f) + if f(fs.last()) {
            1nat
        } else {
            0nat
        }
    }
}

/// The figures shown at the top of the registry view.
pub struct RegistryMetrics {
    pub total_files: usize,
    pub active_files: usize,
    pub total_versions: usize,
    pub total_utters: usize,
}

impl Registry {
    /// The total number of files (current and archived), how many current
    /// files are active, how many have a version above 0, and how many name
    /// an utter.
    pub fn metrics(&self) -> (r: RegistryMetrics)
        requires
            self.files@.len() + self.files_archive@.len() <= usize::MAX,
        ensures
            r.total_files == self.files@.len() + self.files_archive@.len(),
            r.active_files == count_where(self.files@, |f: FileMeta| f.active),
            r.total_versions == count_where(self.files@, |f: FileMeta| f.version > 0),
            r.total_utters == count_where(self.files@, |f: FileMeta| f.utter is Some),
    {
        let n = self.files.len();
        let mut active: usize = 0;
        let mut versions: usize = 0;
        let mut utters: usize = 0;
        let mut i: usize = 0;
        while i < n
            invariant
                n == self.files@.len(),
                i <= n,
                active == count_where(self.files@.subrange(0, i as int), |f: FileMeta| f.active),
                versions == count_where(
                    self.files@.subrange(0, i as int),
                    |f: FileMeta| f.version > 0,
                ),
                utters == count_where(
                    self.files@.subrange(0, i as int),
                    |f: FileMeta| f.utter is Some,
                ),
                active <= i,
                versions <= i,
                utters <= i,
            decreases n - i,
        {
            let f = &self.files[i];
            proof {
                assert(self.files@.subrange(0, i + 1).drop_last() =~= self.files@.subrange(
                    0,
                    i as int,
                ));
            }
            if f.active {
                active = active + 1;
            }
            if f.version > 0 {
                versions = versions + 1;
            }
            if f.utter.is_some() {
                utters = utters + 1;
            }
            i = i + 1;
        }
        proof {
            assert(self.files@.subrange(0, n as int) =~= self.files@);
        }
        RegistryMetrics {
            total_files: self.files.len() + self.files_archive.len(),
            active_files: active,
            total_versions: versions,
            total_utters: utters,
        }
    }

    /// The first current file named `name`.
    pub fn find_file(&self, name: &str) -> (r: Option<&FileMeta>)
        ensures
            match r {
                Some(f) => exists|i: int|
                    0 <= i < self.files@.len() && self.files@[i] == *f && f.name@ == name@ && (
                    forall|j: int| 0 <= j < i ==> #[trigger] self.files@[j].name@ != name@),
                None => forall|i: int|
                    0 <= i < self.files@.len() ==> #[trigger] self.files@[i].name@ != name@,
            },
    {
        let n = self.files.len();
        let mut i: usize = 0;
        while i < n
            invariant
                n == self.files@.len(),
                i <= n,
                forall|j: int| 0 <= j < i ==> #[trigger] self.files@[j].name@ != name@,
            decreases n - i,
        {
            if str_eq(self.files[i].name.as_str(), name) {
                return Some(&self.files[i]);
            }
            i = i + 1;
        }
        None
    }
}

/// Two lists of files hold the same values, file by file.
pub open spec fn same_files(a: Seq<FileMeta>, b: Seq<FileMeta>) -> bool {
    &&& a.len() == b.len()
    &&& forall|i: int| 0 <= i < a.len() ==> (#[trigger] a[i]).same_as(b[i])
}

/// A copy of a list of files.
pub fn copy_files(v: &Vec<FileMeta>) -> (r: Vec<FileMeta>)
    ensures
        same_files(r@, v@),
{
    let mut out: Vec<FileMeta> = Vec::new();
    let n = v.len();
    let mut i: usize = 0;
    while i < n
        invariant
            n == v@.len(),
            i <= n,
            out@.len() == i,
            forall|k: int| 0 <= k < i ==> (#[trigger] out@[k]).same_as(v@[k]),
        decreases n - i,
    {
        out.push(v[i].duplicate());
        i = i + 1;
    }
    out
}

impl FileStack {
    pub open spec fn same_as(&self, o: FileStack) -> bool {
        self.active_file.same_as(o.active_file) && same_files(self.archive_files@, o.archive_files@)
    }

    /// A field-by-field copy.
    pub fn duplicate(&self) -> (r: Self)
        ensures
            r.same_as(*self),
    {
        FileStack { active_file: self.active_file.duplicate(), archive_files: copy_files(&self.archive_files) }
    }
}

impl Registry {
    /// Whether two registries hold the same values.
    pub open spec fn same_as(&self, o: Registry) -> bool {
        &&& same_files(self.files@, o.files@)
        &&& same_files(self.files_archive@, o.files_archive@)
        &&& self.stacks@.len() == o.stacks@.len()
        &&& forall|i: int| 0 <= i < self.stacks@.len() ==> (#[trigger] self.stacks@[i]).same_as(o.stacks@[i])
    }

    /// A field-by-field copy.
    pub fn duplicate(&self) -> (r: Self)
        ensures
            r.same_as(*self),
    {
        let mut stacks: Vec<FileStack> = Vec::new();
        let n = self.stacks.len();
        let mut i: usize = 0;
        while i < n
            invariant
                n == self.stacks@.len(),
                i <= n,
                stacks@.len() == i,
                forall|k: int| 0 <= k < i ==> (#[trigger] stacks@[k]).same_as(self.stacks@[k]),
            decreases n - i,
        {
            stacks.push(self.stacks[i].duplicate());
            i = i + 1;
        }
        Registry {
            files: copy_files(&self.files),
            files_archive: copy_files(&self.files_archive),
            stacks,
        }
    }
}

} // verus!
