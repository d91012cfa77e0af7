//! The file system as a page script sees it: built in memory from a tree
//! of named nodes, with errors given as text.
use crate::fs::builder::{built_files, built_tree, with_empty, AnyFS, FSBuilder, FsKind};
use crate::fs::builder::{build_spec, created_files};
use crate::fs::engine::{walk_target, Engine, TreeBuilder};
use crate::fs::error::{error_text, FSError};
use crate::fs::laws::lemma_same_tree;
use crate::fs::meta::NodeType;
use crate::fs::storage::MemStorage;
use crate::fs::system::{entry_views, file_entries, list_files, FSInput, FSNode, FileEntry};
use vstd::prelude::*;
use vstd::string::*;

verus! {

/// A file system in memory behind a script-facing interface.
pub struct Vfs {
    pub inner: AnyFS,
}

/// The error of a failed operation as text.
pub open spec fn err_text<T>(r: Result<T, FSError>) -> Result<T, Seq<char>> {
    match r {
        Ok(v) => Ok(v),
        Err(e) => Err(error_text(e)),
    }
}

/// The paths that `add_file` adds, whatever path it is given.
pub open spec fn sample_paths() -> Seq<Seq<char>> {
    seq!["hello.txt"@, "src/main.rs"@]
}

impl Vfs {
    /// Whether the file system is the in-memory kind, in good shape.
    pub open spec fn wf(&self) -> bool {
        self.inner matches AnyFS::Mem(fs) && fs.core.wf()
    }

    /// The engine of an in-memory file system.
    pub open spec fn engine(&self) -> Engine<MemStorage> {
        self.inner->Mem_0.core
    }

    /// A file system holding, as files, the files of the trees below
    /// `root` (`root`'s own name is not part of the paths), in depth-first
    /// order.
    pub fn new(root: FSNode) -> (r: Self)
        ensures
            r.wf(),
            (r.engine()@, r.engine().allocator.next) == built_tree(
                1,
                file_entries(list_files(root.children@, Seq::empty())),
            ),
            r.engine().storage.contents() == with_empty(
                Map::empty(),
                built_files(1, file_entries(list_files(root.children@, Seq::empty()))),
            ),
    {
        let mut files: Vec<FileEntry> = Vec::new();
        FSInput::walk_list(&root.children, String::new(), &mut files);
        let input = FSInput { files };
        proof {
            assert(entry_views(input.files@) =~= file_entries(list_files(root.children@, Seq::empty())));
        }
        Vfs { inner: FSBuilder::new(FsKind::Mem).build(input) }
    }

    /// A file system holding only its top.
    pub fn new_empty() -> (r: Self)
        ensures
            r.wf(),
            (r.engine()@, r.engine().allocator.next) == built_tree(1, Seq::empty()),
            r.engine().storage.contents() == Map::<u64, Seq<u8>>::empty(),
    {
        let input = FSInput::empty();
        proof {
            assert(entry_views(input.files@) =~= Seq::<(Seq<char>, NodeType)>::empty());
        }
        let r = Vfs { inner: FSBuilder::new(FsKind::Mem).build(input) };
        proof {
            assert(with_empty(Map::empty(), Set::empty()) =~= Map::<u64, Seq<u8>>::empty());
        }
        r
    }

    /// Adds the files `hello.txt` and `src/main.rs`; the path given is not
    /// used.
    pub fn add_file(&mut self, path: String)
        requires
            old(self).wf(),
        ensures
            final(self).wf(),
            (final(self).engine()@, final(self).engine().allocator.next) == build_spec(
                old(self).engine()@,
                file_entries(sample_paths()),
                old(self).engine().allocator.next,
            ),
            final(self).engine().cwd == old(self).engine().cwd,
            final(self).engine().storage.contents() == with_empty(
                old(self).engine().storage.contents(),
                created_files(
                    old(self).engine()@,
                    file_entries(sample_paths()),
                    old(self).engine().allocator.next,
                ),
            ),
    {
        let mut paths: Vec<String> = Vec::new();
        paths.push(String::from_str("hello.txt"));
        paths.push(String::from_str("src/main.rs"));
        let input = FSInput::from_files(paths);
        proof {
            assert(paths@.map_values(|p: String| p@) =~= sample_paths());
        }
        match &mut self.inner {
            AnyFS::Mem(fs) => {
                TreeBuilder::build_into(&mut fs.core, input);
            },
            AnyFS::Disk(_) => {},
        }
    }

    /// Creates the directories of `path`, as `Engine::mkdir` does.
    pub fn mkdir(&mut self, path: String) -> (r: Result<(), String>)
        requires
            old(self).wf(),
        ensures
            r is Ok,
            final(self).wf(),
            (final(self).engine()@, final(self).engine().allocator.next) == crate::fs::engine::ensure_upto(
                old(self).engine()@,
                crate::text::fields(path@, Some('/')),
                crate::text::fields(path@, Some('/')).len(),
                NodeType::Directory,
                old(self).engine().allocator.next,
            ),
            final(self).engine().storage == old(self).engine().storage,
    {
        match &mut self.inner {
            AnyFS::Mem(fs) => match fs.core.mkdir(path.as_str()) {
                Ok(()) => Ok(()),
                Err(e) => Err(e.message()),
            },
            AnyFS::Disk(fs) => match fs.core.mkdir(path.as_str()) {
                Ok(()) => Ok(()),
                Err(e) => Err(e.message()),
            },
        }
    }

    /// The names under the node that `path` leads to.
    pub fn readdir(&self, path: String) -> (r: Result<Vec<String>, String>)
        requires
            self.wf(),
        ensures
            match r {
                Ok(names) => self.engine().readdir_spec(path@, Ok(names)),
                Err(e) => self.engine().readdir_spec(path@, Err(FSError::NotFound)) && e@ == error_text(
                    FSError::NotFound,
                ),
            },
    {
        match &self.inner {
            AnyFS::Mem(fs) => match fs.core.readdir(path.as_str()) {
                Ok(names) => Ok(names),
                Err(e) => Err(e.message()),
            },
            AnyFS::Disk(fs) => match fs.core.readdir(path.as_str()) {
                Ok(names) => Ok(names),
                Err(e) => Err(e.message()),
            },
        }
    }

    /// Replaces the bytes of the node that `path` names from the top.
    pub fn write(&mut self, path: String, data: Vec<u8>) -> (r: Result<(), String>)
        requires
            old(self).wf(),
        ensures
            final(self).wf(),
            final(self).engine().nodes == old(self).engine().nodes,
            match r {
                Ok(()) => old(self).engine()@.contains_key(walk_target(path@))
                    && final(self).engine().storage.files@ == old(self).engine().storage.files@.insert(
                    old(self).engine()@[walk_target(path@)].handle,
                    data,
                ),
                Err(e) => e@ == error_text(FSError::NotFound) && !old(self).engine()@.contains_key(
                    walk_target(path@),
                ) && final(self).engine().storage == old(self).engine().storage,
            },
    {
        match &mut self.inner {
            AnyFS::Mem(fs) => {
                let ghost before = fs.core;
                let r = fs.core.write(path.as_str(), data);
                proof {
                    lemma_same_tree(before, fs.core);
                }
                match r {
                    Ok(()) => Ok(()),
                    Err(e) => Err(e.message()),
                }
            },
            AnyFS::Disk(_) => Ok(()),
        }
    }

    /// The bytes of the node that `path` names from the top.
    pub fn read(&self, path: String) -> (r: Result<Vec<u8>, String>)
        requires
            self.wf(),
        ensures
            match r {
                Ok(v) => self.engine()@.contains_key(walk_target(path@)) && v@ == self.engine().storage.bytes_of(
                    self.engine()@[walk_target(path@)].handle,
                ),
                Err(e) => e@ == error_text(FSError::NotFound) && !self.engine()@.contains_key(
                    walk_target(path@),
                ),
            },
    {
        match &self.inner {
            AnyFS::Mem(fs) => match fs.core.read(path.as_str()) {
                Ok(v) => Ok(v),
                Err(e) => Err(e.message()),
            },
            AnyFS::Disk(_) => Ok(Vec::new()),
        }
    }
}

impl Default for Vfs {
    fn default() -> (r: Self)
        ensures
            r.wf(),
            (r.engine()@, r.engine().allocator.next) == built_tree(1, Seq::empty()),
            r.engine().storage.contents() == Map::<u64, Seq<u8>>::empty(),
    {
        Vfs::new_empty()
    }
}

} // verus!
