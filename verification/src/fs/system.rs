//! A file system over a storage, and the input that describes which paths
//! it should hold.
use crate::fs::engine::{next_handle, Engine, NodeView};
use crate::fs::error::FSError;
use crate::fs::inode::{Dentry, Inode, RootInode};
use crate::fs::meta::{FSHandle, HandleAllocator, Meta, NodeType};
use vstd::prelude::*;
use vstd::string::*;

verus! {

/// A file system: the engine that holds its tree and storage.
pub struct FS<S> {
    pub core: Engine<S>,
}

/// The tree that holds only its top, a node with handle `h` and type `t`.
pub open spec fn root_tree(h: u64, t: NodeType) -> Map<Seq<Seq<char>>, NodeView> {
    Map::empty().insert(Seq::empty(), NodeView { handle: h, node_type: t })
}

impl<S> FS<S> {
    /// A file system whose tree holds only its top: a root node named `/`
    /// with metadata `root_meta` and the allocator's next handle, which is
    /// also the current directory. The `root_handle` argument is not used.
    pub fn new(storage: S, allocator: HandleAllocator, root_handle: FSHandle, root_meta: Meta) -> (r: Self)
        ensures
            r.core.wf(),
            r.core@ == root_tree(allocator.next, root_meta.node_type),
            r.core.allocator.next == next_handle(allocator.next),
            r.core.cwd.0 == allocator.next,
            r.core.storage == storage,
            allocator.next < u64::MAX ==> r.core.handles_fresh(),
    {
        let mut allocator = allocator;
        let root_handle: FSHandle = allocator.new_handle();
        let root_inode = Inode::Root(RootInode::new(root_handle, root_meta));
        let root = Dentry::new_root(root_inode);
        let mut nodes: Vec<Dentry> = Vec::new();
        nodes.push(root);
        let core = Engine { nodes, storage, allocator, cwd: root_handle };
        proof {
            assert(core.node_path(0) == Seq::<Seq<char>>::empty());
            assert forall|p: Seq<Seq<char>>| #[trigger] core.has_path(p) == (p == Seq::<
                Seq<char>,
            >::empty()) by {
                if p == Seq::<Seq<char>>::empty() {
                    assert(core.node_path(0) == p);
                }
            }
            core.lemma_index_of(0);
            assert(core@ =~= root_tree(root_handle.0, root_meta.node_type));
        }
        FS { core }
    }

    /// The names under the node that `path` leads to.
    pub fn readdir(&self, path: &str) -> (r: Result<Vec<String>, FSError>)
        requires
            self.core.wf(),
        ensures
            self.core.readdir_spec(path@, r),
    {
        self.core.readdir(path)
    }

    /// The handle of the node that `path`, normalized, names from the top.
    pub fn walk(&self, path: &str) -> (r: Result<FSHandle, FSError>)
        requires
            self.core.wf(),
        ensures
            r == self.core.walk_result(path@),
    {
        self.core.walk(path)
    }
}

/// What finds nodes by path.
pub trait FileSystem {
    /// Whether the file system is in a state in which it can be walked.
    spec fn well_formed(&self) -> bool;

    /// What a walk of `path` gives.
    spec fn walk_to(&self, path: Seq<char>) -> Result<FSHandle, FSError>;

    fn walk(&self, path: &str) -> (r: Result<FSHandle, FSError>)
        requires
            self.well_formed(),
        ensures
            r == self.walk_to(path@),
    ;
}

impl<S> FileSystem for FS<S> {
    open spec fn well_formed(&self) -> bool {
        self.core.wf()
    }

    open spec fn walk_to(&self, path: Seq<char>) -> Result<FSHandle, FSError> {
        self.core.walk_result(path)
    }

    fn walk(&self, path: &str) -> (r: Result<FSHandle, FSError>) {
        self.core.walk(path)
    }
}

/// A file system kept under a directory of the host.
pub struct HostFS {
    pub root: String,
}

/// A handle as it is written out: a key in memory or a path of the host.
pub enum FSHandleDTO {
    Mem(String),
    Host(String),
}

/// A node's handle with its bytes.
pub struct FSFile {
    pub handle: FSHandle,
    pub content: Vec<u8>,
}

/// A file as it is written out: its handle's key and its text.
pub struct FSFileDTO {
    pub handle_id: String,
    pub content: String,
}

/// One path that a file system should hold, and the type of its last node.
pub struct FileEntry {
    pub path: String,
    pub node_type: NodeType,
}

/// The paths a file system should hold, in order.
pub struct FSInput {
    pub files: Vec<FileEntry>,
}

/// A tree of named nodes, as a front end describes it.
pub struct FSNode {
    pub name: String,
    pub node_type: NodeType,
    pub children: Vec<FSNode>,
    pub content: Option<String>,
}

/// The paths and types of a list of entries.
pub open spec fn entry_views(v: Seq<FileEntry>) -> Seq<(Seq<char>, NodeType)> {
    v.map_values(|e: FileEntry| (e.path@, e.node_type))
}

/// The path of a node named `name` below `prefix`.
pub open spec fn child_path(prefix: Seq<char>, name: Seq<char>) -> Seq<char> {
    if prefix.len() == 0 {
        name
    } else {
        prefix + seq!['/'] + name
    }
}

/// The paths of the files in the tree `node` placed below `prefix`, in
/// depth-first order.
pub open spec fn node_files(node: FSNode, prefix: Seq<char>) -> Seq<Seq<char>>
    decreases node, 1nat,
{
    let cur = child_path(prefix, node.name@);
    match node.node_type {
        NodeType::File => seq![cur],
        NodeType::Directory => list_files(node.children@, cur),
    }
}

/// The paths of the files in the trees `nodes`, each placed below `prefix`.
pub open spec fn list_files(nodes: Seq<FSNode>, prefix: Seq<char>) -> Seq<Seq<char>>
    decreases nodes, 0nat,
{
    if nodes.len() == 0 {
        Seq::empty()
    } else {
        list_files(nodes.drop_last(), prefix) + node_files(nodes.last(), prefix)
    }
}

/// File entries for `paths`.
pub open spec fn file_entries(paths: Seq<Seq<char>>) -> Seq<(Seq<char>, NodeType)> {
    paths.map_values(|p: Seq<char>| (p, NodeType::File))
}

impl FSInput {
    pub fn empty() -> (r: Self)
        ensures
            r.files@.len() == 0,
    {
        FSInput { files: Vec::new() }
    }

    /// One file entry per path, in order.
    pub fn from_files(paths: Vec<String>) -> (r: Self)
        ensures
            entry_views(r.files@) == file_entries(paths@.map_values(|p: String| p@)),
    {
        let mut files: Vec<FileEntry> = Vec::new();
        let n = paths.len();
        let mut i: usize = 0;
        let ghost ps = paths@.map_values(|p: String| p@);
        while i < n
            invariant
                n == paths@.len(),
                ps == paths@.map_values(|p: String| p@),
                i <= n,
                entry_views(files@) == file_entries(ps.subrange(0, i as int)),
            decreases n - i,
        {
            let ghost before = files@;
            files.push(FileEntry { path: paths[i].clone(), node_type: NodeType::File });
            proof {
                assert(entry_views(files@) =~= entry_views(before).push((ps[i as int], NodeType::File)));
                assert(file_entries(ps.subrange(0, i + 1)) =~= file_entries(ps.subrange(0, i as int)).push(
                    (ps[i as int], NodeType::File),
                ));
            }
            i = i + 1;
        }
        proof {
            assert(ps.subrange(0, n as int) =~= ps);
        }
        FSInput { files }
    }

    /// One file entry per file of the tree `root`, in depth-first order,
    /// each with its `/`-joined path from `root` (`root`'s name included).
    pub fn from_node(root: FSNode) -> (r: Self)
        ensures
            entry_views(r.files@) == file_entries(node_files(root, Seq::empty())),
    {
        let mut files: Vec<FileEntry> = Vec::new();
        Self::walk_node(&root, String::new(), &mut files);
        proof {
            assert(entry_views(files@) =~= file_entries(node_files(root, Seq::empty())));
        }
        FSInput { files }
    }

    fn walk_node(node: &FSNode, prefix: String, out: &mut Vec<FileEntry>)
        ensures
            entry_views(final(out)@) == entry_views(old(out)@) + file_entries(
                node_files(*node, prefix@),
            ),
        decreases *node, 1nat,
    {
        let current_path = if prefix.as_str().unicode_len() == 0 {
            node.name.clone()
        } else {
            let mut p = prefix;
            p.append("/");
            proof {
                reveal_strlit("/");
            }
            p.append(node.name.as_str());
            p
        };
        assert(current_path@ =~= child_path(prefix@, node.name@));
        let ghost before = out@;
        match node.node_type {
            NodeType::File => {
                out.push(FileEntry { path: current_path, node_type: NodeType::File });
                proof {
                    let cur = child_path(prefix@, node.name@);
                    assert(node_files(*node, prefix@) == seq![cur]);
                    assert(file_entries(seq![cur]) =~= seq![(cur, NodeType::File)]);
                    assert(entry_views(out@) =~= entry_views(before).push((cur, NodeType::File)));
                    assert(entry_views(out@) =~= entry_views(before) + file_entries(
                        node_files(*node, prefix@),
                    ));
                }
            },
            NodeType::Directory => {
                Self::walk_list(&node.children, current_path, out);
            },
        }
    }

    pub(crate) fn walk_list(nodes: &Vec<FSNode>, prefix: String, out: &mut Vec<FileEntry>)
        ensures
            entry_views(final(out)@) == entry_views(old(out)@) + file_entries(
                list_files(nodes@, prefix@),
            ),
        decreases nodes@, 0nat,
    {
        let n = nodes.len();
        let mut k: usize = 0;
        let ghost start = out@;
        while k < n
            invariant
                n == nodes@.len(),
                k <= n,
                entry_views(out@) == entry_views(start) + file_entries(
                    list_files(nodes@.subrange(0, k as int), prefix@),
                ),
            decreases n - k,
        {
            let ghost mid = out@;
            proof {
                assert(nodes@.subrange(0, k + 1).drop_last() =~= nodes@.subrange(0, k as int));
                assert(nodes@.subrange(0, k + 1).last() == nodes@[k as int]);
                assert(decreases_to!(nodes@ => nodes@[k as int]));
            }
            Self::walk_node(&nodes[k], prefix.clone(), out);
            proof {
                let a = list_files(nodes@.subrange(0, k as int), prefix@);
                let b = node_files(nodes@[k as int], prefix@);
                assert(file_entries(a + b) =~= file_entries(a) + file_entries(b));
                assert(entry_views(out@) =~= entry_views(start) + file_entries(
                    list_files(nodes@.subrange(0, k + 1), prefix@),
                ));
            }
            k = k + 1;
        }
        proof {
            assert(nodes@.subrange(0, n as int) =~= nodes@);
        }
    }
}

} // verus!
