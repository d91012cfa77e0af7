//! Nodes of the tree: inodes (what a node is) and dentries (where it is).
use crate::fs::meta::{FSHandle, Meta, NodeType};
use vstd::prelude::*;
use vstd::string::*;

verus! {

pub struct InMemoryFileInode {
    pub meta: Meta,
    pub handle: FSHandle,
}

pub struct InMemoryDirectoryInode {
    pub meta: Meta,
    pub handle: FSHandle,
}

/// The inode at the top of a tree.
pub struct RootInode {
    pub meta: Meta,
    pub handle: FSHandle,
}

impl InMemoryFileInode {
    pub fn new(handle: FSHandle, meta: Meta) -> (r: Self)
        ensures
            r.handle == handle,
            r.meta == meta,
    {
        Self { meta, handle }
    }

    pub fn handle(&self) -> (r: FSHandle)
        ensures
            r == self.handle,
    {
        self.handle
    }
}

impl InMemoryDirectoryInode {
    pub fn new(handle: FSHandle, meta: Meta) -> (r: Self)
        ensures
            r.handle == handle,
            r.meta == meta,
    {
        Self { meta, handle }
    }
}

impl RootInode {
    pub fn new(handle: FSHandle, meta: Meta) -> (r: Self)
        ensures
            r.handle == handle,
            r.meta == meta,
    {
        Self { meta, handle }
    }
}

/// Any of the three kinds of inode.
pub enum Inode {
    File(InMemoryFileInode),
    Directory(InMemoryDirectoryInode),
    Root(RootInode),
}

impl Inode {
    pub open spec fn spec_handle(&self) -> FSHandle {
        match self {
            Inode::File(f) => f.handle,
            Inode::Directory(d) => d.handle,
            Inode::Root(r) => r.handle,
        }
    }

    pub open spec fn spec_meta(&self) -> Meta {
        match self {
            Inode::File(f) => f.meta,
            Inode::Directory(d) => d.meta,
            Inode::Root(r) => r.meta,
        }
    }

    /// An inode of the given type.
    pub fn build(node_type: NodeType, handle: FSHandle, meta: Meta) -> (r: Self)
        ensures
            r.spec_handle() == handle,
            r.spec_meta() == meta,
            r !is Root,
            node_type == NodeType::Directory ==> r is Directory,
            node_type == NodeType::File ==> r is File,
    {
        match node_type {
            NodeType::Directory => Inode::Directory(InMemoryDirectoryInode::new(handle, meta)),
            NodeType::File => Inode::File(InMemoryFileInode::new(handle, meta)),
        }
    }

    pub fn handle(&self) -> (r: FSHandle)
        ensures
            r == self.spec_handle(),
    {
        match self {
            Inode::File(f) => f.handle,
            Inode::Directory(d) => d.handle,
            Inode::Root(r) => r.handle,
        }
    }

    /// The metadata of a file or directory inode; the root answers no such
    /// question.
    pub fn meta(&self) -> (r: &Meta)
        requires
            self !is Root,
        ensures
            *r == self.spec_meta(),
    {
        match self {
            Inode::File(f) => &f.meta,
            Inode::Directory(d) => &d.meta,
            Inode::Root(r) => &r.meta,
        }
    }

    /// `true` for file and directory inodes alike; the root answers no such
    /// question.
    pub fn is_dir(&self) -> (r: bool)
        requires
            self !is Root,
        ensures
            r,
    {
        true
    }
}

/// A name linked to an inode, with the positions of its parent and children
/// in the tree that holds it.
pub struct Dentry {
    pub name: String,
    pub inode: Inode,
    pub parent: Option<usize>,
    pub children: Vec<usize>,
}

impl Dentry {
    pub fn new(name: String, inode: Inode, parent: Option<usize>) -> (r: Self)
        ensures
            r.name@ == name@,
            r.inode == inode,
            r.parent == parent,
            r.children@.len() == 0,
    {
        Dentry { name, inode, parent, children: Vec::new() }
    }

    /// The dentry at the top of a tree: named `/`, without parent.
    pub fn new_root(root_inode: Inode) -> (r: Self)
        ensures
            r.name@ == "/"@,
            r.inode == root_inode,
            r.parent is None,
            r.children@.len() == 0,
    {
        Dentry { name: String::from_str("/"), inode: root_inode, parent: None, children: Vec::new() }
    }
}

/// A dentry as it is written out: its name, its inode's key and its
/// children.
pub struct DentryDTO {
    pub name: String,
    pub inode_id: String,
    pub children: Vec<DentryDTO>,
}

} // verus!
