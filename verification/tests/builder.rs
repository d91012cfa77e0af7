use std::collections::HashSet;

use loi::fs::builder::{AnyFS, FSBuilder, FsKind};
use loi::fs::engine::TreeBuilder;
use loi::fs::meta::{HandleAllocator, Meta, NodeType};
use loi::fs::storage::MemStorage;
use loi::fs::system::{FSInput, FileEntry, FS};

fn make_fs() -> FS<MemStorage> {
    let mut allocator = HandleAllocator::new();
    let storage = MemStorage::new();

    let root_handle = allocator.new_handle();
    let root_meta = Meta::new(vec!["/".to_string()], NodeType::Directory);

    FS::new(storage, allocator, root_handle, root_meta)
}

fn fs_input(pairs: Vec<(&str, NodeType)>) -> FSInput {
    let mut files = Vec::new();
    for (path, node_type) in pairs {
        files.push(FileEntry { path: path.to_string(), node_type });
    }
    FSInput { files }
}

fn build(fs: &mut FS<MemStorage>, input: FSInput) {
    TreeBuilder::build_into(&mut fs.core, input);
}

fn children_of<S>(fs: &FS<S>, path: &str) -> Vec<String> {
    fs.core.readdir(path).unwrap()
}

#[test]
fn builds_single_file() {
    let mut fs = make_fs();

    let input = fs_input(vec![("file.txt", NodeType::File)]);

    build(&mut fs, input);

    let children = children_of(&fs, "/");

    assert!(children.contains(&"file.txt".to_string()));
}

#[test]
fn builds_nested_structure() {
    let mut fs = make_fs();

    let input = fs_input(vec![
        ("dir1/b.txt", NodeType::File),
        ("dir1/dir2/c.txt", NodeType::File),
    ]);

    build(&mut fs, input);

    let level1 = children_of(&fs, "/");

    assert!(level1.contains(&"dir1".to_string()));
}

#[test]
fn builds_nested_directories_and_file() {
    let mut fs = make_fs();

    let input = fs_input(vec![("dir1/dir2/file.txt", NodeType::File)]);

    TreeBuilder::build_into(&mut fs.core, input);

    let root = fs.core.root();
    let dir1 = fs.core.lookup(root, "dir1").unwrap();
    let dir2 = fs.core.lookup(dir1, "dir2").unwrap();
    let file = fs.core.lookup(dir2, "file.txt").unwrap();

    assert_eq!(fs.core.nodes[file].inode.meta().node_type, NodeType::File);
    assert_eq!(fs.core.nodes[dir2].inode.meta().node_type, NodeType::Directory);
}

#[test]
fn reuses_existing_directories() {
    let mut fs = make_fs();

    let input = fs_input(vec![
        ("dir/a.txt", NodeType::File),
        ("dir/b.txt", NodeType::File),
    ]);

    TreeBuilder::build_into(&mut fs.core, input);

    let root = fs.core.root();
    let dir1 = fs.core.lookup(root, "dir").unwrap();

    let dir_children = fs.core.child_names(dir1);
    assert!(dir_children.contains(&"a.txt".to_string()));
    assert!(dir_children.contains(&"b.txt".to_string()));

    let dir2 = fs.core.lookup(root, "dir").unwrap();

    assert_eq!(dir1, dir2);
    let named_dir = fs.core.child_names(root).iter().filter(|n| n.as_str() == "dir").count();
    assert_eq!(named_dir, 1);
}

#[test]
fn allocator_creates_unique_handles() {
    let mut fs = make_fs();

    let input = fs_input(vec![
        ("a.txt", NodeType::File),
        ("b.txt", NodeType::File),
        ("c.txt", NodeType::File),
    ]);

    TreeBuilder::build_into(&mut fs.core, input);

    let root = fs.core.root();
    let handles: HashSet<u64> = fs.core.nodes[root]
        .children
        .iter()
        .map(|&c| fs.core.nodes[c].inode.handle().0)
        .collect();

    assert_eq!(handles.len(), 3);
}

#[test]
fn fsbuilder_mem_builds_successfully() {
    let builder = FSBuilder::new(FsKind::Mem);

    let input = fs_input(vec![
        ("a.txt", NodeType::File),
        ("dir/b.txt", NodeType::File),
    ]);

    let fs = builder.build(input);

    match fs {
        AnyFS::Mem(fs) => {
            let children = children_of(&fs, "/");

            assert!(children.contains(&"a.txt".to_string()));
            assert!(children.contains(&"dir".to_string()));
        }
        _ => panic!("expected Mem FS"),
    }
}

#[test]
fn fsbuilder_disk_builds_successfully() {
    let builder = FSBuilder::new(FsKind::Disk);

    let input = fs_input(vec![("x/y/z.txt", NodeType::File)]);

    let fs = builder.build(input);

    match fs {
        AnyFS::Disk(fs) => {
            let children = children_of(&fs, "/");

            assert!(children.contains(&"x".to_string()));
        }
        _ => panic!("expected Disk FS"),
    }
}
