use loi::fs::builder::{build_fs_from_flat_json, AnyFS, FSBuilder, FlatEntry, FlatInput, FsKind};
use loi::fs::error::FSError;
use loi::fs::meta::{FSHandle, FSPath, HandleAllocator, Metadata, NodeType};
use loi::fs::storage::{DiskStorage, MemStorage, Storage};
use loi::fs::router::VFSStart;
use loi::fs::system::{FSInput, FSNode, FileEntry, FileSystem};
use loi::fs::vfs::Vfs;

fn mem_fs(paths: &[(&str, NodeType)]) -> loi::fs::system::FS<MemStorage> {
    let files = paths.iter().map(|(p, t)| FileEntry { path: p.to_string(), node_type: *t }).collect();
    match FSBuilder::new(FsKind::Mem).build(FSInput { files }) {
        AnyFS::Mem(fs) => fs,
        _ => panic!("expected a memory file system"),
    }
}

#[test]
fn mkdir_and_readdir() {
    let mut fs = mem_fs(&[]);
    assert!(fs.core.mkdir("/a/b").is_ok());
    assert_eq!(fs.core.readdir("/").unwrap(), vec!["a".to_string()]);
    assert_eq!(fs.core.readdir("/a").unwrap(), vec!["b".to_string()]);
    assert!(fs.core.mkdir("/a/b").is_ok());
    assert_eq!(fs.core.readdir("/a").unwrap(), vec!["b".to_string()]);
    assert_eq!(fs.core.readdir("/missing"), Err(FSError::NotFound));
}

#[test]
fn read_gives_back_what_was_written() {
    let mut fs = mem_fs(&[("docs/readme.md", NodeType::File)]);
    assert_eq!(fs.core.read("/docs/readme.md").unwrap(), Vec::<u8>::new());
    assert!(fs.core.write("/docs/readme.md", b"hello".to_vec()).is_ok());
    assert_eq!(fs.core.read("/docs/readme.md").unwrap(), b"hello".to_vec());
    assert!(fs.core.write("/docs/readme.md", b"bye".to_vec()).is_ok());
    assert_eq!(fs.core.read("/docs/readme.md").unwrap(), b"bye".to_vec());
    assert_eq!(fs.core.write("/nope", vec![1]), Err(FSError::NotFound));
    assert_eq!(fs.core.read("/nope"), Err(FSError::NotFound));
}

#[test]
fn cd_and_pwd() {
    let mut fs = mem_fs(&[("src/main.rs", NodeType::File)]);
    assert_eq!(fs.core.pwd().unwrap(), "//");
    assert!(fs.core.cd("/src").is_ok());
    assert_eq!(fs.core.pwd().unwrap(), "/src");
    assert_eq!(fs.core.cd("/none"), Err(FSError::NotFound));
    assert_eq!(fs.core.pwd().unwrap(), "/src");
}

#[test]
fn walk_normalizes_dots() {
    let fs = mem_fs(&[("a/b/c.txt", NodeType::File)]);
    let direct = fs.walk("/a/b/c.txt").unwrap();
    let dotted = fs.walk("/a/./x/../b/c.txt").unwrap();
    assert_eq!(direct, dotted);
    assert_eq!(fs.walk("/a/zzz"), Err(FSError::NotFound));
}

#[test]
fn paths_join_and_round_trip() {
    let p = FSPath::from_string("/src/lib/mod.rs/");
    assert_eq!(p.0, vec!["src".to_string(), "lib".to_string(), "mod.rs".to_string()]);
    assert_eq!(p.to_string(), "src/lib/mod.rs");
    assert_eq!(FSPath::from_string(&p.to_string()).0, p.0);
    let q = FSPath::new(vec!["x".to_string()]);
    assert_eq!(p.join(&q).to_string(), "src/lib/mod.rs/x");
    assert_eq!(FSPath::empty().to_string(), "");
}

#[test]
fn allocator_counts_up_from_one() {
    let mut a = HandleAllocator::new();
    assert_eq!(a.new_handle().0, 1);
    assert_eq!(a.new_handle().0, 2);
    let mut last = HandleAllocator { next: u64::MAX };
    assert_eq!(last.new_handle().0, u64::MAX);
    assert_eq!(last.next, 0);
}

#[test]
fn error_messages() {
    assert_eq!(FSError::NotFound.message(), "file or directory not found");
    assert_eq!(FSError::InvalidPath.message(), "invalid path");
}

#[test]
fn memory_storage_appends() {
    let mut s = MemStorage::new();
    let h = FSHandle(3);
    assert!(s.append(&h, vec![1]).is_ok());
    assert!(s.append(&h, vec![2, 3]).is_ok());
    assert_eq!(s.read(&h).unwrap(), vec![1, 2, 3]);
    assert_eq!(s.read(&FSHandle(9)).unwrap(), Vec::<u8>::new());
}

#[test]
fn disk_storage_maps_under_its_root() {
    let d = DiskStorage::with_root("/data/".to_string());
    assert_eq!(d.walk("/a/b/"), "/data/a/b");
    let e = DiskStorage::with_root("root".to_string());
    assert_eq!(e.walk("x"), "root/x");
    assert_eq!(DiskStorage::new().walk("/y"), "y");
}

fn flat_entry(path: &str, content: &str, ext: &str) -> FlatEntry {
    FlatEntry {
        path_abs: format!("/abs/{}", path),
        path_rel: path.to_string(),
        name: path.rsplit('/').next().unwrap_or("").to_string(),
        ext: ext.to_string(),
        content: content.to_string(),
        language: "rust".to_string(),
    }
}

#[test]
fn flat_build_gives_a_path_its_latest_entry() {
    let input = FlatInput {
        files: vec![
            ("/src/main.rs".to_string(), flat_entry("src/main.rs", "fn main() {}", "rs")),
            ("src/lib.rs".to_string(), flat_entry("src/lib.rs", "pub fn f() {}", "rs")),
            ("/src/main.rs/".to_string(), flat_entry("src/main.rs", "héllo", "txt")),
        ],
    };
    let tree = build_fs_from_flat_json(input);
    let fs = &tree.fs;
    assert_eq!(fs.core.readdir("/").unwrap(), vec!["src".to_string()]);
    assert_eq!(
        fs.core.readdir("/src").unwrap(),
        vec!["main.rs".to_string(), "lib.rs".to_string()]
    );
    assert_eq!(fs.core.read("/src/main.rs").unwrap(), "héllo".as_bytes().to_vec());
    assert_eq!(fs.core.read("/src/lib.rs").unwrap(), b"pub fn f() {}".to_vec());
    assert_eq!(fs.core.allocator.next, 5);
    let main = fs.core.walk("/src/main.rs").unwrap();
    let stat = &tree.stats[&main.0];
    assert_eq!(stat.size, 6);
    assert_eq!(stat.mode, 0o644);
    assert!(!stat.is_dir);
    assert_eq!(stat.ext, "txt");
    assert_eq!(stat.path_abs, "/abs/src/main.rs");
    assert_eq!(stat.path_rel, "src/main.rs");
    assert_eq!(stat.language, "rust");
    let src = fs.core.walk("/src").unwrap();
    assert!(tree.stats[&src.0].is_dir);
    assert_eq!(tree.stats[&src.0].size, 0);
    let top = fs.core.walk("/").unwrap();
    assert!(!tree.stats[&top.0].is_dir);
    assert_eq!(tree.stats.len(), 4);
}

#[test]
fn flat_build_of_nothing_holds_only_the_top() {
    let tree = build_fs_from_flat_json(FlatInput { files: vec![] });
    assert_eq!(tree.fs.core.readdir("/").unwrap(), Vec::<String>::new());
    assert_eq!(tree.fs.core.nodes.len(), 1);
    assert_eq!(tree.stats.len(), 1);
}

#[test]
fn memory_storage_writes_and_records_no_meta() {
    let mut s = MemStorage::new();
    let h = FSHandle(4);
    assert!(s.write(&h, vec![9, 8]).is_ok());
    assert_eq!(s.read(&h).unwrap(), vec![9, 8]);
    assert!(s.write(&h, vec![1]).is_ok());
    assert_eq!(s.read(&h).unwrap(), vec![1]);
    assert_eq!(s.meta(&h).err(), Some(FSError::NotFound));
}

#[test]
fn file_system_trait_walks_like_the_engine() {
    let fs = mem_fs(&[("a/b.txt", NodeType::File)]);
    let via_trait = FileSystem::walk(&fs, "/a/b.txt");
    assert_eq!(via_trait, fs.core.walk("/a/b.txt"));
    assert!(via_trait.is_ok());
    assert_eq!(FileSystem::walk(&fs, "/zz"), Err(FSError::NotFound));
}

#[test]
fn start_banner_names_verbose_mode() {
    assert_eq!(VFSStart.banner(true), "\u{1F680} VFS starting (verbose mode)");
    assert_eq!(VFSStart.banner(false), "\u{1F680} VFS starting");
}

#[test]
fn path_text_reads_back_as_the_same_path() {
    let p = FSPath::new(vec!["src".to_string(), "bin".to_string(), "main.rs".to_string()]);
    let text = p.to_string();
    assert_eq!(text, "src/bin/main.rs");
    assert_eq!(FSPath::from_string(&text), p);
    let empty = FSPath::empty();
    assert_eq!(FSPath::from_string(&empty.to_string()), FSPath::new(vec![String::new()]));
}

#[test]
fn building_stores_empty_contents_for_each_new_file() {
    let fs = mem_fs(&[
        ("a/b.txt", NodeType::File),
        ("a/c", NodeType::Directory),
        ("a/b.txt", NodeType::File),
        ("d.md", NodeType::File),
    ]);
    assert_eq!(fs.core.storage.files.len(), 2);
    let h = fs.core.walk("/a/b.txt").unwrap();
    assert_eq!(fs.core.storage.files.get(&h.0), Some(&Vec::new()));
    let d = fs.core.walk("/a").unwrap();
    assert!(fs.core.storage.files.get(&d.0).is_none());
}

fn node(name: &str, node_type: NodeType, children: Vec<FSNode>) -> FSNode {
    FSNode { name: name.to_string(), node_type, children, content: None }
}

#[test]
fn script_file_system_builds_from_the_tree_below_its_root() {
    let root = node(
        "project",
        NodeType::Directory,
        vec![
            node("src", NodeType::Directory, vec![node("main.rs", NodeType::File, vec![])]),
            node("README.md", NodeType::File, vec![]),
        ],
    );
    let mut vfs = Vfs::new(root);
    assert_eq!(vfs.readdir("/".to_string()).unwrap(), vec!["src".to_string(), "README.md".to_string()]);
    assert_eq!(vfs.read("/src/main.rs".to_string()).unwrap(), Vec::<u8>::new());
    assert!(vfs.write("/src/main.rs".to_string(), b"fn main() {}".to_vec()).is_ok());
    assert_eq!(vfs.read("/src/main.rs".to_string()).unwrap(), b"fn main() {}".to_vec());
    assert_eq!(vfs.read("/nope".to_string()), Err("file or directory not found".to_string()));
    assert_eq!(vfs.write("/nope".to_string(), vec![1]), Err("file or directory not found".to_string()));
    assert_eq!(vfs.readdir("/zz".to_string()), Err("file or directory not found".to_string()));
    assert!(vfs.mkdir("/docs/api".to_string()).is_ok());
    assert_eq!(vfs.readdir("/docs".to_string()).unwrap(), vec!["api".to_string()]);
}

#[test]
fn adding_files_adds_the_two_sample_paths() {
    let mut vfs = Vfs::default();
    assert_eq!(vfs.readdir("/".to_string()).unwrap(), Vec::<String>::new());
    vfs.add_file("ignored.txt".to_string());
    assert_eq!(vfs.readdir("/".to_string()).unwrap(), vec!["hello.txt".to_string(), "src".to_string()]);
    assert_eq!(vfs.readdir("/src".to_string()).unwrap(), vec!["main.rs".to_string()]);
    let empty = Vfs::new_empty();
    assert_eq!(empty.readdir("/".to_string()).unwrap(), Vec::<String>::new());
}

#[test]
fn script_metadata_defaults_to_an_empty_file() {
    let m = Metadata::default();
    assert_eq!(m.size, 0);
    assert_eq!(m.mode, 0o644);
    assert!(!m.is_dir);
    assert!(m.ext.is_empty() && m.path_abs.is_empty() && m.path_rel.is_empty() && m.language.is_empty());
}

#[test]
fn one_allocator_numbers_every_node_of_a_file_system() {
    let mut fs = mem_fs(&[("a/b.txt", NodeType::File)]);
    assert!(fs.core.mkdir("/c/d").is_ok());
    let mut seen = Vec::new();
    for p in ["/", "/a", "/a/b.txt", "/c", "/c/d"] {
        let h = fs.core.walk(p).unwrap();
        assert!(!seen.contains(&h));
        seen.push(h);
    }
    assert_eq!(fs.core.allocator.next, 7);
}

#[test]
fn flat_build_adds_shorter_paths_first() {
    let input = FlatInput {
        files: vec![
            ("a/b".to_string(), flat_entry("a/b", "inner", "")),
            ("a".to_string(), flat_entry("a", "outer", "md")),
        ],
    };
    let tree = build_fs_from_flat_json(input);
    let fs = &tree.fs;
    assert_eq!(fs.core.read("/a").unwrap(), b"outer".to_vec());
    assert_eq!(fs.core.read("/a/b").unwrap(), b"inner".to_vec());
    assert_eq!(fs.core.readdir("/a").unwrap(), vec!["b".to_string()]);
    let a = fs.core.walk("/a").unwrap();
    assert!(!tree.stats[&a.0].is_dir);
    assert_eq!(tree.stats[&a.0].ext, "md");
    assert_eq!(tree.stats[&a.0].size, 5);
    let b = fs.core.walk("/a/b").unwrap();
    assert_eq!(a.0, 2);
    assert_eq!(b.0, 3);
}

#[test]
fn building_the_same_entries_again_changes_nothing() {
    let mut fs = mem_fs(&[("a/b.txt", NodeType::File), ("c", NodeType::Directory)]);
    let nodes = fs.core.nodes.len();
    let next = fs.core.allocator.next;
    let files = fs.core.storage.files.len();
    let input = FSInput {
        files: vec![
            FileEntry { path: "a/b.txt".to_string(), node_type: NodeType::File },
            FileEntry { path: "c".to_string(), node_type: NodeType::Directory },
        ],
    };
    loi::fs::engine::TreeBuilder::build_into(&mut fs.core, input);
    assert_eq!(fs.core.nodes.len(), nodes);
    assert_eq!(fs.core.allocator.next, next);
    assert_eq!(fs.core.storage.files.len(), files);
}

#[test]
fn a_read_gives_the_last_write_then_the_appends() {
    let mut s = MemStorage::new();
    let h = FSHandle(7);
    assert!(s.append(&h, vec![0]).is_ok());
    assert!(s.write(&h, vec![1, 2]).is_ok());
    assert!(s.append(&h, vec![3]).is_ok());
    assert!(s.append(&h, vec![4, 5]).is_ok());
    assert_eq!(s.read(&h).unwrap(), vec![1, 2, 3, 4, 5]);
}
