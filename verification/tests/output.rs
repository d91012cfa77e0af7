use loi::bundle::{
    ArtifactKind, AssetOptimizer, BundleManifest, CompilerConfig, GenericHandler, OutputKind,
    OutputResolver, RenderTarget, IR,
};
use loi::registry::{FileMeta, Registry};
use loi::service::{BundleService, CompilerService, FileRead};
use loi::utter::UtterRegistry;

fn meta(path: &str, namespace: &str, name: &str, utter: Option<&str>, version: u32, tag: Option<&str>, ext: &str) -> FileMeta {
    FileMeta {
        id: 1,
        filename: path.rsplit('/').next().unwrap().to_string(),
        namespace: namespace.to_string(),
        name: name.to_string(),
        utter: utter.map(|s| s.to_string()),
        version,
        tag: tag.map(|s| s.to_string()),
        variant: None,
        ext: ext.to_string(),
        path: path.to_string(),
        active: true,
        capabilities: vec![],
    }
}

fn manifest(root: &str, out: &str) -> BundleManifest {
    let mut m = BundleManifest::default();
    m.dir_root = root.to_string();
    m.dir_out = out.to_string();
    m
}

fn empty_registry() -> Registry {
    Registry { files: vec![], files_archive: vec![], stacks: vec![] }
}

#[test]
fn base_name_keeps_every_part() {
    let r = OutputResolver::new(manifest("./", "./dist"));
    let f = meta("./pages/app.home.ui.v2.beta.html", "app", "home", Some("ui"), 2, Some("beta"), "html");
    assert_eq!(r.get_stripped_base_name(&f), "app.home.ui.v2.beta");
}

#[test]
fn base_name_drops_stripped_parts() {
    let mut m = manifest("./", "./dist");
    m.strip_namespace = true;
    m.strip_version = true;
    m.strip_tag = true;
    let r = OutputResolver::new(m);
    let f = meta("./pages/x.html", "app", "home", Some("ui"), 2, Some("beta"), "html");
    assert_eq!(r.get_stripped_base_name(&f), "home.ui");
}

#[test]
fn web_and_loi_paths_mirror_the_source_tree() {
    let r = OutputResolver::new(manifest("./", "./dist"));
    let f = meta("./pages/app.home.html", "app", "home", Some("ui"), 2, Some("beta"), "html");
    assert_eq!(r.get_web_path(&f), Some("./dist/pages/app.home.ui.v2.beta.html".to_string()));
    assert_eq!(r.get_loi_path(&f), "./dist/pages/app.home.ui.v2.beta.loi");
}

#[test]
fn web_path_needs_a_place_below_the_root() {
    let r = OutputResolver::new(manifest("./src", "./dist"));
    let f = meta("./other/a.html", "n", "a", None, 1, None, "html");
    assert_eq!(r.get_web_path(&f), None);
    assert_eq!(r.get_loi_path(&f), "./dist/n.a.v1.loi");
}

#[test]
fn strips_script_comments_with_the_regex() {
    let o = AssetOptimizer { minify: false, remove_comments: true };
    assert_eq!(
        o.strip_comments("let a = 1; // note\nlet b = 2; /* x */", "js"),
        "let a = 1; let b = 2; "
    );
    assert_eq!(o.strip_comments("# title // not a comment\n", "md"), "# title // not a comment\n");
}

#[test]
fn optimize_minifies_raw_text() {
    let o = AssetOptimizer { minify: true, remove_comments: true };
    match o.optimize(IR::Raw("a  b\n /* c */ d".to_string()), "css") {
        IR::Raw(s) => assert_eq!(s, "a b d"),
        _ => panic!("expected raw IR"),
    }
}

#[test]
fn handler_wraps_each_target() {
    let ir = IR::Raw("x".to_string());
    let html = GenericHandler { target: RenderTarget::Html };
    assert_eq!(html.emit(&ir).unwrap(), "<html>=== RAW ===\nx\n\n=== NODES ===\n</html>");
    let css = GenericHandler { target: RenderTarget::Css };
    assert_eq!(css.emit(&IR::new()).unwrap(), "/* css */\n=== NODES ===\n");
    let loi = GenericHandler { target: RenderTarget::Loi };
    let structured = IR::Structured { symbols: vec![], metadata: vec![("k".to_string(), "v".to_string())] };
    assert_eq!(loi.emit(&structured).unwrap(), "=== METADATA ===\nk: v\n\n=== NODES ===\n");
}

#[test]
fn bundle_compiles_a_script_to_its_web_output() {
    let service = BundleService::new(empty_registry(), manifest("./", "./dist"), UtterRegistry::new());
    let f = meta("./src/core.main.js", "core", "main", None, 1, None, "js");
    let read = FileRead { text: Ok("a".to_string()), bytes: Ok(b"a".to_vec()) };
    let out = service.compile(&f, &read).unwrap();
    assert!(matches!(out.ir, IR::Raw(ref s) if s == "a"));
    assert_eq!(out.bundle.len(), 1);
    assert_eq!(out.bundle[0].path, "./dist/src/core.main.v1.js");
    assert_eq!(out.bundle[0].kind, ArtifactKind::Web);
    assert_eq!(out.bundle[0].bytes, b"// js\n=== RAW ===\na\n\n=== NODES ===\n".to_vec());
}

#[test]
fn bundle_copies_a_loi_file() {
    let service = BundleService::new(empty_registry(), manifest("./", "./dist"), UtterRegistry::new());
    let f = meta("./src/core.main.loi", "core", "main", None, 1, None, "loi");
    let read = FileRead { text: Ok("fn main".to_string()), bytes: Ok(vec![1, 2, 3]) };
    let out = service.compile(&f, &read).unwrap();
    assert_eq!(out.bundle.len(), 1);
    assert_eq!(out.bundle[0].path, "./dist/src/core.main.v1.loi");
    assert_eq!(out.bundle[0].kind, ArtifactKind::Loi);
    assert_eq!(out.bundle[0].bytes, vec![1, 2, 3]);
}

#[test]
fn bundle_reports_missing_handler_and_read_errors() {
    let service = BundleService::new(empty_registry(), manifest("./", "./dist"), UtterRegistry::new());
    let md = meta("./docs/n.readme.md", "n", "readme", None, 1, None, "md");
    let read = FileRead { text: Ok(String::new()), bytes: Ok(vec![]) };
    assert_eq!(service.compile(&md, &read).err(), Some("No handler for .md".to_string()));
    let js = meta("./src/a.js", "n", "a", Some("nope"), 1, None, "js");
    let failed = FileRead { text: Err("gone".to_string()), bytes: Err("gone".to_string()) };
    assert_eq!(service.compile(&js, &failed).err(), Some("gone".to_string()));
    let bare = UtterRegistry { utters: vec![], handlers: vec![] };
    let empty = BundleService::new(empty_registry(), manifest("./", "./dist"), bare);
    assert_eq!(
        empty.compile(&js, &read).err(),
        Some("No utter engine for 'nope'".to_string())
    );
}

#[test]
fn compile_all_pairs_each_file() {
    let service = BundleService::new(empty_registry(), manifest("./", "./dist"), UtterRegistry::new());
    let a = meta("./src/a.js", "n", "a", Some("js_engine"), 1, None, "js");
    let b = meta("./src/b.md", "n", "b", None, 1, None, "md");
    let ok = FileRead { text: Ok("x".to_string()), bytes: Ok(vec![]) };
    let results = service.compile_all(&vec![(a, ok), (b, FileRead { text: Ok(String::new()), bytes: Ok(vec![]) })]);
    assert_eq!(results.len(), 2);
    assert!(results[0].is_ok());
    assert_eq!(results[0].as_ref().unwrap().0.name, "a");
    assert!(results[1].is_err());
}

#[test]
fn compiler_service_places_wrapped_web_files() {
    let service = CompilerService {
        registry: empty_registry(),
        utter_registry: UtterRegistry::new(),
        symbols: loi::symbol::SymbolRegistry::new(),
        config: CompilerConfig { dir_root: "./targets".to_string(), dir_out: "./out".to_string() },
    };
    let f = meta("./targets/pages/index.html.loi", "p", "index", None, 1, None, "html");
    assert_eq!(service.web_output_path(&f), Some("./out/pages/index.html".to_string()));
    assert_eq!(service.loi_output_path(&f), "./out/pages/index.html.loi");
    let g = meta("./targets/pages/notes.txt.loi", "p", "notes", None, 1, None, "txt");
    assert_eq!(service.web_output_path(&g), None);
    let read = FileRead { text: Ok("<p>".to_string()), bytes: Ok(vec![]) };
    let out = service.compile(&f, &read).unwrap();
    assert_eq!(out.bundle.len(), 1);
    assert_eq!(out.bundle[0].path, "./out/pages/index.html");
    assert_eq!(out.bundle[0].kind, OutputKind::Web);
    assert_eq!(out.bundle[0].bytes, b"<html>=== RAW ===\n<p>\n\n=== NODES ===\n</html>".to_vec());
}

#[test]
fn bundle_names_the_loi_file_it_could_not_read() {
    let service = BundleService::new(empty_registry(), manifest("./", "./dist"), UtterRegistry::new());
    let f = meta("./src/core.main.loi", "core", "main", None, 1, None, "loi");
    let read = FileRead { text: Ok("fn main".to_string()), bytes: Err("denied".to_string()) };
    assert_eq!(
        service.compile(&f, &read).err(),
        Some("Failed to read ./src/core.main.loi: denied".to_string())
    );
}

#[test]
fn rebuilding_symbols_starts_from_an_empty_table() {
    let mut service = BundleService::new(empty_registry(), manifest("./", "./dist"), UtterRegistry::new());
    service.rebuild_symbols(&vec![]);
    assert!(service.symbols.table.is_empty());
    assert!(service.symbols.warnings.is_empty());
    assert!(service.symbols.lookup("x", "js_engine").is_none());
}
