use loi::registry::{FileMeta, FileStack, Registry};
use loi::symbol::{MockEngine, Symbol, SymbolKind, SymbolProvider, SymbolRegistry};
use loi::utter::{
    get_language_definitions, CssUtter, GenericUtter, HtmlUtter, IrSource, JsUtter, LanguageConfig,
    UtterRegistry,
};
use loi::bundle::{RenderTarget, IR};

fn meta(path: &str, name: &str, utter: Option<&str>) -> FileMeta {
    FileMeta {
        id: 7,
        filename: path.to_string(),
        namespace: "ns".to_string(),
        name: name.to_string(),
        utter: utter.map(|s| s.to_string()),
        version: 1,
        tag: None,
        variant: None,
        ext: "js".to_string(),
        path: path.to_string(),
        active: true,
        capabilities: vec![],
    }
}

fn symbol(name: &str, origin: &str, value: &str) -> Symbol {
    Symbol {
        name: name.to_string(),
        kind: SymbolKind::Constant,
        value: value.to_string(),
        file: meta("f.js", "f", None),
        origin: origin.to_string(),
        metadata: vec![],
    }
}

#[test]
fn language_definitions_in_order() {
    let defs = get_language_definitions();
    let names: Vec<&str> = defs.iter().map(|u| u.name()).collect();
    assert_eq!(
        names,
        vec![
            "identity", "ui", "lib", "js_engine", "ts_engine", "css_engine", "html_engine",
            "md_engine", "json_engine", "loi_engine"
        ]
    );
    assert_eq!(defs[0].config.to_ir, IrSource::SourceText);
    assert!(defs[0].flags().fs_access);
    assert!(defs[3].flags().browser_dom && defs[3].flags().allow_network);
    assert!(!defs[5].flags().browser_dom);
}

#[test]
fn script_engine_finds_declarations() {
    let defs = get_language_definitions();
    let js = &defs[3];
    let f = meta("a.js", "a", Some("js_engine"));
    let syms = js.get_exported_symbols(&f, "const foo = 1;\nfunction bar() {}\nlet 9x = 2;");
    let names: Vec<&str> = syms.iter().map(|s| s.name.as_str()).collect();
    assert_eq!(names, vec!["foo", "bar"]);
    assert!(syms.iter().all(|s| s.kind == SymbolKind::Function && s.origin == "js_engine"));
    assert_eq!(syms[0].file.path, "a.js");
}

#[test]
fn style_and_markup_engines_find_their_names() {
    let defs = get_language_definitions();
    let f = meta("s.css", "s", None);
    let css: Vec<String> = defs[5].get_exported_symbols(&f, ".btn { color: red } .card{}").into_iter().map(|s| s.name).collect();
    assert_eq!(css, vec!["btn".to_string(), "card".to_string()]);
    let html: Vec<String> = defs[6].get_exported_symbols(&f, "<div id=\"main\"></div>").into_iter().map(|s| s.name).collect();
    assert_eq!(html, vec!["main".to_string()]);
    let none = defs[1].get_exported_symbols(&f, "const x = 1;");
    assert!(none.is_empty());
}

#[test]
fn identity_engine_reads_the_source() {
    let defs = get_language_definitions();
    let f = meta("a.txt", "a", None);
    match defs[0].to_ir(&f, &Ok("hello".to_string())) {
        Ok(IR::Raw(t)) => assert_eq!(t, "hello"),
        _ => panic!("expected raw text"),
    }
    assert_eq!(defs[0].to_ir(&f, &Err("no file".to_string())).err(), Some("no file".to_string()));
    assert!(matches!(defs[1].to_ir(&f, &Err("ignored".to_string())), Ok(IR::Structured { .. })));
}

#[test]
fn registry_finds_builtin_engines_and_handlers() {
    let reg = UtterRegistry::new();
    for name in ["identity", "ui", "lib", "js_engine", "ts_engine", "css_engine", "html_engine", "md_engine", "json_engine", "loi_engine"] {
        assert_eq!(reg.get_utter(name).map(|u| u.name()), Some(name));
    }
    assert!(reg.get_utter("nope").is_none());
    assert_eq!(reg.get_handler("ts").map(|h| h.target), Some(RenderTarget::Js));
    assert_eq!(reg.get_handler("loi").map(|h| h.target), Some(RenderTarget::Loi));
    assert!(reg.get_handler("md").is_none());
}

#[test]
fn fixed_engines_report_their_flags() {
    assert_eq!(HtmlUtter.name(), "html_ui");
    assert_eq!(
        HtmlUtter.get_flags(),
        vec![
            ("browser_dom".to_string(), true),
            ("allow_network".to_string(), true),
            ("fs_access".to_string(), false),
            ("db_access".to_string(), false)
        ]
    );
    assert_eq!(CssUtter.name(), "style_engine");
    assert_eq!(CssUtter.get_flags().len(), 3);
    assert_eq!(JsUtter.name(), "logic_engine");
    assert!(JsUtter.get_flags().iter().all(|(_, on)| *on));
}

#[test]
fn adding_twice_warns_and_keeps_the_last() {
    let mut reg = SymbolRegistry::new();
    reg.add_symbols(vec![symbol("x", "js", "1"), symbol("y", "js", "2")], "file.js");
    assert!(reg.warnings.is_empty());
    reg.add_symbols(vec![symbol("x", "js", "3")], "other.js");
    assert_eq!(reg.warnings, vec!["Warning: Symbol 'x' in other.js redefined".to_string()]);
    assert_eq!(reg.lookup("x", "js").map(|s| s.value.as_str()), Some("3"));
    assert_eq!(reg.lookup("y", "js").map(|s| s.value.as_str()), Some("2"));
    assert!(reg.lookup("x", "css").is_none());
    reg.reset();
    assert!(reg.lookup("x", "js").is_none());
    assert!(reg.warnings.is_empty());
}

#[test]
fn build_reads_each_stack_with_its_engine() {
    let engines = UtterRegistry::new();
    let a = meta("a.js", "a", Some("js_engine"));
    let b = meta("b.js", "b", Some("js_engine"));
    let c = meta("c.js", "c", None);
    let registry = Registry {
        files: vec![],
        files_archive: vec![],
        stacks: vec![
            FileStack { active_file: a, archive_files: vec![] },
            FileStack { active_file: b, archive_files: vec![] },
            FileStack { active_file: c, archive_files: vec![] },
        ],
    };
    let sources = vec![
        ("a.js".to_string(), "const shared = 1;".to_string()),
        ("b.js".to_string(), "function shared() {}".to_string()),
        ("c.js".to_string(), "const unseen = 1;".to_string()),
    ];
    let mut reg = SymbolRegistry::new();
    reg.build(&registry, &engines, &sources);
    assert_eq!(reg.warnings, vec!["Warning: Symbol 'shared' in js_engine redefined by b.js".to_string()]);
    assert!(reg.lookup("shared", "js_engine").is_some());
    assert!(reg.lookup("unseen", "js_engine").is_none());
    let warnings = reg.build_with_warnings(&registry, &engines, &sources);
    assert_eq!(warnings, vec!["Warning: Symbol 'shared' redefined".to_string()]);
}

#[test]
fn mock_engine_collects_per_file() {
    let mut m = MockEngine::new("mock");
    m.add_symbol("a.js", symbol("x", "mock", "1"));
    m.add_symbol("a.js", symbol("y", "mock", "2"));
    m.add_symbol("b.js", symbol("z", "mock", "3"));
    assert_eq!(m.registry.len(), 2);
    assert_eq!(m.registry[0].0, "a.js");
    assert_eq!(m.registry[0].1.len(), 2);
    assert_eq!(m.registry[1].1[0].name, "z");
}

#[test]
fn mock_engine_hands_out_copies_by_file_name() {
    let mut m = MockEngine::new("mock");
    let mut s = symbol("x", "mock", "1");
    s.metadata = vec![("k".to_string(), "v".to_string())];
    m.add_symbol("a.js", s);
    m.add_symbol("a.js", symbol("y", "mock", "2"));
    let got = m.get_exported_symbols(&meta("a.js", "a", None));
    assert_eq!(got.len(), 2);
    assert_eq!(got[0].name, "x");
    assert_eq!(got[0].metadata, vec![("k".to_string(), "v".to_string())]);
    assert_eq!(got[1].value, "2");
    assert!(m.get_exported_symbols(&meta("none.js", "n", None)).is_empty());
    let via_trait = m.extract(&meta("a.js", "a", None));
    assert_eq!(via_trait.len(), 2);
    assert_eq!(m.name(), "mock");
    let flags = m.flags();
    assert!(!flags.browser_dom && !flags.allow_network && !flags.fs_access && !flags.db_access);
    match m.to_ir(&meta("a.js", "a", None)) {
        Ok(IR::Structured { symbols, metadata }) => {
            assert!(symbols.is_empty());
            assert!(metadata.is_empty());
        }
        _ => panic!("expected an empty structured IR"),
    }
}

#[test]
fn symbol_duplicate_keeps_every_field() {
    let mut s = symbol("x", "o", "v");
    s.metadata = vec![("a".to_string(), "b".to_string())];
    let d = s.duplicate();
    assert_eq!(d.name, "x");
    assert_eq!(d.origin, "o");
    assert_eq!(d.value, "v");
    assert_eq!(d.kind, SymbolKind::Constant);
    assert_eq!(d.file.filename, "f.js");
    assert_eq!(d.metadata, s.metadata);
}

#[test]
fn registries_compare_by_engine_names_per_key() {
    let a = UtterRegistry::new();
    let b = UtterRegistry::new();
    assert!(a == b);
    let mut c = UtterRegistry::new();
    let (_, first) = c.utters.remove(0);
    let mut other = UtterRegistry::new();
    other.utters.clear();
    assert!(a != other);
    // the same engines under the same keys, in another order, are equal
    c.utters.push(("identity".to_string(), first));
    assert!(a == c);
    // an engine of another name under a key makes them differ
    let mut d = UtterRegistry::new();
    let config = LanguageConfig { name: "not_js".to_string(), ..LanguageConfig::default() };
    d.utters.push(("js_engine".to_string(), GenericUtter::new(config)));
    assert!(a != d);
}

#[test]
fn a_second_build_ends_where_the_first_did_and_keeps_the_last_find() {
    let engines = UtterRegistry::new();
    let registry = Registry {
        files: vec![],
        files_archive: vec![],
        stacks: vec![
            FileStack { active_file: meta("a.js", "a", Some("js_engine")), archive_files: vec![] },
            FileStack { active_file: meta("b.js", "b", Some("js_engine")), archive_files: vec![] },
        ],
    };
    let sources = vec![
        ("a.js".to_string(), "const shared = 1;".to_string()),
        ("b.js".to_string(), "function shared() {}".to_string()),
    ];
    let mut reg = SymbolRegistry::new();
    reg.build(&registry, &engines, &sources);
    let first_warnings = reg.warnings.clone();
    let first_len = reg.table.len();
    reg.build(&registry, &engines, &sources);
    assert_eq!(reg.warnings, first_warnings);
    assert_eq!(reg.table.len(), first_len);
    let found = reg.lookup("shared", "js_engine").unwrap();
    assert_eq!(found.file.filename, "b.js");
    assert_eq!(found.kind, SymbolKind::Function);
}
