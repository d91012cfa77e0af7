use loi::command::ListFilter;
use loi::display::{
    capability_map, diff_lines, list_rows, namespace_tree, shortcuts, version_history, Theme,
};
use loi::order::{stable_order, str_lt};
use loi::registry::{FileMeta, FileStack, Registry};

fn file(id: u128, namespace: &str, name: &str, version: u32, caps: &[&str]) -> FileMeta {
    FileMeta {
        id,
        filename: format!("{}.{}.v{}.loi", namespace, name, version),
        namespace: namespace.to_string(),
        name: name.to_string(),
        utter: None,
        version,
        tag: None,
        variant: None,
        ext: "loi".to_string(),
        path: format!("./{}.{}.loi", namespace, name),
        active: true,
        capabilities: caps.iter().map(|c| c.to_string()).collect(),
    }
}

#[test]
fn theme_colours_are_ansi_escapes_or_plain_text() {
    colored::control::set_override(true);
    assert_eq!(Theme::header("H"), "\x1b[1;36mH\x1b[0m");
    assert_eq!(Theme::error("E"), "\x1b[31mE\x1b[0m");
    assert_eq!(Theme::success("S"), "\x1b[32mS\x1b[0m");
    assert_eq!(Theme::highlight("W"), "\x1b[33mW\x1b[0m");
    assert_eq!(Theme::error("a\x1b[0mb"), "\x1b[31ma\x1b[0m\x1b[31mb\x1b[0m");
    colored::control::set_override(false);
    assert_eq!(Theme::header("H"), "H");
    assert_eq!(Theme::error("E"), "E");
    colored::control::unset_override();
}

#[test]
fn strings_order_like_str() {
    assert!(str_lt("a", "b"));
    assert!(str_lt("ab", "abc"));
    assert!(!str_lt("b", "ab"));
    assert!(!str_lt("x", "x"));
    assert_eq!(str_lt("Z", "a"), "Z" < "a");
}

#[test]
fn stable_order_sorts_and_keeps_ties() {
    let keys = vec![(1, "b".to_string()), (2, "a".to_string()), (1, "a".to_string()), (1, "b".to_string())];
    assert_eq!(stable_order(&keys, false), vec![2, 0, 3, 1]);
    assert_eq!(stable_order(&keys, true), vec![1, 0, 3, 2]);
}

fn registry() -> Registry {
    let a1 = file(1, "app", "alpha", 1, &["ui"]);
    let a2 = file(2, "app", "alpha", 2, &["ui", "net"]);
    let a3 = file(3, "app", "alpha", 3, &["net"]);
    let b1 = file(4, "lib", "beta", 5, &[]);
    Registry {
        files: vec![a3.duplicate(), b1.duplicate(), a1.duplicate()],
        files_archive: vec![a2.duplicate()],
        stacks: vec![
            FileStack { active_file: a3, archive_files: vec![a2, a1] },
            FileStack { active_file: b1, archive_files: vec![] },
        ],
    }
}

#[test]
fn list_orders_stacks_and_versions() {
    let reg = registry();
    let all = list_rows(&reg, ListFilter::All);
    let seen: Vec<(usize, &str, &str, &str)> = all
        .iter()
        .map(|r| (r.index, r.name.as_str(), r.version.as_str(), r.active.as_str()))
        .collect();
    assert_eq!(
        seen,
        vec![
            (1, "beta", "5", "true"),
            (2, "alpha", "1", "false"),
            (3, "alpha", "2", "false"),
            (4, "alpha", "3", "true")
        ]
    );
    assert_eq!(all[2].capabilities, "uinet");
    let active = list_rows(&reg, ListFilter::Active);
    assert_eq!(active.len(), 2);
    assert_eq!(active[1].index, 2);
    let archived = list_rows(&reg, ListFilter::Archived);
    assert_eq!(archived.iter().map(|r| r.version.as_str()).collect::<Vec<_>>(), vec!["1", "2"]);
}

#[test]
fn diff_marks_the_differing_fields() {
    let reg = registry();
    let lines = diff_lines(&reg, "alpha", "beta").expect("both found");
    let got: Vec<(&str, &str, &str, bool)> = lines
        .iter()
        .map(|l| (l.label.as_str(), l.left.as_str(), l.right.as_str(), l.differs))
        .collect();
    assert_eq!(
        got,
        vec![
            ("name", "alpha", "beta", true),
            ("version", "3", "5", true),
            ("tag", "", "", false),
            ("ext", "loi", "loi", false),
            ("utter", "", "", false)
        ]
    );
    assert!(diff_lines(&reg, "alpha", "gamma").is_none());
}

#[test]
fn history_lists_versions_in_order() {
    let reg = registry();
    assert_eq!(version_history(&reg, "alpha"), vec![2, 0]);
    assert!(version_history(&reg, "nobody").is_empty());
}

#[test]
fn shortcuts_by_weight() {
    let labels: Vec<&str> = shortcuts().iter().map(|m| m.label).collect();
    assert_eq!(
        labels,
        vec!["build-target", "build", "view", "diff", "tree", "caps", "ls", "mode", "history", "help", "exit"]
    );
}

#[test]
fn tree_and_capabilities_group_in_order() {
    let reg = registry();
    assert_eq!(
        namespace_tree(&reg),
        vec![("app".to_string(), vec![0, 2]), ("lib".to_string(), vec![1])]
    );
    assert_eq!(
        capability_map(&reg),
        vec![("net".to_string(), vec![0]), ("ui".to_string(), vec![2])]
    );
}
