use loi::command::strip_repeated;
use loi::command::{interpret_line, BuildTarget, Command, LineAction, ListFilter};
use loi::text::{
    decimal_string, join_strings, parse_i32, parse_usize, split_at_first, split_fields, split_pieces,
    strip_suffix, trim_matches, trim_whitespace,
};

#[test]
fn split_fields_drops_empty_runs() {
    assert_eq!(split_fields("  a  b ", None), vec!["a".to_string(), "b".to_string()]);
    assert_eq!(split_fields("/x//y/", Some('/')), vec!["x".to_string(), "y".to_string()]);
}

#[test]
fn split_pieces_keeps_empty_fields() {
    assert_eq!(
        split_pieces("a//b", '/'),
        vec!["a".to_string(), "".to_string(), "b".to_string()]
    );
    assert_eq!(split_pieces("", '.'), vec!["".to_string()]);
}

#[test]
fn trims_and_joins() {
    assert_eq!(trim_matches("//a/b//", '/'), "a/b");
    assert_eq!(trim_whitespace("  hi there \n"), "hi there");
    assert_eq!(join_strings(&vec!["a".to_string(), "b".to_string()], "."), "a.b");
}

#[test]
fn splits_at_first_space() {
    assert_eq!(
        split_at_first("build -a x", ' '),
        ("build".to_string(), Some("-a x".to_string()))
    );
    assert_eq!(split_at_first("ls", ' '), ("ls".to_string(), None));
    assert_eq!(split_at_first("diff ", ' '), ("diff".to_string(), Some("".to_string())));
}

#[test]
fn numbers_parse_and_print() {
    assert_eq!(decimal_string(0), "0");
    assert_eq!(decimal_string(1234), "1234");
    assert_eq!(parse_usize("42"), Some(42));
    assert_eq!(parse_usize("4x"), None);
    assert_eq!(parse_i32("-7"), Some(-7));
    assert_eq!(parse_i32("abc"), None);
}

#[test]
fn strips_suffix() {
    assert_eq!(strip_suffix("a.html.loi", ".loi"), Some("a.html".to_string()));
    assert_eq!(strip_suffix("a.html", ".loi"), None);
}

#[test]
fn blank_lines_are_skipped() {
    assert!(matches!(interpret_line("   "), LineAction::Skip));
    assert!(matches!(interpret_line(""), LineAction::Skip));
}

#[test]
fn typed_lines_become_commands() {
    match interpret_line("ls") {
        LineAction::Run(c) => assert_eq!(c, Command::List(ListFilter::Active)),
        _ => panic!("expected a command"),
    }
    match interpret_line("  exit ") {
        LineAction::Run(c) => assert_eq!(c, Command::Exit),
        _ => panic!("expected a command"),
    }
    match interpret_line("diff a b") {
        LineAction::Run(c) => assert_eq!(c, Command::Diff("a".to_string(), "b".to_string())),
        _ => panic!("expected a command"),
    }
    match interpret_line("build-target -n 3") {
        LineAction::Run(c) => assert_eq!(c, Command::Build(BuildTarget::ByIndex(3))),
        _ => panic!("expected a command"),
    }
    match interpret_line("build-target home") {
        LineAction::Run(c) => assert_eq!(c, Command::Build(BuildTarget::ByName("home".to_string()))),
        _ => panic!("expected a command"),
    }
    assert!(matches!(interpret_line("nope"), LineAction::Unknown));
    assert!(matches!(interpret_line("mode"), LineAction::Unknown));
}

#[test]
fn labels_parse_back_to_their_commands() {
    for c in [
        Command::BuildAll(Default::default()),
        Command::List(ListFilter::Active),
        Command::Tree,
        Command::History(None),
        Command::CapabilityMap,
        Command::Clear,
        Command::Help,
        Command::Exit,
    ] {
        let label = c.metadata().label;
        let parsed = Command::from_str(label, None).expect("label parses");
        assert_eq!(parsed.metadata().label, label);
    }
    assert_eq!(Command::from_str("mode", None), None);
    assert_eq!(Command::from_str("diff", None), None);
    assert_eq!(Command::from_str("build-target", None), None);
}

#[test]
fn view_metadata() {
    let m = Command::View(Default::default()).metadata();
    assert_eq!(m.label, "view");
    assert_eq!(m.alias, Some("v"));
    assert_eq!(m.weight, 40);
    assert!(!m.hidden);
}

#[test]
fn stripping_a_repeated_prefix() {
    assert_eq!(strip_repeated("-n-n3", "-n"), "3");
    assert_eq!(strip_repeated("abc", ""), "abc");
    assert_eq!(strip_repeated("", "x"), "");
}
