use loi::compiler::{BuildCache, CachePolicy, JobQueue, PrioritySystem};
use loi::config::{CliArgs, CompileConfig, CompileStage, CompileTarget, Config, ConfigResolver, ConfigSource};
use loi::diagnostic::{CompileError, Diagnostic, DiagnosticStore, Logger, Severity, Span};
use loi::lang::{map_binop, BinOp, CompilerError, Error, Identifiers_06, MultiChar_02, Op, SingleChar_03, Structural_04};
use loi::lower::{lower_ast_to_ir, lower_expr_to_ir, lower_expr_to_ir_inner, Expr, IROp, IRVal, Stmt, AST};
use loi::lang::DeclKind;

fn cli(input: Option<&str>, output: Option<&str>, watch: bool) -> CliArgs {
    CliArgs { input: input.map(|s| s.to_string()), output: output.map(|s| s.to_string()), watch }
}

#[test]
fn defaults_when_no_layer() {
    let c = ConfigResolver::resolve(vec![]);
    assert_eq!(c.root, "./targets/syntax");
    assert_eq!(c.name, "project");
    assert_eq!(c.input.as_deref(), Some("./targets/syntax"));
    assert_eq!(c.output.as_deref(), Some("./build"));
    assert!(!c.watch);
    assert_eq!(c.concurrency, 1);
    assert_eq!(c.target, CompileTarget::Build);
    assert_eq!(c.stage, CompileStage::Backend);
}

#[test]
fn command_line_layer_overrides_what_it_gives() {
    let c = ConfigResolver::resolve(vec![ConfigSource::Cli(cli(Some("in"), None, true))]);
    assert_eq!(c.input.as_deref(), Some("in"));
    assert_eq!(c.output.as_deref(), Some("./build"));
    assert!(c.watch);
    let d = ConfigResolver::resolve(vec![
        ConfigSource::Cli(cli(Some("in"), Some("out"), true)),
        ConfigSource::ReplOverrides,
    ]);
    assert_eq!(d.output.as_deref(), Some("out"));
}

#[test]
fn file_and_defaults_layers_reset() {
    let c = ConfigResolver::resolve(vec![
        ConfigSource::Cli(cli(Some("in"), Some("out"), true)),
        ConfigSource::File("loi.toml".to_string()),
    ]);
    assert_eq!(c.input.as_deref(), Some("./targets/syntax"));
    assert!(!c.watch);
    let d = ConfigResolver::resolve(vec![ConfigSource::Cli(cli(None, None, true)), ConfigSource::Defaults]);
    assert!(!d.watch);
}

#[test]
fn merge_falls_back_on_base_paths() {
    let base = Config::default();
    let mut overlay = Config::default();
    overlay.input = None;
    overlay.output = Some("x".to_string());
    overlay.name = "other".to_string();
    let m = ConfigResolver::merge(base, overlay);
    assert_eq!(m.input.as_deref(), Some("./targets/syntax"));
    assert_eq!(m.output.as_deref(), Some("x"));
    assert_eq!(m.name, "other");
}

#[test]
fn compile_config_fills_open_paths() {
    let mut c = Config::default();
    c.input = None;
    c.output = None;
    let cc = CompileConfig::from_config(c);
    assert_eq!(cc.input, "./targets/syntax");
    assert_eq!(cc.output, "./build");
    let d = CompileConfig::default();
    assert_eq!(d.root, "./targets/fs");
    assert_eq!(d.output, "./output/fs");
}

#[test]
fn store_counts_errors_and_halts() {
    let mut store = DiagnosticStore::new(true);
    assert!(store.is_empty());
    let span = Span { start: 1, end: 4 };
    assert!(!store.emit(Diagnostic::warning("careful", span)));
    assert!(!store.has_errors());
    assert!(store.check_halt().is_ok());
    assert!(store.emit(Diagnostic::error("broken", span).with_note("see here").with_code("E1")));
    assert_eq!(store.error_count, 1);
    assert!(store.has_errors());
    assert_eq!(store.flush_lines(), vec!["[Warning] careful".to_string(), "[Error] broken".to_string()]);
    match store.check_halt() {
        Err(CompileError::Stage { stage, source }) => {
            assert_eq!(stage, "frontend");
            assert_eq!(source.0.diagnostics.len(), 2);
            assert_eq!(source.0.diagnostics[1].notes, vec!["see here".to_string()]);
            assert_eq!(source.0.diagnostics[1].code.as_deref(), Some("E1"));
        }
        _ => panic!("expected a stage failure"),
    }
    store.clear();
    assert!(store.is_empty());
    assert!(store.diagnostics.is_empty());
    let mut quiet = DiagnosticStore::new(false);
    assert!(!quiet.emit(Diagnostic::new("x", span, Severity::Error)));
}

#[test]
fn logger_prefixes_lines() {
    assert_eq!(Logger::test().line("hi"), "[LOG] hi");
}

#[test]
fn operators_and_tokens() {
    assert_eq!(map_binop(BinOp::Add), Op::Add);
    assert_eq!(map_binop(BinOp::Div), Op::Div);
    assert_eq!(MultiChar_02::Eq.text(), "==");
    assert_eq!(MultiChar_02::Immutable.text(), "=!");
    assert_eq!(SingleChar_03::Power.text(), "^");
    assert_eq!(Structural_04::Semicolon.text(), ";");
    assert_eq!(Identifiers_06::Function.text(), "fn");
    assert_eq!(Identifiers_06::Do.text(), "Do");
}

#[test]
fn error_messages_name_the_stage() {
    assert_eq!(CompilerError::Lexer("bad".to_string()).message(), "Lexer Error: bad");
    assert_eq!(CompilerError::Io("gone".to_string()).message(), "IO Error: gone");
    assert_eq!(Error::Backend("link".to_string()).message(), "Backend Error: link");
}

fn num(x: f64) -> Expr {
    Expr::Number(x.to_bits())
}

fn var(n: &str) -> Expr {
    Expr::Var(n.to_string())
}

#[test]
fn binary_lowers_to_one_op_and_a_temporary() {
    let e = Expr::Binary { left: Box::new(num(1.0)), op: BinOp::Add, right: Box::new(var("x")) };
    let mut ops = Vec::new();
    let mut counter = 0usize;
    let v = lower_expr_to_ir_inner(e, &mut ops, &mut counter).ok().unwrap();
    assert!(matches!(v, IRVal::Temp(ref t) if t == "__t0"));
    assert_eq!(counter, 1);
    assert_eq!(ops.len(), 1);
    match &ops[0] {
        IROp::Binary { left: IRVal::Number(b), op: BinOp::Add, right: IRVal::Var(x) } => {
            assert_eq!(f64::from_bits(*b), 1.0);
            assert_eq!(x, "x");
        }
        _ => panic!("expected a binary op"),
    }
}

#[test]
fn temporaries_are_numbered_in_order() {
    let inner = Expr::Binary { left: Box::new(var("a")), op: BinOp::Mul, right: Box::new(var("b")) };
    let arr = Expr::Array(vec![num(2.0), inner]);
    let ops = lower_expr_to_ir(arr).ok().unwrap();
    assert_eq!(ops.len(), 2);
    match &ops[1] {
        IROp::Array { values } => {
            assert_eq!(values.len(), 2);
            assert!(matches!(&values[1], IRVal::Temp(t) if t == "__t0"));
        }
        _ => panic!("expected an array op"),
    }
    let mut ops2 = Vec::new();
    let mut counter = 0usize;
    let first = lower_expr_to_ir_inner(Expr::Binary { left: Box::new(var("a")), op: BinOp::Add, right: Box::new(var("b")) }, &mut ops2, &mut counter).ok().unwrap();
    let second = lower_expr_to_ir_inner(Expr::Binary { left: Box::new(var("c")), op: BinOp::Sub, right: Box::new(var("d")) }, &mut ops2, &mut counter).ok().unwrap();
    match (first, second) {
        (IRVal::Temp(a), IRVal::Temp(b)) => {
            assert_eq!(a, "__t0");
            assert_eq!(b, "__t1");
        }
        _ => panic!("expected temporaries"),
    }
}

#[test]
fn assignment_needs_a_variable() {
    let bad = Expr::Assign { left: Box::new(num(1.0)), right: Box::new(var("y")), op: loi::lang::AssignOp::Assign };
    match lower_expr_to_ir(bad) {
        Err(CompileError::Middle(m)) => assert_eq!(m, "assignment target must be variable"),
        _ => panic!("expected an error"),
    }
    let call = Expr::Call { callee: Box::new(var("f")), args: vec![] };
    match lower_expr_to_ir(call) {
        Err(CompileError::Middle(m)) => assert_eq!(m, "unsupported expression lower_expr_to_ir_inner"),
        _ => panic!("expected an error"),
    }
}

#[test]
fn programs_lower_their_bindings() {
    let ast = AST {
        stmts: vec![
            Stmt::Let {
                name: "x".to_string(),
                kind: DeclKind::MutableStatic,
                value: Expr::Binary { left: Box::new(num(1.0)), op: BinOp::Add, right: Box::new(num(2.0)) },
            },
            Stmt::Print { expr: var("x") },
            Stmt::Let { name: "y".to_string(), kind: DeclKind::Dynamic, value: var("x") },
        ],
        expr: None,
    };
    let ops = lower_ast_to_ir(ast).ok().unwrap();
    assert_eq!(ops.len(), 3);
    assert!(matches!(&ops[1], IROp::Assign { name, value: IRVal::Temp(t) } if name == "x" && t == "__t0"));
    assert!(matches!(&ops[2], IROp::Assign { name, value: IRVal::Var(v) } if name == "y" && v == "x"));
}

#[test]
fn caches_and_queues_start_empty() {
    assert!(CachePolicy.should_invalidate("anything"));
    assert!(JobQueue::new().jobs.is_empty());
    assert!(PrioritySystem::new().priority_map.is_empty());
    let mut cache = BuildCache::new();
    cache.insert_artifact(7, vec![1, 2]);
    cache.insert_artifact(7, vec![3]);
    assert_eq!(cache.object_cache.get(&7), Some(&vec![3]));
    cache.insert_symbol(8, vec![9]);
    assert_eq!(cache.symbol_cache.len(), 1);
}

#[test]
fn whole_lowering_matches_stepwise_lowering_from_nothing() {
    let make = || Expr::Array(vec![var("a"), Expr::Binary { left: Box::new(var("b")), op: BinOp::Sub, right: Box::new(num(2.0)) }]);
    let whole = lower_expr_to_ir(make()).ok().unwrap();
    let mut ops = Vec::new();
    let mut counter = 0usize;
    assert!(lower_expr_to_ir_inner(make(), &mut ops, &mut counter).is_ok());
    assert_eq!(whole.len(), ops.len());
    assert_eq!(counter, 2);
    assert!(matches!(&whole[0], IROp::Binary { left: IRVal::Var(b), op: BinOp::Sub, .. } if b == "b"));
    assert!(matches!(&ops[0], IROp::Binary { left: IRVal::Var(b), op: BinOp::Sub, .. } if b == "b"));
    assert!(matches!(&whole[1], IROp::Array { values } if values.len() == 2));
    assert!(matches!(&ops[1], IROp::Array { values } if values.len() == 2));
}
