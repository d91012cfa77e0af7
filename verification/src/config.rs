//! The compiler's configuration and how it is resolved from layered
//! sources: defaults, files, command-line arguments.
use crate::registry::opt_view;
use vstd::prelude::*;
use vstd::string::*;

verus! {

/// What a compilation produces.
#[derive(Clone, Copy, Debug, PartialEq, Eq, Structural)]
pub enum CompileTarget {
    Build,
    Jit,
    IR,
    Codegen,
}

/// How far a compilation goes.
#[derive(Clone, Copy, Debug, PartialEq, Eq, Structural)]
pub enum CompileStage {
    Parse,
    Analyze,
    Lower,
    Backend,
}

/// The compiler's settings; input and output may be left open.
pub struct Config {
    pub target: CompileTarget,
    pub stage: CompileStage,
    pub root: String,
    pub name: String,
    pub input: Option<String>,
    pub output: Option<String>,
    pub watch: bool,
    pub concurrency: usize,
}

/// The settings of a `Config` as values.
pub struct ConfigView {
    pub target: CompileTarget,
    pub stage: CompileStage,
    pub root: Seq<char>,
    pub name: Seq<char>,
    pub input: Option<Seq<char>>,
    pub output: Option<Seq<char>>,
    pub watch: bool,
    pub concurrency: usize,
}

impl View for Config {
    type V = ConfigView;

    open spec fn view(&self) -> ConfigView {
        ConfigView {
            target: self.target,
            stage: self.stage,
            root: self.root@,
            name: self.name@,
            input: opt_view(self.input),
            output: opt_view(self.output),
            watch: self.watch,
            concurrency: self.concurrency,
        }
    }
}

/// The default settings: the syntax targets, built into `./build`.
pub open spec fn default_config() -> ConfigView {
    ConfigView {
        target: CompileTarget::Build,
        stage: CompileStage::Backend,
        root: "./targets/syntax"@,
        name: "project"@,
        input: Some("./targets/syntax"@),
        output: Some("./build"@),
        watch: false,
        concurrency: 1,
    }
}

impl Default for Config {
    fn default() -> (r: Self)
        ensures
            r@ == default_config(),
    {
        Config {
            root: String::from_str("./targets/syntax"),
            name: String::from_str("project"),
            input: Some(String::from_str("./targets/syntax")),
            output: Some(String::from_str("./build")),
            watch: false,
            concurrency: 1,
            target: CompileTarget::Build,
            stage: CompileStage::Backend,
        }
    }
}

impl Config {
    /// A field-by-field copy.
    pub fn duplicate(&self) -> (r: Self)
        ensures
            r@ == self@,
    {
        Config {
            target: self.target,
            stage: self.stage,
            root: self.root.clone(),
            name: self.name.clone(),
            input: self.input.clone(),
            output: self.output.clone(),
            watch: self.watch,
            concurrency: self.concurrency,
        }
    }
}

/// The settings of a compilation, with input and output decided.
pub struct CompileConfig {
    pub root: String,
    pub name: String,
    pub input: String,
    pub output: String,
    pub watch: bool,
    pub concurrency: usize,
    pub target: CompileTarget,
    pub stage: CompileStage,
}

/// The settings of a `CompileConfig` as values.
pub struct CompileConfigView {
    pub root: Seq<char>,
    pub name: Seq<char>,
    pub input: Seq<char>,
    pub output: Seq<char>,
    pub watch: bool,
    pub concurrency: usize,
    pub target: CompileTarget,
    pub stage: CompileStage,
}

impl View for CompileConfig {
    type V = CompileConfigView;

    open spec fn view(&self) -> CompileConfigView {
        CompileConfigView {
            root: self.root@,
            name: self.name@,
            input: self.input@,
            output: self.output@,
            watch: self.watch,
            concurrency: self.concurrency,
            target: self.target,
            stage: self.stage,
        }
    }
}

/// The default compilation: the file-system targets into `./output/fs`.
pub open spec fn default_compile_config() -> CompileConfigView {
    CompileConfigView {
        root: "./targets/fs"@,
        name: "project"@,
        input: "./targets/fs"@,
        output: "./output/fs"@,
        watch: false,
        concurrency: 1,
        target: CompileTarget::Build,
        stage: CompileStage::Backend,
    }
}

/// A compilation from settings: an open input is the syntax targets, an
/// open output `./build`.
pub open spec fn compile_config_of(c: ConfigView) -> CompileConfigView {
    CompileConfigView {
        root: c.root,
        name: c.name,
        input: match c.input {
            Some(p) => p,
            None => "./targets/syntax"@,
        },
        output: match c.output {
            Some(p) => p,
            None => "./build"@,
        },
        watch: c.watch,
        concurrency: c.concurrency,
        target: c.target,
        stage: c.stage,
    }
}

impl Default for CompileConfig {
    fn default() -> (r: Self)
        ensures
            r@ == default_compile_config(),
    {
        CompileConfig {
            root: String::from_str("./targets/fs"),
            name: String::from_str("project"),
            input: String::from_str("./targets/fs"),
            output: String::from_str("./output/fs"),
            watch: false,
            concurrency: 1,
            target: CompileTarget::Build,
            stage: CompileStage::Backend,
        }
    }
}

impl CompileConfig {
    /// The compilation that settings describe.
    pub fn from_config(cfg: Config) -> (r: Self)
        ensures
            r@ == compile_config_of(cfg@),
    {
        CompileConfig {
            root: cfg.root,
            name: cfg.name,
            input: match cfg.input {
                Some(p) => p,
                None => String::from_str("./targets/syntax"),
            },
            output: match cfg.output {
                Some(p) => p,
                None => String::from_str("./build"),
            },
            watch: cfg.watch,
            concurrency: cfg.concurrency,
            target: cfg.target,
            stage: cfg.stage,
        }
    }
}

/// The command-line arguments that bear on the settings.
pub struct CliArgs {
    pub input: Option<String>,
    pub output: Option<String>,
    pub watch: bool,
}

/// Where a layer of settings comes from.
pub enum ConfigSource {
    Defaults,
    File(String),
    Cli(CliArgs),
    ReplOverrides,
}

/// `overlay`, with `base`'s input and output where `overlay` leaves them
/// open.
pub open spec fn merge_spec(base: ConfigView, overlay: ConfigView) -> ConfigView {
    ConfigView {
        input: match overlay.input {
            Some(p) => Some(p),
            None => base.input,
        },
        output: match overlay.output {
            Some(p) => Some(p),
            None => base.output,
        },
        ..overlay
    }
}

/// The command line's input, output and watch flag over `base`.
pub open spec fn from_cli_spec(base: ConfigView, cli: CliArgs) -> ConfigView {
    ConfigView {
        input: opt_view(cli.input),
        output: opt_view(cli.output),
        watch: cli.watch,
        ..base
    }
}

/// The settings after applying one layer to `c`: defaults reset them, a
/// file's settings (the defaults) and the command line are merged over
/// them, overrides leave them as they are.
pub open spec fn apply_source(c: ConfigView, s: ConfigSource) -> ConfigView {
    match s {
        ConfigSource::Defaults => default_config(),
        ConfigSource::File(_) => merge_spec(c, default_config()),
        ConfigSource::Cli(cli) => merge_spec(c, from_cli_spec(c, cli)),
        ConfigSource::ReplOverrides => c,
    }
}

/// The settings after applying every layer in order to the defaults.
pub open spec fn resolve_spec(sources: Seq<ConfigSource>) -> ConfigView
    decreases sources.len(),
{
    if sources.len() == 0 {
        default_config()
    } else {
        apply_source(resolve_spec(sources.drop_last()), sources.last())
    }
}

/// A defaults layer resets the settings, whatever came before it.
pub proof fn law_defaults_reset(sources: Seq<ConfigSource>)
    ensures
        resolve_spec(sources.push(ConfigSource::Defaults)) == default_config(),
{
    assert(sources.push(ConfigSource::Defaults).drop_last() =~= sources);
}

/// A file layer gives the defaults, whatever came before it: the settings
/// a file gives set input and output, so nothing of the earlier layers
/// shows through.
pub proof fn law_file_layer_resets(sources: Seq<ConfigSource>, path: String)
    ensures
        resolve_spec(sources.push(ConfigSource::File(path))) == default_config(),
{
    assert(sources.push(ConfigSource::File(path)).drop_last() =~= sources);
}

/// An overrides layer changes nothing.
pub proof fn law_overrides_change_nothing(sources: Seq<ConfigSource>)
    ensures
        resolve_spec(sources.push(ConfigSource::ReplOverrides)) == resolve_spec(sources),
{
    assert(sources.push(ConfigSource::ReplOverrides).drop_last() =~= sources);
}

/// A command-line layer sets the watch flag and takes its input and output
/// where it gives them, keeping the earlier ones where it does not; the
/// other settings stay as the earlier layers left them.
pub proof fn law_cli_layer(sources: Seq<ConfigSource>, cli: CliArgs)
    ensures
        ({
            let before = resolve_spec(sources);
            let after = resolve_spec(sources.push(ConfigSource::Cli(cli)));
            &&& after.input == (match opt_view(cli.input) {
                Some(p) => Some(p),
                None => before.input,
            })
            &&& after.output == (match opt_view(cli.output) {
                Some(p) => Some(p),
                None => before.output,
            })
            &&& after.watch == cli.watch
            &&& after.root == before.root && after.name == before.name
            &&& after.concurrency == before.concurrency
            &&& after.target == before.target && after.stage == before.stage
        }),
{
    assert(sources.push(ConfigSource::Cli(cli)).drop_last() =~= sources);
}

/// Resolves settings from layered sources.
pub struct ConfigResolver;

impl ConfigResolver {
    /// The settings that `sources`, applied in order, give.
    pub fn resolve(sources: Vec<ConfigSource>) -> (r: Config)
        ensures
            r@ == resolve_spec(sources@),
    {
        let ghost all = sources@;
        let mut rest = sources;
        let mut rev: Vec<ConfigSource> = Vec::new();
        while rest.len() > 0
            invariant
                all == rest@ + rev@.reverse(),
            decreases rest@.len(),
        {
            let ghost p0 = rest@;
            let ghost r0 = rev@;
            let s = rest.pop().unwrap();
            rev.push(s);
            proof {
                assert(p0 =~= rest@.push(s));
                assert(rev@.reverse() =~= seq![s] + r0.reverse());
                assert(all =~= rest@ + rev@.reverse());
            }
        }
        proof {
            assert(all =~= rev@.reverse());
            assert(all.subrange(0, 0) =~= Seq::<ConfigSource>::empty());
        }
        let mut config = Config::default();
        while rev.len() > 0
            invariant
                rev@.len() <= all.len(),
                all == all.subrange(0, all.len() - rev@.len()) + rev@.reverse(),
                config@ == resolve_spec(all.subrange(0, all.len() - rev@.len())),
            decreases rev@.len(),
        {
            let ghost k = all.len() - rev@.len();
            let ghost r0 = rev@;
            let source = rev.pop().unwrap();
            proof {
                assert(r0.reverse() =~= seq![source] + rev@.reverse());
                assert(all[k] == source) by {
                    assert(all[k] == (all.subrange(0, k) + r0.reverse())[k]);
                }
                assert(all.subrange(0, k + 1).drop_last() =~= all.subrange(0, k));
                assert(all.subrange(0, k + 1).last() == source);
                assert(all =~= all.subrange(0, k + 1) + rev@.reverse());
            }
            match source {
                ConfigSource::Defaults => {
                    config = Config::default();
                },
                ConfigSource::File(path) => {
                    let file_cfg = Self::load_file(path.as_str());
                    config = Self::merge(config, file_cfg);
                },
                ConfigSource::Cli(cli) => {
                    let cli_cfg = Self::from_cli(&config, cli);
                    config = Self::merge(config, cli_cfg);
                },
                ConfigSource::ReplOverrides => {},
            }
        }
        proof {
            assert(all.subrange(0, all.len() as int) =~= all);
        }
        config
    }

    /// `overlay`, with `base`'s input and output where it leaves them open.
    pub fn merge(base: Config, overlay: Config) -> (r: Config)
        ensures
            r@ == merge_spec(base@, overlay@),
    {
        Config {
            root: overlay.root,
            name: overlay.name,
            input: match overlay.input {
                Some(p) => Some(p),
                None => base.input,
            },
            output: match overlay.output {
                Some(p) => Some(p),
                None => base.output,
            },
            watch: overlay.watch,
            concurrency: overlay.concurrency,
            target: overlay.target,
            stage: overlay.stage,
        }
    }

    /// The settings of a configuration file: the defaults, whatever the
    /// file.
    pub fn load_file(path: &str) -> (r: Config)
        ensures
            r@ == default_config(),
    {
        Config::default()
    }

    /// The settings of command-line words: the defaults, whatever the
    /// words.
    pub fn parse_cli(args: Vec<String>) -> (r: Config)
        ensures
            r@ == default_config(),
    {
        Config::default()
    }

    /// The command line's input, output and watch flag over `base`.
    pub fn from_cli(base: &Config, cli: CliArgs) -> (r: Config)
        ensures
            r@ == from_cli_spec(base@, cli),
    {
        Config {
            root: base.root.clone(),
            name: base.name.clone(),
            input: cli.input,
            output: cli.output,
            watch: cli.watch,
            concurrency: base.concurrency,
            target: base.target,
            stage: base.stage,
        }
    }
}

} // verus!
