//! A build: its context (identity, start time, directories, modes) and the
//! system that holds the registry, the engines and the bundling service.
use crate::bundle::BundleManifest;
use crate::registry::Registry;
use crate::service::BundleService;
use crate::utter::{builtin_utters, UtterRegistry};
use std::time::Instant;
use vstd::prelude::*;
use vstd::string::*;

verus! {

/// `std::time::Instant`, carried as it is.
#[verifier::external_type_specification]
#[verifier::external_body]
pub struct ExInstant(Instant);

/// One build: its number, when it started, where it reads and writes, and
/// its modes.
pub struct BuildContext {
    pub build_id: u64,
    pub started_at: Instant,
    pub dir_root: String,
    pub dir_out: String,
    pub watch: bool,
    pub clean: bool,
    pub verbose: bool,
}

/// The manifest of a build system's bundling: its directories, nothing
/// stripped from names, output minified and without comments.
pub open spec fn system_manifest(m: BundleManifest, dir_root: Seq<char>, dir_out: Seq<char>) -> bool {
    &&& m.dir_root@ == dir_root
    &&& m.dir_out@ == dir_out
    &&& !m.strip_namespace && !m.strip_tag && !m.strip_utter && !m.strip_variant
        && !m.strip_version
    &&& m.minify && m.remove_comments
}

/// The registry, engines and bundling service of a build.
pub struct BuildSystem {
    pub context: BuildContext,
    pub registry: Registry,
    pub utters: UtterRegistry,
    pub bundle_service: BundleService,
}

impl BuildSystem {
    /// A build system over `registry` (the files found under `dir_root`),
    /// writing to `dir_out`, with the built-in engines, started at
    /// `started_at`: build number 0, no watching, cleaning or verbosity.
    pub fn new(dir_root: String, dir_out: String, registry: Registry, started_at: Instant) -> (r: Self)
        ensures
            r.registry == registry,
            builtin_utters(r.utters),
            r.context.build_id == 0,
            r.context.started_at == started_at,
            r.context.dir_root@ == dir_root@,
            r.context.dir_out@ == dir_out@,
            !r.context.watch && !r.context.clean && !r.context.verbose,
            r.bundle_service.registry.same_as(registry),
            builtin_utters(r.bundle_service.utter_registry),
            system_manifest(r.bundle_service.manifest, dir_root@, dir_out@),
            r.bundle_service.resolver.manifest.same_as(r.bundle_service.manifest),
            r.bundle_service.optimizer.minify && r.bundle_service.optimizer.remove_comments,
            r.bundle_service.symbols@ == Map::<(Seq<char>, Seq<char>), crate::symbol::Symbol>::empty(),
    {
        let utters = UtterRegistry::new();
        let manifest = BundleManifest {
            dir_root: dir_root.clone(),
            dir_out: dir_out.clone(),
            strip_namespace: false,
            strip_tag: false,
            strip_utter: false,
            strip_variant: false,
            strip_version: false,
            minify: true,
            remove_comments: true,
        };
        let bundle_service = BundleService::new(registry.duplicate(), manifest, UtterRegistry::new());
        BuildSystem {
            context: BuildContext {
                build_id: 0,
                started_at,
                dir_root,
                dir_out,
                watch: false,
                clean: false,
                verbose: false,
            },
            registry,
            utters,
            bundle_service,
        }
    }
}

} // verus!
