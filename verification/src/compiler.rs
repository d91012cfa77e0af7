//! The compiler's bookkeeping: caches, the invalidation policy, the work
//! queues, and the dependency graph between symbols.
use crate::bundle::IR;
use std::collections::HashMap;
use std::collections::HashSet;
use vstd::prelude::*;
use vstd::string::*;

verus! {

broadcast use vstd::std_specs::hash::group_hash_axioms;

/// Compiled bytes by name.
pub struct CompilationCache {
    pub cache: Vec<(String, Vec<u8>)>,
}

impl CompilationCache {
    pub fn new() -> (r: Self)
        ensures
            r.cache@.len() == 0,
    {
        CompilationCache { cache: Vec::new() }
    }
}

/// A cache kept on disk, at a path when one is set.
pub struct PersistentCache {
    pub disk_path: Option<String>,
}

impl PersistentCache {
    pub fn new() -> (r: Self)
        ensures
            r.disk_path is None,
    {
        PersistentCache { disk_path: None }
    }
}

/// Text by name, kept in memory.
pub struct MemoryCache {
    pub map: Vec<(String, String)>,
}

impl MemoryCache {
    pub fn new() -> (r: Self)
        ensures
            r.map@.len() == 0,
    {
        MemoryCache { map: Vec::new() }
    }
}

/// When cached results are dropped.
pub struct CachePolicy;

impl CachePolicy {
    /// Every cached result is invalidated, whatever its key.
    pub fn should_invalidate(&self, key: &str) -> (r: bool)
        ensures
            r,
    {
        true
    }
}

/// A cache shared over the network.
pub struct NetworkCache;

/// Hands work out to workers.
pub struct TaskScheduler;

impl TaskScheduler {
    pub fn new() -> (r: Self) {
        TaskScheduler
    }
}

/// Names of pending jobs, oldest first.
pub struct JobQueue {
    pub jobs: Vec<String>,
}

impl JobQueue {
    pub fn new() -> (r: Self)
        ensures
            r.jobs@.len() == 0,
    {
        JobQueue { jobs: Vec::new() }
    }
}

/// The priority of each job, by name.
pub struct PrioritySystem {
    pub priority_map: Vec<(String, u8)>,
}

impl PrioritySystem {
    pub fn new() -> (r: Self)
        ensures
            r.priority_map@.len() == 0,
    {
        PrioritySystem { priority_map: Vec::new() }
    }
}

/// Extensions of the compiler.
pub struct PluginSystem;

/// Which symbols depend on which, both ways, with cached closures and the
/// cycles found.
pub struct DependencyGraph {
    pub forward: HashMap<u64, HashSet<u64>>,
    pub reverse: HashMap<u64, HashSet<u64>>,
    pub transitive_closure_cache: HashMap<u64, HashSet<u64>>,
    pub cycles: Vec<Vec<u64>>,
}

impl DependencyGraph {
    pub fn new() -> (r: Self)
        ensures
            r.forward@ == Map::<u64, HashSet<u64>>::empty(),
            r.reverse@ == Map::<u64, HashSet<u64>>::empty(),
            r.transitive_closure_cache@ == Map::<u64, HashSet<u64>>::empty(),
            r.cycles@.len() == 0,
    {
        DependencyGraph {
            forward: HashMap::new(),
            reverse: HashMap::new(),
            transitive_closure_cache: HashMap::new(),
            cycles: Vec::new(),
        }
    }
}

/// Results of earlier builds, by content hash.
pub struct BuildCache {
    pub object_cache: HashMap<u64, Vec<u8>>,
    pub ir_cache: HashMap<u64, IR>,
    pub symbol_cache: HashMap<u64, Vec<u8>>,
    pub timestamps: Vec<(String, u64)>,
    pub cache_version: u32,
}

impl BuildCache {
    pub fn new() -> (r: Self)
        ensures
            r.object_cache@ == Map::<u64, Vec<u8>>::empty(),
            r.ir_cache@ == Map::<u64, IR>::empty(),
            r.symbol_cache@ == Map::<u64, Vec<u8>>::empty(),
            r.timestamps@.len() == 0,
            r.cache_version == 0,
    {
        BuildCache {
            object_cache: HashMap::new(),
            ir_cache: HashMap::new(),
            symbol_cache: HashMap::new(),
            timestamps: Vec::new(),
            cache_version: 0,
        }
    }

    /// Keeps `artifact` as the object code of content `hash`.
    pub fn insert_artifact(&mut self, hash: u64, artifact: Vec<u8>)
        ensures
            final(self).object_cache@ == old(self).object_cache@.insert(hash, artifact),
            final(self).ir_cache@ == old(self).ir_cache@,
            final(self).symbol_cache@ == old(self).symbol_cache@,
            final(self).timestamps == old(self).timestamps,
            final(self).cache_version == old(self).cache_version,
    {
        self.object_cache.insert(hash, artifact);
    }

    /// Keeps `ir` as the IR of content `hash`.
    pub fn insert_ir(&mut self, hash: u64, ir: IR)
        ensures
            final(self).ir_cache@ == old(self).ir_cache@.insert(hash, ir),
            final(self).object_cache@ == old(self).object_cache@,
            final(self).symbol_cache@ == old(self).symbol_cache@,
            final(self).timestamps == old(self).timestamps,
            final(self).cache_version == old(self).cache_version,
    {
        self.ir_cache.insert(hash, ir);
    }

    /// Keeps `output` as the output of symbol `hash`.
    pub fn insert_symbol(&mut self, hash: u64, output: Vec<u8>)
        ensures
            final(self).symbol_cache@ == old(self).symbol_cache@.insert(hash, output),
            final(self).object_cache@ == old(self).object_cache@,
            final(self).ir_cache@ == old(self).ir_cache@,
            final(self).timestamps == old(self).timestamps,
            final(self).cache_version == old(self).cache_version,
    {
        self.symbol_cache.insert(hash, output);
    }
}

} // verus!
