pub mod decoder;
pub mod ir;
pub mod tier0;
pub mod backend_x86;
pub mod backend_riscv;
pub mod cache;
pub mod roundtrip;

use vstd::prelude::*;
use crate::arch::{ExecutionMode, HostArch, spec_execution_mode};
use crate::jit::cache::{CacheError, MmapExecutionCache, spec_load, fault_matches, loaded_contents, spec_context_hash_at,
    hash_arm64_block_with_context_and_base};
use crate::arch::Arm64CpuContext;
use crate::jit::ir::IrBlock;

verus! {

/// Why an IR hook could not transform a block.
#[derive(Debug, Clone)]
pub struct IrHookError(pub String);

/// Transforms a translated IR block before a native backend compiles it.
pub trait IrHook {
    fn apply(&self, block: &mut IrBlock) -> Result<(), IrHookError>;
}

/// The JIT coordinator's state: the host and an attached execution cache.
pub struct JitEngine {
    pub host_arch: HostArch,
    pub execution_mode: ExecutionMode,
    pub cache: Option<MmapExecutionCache>,
    pub cache_load_base: u64,
    pub hooks: Vec<Box<dyn IrHook>>,
    pub hook_count: usize,
}

impl JitEngine {
    /// The load base the attached cache was built for.
    pub open spec fn spec_cache_load_base(&self) -> u64 {
        self.cache_load_base
    }

    /// How many IR hooks are installed.
    pub closed spec fn spec_hook_count(&self) -> nat {
        self.hook_count as nat
    }

    /// Installs an IR hook, run on each translated block before a native backend compiles it.
    pub fn add_ir_hook<H: IrHook + 'static>(&mut self, hook: H)
        requires
            old(self).spec_hook_count() < usize::MAX,
        ensures
            final(self).spec_hook_count() == old(self).spec_hook_count() + 1,
            final(self).cache == old(self).cache,
            final(self).host_arch == old(self).host_arch,
            final(self).execution_mode == old(self).execution_mode,
            final(self).spec_cache_load_base() == old(self).spec_cache_load_base(),
    {
        self.hooks.push(Box::new(hook));
        self.hook_count = self.hook_count + 1;
    }

    /// Removes every IR hook.
    pub fn clear_ir_hooks(&mut self)
        ensures
            final(self).spec_hook_count() == 0,
            final(self).cache == old(self).cache,
            final(self).host_arch == old(self).host_arch,
            final(self).execution_mode == old(self).execution_mode,
            final(self).spec_cache_load_base() == old(self).spec_cache_load_base(),
    {
        self.hooks.clear();
        self.hook_count = 0;
    }

    /// Whether an IR hook is installed.
    pub fn has_ir_hooks(&self) -> (r: bool)
        ensures
            r == (self.spec_hook_count() > 0),
    {
        self.hook_count > 0
    }

    /// An engine for `host_arch`, with no cache.
    pub fn new(host_arch: HostArch) -> (r: JitEngine)
        ensures
            r.host_arch == host_arch,
            r.execution_mode == spec_execution_mode(host_arch),
            r.cache is None,
            r.spec_cache_load_base() == 0,
            r.spec_hook_count() == 0,
    {
        JitEngine { host_arch, execution_mode: host_arch.execution_mode(), cache: None, cache_load_base: 0, hooks: Vec::new(), hook_count: 0 }
    }

    /// Attaches an execution cache.
    pub fn set_cache(&mut self, cache: MmapExecutionCache)
        ensures
            final(self).cache == Some(cache),
            final(self).host_arch == old(self).host_arch,
            final(self).execution_mode == old(self).execution_mode,
            final(self).spec_cache_load_base() == old(self).spec_cache_load_base(),
            final(self).spec_hook_count() == old(self).spec_hook_count(),
    {
        self.cache = Some(cache);
    }

    /// Whether the attached cache holds code for `opcodes` run from `ctx`, for a library at the
    /// cache's load base; never while IR hooks are installed, since they change the code.
    pub fn has_cached_block(&self, ctx: &Arm64CpuContext, opcodes: &[u32]) -> (r: bool)
        requires
            self.cache matches Some(c) ==> c.region.inv(),
        ensures
            r == self.spec_has_cached(self.spec_cache_load_base(), *ctx, opcodes@),
    {
        self.has_cached_block_for_library(self.cache_load_base, ctx, opcodes)
    }

    /// Whether the attached cache holds code for `opcodes` run from `ctx`, for a library
    /// loaded at `load_base`; never while IR hooks are installed.
    pub fn has_cached_block_for_library(&self, load_base: u64, ctx: &Arm64CpuContext, opcodes: &[u32]) -> (r: bool)
        requires
            self.cache matches Some(c) ==> c.region.inv(),
        ensures
            r == self.spec_has_cached(load_base, *ctx, opcodes@),
    {
        if self.has_ir_hooks() {
            return false;
        }
        let hash = hash_arm64_block_with_context_and_base(load_base, ctx, opcodes);
        match &self.cache {
            Some(cache) => cache.lookup_block(hash).is_some(),
            None => false,
        }
    }

    /// What `has_cached_block_for_library` answers: no hooks, and the cache has a block in its
    /// region for the library-relative context hash.
    pub open spec fn spec_has_cached(&self, load_base: u64, ctx: Arm64CpuContext, ops: Seq<u32>) -> bool {
        &&& self.spec_hook_count() == 0
        &&& self.cache matches Some(c) && {
            let h = spec_context_hash_at(load_base, ctx, ops);
            &&& c.entries@.contains_key(h)
            &&& c.entries@[h].1 > 0
            &&& c.entries@[h].0 + c.entries@[h].1 <= c.region.spec_len()
        }
    }

    /// Loads an execution cache from its bytes, for libraries at their link-time addresses.
    pub fn load_cache(&mut self, bytes: &[u8]) -> (r: Result<(), CacheError>)
        ensures
            spec_load(bytes@, old(self).host_arch) matches Err(f) ==> (r matches Err(e) && fault_matches(e, f, old(self).host_arch))
                && final(self).cache == old(self).cache,
            spec_load(bytes@, old(self).host_arch) is Ok ==> r is Ok,
            r is Ok ==> (final(self).cache matches Some(c) && c.host_arch == old(self).host_arch)
                && final(self).spec_cache_load_base() == 0,
            spec_load(bytes@, old(self).host_arch) matches Ok((m, len)) ==> (final(self).cache matches Some(c)
                && c.entries@ == m && c.region.inv() && c.region.spec_len() == len && c.region.spec_prot().0 == 5
                && c.region.contents() == loaded_contents(bytes@, len)),
            final(self).spec_hook_count() == old(self).spec_hook_count(),
            final(self).host_arch == old(self).host_arch,
            final(self).execution_mode == old(self).execution_mode,
    {
        self.load_cache_for_base(bytes, 0)
    }

    /// Loads an execution cache from its bytes, built for a library loaded at `load_base`.
    pub fn load_cache_for_base(&mut self, bytes: &[u8], load_base: u64) -> (r: Result<(), CacheError>)
        ensures
            spec_load(bytes@, old(self).host_arch) matches Err(f) ==> (r matches Err(e) && fault_matches(e, f, old(self).host_arch))
                && final(self).cache == old(self).cache,
            spec_load(bytes@, old(self).host_arch) is Ok ==> r is Ok,
            r is Ok ==> (final(self).cache matches Some(c) && c.host_arch == old(self).host_arch)
                && final(self).spec_cache_load_base() == load_base,
            spec_load(bytes@, old(self).host_arch) matches Ok((m, len)) ==> (final(self).cache matches Some(c)
                && c.entries@ == m && c.region.inv() && c.region.spec_len() == len && c.region.spec_prot().0 == 5
                && c.region.contents() == loaded_contents(bytes@, len)),
            final(self).spec_hook_count() == old(self).spec_hook_count(),
            final(self).host_arch == old(self).host_arch,
            final(self).execution_mode == old(self).execution_mode,
    {
        let cache = MmapExecutionCache::load_from_bytes(bytes, self.host_arch)?;
        self.cache_load_base = load_base;
        self.set_cache(cache);
        Ok(())
    }
}

} // verus!
