//! The runtime: the symbol registry with the Bionic shims, the guest address space, the
//! loaded libraries, and the Android managers.

use vstd::prelude::*;
use crate::arch::{ExecutionMode, HostArch, spec_execution_mode};
use crate::bionic::{register_bionic_shims, shims_registered, BIONIC_SHIM_COUNT};
use crate::lifecycle::{InputDispatcher, RuntimeLifecycle};
use crate::linker::loader::{ElfLoader, LoadedLibrary, LoaderError, loaded_ok};
use crate::linker::symbols::SymbolRegistry;
use crate::managers::{ActivityManager, ApplicationInfo, PackageManager, WindowManager};
use crate::memory::mmap::{VirtualMemoryManager, GUEST_MAP_BASE};
use crate::art::{AndroidRuntimeBundle, ArtBackend, ArtConfig, ArtError, ArtRuntime, FakeArtBackend, RuntimeBundleCatalog,
    files_ready, spec_discover, bundle_dir};
use crate::api_policy::{chosen, default_policy, ApiPolicyError};
use crate::ipc::{BinderRegistry, ServiceBinding};
use crate::jit::JitEngine;
use crate::jit::cache::{CacheError, spec_load, fault_matches};

verus! {

/// The runtime's state. `B` is the type of the ART backend that may be attached to `art`.
pub struct LarRuntime<B = FakeArtBackend> {
    pub host_arch: HostArch,
    pub execution_mode: ExecutionMode,
    pub symbol_registry: SymbolRegistry,
    pub memory: VirtualMemoryManager,
    pub jit_engine: JitEngine,
    pub loaded_libraries: Vec<LoadedLibrary>,
    pub art: ArtRuntime<B>,
    pub binder: BinderRegistry,
    pub activity_manager: ActivityManager,
    pub package_manager: PackageManager,
    pub window_manager: WindowManager,
    pub input_dispatcher: InputDispatcher,
    pub lifecycle: RuntimeLifecycle,
}

/// The registry right after the Bionic shims at `shims` were registered into an empty one.
pub open spec fn initial_symbols(shims: Seq<usize>) -> Map<Seq<char>, usize> {
    shims_registered(Map::empty(), shims, BIONIC_SHIM_COUNT as int)
}

/// Why an application could not be started.
#[derive(Debug)]
pub enum StartApplicationError {
    UnknownPackage,
    MissingLauncher,
    Art(ArtError),
}

impl LarRuntime {
    /// A runtime for `host_arch`, with the Bionic shims at `shims` registered, the core
    /// services bound, nothing loaded, and ART neither located nor given a backend.
    pub fn new(host_arch: HostArch, shims: &[usize]) -> (r: LarRuntime)
        requires
            shims@.len() == BIONIC_SHIM_COUNT,
        ensures
            r.wf(),
            r.host_arch == host_arch,
            r.execution_mode == spec_execution_mode(host_arch),
            r.symbol_registry.view() == initial_symbols(shims@),
            r.memory.spec_next_base() == GUEST_MAP_BASE,
            r.loaded_libraries@.len() == 0,
            r.activity_manager.spec_stack().len() == 0,
            r.package_manager.applications() == Map::<Seq<char>, ApplicationInfo>::empty(),
            r.lifecycle == RuntimeLifecycle::Created,
            r.art.spec_config().libart is None && r.art.spec_config().dex2oat is None,
            !r.art.spec_initialized() && r.art.spec_backend() is None,
            r.binder.spec_services().contains_key("activity"@),
    {
        Self::with_art(host_arch, ArtRuntime::with_config(ArtConfig { libart: None, dex2oat: None, classpath: Vec::new() }), shims)
    }
}

impl<B: ArtBackend> LarRuntime<B> {
    /// Whether the parts keep their invariants.
    pub open spec fn wf(&self) -> bool {
        &&& self.symbol_registry.wf()
        &&& self.memory.inv()
        &&& self.activity_manager.wf()
        &&& self.package_manager.wf()
        &&& self.binder.wf()
    }

    /// A runtime for `host_arch` using `art`, with the Bionic shims at `shims` registered, the core
    /// services bound and nothing loaded.
    pub fn with_art(host_arch: HostArch, art: ArtRuntime<B>, shims: &[usize]) -> (r: LarRuntime<B>)
        requires
            shims@.len() == BIONIC_SHIM_COUNT,
        ensures
            r.wf(),
            r.host_arch == host_arch,
            r.execution_mode == spec_execution_mode(host_arch),
            r.symbol_registry.view() == initial_symbols(shims@),
            r.memory.spec_next_base() == GUEST_MAP_BASE,
            r.loaded_libraries@.len() == 0,
            r.activity_manager.spec_stack().len() == 0,
            r.package_manager.applications() == Map::<Seq<char>, ApplicationInfo>::empty(),
            r.lifecycle == RuntimeLifecycle::Created,
            r.art == art,
            r.binder.spec_services() == Map::<Seq<char>, ServiceBinding>::empty().insert("activity"@, ServiceBinding::Mock)
                .insert("package"@, ServiceBinding::Mock).insert("window"@, ServiceBinding::Mock)
                .insert("input"@, ServiceBinding::Mock),
            r.jit_engine.host_arch == host_arch && r.jit_engine.cache is None,
    {
        let mut symbol_registry = SymbolRegistry::new();
        register_bionic_shims(&mut symbol_registry, shims);
        let mut binder = BinderRegistry::new();
        binder.register_core_services();
        LarRuntime {
            host_arch,
            execution_mode: host_arch.execution_mode(),
            symbol_registry,
            memory: VirtualMemoryManager::new(),
            jit_engine: JitEngine::new(host_arch),
            loaded_libraries: Vec::new(),
            art,
            binder,
            activity_manager: ActivityManager::new(),
            package_manager: PackageManager::new(),
            window_manager: WindowManager::new(),
            input_dispatcher: InputDispatcher::new(),
            lifecycle: RuntimeLifecycle::Created,
        }
    }

    /// Loads a shared library from its bytes into the next free guest region, linking it
    /// against the registry, and keeps it.
    pub fn load_library(&mut self, name: &str, bytes: &[u8]) -> (r: Result<&LoadedLibrary, LoaderError>)
        requires
            old(self).wf(),
        ensures
            final(self).wf(),
            crate::linker::elf::ehdr_error(bytes@) matches Some(e) ==> r matches Err(LoaderError::Elf(x)) && x == e,
            match r {
                Ok(lib) => final(self).loaded_libraries@ == old(self).loaded_libraries@.push(*lib)
                    && loaded_ok(*lib, name@, old(self).memory.spec_next_base(), old(self).symbol_registry.view(),
                        final(self).symbol_registry.view()),
                Err(_) => final(self).loaded_libraries@ == old(self).loaded_libraries@,
            },
            r is Ok <==> crate::linker::loader::library_loads(bytes@, old(self).memory.spec_next_base(),
                old(self).symbol_registry.view()),
    {
        let loaded = ElfLoader::load_from_memory_in(name, bytes, &mut self.symbol_registry, &mut self.memory)?;
        self.loaded_libraries.push(loaded);
        let k = self.loaded_libraries.len() - 1;
        Ok(&self.loaded_libraries[k])
    }

    /// The address of a symbol, from a loaded library or a Bionic shim.
    pub fn resolve_symbol(&self, name: &str) -> (r: Option<usize>)
        requires
            self.wf(),
        ensures
            r == (if self.symbol_registry.view().contains_key(name@) {
                Some(self.symbol_registry.view()[name@])
            } else {
                None::<usize>
            }),
    {
        self.symbol_registry.resolve(name)
    }

    /// How many libraries are loaded.
    pub fn loaded_library_count(&self) -> (r: usize)
        ensures
            r == self.loaded_libraries@.len(),
    {
        self.loaded_libraries.len()
    }

    /// Records an installed application with the package manager.
    pub fn install_application(&mut self, application: ApplicationInfo)
        requires
            old(self).wf(),
        ensures
            final(self).wf(),
            final(self).package_manager.applications()
                == old(self).package_manager.applications().insert(application.package@, application),
    {
        self.package_manager.install_application(application);
    }

    /// Loads an execution cache for the JIT from its bytes.
    pub fn load_execution_cache(&mut self, bytes: &[u8]) -> (r: Result<(), CacheError>)
        ensures
            spec_load(bytes@, old(self).jit_engine.host_arch) matches Err(f) ==> (r matches Err(e)
                && fault_matches(e, f, old(self).jit_engine.host_arch)) && final(self).jit_engine.cache == old(self).jit_engine.cache,
            spec_load(bytes@, old(self).jit_engine.host_arch) is Ok ==> r is Ok,
            r is Ok ==> final(self).jit_engine.cache is Some,
            final(self).jit_engine.host_arch == old(self).jit_engine.host_arch,
    {
        self.jit_engine.load_cache(bytes)
    }

    /// Configures ART from a runtime bundle and initializes it by checking that the bundle's
    /// files exist. Any attached backend is dropped.
    pub fn configure_runtime_bundle(&mut self, bundle: &AndroidRuntimeBundle, present_files: &[String])
        -> (r: Result<(), ArtError>)
        ensures
            final(self).art.spec_backend() is None,
            final(self).art.spec_config().libart matches Some(l) && l@ == bundle.libart@,
            final(self).art.spec_config().dex2oat matches Some(d) && d@ == bundle.dex2oat@,
            final(self).art.spec_config().classpath@.map_values(|s: String| s@)
                == seq![bundle.core_oj@, bundle.core_libart@, bundle.framework@],
            r is Ok <==> files_ready(final(self).art.spec_config(), present_files@),
            r is Ok <==> final(self).art.spec_initialized(),
            r is Err ==> r matches Err(ArtError::Unavailable),
    {
        self.art = ArtRuntime::from_bundle(bundle);
        self.art.initialize(present_files)
    }

    /// Configures ART from the bundle the catalog gives for an APK with these SDK
    /// requirements.
    pub fn configure_runtime_from_catalog(&mut self, catalog: &RuntimeBundleCatalog, min_sdk: Option<u32>,
        target_sdk: Option<u32>, present_files: &[String]) -> (r: Result<(), ArtError>)
        ensures
            match chosen(catalog.metadata@, default_policy(), Some((min_sdk, target_sdk))) {
                None => (r matches Err(ArtError::Policy(e)) && e == ApiPolicyError::NoSupportedBundle) && *final(self) == *old(self),
                Some(i) => match spec_discover(bundle_dir(catalog.root@, catalog.metadata@[i].api.0), present_files@) {
                    None => (r matches Err(ArtError::InvalidBundle)) && *final(self) == *old(self),
                    Some(p) => {
                        &&& final(self).art.spec_backend() is None
                        &&& final(self).art.spec_config().libart matches Some(l) && l@ == p.libart
                        &&& final(self).art.spec_config().dex2oat matches Some(d) && d@ == p.dex2oat
                        &&& final(self).art.spec_config().classpath@.map_values(|s: String| s@)
                            == seq![p.core_oj, p.core_libart, p.framework]
                        &&& (r is Ok <==> files_ready(final(self).art.spec_config(), present_files@))
                        &&& (r is Ok <==> final(self).art.spec_initialized())
                        &&& (r is Err ==> r matches Err(ArtError::Unavailable))
                    },
                },
            },
    {
        let bundle = catalog.resolve_for_apk(min_sdk, target_sdk, present_files)?;
        self.configure_runtime_bundle(&bundle, present_files)
    }

    /// Starts an installed application: ART starts it, then its launcher activity is put on
    /// top of the activity stack and the runtime is started.
    pub fn start_application(&mut self, package: &str) -> (r: Result<u64, StartApplicationError>)
        requires
            old(self).wf(),
            old(self).activity_manager.spec_next_id() < u64::MAX,
        ensures
            final(self).wf(),
            final(self).package_manager == old(self).package_manager,
            !old(self).package_manager.applications().contains_key(package@)
                ==> (r matches Err(StartApplicationError::UnknownPackage)) && *final(self) == *old(self),
            old(self).package_manager.applications().contains_key(package@) && !old(self).art.spec_initialized()
                ==> r matches Err(StartApplicationError::Art(ArtError::NotInitialized)),
            old(self).package_manager.applications().contains_key(package@) && old(self).art.spec_initialized()
                && old(self).art.spec_backend() is None ==> r matches Err(StartApplicationError::Art(ArtError::Unavailable)),
            r is Err ==> final(self).activity_manager == old(self).activity_manager
                && final(self).lifecycle == old(self).lifecycle,
            r matches Err(StartApplicationError::MissingLauncher) ==>
                old(self).package_manager.applications()[package@].launcher_activity is None,
            r matches Ok(id) ==> {
                let app = old(self).package_manager.applications()[package@];
                &&& old(self).package_manager.applications().contains_key(package@)
                &&& app.launcher_activity is Some
                &&& id == old(self).activity_manager.spec_next_id()
                &&& final(self).activity_manager.spec_stack().len() == old(self).activity_manager.spec_stack().len() + 1
                &&& final(self).activity_manager.spec_stack().last().id == id
                &&& final(self).activity_manager.spec_stack().last().package@ == package@
                &&& final(self).activity_manager.spec_stack().last().name@ == app.launcher_activity->Some_0@
                &&& final(self).lifecycle == RuntimeLifecycle::Started
            },
            old(self).package_manager.applications().contains_key(package@)
                && old(self).package_manager.applications()[package@].launcher_activity is None ==> r is Err,
    {
        let application = match self.package_manager.application(package) {
            Some(a) => a,
            None => return Err(StartApplicationError::UnknownPackage),
        };
        let dex: Option<&str> = match &application.dex_path {
            Some(p) => Some(p.as_str()),
            None => None,
        };
        match self.art.start_application(application.package.as_str(), dex) {
            Ok(()) => {},
            Err(e) => return Err(StartApplicationError::Art(e)),
        }
        let activity = match &application.launcher_activity {
            Some(a) => a,
            None => return Err(StartApplicationError::MissingLauncher),
        };
        let id = self.activity_manager.start(package, activity.as_str());
        self.lifecycle = RuntimeLifecycle::Started;
        Ok(id)
    }
}

} // verus!
