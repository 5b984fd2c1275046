//! The Android runtime (ART): locating a runtime bundle on the host, the configuration it
//! gives, and starting applications through an ART backend.
//!
//! The host's file system is not read here: the functions that look for files take the list of
//! files that exist among the candidates that `candidate_files` names.

use vstd::prelude::*;
use crate::api_policy::{ApiPolicy, ApiPolicyError, BundleTierMetadata, spec_validate, same_bundle, chosen, default_policy};
use crate::text::{chars_of, push_str, push_decimal, spec_decimal, string_from_chars, str_eq, has_suffix};

verus! {

#[derive(Debug, Clone)]
pub enum ArtError {
    Unavailable,
    InvalidBundle,
    NotInitialized,
    CommandFailed,
    Io(String),
    Policy(ApiPolicyError),
    MissingDex,
}

/// Where the runtime library, the ahead-of-time compiler and the boot class path are.
#[derive(Debug, Clone)]
pub struct ArtConfig {
    pub libart: Option<String>,
    pub dex2oat: Option<String>,
    pub classpath: Vec<String>,
}

/// A runtime bundle found under `root`.
#[derive(Debug, Clone)]
pub struct AndroidRuntimeBundle {
    pub root: String,
    pub libart: String,
    pub dex2oat: String,
    pub core_oj: String,
    pub core_libart: String,
    pub framework: String,
    pub metadata: BundleTierMetadata,
}

/// The bundles a manifest lists, each in a directory under `root`.
#[derive(Debug, Clone)]
pub struct RuntimeBundleCatalog {
    pub root: String,
    pub metadata: Vec<BundleTierMetadata>,
}

/// `rel` under `root`, as `Path::join` gives it for a relative `rel`.
pub open spec fn join_path(root: Seq<char>, rel: Seq<char>) -> Seq<char> {
    if root.len() == 0 {
        rel
    } else if root.last() == '/' {
        root + rel
    } else {
        root + "/"@ + rel
    }
}

/// Joins a relative path to `root`.
pub fn join(root: &str, rel: &str) -> (r: String)
    ensures
        r@ == join_path(root@, rel@),
{
    let rc = chars_of(root);
    let n = rc.len();
    let mut out: Vec<char> = Vec::new();
    push_str(&mut out, root);
    if n > 0 && rc[n - 1] != '/' {
        out.push('/');
    }
    push_str(&mut out, rel);
    proof {
        reveal_strlit("/");
        assert(out@ =~= join_path(root@, rel@));
    }
    string_from_chars(out.as_slice())
}

/// Where `dex2oat` may be, in the order it is looked for.
pub open spec fn dex2oat_paths(root: Seq<char>) -> Seq<Seq<char>> {
    seq![
        join_path(root, "system/apex/com.android.art/bin/dex2oat"@),
        join_path(root, "system/apex/com.android.art/bin/dex2oat64"@),
        join_path(root, "apex/com.android.art/bin/dex2oat"@),
        join_path(root, "apex/com.android.art/bin/dex2oat64"@),
        join_path(root, "system/bin/dex2oat"@),
        join_path(root, "system/bin/dex2oat64"@),
    ]
}

/// Where `libart.so`, `core-oj.jar` and `core-libart.jar` may be, in the order they are
/// looked for.
pub open spec fn runtime_paths(root: Seq<char>) -> Seq<(Seq<char>, Seq<char>, Seq<char>)> {
    seq![
        (
            join_path(root, "system/apex/com.android.art/lib64/libart.so"@),
            join_path(root, "system/apex/com.android.art/javalib/core-oj.jar"@),
            join_path(root, "system/apex/com.android.art/javalib/core-libart.jar"@),
        ),
        (
            join_path(root, "apex/com.android.art/lib64/libart.so"@),
            join_path(root, "apex/com.android.art/javalib/core-oj.jar"@),
            join_path(root, "apex/com.android.art/javalib/core-libart.jar"@),
        ),
        (
            join_path(root, "system/lib64/libart.so"@),
            join_path(root, "system/framework/core-oj.jar"@),
            join_path(root, "system/framework/core-libart.jar"@),
        ),
    ]
}

/// Where `framework.jar` must be.
pub open spec fn framework_path(root: Seq<char>) -> Seq<char> {
    join_path(root, "system/framework/framework.jar"@)
}

/// Whether `p` is among the files that exist.
pub open spec fn present(files: Seq<String>, p: Seq<char>) -> bool {
    exists|i: int| 0 <= i < files.len() && (#[trigger] files[i])@ == p
}

/// The first of `ps` from `k` on that exists.
pub open spec fn first_present(files: Seq<String>, ps: Seq<Seq<char>>, k: int) -> Option<Seq<char>>
    decreases ps.len() - k,
{
    if k < 0 || k >= ps.len() {
        None
    } else if present(files, ps[k]) {
        Some(ps[k])
    } else {
        first_present(files, ps, k + 1)
    }
}

/// The first runtime location from `k` on whose three files and the framework exist.
pub open spec fn first_complete(files: Seq<String>, root: Seq<char>, k: int) -> Option<(Seq<char>, Seq<char>, Seq<char>)>
    decreases 3 - k,
{
    let c = runtime_paths(root);
    if k < 0 || k >= 3 {
        None
    } else if present(files, c[k].0) && present(files, c[k].1) && present(files, c[k].2)
        && present(files, framework_path(root)) {
        Some(c[k])
    } else {
        first_complete(files, root, k + 1)
    }
}

/// The paths of a bundle.
pub struct BundlePaths {
    pub root: Seq<char>,
    pub libart: Seq<char>,
    pub dex2oat: Seq<char>,
    pub core_oj: Seq<char>,
    pub core_libart: Seq<char>,
    pub framework: Seq<char>,
}

/// The bundle under `root`, when `dex2oat` and a complete runtime location exist there.
pub open spec fn spec_discover(root: Seq<char>, files: Seq<String>) -> Option<BundlePaths> {
    match (first_present(files, dex2oat_paths(root), 0), first_complete(files, root, 0)) {
        (Some(d), Some(c)) => Some(BundlePaths {
            root,
            libart: c.0,
            dex2oat: d,
            core_oj: c.1,
            core_libart: c.2,
            framework: framework_path(root),
        }),
        _ => None,
    }
}

/// Whether a bundle has these paths.
pub open spec fn has_paths(b: AndroidRuntimeBundle, p: BundlePaths) -> bool {
    &&& b.root@ == p.root
    &&& b.libart@ == p.libart
    &&& b.dex2oat@ == p.dex2oat
    &&& b.core_oj@ == p.core_oj
    &&& b.core_libart@ == p.core_libart
    &&& b.framework@ == p.framework
}

fn is_present(files: &[String], p: &str) -> (r: bool)
    ensures
        r == present(files@, p@),
{
    let mut i: usize = 0;
    while i < files.len()
        invariant
            0 <= i <= files@.len(),
            forall|j: int| 0 <= j < i ==> (#[trigger] files@[j])@ != p@,
        decreases files@.len() - i,
    {
        if str_eq(files[i].as_str(), p) {
            return true;
        }
        i = i + 1;
    }
    false
}

fn dex2oat_candidates(root: &str) -> (r: Vec<String>)
    ensures
        r@.map_values(|s: String| s@) == dex2oat_paths(root@),
{
    let mut v: Vec<String> = Vec::new();
    v.push(join(root, "system/apex/com.android.art/bin/dex2oat"));
    v.push(join(root, "system/apex/com.android.art/bin/dex2oat64"));
    v.push(join(root, "apex/com.android.art/bin/dex2oat"));
    v.push(join(root, "apex/com.android.art/bin/dex2oat64"));
    v.push(join(root, "system/bin/dex2oat"));
    v.push(join(root, "system/bin/dex2oat64"));
    assert(v@.map_values(|s: String| s@) =~= dex2oat_paths(root@));
    v
}

fn runtime_candidates(root: &str) -> (r: Vec<(String, String, String)>)
    ensures
        r@.len() == 3,
        forall|k: int| 0 <= k < 3 ==> {
            &&& (#[trigger] r@[k]).0@ == runtime_paths(root@)[k].0
            &&& r@[k].1@ == runtime_paths(root@)[k].1
            &&& r@[k].2@ == runtime_paths(root@)[k].2
        },
{
    let mut v: Vec<(String, String, String)> = Vec::new();
    v.push((
        join(root, "system/apex/com.android.art/lib64/libart.so"),
        join(root, "system/apex/com.android.art/javalib/core-oj.jar"),
        join(root, "system/apex/com.android.art/javalib/core-libart.jar"),
    ));
    v.push((
        join(root, "apex/com.android.art/lib64/libart.so"),
        join(root, "apex/com.android.art/javalib/core-oj.jar"),
        join(root, "apex/com.android.art/javalib/core-libart.jar"),
    ));
    v.push((
        join(root, "system/lib64/libart.so"),
        join(root, "system/framework/core-oj.jar"),
        join(root, "system/framework/core-libart.jar"),
    ));
    v
}

/// Every path under `root` whose existence decides which bundle is found there.
pub open spec fn all_candidates(root: Seq<char>) -> Seq<Seq<char>> {
    let c = runtime_paths(root);
    dex2oat_paths(root) + seq![c[0].0, c[0].1, c[0].2, c[1].0, c[1].1, c[1].2, c[2].0, c[2].1, c[2].2, framework_path(root)]
}

/// The paths under `root` whose existence decides which bundle is found there.
pub fn candidate_files(root: &str) -> (r: Vec<String>)
    ensures
        r@.map_values(|s: String| s@) == all_candidates(root@),
{
    let mut out = dex2oat_candidates(root);
    let ghost d = out@;
    let rt = runtime_candidates(root);
    out.push(rt[0].0.clone());
    out.push(rt[0].1.clone());
    out.push(rt[0].2.clone());
    out.push(rt[1].0.clone());
    out.push(rt[1].1.clone());
    out.push(rt[1].2.clone());
    out.push(rt[2].0.clone());
    out.push(rt[2].1.clone());
    out.push(rt[2].2.clone());
    out.push(join(root, "system/framework/framework.jar"));
    proof {
        assert(rt@[0].0@ == runtime_paths(root@)[0].0);
        assert(rt@[1].0@ == runtime_paths(root@)[1].0);
        assert(rt@[2].0@ == runtime_paths(root@)[2].0);
        assert(d.map_values(|s: String| s@).len() == 6);
        assert(d.len() == 6);
        assert(out@.subrange(0, 6) =~= d);
        assert(out@.map_values(|s: String| s@) =~= all_candidates(root@));
    }
    out
}

fn find_dex2oat(root: &str, files: &[String]) -> (r: Option<String>)
    ensures
        match first_present(files@, dex2oat_paths(root@), 0) {
            Some(p) => r matches Some(s) && s@ == p,
            None => r is None,
        },
{
    let cands = dex2oat_candidates(root);
    let ghost ps = dex2oat_paths(root@);
    assert(cands@.map_values(|s: String| s@).len() == 6);
    let mut k: usize = 0;
    while k < cands.len()
        invariant
            0 <= k <= cands@.len(),
            cands@.len() == 6,
            ps == dex2oat_paths(root@),
            cands@.map_values(|s: String| s@) == ps,
            first_present(files@, ps, 0) == first_present(files@, ps, k as int),
        decreases cands@.len() - k,
    {
        assert(cands@[k as int]@ == ps[k as int]);
        if is_present(files, cands[k].as_str()) {
            return Some(cands[k].clone());
        }
        k = k + 1;
    }
    None
}

fn find_runtime(root: &str, files: &[String]) -> (r: Option<(String, String, String)>)
    ensures
        match first_complete(files@, root@, 0) {
            Some(c) => r matches Some(t) && t.0@ == c.0 && t.1@ == c.1 && t.2@ == c.2,
            None => r is None,
        },
{
    let rt = runtime_candidates(root);
    let fw = join(root, "system/framework/framework.jar");
    let fw_present = is_present(files, fw.as_str());
    let mut k: usize = 0;
    while k < 3
        invariant
            0 <= k <= 3,
            rt@.len() == 3,
            fw_present == present(files@, framework_path(root@)),
            forall|j: int| 0 <= j < 3 ==> {
                &&& (#[trigger] rt@[j]).0@ == runtime_paths(root@)[j].0
                &&& rt@[j].1@ == runtime_paths(root@)[j].1
                &&& rt@[j].2@ == runtime_paths(root@)[j].2
            },
            first_complete(files@, root@, 0) == first_complete(files@, root@, k as int),
        decreases 3 - k,
    {
        let t = &rt[k];
        assert(t.0@ == runtime_paths(root@)[k as int].0);
        if is_present(files, t.0.as_str()) && is_present(files, t.1.as_str()) && is_present(files, t.2.as_str())
            && fw_present {
            return Some((t.0.clone(), t.1.clone(), t.2.clone()));
        }
        k = k + 1;
    }
    None
}

impl AndroidRuntimeBundle {
    /// The unversioned local bundle under `root`, for API 36.
    pub fn discover(root: &str, files: &[String]) -> (r: Result<AndroidRuntimeBundle, ArtError>)
        ensures
            match spec_discover(root@, files@) {
                Some(p) => r matches Ok(b) && has_paths(b, p) && b.metadata.api.0 == 36 && b.metadata.tag@ == "unversioned"@,
                None => r matches Err(ArtError::InvalidBundle),
            },
    {
        let metadata = BundleTierMetadata::new(36, "unversioned", Some("local".to_string()), "ready");
        proof {
            reveal_strlit("ready");
            reveal_strlit("local");
            reveal_strlit("-");
            assert(metadata.status@ == "ready"@);
            assert(metadata.tier == crate::api_policy::ApiTier::Primary);
            assert(metadata.digest->Some_0@ == "local"@);
            assert(metadata.digest->Some_0@.len() == 5);
            assert(metadata.digest->Some_0@ != "-"@);
            assert(spec_validate(default_policy(), metadata) is Ok);
        }
        Self::discover_with_metadata(root, metadata, files)
    }

    /// The bundle under `root` for a record the default policy accepts: `dex2oat` from the
    /// first place it exists, and the first runtime location where the runtime library, the
    /// core libraries and the framework all exist.
    pub fn discover_with_metadata(root: &str, metadata: BundleTierMetadata, files: &[String])
        -> (r: Result<AndroidRuntimeBundle, ArtError>)
        ensures
            spec_validate(default_policy(), metadata) matches Err(e) ==> r matches Err(ArtError::Policy(x)) && x == e,
            spec_validate(default_policy(), metadata) is Ok ==> match spec_discover(root@, files@) {
                Some(p) => r matches Ok(b) && has_paths(b, p) && b.metadata == metadata,
                None => r matches Err(ArtError::InvalidBundle),
            },
    {
        let policy = ApiPolicy::default();
        match policy.validate(&metadata) {
            Ok(()) => {},
            Err(e) => return Err(ArtError::Policy(e)),
        }
        let dex2oat = match find_dex2oat(root, files) {
            Some(d) => d,
            None => return Err(ArtError::InvalidBundle),
        };
        let (libart, core_oj, core_libart) = match find_runtime(root, files) {
            Some(t) => t,
            None => return Err(ArtError::InvalidBundle),
        };
        Ok(AndroidRuntimeBundle {
            root: root.to_string(),
            libart,
            dex2oat,
            core_oj,
            core_libart,
            framework: join(root, "system/framework/framework.jar"),
            metadata,
        })
    }

    /// The bundle under `root` for a record that `policy` accepts too.
    pub fn discover_for_policy(root: &str, policy: &ApiPolicy, metadata: BundleTierMetadata, files: &[String])
        -> (r: Result<AndroidRuntimeBundle, ArtError>)
        ensures
            spec_validate(*policy, metadata) matches Err(e) ==> r matches Err(ArtError::Policy(x)) && x == e,
            spec_validate(*policy, metadata) is Ok ==> (spec_validate(default_policy(), metadata) matches Err(e)
                ==> r matches Err(ArtError::Policy(x)) && x == e),
            spec_validate(*policy, metadata) is Ok && spec_validate(default_policy(), metadata) is Ok
                ==> match spec_discover(root@, files@) {
                    Some(p) => r matches Ok(b) && has_paths(b, p) && b.metadata == metadata,
                    None => r matches Err(ArtError::InvalidBundle),
                },
    {
        match policy.validate(&metadata) {
            Ok(()) => {},
            Err(e) => return Err(ArtError::Policy(e)),
        }
        Self::discover_with_metadata(root, metadata, files)
    }

    /// The runtime configuration of the bundle: its runtime library, its compiler, and the
    /// core libraries and framework as the boot class path.
    pub fn art_config(&self) -> (r: ArtConfig)
        ensures
            r.libart matches Some(l) && l@ == self.libart@,
            r.dex2oat matches Some(d) && d@ == self.dex2oat@,
            r.classpath@.map_values(|s: String| s@) == seq![self.core_oj@, self.core_libart@, self.framework@],
    {
        let mut classpath: Vec<String> = Vec::new();
        classpath.push(self.core_oj.clone());
        classpath.push(self.core_libart.clone());
        classpath.push(self.framework.clone());
        assert(classpath@.map_values(|s: String| s@) =~= seq![self.core_oj@, self.core_libart@, self.framework@]);
        ArtConfig { libart: Some(self.libart.clone()), dex2oat: Some(self.dex2oat.clone()), classpath }
    }
}

/// The directory of the bundle for API level `api` under `root`: `android` and the Android
/// version, which is the API level less 20.
pub open spec fn bundle_dir(root: Seq<char>, api: u32) -> Seq<char> {
    join_path(root, "android"@ + spec_decimal((api - 20) as nat))
}

impl RuntimeBundleCatalog {
    /// The catalog of the bundles a manifest lists, rooted at `root`.
    pub fn from_manifest(root: &str, contents: &str) -> (r: Result<RuntimeBundleCatalog, ArtError>)
        ensures
            r matches Ok(c) ==> c.root@ == root@,
            ({
                let ls = crate::text::spec_lines(contents@);
                match crate::api_policy::manifest_records(ls, ls.len() as int) {
                    None => r matches Err(ArtError::Policy(e)) && e == ApiPolicyError::InvalidManifest,
                    Some(rs) => r matches Ok(c) && c.metadata@.len() == rs.len()
                        && forall|i: int| 0 <= i < rs.len() ==> crate::api_policy::record_matches(#[trigger] c.metadata@[i], rs[i]),
                }
            }),
    {
        let policy = ApiPolicy::default();
        match policy.resolve_manifest(contents) {
            Ok(metadata) => Ok(RuntimeBundleCatalog { root: root.to_string(), metadata }),
            Err(e) => Err(ArtError::Policy(e)),
        }
    }

    /// The bundle for an APK with these SDK requirements: the record the default policy picks
    /// among those compatible, found in its directory under the catalog's root.
    pub fn resolve_for_apk(&self, min_sdk: Option<u32>, target_sdk: Option<u32>, files: &[String])
        -> (r: Result<AndroidRuntimeBundle, ArtError>)
        ensures
            match chosen(self.metadata@, default_policy(), Some((min_sdk, target_sdk))) {
                None => r matches Err(ArtError::Policy(e)) && e == ApiPolicyError::NoSupportedBundle,
                Some(i) => {
                    let m = self.metadata@[i];
                    match spec_discover(bundle_dir(self.root@, m.api.0), files@) {
                        Some(p) => r matches Ok(b) && has_paths(b, p) && same_bundle(b.metadata, m),
                        None => r matches Err(ArtError::InvalidBundle),
                    }
                },
            },
    {
        let policy = ApiPolicy::default();
        let metadata = match policy.resolve_for_apk(self.metadata.as_slice(), min_sdk, target_sdk) {
            Ok(m) => m,
            Err(e) => return Err(ArtError::Policy(e)),
        };
        proof {
            let sdk = Some((min_sdk, target_sdk));
            crate::api_policy::lemma_first_with(self.metadata@, policy, sdk, crate::api_policy::ApiTier::Primary, 0);
            crate::api_policy::lemma_first_with(self.metadata@, policy, sdk, crate::api_policy::ApiTier::Secondary, 0);
        }
        let mut dir: Vec<char> = Vec::new();
        push_str(&mut dir, "android");
        push_decimal((metadata.api.0 - 20) as u64, &mut dir);
        let root = join(self.root.as_str(), string_from_chars(dir.as_slice()).as_str());
        let copy = metadata.duplicate();
        assert(spec_validate(policy, copy) == spec_validate(policy, *metadata));
        Self::discover_checked(root.as_str(), &policy, copy, files)
    }

    fn discover_checked(root: &str, policy: &ApiPolicy, metadata: BundleTierMetadata, files: &[String])
        -> (r: Result<AndroidRuntimeBundle, ArtError>)
        requires
            *policy == default_policy(),
            spec_validate(*policy, metadata) is Ok,
        ensures
            match spec_discover(root@, files@) {
                Some(p) => r matches Ok(b) && has_paths(b, p) && b.metadata == metadata,
                None => r matches Err(ArtError::InvalidBundle),
            },
    {
        AndroidRuntimeBundle::discover_for_policy(root, policy, metadata, files)
    }
}

/// What starts applications on ART: compiling their DEX files and launching them.
pub trait ArtBackend {
    fn initialize(&mut self, config: &ArtConfig) -> Result<(), ArtError>;

    fn start_application(&mut self, package: &str, dex: Option<&str>) -> Result<(), ArtError>;
}

/// A backend that starts nothing and records the packages it was asked to start.
#[derive(Debug)]
pub struct FakeArtBackend {
    started: Vec<String>,
}

impl FakeArtBackend {
    pub closed spec fn started(&self) -> Seq<Seq<char>> {
        self.started@.map_values(|s: String| s@)
    }

    /// The packages started so far, in order.
    pub fn started_packages(&self) -> (r: Vec<String>)
        ensures
            r@.map_values(|s: String| s@) == self.started(),
    {
        crate::text::copy_strings(&self.started)
    }
}

impl Default for FakeArtBackend {
    fn default() -> (r: FakeArtBackend)
        ensures
            r.started() == Seq::<Seq<char>>::empty(),
    {
        let r = FakeArtBackend { started: Vec::new() };
        assert(r.started() =~= Seq::<Seq<char>>::empty());
        r
    }
}

impl ArtBackend for FakeArtBackend {
    fn initialize(&mut self, config: &ArtConfig) -> (r: Result<(), ArtError>)
        ensures
            r is Ok,
            final(self).started() == old(self).started(),
    {
        Ok(())
    }

    fn start_application(&mut self, package: &str, dex: Option<&str>) -> (r: Result<(), ArtError>)
        ensures
            r is Ok,
            final(self).started() == old(self).started().push(package@),
    {
        let ghost before = self.started@;
        self.started.push(package.to_string());
        assert(self.started@.map_values(|s: String| s@) =~= before.map_values(|s: String| s@).push(package@));
        Ok(())
    }
}

/// Whether the configured runtime library, compiler and boot class path all exist.
pub open spec fn files_ready(c: ArtConfig, files: Seq<String>) -> bool {
    &&& c.libart matches Some(l) && present(files, l@)
    &&& c.dex2oat matches Some(d) && present(files, d@)
    &&& c.classpath@.len() > 0
    &&& forall|i: int| 0 <= i < c.classpath@.len() ==> present(files, (#[trigger] c.classpath@[i])@)
}

/// ART as the runtime uses it: a configuration, whether it was initialized, and the backend
/// that starts applications, when one is attached.
#[derive(Debug)]
pub struct ArtRuntime<B> {
    config: ArtConfig,
    initialized: bool,
    backend: Option<B>,
}

impl<B: ArtBackend> ArtRuntime<B> {
    pub closed spec fn spec_config(&self) -> ArtConfig {
        self.config
    }

    pub closed spec fn spec_initialized(&self) -> bool {
        self.initialized
    }

    pub closed spec fn spec_backend(&self) -> Option<B> {
        self.backend
    }

    /// An uninitialized runtime with this configuration and no backend.
    pub fn with_config(config: ArtConfig) -> (r: ArtRuntime<B>)
        ensures
            r.spec_config() == config,
            !r.spec_initialized(),
            r.spec_backend() is None,
    {
        ArtRuntime { config, initialized: false, backend: None }
    }

    /// An uninitialized runtime configured from a bundle.
    pub fn from_bundle(bundle: &AndroidRuntimeBundle) -> (r: ArtRuntime<B>)
        ensures
            r.spec_config().libart matches Some(l) && l@ == bundle.libart@,
            r.spec_config().dex2oat matches Some(d) && d@ == bundle.dex2oat@,
            r.spec_config().classpath@.map_values(|s: String| s@) == seq![bundle.core_oj@, bundle.core_libart@, bundle.framework@],
            !r.spec_initialized(),
            r.spec_backend() is None,
    {
        Self::with_config(bundle.art_config())
    }

    /// Initializes ART: through the backend when one is attached, otherwise by checking that
    /// the configured files exist.
    pub fn initialize(&mut self, present_files: &[String]) -> (r: Result<(), ArtError>)
        ensures
            final(self).spec_config() == old(self).spec_config(),
            final(self).spec_backend() is Some == old(self).spec_backend() is Some,
            old(self).spec_backend() is None ==> final(self).spec_backend() is None,
            r is Ok ==> final(self).spec_initialized(),
            r is Err ==> final(self).spec_initialized() == old(self).spec_initialized(),
            old(self).spec_backend() is None ==> (r is Ok <==> files_ready(old(self).spec_config(), present_files@)),
            old(self).spec_backend() is None && r is Err ==> r matches Err(ArtError::Unavailable),
    {
        match &mut self.backend {
            Some(b) => {
                let r = b.initialize(&self.config);
                if r.is_ok() {
                    self.initialized = true;
                }
                return r;
            },
            None => {},
        }
        let libart_ok = match &self.config.libart {
            Some(l) => is_present(present_files, l.as_str()),
            None => false,
        };
        let dex2oat_ok = match &self.config.dex2oat {
            Some(d) => is_present(present_files, d.as_str()),
            None => false,
        };
        if !libart_ok || !dex2oat_ok || self.config.classpath.len() == 0 {
            return Err(ArtError::Unavailable);
        }
        let n = self.config.classpath.len();
        let mut i: usize = 0;
        while i < n
            invariant
                0 <= i <= n,
                n == self.config.classpath@.len(),
                *self == *old(self),
                self.backend is None,
                forall|j: int| 0 <= j < i ==> present(present_files@, (#[trigger] self.config.classpath@[j])@),
            decreases n - i,
        {
            if !is_present(present_files, self.config.classpath[i].as_str()) {
                return Err(ArtError::Unavailable);
            }
            i = i + 1;
        }
        self.initialized = true;
        Ok(())
    }

    /// The runtime with `backend` attached.
    pub fn with_backend(self, backend: B) -> (r: ArtRuntime<B>)
        ensures
            r.spec_config() == self.spec_config(),
            r.spec_initialized() == self.spec_initialized(),
            r.spec_backend() == Some(backend),
    {
        ArtRuntime { config: self.config, initialized: self.initialized, backend: Some(backend) }
    }

    /// Starts an application through the backend, once ART is initialized.
    pub fn start_application(&mut self, package: &str, dex: Option<&str>) -> (r: Result<(), ArtError>)
        ensures
            final(self).spec_config() == old(self).spec_config(),
            final(self).spec_initialized() == old(self).spec_initialized(),
            final(self).spec_backend() is Some == old(self).spec_backend() is Some,
            !old(self).spec_initialized() ==> (r matches Err(ArtError::NotInitialized)) && *final(self) == *old(self),
            old(self).spec_initialized() && old(self).spec_backend() is None ==> (r matches Err(ArtError::Unavailable))
                && *final(self) == *old(self),
    {
        if !self.initialized {
            return Err(ArtError::NotInitialized);
        }
        match &mut self.backend {
            Some(b) => b.start_application(package, dex),
            None => Err(ArtError::Unavailable),
        }
    }

    /// Whether ART can be used at all: a backend is attached or the runtime library or the
    /// compiler was located.
    pub fn is_available(&self) -> (r: bool)
        ensures
            r == (self.spec_backend() is Some || self.spec_config().libart is Some || self.spec_config().dex2oat is Some),
    {
        self.backend.is_some() || self.config.libart.is_some() || self.config.dex2oat.is_some()
    }

    pub fn is_initialized(&self) -> (r: bool)
        ensures
            r == self.spec_initialized(),
    {
        self.initialized
    }

    pub fn config(&self) -> (r: &ArtConfig)
        ensures
            *r == self.spec_config(),
    {
        &self.config
    }
}

/// A path joined under a root keeps the suffix of its relative part.
pub proof fn lemma_join_keeps_suffix(root: Seq<char>, rel: Seq<char>, suf: Seq<char>)
    requires
        has_suffix(rel, suf),
    ensures
        has_suffix(join_path(root, rel), suf),
{
    let j = join_path(root, rel);
    assert(j.subrange(j.len() - suf.len(), j.len() as int) =~= rel.subrange(rel.len() - suf.len(), rel.len() as int));
}

proof fn lemma_path_literals()
    ensures
        has_suffix("system/apex/com.android.art/lib64/libart.so"@, "libart.so"@),
        has_suffix("apex/com.android.art/lib64/libart.so"@, "libart.so"@),
        has_suffix("system/lib64/libart.so"@, "libart.so"@),
        has_suffix("system/apex/com.android.art/javalib/core-oj.jar"@, "core-oj.jar"@),
        has_suffix("apex/com.android.art/javalib/core-oj.jar"@, "core-oj.jar"@),
        has_suffix("system/framework/core-oj.jar"@, "core-oj.jar"@),
        has_suffix("system/apex/com.android.art/javalib/core-libart.jar"@, "core-libart.jar"@),
        has_suffix("apex/com.android.art/javalib/core-libart.jar"@, "core-libart.jar"@),
        has_suffix("system/framework/core-libart.jar"@, "core-libart.jar"@),
        has_suffix("system/framework/framework.jar"@, "framework.jar"@),
{
    assert(has_suffix("system/apex/com.android.art/lib64/libart.so"@, "libart.so"@)) by {
        reveal_strlit("system/apex/com.android.art/lib64/libart.so");
        reveal_strlit("libart.so");
        assert("system/apex/com.android.art/lib64/libart.so"@.subrange(34, 43) =~= "libart.so"@);
    }
    assert(has_suffix("apex/com.android.art/lib64/libart.so"@, "libart.so"@)) by {
        reveal_strlit("apex/com.android.art/lib64/libart.so");
        reveal_strlit("libart.so");
        assert("apex/com.android.art/lib64/libart.so"@.subrange(27, 36) =~= "libart.so"@);
    }
    assert(has_suffix("system/lib64/libart.so"@, "libart.so"@)) by {
        reveal_strlit("system/lib64/libart.so");
        reveal_strlit("libart.so");
        assert("system/lib64/libart.so"@.subrange(13, 22) =~= "libart.so"@);
    }
    assert(has_suffix("system/apex/com.android.art/javalib/core-oj.jar"@, "core-oj.jar"@)) by {
        reveal_strlit("system/apex/com.android.art/javalib/core-oj.jar");
        reveal_strlit("core-oj.jar");
        assert("system/apex/com.android.art/javalib/core-oj.jar"@.subrange(36, 47) =~= "core-oj.jar"@);
    }
    assert(has_suffix("apex/com.android.art/javalib/core-oj.jar"@, "core-oj.jar"@)) by {
        reveal_strlit("apex/com.android.art/javalib/core-oj.jar");
        reveal_strlit("core-oj.jar");
        assert("apex/com.android.art/javalib/core-oj.jar"@.subrange(29, 40) =~= "core-oj.jar"@);
    }
    assert(has_suffix("system/framework/core-oj.jar"@, "core-oj.jar"@)) by {
        reveal_strlit("system/framework/core-oj.jar");
        reveal_strlit("core-oj.jar");
        assert("system/framework/core-oj.jar"@.subrange(17, 28) =~= "core-oj.jar"@);
    }
    assert(has_suffix("system/apex/com.android.art/javalib/core-libart.jar"@, "core-libart.jar"@)) by {
        reveal_strlit("system/apex/com.android.art/javalib/core-libart.jar");
        reveal_strlit("core-libart.jar");
        assert("system/apex/com.android.art/javalib/core-libart.jar"@.subrange(36, 51) =~= "core-libart.jar"@);
    }
    assert(has_suffix("apex/com.android.art/javalib/core-libart.jar"@, "core-libart.jar"@)) by {
        reveal_strlit("apex/com.android.art/javalib/core-libart.jar");
        reveal_strlit("core-libart.jar");
        assert("apex/com.android.art/javalib/core-libart.jar"@.subrange(29, 44) =~= "core-libart.jar"@);
    }
    assert(has_suffix("system/framework/core-libart.jar"@, "core-libart.jar"@)) by {
        reveal_strlit("system/framework/core-libart.jar");
        reveal_strlit("core-libart.jar");
        assert("system/framework/core-libart.jar"@.subrange(17, 32) =~= "core-libart.jar"@);
    }
    assert(has_suffix("system/framework/framework.jar"@, "framework.jar"@)) by {
        reveal_strlit("system/framework/framework.jar");
        reveal_strlit("framework.jar");
        assert("system/framework/framework.jar"@.subrange(17, 30) =~= "framework.jar"@);
    }
}

/// Every runtime location names its three files: the first candidate is a `libart.so`, the
/// second a `core-oj.jar`, the third a `core-libart.jar`; `framework.jar` is where its path
/// says.
pub proof fn lemma_runtime_path_names(root: Seq<char>)
    ensures
        runtime_paths(root).len() == 3,
        forall|k: int| 0 <= k < 3 ==> has_suffix(#[trigger] runtime_paths(root)[k].0, "libart.so"@)
            && has_suffix(runtime_paths(root)[k].1, "core-oj.jar"@)
            && has_suffix(runtime_paths(root)[k].2, "core-libart.jar"@),
        has_suffix(framework_path(root), "framework.jar"@),
{
    lemma_path_literals();
    lemma_join_keeps_suffix(root, "system/apex/com.android.art/lib64/libart.so"@, "libart.so"@);
    lemma_join_keeps_suffix(root, "apex/com.android.art/lib64/libart.so"@, "libart.so"@);
    lemma_join_keeps_suffix(root, "system/lib64/libart.so"@, "libart.so"@);
    lemma_join_keeps_suffix(root, "system/apex/com.android.art/javalib/core-oj.jar"@, "core-oj.jar"@);
    lemma_join_keeps_suffix(root, "apex/com.android.art/javalib/core-oj.jar"@, "core-oj.jar"@);
    lemma_join_keeps_suffix(root, "system/framework/core-oj.jar"@, "core-oj.jar"@);
    lemma_join_keeps_suffix(root, "system/apex/com.android.art/javalib/core-libart.jar"@, "core-libart.jar"@);
    lemma_join_keeps_suffix(root, "apex/com.android.art/javalib/core-libart.jar"@, "core-libart.jar"@);
    lemma_join_keeps_suffix(root, "system/framework/core-libart.jar"@, "core-libart.jar"@);
    lemma_join_keeps_suffix(root, "system/framework/framework.jar"@, "framework.jar"@);
    let rp = runtime_paths(root);
    assert forall|k: int| 0 <= k < 3 implies has_suffix(#[trigger] rp[k].0, "libart.so"@)
        && has_suffix(rp[k].1, "core-oj.jar"@) && has_suffix(rp[k].2, "core-libart.jar"@) by {
        if k == 0 {
        } else if k == 1 {
        } else {
        }
    }
}

proof fn lemma_first_complete_is_present(files: Seq<String>, root: Seq<char>, k: int)
    ensures
        first_complete(files, root, k) matches Some(c) ==> exists|j: int| 0 <= j < 3 && c == #[trigger] runtime_paths(root)[j]
            && present(files, c.0) && present(files, c.1) && present(files, c.2) && present(files, framework_path(root)),
    decreases 3 - k,
{
    if 0 <= k < 3 {
        lemma_first_complete_is_present(files, root, k + 1);
    }
}

proof fn lemma_first_present_is_present(files: Seq<String>, ps: Seq<Seq<char>>, k: int)
    ensures
        first_present(files, ps, k) matches Some(d) ==> present(files, d) && exists|j: int| 0 <= j < ps.len() && d == #[trigger] ps[j],
    decreases ps.len() - k,
{
    if 0 <= k < ps.len() {
        lemma_first_present_is_present(files, ps, k + 1);
    }
}

proof fn lemma_dex2oat_literals()
    ensures
        has_suffix("system/apex/com.android.art/bin/dex2oat"@, "dex2oat"@),
        has_suffix("apex/com.android.art/bin/dex2oat"@, "dex2oat"@),
        has_suffix("system/bin/dex2oat"@, "dex2oat"@),
        has_suffix("system/apex/com.android.art/bin/dex2oat64"@, "dex2oat64"@),
        has_suffix("apex/com.android.art/bin/dex2oat64"@, "dex2oat64"@),
        has_suffix("system/bin/dex2oat64"@, "dex2oat64"@),
{
    assert(has_suffix("system/apex/com.android.art/bin/dex2oat"@, "dex2oat"@)) by {
        reveal_strlit("system/apex/com.android.art/bin/dex2oat");
        reveal_strlit("dex2oat");
        assert("system/apex/com.android.art/bin/dex2oat"@.subrange(32, 39) =~= "dex2oat"@);
    }
    assert(has_suffix("apex/com.android.art/bin/dex2oat"@, "dex2oat"@)) by {
        reveal_strlit("apex/com.android.art/bin/dex2oat");
        reveal_strlit("dex2oat");
        assert("apex/com.android.art/bin/dex2oat"@.subrange(25, 32) =~= "dex2oat"@);
    }
    assert(has_suffix("system/bin/dex2oat"@, "dex2oat"@)) by {
        reveal_strlit("system/bin/dex2oat");
        reveal_strlit("dex2oat");
        assert("system/bin/dex2oat"@.subrange(11, 18) =~= "dex2oat"@);
    }
    assert(has_suffix("system/apex/com.android.art/bin/dex2oat64"@, "dex2oat64"@)) by {
        reveal_strlit("system/apex/com.android.art/bin/dex2oat64");
        reveal_strlit("dex2oat64");
        assert("system/apex/com.android.art/bin/dex2oat64"@.subrange(32, 41) =~= "dex2oat64"@);
    }
    assert(has_suffix("apex/com.android.art/bin/dex2oat64"@, "dex2oat64"@)) by {
        reveal_strlit("apex/com.android.art/bin/dex2oat64");
        reveal_strlit("dex2oat64");
        assert("apex/com.android.art/bin/dex2oat64"@.subrange(25, 34) =~= "dex2oat64"@);
    }
    assert(has_suffix("system/bin/dex2oat64"@, "dex2oat64"@)) by {
        reveal_strlit("system/bin/dex2oat64");
        reveal_strlit("dex2oat64");
        assert("system/bin/dex2oat64"@.subrange(11, 20) =~= "dex2oat64"@);
    }
}

/// Every `dex2oat` candidate names a `dex2oat` or `dex2oat64` binary.
pub proof fn lemma_dex2oat_path_names(root: Seq<char>)
    ensures
        dex2oat_paths(root).len() == 6,
        forall|k: int| 0 <= k < 6 ==> has_suffix(#[trigger] dex2oat_paths(root)[k], "dex2oat"@)
            || has_suffix(dex2oat_paths(root)[k], "dex2oat64"@),
{
    lemma_dex2oat_literals();
    lemma_join_keeps_suffix(root, "system/apex/com.android.art/bin/dex2oat"@, "dex2oat"@);
    lemma_join_keeps_suffix(root, "apex/com.android.art/bin/dex2oat"@, "dex2oat"@);
    lemma_join_keeps_suffix(root, "system/bin/dex2oat"@, "dex2oat"@);
    lemma_join_keeps_suffix(root, "system/apex/com.android.art/bin/dex2oat64"@, "dex2oat64"@);
    lemma_join_keeps_suffix(root, "apex/com.android.art/bin/dex2oat64"@, "dex2oat64"@);
    lemma_join_keeps_suffix(root, "system/bin/dex2oat64"@, "dex2oat64"@);
    let ps = dex2oat_paths(root);
    assert forall|k: int| 0 <= k < 6 implies has_suffix(#[trigger] ps[k], "dex2oat"@) || has_suffix(ps[k], "dex2oat64"@) by {
        if k == 0 {} else if k == 1 {} else if k == 2 {} else if k == 3 {} else if k == 4 {} else {}
    }
}

/// A discovered bundle names files that exist, each the one its field is for: `libart.so`,
/// `core-oj.jar`, `core-libart.jar`, `framework.jar`, and a `dex2oat` binary.
pub proof fn lemma_discovered_bundle_files(root: Seq<char>, files: Seq<String>)
    ensures
        spec_discover(root, files) matches Some(p) ==> {
            &&& present(files, p.libart) && has_suffix(p.libart, "libart.so"@)
            &&& present(files, p.core_oj) && has_suffix(p.core_oj, "core-oj.jar"@)
            &&& present(files, p.core_libart) && has_suffix(p.core_libart, "core-libart.jar"@)
            &&& present(files, p.framework) && has_suffix(p.framework, "framework.jar"@)
            &&& present(files, p.dex2oat)
            &&& has_suffix(p.dex2oat, "dex2oat"@) || has_suffix(p.dex2oat, "dex2oat64"@)
        },
{
    lemma_dex2oat_path_names(root);
    lemma_first_complete_is_present(files, root, 0);
    lemma_first_present_is_present(files, dex2oat_paths(root), 0);
    lemma_runtime_path_names(root);
}

/// Whether the runtime library, both core libraries and the framework all exist.
pub open spec fn location_complete(files: Seq<String>, l: (Seq<char>, Seq<char>, Seq<char>), framework: Seq<char>) -> bool {
    present(files, l.0) && present(files, l.1) && present(files, l.2) && present(files, framework)
}

/// Discovery takes the runtime files from the first complete location, in this order: the
/// system APEX (`system/apex/com.android.art/lib64/libart.so`, `.../javalib/core-oj.jar`,
/// `.../javalib/core-libart.jar`), then the APEX (`apex/com.android.art/...`), then the
/// system image (`system/lib64/libart.so`, `system/framework/core-oj.jar`,
/// `system/framework/core-libart.jar`); the framework is `system/framework/framework.jar`.
/// A bundle is found exactly when one location is complete and some `dex2oat` exists.
pub proof fn lemma_discover_location_order(root: Seq<char>, files: Seq<String>)
    ensures
        ({
            let fw = join_path(root, "system/framework/framework.jar"@);
            let sys_apex = (join_path(root, "system/apex/com.android.art/lib64/libart.so"@),
                join_path(root, "system/apex/com.android.art/javalib/core-oj.jar"@),
                join_path(root, "system/apex/com.android.art/javalib/core-libart.jar"@));
            let apex = (join_path(root, "apex/com.android.art/lib64/libart.so"@),
                join_path(root, "apex/com.android.art/javalib/core-oj.jar"@),
                join_path(root, "apex/com.android.art/javalib/core-libart.jar"@));
            let system = (join_path(root, "system/lib64/libart.so"@),
                join_path(root, "system/framework/core-oj.jar"@),
                join_path(root, "system/framework/core-libart.jar"@));
            let any_complete = location_complete(files, sys_apex, fw) || location_complete(files, apex, fw)
                || location_complete(files, system, fw);
            let chosen = if location_complete(files, sys_apex, fw) {
                sys_apex
            } else if location_complete(files, apex, fw) {
                apex
            } else {
                system
            };
            &&& (spec_discover(root, files) is Some) == (any_complete
                && exists|k: int| 0 <= k < 6 && present(files, #[trigger] dex2oat_paths(root)[k]))
            &&& spec_discover(root, files) matches Some(p) ==> {
                &&& p.libart == chosen.0
                &&& p.core_oj == chosen.1
                &&& p.core_libart == chosen.2
                &&& p.framework == fw
                &&& p.root == root
            }
        }),
{
    reveal_with_fuel(first_complete, 4);
    let ps = dex2oat_paths(root);
    reveal_with_fuel(first_present, 7);
    if exists|k: int| 0 <= k < 6 && present(files, #[trigger] ps[k]) {
        let k = choose|k: int| 0 <= k < 6 && present(files, #[trigger] ps[k]);
        assert(first_present(files, ps, 0) is Some) by {
            if k == 0 {} else if k == 1 {} else if k == 2 {} else if k == 3 {} else if k == 4 {} else {}
        }
    } else {
        assert(!present(files, ps[0]) && !present(files, ps[1]) && !present(files, ps[2]));
        assert(!present(files, ps[3]) && !present(files, ps[4]) && !present(files, ps[5]));
        assert(first_present(files, ps, 0) is None);
    }
    lemma_first_present_is_present(files, ps, 0);
}

/// Discovery takes `dex2oat` from the first place it exists, in this order: the system
/// APEX's `bin/dex2oat`, then its `bin/dex2oat64`, the APEX's `bin/dex2oat` and
/// `bin/dex2oat64`, then `system/bin/dex2oat` and `system/bin/dex2oat64`.
pub proof fn lemma_discover_dex2oat_order(root: Seq<char>, files: Seq<String>)
    ensures
        ({
            let c0 = join_path(root, "system/apex/com.android.art/bin/dex2oat"@);
            let c1 = join_path(root, "system/apex/com.android.art/bin/dex2oat64"@);
            let c2 = join_path(root, "apex/com.android.art/bin/dex2oat"@);
            let c3 = join_path(root, "apex/com.android.art/bin/dex2oat64"@);
            let c4 = join_path(root, "system/bin/dex2oat"@);
            let c5 = join_path(root, "system/bin/dex2oat64"@);
            spec_discover(root, files) matches Some(p) ==> p.dex2oat == (if present(files, c0) {
                c0
            } else if present(files, c1) {
                c1
            } else if present(files, c2) {
                c2
            } else if present(files, c3) {
                c3
            } else if present(files, c4) {
                c4
            } else {
                c5
            })
        }),
{
    reveal_with_fuel(first_present, 7);
}

} // verus!
