use lar::api_policy::{ApiPolicyError, BundleTierMetadata};
use lar::arch::HostArch;
use lar::art::{
    candidate_files, join, AndroidRuntimeBundle, ArtBackend, ArtConfig, ArtError, ArtRuntime, FakeArtBackend,
    RuntimeBundleCatalog,
};
use lar::managers::ApplicationInfo;
use lar::runtime::{LarRuntime, StartApplicationError};

fn full_bundle_files(root: &str) -> Vec<String> {
    vec![
        join(root, "apex/com.android.art/bin/dex2oat64"),
        join(root, "system/bin/dex2oat"),
        join(root, "system/lib64/libart.so"),
        join(root, "system/framework/core-oj.jar"),
        join(root, "system/framework/core-libart.jar"),
        join(root, "system/framework/framework.jar"),
    ]
}

#[test]
fn paths_are_joined_like_path_join() {
    assert_eq!(join("/opt/art", "system/bin"), "/opt/art/system/bin");
    assert_eq!(join("/opt/art/", "system/bin"), "/opt/art/system/bin");
    assert_eq!(join("", "system/bin"), "system/bin");
}

#[test]
fn bundle_discovery_picks_the_first_existing_locations() {
    let files = full_bundle_files("/b");
    let bundle = AndroidRuntimeBundle::discover("/b", &files).unwrap();
    assert_eq!(bundle.dex2oat, "/b/apex/com.android.art/bin/dex2oat64");
    assert_eq!(bundle.libart, "/b/system/lib64/libart.so");
    assert_eq!(bundle.core_oj, "/b/system/framework/core-oj.jar");
    assert_eq!(bundle.framework, "/b/system/framework/framework.jar");
    assert_eq!(bundle.metadata.api.0, 36);
    let config = bundle.art_config();
    assert_eq!(config.libart.as_deref(), Some("/b/system/lib64/libart.so"));
    assert_eq!(config.classpath.len(), 3);
    assert!(candidate_files("/b").contains(&"/b/system/bin/dex2oat64".to_string()));
    assert_eq!(candidate_files("/b").len(), 16);
}

#[test]
fn bundle_without_framework_is_invalid() {
    let mut files = full_bundle_files("/b");
    files.pop();
    assert!(matches!(AndroidRuntimeBundle::discover("/b", &files), Err(ArtError::InvalidBundle)));
}

#[test]
fn bundle_records_the_policy_rejects_are_refused() {
    let files = full_bundle_files("/b");
    let meta = BundleTierMetadata::new(34, "old", Some("d".to_string()), "ready");
    assert!(matches!(
        AndroidRuntimeBundle::discover_with_metadata("/b", meta, &files),
        Err(ArtError::Policy(ApiPolicyError::UnsupportedApi(_)))
    ));
}

#[test]
fn catalog_resolves_the_bundle_directory() {
    let manifest = "api\tandroid\ttag\tdigest\ttier\tstatus\n36\tandroid16\tlar-36\tsha256:x\tprimary\tready\n35\tandroid15\tlar-35\tsha256:y\tsecondary\tready\n";
    let catalog = RuntimeBundleCatalog::from_manifest("/bundles", manifest).unwrap();
    assert_eq!(catalog.metadata.len(), 2);
    let files = full_bundle_files("/bundles/android16");
    let bundle = catalog.resolve_for_apk(Some(21), Some(35), &files).unwrap();
    assert_eq!(bundle.root, "/bundles/android16");
    assert_eq!(bundle.metadata.tag, "lar-36");
    assert!(matches!(catalog.resolve_for_apk(Some(21), Some(35), &[]), Err(ArtError::InvalidBundle)));
    assert!(matches!(
        catalog.resolve_for_apk(Some(37), None, &files),
        Err(ArtError::Policy(ApiPolicyError::NoSupportedBundle))
    ));
    assert!(matches!(RuntimeBundleCatalog::from_manifest("/x", "bad line"), Err(ArtError::Policy(_))));
}

#[test]
fn art_initializes_from_existing_files_or_through_its_backend() {
    let files = full_bundle_files("/b");
    let bundle = AndroidRuntimeBundle::discover("/b", &files).unwrap();
    let mut art: ArtRuntime<FakeArtBackend> = ArtRuntime::from_bundle(&bundle);
    assert!(art.is_available());
    assert!(matches!(art.start_application("p", None), Err(ArtError::NotInitialized)));
    assert!(matches!(art.initialize(&[]), Err(ArtError::Unavailable)));
    assert!(!art.is_initialized());
    art.initialize(&files).unwrap();
    assert!(art.is_initialized());
    assert!(matches!(art.start_application("p", None), Err(ArtError::Unavailable)));

    let empty: ArtRuntime<FakeArtBackend> =
        ArtRuntime::with_config(ArtConfig { libart: None, dex2oat: None, classpath: Vec::new() });
    assert!(!empty.is_available());
    let mut with_backend = empty.with_backend(FakeArtBackend::default());
    assert!(with_backend.is_available());
    with_backend.initialize(&[]).unwrap();
    with_backend.start_application("com.example", Some("/data/classes.dex")).unwrap();
}

#[test]
fn fake_backend_records_started_packages() {
    let mut fake = FakeArtBackend::default();
    fake.initialize(&ArtConfig { libart: None, dex2oat: None, classpath: Vec::new() }).unwrap();
    fake.start_application("a", None).unwrap();
    fake.start_application("b", None).unwrap();
    assert_eq!(fake.started_packages(), vec!["a".to_string(), "b".to_string()]);
}

fn app(package: &str, launcher: Option<&str>) -> ApplicationInfo {
    ApplicationInfo {
        package: package.to_string(),
        launcher_activity: launcher.map(|s| s.to_string()),
        dex_path: None,
        dex: None,
        native_libraries: Vec::new(),
    }
}

#[test]
fn applications_start_through_art_and_the_activity_manager() {
    let art = ArtRuntime::with_config(ArtConfig { libart: None, dex2oat: None, classpath: Vec::new() })
        .with_backend(FakeArtBackend::default());
    let mut runtime = LarRuntime::with_art(HostArch::X86_64, art, &test_shims());
    assert!(matches!(runtime.start_application("com.example"), Err(StartApplicationError::UnknownPackage)));
    runtime.install_application(app("com.example", Some(".Main")));
    assert!(matches!(
        runtime.start_application("com.example"),
        Err(StartApplicationError::Art(ArtError::NotInitialized))
    ));
    runtime.art.initialize(&[]).unwrap();
    let id = runtime.start_application("com.example").unwrap();
    assert_eq!(runtime.activity_manager.top().unwrap().id, id);
    assert_eq!(runtime.activity_manager.top().unwrap().name, ".Main");

    runtime.install_application(app("com.headless", None));
    assert!(matches!(runtime.start_application("com.headless"), Err(StartApplicationError::MissingLauncher)));
    assert_eq!(runtime.activity_manager.stack().len(), 1);
}

#[test]
fn runtime_bundle_configuration_initializes_art() {
    let mut runtime = LarRuntime::new(HostArch::Riscv64, &test_shims());
    let files = full_bundle_files("/b");
    let bundle = AndroidRuntimeBundle::discover("/b", &files).unwrap();
    assert!(runtime.configure_runtime_bundle(&bundle, &[]).is_err());
    assert!(!runtime.art.is_initialized());
    runtime.configure_runtime_bundle(&bundle, &files).unwrap();
    assert!(runtime.art.is_initialized());
}

/// Distinct addresses standing in for the host's Bionic shim functions.
fn test_shims() -> Vec<usize> {
    (0..51usize).map(|i| 0x7f00_0000 + 16 * i).collect()
}
