use lar::api_policy::{AndroidApi, ApiPolicy, ApiPolicyError, ApiTier, BundleTierMetadata};
use lar::arch::HostArch;
use lar::dex::{DexError, DexReader};
use lar::jit::cache::{CompiledBlock, MmapExecutionCache};
use lar::jit::JitEngine;
use lar::lifecycle::{InputDispatcher, InputEvent};
use lar::linker::elf::ElfError;
use lar::linker::loader::LoaderError;
use lar::memory::mmap::MemoryError;
use lar::text::{decimal, decode_lossy};
use lar::wire::{push_u16, push_u32, push_u64, read_u16, read_u32, read_u64};

#[test]
fn little_endian_round_trip() {
    let mut v = Vec::new();
    push_u16(&mut v, 0xbeef);
    push_u32(&mut v, 0xdead_beef);
    push_u64(&mut v, 0x0102_0304_0506_0708);
    assert_eq!(v.len(), 14);
    assert_eq!(&v[..2], &[0xef, 0xbe]);
    assert_eq!(read_u16(&v, 0), 0xbeef);
    assert_eq!(read_u32(&v, 2), 0xdead_beef);
    assert_eq!(read_u64(&v, 6), 0x0102_0304_0506_0708);
}

#[test]
fn decimal_and_lossy_text() {
    assert_eq!(decimal(0), "0");
    assert_eq!(decimal(1234567890), "1234567890");
    assert_eq!(decode_lossy(b"ok"), "ok");
    assert_eq!(decode_lossy(&[0x61, 0xff]), "a\u{fffd}");
}

#[test]
fn error_messages_match_their_text() {
    assert_eq!(
        ElfError::BufferTooSmall { expected: 64, found: 3 }.message(),
        "ELF buffer too small: expected 64 bytes, found 3"
    );
    assert_eq!(ElfError::UnsupportedMachine(62).message(), "Unsupported machine type: 62 (expected AArch64)");
    assert_eq!(LoaderError::UnresolvedSymbol("foo".to_string()).message(), "Unresolved symbol: 'foo'");
    assert_eq!(LoaderError::Elf(ElfError::InvalidMagic).message(), "ELF error: Invalid ELF magic bytes");
    assert!(LoaderError::InvalidStartupAddress(0x1f).message().ends_with("0x1f"));
    assert!(!MemoryError::AllocationFailed { size: 0, errno: 22 }.message().is_empty());
}

fn minimal_dex() -> Vec<u8> {
    let mut dex = vec![0u8; 112];
    dex[..8].copy_from_slice(b"dex\n035\0");
    dex[32..36].copy_from_slice(&(112u32).to_le_bytes());
    dex[36..40].copy_from_slice(&(112u32).to_le_bytes());
    dex[40..44].copy_from_slice(&0x1234_5678u32.to_le_bytes());
    dex
}

#[test]
fn dex_header_is_read() {
    let dex = minimal_dex();
    let meta = DexReader::read(&dex).unwrap();
    assert_eq!(meta.version, "035");
    assert_eq!(meta.file_size, 112);
    assert_eq!(meta.string_count, 0);
    assert!(matches!(DexReader::read(&dex[..100]), Err(DexError::TooSmall)));
    let mut bad = dex.clone();
    bad[0] = b'x';
    assert!(matches!(DexReader::read(&bad), Err(DexError::InvalidMagic)));
}

#[test]
fn dex_header_and_tables_are_checked_in_order() {
    let dex = minimal_dex();
    let mut endian = dex.clone();
    endian[40] = 0;
    assert!(matches!(DexReader::read(&endian), Err(DexError::InvalidHeader)));
    let mut strings = dex.clone();
    strings[56..60].copy_from_slice(&(1u32).to_le_bytes());
    strings[60..64].copy_from_slice(&(110u32).to_le_bytes());
    assert!(matches!(DexReader::read(&strings), Err(DexError::OutOfBounds)));
    let mut dangling = dex.clone();
    dangling[56..60].copy_from_slice(&(1u32).to_le_bytes());
    dangling[60..64].copy_from_slice(&(100u32).to_le_bytes());
    dangling[100..104].copy_from_slice(&(500u32).to_le_bytes());
    assert!(matches!(DexReader::read(&dangling), Err(DexError::OutOfBounds)));
}

#[test]
fn input_events_drain_in_order() {
    let mut d = InputDispatcher::new();
    d.push(InputEvent::Key { code: 4, pressed: true });
    d.push(InputEvent::Touch { x: 1, y: 2, pressed: false });
    assert_eq!(d.len(), 2);
    let events = d.drain();
    assert_eq!(events, vec![InputEvent::Key { code: 4, pressed: true }, InputEvent::Touch { x: 1, y: 2, pressed: false }]);
    assert_eq!(d.len(), 0);
}

fn bundle(api: u32, tier: ApiTier, digest: Option<&str>, status: &str) -> BundleTierMetadata {
    BundleTierMetadata::new(api, &format!("android-{}", api), digest.map(|d| d.to_string()), status)
        .with_tier(tier)
}

trait WithTier {
    fn with_tier(self, tier: ApiTier) -> Self;
}

impl WithTier for BundleTierMetadata {
    fn with_tier(mut self, tier: ApiTier) -> Self {
        self.tier = tier;
        self
    }
}

#[test]
fn api_policy_classifies_and_validates() {
    let policy = ApiPolicy::default();
    assert_eq!(policy.classify(36), ApiTier::Primary);
    assert_eq!(policy.classify(35), ApiTier::Secondary);
    assert_eq!(policy.classify(34), ApiTier::Unsupported);

    assert_eq!(policy.validate(&bundle(36, ApiTier::Primary, Some("sha256:1"), "ready")), Ok(()));
    assert_eq!(
        policy.validate(&bundle(34, ApiTier::Primary, Some("sha256:1"), "ready")),
        Err(ApiPolicyError::UnsupportedApi(AndroidApi(34)))
    );
    assert_eq!(
        policy.validate(&bundle(36, ApiTier::Secondary, Some("d"), "ready")),
        Err(ApiPolicyError::TierMismatch { api: AndroidApi(36), expected: ApiTier::Primary, actual: ApiTier::Secondary })
    );
    assert_eq!(
        policy.validate(&bundle(36, ApiTier::Primary, Some("d"), "pending")),
        Err(ApiPolicyError::BundleNotReady(AndroidApi(36)))
    );
    assert_eq!(
        policy.validate(&bundle(36, ApiTier::Primary, None, "ready")),
        Err(ApiPolicyError::MissingDigest(AndroidApi(36)))
    );
}

#[test]
fn api_policy_prefers_the_primary_bundle() {
    let policy = ApiPolicy::default();
    let bundles = vec![
        bundle(35, ApiTier::Secondary, Some("a"), "ready"),
        bundle(36, ApiTier::Primary, Some("b"), "ready"),
    ];
    assert_eq!(policy.resolve(&bundles).unwrap().api, AndroidApi(36));
    assert_eq!(policy.resolve_for_apk(&bundles, Some(21), Some(35)).unwrap().api, AndroidApi(36));
    let only_secondary = vec![bundle(35, ApiTier::Secondary, Some("a"), "ready")];
    assert_eq!(policy.resolve(&only_secondary).unwrap().api, AndroidApi(35));
    assert!(matches!(policy.resolve(&[]), Err(ApiPolicyError::NoSupportedBundle)));
    assert_eq!(
        policy.check_apk_compatibility(AndroidApi(35), Some(36), None),
        Err(ApiPolicyError::ApkMinSdkTooHigh { min_sdk: 36, api: AndroidApi(35) })
    );
    assert_eq!(
        policy.check_apk_compatibility(AndroidApi(35), None, Some(36)),
        Err(ApiPolicyError::ApkTargetSdkTooHigh { target_sdk: 36, api: AndroidApi(35) })
    );
}

#[test]
fn api_manifest_lines_are_parsed() {
    let policy = ApiPolicy::default();
    let manifest = "api\tandroid\ttag\tdigest\ttier\tstatus\n36\tandroid16\tlar-36\tsha256:x\tprimary\tready\n35\tandroid15\tlar-35\t-\tsecondary\tpending\n";
    let bundles = policy.resolve_manifest(manifest).unwrap();
    assert_eq!(bundles.len(), 2);
    assert_eq!(bundles[0].api, AndroidApi(36));
    assert_eq!(bundles[0].tier, ApiTier::Primary);
    assert_eq!(bundles[0].digest.as_deref(), Some("sha256:x"));
    assert_eq!(bundles[1].digest, None);
    assert_eq!(bundles[1].status, "pending");
    assert!(matches!(
        BundleTierMetadata::from_manifest_line("36\tandroid16\tlar\tx\tbest\tready"),
        Err(ApiPolicyError::InvalidManifest)
    ));
    assert!(matches!(BundleTierMetadata::from_manifest_line("x\ta\tb\tc\tprimary\td"), Err(ApiPolicyError::InvalidManifest)));
}

#[test]
fn jit_engine_loads_a_cache_for_its_architecture() {
    let block = CompiledBlock { block_hash: 7, guest_pc: 0x1000, machine_code: vec![0xc3] };
    let image = MmapExecutionCache::serialize(HostArch::X86_64, &[block]);
    let mut engine = JitEngine::new(HostArch::X86_64);
    assert!(engine.load_cache(&image).is_ok());
    let mut other = JitEngine::new(HostArch::Riscv64);
    assert!(other.load_cache(&image).is_err());
}
