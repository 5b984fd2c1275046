//! The self-test: builds synthetic libraries and an APK, reads them back, loads them and checks
//! where they were placed and what they export.

use vstd::prelude::*;
use crate::arch::HostArch;
use crate::memory::page::is_16k_aligned;
use crate::messages::loader_error_text;
use crate::runtime::LarRuntime;
use crate::linker::loader::LoaderError;
use crate::tester::apk::{ApkMetadata, ApkReader};
use crate::tester::synthetic::{self_test_apk, self_test_entries, apk_image};
use crate::tester::apk::{ApkNativeLib, spec_central_entries, extract_positions, libraries_readable};
use crate::text::utf8_lossy;
use crate::tester::apk::after_last_slash;
use crate::text::{push_str, push_decimal, push_hex, string_from_chars, str_eq, spec_decimal, spec_hex};

verus! {

/// Where QEMU for AArch64 and an AArch64 sysroot were found on the host.
#[derive(Debug, Clone)]
pub struct QemuEnvironment {
    pub qemu_path: Option<String>,
    pub sysroot_path: Option<String>,
    pub is_available: bool,
}

/// What a test run found: counts of passed, failed and skipped checks, with one log line each.
#[derive(Debug)]
pub struct TestReport {
    pub passed_checks: usize,
    pub failed_checks: usize,
    pub loaded_libraries: Vec<String>,
    pub resolved_symbols: Vec<String>,
    pub logs: Vec<String>,
    pub duration_ms: u128,
    pub apk_metadata: Option<ApkMetadata>,
    pub skipped_checks: usize,
}

/// A log line: a tag and a message.
pub open spec fn tagged(tag: Seq<char>, msg: Seq<char>) -> Seq<char> {
    tag + msg
}

fn tagged_line(tag: &str, msg: &str) -> (r: String)
    ensures
        r@ == tagged(tag@, msg@),
{
    let mut v: Vec<char> = Vec::new();
    push_str(&mut v, tag);
    push_str(&mut v, msg);
    assert(v@ =~= tagged(tag@, msg@));
    string_from_chars(v.as_slice())
}

impl TestReport {
    /// An empty report.
    pub fn new() -> (r: TestReport)
        ensures
            r.passed_checks == 0 && r.failed_checks == 0 && r.skipped_checks == 0,
            r.logs@.len() == 0 && r.loaded_libraries@.len() == 0 && r.resolved_symbols@.len() == 0,
            r.duration_ms == 0 && r.apk_metadata is None,
    {
        TestReport {
            passed_checks: 0,
            failed_checks: 0,
            loaded_libraries: Vec::new(),
            resolved_symbols: Vec::new(),
            logs: Vec::new(),
            duration_ms: 0,
            apk_metadata: None,
            skipped_checks: 0,
        }
    }

    /// Records a passed check.
    pub fn record_pass(&mut self, msg: &str)
        requires
            old(self).passed_checks < usize::MAX,
        ensures
            final(self).passed_checks == old(self).passed_checks + 1,
            final(self).failed_checks == old(self).failed_checks,
            final(self).skipped_checks == old(self).skipped_checks,
            final(self).logs@.len() == old(self).logs@.len() + 1,
            final(self).logs@.drop_last() == old(self).logs@,
            final(self).logs@.last()@ == tagged("[PASS] "@, msg@),
            final(self).loaded_libraries@ == old(self).loaded_libraries@,
    {
        self.passed_checks = self.passed_checks + 1;
        self.logs.push(tagged_line("[PASS] ", msg));
    }

    /// Records a failed check.
    pub fn record_fail(&mut self, msg: &str)
        requires
            old(self).failed_checks < usize::MAX,
        ensures
            final(self).failed_checks == old(self).failed_checks + 1,
            final(self).passed_checks == old(self).passed_checks,
            final(self).skipped_checks == old(self).skipped_checks,
            final(self).logs@.len() == old(self).logs@.len() + 1,
            final(self).logs@.drop_last() == old(self).logs@,
            final(self).logs@.last()@ == tagged("[FAIL] "@, msg@),
            final(self).loaded_libraries@ == old(self).loaded_libraries@,
    {
        self.failed_checks = self.failed_checks + 1;
        self.logs.push(tagged_line("[FAIL] ", msg));
    }

    /// Records a skipped check.
    pub fn record_skip(&mut self, msg: &str)
        requires
            old(self).skipped_checks < usize::MAX,
        ensures
            final(self).skipped_checks == old(self).skipped_checks + 1,
            final(self).passed_checks == old(self).passed_checks,
            final(self).failed_checks == old(self).failed_checks,
            final(self).logs@.len() == old(self).logs@.len() + 1,
            final(self).logs@.drop_last() == old(self).logs@,
            final(self).logs@.last()@ == tagged("[SKIP] "@, msg@),
            final(self).loaded_libraries@ == old(self).loaded_libraries@,
    {
        self.skipped_checks = self.skipped_checks + 1;
        self.logs.push(tagged_line("[SKIP] ", msg));
    }

    /// Whether some check passed and none failed.
    pub fn is_success(&self) -> (r: bool)
        ensures
            r == (self.failed_checks == 0 && self.passed_checks > 0),
    {
        self.failed_checks == 0 && self.passed_checks > 0
    }
}

/// The test harness.
pub struct LarTestHarness;

/// Whether every check of a report was counted once and logged once.
pub open spec fn report_consistent(r: TestReport) -> bool {
    r.logs@.len() == r.passed_checks + r.failed_checks + r.skipped_checks
}

fn text_with_number(prefix: &str, n: u64, suffix: &str) -> (r: String)
    ensures
        r@ == prefix@ + spec_decimal(n as nat) + suffix@,
{
    let mut v: Vec<char> = Vec::new();
    push_str(&mut v, prefix);
    push_decimal(n, &mut v);
    push_str(&mut v, suffix);
    assert(v@ =~= prefix@ + spec_decimal(n as nat) + suffix@);
    string_from_chars(v.as_slice())
}

fn text_with_hex(a: &str, b: &str, n: u64, c: &str) -> (r: String)
    ensures
        r@ == a@ + b@ + spec_hex(n as nat) + c@,
{
    let mut v: Vec<char> = Vec::new();
    push_str(&mut v, a);
    push_str(&mut v, b);
    push_hex(n, &mut v);
    push_str(&mut v, c);
    assert(v@ =~= a@ + b@ + spec_hex(n as nat) + c@);
    string_from_chars(v.as_slice())
}

fn text3(a: &str, b: &str, c: &str) -> (r: String)
    ensures
        r@ == a@ + b@ + c@,
{
    let mut v: Vec<char> = Vec::new();
    push_str(&mut v, a);
    push_str(&mut v, b);
    push_str(&mut v, c);
    assert(v@ =~= a@ + b@ + c@);
    string_from_chars(v.as_slice())
}

impl LarTestHarness {
    /// Checks a library just loaded: its base is 16 KiB aligned, and the symbol it is known to
    /// export (if any) resolves.
    fn check_loaded(report: &mut TestReport, name: &str, base: usize, symbol: Option<(&str, Option<usize>)>)
        requires
            old(report).passed_checks + 2 < usize::MAX,
            old(report).failed_checks + 2 < usize::MAX,
            report_consistent(*old(report)),
        ensures
            report_consistent(*final(report)),
            final(report).loaded_libraries@ == old(report).loaded_libraries@,
            final(report).logs@.len() >= old(report).logs@.len(),
            final(report).logs@.subrange(0, old(report).logs@.len() as int) == old(report).logs@,
            final(report).skipped_checks == old(report).skipped_checks,
            final(report).passed_checks <= old(report).passed_checks + 2,
            final(report).failed_checks == old(report).failed_checks
                + (if base % 0x4000 == 0 { 0int } else { 1 })
                + (if symbol matches Some((_, None)) { 1int } else { 0 }),
    {
        if is_16k_aligned(base) {
            let m = text_with_hex(name, ": 16KB alignment verified (base 0x", base as u64, ")");
            report.record_pass(m.as_str());
        } else {
            let m = text3(name, ": 16KB alignment FAILED", "");
            report.record_fail(m.as_str());
        }
        match symbol {
            Some((sym, Some(addr))) => {
                let mut v: Vec<char> = Vec::new();
                push_str(&mut v, name);
                push_str(&mut v, ": Symbol '");
                push_str(&mut v, sym);
                push_str(&mut v, "' resolved at 0x");
                push_hex(addr as u64, &mut v);
                let m = string_from_chars(v.as_slice());
                report.record_pass(m.as_str());
            },
            Some((sym, None)) => {
                let mut v: Vec<char> = Vec::new();
                push_str(&mut v, name);
                push_str(&mut v, ": Symbol '");
                push_str(&mut v, sym);
                push_str(&mut v, "' NOT found");
                let m = string_from_chars(v.as_slice());
                report.record_fail(m.as_str());
            },
            None => {},
        }
    }

    /// Loads each extracted library into a runtime for `host_arch` with the Bionic shims at
    /// `shims`, and checks it.
    fn load_all(report: &mut TestReport, extracted: &Vec<ApkNativeLib>, host_arch: HostArch, shims: &[usize])
        requires
            shims@.len() == crate::bionic::BIONIC_SHIM_COUNT,
            report_consistent(*old(report)),
            old(report).passed_checks <= 3,
            old(report).failed_checks == 0,
            extracted@.len() < 0x10000,
        ensures
            report_consistent(*final(report)),
            final(report).logs@.len() >= old(report).logs@.len(),
            final(report).logs@.subrange(0, old(report).logs@.len() as int) == old(report).logs@,
            final(report).passed_checks <= 3 + 2 * extracted@.len(),
            final(report).failed_checks <= 2 * extracted@.len(),
            final(report).skipped_checks == old(report).skipped_checks,
            final(report).loaded_libraries@.len() == old(report).loaded_libraries@.len() + extracted@.len(),
            forall|j: int| 0 <= j < extracted@.len() ==>
                #[trigger] final(report).loaded_libraries@[old(report).loaded_libraries@.len() + j] == extracted@[j].name,
    {
        let mut runtime = LarRuntime::new(host_arch, shims);
        let mut k: usize = 0;
        while k < extracted.len()
            invariant
                report_consistent(*report),
                report.passed_checks <= 3 + 2 * k,
                report.failed_checks <= 2 * k,
                k <= extracted@.len(),
                extracted@.len() < 0x10000,
                runtime.wf(),
                report.skipped_checks == old(report).skipped_checks,
                report.logs@.len() >= old(report).logs@.len(),
                report.logs@.subrange(0, old(report).logs@.len() as int) == old(report).logs@,
                report.loaded_libraries@.len() == old(report).loaded_libraries@.len() + k,
                forall|j: int| 0 <= j < k ==>
                    #[trigger] report.loaded_libraries@[old(report).loaded_libraries@.len() + j] == extracted@[j].name,
            decreases extracted@.len() - k,
        {
            let lib = &extracted[k];
            report.loaded_libraries.push(lib.name.clone());
            match runtime.load_library(lib.name.as_str(), lib.data.as_slice()) {
                Ok(loaded) => {
                    let symbol: Option<(&str, Option<usize>)> = if str_eq(lib.name.as_str(), "libcore.so") {
                        Some(("native_core_init", loaded.lookup_symbol("native_core_init")))
                    } else if str_eq(lib.name.as_str(), "libgame.so") {
                        Some(("Java_com_example_renderFrame", loaded.lookup_symbol("Java_com_example_renderFrame")))
                    } else {
                        None
                    };
                    let base = loaded.load_base;
                    Self::check_loaded(report, lib.name.as_str(), base, symbol);
                },
                Err(e) => {
                    let text = e.message();
                    let m = text3("Failed to load ", lib.name.as_str(), "");
                    let m = text3(m.as_str(), ": ", text.as_str());
                    report.record_fail(m.as_str());
                },
            }
            k = k + 1;
        }
    }

}

/// Whether the libraries of the self-test's archive extract: the archive reads, has library
/// entries, and each reads.
pub open spec fn self_test_extracts() -> bool {
    let b = apk_image(self_test_entries());
    spec_central_entries(b) matches Some(es) && extract_positions(es, es.len() as int).len() > 0
        && libraries_readable(b, es, es.len() as int)
}

impl LarTestHarness {
    /// The end-to-end self-test: two synthetic libraries packed into a synthetic APK, extracted
    /// again, loaded into a runtime for `host_arch` with the Bionic shims at `shims`, and
    /// checked; then whether QEMU is there.
    pub fn run_self_test(host_arch: HostArch, qemu: &QemuEnvironment, shims: &[usize]) -> (r: TestReport)
        requires
            shims@.len() == crate::bionic::BIONIC_SHIM_COUNT,
        ensures
            report_consistent(r),
            r.logs@.len() >= 3,
            r.logs@[0]@ == tagged("[PASS] "@, "Starting LAR synthetic self-test suite"@),
            r.logs@[1]@ == tagged("[PASS] "@, "Generated synthetic APK ("@
                + spec_decimal(apk_image(self_test_entries()).len()) + " bytes)"@),
            ({
                let last = r.logs@[r.logs@.len() - 1]@;
                ||| r.logs@.len() == 3 && r.passed_checks == 2 && r.failed_checks == 1 && r.skipped_checks == 0
                    && last == tagged("[FAIL] "@, "Failed to extract synthetic APK"@)
                ||| qemu.is_available && r.skipped_checks == 0 && last == tagged("[PASS] "@, match qemu.qemu_path {
                        Some(p) => "QEMU AArch64 available at Some(\""@ + p@ + "\")"@,
                        None => "QEMU AArch64 available at None"@,
                    })
                ||| !qemu.is_available && r.skipped_checks == 1
                    && last == tagged("[SKIP] "@, "QEMU AArch64 not detected; multi-architecture execution was not tested"@)
            }),
            !self_test_extracts() ==> r.logs@.len() == 3
                && r.logs@[2]@ == tagged("[FAIL] "@, "Failed to extract synthetic APK"@),
            self_test_extracts() ==> (spec_central_entries(apk_image(self_test_entries())) matches Some(es) && {
                let pos = extract_positions(es, es.len() as int);
                &&& r.loaded_libraries@.len() == pos.len()
                &&& forall|j: int| 0 <= j < pos.len() ==> (#[trigger] r.loaded_libraries@[j])@
                    == after_last_slash(utf8_lossy(es[pos[j]].1))
                &&& r.logs@[2]@ == tagged("[PASS] "@, "Extracted "@ + spec_decimal(pos.len()) + " libraries from synthetic APK"@)
            }),
    {
        let mut report = TestReport::new();
        report.record_pass("Starting LAR synthetic self-test suite");
        let apk = self_test_apk();
        let m = text_with_number("Generated synthetic APK (", apk.len() as u64, " bytes)");
        report.record_pass(m.as_str());
        let extracted = match ApkReader::extract_arm64_libs_from_memory(apk.as_slice()) {
            Ok(v) => v,
            Err(_) => {
                report.record_fail("Failed to extract synthetic APK");
                return report;
            },
        };
        let m = text_with_number("Extracted ", extracted.len() as u64, " libraries from synthetic APK");
        report.record_pass(m.as_str());
        let ghost third = report.logs@[2];
        assert(report.loaded_libraries@.len() == 0);
        Self::load_all(&mut report, &extracted, host_arch, shims);
        assert(report.logs@[2] == report.logs@.subrange(0, 3)[2]);
        assert(report.logs@[2] == third);
        proof {
            let es = spec_central_entries(apk_image(self_test_entries()))->0;
            let pos = extract_positions(es, es.len() as int);
            assert forall|j: int| 0 <= j < pos.len() implies (#[trigger] report.loaded_libraries@[j])@
                == after_last_slash(utf8_lossy(es[pos[j]].1)) by {
                assert(report.loaded_libraries@[0 + j] == extracted@[j].name);
            }
        }
        let ghost before_qemu = report.logs@;
        if qemu.is_available {
            match &qemu.qemu_path {
                Some(p) => {
                    let m = text3("QEMU AArch64 available at Some(\"", p.as_str(), "\")");
                    report.record_pass(m.as_str());
                },
                None => {
                    report.record_pass("QEMU AArch64 available at None");
                },
            }
        } else {
            report.record_skip("QEMU AArch64 not detected; multi-architecture execution was not tested");
        }
        assert(report.logs@[2] == report.logs@.drop_last()[2]);
        assert(report.logs@[2] == before_qemu[2]);
        report
    }

    /// Tests a single library from its file name and bytes: loads it into a runtime for
    /// `host_arch` with the Bionic shims at `shims`, and checks that its load base is 16 KiB
    /// aligned.
    pub fn test_so_file(host_arch: HostArch, name: &str, bytes: &[u8], shims: &[usize]) -> (r: Result<TestReport, LoaderError>)
        requires
            shims@.len() == crate::bionic::BIONIC_SHIM_COUNT,
        ensures
            crate::linker::elf::ehdr_error(bytes@) matches Some(e) ==> r matches Err(LoaderError::Elf(x)) && x == e,
            r is Ok <==> crate::linker::loader::library_loads(bytes@, crate::memory::mmap::GUEST_MAP_BASE,
                crate::runtime::initial_symbols(shims@)),
            r matches Ok(rep) ==> {
                &&& report_consistent(rep)
                &&& rep.loaded_libraries@.len() == 1 && rep.loaded_libraries@[0]@ == name@
                &&& rep.skipped_checks == 0
                &&& exists|base: usize| {
                    ||| base % 0x4000 == 0 && rep.passed_checks == 1 && rep.failed_checks == 0
                        && rep.logs@[0]@ == tagged("[PASS] "@, name@ + ": Load base 0x"@ + spec_hex(base as nat) + " is 16KB aligned"@)
                    ||| base % 0x4000 != 0 && rep.passed_checks == 0 && rep.failed_checks == 1
                        && rep.logs@[0]@ == tagged("[FAIL] "@, name@ + ": Load base 0x"@ + spec_hex(base as nat) + " is NOT 16KB aligned"@)
                }
            },
    {
        let mut report = TestReport::new();
        let mut runtime = LarRuntime::new(host_arch, shims);
        let loaded = match runtime.load_library(name, bytes) {
            Ok(l) => l,
            Err(e) => return Err(e),
        };
        report.loaded_libraries.push(loaded.name.clone());
        let base = loaded.load_base;
        if is_16k_aligned(base) {
            let m = text_with_hex(loaded.name.as_str(), ": Load base 0x", base as u64, " is 16KB aligned");
            report.record_pass(m.as_str());
        } else {
            let m = text_with_hex(loaded.name.as_str(), ": Load base 0x", base as u64, " is NOT 16KB aligned");
            report.record_fail(m.as_str());
        }
        assert(report.logs@.len() == 1);
        Ok(report)
    }
}

} // verus!
