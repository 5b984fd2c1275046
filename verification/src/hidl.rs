//! HIDL interface files, which share the AIDL reader and generator.

use vstd::prelude::*;
use crate::aidl::{self, spec_generate, spec_parse, AidlError, AidlFile, Outcome};

verus! {

/// Reads a HIDL file as an AIDL file.
pub fn parse(source: &str) -> (r: Result<AidlFile, AidlError>)
    requires
        !(spec_parse(source@) is Panics),
    ensures
        match spec_parse(source@) {
            Outcome::Done(f) => r matches Ok(a) && a@ == f,
            Outcome::Failed(line, m) => r matches Err(e) && e.line == line && e.message@ == m,
            Outcome::Panics => false,
        },
{
    aidl::parse(source)
}

/// The Rust source for a HIDL file.
pub fn generate_rust(file: &AidlFile) -> (r: String)
    ensures
        r@ == spec_generate(file@),
{
    aidl::generate_hidl_rust(file)
}

} // verus!
