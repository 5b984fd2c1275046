//! The Bionic replacement symbols guest libraries bind to: the libc, libm, libdl and liblog
//! entry points the runtime provides.

use vstd::prelude::*;
use crate::linker::symbols::SymbolRegistry;

verus! {

/// The number of Bionic entry points the runtime provides.
pub const BIONIC_SHIM_COUNT: usize = 51;

/// The names of the Bionic entry points, in registration order.
pub open spec fn bionic_names() -> Seq<Seq<char>> {
    seq!["malloc"@, "free"@, "calloc"@, "realloc"@, "memcpy"@, "memset"@, "memmove"@, "memcmp"@, "strlen"@, "strcmp"@, "strncmp"@, "strcpy"@, "strncpy"@, "strdup"@, "puts"@, "abort"@, "exit"@, "pthread_self"@, "pthread_mutex_init"@, "pthread_mutex_lock"@, "pthread_mutex_unlock"@, "pthread_mutex_destroy"@, "sin"@, "cos"@, "tan"@, "asin"@, "acos"@, "atan"@, "atan2"@, "sqrt"@, "cbrt"@, "pow"@, "exp"@, "log"@, "log2"@, "log10"@, "fabs"@, "floor"@, "ceil"@, "round"@, "fmod"@, "dlopen"@, "dlsym"@, "dlclose"@, "dlerror"@, "dladdr"@, "__android_log_write"@, "__android_log_print"@, "__android_log_buf_write"@, "__android_log_buf_print"@, "__android_log_assert"@]
}

/// The registry after registering names `0..k` at the given addresses.
pub open spec fn shims_registered(m: Map<Seq<char>, usize>, addrs: Seq<usize>, k: int) -> Map<Seq<char>, usize>
    decreases k,
{
    if k <= 0 { m } else { shims_registered(m, addrs, k - 1).insert(bionic_names()[k - 1], addrs[k - 1]) }
}

/// The names of the Bionic entry points.
pub fn bionic_shim_names() -> (r: Vec<&'static str>)
    ensures
        r@.len() == BIONIC_SHIM_COUNT,
        forall|i: int| 0 <= i < r@.len() ==> #[trigger] r@[i]@ == bionic_names()[i],
{
    let v: Vec<&'static str> = vec!["malloc", "free", "calloc", "realloc", "memcpy", "memset", "memmove", "memcmp", "strlen", "strcmp", "strncmp", "strcpy", "strncpy", "strdup", "puts", "abort", "exit", "pthread_self", "pthread_mutex_init", "pthread_mutex_lock", "pthread_mutex_unlock", "pthread_mutex_destroy", "sin", "cos", "tan", "asin", "acos", "atan", "atan2", "sqrt", "cbrt", "pow", "exp", "log", "log2", "log10", "fabs", "floor", "ceil", "round", "fmod", "dlopen", "dlsym", "dlclose", "dlerror", "dladdr", "__android_log_write", "__android_log_print", "__android_log_buf_write", "__android_log_buf_print", "__android_log_assert"];
    assert(v@.len() == BIONIC_SHIM_COUNT);
    v
}

/// Registers every Bionic entry point at the address of the host function that implements
/// it: `addresses[i]` for the `i`-th name. The host functions live outside the library, so
/// their addresses are handed in.
pub fn register_bionic_shims(registry: &mut SymbolRegistry, addresses: &[usize])
    requires
        old(registry).wf(),
        addresses@.len() == BIONIC_SHIM_COUNT,
    ensures
        final(registry).wf(),
        final(registry).view() == shims_registered(old(registry).view(), addresses@, BIONIC_SHIM_COUNT as int),
{
    let names = bionic_shim_names();
    let mut i: usize = 0;
    while i < names.len()
        invariant
            0 <= i <= names@.len(),
            names@.len() == BIONIC_SHIM_COUNT,
            addresses@.len() == BIONIC_SHIM_COUNT,
            forall|j: int| 0 <= j < names@.len() ==> #[trigger] names@[j]@ == bionic_names()[j],
            registry.wf(),
            registry.view() == shims_registered(old(registry).view(), addresses@, i as int),
        decreases names@.len() - i,
    {
        registry.register(names[i], addresses[i]);
        i = i + 1;
    }
}

proof fn lemma_shims_contain(m: Map<Seq<char>, usize>, addrs: Seq<usize>, k: int, i: int)
    requires
        0 <= i < k <= BIONIC_SHIM_COUNT,
    ensures
        shims_registered(m, addrs, k).contains_key(bionic_names()[i]),
    decreases k,
{
    if k - 1 > i {
        lemma_shims_contain(m, addrs, k - 1, i);
    }
}

/// After registration every Bionic entry point resolves.
pub proof fn lemma_bionic_names_registered(m: Map<Seq<char>, usize>, addrs: Seq<usize>, i: int)
    requires
        0 <= i < BIONIC_SHIM_COUNT,
    ensures
        shims_registered(m, addrs, BIONIC_SHIM_COUNT as int).contains_key(bionic_names()[i]),
{
    lemma_shims_contain(m, addrs, BIONIC_SHIM_COUNT as int, i);
}

} // verus!
