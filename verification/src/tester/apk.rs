//! Reading APK (ZIP) archives.

use vstd::prelude::*;
use crate::api_policy::{AndroidApi, ApiPolicy, ApiPolicyError, spec_compat, default_policy};
use crate::dex::{dex_error, DexError, DexMetadata, DexReader, DexFileMetadata, MultidexMetadata};
use crate::managers::ApplicationInfo;
use crate::tester::inflate::{inflate, reports, spec_inflate};
use crate::tester::axml::{decode_manifest, spec_decode_manifest, ManifestModel, opt_view, strings_view};
use crate::text::{spec_parse_u32, parse_u32, copy_range};
use crate::text::{chars_of, chars_eq, count_char, count_of, decode_lossy, ends_with, has_prefix, has_suffix,
    starts_with, utf8_lossy, string_from_chars, str_eq, decimal, spec_decimal, concat, first_occurrence,
    find_from, last_occurrence, rfind, lemma_first_occurrence_bounds, lemma_last_occurrence_bounds, all_digits, is_digit, spec_parse_u64, parse_u64};
use crate::wire::{le16, le32, read_u16, read_u32};

verus! {

/// Errors of reading or installing an APK.
#[derive(Debug)]
pub enum ApkError {
    Io(String),
    InvalidZipFormat,
    NoArm64LibrariesFound,
    CorruptedEntry(String),
    InvalidDex(DexError),
    UnsafePath(String),
    DuplicateEntry(String),
    Incompatible(ApiPolicyError),
}

/// The end-of-central-directory signature, "PK\x05\x06".
pub const EOCD: u32 = 0x0605_4b50;
/// A central directory header's signature.
pub const CENTRAL: u32 = 0x0201_4b50;
/// A local file header's signature.
pub const LOCAL: u32 = 0x0403_4b50;
/// The largest entry the reader inflates.
pub const MAX_ENTRY: usize = 0x1000_0000;

/// Where an entry's data is and how it is stored.
#[derive(Debug, Clone, Copy, PartialEq, Eq, Structural)]
pub struct Entry {
    pub method: u16,
    pub compressed: usize,
    pub uncompressed: usize,
    pub offset: usize,
}

/// A native library found in an APK.
#[derive(Debug, Clone)]
pub struct ApkNativeLib {
    pub path_in_apk: String,
    pub name: String,
    pub data: Vec<u8>,
}

/// What an APK's manifest declares.
#[derive(Debug, Clone)]
pub struct ApkMetadata {
    pub package: Option<String>,
    pub launcher_activity: Option<String>,
    pub manifest_xml: Option<Vec<u8>>,
    pub dex: Option<DexMetadata>,
    pub min_sdk: Option<u32>,
    pub target_sdk: Option<u32>,
}

/// The little-endian `u16` at `p`, when it is inside `b`.
pub open spec fn spec_u16at(b: Seq<u8>, p: int) -> Option<int> {
    if p + 2 <= b.len() { Some(le16(b, p)) } else { None }
}

/// The little-endian `u32` at `p`, when it is inside `b`.
pub open spec fn spec_u32at(b: Seq<u8>, p: int) -> Option<int> {
    if p + 4 <= b.len() { Some(le32(b, p)) } else { None }
}

fn u16at(b: &[u8], p: usize) -> (r: Result<usize, ApkError>)
    ensures
        match spec_u16at(b@, p as int) {
            Some(v) => r == Ok::<usize, ApkError>(v as usize),
            None => r is Err && r == Err::<usize, ApkError>(ApkError::InvalidZipFormat),
        },
{
    let n = b.len();
    if p > n || n - p < 2 {
        return Err(ApkError::InvalidZipFormat);
    }
    Ok(read_u16(b, p) as usize)
}

fn u32at(b: &[u8], p: usize) -> (r: Result<usize, ApkError>)
    ensures
        match spec_u32at(b@, p as int) {
            Some(v) => r == Ok::<usize, ApkError>(v as usize),
            None => r == Err::<usize, ApkError>(ApkError::InvalidZipFormat),
        },
{
    let n = b.len();
    if p > n || n - p < 4 {
        return Err(ApkError::InvalidZipFormat);
    }
    Ok(read_u32(b, p) as usize)
}

/// The last position from `start` below `stop` where the end-of-central-directory signature
/// is.
pub open spec fn last_eocd(b: Seq<u8>, start: int, stop: int) -> Option<int>
    decreases stop - start,
{
    if stop <= start {
        None
    } else if stop - 1 + 4 <= b.len() && le32(b, stop - 1) == EOCD {
        Some(stop - 1)
    } else {
        last_eocd(b, start, stop - 1)
    }
}

/// Where the end-of-central-directory record is: searched backwards over the last 64 KiB and
/// 22 bytes.
pub open spec fn eocd_position(b: Seq<u8>) -> Option<int> {
    let start = if b.len() >= 22 + 65535 { b.len() - (22 + 65535) } else { 0 };
    let stop = if b.len() >= 3 { b.len() - 3 } else { 0 };
    last_eocd(b, start, stop)
}

/// The central directory entry at `p`: its entry, name bytes and where the next one starts,
/// when it lies inside the file and carries the signature.
#[verifier::opaque]
pub open spec fn central_at(b: Seq<u8>, p: int) -> Option<(Entry, Seq<u8>, int)> {
    if p + 46 > b.len() || le32(b, p) != CENTRAL {
        None
    } else {
        let nl = le16(b, p + 28);
        let xl = le16(b, p + 30);
        let cl = le16(b, p + 32);
        if p + 46 + nl + xl + cl > b.len() || p + 46 + nl + xl + cl > usize::MAX {
            None
        } else {
            Some((Entry {
                method: le16(b, p + 10) as u16,
                compressed: le32(b, p + 20) as usize,
                uncompressed: le32(b, p + 24) as usize,
                offset: le32(b, p + 42) as usize,
            }, b.subrange(p + 46, p + 46 + nl), p + 46 + nl + xl + cl))
        }
    }
}

/// The entries `0..k` of the central directory starting at `p`, or None when one is bad.
pub open spec fn central_list(b: Seq<u8>, p: int, k: int) -> Option<Seq<(Entry, Seq<u8>)>>
    decreases k,
{
    if k <= 0 {
        Some(Seq::empty())
    } else {
        match central_at(b, p) {
            None => None,
            Some((e, name, next)) => match central_list(b, next, k - 1) {
                None => None,
                Some(rest) => Some(seq![(e, name)] + rest),
            },
        }
    }
}

/// The archive's entries with their raw names, or None when the archive is malformed.
pub open spec fn spec_central_entries(b: Seq<u8>) -> Option<Seq<(Entry, Seq<u8>)>> {
    match eocd_position(b) {
        None => None,
        Some(pos) => if pos + 20 > b.len() {
            None
        } else {
            let count = le16(b, pos + 10);
            let cd_size = le32(b, pos + 12);
            let cd_off = le32(b, pos + 16);
            if count == 0xffff || cd_size > b.len() || cd_off + cd_size > b.len() {
                None
            } else {
                central_list(b, cd_off, count)
            }
        },
    }
}

/// `done` followed by the entries in `rest`, or None.
pub open spec fn prepend_entries(done: Seq<(Entry, Seq<u8>)>, rest: Option<Seq<(Entry, Seq<u8>)>>) -> Option<Seq<(Entry, Seq<u8>)>> {
    match rest {
        None => None,
        Some(r) => Some(done + r),
    }
}

/// The entry at `p`, checked and read.
fn read_central(b: &[u8], p: usize) -> (r: Option<(Entry, String, usize, Ghost<Seq<u8>>)>)
    ensures
        match central_at(b@, p as int) {
            None => r is None,
            Some((e, name, next)) => r matches Some((e2, s, nx, g)) && e2 == e && s@ == utf8_lossy(name)
                && nx == next && g@ == name,
        },
{
    proof {
        reveal(central_at);
    }
    let n = b.len();
    if p > n || n - p < 46 {
        return None;
    }
    if read_u32(b, p) != CENTRAL {
        return None;
    }
    let method = read_u16(b, p + 10);
    let compressed = read_u32(b, p + 20) as usize;
    let uncompressed = read_u32(b, p + 24) as usize;
    let nl = read_u16(b, p + 28) as usize;
    let xl = read_u16(b, p + 30) as usize;
    let cl = read_u16(b, p + 32) as usize;
    let off = read_u32(b, p + 42) as usize;
    let ns = p + 46;
    if nl + xl + cl > n - ns {
        return None;
    }
    let ne = ns + nl;
    let name = decode_lossy(&b[ns..ne]);
    Some((Entry { method, compressed, uncompressed, offset: off }, name, ns + nl + xl + cl, Ghost(b@.subrange(ns as int, ne as int))))
}

/// Finds the end-of-central-directory record.
fn find_eocd(b: &[u8]) -> (r: Option<usize>)
    ensures
        match eocd_position(b@) {
            None => r is None,
            Some(pos) => r == Some(pos as usize),
        },
        r matches Some(p) ==> p + 4 <= b@.len() && eocd_position(b@) == Some(p as int),
{
    let n = b.len();
    let start = if n >= 22 + 65535 { n - (22 + 65535) } else { 0 };
    let stop = if n >= 3 { n - 3 } else { 0 };
    let mut q = stop;
    while q > start
        invariant
            start <= q <= stop,
            n == b@.len(),
            stop <= n,
            eocd_position(b@) == last_eocd(b@, start as int, q as int),
        decreases q - start,
    {
        let p = q - 1;
        if n - p >= 4 && read_u32(b, p) == EOCD {
            return Some(p);
        }
        q = q - 1;
    }
    None
}

/// Reads the central directory: each entry and its name (decoded lossily).
pub fn central_entries(b: &[u8]) -> (r: Result<Vec<(Entry, String)>, ApkError>)
    ensures
        match spec_central_entries(b@) {
            None => r == Err::<Vec<(Entry, String)>, ApkError>(ApkError::InvalidZipFormat),
            Some(es) => r matches Ok(v) && entries_match(v@, es) && v@.len() < 0xffff,
        },
{
    let n = b.len();
    let pos = match find_eocd(b) {
        Some(p) => p,
        None => return Err(ApkError::InvalidZipFormat),
    };
    if n - pos < 20 {
        return Err(ApkError::InvalidZipFormat);
    }
    let count = read_u16(b, pos + 10) as usize;
    let cd_size = read_u32(b, pos + 12) as usize;
    let cd_off = read_u32(b, pos + 16) as usize;
    if count == 0xffff || cd_size > n || cd_off > n - cd_size {
        return Err(ApkError::InvalidZipFormat);
    }
    let mut p = cd_off;
    let mut out: Vec<(Entry, String)> = Vec::new();
    let ghost mut done: Seq<(Entry, Seq<u8>)> = Seq::empty();
    proof {
        match central_list(b@, cd_off as int, count as int) {
            Some(r) => { assert(done + r =~= r); },
            None => {},
        }
    }
    let mut i: usize = 0;
    while i < count
        invariant
            0 <= i <= count,
            n == b@.len(),
            spec_central_entries(b@) == prepend_entries(done, central_list(b@, p as int, count - i)),
            out@.len() == i,
            done.len() == i,
            forall|j: int| 0 <= j < i ==> (#[trigger] out@[j]).0 == done[j].0 && out@[j].1@ == utf8_lossy(done[j].1),
        decreases count - i,
    {
        let (e, name, next, g) = match read_central(b, p) {
            Some(x) => x,
            None => {
                return Err(ApkError::InvalidZipFormat);
            },
        };
        proof {
            let rest = central_list(b@, next as int, count - i - 1);
            assert(prepend_entries(done, central_list(b@, p as int, count - i))
                == prepend_entries(done.push((e, g@)), rest)) by {
                match rest {
                    Some(r) => {
                        assert(done + (seq![(e, g@)] + r) =~= done.push((e, g@)) + r);
                    },
                    None => {},
                }
            }
            done = done.push((e, g@));
        }
        out.push((e, name));
        p = next;
        i = i + 1;
    }
    proof {
        assert(done + Seq::<(Entry, Seq<u8>)>::empty() =~= done);
    }
    Ok(out)
}


/// Where an entry's data lies: after its local header, name and extra field, for as many bytes
/// as the entry is compressed to; None when the local header is missing or the data overruns.
pub open spec fn entry_span(b: Seq<u8>, e: Entry) -> Option<(int, int)> {
    if e.offset + 30 > b.len() || le32(b, e.offset as int) != LOCAL {
        None
    } else {
        let s = e.offset + 30 + le16(b, e.offset + 26) + le16(b, e.offset + 28);
        if s + e.compressed > b.len() {
            None
        } else {
            Some((s, s + e.compressed))
        }
    }
}

/// Whether the entry's declared sizes are within the reader's limits.
pub open spec fn entry_within_limits(b: Seq<u8>, e: Entry) -> bool {
    e.uncompressed <= MAX_ENTRY && e.compressed <= b.len()
}

/// The data of a stored entry within limits and in the file.
pub open spec fn stored_data(b: Seq<u8>, e: Entry) -> Option<Seq<u8>> {
    if entry_within_limits(b, e) && e.method == 0 && e.compressed == e.uncompressed {
        match entry_span(b, e) {
            Some((s, end)) => Some(b.subrange(s, end)),
            None => None,
        }
    } else {
        None
    }
}

/// The data of an entry when it reads: within limits and in the file, and either stored with
/// equal sizes, or deflated and inflating to its declared size.
#[verifier::opaque]
pub open spec fn entry_data(b: Seq<u8>, e: Entry) -> Option<Seq<u8>> {
    if !entry_within_limits(b, e) {
        None
    } else {
        match entry_span(b, e) {
            None => None,
            Some((s, end)) => if e.method == 0 {
                if e.compressed == e.uncompressed { Some(b.subrange(s, end)) } else { None }
            } else if e.method == 8 {
                match spec_inflate(b.subrange(s, end), e.uncompressed as int) {
                    Ok(o) => Some(o),
                    Err(_) => None,
                }
            } else {
                None
            },
        }
    }
}

/// What holds of data read from an entry: the entry is within limits and in the file, and
/// the data is the stored bytes, or inflated data of the declared size.
pub open spec fn entry_data_ok(b: Seq<u8>, e: Entry, data: Seq<u8>) -> bool {
    &&& entry_within_limits(b, e)
    &&& entry_span(b, e) matches Some((s, end))
    &&& (e.method == 0 && e.compressed == e.uncompressed && data == b.subrange(s, end))
        || (e.method == 8 && data.len() == e.uncompressed)
}

/// Reads an entry's data: stored entries are copied, deflated ones inflated.
pub fn read_entry(b: &[u8], e: Entry) -> (r: Result<Vec<u8>, ApkError>)
    ensures
        !entry_within_limits(b@, e) ==> (r matches Err(ApkError::CorruptedEntry(m)) && m@ == "entry exceeds size limit"@),
        entry_within_limits(b@, e) ==> match entry_span(b@, e) {
            None => r matches Err(ApkError::InvalidZipFormat),
            Some((s, end)) => if e.method == 0 {
                if e.compressed != e.uncompressed {
                    r matches Err(ApkError::CorruptedEntry(m)) && m@ == "stored size mismatch"@
                } else {
                    r matches Ok(v) && v@ == b@.subrange(s, end)
                }
            } else if e.method == 8 {
                match spec_inflate(b@.subrange(s, end), e.uncompressed as int) {
                    Ok(o) => r matches Ok(v) && v@ == o,
                    Err(f) => r matches Err(x) && reports(x, f),
                }
            } else {
                r matches Err(ApkError::CorruptedEntry(m)) && m@ == "unsupported compression method "@ + spec_decimal(e.method as nat)
            },
        },
        r matches Ok(v) ==> entry_data_ok(b@, e, v@),
        r is Ok <==> entry_data(b@, e) is Some,
        entry_data(b@, e) matches Some(d) ==> (r matches Ok(v) && v@ == d),
{
    proof {
        reveal(entry_data);
    }
    let n = b.len();
    if e.uncompressed > MAX_ENTRY || e.compressed > n {
        return Err(ApkError::CorruptedEntry("entry exceeds size limit".to_string()));
    }
    if e.offset > n || n - e.offset < 30 || read_u32(b, e.offset) != LOCAL {
        return Err(ApkError::InvalidZipFormat);
    }
    let nl = read_u16(b, e.offset + 26) as usize;
    let xl = read_u16(b, e.offset + 28) as usize;
    let s = e.offset + 30;
    if nl + xl > n - s || e.compressed > n - s - nl - xl {
        return Err(ApkError::InvalidZipFormat);
    }
    let s = s + nl + xl;
    let end = s + e.compressed;
    if e.method == 0 {
        if e.compressed != e.uncompressed {
            return Err(ApkError::CorruptedEntry("stored size mismatch".to_string()));
        }
        let mut v: Vec<u8> = Vec::new();
        let mut i = s;
        while i < end
            invariant
                s <= i <= end,
                end <= b@.len(),
                v@ == b@.subrange(s as int, i as int),
            decreases end - i,
        {
            v.push(b[i]);
            i = i + 1;
            assert(v@ =~= b@.subrange(s as int, i as int));
        }
        Ok(v)
    } else if e.method == 8 {
        let data = &b[s..end];
        assert(data@ == b@.subrange(s as int, end as int));
        inflate(data, e.uncompressed)
    } else {
        Err(ApkError::CorruptedEntry(concat("unsupported compression method ", decimal(e.method as u64).as_str())))
    }
}

/// Whether an entry is an ARM64 native library directly under `lib/arm64-v8a/` or
/// `lib/aarch64/`.
pub open spec fn spec_is_arm64_library(n: Seq<char>) -> bool {
    &&& has_prefix(n, "lib/arm64-v8a/"@) || has_prefix(n, "lib/aarch64/"@)
    &&& has_suffix(n, ".so"@)
    &&& count_char(n, '/') == 2
}

pub fn is_arm64_library(name: &str) -> (r: bool)
    ensures
        r == spec_is_arm64_library(name@),
{
    let n = chars_of(name);
    let a = chars_of("lib/arm64-v8a/");
    let b = chars_of("lib/aarch64/");
    let so = chars_of(".so");
    (starts_with(n.as_slice(), a.as_slice()) || starts_with(n.as_slice(), b.as_slice()))
        && ends_with(n.as_slice(), so.as_slice())
        && count_of(n.as_slice(), '/') == 2
}

/// The number part of `classesN.dex`.
pub open spec fn dex_number(n: Seq<char>) -> Seq<char> {
    n.subrange(7, n.len() - 4)
}

/// Whether an entry is a DEX file: `classes.dex`, or `classesN.dex` with N made of digits
/// and not `1`.
pub open spec fn spec_is_dex_name(n: Seq<char>) -> bool {
    ||| n == "classes.dex"@
    ||| {
        &&& n.len() >= 11
        &&& has_prefix(n, "classes"@)
        &&& has_suffix(n, ".dex"@)
        &&& dex_number(n).len() > 0
        &&& all_digits(dex_number(n))
        &&& dex_number(n) != seq!['1']
    }
}

pub fn is_dex_name(name: &str) -> (r: bool)
    ensures
        r == spec_is_dex_name(name@),
{
    let n = chars_of(name);
    let whole = chars_of("classes.dex");
    if chars_eq(n.as_slice(), whole.as_slice()) {
        return true;
    }
    let len = n.len();
    if len < 11 {
        return false;
    }
    let pre = chars_of("classes");
    let suf = chars_of(".dex");
    if !starts_with(n.as_slice(), pre.as_slice()) || !ends_with(n.as_slice(), suf.as_slice()) {
        return false;
    }
    if len == 11 {
        assert(dex_number(n@).len() == 0);
        return false;
    }
    let mut i: usize = 7;
    while i < len - 4
        invariant
            7 <= i <= len - 4,
            len == n@.len(),
            len >= 11,
            forall|j: int| 7 <= j < i ==> is_digit(#[trigger] n@[j]),
            n@ != "classes.dex"@,
            n@ == name@,
        decreases len - 4 - i,
    {
        let c = n[i];
        if !('0' <= c && c <= '9') {
            assert(!is_digit(dex_number(n@)[i - 7]));
            return false;
        }
        i = i + 1;
    }
    assert(all_digits(dex_number(n@))) by {
        assert forall|j: int| 0 <= j < dex_number(n@).len() implies is_digit(#[trigger] dex_number(n@)[j]) by {
            assert(dex_number(n@)[j] == n@[j + 7]);
        }
    }
    if len == 12 && n[7] == '1' {
        assert(dex_number(n@) =~= seq!['1']);
        return false;
    }
    proof {
        if dex_number(n@) == seq!['1'] {
            assert(dex_number(n@)[0] == n@[7]);
        }
    }
    true
}

/// The order of a DEX file among the others: `classes.dex` first, then by number.
pub open spec fn spec_dex_sort_key(n: Seq<char>) -> u64 {
    if n == "classes.dex"@ {
        1
    } else {
        match spec_parse_u64(dex_number(n)) {
            Some(v) => v,
            None => u64::MAX,
        }
    }
}

fn dex_sort_key(name: &str) -> (r: u64)
    requires
        name@.len() >= 11,
    ensures
        r == spec_dex_sort_key(name@),
{
    let n = chars_of(name);
    let whole = chars_of("classes.dex");
    if chars_eq(n.as_slice(), whole.as_slice()) {
        return 1;
    }
    let len = n.len();
    let mut num: Vec<char> = Vec::new();
    let mut i: usize = 7;
    while i < len - 4
        invariant
            7 <= i <= len - 4,
            len == n@.len(),
            num@ == n@.subrange(7, i as int),
        decreases len - 4 - i,
    {
        num.push(n[i]);
        i = i + 1;
        assert(num@ =~= n@.subrange(7, i as int));
    }
    match parse_u64(num.as_slice()) {
        Some(v) => v,
        None => u64::MAX,
    }
}

/// Whether a path component is unsafe: empty, `.` or `..`, or holding a separator.
pub open spec fn unsafe_component(v: Seq<char>) -> bool {
    v.len() == 0 || v == "."@ || v == ".."@ || count_char(v, '/') > 0 || count_char(v, '\\') > 0
}

pub fn validate_component(value: &str) -> (r: Result<(), ApkError>)
    ensures
        unsafe_component(value@) ==> (r matches Err(ApkError::UnsafePath(s)) && s@ == value@),
        !unsafe_component(value@) ==> r is Ok,
{
    let v = chars_of(value);
    let dot = chars_of(".");
    let dots = chars_of("..");
    if v.len() == 0 || chars_eq(v.as_slice(), dot.as_slice()) || chars_eq(v.as_slice(), dots.as_slice())
        || count_of(v.as_slice(), '/') > 0 || count_of(v.as_slice(), '\\') > 0 {
        return Err(ApkError::UnsafePath(value.to_string()));
    }
    Ok(())
}

/// The characters up to the first `"`, or all of them.
pub open spec fn up_to_quote(s: Seq<char>) -> Seq<char> {
    match first_occurrence(s, seq!['"'], 0) {
        Some(j) => s.subrange(0, j),
        None => s,
    }
}

/// The value of `key="..."` inside the first `<tag ...>` of a textual manifest.
pub open spec fn spec_attr(t: Seq<char>, tag: Seq<char>, key: Seq<char>) -> Option<Seq<char>> {
    match first_occurrence(t, seq!['<'] + tag, 0) {
        None => None,
        Some(p) => match first_occurrence(t, seq!['>'], p) {
            None => None,
            Some(e) => {
                let x = t.subrange(p, e);
                let k = key + seq!['=', '"'];
                match first_occurrence(x, k, 0) {
                    None => None,
                    Some(q) => Some(up_to_quote(x.subrange(q + k.len(), x.len() as int))),
                }
            },
        },
    }
}

fn attr(t: &[char], tag: &str, key: &str) -> (r: Option<Vec<char>>)
    ensures
        match spec_attr(t@, tag@, key@) {
            None => r is None,
            Some(v) => r matches Some(w) && w@ == v,
        },
{
    let mut opening: Vec<char> = vec!['<'];
    assert(opening@ =~= seq!['<'] + tag@.subrange(0, 0));
    let tg = chars_of(tag);
    let mut i: usize = 0;
    while i < tg.len()
        invariant
            0 <= i <= tg@.len(),
            opening@ == seq!['<'] + tg@.subrange(0, i as int),
            tg@ == tag@,
        decreases tg@.len() - i,
    {
        opening.push(tg[i]);
        i = i + 1;
        assert(opening@ =~= seq!['<'] + tg@.subrange(0, i as int));
    }
    assert(tg@.subrange(0, tg@.len() as int) =~= tg@);
    assert(opening@ == seq!['<'] + tag@);
    let tlen = t.len();
    let p = match find_from(t, opening.as_slice(), 0) {
        Some(p) => p,
        None => return None,
    };
    proof {
        lemma_first_occurrence_bounds(t@, opening@, 0);
    }
    let gt: Vec<char> = vec!['>'];
    assert(gt@ =~= seq!['>']);
    let e = match find_from(t, gt.as_slice(), p) {
        Some(e) => e,
        None => {
            assert(first_occurrence(t@, seq!['>'], p as int) is None);
            return None;
        },
    };
    proof {
        lemma_first_occurrence_bounds(t@, seq!['>'], p as int);
    }
    let x = copy_range(t, p, e);
    let mut k = chars_of(key);
    k.push('=');
    k.push('"');
    assert(k@ =~= key@ + seq!['=', '"']);
    let q = match find_from(x.as_slice(), k.as_slice(), 0) {
        Some(q) => q,
        None => return None,
    };
    proof {
        lemma_first_occurrence_bounds(x@, k@, 0);
    }
    let rest = copy_range(x.as_slice(), q + k.len(), x.len());
    let quote: Vec<char> = vec!['"'];
    assert(quote@ =~= seq!['"']);
    match find_from(rest.as_slice(), quote.as_slice(), 0) {
        Some(j) => {
            proof { lemma_first_occurrence_bounds(rest@, seq!['"'], 0); }
            Some(copy_range(rest.as_slice(), 0, j))
        },
        None => Some(rest),
    }
}


/// The name of the activity that declares the launcher action: the last `<activity` before
/// the first mention of `android.intent.action.MAIN`.
pub open spec fn spec_launcher_text(t: Seq<char>) -> Option<Seq<char>> {
    match first_occurrence(t, "android.intent.action.MAIN"@, 0) {
        None => None,
        Some(p) => {
            let head = t.subrange(0, p);
            match last_occurrence(head, "<activity"@, head.len() + 1int) {
                None => None,
                Some(q) => spec_attr(t.subrange(q, t.len() as int), "activity"@, "android:name"@),
            }
        },
    }
}

fn launcher_text(t: &[char]) -> (r: Option<Vec<char>>)
    ensures
        match spec_launcher_text(t@) {
            None => r is None,
            Some(v) => r matches Some(w) && w@ == v,
        },
{
    let tlen = t.len();
    let main = chars_of("android.intent.action.MAIN");
    let p = match find_from(t, main.as_slice(), 0) {
        Some(p) => p,
        None => return None,
    };
    proof {
        lemma_first_occurrence_bounds(t@, main@, 0);
    }
    let head = copy_range(t, 0, p);
    let act = chars_of("<activity");
    assert(head@ == t@.subrange(0, p as int));
    assert(act@ == "<activity"@);
    assert(main@ == "android.intent.action.MAIN"@);
    let q = match rfind(head.as_slice(), act.as_slice()) {
        Some(q) => q,
        None => return None,
    };
    proof {
        lemma_last_occurrence_bounds(head@, act@, head@.len() + 1int);
    }
    let tail = copy_range(t, q, t.len());
    attr(tail.as_slice(), "activity", "android:name")
}



/// The fields read from a manifest.
pub open spec fn metadata_fields(m: ApkMetadata) -> ManifestModel {
    ManifestModel {
        package: opt_view(m.package),
        launcher: opt_view(m.launcher_activity),
        min_sdk: m.min_sdk,
        target_sdk: m.target_sdk,
    }
}

/// An SDK level written in a textual manifest.
pub open spec fn parse_sdk(v: Option<Seq<char>>) -> Option<u32> {
    match v {
        Some(x) => spec_parse_u32(x),
        None => None,
    }
}

/// A manifest: a textual one (starting with `<`, read leniently, never failing) or a binary
/// one.
pub open spec fn spec_parse_manifest(data: Seq<u8>) -> Result<ManifestModel, Seq<char>> {
    if data.len() > 0 && data[0] == 0x3c {
        let t = utf8_lossy(data);
        Ok(ManifestModel {
            package: spec_attr(t, "manifest"@, "package"@),
            launcher: spec_launcher_text(t),
            min_sdk: parse_sdk(spec_attr(t, "uses-sdk"@, "android:minSdkVersion"@)),
            target_sdk: parse_sdk(spec_attr(t, "uses-sdk"@, "android:targetSdkVersion"@)),
        })
    } else {
        spec_decode_manifest(data)
    }
}

fn sdk_value(v: Option<Vec<char>>) -> (r: Option<u32>)
    ensures
        r == parse_sdk(match v { Some(x) => Some(x@), None => None }),
{
    match v {
        Some(x) => parse_u32(x.as_slice()),
        None => None,
    }
}

fn text_of(v: Option<Vec<char>>) -> (r: Option<String>)
    ensures
        opt_view(r) == (match v { Some(x) => Some(x@), None => None::<Seq<char>> }),
{
    match v {
        Some(x) => Some(string_from_chars(x.as_slice())),
        None => None,
    }
}

/// Reads a manifest's package, launcher activity and SDK levels.
pub fn parse_manifest(data: &[u8]) -> (r: Result<ApkMetadata, &'static str>)
    ensures
        match spec_parse_manifest(data@) {
            Ok(f) => r matches Ok(m) && metadata_fields(m) == f && m.manifest_xml is None && m.dex is None,
            Err(e) => r matches Err(x) && x@ == e,
        },
{
    if data.len() > 0 && data[0] == 0x3c {
        let text = decode_lossy(data);
        let t = chars_of(text.as_str());
        return Ok(ApkMetadata {
            package: text_of(attr(t.as_slice(), "manifest", "package")),
            launcher_activity: text_of(launcher_text(t.as_slice())),
            manifest_xml: None,
            dex: None,
            min_sdk: sdk_value(attr(t.as_slice(), "uses-sdk", "android:minSdkVersion")),
            target_sdk: sdk_value(attr(t.as_slice(), "uses-sdk", "android:targetSdkVersion")),
        });
    }
    let decoded = decode_manifest(data)?;
    Ok(ApkMetadata {
        package: decoded.package,
        launcher_activity: decoded.launcher_activity,
        manifest_xml: None,
        dex: None,
        min_sdk: decoded.min_sdk,
        target_sdk: decoded.target_sdk,
    })
}

/// The central directory as read: entries with their names decoded.
pub open spec fn entries_match(v: Seq<(Entry, String)>, es: Seq<(Entry, Seq<u8>)>) -> bool {
    &&& v.len() == es.len()
    &&& forall|i: int| 0 <= i < es.len() ==> (#[trigger] v[i]).0 == es[i].0 && v[i].1@ == utf8_lossy(es[i].1)
}

/// The first entry from `k` on whose decoded name is `name`.
pub open spec fn first_named(es: Seq<(Entry, Seq<u8>)>, name: Seq<char>, k: int) -> Option<int>
    decreases es.len() - k,
{
    if k < 0 || k >= es.len() {
        None
    } else if utf8_lossy(es[k].1) == name {
        Some(k)
    } else {
        first_named(es, name, k + 1)
    }
}

fn find_named(v: &Vec<(Entry, String)>, name: &str, Ghost(es): Ghost<Seq<(Entry, Seq<u8>)>>) -> (r: Option<usize>)
    requires
        entries_match(v@, es),
    ensures
        match first_named(es, name@, 0) {
            Some(i) => r matches Some(j) && j as int == i && j < es.len(),
            None => r is None,
        },
{
    let mut k: usize = 0;
    while k < v.len()
        invariant
            0 <= k <= v@.len(),
            entries_match(v@, es),
            first_named(es, name@, 0) == first_named(es, name@, k as int),
        decreases v@.len() - k,
    {
        if str_eq(v[k].1.as_str(), name) {
            return Some(k);
        }
        k = k + 1;
    }
    None
}

/// Reads and parses the manifest entry `e`, keeping its bytes.
fn manifest_from_entry(bytes: &[u8], e: Entry) -> (r: Result<ApkMetadata, ApkError>)
    ensures
        r matches Ok(m) ==> m.manifest_xml matches Some(x) && entry_data_ok(bytes@, e, x@)
            && spec_parse_manifest(x@) == Ok::<ManifestModel, Seq<char>>(metadata_fields(m)) && m.dex is None,
        entry_within_limits(bytes@, e) && entry_span(bytes@, e) is None ==> r matches Err(ApkError::InvalidZipFormat),
        !entry_within_limits(bytes@, e) ==> r matches Err(ApkError::CorruptedEntry(_)),
        match entry_data(bytes@, e) {
            Some(x) => match spec_parse_manifest(x) {
                Ok(f) => r matches Ok(m) && metadata_fields(m) == f,
                Err(er) => r matches Err(ApkError::CorruptedEntry(y)) && y@ == er,
            },
            None => r is Err,
        },
{
    let manifest = read_entry(bytes, e)?;
    match parse_manifest(manifest.as_slice()) {
        Ok(m) => {
            let mut m = m;
            m.manifest_xml = Some(manifest);
            Ok(m)
        },
        Err(er) => Err(ApkError::CorruptedEntry(er.to_string())),
    }
}

/// An APK reader: metadata, applications, native libraries and install plans from an
/// archive's bytes.
pub struct ApkReader;

impl ApkReader {
    /// Whether an APK with this metadata runs at `api` under the default policy.
    pub fn check_compatibility(metadata: &ApkMetadata, api: AndroidApi) -> (r: Result<(), ApkError>)
        ensures
            match spec_compat(default_policy(), api, metadata.min_sdk, metadata.target_sdk) {
                Ok(()) => r is Ok,
                Err(e) => r matches Err(ApkError::Incompatible(x)) && x == e,
            },
    {
        let policy = ApiPolicy::default();
        assert(policy == default_policy());
        match policy.check_apk_compatibility(api, metadata.min_sdk, metadata.target_sdk) {
            Ok(()) => Ok(()),
            Err(e) => Err(ApkError::Incompatible(e)),
        }
    }

    /// Reads the manifest of an APK: its entry `AndroidManifest.xml`, parsed; the manifest's
    /// bytes are kept.
    pub fn read_metadata_from_memory(bytes: &[u8]) -> (r: Result<ApkMetadata, ApkError>)
        ensures
            match spec_central_entries(bytes@) {
                None => r matches Err(ApkError::InvalidZipFormat),
                Some(es) => match first_named(es, "AndroidManifest.xml"@, 0) {
                    None => r matches Err(ApkError::CorruptedEntry(m)) && m@ == "AndroidManifest.xml is missing"@,
                    Some(i) => (r matches Ok(m) ==> m.manifest_xml matches Some(x) && entry_data_ok(bytes@, es[i].0, x@)
                            && spec_parse_manifest(x@) == Ok::<ManifestModel, Seq<char>>(metadata_fields(m)) && m.dex is None)
                        && (entry_within_limits(bytes@, es[i].0) && entry_span(bytes@, es[i].0) is None
                            ==> r matches Err(ApkError::InvalidZipFormat))
                        && (!entry_within_limits(bytes@, es[i].0) ==> r matches Err(ApkError::CorruptedEntry(_)))
                        && match entry_data(bytes@, es[i].0) {
                            Some(x) => match spec_parse_manifest(x) {
                                Ok(f) => r matches Ok(m) && metadata_fields(m) == f,
                                Err(e) => r matches Err(ApkError::CorruptedEntry(y)) && y@ == e,
                            },
                            None => r is Err,
                        },
                },
            },
            spec_central_entries(bytes@) matches Some(es) ==> match manifest_fields(bytes@, es) {
                Some(f) => r matches Ok(m) && metadata_fields(m) == f,
                None => r is Err,
            },
    {
        proof {
            reveal(manifest_fields);
        }
        let entries = match central_entries(bytes) {
            Ok(v) => v,
            Err(e) => return Err(e),
        };
        let ghost es = spec_central_entries(bytes@)->0;
        assert(entries_match(entries@, es));
        let i = match find_named(&entries, "AndroidManifest.xml", Ghost(es)) {
            Some(i) => i,
            None => return Err(ApkError::CorruptedEntry("AndroidManifest.xml is missing".to_string())),
        };
        manifest_from_entry(bytes, entries[i].0)
    }
}


/// The decoded names of the ARM64 libraries among the first `k` entries.
pub open spec fn arm64_names(es: Seq<(Entry, Seq<u8>)>, k: int) -> Seq<Seq<char>>
    decreases k,
{
    if k <= 0 || k > es.len() {
        Seq::empty()
    } else {
        let n = utf8_lossy(es[k - 1].1);
        if spec_is_arm64_library(n) { arm64_names(es, k - 1).push(n) } else { arm64_names(es, k - 1) }
    }
}

fn library_names(v: &Vec<(Entry, String)>, Ghost(es): Ghost<Seq<(Entry, Seq<u8>)>>) -> (r: Vec<String>)
    requires
        entries_match(v@, es),
    ensures
        strings_view(r@) == arm64_names(es, es.len() as int),
{
    let mut out: Vec<String> = Vec::new();
    let mut k: usize = 0;
    assert(strings_view(out@) =~= Seq::<Seq<char>>::empty());
    while k < v.len()
        invariant
            0 <= k <= v@.len(),
            entries_match(v@, es),
            strings_view(out@) == arm64_names(es, k as int),
        decreases v@.len() - k,
    {
        if is_arm64_library(v[k].1.as_str()) {
            let ghost before = out@;
            out.push(v[k].1.clone());
            assert(strings_view(out@) =~= strings_view(before).push(v@[k as int].1@));
        }
        k = k + 1;
    }
    out
}

/// The part of a path after its last `/`.
pub open spec fn after_last_slash(s: Seq<char>) -> Seq<char> {
    match last_occurrence(s, seq!['/'], s.len() + 1int) {
        Some(i) => s.subrange(i + 1, s.len() as int),
        None => s,
    }
}

fn file_name(path: &str) -> (r: String)
    ensures
        r@ == after_last_slash(path@),
{
    let t = chars_of(path);
    let n = t.len();
    let slash: Vec<char> = vec!['/'];
    assert(slash@ =~= seq!['/']);
    match rfind(t.as_slice(), slash.as_slice()) {
        Some(i) => {
            proof { lemma_last_occurrence_bounds(t@, seq!['/'], t@.len() + 1int); }
            let rest = copy_range(t.as_slice(), i + 1, n);
            string_from_chars(rest.as_slice())
        },
        None => path.to_string(),
    }
}

/// Whether an entry is extracted as a native library: under `lib/arm64-v8a/` or
/// `lib/aarch64/`, ending in `.so`.
pub open spec fn spec_extractable(n: Seq<char>) -> bool {
    (has_prefix(n, "lib/arm64-v8a/"@) || has_prefix(n, "lib/aarch64/"@)) && has_suffix(n, ".so"@)
}

/// The positions of the extractable entries among the first `k`.
pub open spec fn extract_positions(es: Seq<(Entry, Seq<u8>)>, k: int) -> Seq<int>
    decreases k,
{
    if k <= 0 || k > es.len() {
        Seq::empty()
    } else if spec_extractable(utf8_lossy(es[k - 1].1)) {
        extract_positions(es, k - 1).push(k - 1)
    } else {
        extract_positions(es, k - 1)
    }
}

/// A library extracted from entry `i`: its path, file name and data.
pub open spec fn extracted_from(b: Seq<u8>, es: Seq<(Entry, Seq<u8>)>, i: int, lib: ApkNativeLib) -> bool {
    &&& lib.path_in_apk@ == utf8_lossy(es[i].1)
    &&& lib.name@ == after_last_slash(utf8_lossy(es[i].1))
    &&& entry_data_ok(b, es[i].0, lib.data@)
}

/// The archive's first manifest entry read and parsed: the fields it gives.
pub open spec fn manifest_read(b: Seq<u8>, es: Seq<(Entry, Seq<u8>)>, f: ManifestModel) -> bool {
    first_named(es, "AndroidManifest.xml"@, 0) matches Some(i)
        && exists|x: Seq<u8>| entry_data_ok(b, es[i].0, x) && #[trigger] spec_parse_manifest(x) == Ok::<ManifestModel, Seq<char>>(f)
}

/// A DEX file to install: its entry name, data and header.
#[derive(Debug)]
pub struct PlannedDex {
    pub name: String,
    pub data: Vec<u8>,
    pub metadata: DexMetadata,
}

/// A native library to install: its file name and data.
#[derive(Debug)]
pub struct PlannedLibrary {
    pub name: String,
    pub data: Vec<u8>,
}

/// What installing an APK writes: the package's DEX files, primary first, and its ARM64
/// libraries.
#[derive(Debug)]
pub struct InstallPlan {
    pub package: String,
    pub launcher_activity: Option<String>,
    pub dex_files: Vec<PlannedDex>,
    pub libraries: Vec<PlannedLibrary>,
}

/// Whether the DEX files are in install order: by number, `classes.dex` first, and in archive
/// order where numbers are equal.
pub open spec fn dex_ordered(keys: Seq<u64>, order: Seq<int>) -> bool {
    forall|a: int, b: int| 0 <= a < b < keys.len() ==>
        (#[trigger] keys[a] < #[trigger] keys[b] || (keys[a] == keys[b] && order[a] < order[b]))
}

/// Sorts DEX files into install order (stable, by `spec_dex_sort_key`). Returns each result's
/// position in the input.
fn sort_dex(files: Vec<PlannedDex>) -> (r: (Vec<PlannedDex>, Ghost<Seq<int>>))
    requires
        forall|i: int| 0 <= i < files@.len() ==> spec_is_dex_name((#[trigger] files@[i]).name@),
    ensures
        r.0@.len() == files@.len(),
        r.1@.len() == files@.len(),
        forall|j: int| 0 <= j < files@.len() ==> 0 <= #[trigger] r.1@[j] < files@.len() && r.0@[j] == files@[r.1@[j]],
        forall|a: int, b: int| 0 <= a < b < files@.len() ==> #[trigger] r.1@[a] != #[trigger] r.1@[b],
        dex_ordered(r.0@.map_values(|f: PlannedDex| spec_dex_sort_key(f.name@)), r.1@),
{
    let ghost orig = files@;
    let n = files.len();
    let mut input = files;
    let mut out: Vec<PlannedDex> = Vec::new();
    let mut keys: Vec<u64> = Vec::new();
    let ghost mut order: Seq<int> = Seq::empty();
    while input.len() > 0
        invariant
            n == orig.len(),
            input@.len() <= n,
            input@ == orig.subrange(0, input@.len() as int),
            forall|i: int| 0 <= i < orig.len() ==> spec_is_dex_name((#[trigger] orig[i]).name@),
            out@.len() == n - input@.len(),
            keys@.len() == out@.len(),
            order.len() == out@.len(),
            forall|j: int| 0 <= j < out@.len() ==> #[trigger] keys@[j] == spec_dex_sort_key(out@[j].name@),
            forall|j: int| 0 <= j < out@.len() ==> input@.len() <= #[trigger] order[j] < n && out@[j] == orig[order[j]],
            forall|a: int, b: int| 0 <= a < b < out@.len() ==>
                (#[trigger] keys@[a] < #[trigger] keys@[b] || (keys@[a] == keys@[b] && order[a] < order[b])),
        decreases input@.len(),
    {
        let ghost i = input@.len() - 1;
        let x = input.pop().unwrap();
        assert(x == orig[i]);
        proof {
            reveal_strlit("classes.dex");
            assert(spec_is_dex_name(x.name@));
        }
        let k = dex_sort_key(x.name.as_str());
        let mut j: usize = 0;
        while j < keys.len() && keys[j] < k
            invariant
                j <= keys@.len(),
                forall|t: int| 0 <= t < j ==> #[trigger] keys@[t] < k,
            decreases keys@.len() - j,
        {
            j = j + 1;
        }
        let ghost ok = keys@;
        let ghost oo = order;
        out.insert(j, x);
        keys.insert(j, k);
        proof {
            order = order.insert(j as int, i);
            assert forall|a: int, b: int| 0 <= a < b < out@.len() implies
                (#[trigger] keys@[a] < #[trigger] keys@[b] || (keys@[a] == keys@[b] && order[a] < order[b])) by {
                if a < j && b == j {
                    assert(ok[a] < k);
                } else if a == j && b > j {
                    assert(ok[b - 1] >= k || (ok[b - 1] == k));
                    if b - 1 > j {
                        assert(ok[j as int] < ok[b - 1] || (ok[j as int] == ok[b - 1] && oo[j as int] < oo[b - 1]));
                    }
                } else if a < j && b > j {
                    assert(ok[a] < ok[b - 1] || (ok[a] == ok[b - 1] && oo[a] < oo[b - 1]));
                } else if a > j {
                    assert(ok[a - 1] < ok[b - 1] || (ok[a - 1] == ok[b - 1] && oo[a - 1] < oo[b - 1]));
                }
            }
        }
    }
    proof {
        assert forall|a: int, b: int| 0 <= a < b < n implies #[trigger] order[a] != #[trigger] order[b] by {
            if order[a] == order[b] {
                assert(out@[a] == out@[b]);
                assert(keys@[a] == keys@[b]);
            }
        }
        assert(out@.map_values(|f: PlannedDex| spec_dex_sort_key(f.name@)) =~= keys@);
    }
    (out, Ghost(order))
}


/// The DEX file read from an entry.
pub open spec fn dex_read_from(b: Seq<u8>, es: Seq<(Entry, Seq<u8>)>, i: int, f: PlannedDex) -> bool {
    &&& f.name@ == utf8_lossy(es[i].1)
    &&& spec_is_dex_name(f.name@)
    &&& entry_data_ok(b, es[i].0, f.data@)
}

/// The archive's manifest entry reads and parses: the fields it gives.
#[verifier::opaque]
pub open spec fn manifest_fields(b: Seq<u8>, es: Seq<(Entry, Seq<u8>)>) -> Option<ManifestModel> {
    match first_named(es, "AndroidManifest.xml"@, 0) {
        None => None,
        Some(i) => match entry_data(b, es[i].0) {
            None => None,
            Some(x) => match spec_parse_manifest(x) {
                Ok(f) => Some(f),
                Err(_) => None,
            },
        },
    }
}

/// Whether an APK gives an application: its manifest reads, parses and names a package, and
/// its `classes.dex`, if any, reads and is a valid DEX file.
#[verifier::opaque]
pub open spec fn application_readable(b: Seq<u8>, es: Seq<(Entry, Seq<u8>)>) -> bool {
    &&& manifest_fields(b, es) matches Some(f) && f.package is Some
    &&& classes_dex_ok(b, es)
}

/// Whether the archive's `classes.dex`, if it has one, reads and is a valid DEX file.
pub open spec fn classes_dex_ok(b: Seq<u8>, es: Seq<(Entry, Seq<u8>)>) -> bool {
    match first_named(es, "classes.dex"@, 0) {
        None => true,
        Some(j) => entry_data(b, es[j].0) matches Some(d) && dex_error(d) is None,
    }
}

/// The header of the archive's `classes.dex`, or None when it has none.
fn classes_dex(bytes: &[u8], entries: &Vec<(Entry, String)>, Ghost(es): Ghost<Seq<(Entry, Seq<u8>)>>)
    -> (r: Result<Option<DexMetadata>, ApkError>)
    requires
        entries_match(entries@, es),
    ensures
        r is Ok <==> classes_dex_ok(bytes@, es),
        r matches Ok(d) ==> (d is None <==> first_named(es, "classes.dex"@, 0) is None),
{
    match find_named(entries, "classes.dex", Ghost(es)) {
        None => Ok(None),
        Some(i) => {
            let data = match read_entry(bytes, entries[i].0) {
                Ok(d) => d,
                Err(e) => return Err(e),
            };
            match DexReader::read(data.as_slice()) {
                Ok(m) => Ok(Some(m)),
                Err(e) => Err(ApkError::InvalidDex(e)),
            }
        },
    }
}

/// Whether an APK can be installed at `api`: its manifest reads and parses, it is compatible
/// with `api` under the default policy, and the archive can be installed.
pub open spec fn apk_installable(b: Seq<u8>, es: Seq<(Entry, Seq<u8>)>, api: AndroidApi) -> bool {
    manifest_fields(b, es) matches Some(f) && spec_compat(default_policy(), api, f.min_sdk, f.target_sdk) is Ok
        && archive_installable(b, f.package)
}

impl ApkReader {
    /// The application an APK holds: its package and launcher activity from the manifest, the
    /// header of `classes.dex` when there is one, and its ARM64 libraries' entry names.
    #[verifier::spinoff_prover]
    #[verifier::rlimit(80)]
    pub fn read_application_from_memory(bytes: &[u8]) -> (r: Result<ApplicationInfo, ApkError>)
        ensures
            spec_central_entries(bytes@) is None ==> r matches Err(ApkError::InvalidZipFormat),
            spec_central_entries(bytes@) matches Some(es) && first_named(es, "AndroidManifest.xml"@, 0) is None
                ==> (r matches Err(ApkError::CorruptedEntry(m)) && m@ == "AndroidManifest.xml is missing"@),
            r matches Ok(app) ==> spec_central_entries(bytes@) matches Some(es) && {
                &&& exists|f: ManifestModel| #[trigger] manifest_read(bytes@, es, f) && f.package == Some(app.package@)
                    && f.launcher == opt_view(app.launcher_activity)
                &&& app.dex_path is None
                &&& strings_view(app.native_libraries@) == arm64_names(es, es.len() as int)
                &&& (first_named(es, "classes.dex"@, 0) is None <==> app.dex is None)
            },
            spec_central_entries(bytes@) matches Some(es) ==> (r is Ok <==> application_readable(bytes@, es)),
            spec_central_entries(bytes@) matches Some(es) ==> (manifest_fields(bytes@, es) matches Some(f) ==>
                (r matches Ok(app) ==> Some(app.package@) == f.package && opt_view(app.launcher_activity) == f.launcher)),
    {
        let metadata = match Self::read_metadata_from_memory(bytes) {
            Ok(m) => m,
            Err(e) => {
                proof {
                    if spec_central_entries(bytes@) is Some {
                        assert(!application_readable(bytes@, spec_central_entries(bytes@)->0)) by {
                            reveal(application_readable);
                        }
                    }
                }
                return Err(e);
            },
        };
        let entries = match central_entries(bytes) {
            Ok(v) => v,
            Err(e) => return Err(e),
        };
        let ghost es = spec_central_entries(bytes@)->0;
        assert(manifest_fields(bytes@, es) == Some(metadata_fields(metadata)));
        let dex = match classes_dex(bytes, &entries, Ghost(es)) {
            Ok(d) => d,
            Err(e) => {
                assert(!application_readable(bytes@, es)) by { reveal(application_readable); }
                return Err(e);
            },
        };
        let native_libraries = library_names(&entries, Ghost(es));
        let package = match metadata.package {
            Some(p) => p,
            None => {
                assert(!application_readable(bytes@, es)) by { reveal(application_readable); }
                return Err(ApkError::CorruptedEntry("manifest package is missing".to_string()));
            },
        };
        assert(application_readable(bytes@, es)) by { reveal(application_readable); }
        proof {
            let i = first_named(es, "AndroidManifest.xml"@, 0)->0;
            let x = metadata.manifest_xml->0@;
            assert(entry_data_ok(bytes@, es[i].0, x) && spec_parse_manifest(x) == Ok::<ManifestModel, Seq<char>>(metadata_fields(metadata)));
            assert(manifest_read(bytes@, es, metadata_fields(metadata)));
        }
        Ok(ApplicationInfo {
            package,
            launcher_activity: metadata.launcher_activity,
            dex_path: None,
            dex,
            native_libraries,
        })
    }
}


/// Whether each library entry among the first `k` reads.
pub open spec fn libraries_readable(b: Seq<u8>, es: Seq<(Entry, Seq<u8>)>, k: int) -> bool {
    forall|i: int| 0 <= i < k && spec_extractable(utf8_lossy(es[i].1)) ==> (#[trigger] entry_data(b, es[i].0)) is Some
}

impl ApkReader {
    /// The native libraries under `lib/arm64-v8a/` or `lib/aarch64/` ending in `.so`, read from
    /// the archive in entry order.
    pub fn extract_arm64_libs_from_memory(bytes: &[u8]) -> (r: Result<Vec<ApkNativeLib>, ApkError>)
        ensures
            spec_central_entries(bytes@) is None ==> r matches Err(ApkError::InvalidZipFormat),
            spec_central_entries(bytes@) matches Some(es) && extract_positions(es, es.len() as int).len() == 0
                ==> r matches Err(ApkError::NoArm64LibrariesFound),
            r matches Ok(libs) ==> spec_central_entries(bytes@) matches Some(es) && {
                let pos = extract_positions(es, es.len() as int);
                &&& libs@.len() == pos.len()
                &&& libs@.len() > 0
                &&& libs@.len() < 0xffff
                &&& forall|j: int| 0 <= j < pos.len() ==> extracted_from(bytes@, es, pos[j], #[trigger] libs@[j])
                &&& forall|j: int| 0 <= j < pos.len() ==> entry_data(bytes@, es[pos[j]].0) == Some((#[trigger] libs@[j]).data@)
            },
            spec_central_entries(bytes@) matches Some(es) ==> (r is Ok <==> (extract_positions(es, es.len() as int).len() > 0
                && libraries_readable(bytes@, es, es.len() as int))),
    {
        let entries = match central_entries(bytes) {
            Ok(v) => v,
            Err(e) => return Err(e),
        };
        let ghost es = spec_central_entries(bytes@)->0;
        let a = chars_of("lib/arm64-v8a/");
        let b = chars_of("lib/aarch64/");
        let so = chars_of(".so");
        let mut libs: Vec<ApkNativeLib> = Vec::new();
        let mut k: usize = 0;
        while k < entries.len()
            invariant
                0 <= k <= entries@.len(),
                entries_match(entries@, es),
                es == spec_central_entries(bytes@)->0,
                spec_central_entries(bytes@) is Some,
                a@ == "lib/arm64-v8a/"@,
                b@ == "lib/aarch64/"@,
                so@ == ".so"@,
                libs@.len() == extract_positions(es, k as int).len(),
                libs@.len() <= k,
                entries@.len() < 0xffff,
                forall|j: int| 0 <= j < libs@.len() ==>
                    extracted_from(bytes@, es, extract_positions(es, k as int)[j], #[trigger] libs@[j]),
                forall|j: int| 0 <= j < libs@.len() ==>
                    entry_data(bytes@, es[extract_positions(es, k as int)[j]].0) == Some((#[trigger] libs@[j]).data@),
                libraries_readable(bytes@, es, k as int),
            decreases entries@.len() - k,
        {
            let name = chars_of(entries[k].1.as_str());
            if (starts_with(name.as_slice(), a.as_slice()) || starts_with(name.as_slice(), b.as_slice()))
                && ends_with(name.as_slice(), so.as_slice()) {
                proof {
                    lemma_positions_grow(es, k as int + 1, es.len() as int);
                }
                let data = match read_entry(bytes, entries[k].0) {
                    Ok(d) => d,
                    Err(e) => {
                        assert(spec_extractable(utf8_lossy(es[k as int].1)));
                        assert(entry_data(bytes@, es[k as int].0) is None);
                        assert(!libraries_readable(bytes@, es, es.len() as int));
                        return Err(e);
                    },
                };
                let file = file_name(entries[k].1.as_str());
                libs.push(ApkNativeLib { path_in_apk: entries[k].1.clone(), name: file, data });
            }
            k = k + 1;
        }
        if libs.len() == 0 {
            return Err(ApkError::NoArm64LibrariesFound);
        }
        Ok(libs)
    }

    /// What installing an APK compatible with `api` writes, checked: the manifest's package
    /// is a safe path component, the libraries' file names are too, and there is a DEX file.
    pub fn prepare_install(bytes: &[u8], api: AndroidApi) -> (r: Result<InstallPlan, ApkError>)
        ensures
            spec_central_entries(bytes@) is None ==> r matches Err(ApkError::InvalidZipFormat),
            spec_central_entries(bytes@) matches Some(es) ==> (r is Ok <==> apk_installable(bytes@, es, api)),
            r matches Ok(plan) ==> spec_central_entries(bytes@) matches Some(es) && {
                &&& exists|f: ManifestModel| #[trigger] manifest_read(bytes@, es, f) && f.package == Some(plan.package@)
                    && f.launcher == opt_view(plan.launcher_activity)
                    && spec_compat(default_policy(), api, f.min_sdk, f.target_sdk) is Ok
                &&& plan_ok(bytes@, es, plan)
            },
    {
        let metadata = match Self::read_metadata_from_memory(bytes) {
            Ok(m) => m,
            Err(e) => return Err(e),
        };
        let ghost es = spec_central_entries(bytes@)->0;
        assert(manifest_fields(bytes@, es) == Some(metadata_fields(metadata)));
        match Self::check_compatibility(&metadata, api) {
            Ok(()) => {},
            Err(e) => return Err(e),
        }
        proof {
            let i = first_named(es, "AndroidManifest.xml"@, 0)->0;
            assert(manifest_read(bytes@, es, metadata_fields(metadata)));
        }
        plan_install(bytes, metadata)
    }
}

/// No DEX file is an ARM64 library.
pub proof fn lemma_dex_not_library(n: Seq<char>)
    ensures
        spec_is_dex_name(n) ==> !spec_is_arm64_library(n),
{
    reveal_strlit("classes.dex");
    reveal_strlit("classes");
    reveal_strlit("lib/arm64-v8a/");
    reveal_strlit("lib/aarch64/");
    if spec_is_dex_name(n) && spec_is_arm64_library(n) {
        if n == "classes.dex"@ {
            assert(n.subrange(0, 14) == "lib/arm64-v8a/"@ || n.subrange(0, 12) == "lib/aarch64/"@);
            assert(n[0] == 'c');
            assert(false);
        } else {
            assert(n.subrange(0, 7)[0] == 'c');
            if has_prefix(n, "lib/arm64-v8a/"@) {
                assert(n.subrange(0, 14)[0] == 'l');
            } else {
                assert(n.subrange(0, 12)[0] == 'l');
            }
        }
    }
}

/// Later positions include the earlier ones.
pub proof fn lemma_positions_grow(es: Seq<(Entry, Seq<u8>)>, k1: int, k2: int)
    requires
        0 <= k1 <= k2 <= es.len(),
    ensures
        extract_positions(es, k1).len() <= extract_positions(es, k2).len(),
    decreases k2 - k1,
{
    if k1 < k2 {
        lemma_positions_grow(es, k1, k2 - 1);
    }
}

/// The number of DEX entries among the first `k`.
pub open spec fn dex_count(es: Seq<(Entry, Seq<u8>)>, k: int) -> int
    decreases k,
{
    if k <= 0 || k > es.len() {
        0
    } else {
        dex_count(es, k - 1) + if spec_is_dex_name(utf8_lossy(es[k - 1].1)) { 1int } else { 0 }
    }
}

/// Whether a DEX file was read from one of the entries.
pub open spec fn from_some_entry(b: Seq<u8>, es: Seq<(Entry, Seq<u8>)>, f: PlannedDex) -> bool {
    exists|i: int| 0 <= i < es.len() && dex_read_from(b, es, i, f)
}

/// An install plan as the archive gives it: a safe package name; the DEX entries, read, in
/// install order; the ARM64 library entries, read, in archive order, each under a safe file
/// name.
pub open spec fn plan_ok(b: Seq<u8>, es: Seq<(Entry, Seq<u8>)>, plan: InstallPlan) -> bool {
    &&& !unsafe_component(plan.package@)
    &&& plan.dex_files@.len() > 0
    &&& forall|j: int| 0 <= j < plan.dex_files@.len() ==> from_some_entry(b, es, #[trigger] plan.dex_files@[j])
    &&& plan.dex_files@.len() == dex_count(es, es.len() as int)
    &&& forall|x: int, y: int| 0 <= x < y < plan.dex_files@.len() ==>
        spec_dex_sort_key((#[trigger] plan.dex_files@[x]).name@) <= spec_dex_sort_key((#[trigger] plan.dex_files@[y]).name@)
    &&& plan.libraries@.len() == arm64_names(es, es.len() as int).len()
    &&& forall|j: int| 0 <= j < plan.libraries@.len() ==>
        (#[trigger] plan.libraries@[j]).name@ == after_last_slash(arm64_names(es, es.len() as int)[j])
            && !unsafe_component(plan.libraries@[j].name@)
}

fn dex_entry(bytes: &[u8], e: Entry, name: &String) -> (r: Result<PlannedDex, ApkError>)
    ensures
        !entry_within_limits(bytes@, e) ==> (r matches Err(ApkError::CorruptedEntry(m)) && m@ == "entry exceeds size limit"@),
        entry_within_limits(bytes@, e) && entry_span(bytes@, e) is None ==> r matches Err(ApkError::InvalidZipFormat),
        entry_data(bytes@, e) matches Some(d) ==> match dex_error(d) {
            None => r matches Ok(f) && f.data@ == d,
            Some(x) => r matches Err(ApkError::InvalidDex(y)) && y == x,
        },
        r matches Ok(f) ==> f.name@ == name@ && entry_data_ok(bytes@, e, f.data@) && dex_error(f.data@) is None,
        r is Ok <==> (entry_data(bytes@, e) matches Some(d) && dex_error(d) is None),
{
    let data = read_entry(bytes, e)?;
    let metadata = match DexReader::read(data.as_slice()) {
        Ok(m) => m,
        Err(x) => return Err(ApkError::InvalidDex(x)),
    };
    Ok(PlannedDex { name: name.clone(), data, metadata })
}

fn library_entry(bytes: &[u8], e: Entry, name: &str) -> (r: Result<PlannedLibrary, ApkError>)
    ensures
        unsafe_component(after_last_slash(name@)) ==> (r matches Err(ApkError::UnsafePath(x)) && x@ == after_last_slash(name@)),
        !unsafe_component(after_last_slash(name@)) && !entry_within_limits(bytes@, e)
            ==> (r matches Err(ApkError::CorruptedEntry(m)) && m@ == "entry exceeds size limit"@),
        !unsafe_component(after_last_slash(name@)) && entry_within_limits(bytes@, e) && entry_span(bytes@, e) is None
            ==> r matches Err(ApkError::InvalidZipFormat),
        !unsafe_component(after_last_slash(name@)) ==> (entry_data(bytes@, e) matches Some(d)
            ==> (r matches Ok(l) && l.data@ == d)),
        r matches Ok(l) ==> l.name@ == after_last_slash(name@) && !unsafe_component(l.name@)
            && entry_data_ok(bytes@, e, l.data@),
        r is Ok <==> (!unsafe_component(after_last_slash(name@)) && entry_data(bytes@, e) is Some),
{
    let library_name = file_name(name);
    validate_component(library_name.as_str())?;
    let data = read_entry(bytes, e)?;
    Ok(PlannedLibrary { name: library_name, data })
}

/// Whether the DEX and ARM64 library entries among the first `k` can be installed: each DEX
/// entry reads and is valid, each library entry reads and has a safe file name.
pub open spec fn installable_upto(b: Seq<u8>, es: Seq<(Entry, Seq<u8>)>, k: int) -> bool {
    forall|i: int| 0 <= i < k ==> #[trigger] entry_installable(b, es, i)
}

/// Whether entry `i` can be installed, if it is a DEX file or an ARM64 library.
pub open spec fn entry_installable(b: Seq<u8>, es: Seq<(Entry, Seq<u8>)>, i: int) -> bool {
    let n = utf8_lossy(es[i].1);
    if spec_is_dex_name(n) {
        entry_data(b, es[i].0) matches Some(d) && dex_error(d) is None
    } else if spec_is_arm64_library(n) {
        !unsafe_component(after_last_slash(n)) && entry_data(b, es[i].0) is Some
    } else {
        true
    }
}

/// Whether an archive with this manifest package can be installed: the package is a safe
/// path component, and the archive's DEX and library entries can be installed, with at least
/// one DEX file.
pub open spec fn archive_installable(b: Seq<u8>, package: Option<Seq<char>>) -> bool {
    &&& package matches Some(p) && !unsafe_component(p)
    &&& spec_central_entries(b) matches Some(es) && installable_upto(b, es, es.len() as int)
        && dex_count(es, es.len() as int) > 0
}

fn plan_install(bytes: &[u8], metadata: ApkMetadata) -> (r: Result<InstallPlan, ApkError>)
    ensures
        match metadata.package {
            None => r matches Err(ApkError::CorruptedEntry(m)) && m@ == "manifest package is missing"@,
            Some(p) => if unsafe_component(p@) {
                r matches Err(ApkError::UnsafePath(x)) && x@ == p@
            } else {
                spec_central_entries(bytes@) is None ==> r matches Err(ApkError::InvalidZipFormat)
            },
        },
        r matches Ok(plan) ==> spec_central_entries(bytes@) matches Some(es) && plan_ok(bytes@, es, plan)
            && opt_view(metadata.package) == Some(plan.package@)
            && plan.launcher_activity == metadata.launcher_activity,
        r is Ok <==> archive_installable(bytes@, opt_view(metadata.package)),
{
    let package = match metadata.package {
        Some(p) => p,
        None => return Err(ApkError::CorruptedEntry("manifest package is missing".to_string())),
    };
    validate_component(package.as_str())?;
    let entries = match central_entries(bytes) {
        Ok(v) => v,
        Err(e) => return Err(e),
    };
    let ghost es = spec_central_entries(bytes@)->0;
    let mut dex_files: Vec<PlannedDex> = Vec::new();
    let mut libraries: Vec<PlannedLibrary> = Vec::new();
    let mut k: usize = 0;
    while k < entries.len()
        invariant
            0 <= k <= entries@.len(),
            entries_match(entries@, es),
            forall|j: int| 0 <= j < dex_files@.len() ==> from_some_entry(bytes@, es, #[trigger] dex_files@[j]),
            dex_files@.len() == dex_count(es, k as int),
            libraries@.len() == arm64_names(es, k as int).len(),
            forall|j: int| 0 <= j < libraries@.len() ==>
                (#[trigger] libraries@[j]).name@ == after_last_slash(arm64_names(es, k as int)[j])
                    && !unsafe_component(libraries@[j].name@),
            opt_view(metadata.package) == Some(package@),
            !unsafe_component(package@),
            es == spec_central_entries(bytes@)->0,
            spec_central_entries(bytes@) is Some,
            installable_upto(bytes@, es, k as int),
        decreases entries@.len() - k,
    {
        let name = entries[k].1.as_str();
        if is_dex_name(name) {
            let f = match dex_entry(bytes, entries[k].0, &entries[k].1) {
                Ok(f) => f,
                Err(e) => {
                    assert(!entry_installable(bytes@, es, k as int));
                    return Err(e);
                },
            };
            assert(dex_read_from(bytes@, es, k as int, f));
            let ghost before = dex_files@;
            dex_files.push(f);
            proof {
                assert forall|j: int| 0 <= j < dex_files@.len() implies from_some_entry(bytes@, es, #[trigger] dex_files@[j]) by {
                    if j < before.len() {
                        assert(dex_files@[j] == before[j]);
                    } else {
                        assert(dex_read_from(bytes@, es, k as int, dex_files@[j]));
                    }
                }
                lemma_dex_not_library(name@);
            }
        } else if is_arm64_library(name) {
            let l = match library_entry(bytes, entries[k].0, name) {
                Ok(l) => l,
                Err(e) => {
                    assert(!entry_installable(bytes@, es, k as int));
                    return Err(e);
                },
            };
            libraries.push(l);
        }
        assert(entry_installable(bytes@, es, k as int));
        proof {
            assert(arm64_names(es, k + 1).len() == arm64_names(es, k as int).len() + if spec_is_arm64_library(utf8_lossy(es[k as int].1)) { 1int } else { 0 });
        }
        k = k + 1;
    }
    proof {
        assert forall|i: int| 0 <= i < dex_files@.len() implies spec_is_dex_name((#[trigger] dex_files@[i]).name@) by {
            assert(from_some_entry(bytes@, es, dex_files@[i]));
        }
    }
    assert(installable_upto(bytes@, es, es.len() as int));
    let (sorted, Ghost(order)) = sort_dex(dex_files);
    if sorted.len() == 0 {
        return Err(ApkError::CorruptedEntry("classes.dex is missing".to_string()));
    }
    proof {
        assert forall|j: int| 0 <= j < sorted@.len() implies from_some_entry(bytes@, es, #[trigger] sorted@[j]) by {
            assert(sorted@[j] == dex_files@[order[j]]);
        }
        let keys = sorted@.map_values(|f: PlannedDex| spec_dex_sort_key(f.name@));
        assert forall|x: int, y: int| 0 <= x < y < sorted@.len() implies
            spec_dex_sort_key((#[trigger] sorted@[x]).name@) <= spec_dex_sort_key((#[trigger] sorted@[y]).name@) by {
            assert(keys[x] < keys[y] || (keys[x] == keys[y] && order[x] < order[y]));
        }
    }
    Ok(InstallPlan { package, launcher_activity: metadata.launcher_activity, dex_files: sorted, libraries })
}


/// An installed APK: the application, its DEX files where they were written, and where its
/// native libraries were written.
#[derive(Debug)]
pub struct InstalledApk {
    pub application: ApplicationInfo,
    pub multidex: MultidexMetadata,
    pub native_library_paths: Vec<String>,
}

impl InstallPlan {
    /// The installed APK once the plan's files were written: `dex_paths[i]` for the `i`-th DEX
    /// file and `library_paths[i]` for the `i`-th library. The primary DEX file's path and
    /// header become the application's.
    pub fn installed(self, dex_paths: Vec<String>, library_paths: Vec<String>) -> (r: InstalledApk)
        requires
            dex_paths@.len() == self.dex_files@.len(),
            self.dex_files@.len() > 0,
        ensures
            r.application.package == self.package,
            r.application.launcher_activity == self.launcher_activity,
            r.application.dex_path == Some(dex_paths@[0]),
            r.application.dex matches Some(d) && crate::dex::same_dex(d, self.dex_files@[0].metadata),
            r.application.native_libraries@ == library_paths@,
            r.native_library_paths@ == library_paths@,
            r.multidex.files@.len() == self.dex_files@.len(),
            forall|i: int| 0 <= i < self.dex_files@.len() ==> {
                &&& (#[trigger] r.multidex.files@[i]).name == self.dex_files@[i].name
                &&& r.multidex.files@[i].path == dex_paths@[i]
                &&& r.multidex.files@[i].metadata == self.dex_files@[i].metadata
            },
    {
        let InstallPlan { package, launcher_activity, dex_files, libraries: _ } = self;
        let mut files: Vec<DexFileMetadata> = Vec::new();
        let mut dex_files = dex_files;
        let mut dex_paths = dex_paths;
        let ghost all = dex_files@;
        let ghost paths = dex_paths@;
        let n = dex_files.len();
        while dex_files.len() > 0
            invariant
                dex_files@.len() == dex_paths@.len(),
                dex_files@.len() + files@.len() == n,
                n == all.len(),
                paths.len() == n,
                dex_files@ == all.subrange(0, dex_files@.len() as int),
                dex_paths@ == paths.subrange(0, dex_paths@.len() as int),
                forall|i: int| 0 <= i < files@.len() ==> {
                    let k = n - files@.len() + i;
                    &&& (#[trigger] files@[i]).name == all[k].name
                    &&& files@[i].path == paths[k]
                    &&& files@[i].metadata == all[k].metadata
                },
            decreases dex_files@.len(),
        {
            let f = dex_files.pop().unwrap();
            let path = dex_paths.pop().unwrap();
            let ghost before = files@;
            files.insert(0, DexFileMetadata { name: f.name, path, metadata: f.metadata });
            proof {
                assert forall|i: int| 0 <= i < files@.len() implies {
                    let k = n - files@.len() + i;
                    &&& (#[trigger] files@[i]).name == all[k].name
                    &&& files@[i].path == paths[k]
                    &&& files@[i].metadata == all[k].metadata
                } by {
                    if i > 0 {
                        assert(files@[i] == before[i - 1]);
                    }
                }
            }
        }
        let first_path = files[0].path.clone();
        let first_dex = files[0].metadata.duplicate();
        let native = crate::text::copy_strings(&library_paths);
        InstalledApk {
            application: ApplicationInfo {
                package,
                launcher_activity,
                dex_path: Some(first_path),
                dex: Some(first_dex),
                native_libraries: native,
            },
            multidex: MultidexMetadata { files },
            native_library_paths: library_paths,
        }
    }
}

} // verus!
