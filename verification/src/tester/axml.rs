//! Decoding binary Android XML (AXML) manifests: the string pool, elements and attributes,
//! and what the reader needs of them (package, SDK levels, launcher activity).

use vstd::prelude::*;
use crate::dex::decode_utf8_strict;
use crate::wire::{le16, le32, read_u16, read_u32};
use crate::text::{chars_of, parse_u32, spec_parse_u32, str_eq};

verus! {

pub const XML_TYPE: u16 = 0x0003;
pub const STRING_POOL_TYPE: u16 = 0x0001;
pub const XML_START_NAMESPACE_TYPE: u16 = 0x0100;
pub const XML_END_NAMESPACE_TYPE: u16 = 0x0101;
pub const XML_START_ELEMENT_TYPE: u16 = 0x0102;
pub const XML_END_ELEMENT_TYPE: u16 = 0x0103;
pub const XML_CDATA_TYPE: u16 = 0x0104;
pub const XML_RESOURCE_MAP_TYPE: u16 = 0x0180;
pub const UTF8_FLAG: u32 = 0x100;
pub const TYPE_STRING: u8 = 0x03;
pub const TYPE_INT_DEC: u8 = 0x10;
pub const TYPE_INT_HEX: u8 = 0x11;
pub const NO_INDEX: u32 = 0xffff_ffff;
pub const MAX_XML_SIZE: usize = 0x100_0000;
pub const MAX_STRINGS: usize = 100_000;
pub const MAX_CHUNKS: usize = 100_000;
pub const MAX_ATTRIBUTES: usize = 4_096;
pub const MAX_DEPTH: usize = 256;

/// The characters of a sequence of UTF-16 code units: a unit outside 0xD800..=0xDFFF is that
/// character; a high surrogate (0xD800..=0xDBFF) followed by a low one (0xDC00..=0xDFFF) is
/// the character 0x10000 + (high - 0xD800) * 0x400 + (low - 0xDC00); None when a surrogate
/// is unpaired.
pub open spec fn utf16_decode(units: Seq<u16>) -> Option<Seq<char>>
    decreases units.len(),
{
    if units.len() == 0 {
        Some(Seq::empty())
    } else {
        let u = units[0];
        if u < 0xD800 || u > 0xDFFF {
            match utf16_decode(units.drop_first()) {
                Some(rest) => Some(seq![u as char] + rest),
                None => None,
            }
        } else if u <= 0xDBFF && units.len() >= 2 && 0xDC00 <= units[1] <= 0xDFFF {
            let c = 0x10000 + (u - 0xD800) * 0x400 + (units[1] - 0xDC00);
            match utf16_decode(units.subrange(2, units.len() as int)) {
                Some(rest) => Some(seq![c as char] + rest),
                None => None,
            }
        } else {
            None
        }
    }
}

/// Decodes UTF-16 code units through `String::from_utf16`. Claimed, as std documents it: the
/// text the units encode, and None when they hold an unpaired surrogate.
#[verifier::external_body]
fn decode_utf16(units: &[u16]) -> (r: Option<String>)
    ensures
        match utf16_decode(units@) {
            Some(c) => r matches Some(s) && s@ == c,
            None => r is None,
        },
{
    String::from_utf16(units).ok()
}

/// The little-endian `u16` at `p`, or the truncation error.
pub open spec fn spec_r16(d: Seq<u8>, p: int) -> Result<int, Seq<char>> {
    if 0 <= p && p + 2 <= d.len() { Ok(le16(d, p)) } else { Err("truncated binary manifest"@) }
}

/// The little-endian `u32` at `p`, or the truncation error.
pub open spec fn spec_r32(d: Seq<u8>, p: int) -> Result<int, Seq<char>> {
    if 0 <= p && p + 4 <= d.len() { Ok(le32(d, p)) } else { Err("truncated binary manifest"@) }
}

fn r16(d: &[u8], p: usize) -> (r: Result<u16, &'static str>)
    ensures
        match spec_r16(d@, p as int) {
            Ok(v) => r == Ok::<u16, &'static str>(v as u16),
            Err(m) => r matches Err(e) && e@ == m,
        },
{
    let n = d.len();
    if p > n || n - p < 2 {
        return Err("truncated binary manifest");
    }
    Ok(read_u16(d, p))
}

fn r32(d: &[u8], p: usize) -> (r: Result<u32, &'static str>)
    ensures
        match spec_r32(d@, p as int) {
            Ok(v) => r == Ok::<u32, &'static str>(v as u32),
            Err(m) => r matches Err(e) && e@ == m,
        },
{
    let n = d.len();
    if p > n || n - p < 4 {
        return Err("truncated binary manifest");
    }
    Ok(read_u32(d, p))
}

/// A string length of one or two bytes, and where the next field starts.
pub open spec fn spec_length8(d: Seq<u8>, pos: int, end: int) -> Result<(int, int), Seq<char>> {
    if !(pos < end && 0 <= pos < d.len()) {
        Err("bad string length"@)
    } else if d[pos] < 0x80 {
        Ok((d[pos] as int, pos + 1))
    } else if !(pos + 1 < end && pos + 1 < d.len()) {
        Err("bad string length"@)
    } else {
        Ok(((d[pos] - 0x80) * 256 + d[pos + 1], pos + 2))
    }
}

fn read_length8(d: &[u8], pos: usize, end: usize) -> (r: Result<(usize, usize), &'static str>)
    ensures
        match spec_length8(d@, pos as int, end as int) {
            Ok((v, next)) => r == Ok::<(usize, usize), &'static str>((v as usize, next as usize)),
            Err(m) => r matches Err(e) && e@ == m,
        },
{
    if !(pos < end && pos < d.len()) {
        return Err("bad string length");
    }
    let first = d[pos];
    if first < 0x80 {
        Ok((first as usize, pos + 1))
    } else {
        if !(pos + 1 < end && pos + 1 < d.len()) {
            return Err("bad string length");
        }
        let second = d[pos + 1];
        Ok((((first - 0x80) as usize) * 256 + second as usize, pos + 2))
    }
}

/// A string length of one or two units, and where the characters start.
pub open spec fn spec_length16(d: Seq<u8>, pos: int, end: int) -> Result<(int, int), Seq<char>> {
    if pos + 2 > end {
        Err("bad string length"@)
    } else {
        match spec_r16(d, pos) {
            Err(m) => Err(m),
            Ok(first) => if first < 0x8000 {
                Ok((first, pos + 2))
            } else if pos + 4 > end {
                Err("bad string length"@)
            } else {
                match spec_r16(d, pos + 2) {
                    Err(m) => Err(m),
                    Ok(second) => Ok(((first - 0x8000) * 0x10000 + second, pos + 4)),
                }
            },
        }
    }
}

fn read_length16(d: &[u8], pos: usize, end: usize) -> (r: Result<(usize, usize), &'static str>)
    requires
        end <= d@.len(),
    ensures
        match spec_length16(d@, pos as int, end as int) {
            Ok((v, next)) => r == Ok::<(usize, usize), &'static str>((v as usize, next as usize)) && next <= end,
            Err(m) => r matches Err(e) && e@ == m,
        },
{
    if pos > end || end - pos < 2 {
        return Err("bad string length");
    }
    let first = r16(d, pos)?;
    if first < 0x8000 {
        Ok((first as usize, pos + 2))
    } else {
        if end - pos < 4 {
            return Err("bad string length");
        }
        let second = r16(d, pos + 2)?;
        Ok((((first - 0x8000) as usize) * 0x10000 + second as usize, pos + 4))
    }
}

/// A UTF-8 string of the pool at `pos`: character count, byte count, bytes, NUL.
pub open spec fn spec_utf8_string(d: Seq<u8>, pos: int, end: int) -> Result<Seq<char>, Seq<char>> {
    match spec_length8(d, pos, end) {
        Err(m) => Err(m),
        Ok((_, n1)) => match spec_length8(d, n1, end) {
            Err(m) => Err(m),
            Ok((len, n2)) => {
                let string_end = n2 + len;
                if !(string_end < end) {
                    Err("bad UTF-8 string"@)
                } else if !(string_end < d.len() && d[string_end] == 0) {
                    Err("unterminated UTF-8 string"@)
                } else if vstd::utf8::valid_utf8(d.subrange(n2, string_end)) {
                    Ok(vstd::utf8::decode_utf8(d.subrange(n2, string_end)))
                } else {
                    Err("invalid UTF-8 string"@)
                }
            },
        },
    }
}

fn decode_utf8_string(d: &[u8], pos: usize, end: usize) -> (r: Result<String, &'static str>)
    requires
        end <= d@.len(),
    ensures
        match spec_utf8_string(d@, pos as int, end as int) {
            Ok(s) => r matches Ok(x) && x@ == s,
            Err(m) => r matches Err(e) && e@ == m,
        },
{
    let (_, next) = read_length8(d, pos, end)?;
    let (byte_length, next) = read_length8(d, next, end)?;
    if byte_length >= end || next >= end - byte_length {
        return Err("bad UTF-8 string");
    }
    let string_end = next + byte_length;
    if d[string_end] != 0 {
        return Err("unterminated UTF-8 string");
    }
    match decode_utf8_strict(&d[next..string_end]) {
        Some(s) => Ok(s),
        None => Err("invalid UTF-8 string"),
    }
}

/// The code units of a UTF-16 string: `count` little-endian units from `pos`.
pub open spec fn utf16_units(d: Seq<u8>, pos: int, count: int) -> Seq<u16> {
    Seq::new(count as nat, |k: int| le16(d, pos + 2 * k) as u16)
}

/// A UTF-16 string of the pool at `pos`: unit count, units, a zero unit.
pub open spec fn spec_utf16_string(d: Seq<u8>, pos: int, end: int) -> Result<Seq<char>, Seq<char>> {
    match spec_length16(d, pos, end) {
        Err(m) => Err(m),
        Ok((length, start)) => {
            let string_end = start + 2 * length;
            if !(string_end + 2 <= end) {
                Err("bad UTF-16 string"@)
            } else {
                match spec_r16(d, string_end) {
                    Err(m) => Err(m),
                    Ok(term) => if term != 0 {
                        Err("unterminated UTF-16 string"@)
                    } else {
                        match utf16_decode(utf16_units(d, start, length)) {
                            Some(c) => Ok(c),
                            None => Err("invalid UTF-16 string"@),
                        }
                    },
                }
            }
        },
    }
}

fn decode_utf16_string(d: &[u8], pos: usize, end: usize) -> (r: Result<String, &'static str>)
    requires
        end <= d@.len(),
    ensures
        match spec_utf16_string(d@, pos as int, end as int) {
            Ok(s) => r matches Ok(x) && x@ == s,
            Err(m) => r matches Err(e) && e@ == m,
        },
{
    let (length, start) = read_length16(d, pos, end)?;
    if length > (end - start) / 2 {
        return Err("bad UTF-16 string");
    }
    let string_end = start + 2 * length;
    if end - string_end < 2 {
        return Err("bad UTF-16 string");
    }
    let term = r16(d, string_end)?;
    if term != 0 {
        return Err("unterminated UTF-16 string");
    }
    let mut units: Vec<u16> = Vec::new();
    let mut k: usize = 0;
    while k < length
        invariant
            0 <= k <= length,
            start + 2 * length + 2 <= end <= d@.len(),
            units@ == utf16_units(d@, start as int, k as int),
        decreases length - k,
    {
        units.push(read_u16(d, start + 2 * k));
        k = k + 1;
        assert(units@ =~= utf16_units(d@, start as int, k as int));
    }
    match decode_utf16(units.as_slice()) {
        Some(s) => Ok(s),
        None => Err("invalid UTF-16 string"),
    }
}


/// The view of decoded pool strings.
pub open spec fn strings_view(v: Seq<String>) -> Seq<Seq<char>> {
    v.map_values(|s: String| s@)
}

/// The pool string `index`: its offset, then its characters in the pool's encoding.
pub open spec fn spec_pool_string(c: Seq<u8>, start: int, end: int, utf8: bool, index: int) -> Result<Seq<char>, Seq<char>> {
    let position = start + le32(c, 28 + 4 * index);
    if !(position < end) {
        Err("bad string offset"@)
    } else if utf8 {
        spec_utf8_string(c, position, end)
    } else {
        spec_utf16_string(c, position, end)
    }
}

/// The first `k` pool strings, or the first error.
pub open spec fn spec_pool_strings(c: Seq<u8>, start: int, end: int, utf8: bool, k: int) -> Result<Seq<Seq<char>>, Seq<char>>
    decreases k,
{
    if k <= 0 {
        Ok(Seq::empty())
    } else {
        match spec_pool_strings(c, start, end, utf8, k - 1) {
            Err(m) => Err(m),
            Ok(prev) => match spec_pool_string(c, start, end, utf8, k - 1) {
                Err(m) => Err(m),
                Ok(s) => Ok(prev.push(s)),
            },
        }
    }
}

/// A string pool chunk: its header, bounds, offsets and strings.
pub open spec fn spec_string_pool(c: Seq<u8>, header_size: int) -> Result<Seq<Seq<char>>, Seq<char>> {
    if header_size != 28 || c.len() < header_size {
        Err("bad string pool header"@)
    } else {
        let count = le32(c, 8);
        let styles_count = le32(c, 12);
        let flags = le32(c, 16) as u32;
        let start = le32(c, 20);
        let styles = le32(c, 24);
        if count > MAX_STRINGS || start < header_size || start > c.len()
            || (styles != 0 && (styles < start || styles > c.len())) {
            Err("bad string pool bounds"@)
        } else if header_size + (count + styles_count) * 4 > start {
            Err("bad string pool offsets"@)
        } else {
            let end = if styles == 0 { c.len() as int } else { styles };
            spec_pool_strings(c, start, end, flags & UTF8_FLAG != 0, count)
        }
    }
}

fn pool_string(c: &[u8], start: usize, end: usize, utf8: bool, index: usize) -> (r: Result<String, &'static str>)
    requires
        28 + index * 4 + 4 <= start <= end <= c@.len(),
    ensures
        match spec_pool_string(c@, start as int, end as int, utf8, index as int) {
            Ok(s) => r matches Ok(x) && x@ == s,
            Err(m) => r matches Err(e) && e@ == m,
        },
{
    let relative = read_u32(c, 28 + index * 4) as usize;
    if relative >= end - start {
        return Err("bad string offset");
    }
    let position = start + relative;
    if utf8 {
        decode_utf8_string(c, position, end)
    } else {
        decode_utf16_string(c, position, end)
    }
}

fn decode_string_pool(c: &[u8], header_size: usize) -> (r: Result<Vec<String>, &'static str>)
    ensures
        match spec_string_pool(c@, header_size as int) {
            Ok(v) => r matches Ok(x) && strings_view(x@) == v,
            Err(m) => r matches Err(e) && e@ == m,
        },
{
    let n = c.len();
    if header_size != 28 || n < header_size {
        return Err("bad string pool header");
    }
    let count = read_u32(c, 8) as usize;
    let styles_count = read_u32(c, 12) as u64;
    let flags = read_u32(c, 16);
    let start = read_u32(c, 20) as usize;
    let styles = read_u32(c, 24) as usize;
    if count > MAX_STRINGS || start < header_size || start > n
        || (styles != 0 && (styles < start || styles > n)) {
        return Err("bad string pool bounds");
    }
    let offsets: u64 = (count as u64 + styles_count) * 4;
    if offsets > (start - header_size) as u64 {
        return Err("bad string pool offsets");
    }
    let end = if styles == 0 { n } else { styles };
    let utf8 = flags & UTF8_FLAG != 0;
    let mut out: Vec<String> = Vec::new();
    assert(strings_view(out@) =~= Seq::<Seq<char>>::empty());
    let mut index: usize = 0;
    while index < count
        invariant
            0 <= index <= count,
            n == c@.len(),
            header_size == 28,
            28 + count * 4 <= start <= end <= n,
            spec_string_pool(c@, header_size as int) == spec_pool_strings(c@, start as int, end as int, utf8, count as int),
            spec_pool_strings(c@, start as int, end as int, utf8, index as int) == Ok::<Seq<Seq<char>>, Seq<char>>(strings_view(out@)),
        decreases count - index,
    {
        let v = pool_string(c, start, end, utf8, index);
        match v {
            Ok(s) => {
                let ghost before = out@;
                out.push(s);
                proof {
                    assert(strings_view(out@) =~= strings_view(before).push(out@.last()@));
                }
            },
            Err(e) => {
                proof { lemma_pool_error_persists(c@, start as int, end as int, utf8, index as int + 1, count as int); }
                return Err(e);
            },
        }
        index = index + 1;
    }
    Ok(out)
}

/// An error among the first `k` pool strings is the error of the first `count`.
pub proof fn lemma_pool_error_persists(c: Seq<u8>, start: int, end: int, utf8: bool, k: int, count: int)
    requires
        0 <= k <= count,
        spec_pool_strings(c, start, end, utf8, k) is Err,
    ensures
        spec_pool_strings(c, start, end, utf8, count) == spec_pool_strings(c, start, end, utf8, k),
    decreases count - k,
{
    if k < count {
        lemma_pool_error_persists(c, start, end, utf8, k, count - 1);
    }
}


/// The pool string `i`.
pub open spec fn spec_get(p: Seq<Seq<char>>, i: u32) -> Result<Seq<char>, Seq<char>> {
    if i < p.len() { Ok(p[i as int]) } else { Err("bad string index"@) }
}

/// The pool string `i`, or none for the no-index marker.
pub open spec fn spec_optional(p: Seq<Seq<char>>, i: u32) -> Result<Option<Seq<char>>, Seq<char>> {
    if i == NO_INDEX {
        Ok(None)
    } else {
        match spec_get(p, i) {
            Ok(s) => Ok(Some(s)),
            Err(m) => Err(m),
        }
    }
}

fn pool_get(pool: &Vec<String>, i: u32) -> (r: Result<usize, &'static str>)
    ensures
        match spec_get(strings_view(pool@), i) {
            Ok(s) => r matches Ok(k) && k == i && k < pool@.len() && pool@[k as int]@ == s,
            Err(m) => r matches Err(e) && e@ == m,
        },
{
    if (i as usize) < pool.len() {
        Ok(i as usize)
    } else {
        Err("bad string index")
    }
}

fn pool_optional(pool: &Vec<String>, i: u32) -> (r: Result<Option<usize>, &'static str>)
    ensures
        match spec_optional(strings_view(pool@), i) {
            Ok(None) => r == Ok::<Option<usize>, &'static str>(None),
            Ok(Some(s)) => r matches Ok(Some(k)) && k < pool@.len() && pool@[k as int]@ == s,
            Err(m) => r matches Err(e) && e@ == m,
        },
{
    if i == NO_INDEX {
        Ok(None)
    } else {
        let k = pool_get(pool, i)?;
        Ok(Some(k))
    }
}

/// An attribute record of a start element.
#[derive(Debug, Clone, Copy, PartialEq, Eq, Structural)]
pub struct Attribute {
    pub namespace: u32,
    pub name: u32,
    pub raw_value: u32,
    pub value_type: u8,
    pub value_data: u32,
}

/// The attribute record at `q`, checked against the pool.
pub open spec fn spec_attribute_at(d: Seq<u8>, q: int, p: Seq<Seq<char>>) -> Result<Attribute, Seq<char>> {
    if le16(d, q + 12) != 8 || d[q + 14] != 0 {
        Err("bad typed value"@)
    } else {
        let a = Attribute {
            namespace: le32(d, q) as u32,
            name: le32(d, q + 4) as u32,
            raw_value: le32(d, q + 8) as u32,
            value_type: d[q + 15],
            value_data: le32(d, q + 16) as u32,
        };
        match spec_optional(p, a.namespace) {
            Err(m) => Err(m),
            Ok(_) => match spec_get(p, a.name) {
                Err(m) => Err(m),
                Ok(_) => match spec_optional(p, a.raw_value) {
                    Err(m) => Err(m),
                    Ok(_) => if a.value_type == TYPE_STRING {
                        match spec_get(p, a.value_data) {
                            Err(m) => Err(m),
                            Ok(_) => Ok(a),
                        }
                    } else {
                        Ok(a)
                    },
                },
            },
        }
    }
}

fn attribute_at(d: &[u8], q: usize, pool: &Vec<String>) -> (r: Result<Attribute, &'static str>)
    requires
        q + 20 <= d@.len(),
    ensures
        match spec_attribute_at(d@, q as int, strings_view(pool@)) {
            Ok(a) => r == Ok::<Attribute, &'static str>(a),
            Err(m) => r matches Err(e) && e@ == m,
        },
{
    let n = d.len();
    if read_u16(d, q + 12) != 8 || d[q + 14] != 0 {
        return Err("bad typed value");
    }
    let a = Attribute {
        namespace: read_u32(d, q),
        name: read_u32(d, q + 4),
        raw_value: read_u32(d, q + 8),
        value_type: d[q + 15],
        value_data: read_u32(d, q + 16),
    };
    pool_optional(pool, a.namespace)?;
    pool_get(pool, a.name)?;
    pool_optional(pool, a.raw_value)?;
    if a.value_type == TYPE_STRING {
        pool_get(pool, a.value_data)?;
    }
    Ok(a)
}

/// The first `k` attribute records from `start`, each `size` bytes apart.
pub open spec fn spec_attributes(d: Seq<u8>, start: int, size: int, p: Seq<Seq<char>>, k: int) -> Result<Seq<Attribute>, Seq<char>>
    decreases k,
{
    if k <= 0 {
        Ok(Seq::empty())
    } else {
        match spec_attributes(d, start, size, p, k - 1) {
            Err(m) => Err(m),
            Ok(prev) => match spec_attribute_at(d, start + (k - 1) * size, p) {
                Err(m) => Err(m),
                Ok(a) => Ok(prev.push(a)),
            },
        }
    }
}

/// An error among the first `k` records is the error of the first `count`.
pub proof fn lemma_attributes_error_persists(d: Seq<u8>, start: int, size: int, p: Seq<Seq<char>>, k: int, count: int)
    requires
        0 <= k <= count,
        spec_attributes(d, start, size, p, k) is Err,
    ensures
        spec_attributes(d, start, size, p, count) == spec_attributes(d, start, size, p, k),
    decreases count - k,
{
    if k < count {
        lemma_attributes_error_persists(d, start, size, p, k, count - 1);
    }
}

fn read_attributes(d: &[u8], start: usize, size: usize, count: usize, pool: &Vec<String>) -> (r: Result<Vec<Attribute>, &'static str>)
    requires
        size >= 20,
        start + count * size <= d@.len(),
    ensures
        match spec_attributes(d@, start as int, size as int, strings_view(pool@), count as int) {
            Ok(v) => r matches Ok(x) && x@ == v,
            Err(m) => r matches Err(e) && e@ == m,
        },
{
    let n = d.len();
    let mut out: Vec<Attribute> = Vec::new();
    let mut index: usize = 0;
    while index < count
        invariant
            0 <= index <= count,
            size >= 20,
            n == d@.len(),
            start + count * size <= n,
            spec_attributes(d@, start as int, size as int, strings_view(pool@), index as int) == Ok::<Seq<Attribute>, Seq<char>>(out@),
        decreases count - index,
    {
        proof {
            assert(index * size + size <= count * size) by (nonlinear_arith)
                requires index < count;
        }
        let q = start + index * size;
        match attribute_at(d, q, pool) {
            Ok(a) => { out.push(a); },
            Err(e) => {
                proof { lemma_attributes_error_persists(d@, start as int, size as int, strings_view(pool@), index as int + 1, count as int); }
                return Err(e);
            },
        }
        index = index + 1;
    }
    Ok(out)
}

/// The first attribute from `k` on with the given name and namespace.
pub open spec fn spec_find_attribute(p: Seq<Seq<char>>, attrs: Seq<Attribute>, ns: Option<Seq<char>>, name: Seq<char>, k: int) -> Result<Option<int>, Seq<char>>
    decreases attrs.len() - k,
{
    if k >= attrs.len() || k < 0 {
        Ok(None)
    } else {
        match spec_get(p, attrs[k].name) {
            Err(m) => Err(m),
            Ok(nm) => if nm != name {
                spec_find_attribute(p, attrs, ns, name, k + 1)
            } else {
                match spec_optional(p, attrs[k].namespace) {
                    Err(m) => Err(m),
                    Ok(actual) => if actual == ns {
                        Ok(Some(k))
                    } else {
                        spec_find_attribute(p, attrs, ns, name, k + 1)
                    },
                }
            },
        }
    }
}

fn find_attribute(pool: &Vec<String>, attrs: &Vec<Attribute>, ns: Option<&str>, name: &str) -> (r: Result<Option<usize>, &'static str>)
    ensures
        match spec_find_attribute(strings_view(pool@), attrs@, ns_view(ns), name@, 0) {
            Ok(None) => r == Ok::<Option<usize>, &'static str>(None),
            Ok(Some(i)) => r matches Ok(Some(j)) && j as int == i && j < attrs@.len(),
            Err(m) => r matches Err(e) && e@ == m,
        },
{
    let mut k: usize = 0;
    while k < attrs.len()
        invariant
            0 <= k <= attrs@.len(),
            spec_find_attribute(strings_view(pool@), attrs@, ns_view(ns), name@, 0)
                == spec_find_attribute(strings_view(pool@), attrs@, ns_view(ns), name@, k as int),
        decreases attrs@.len() - k,
    {
        let a = attrs[k];
        let ni = pool_get(pool, a.name)?;
        if str_eq(pool[ni].as_str(), name) {
            let actual = pool_optional(pool, a.namespace)?;
            let same = match (actual, ns) {
                (None, None) => true,
                (Some(i), Some(x)) => str_eq(pool[i].as_str(), x),
                _ => false,
            };
            if same {
                return Ok(Some(k));
            }
        }
        k = k + 1;
    }
    Ok(None)
}

/// The view of an optional text.
pub open spec fn ns_view(ns: Option<&str>) -> Option<Seq<char>> {
    match ns {
        Some(s) => Some(s@),
        None => None,
    }
}

/// A string-valued attribute: its raw value, else its typed string value.
pub open spec fn spec_string_attribute(p: Seq<Seq<char>>, attrs: Seq<Attribute>, ns: Option<Seq<char>>, name: Seq<char>) -> Result<Option<Seq<char>>, Seq<char>> {
    match spec_find_attribute(p, attrs, ns, name, 0) {
        Err(m) => Err(m),
        Ok(None) => Ok(None),
        Ok(Some(i)) => match spec_optional(p, attrs[i].raw_value) {
            Err(m) => Err(m),
            Ok(Some(raw)) => Ok(Some(raw)),
            Ok(None) => if attrs[i].value_type == TYPE_STRING {
                match spec_get(p, attrs[i].value_data) {
                    Err(m) => Err(m),
                    Ok(v) => Ok(Some(v)),
                }
            } else {
                Err("attribute is not a string"@)
            },
        },
    }
}

fn string_attribute(pool: &Vec<String>, attrs: &Vec<Attribute>, ns: Option<&str>, name: &str) -> (r: Result<Option<String>, &'static str>)
    ensures
        match spec_string_attribute(strings_view(pool@), attrs@, ns_view(ns), name@) {
            Ok(None) => r matches Ok(None),
            Ok(Some(v)) => r matches Ok(Some(x)) && x@ == v,
            Err(m) => r matches Err(e) && e@ == m,
        },
{
    let i = match find_attribute(pool, attrs, ns, name)? {
        None => return Ok(None),
        Some(i) => i,
    };
    let a = attrs[i];
    if let Some(k) = pool_optional(pool, a.raw_value)? {
        return Ok(Some(pool[k].clone()));
    }
    if a.value_type == TYPE_STRING {
        let k = pool_get(pool, a.value_data)?;
        return Ok(Some(pool[k].clone()));
    }
    Err("attribute is not a string")
}

/// An SDK level attribute in the Android namespace: a typed integer, else a decimal string.
pub open spec fn spec_integer_attribute(p: Seq<Seq<char>>, attrs: Seq<Attribute>, name: Seq<char>) -> Result<Option<u32>, Seq<char>> {
    match spec_find_attribute(p, attrs, Some(android_ns()), name, 0) {
        Err(m) => Err(m),
        Ok(None) => Ok(None),
        Ok(Some(i)) => if attrs[i].value_type == TYPE_INT_DEC || attrs[i].value_type == TYPE_INT_HEX {
            Ok(Some(attrs[i].value_data))
        } else {
            let text: Result<Seq<char>, Seq<char>> = match spec_optional(p, attrs[i].raw_value) {
                Err(m) => Err(m),
                Ok(Some(raw)) => Ok(raw),
                Ok(None) => if attrs[i].value_type == TYPE_STRING {
                    spec_get(p, attrs[i].value_data)
                } else {
                    Err("SDK attribute is not an integer"@)
                },
            };
            match text {
                Err(m) => Err(m),
                Ok(t) => match spec_parse_u32(t) {
                    Some(v) => Ok(Some(v)),
                    None => Err("bad SDK value"@),
                },
            }
        },
    }
}

/// The Android resource namespace.
pub open spec fn android_ns() -> Seq<char> {
    "http://schemas.android.com/apk/res/android"@
}

fn integer_attribute(pool: &Vec<String>, attrs: &Vec<Attribute>, name: &str) -> (r: Result<Option<u32>, &'static str>)
    ensures
        match spec_integer_attribute(strings_view(pool@), attrs@, name@) {
            Ok(v) => r == Ok::<Option<u32>, &'static str>(v),
            Err(m) => r matches Err(e) && e@ == m,
        },
{
    let i = match find_attribute(pool, attrs, Some("http://schemas.android.com/apk/res/android"), name)? {
        None => return Ok(None),
        Some(i) => i,
    };
    let a = attrs[i];
    if a.value_type == TYPE_INT_DEC || a.value_type == TYPE_INT_HEX {
        return Ok(Some(a.value_data));
    }
    let k = match pool_optional(pool, a.raw_value)? {
        Some(k) => k,
        None => if a.value_type == TYPE_STRING {
            pool_get(pool, a.value_data)?
        } else {
            return Err("SDK attribute is not an integer");
        },
    };
    let t = chars_of(pool[k].as_str());
    match parse_u32(t.as_slice()) {
        Some(v) => Ok(Some(v)),
        None => Err("bad SDK value"),
    }
}


/// What an open element is, as far as the reader cares.
#[derive(Debug)]
pub enum FrameKind {
    Other,
    Activity(Option<String>),
    IntentFilter { component: Option<String>, main: bool, launcher: bool },
}

/// An open element: its name's pool index and kind.
#[derive(Debug)]
pub struct Frame {
    pub name: u32,
    pub kind: FrameKind,
}

/// The model of a frame's kind: texts as characters.
pub enum KindModel {
    Other,
    Activity(Option<Seq<char>>),
    IntentFilter(Option<Seq<char>>, bool, bool),
}

/// The model of a frame.
pub struct FrameModel {
    pub name: u32,
    pub kind: KindModel,
}

/// The view of an optional text.
pub open spec fn opt_view(o: Option<String>) -> Option<Seq<char>> {
    match o {
        Some(s) => Some(s@),
        None => None,
    }
}

impl View for Frame {
    type V = FrameModel;

    open spec fn view(&self) -> FrameModel {
        FrameModel {
            name: self.name,
            kind: match self.kind {
                FrameKind::Other => KindModel::Other,
                FrameKind::Activity(c) => KindModel::Activity(opt_view(c)),
                FrameKind::IntentFilter { component, main, launcher } => KindModel::IntentFilter(opt_view(component), main, launcher),
            },
        }
    }
}

/// The frames as models.
pub open spec fn frames_view(v: Seq<Frame>) -> Seq<FrameModel> {
    v.map_values(|f: Frame| f@)
}

/// What a binary manifest declares.
#[derive(Debug)]
pub struct DecodedManifest {
    pub package: Option<String>,
    pub launcher_activity: Option<String>,
    pub min_sdk: Option<u32>,
    pub target_sdk: Option<u32>,
}

/// The model of a decoded manifest.
pub struct ManifestModel {
    pub package: Option<Seq<char>>,
    pub launcher: Option<Seq<char>>,
    pub min_sdk: Option<u32>,
    pub target_sdk: Option<u32>,
}

impl View for DecodedManifest {
    type V = ManifestModel;

    open spec fn view(&self) -> ManifestModel {
        ManifestModel {
            package: opt_view(self.package),
            launcher: opt_view(self.launcher_activity),
            min_sdk: self.min_sdk,
            target_sdk: self.target_sdk,
        }
    }
}

/// The component of the innermost activity that has one.
pub open spec fn spec_current_component(fs: Seq<FrameModel>) -> Option<Seq<char>>
    decreases fs.len(),
{
    if fs.len() == 0 {
        None
    } else {
        match fs.last().kind {
            KindModel::Activity(Some(c)) => Some(c),
            _ => spec_current_component(fs.drop_last()),
        }
    }
}

fn current_component(frames: &Vec<Frame>) -> (r: Option<String>)
    ensures
        opt_view(r) == spec_current_component(frames_view(frames@)),
{
    let mut k = frames.len();
    assert(frames@.subrange(0, k as int) =~= frames@);
    while k > 0
        invariant
            k <= frames@.len(),
            spec_current_component(frames_view(frames@)) == spec_current_component(frames_view(frames@.subrange(0, k as int))),
        decreases k,
    {
        let ghost fs = frames_view(frames@.subrange(0, k as int));
        assert(fs.drop_last() =~= frames_view(frames@.subrange(0, k - 1)));
        assert(fs.last() == frames@[k - 1]@);
        match &frames[k - 1].kind {
            FrameKind::Activity(Some(c)) => {
                return Some(c.clone());
            },
            _ => {},
        }
        k = k - 1;
    }
    None
}

/// Marks the innermost element, which must be an intent filter, as holding the main action
/// (`main`) or the launcher category.
pub open spec fn spec_mark(fs: Seq<FrameModel>, main: bool) -> Result<Seq<FrameModel>, Seq<char>> {
    if fs.len() == 0 {
        Err("action outside intent-filter"@)
    } else {
        match fs.last().kind {
            KindModel::IntentFilter(c, m, l) => Ok(fs.update(fs.len() - 1, FrameModel {
                name: fs.last().name,
                kind: if main { KindModel::IntentFilter(c, true, l) } else { KindModel::IntentFilter(c, m, true) },
            })),
            _ => Err("action outside intent-filter"@),
        }
    }
}

fn mark_intent_filter(frames: Vec<Frame>, main: bool) -> (r: Result<Vec<Frame>, &'static str>)
    ensures
        match spec_mark(frames_view(frames@), main) {
            Ok(fs) => r matches Ok(v) && frames_view(v@) == fs,
            Err(m) => r matches Err(e) && e@ == m,
        },
{
    let mut frames = frames;
    let ghost before = frames@;
    let last = match frames.pop() {
        Some(f) => f,
        None => return Err("action outside intent-filter"),
    };
    assert(frames_view(before).last() == last@);
    match last.kind {
        FrameKind::IntentFilter { component, main: m, launcher } => {
            let kind = if main {
                FrameKind::IntentFilter { component, main: true, launcher }
            } else {
                FrameKind::IntentFilter { component, main: m, launcher: true }
            };
            frames.push(Frame { name: last.name, kind });
            assert(frames_view(frames@) =~= frames_view(before).update(before.len() - 1, frames@.last()@));
            Ok(frames)
        },
        _ => Err("action outside intent-filter"),
    }
}

/// What a start element does to the decoded manifest and the open intent filter.
pub open spec fn spec_element_effect(p: Seq<Seq<char>>, attrs: Seq<Attribute>, name: Seq<char>, fs: Seq<FrameModel>, res: ManifestModel) -> Result<(Seq<FrameModel>, ManifestModel), Seq<char>> {
    if name == "manifest"@ && fs.len() == 0 {
        match spec_string_attribute(p, attrs, None, "package"@) {
            Err(m) => Err(m),
            Ok(v) => Ok((fs, ManifestModel { package: v, launcher: res.launcher, min_sdk: res.min_sdk, target_sdk: res.target_sdk })),
        }
    } else if name == "uses-sdk"@ {
        match spec_integer_attribute(p, attrs, "minSdkVersion"@) {
            Err(m) => Err(m),
            Ok(mn) => match spec_integer_attribute(p, attrs, "targetSdkVersion"@) {
                Err(m) => Err(m),
                Ok(tg) => Ok((fs, ManifestModel { package: res.package, launcher: res.launcher, min_sdk: mn, target_sdk: tg })),
            },
        }
    } else if name == "action"@ || name == "category"@ {
        let wanted = if name == "action"@ { "android.intent.action.MAIN"@ } else { "android.intent.category.LAUNCHER"@ };
        match spec_string_attribute(p, attrs, Some(android_ns()), "name"@) {
            Err(m) => Err(m),
            Ok(v) => if v == Some(wanted) {
                match spec_mark(fs, name == "action"@) {
                    Err(m) => Err(m),
                    Ok(fs2) => Ok((fs2, res)),
                }
            } else {
                Ok((fs, res))
            },
        }
    } else {
        Ok((fs, res))
    }
}

/// The kind of frame a start element opens.
pub open spec fn spec_element_kind(p: Seq<Seq<char>>, attrs: Seq<Attribute>, name: Seq<char>, fs: Seq<FrameModel>) -> Result<KindModel, Seq<char>> {
    if name == "activity"@ || name == "activity-alias"@ {
        match spec_string_attribute(p, attrs, Some(android_ns()), "name"@) {
            Err(m) => Err(m),
            Ok(v) => Ok(KindModel::Activity(v)),
        }
    } else if name == "intent-filter"@ {
        Ok(KindModel::IntentFilter(spec_current_component(fs), false, false))
    } else {
        Ok(KindModel::Other)
    }
}

/// A start element chunk at `offset`, ending at `end`: header, name, attributes, then its
/// effect and the frame it opens.
pub open spec fn spec_start_element(d: Seq<u8>, offset: int, end: int, header_size: int, p: Seq<Seq<char>>, fs: Seq<FrameModel>, res: ManifestModel) -> Result<(Seq<FrameModel>, ManifestModel), Seq<char>> {
    if header_size != 16 || end - offset < 36 || fs.len() >= MAX_DEPTH {
        Err("bad start element chunk"@)
    } else {
        match spec_optional(p, le32(d, offset + 16) as u32) {
            Err(m) => Err(m),
            Ok(_) => {
                let name_index = le32(d, offset + 20) as u32;
                match spec_get(p, name_index) {
                    Err(m) => Err(m),
                    Ok(name) => {
                        let a_start = le16(d, offset + 24);
                        let a_size = le16(d, offset + 26);
                        let a_count = le16(d, offset + 28);
                        if a_start < 20 || a_size < 20 || a_count > MAX_ATTRIBUTES
                            || offset + header_size + a_start + a_size * a_count > end {
                            Err("bad element attributes"@)
                        } else {
                            match spec_attributes(d, offset + header_size + a_start, a_size, p, a_count) {
                                Err(m) => Err(m),
                                Ok(attrs) => match spec_element_effect(p, attrs, name, fs, res) {
                                    Err(m) => Err(m),
                                    Ok((fs2, res2)) => match spec_element_kind(p, attrs, name, fs2) {
                                        Err(m) => Err(m),
                                        Ok(kind) => Ok((fs2.push(FrameModel { name: name_index, kind }), res2)),
                                    },
                                },
                            }
                        }
                    },
                }
            },
        }
    }
}


fn element_effect(pool: &Vec<String>, attrs: &Vec<Attribute>, name: &str, frames: Vec<Frame>, result: DecodedManifest)
    -> (r: Result<(Vec<Frame>, DecodedManifest), &'static str>)
    ensures
        match spec_element_effect(strings_view(pool@), attrs@, name@, frames_view(frames@), result@) {
            Ok((fs, res)) => r matches Ok((v, m)) && frames_view(v@) == fs && m@ == res,
            Err(e) => r matches Err(x) && x@ == e,
        },
{
    let mut result = result;
    if str_eq(name, "manifest") && frames.len() == 0 {
        let v = string_attribute(pool, attrs, None, "package")?;
        result.package = v;
        return Ok((frames, result));
    }
    if str_eq(name, "uses-sdk") {
        let mn = integer_attribute(pool, attrs, "minSdkVersion")?;
        let tg = integer_attribute(pool, attrs, "targetSdkVersion")?;
        result.min_sdk = mn;
        result.target_sdk = tg;
        return Ok((frames, result));
    }
    let is_action = str_eq(name, "action");
    if is_action || str_eq(name, "category") {
        let v = string_attribute(pool, attrs, Some("http://schemas.android.com/apk/res/android"), "name")?;
        let wanted = if is_action { "android.intent.action.MAIN" } else { "android.intent.category.LAUNCHER" };
        let hit = match &v {
            Some(x) => str_eq(x.as_str(), wanted),
            None => false,
        };
        if hit {
            let fs = mark_intent_filter(frames, is_action)?;
            return Ok((fs, result));
        }
        return Ok((frames, result));
    }
    Ok((frames, result))
}

fn element_kind(pool: &Vec<String>, attrs: &Vec<Attribute>, name: &str, frames: &Vec<Frame>) -> (r: Result<FrameKind, &'static str>)
    ensures
        match spec_element_kind(strings_view(pool@), attrs@, name@, frames_view(frames@)) {
            Ok(k) => r matches Ok(x) && (Frame { name: 0, kind: x })@.kind == k,
            Err(e) => r matches Err(x) && x@ == e,
        },
{
    if str_eq(name, "activity") || str_eq(name, "activity-alias") {
        let v = string_attribute(pool, attrs, Some("http://schemas.android.com/apk/res/android"), "name")?;
        return Ok(FrameKind::Activity(v));
    }
    if str_eq(name, "intent-filter") {
        return Ok(FrameKind::IntentFilter { component: current_component(frames), main: false, launcher: false });
    }
    Ok(FrameKind::Other)
}

/// Reads a start element chunk and applies it.
pub fn parse_start_element(d: &[u8], offset: usize, end: usize, header_size: usize, pool: &Vec<String>,
    frames: Vec<Frame>, result: DecodedManifest) -> (r: Result<(Vec<Frame>, DecodedManifest), &'static str>)
    requires
        offset <= end <= d@.len(),
    ensures
        match spec_start_element(d@, offset as int, end as int, header_size as int, strings_view(pool@), frames_view(frames@), result@) {
            Ok((fs, res)) => r matches Ok((v, m)) && frames_view(v@) == fs && m@ == res,
            Err(e) => r matches Err(x) && x@ == e,
        },
{
    if header_size != 16 || end - offset < 36 || frames.len() >= MAX_DEPTH {
        return Err("bad start element chunk");
    }
    pool_optional(pool, read_u32(d, offset + 16))?;
    let name_index = read_u32(d, offset + 20);
    let ni = pool_get(pool, name_index)?;
    let a_start = read_u16(d, offset + 24) as usize;
    let a_size = read_u16(d, offset + 26) as usize;
    let a_count = read_u16(d, offset + 28) as usize;
    if a_start < 20 || a_size < 20 || a_count > MAX_ATTRIBUTES {
        return Err("bad element attributes");
    }
    let rel = header_size + a_start;
    assert(a_size * a_count <= 65535 * 4096) by (nonlinear_arith)
        requires a_size <= 65535, a_count <= 4096;
    if rel > end - offset || a_size * a_count > end - offset - rel {
        return Err("bad element attributes");
    }
    let attrs = read_attributes(d, offset + rel, a_size, a_count, pool)?;
    let name = pool[ni].as_str();
    let (frames, result) = element_effect(pool, &attrs, name, frames, result)?;
    let kind = element_kind(pool, &attrs, name, &frames)?;
    let mut frames = frames;
    let ghost before = frames@;
    frames.push(Frame { name: name_index, kind });
    proof {
        assert(frames_view(frames@) =~= frames_view(before).push(frames@.last()@));
    }
    Ok((frames, result))
}


/// The decoder's state between chunks: the string pool once read, the open elements and
/// what was decoded so far.
pub struct AxmlState {
    pub pool: Option<Seq<Seq<char>>>,
    pub frames: Seq<FrameModel>,
    pub res: ManifestModel,
}

/// The view of an optional pool.
pub open spec fn pool_view(p: Option<Vec<String>>) -> Option<Seq<Seq<char>>> {
    match p {
        Some(v) => Some(strings_view(v@)),
        None => None,
    }
}

/// An end element chunk: it closes the innermost element, which must have the same name; a
/// closed intent filter with both the main action and the launcher category names the launcher
/// activity, unless one was named before.
pub open spec fn spec_end_element(d: Seq<u8>, offset: int, chunk_size: int, header_size: int, st: AxmlState) -> Result<AxmlState, Seq<char>> {
    if header_size != 16 || chunk_size < 24 {
        Err("bad end element chunk"@)
    } else {
        match st.pool {
            None => Err("missing string pool"@),
            Some(p) => match spec_optional(p, le32(d, offset + 16) as u32) {
                Err(m) => Err(m),
                Ok(_) => {
                    let name = le32(d, offset + 20) as u32;
                    match spec_get(p, name) {
                        Err(m) => Err(m),
                        Ok(_) => if st.frames.len() == 0 {
                            Err("unbalanced XML element"@)
                        } else if st.frames.last().name != name {
                            Err("mismatched XML element"@)
                        } else {
                            let res2 = match st.frames.last().kind {
                                KindModel::IntentFilter(c, true, true) => if st.res.launcher is None {
                                    ManifestModel { package: st.res.package, launcher: c, min_sdk: st.res.min_sdk, target_sdk: st.res.target_sdk }
                                } else {
                                    st.res
                                },
                                _ => st.res,
                            };
                            Ok(AxmlState { pool: st.pool, frames: st.frames.drop_last(), res: res2 })
                        },
                    }
                },
            },
        }
    }
}

/// One chunk of the document, of the given type and sizes, ending at `end`.
pub open spec fn spec_chunk(d: Seq<u8>, offset: int, end: int, chunk_type: int, header_size: int, chunk_size: int, st: AxmlState) -> Result<AxmlState, Seq<char>> {
    if chunk_type == STRING_POOL_TYPE {
        if st.pool is Some || st.frames.len() > 0 {
            Err("misplaced string pool"@)
        } else {
            match spec_string_pool(d.subrange(offset, end), header_size) {
                Err(m) => Err(m),
                Ok(p) => Ok(AxmlState { pool: Some(p), frames: st.frames, res: st.res }),
            }
        }
    } else if chunk_type == XML_START_NAMESPACE_TYPE || chunk_type == XML_END_NAMESPACE_TYPE {
        if header_size != 16 || chunk_size < 24 || st.pool is None {
            Err("bad namespace chunk"@)
        } else {
            match spec_optional(st.pool->0, le32(d, offset + 16) as u32) {
                Err(m) => Err(m),
                Ok(_) => match spec_get(st.pool->0, le32(d, offset + 20) as u32) {
                    Err(m) => Err(m),
                    Ok(_) => Ok(st),
                },
            }
        }
    } else if chunk_type == XML_START_ELEMENT_TYPE {
        match st.pool {
            None => Err("missing string pool"@),
            Some(p) => match spec_start_element(d, offset, end, header_size, p, st.frames, st.res) {
                Err(m) => Err(m),
                Ok((fs, res)) => Ok(AxmlState { pool: st.pool, frames: fs, res }),
            },
        }
    } else if chunk_type == XML_END_ELEMENT_TYPE {
        spec_end_element(d, offset, chunk_size, header_size, st)
    } else if chunk_type == XML_RESOURCE_MAP_TYPE {
        if header_size != 8 || (chunk_size - header_size) % 4 != 0 || st.pool is None {
            Err("bad resource map chunk"@)
        } else {
            Ok(st)
        }
    } else if chunk_type == XML_CDATA_TYPE {
        if header_size != 16 || chunk_size < 28 || st.pool is None {
            Err("bad CDATA chunk"@)
        } else {
            Ok(st)
        }
    } else {
        Err("unsupported XML chunk"@)
    }
}

/// The chunks from `offset` on, the `chunks`-th and later, decoded from state `st`.
pub open spec fn spec_walk(d: Seq<u8>, offset: int, chunks: int, st: AxmlState) -> Result<ManifestModel, Seq<char>>
    decreases d.len() - offset,
{
    if offset >= d.len() {
        if st.pool is None || st.frames.len() > 0 {
            Err("incomplete binary manifest"@)
        } else {
            Ok(st.res)
        }
    } else if chunks + 1 > MAX_CHUNKS {
        Err("too many XML chunks"@)
    } else {
        match spec_r16(d, offset) {
            Err(m) => Err(m),
            Ok(chunk_type) => match spec_r16(d, offset + 2) {
                Err(m) => Err(m),
                Ok(header_size) => match spec_r32(d, offset + 4) {
                    Err(m) => Err(m),
                    Ok(chunk_size) => if offset + chunk_size > d.len() {
                        Err("bad XML chunk size"@)
                    } else if header_size < 8 || header_size > chunk_size {
                        Err("bad XML chunk header"@)
                    } else {
                        match spec_chunk(d, offset, offset + chunk_size, chunk_type, header_size, chunk_size, st) {
                            Err(m) => Err(m),
                            Ok(st2) => spec_walk(d, offset + chunk_size, chunks + 1, st2),
                        }
                    },
                },
            },
        }
    }
}

/// The empty starting state.
pub open spec fn initial_state() -> AxmlState {
    AxmlState { pool: None, frames: Seq::empty(), res: ManifestModel { package: None, launcher: None, min_sdk: None, target_sdk: None } }
}

/// A binary manifest: its size, root header, then its chunks.
pub open spec fn spec_decode_manifest(d: Seq<u8>) -> Result<ManifestModel, Seq<char>> {
    if d.len() < 8 || d.len() > MAX_XML_SIZE {
        Err("bad binary manifest size"@)
    } else if le16(d, 0) != XML_TYPE || le16(d, 2) != 8 || le32(d, 4) != d.len() {
        Err("bad binary manifest header"@)
    } else {
        spec_walk(d, 8, 0, initial_state())
    }
}

fn end_element(d: &[u8], offset: usize, chunk_size: usize, header_size: usize, pool: &Option<Vec<String>>,
    frames: Vec<Frame>, result: DecodedManifest) -> (r: Result<(Vec<Frame>, DecodedManifest), &'static str>)
    requires
        offset + chunk_size <= d@.len(),
    ensures
        match spec_end_element(d@, offset as int, chunk_size as int, header_size as int,
            AxmlState { pool: pool_view(*pool), frames: frames_view(frames@), res: result@ }) {
            Ok(st) => r matches Ok((v, m)) && frames_view(v@) == st.frames && m@ == st.res,
            Err(e) => r matches Err(x) && x@ == e,
        },
{
    let n = d.len();
    if header_size != 16 || chunk_size < 24 {
        return Err("bad end element chunk");
    }
    let strings = match pool {
        Some(p) => p,
        None => return Err("missing string pool"),
    };
    pool_optional(strings, read_u32(d, offset + 16))?;
    let name = read_u32(d, offset + 20);
    pool_get(strings, name)?;
    let mut frames = frames;
    let ghost before = frames@;
    let frame = match frames.pop() {
        Some(f) => f,
        None => return Err("unbalanced XML element"),
    };
    assert(frames_view(before).last() == frame@);
    assert(frames_view(before).drop_last() =~= frames_view(frames@));
    if frame.name != name {
        return Err("mismatched XML element");
    }
    let mut result = result;
    match frame.kind {
        FrameKind::IntentFilter { component, main, launcher } => {
            if main && launcher && result.launcher_activity.is_none() {
                result.launcher_activity = component;
            }
        },
        _ => {},
    }
    Ok((frames, result))
}


fn chunk_step(d: &[u8], offset: usize, end: usize, chunk_type: u16, header_size: usize, chunk_size: usize,
    pool: Option<Vec<String>>, frames: Vec<Frame>, result: DecodedManifest)
    -> (r: Result<(Option<Vec<String>>, Vec<Frame>, DecodedManifest), &'static str>)
    requires
        end == offset + chunk_size,
        end <= d@.len(),
        header_size <= chunk_size,
    ensures
        match spec_chunk(d@, offset as int, end as int, chunk_type as int, header_size as int, chunk_size as int,
            AxmlState { pool: pool_view(pool), frames: frames_view(frames@), res: result@ }) {
            Ok(st) => r matches Ok((p, f, m)) && pool_view(p) == st.pool && frames_view(f@) == st.frames && m@ == st.res,
            Err(e) => r matches Err(x) && x@ == e,
        },
{
    let n = d.len();
    if chunk_type == STRING_POOL_TYPE {
        if pool.is_some() || frames.len() > 0 {
            return Err("misplaced string pool");
        }
        let strings = decode_string_pool(&d[offset..end], header_size)?;
        return Ok((Some(strings), frames, result));
    }
    if chunk_type == XML_START_NAMESPACE_TYPE || chunk_type == XML_END_NAMESPACE_TYPE {
        if header_size != 16 || chunk_size < 24 || pool.is_none() {
            return Err("bad namespace chunk");
        }
        match &pool {
            Some(p) => {
                pool_optional(p, read_u32(d, offset + 16))?;
                pool_get(p, read_u32(d, offset + 20))?;
            },
            None => {},
        }
        return Ok((pool, frames, result));
    }
    if chunk_type == XML_START_ELEMENT_TYPE {
        let (f, m) = match &pool {
            Some(p) => parse_start_element(d, offset, end, header_size, p, frames, result)?,
            None => return Err("missing string pool"),
        };
        return Ok((pool, f, m));
    }
    if chunk_type == XML_END_ELEMENT_TYPE {
        let (f, m) = end_element(d, offset, chunk_size, header_size, &pool, frames, result)?;
        return Ok((pool, f, m));
    }
    if chunk_type == XML_RESOURCE_MAP_TYPE {
        if header_size != 8 || (chunk_size - header_size) % 4 != 0 || pool.is_none() {
            return Err("bad resource map chunk");
        }
        return Ok((pool, frames, result));
    }
    if chunk_type == XML_CDATA_TYPE {
        if header_size != 16 || chunk_size < 28 || pool.is_none() {
            return Err("bad CDATA chunk");
        }
        return Ok((pool, frames, result));
    }
    Err("unsupported XML chunk")
}

/// Decodes a binary manifest.
pub fn decode_manifest(d: &[u8]) -> (r: Result<DecodedManifest, &'static str>)
    ensures
        match spec_decode_manifest(d@) {
            Ok(m) => r matches Ok(x) && x@ == m,
            Err(e) => r matches Err(x) && x@ == e,
        },
{
    let n = d.len();
    if n < 8 || n > MAX_XML_SIZE {
        return Err("bad binary manifest size");
    }
    if read_u16(d, 0) != XML_TYPE || read_u16(d, 2) != 8 || read_u32(d, 4) as usize != n {
        return Err("bad binary manifest header");
    }
    let mut offset: usize = 8;
    let mut chunks: usize = 0;
    let mut pool: Option<Vec<String>> = None;
    let mut frames: Vec<Frame> = Vec::new();
    let mut result = DecodedManifest { package: None, launcher_activity: None, min_sdk: None, target_sdk: None };
    assert(frames_view(frames@) =~= Seq::<FrameModel>::empty());
    while offset < n
        invariant
            n == d@.len(),
            chunks <= MAX_CHUNKS,
            spec_decode_manifest(d@) == spec_walk(d@, offset as int, chunks as int,
                AxmlState { pool: pool_view(pool), frames: frames_view(frames@), res: result@ }),
        decreases n - offset,
    {
        if chunks + 1 > MAX_CHUNKS {
            return Err("too many XML chunks");
        }
        chunks = chunks + 1;
        let chunk_type = r16(d, offset)?;
        let header_size = r16(d, offset + 2)? as usize;
        let chunk_size = r32(d, offset + 4)? as usize;
        if chunk_size > n - offset {
            return Err("bad XML chunk size");
        }
        if header_size < 8 || header_size > chunk_size {
            return Err("bad XML chunk header");
        }
        let end = offset + chunk_size;
        let (p, f, m) = chunk_step(d, offset, end, chunk_type, header_size, chunk_size, pool, frames, result)?;
        pool = p;
        frames = f;
        result = m;
        offset = end;
    }
    if pool.is_none() || frames.len() > 0 {
        return Err("incomplete binary manifest");
    }
    Ok(result)
}

} // verus!
