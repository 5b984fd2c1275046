//! Reading the header and string table of a DEX file.

use vstd::prelude::*;
use crate::wire::{le32, read_u32};

verus! {

/// What a DEX file's header says, and its strings.
#[derive(Debug, Clone)]
pub struct DexMetadata {
    pub version: String,
    pub checksum: u32,
    pub file_size: u32,
    pub string_count: u32,
    pub class_count: u32,
    pub strings: Vec<String>,
}

/// A DEX file of an installed application: its name in the APK, where it was written, and its
/// metadata.
#[derive(Debug, Clone)]
pub struct DexFileMetadata {
    pub name: String,
    pub path: String,
    pub metadata: DexMetadata,
}

/// The DEX files of an application, primary first.
#[derive(Debug, Clone)]
pub struct MultidexMetadata {
    pub files: Vec<DexFileMetadata>,
}

#[derive(Debug, Clone, Copy, PartialEq, Eq, Structural)]
pub enum DexError {
    TooSmall,
    InvalidMagic,
    InvalidHeader,
    OutOfBounds,
    InvalidString,
}

/// Decodes UTF-8 through `std::str::from_utf8`. Claimed: the text exactly when the bytes are
/// valid UTF-8, as std documents.
#[verifier::external_body]
pub(crate) fn decode_utf8_strict(bytes: &[u8]) -> (r: Option<String>)
    ensures
        vstd::utf8::valid_utf8(bytes@) <==> r is Some,
        r matches Some(s) ==> s@ == vstd::utf8::decode_utf8(bytes@),
{
    match std::str::from_utf8(bytes) {
        Ok(s) => Some(s.to_owned()),
        Err(_) => None,
    }
}

/// The little-endian `u32` at `offset`, or out of bounds.
pub open spec fn spec_u32at(b: Seq<u8>, offset: int) -> Result<u32, DexError> {
    if offset + 4 > b.len() { Err(DexError::OutOfBounds) } else { Ok(le32(b, offset) as u32) }
}

fn u32at(bytes: &[u8], offset: usize) -> (r: Result<u32, DexError>)
    ensures
        r == spec_u32at(bytes@, offset as int),
{
    let n = bytes.len();
    if offset > usize::MAX - 4 || offset + 4 > n {
        return Err(DexError::OutOfBounds);
    }
    Ok(read_u32(bytes, offset))
}

/// Whether a table of `count` entries of `width` bytes at `offset` lies inside the file.
pub open spec fn table_fits(len: int, offset: u32, count: u32, width: int) -> bool {
    count * width <= usize::MAX && offset + count * width <= usize::MAX && offset + count * width <= len
}

fn checked_table(bytes: &[u8], offset: u32, count: u32, width: usize) -> (r: Result<(), DexError>)
    requires
        width <= 8,
    ensures
        r is Ok <==> table_fits(bytes@.len() as int, offset, count, width as int),
        r is Err ==> r == Err::<(), DexError>(DexError::OutOfBounds),
{
    let size = match (count as usize).checked_mul(width) {
        Some(s) => s,
        None => return Err(DexError::OutOfBounds),
    };
    let off = offset as usize;
    if off > usize::MAX - size || off + size > bytes.len() {
        return Err(DexError::OutOfBounds);
    }
    Ok(())
}

/// The length prefix of a string: ULEB128 groups of seven bits, at most five groups, the
/// value staying within 1 MiB between groups. Gives the length and where the data starts.
pub open spec fn uleb_len(b: Seq<u8>, cursor: int, length: int, shift: int) -> Result<(int, int), DexError>
    decreases 35 - shift,
{
    if cursor < 0 || cursor >= b.len() || shift < 0 || shift > 28 {
        Err(DexError::OutOfBounds)
    } else {
        let byte = b[cursor];
        let len2 = length + (byte % 128) * vstd::arithmetic::power2::pow2(shift as nat);
        if byte < 128 {
            Ok((len2, cursor + 1))
        } else if shift + 7 > 28 || len2 > 1_048_576 {
            Err(DexError::InvalidString)
        } else {
            uleb_len(b, cursor + 1, len2, shift + 7)
        }
    }
}

/// The string at `offset`: length prefix, then that many bytes, cut at the first NUL, as UTF-8.
pub open spec fn spec_dex_string(b: Seq<u8>, offset: int) -> Result<Seq<char>, DexError> {
    match uleb_len(b, offset, 0, 0) {
        Err(e) => Err(e),
        Ok((len, start)) => if start + len > b.len() || start + len > usize::MAX {
            Err(DexError::OutOfBounds)
        } else {
            let data = b.subrange(start, start + len);
            let text = data.subrange(0, first_nul(data, 0));
            if vstd::utf8::valid_utf8(text) { Ok(vstd::utf8::decode_utf8(text)) } else { Err(DexError::InvalidString) }
        },
    }
}

/// The index of the first NUL at or after `i`, or the length.
pub open spec fn first_nul(d: Seq<u8>, i: int) -> int
    decreases d.len() - i,
{
    if i < 0 || i >= d.len() { d.len() as int } else if d[i] == 0 { i } else { first_nul(d, i + 1) }
}

proof fn lemma_first_nul(d: Seq<u8>, i: int)
    requires
        0 <= i <= d.len(),
    ensures
        i <= first_nul(d, i) <= d.len(),
    decreases d.len() - i,
{
    if i < d.len() && d[i] != 0 {
        lemma_first_nul(d, i + 1);
    }
}

fn read_string(bytes: &[u8], offset: usize) -> (r: Result<String, DexError>)
    ensures
        match spec_dex_string(bytes@, offset as int) {
            Ok(s) => r matches Ok(t) && t@ == s,
            Err(e) => r == Err::<String, DexError>(e),
        },
{
    let n = bytes.len();
    let mut cursor = offset;
    let mut length: u64 = 0;
    let mut shift: u64 = 0;
    let mut factor: u64 = 1;
    proof {
        vstd::arithmetic::power2::lemma2_to64();
    }
    loop
        invariant_except_break
            shift <= 28,
            shift % 7 == 0,
            factor == vstd::arithmetic::power2::pow2(shift as nat),
            length <= 1_048_576,
            n == bytes@.len(),
            uleb_len(bytes@, offset as int, 0, 0) == uleb_len(bytes@, cursor as int, length as int, shift as int),
        ensures
            n == bytes@.len(),
            cursor <= n,
            uleb_len(bytes@, offset as int, 0, 0) == Ok::<(int, int), DexError>((length as int, cursor as int)),
        decreases 35 - shift,
    {
        if cursor >= n {
            return Err(DexError::OutOfBounds);
        }
        let byte = bytes[cursor];
        proof {
            assert(factor <= 0x1000_0000) by {
                vstd::arithmetic::power2::lemma2_to64();
                if shift < 28 {
                    vstd::arithmetic::power2::lemma_pow2_strictly_increases(shift as nat, 28);
                }
            }
            assert((byte % 128) as int * factor <= 127 * 0x1000_0000) by (nonlinear_arith)
                requires
                    factor <= 0x1000_0000,
            ;
        }
        cursor = cursor + 1;
        length = length + (byte % 128) as u64 * factor;
        if byte < 128 {
            break;
        }
        if shift + 7 > 28 || length > 1_048_576 {
            return Err(DexError::InvalidString);
        }
        proof {
            vstd::arithmetic::power2::lemma_pow2_adds(shift as nat, 7);
            vstd::arithmetic::power2::lemma2_to64();
            assert(factor * 128 == vstd::arithmetic::power2::pow2((shift + 7) as nat));
        }
        shift = shift + 7;
        factor = factor * 128;
    }
    if length > (usize::MAX - cursor) as u64 || cursor + length as usize > n {
        return Err(DexError::OutOfBounds);
    }
    let length = length as usize;
    let end = cursor + length;
    let data = &bytes[cursor..end];
    let mut nul: usize = 0;
    while nul < data.len() && data[nul] != 0
        invariant
            0 <= nul <= data@.len(),
            first_nul(data@, 0) == first_nul(data@, nul as int),
        decreases data@.len() - nul,
    {
        nul = nul + 1;
    }
    match decode_utf8_strict(&data[0..nul]) {
        Some(s) => Ok(s),
        None => Err(DexError::InvalidString),
    }
}

/// Reads a DEX file's header and string table.
pub struct DexReader;

/// The version characters of a DEX header: bytes 4..7 as UTF-8.
pub open spec fn header_ok(b: Seq<u8>) -> bool {
    &&& b.len() >= 112
    &&& b[0] == 0x64 && b[1] == 0x65 && b[2] == 0x78 && b[3] == 0x0a && b[7] == 0
}

/// The first failure among the strings `i..count` of a string table at `table`: an offset
/// out of the file, or a string that does not read.
pub open spec fn strings_error(b: Seq<u8>, table: int, count: int, i: int) -> Option<DexError>
    decreases count - i,
{
    if i < 0 || i >= count {
        None
    } else {
        match spec_u32at(b, table + 4 * i) {
            Err(e) => Some(e),
            Ok(o) => match spec_dex_string(b, o as int) {
                Err(e) => Some(e),
                Ok(_) => strings_error(b, table, count, i + 1),
            },
        }
    }
}

/// Why a DEX file is refused, checked in order: size, magic, version text, endianness tag,
/// header and file size, the string and class tables, the string count, then each string;
/// or nothing when it reads.
pub open spec fn dex_error(b: Seq<u8>) -> Option<DexError> {
    if b.len() < 112 {
        Some(DexError::TooSmall)
    } else if !header_ok(b) || !vstd::utf8::valid_utf8(b.subrange(4, 7)) {
        Some(DexError::InvalidMagic)
    } else if le32(b, 40) != 0x1234_5678 || le32(b, 36) != 112 || le32(b, 32) != b.len() {
        Some(DexError::InvalidHeader)
    } else if !table_fits(b.len() as int, le32(b, 60) as u32, le32(b, 56) as u32, 4)
        || !table_fits(b.len() as int, le32(b, 100) as u32, le32(b, 96) as u32, 4) {
        Some(DexError::OutOfBounds)
    } else if le32(b, 56) > 16_384 {
        Some(DexError::InvalidHeader)
    } else {
        strings_error(b, le32(b, 60), le32(b, 56), 0)
    }
}

/// Whether two DEX headers say the same.
pub open spec fn same_dex(a: DexMetadata, b: DexMetadata) -> bool {
    &&& a.version == b.version
    &&& a.checksum == b.checksum
    &&& a.file_size == b.file_size
    &&& a.string_count == b.string_count
    &&& a.class_count == b.class_count
    &&& a.strings@ == b.strings@
}

impl DexMetadata {
    /// A copy of this header.
    pub fn duplicate(&self) -> (r: DexMetadata)
        ensures
            same_dex(r, *self),
    {
        DexMetadata {
            version: self.version.clone(),
            checksum: self.checksum,
            file_size: self.file_size,
            string_count: self.string_count,
            class_count: self.class_count,
            strings: crate::text::copy_strings(&self.strings),
        }
    }
}

impl DexReader {
    /// Checks the header (size, magic, endianness, header size, file size) and the string and
    /// class tables, then reads every string.
    pub fn read(bytes: &[u8]) -> (r: Result<DexMetadata, DexError>)
        ensures
            r is Ok <==> dex_error(bytes@) is None,
            dex_error(bytes@) matches Some(e) ==> r == Err::<DexMetadata, DexError>(e),
            bytes@.len() < 112 ==> r == Err::<DexMetadata, DexError>(DexError::TooSmall),
            bytes@.len() >= 112 && !header_ok(bytes@) ==> r == Err::<DexMetadata, DexError>(DexError::InvalidMagic),
            r matches Ok(m) ==> {
                &&& header_ok(bytes@)
                &&& vstd::utf8::valid_utf8(bytes@.subrange(4, 7))
                &&& m.version@ == vstd::utf8::decode_utf8(bytes@.subrange(4, 7))
                &&& le32(bytes@, 40) == 0x1234_5678
                &&& le32(bytes@, 36) == 112
                &&& m.file_size == bytes@.len()
                &&& m.checksum == le32(bytes@, 8)
                &&& m.string_count == le32(bytes@, 56)
                &&& m.class_count == le32(bytes@, 96)
                &&& m.string_count <= 16_384
                &&& m.strings@.len() == m.string_count
                &&& forall|i: int| 0 <= i < m.strings@.len() ==>
                    spec_dex_string(bytes@, le32(bytes@, le32(bytes@, 60) + 4 * i)) == Ok::<Seq<char>, DexError>((#[trigger] m.strings@[i])@)
            },
    {
        if bytes.len() < 112 {
            return Err(DexError::TooSmall);
        }
        if !(bytes[0] == 0x64 && bytes[1] == 0x65 && bytes[2] == 0x78 && bytes[3] == 0x0a) || bytes[7] != 0 {
            return Err(DexError::InvalidMagic);
        }
        let version = match decode_utf8_strict(&bytes[4..7]) {
            Some(v) => v,
            None => return Err(DexError::InvalidMagic),
        };
        let endian = match u32at(bytes, 40) {
            Ok(v) => v,
            Err(e) => return Err(e),
        };
        if endian != 0x1234_5678 {
            return Err(DexError::InvalidHeader);
        }
        let file_size = match u32at(bytes, 32) {
            Ok(v) => v,
            Err(e) => return Err(e),
        };
        let header_size = match u32at(bytes, 36) {
            Ok(v) => v,
            Err(e) => return Err(e),
        };
        if header_size != 112 || file_size as usize != bytes.len() {
            return Err(DexError::InvalidHeader);
        }
        let string_count = match u32at(bytes, 56) {
            Ok(v) => v,
            Err(e) => return Err(e),
        };
        let string_offset = match u32at(bytes, 60) {
            Ok(v) => v,
            Err(e) => return Err(e),
        };
        let class_count = match u32at(bytes, 96) {
            Ok(v) => v,
            Err(e) => return Err(e),
        };
        match checked_table(bytes, string_offset, string_count, 4) {
            Ok(()) => {},
            Err(e) => return Err(e),
        }
        let class_offset = match u32at(bytes, 100) {
            Ok(v) => v,
            Err(e) => return Err(e),
        };
        match checked_table(bytes, class_offset, class_count, 4) {
            Ok(()) => {},
            Err(e) => return Err(e),
        }
        if string_count > 16_384 {
            return Err(DexError::InvalidHeader);
        }
        let checksum = match u32at(bytes, 8) {
            Ok(v) => v,
            Err(e) => return Err(e),
        };
        let mut strings: Vec<String> = Vec::new();
        let mut i: usize = 0;
        while i < string_count as usize
            invariant
                0 <= i <= string_count,
                bytes@.len() >= 112,
                header_ok(bytes@),
                vstd::utf8::valid_utf8(bytes@.subrange(4, 7)),
                version@ == vstd::utf8::decode_utf8(bytes@.subrange(4, 7)),
                le32(bytes@, 40) == 0x1234_5678,
                le32(bytes@, 36) == 112,
                file_size == bytes@.len(),
                checksum == le32(bytes@, 8),
                class_count == le32(bytes@, 96),
                string_count <= 16_384,
                string_count == le32(bytes@, 56),
                string_offset == le32(bytes@, 60),
                table_fits(bytes@.len() as int, string_offset, string_count, 4),
                strings@.len() == i,
                dex_error(bytes@) == strings_error(bytes@, string_offset as int, string_count as int, i as int),
                forall|j: int| 0 <= j < i ==>
                    spec_dex_string(bytes@, le32(bytes@, le32(bytes@, 60) + 4 * j)) == Ok::<Seq<char>, DexError>((#[trigger] strings@[j])@),
            decreases string_count - i,
        {
            let offset = match u32at(bytes, string_offset as usize + i * 4) {
                Ok(v) => v,
                Err(e) => return Err(e),
            };
            let s = match read_string(bytes, offset as usize) {
                Ok(s) => s,
                Err(e) => return Err(e),
            };
            strings.push(s);
            i = i + 1;
        }
        Ok(DexMetadata { version, checksum, file_size, string_count, class_count, strings })
    }
}

} // verus!
