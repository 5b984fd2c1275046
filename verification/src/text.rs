//! Text helpers: byte and character sequences, lossy UTF-8 decoding, decimal numbers, lines
//! and fields.

use vstd::prelude::*;
use vstd::string::StrSliceExecFns;

verus! {

/// What `String::from_utf8_lossy` makes of `bytes`: their characters, with each invalid
/// sequence replaced by U+FFFD.
pub uninterp spec fn utf8_lossy(bytes: Seq<u8>) -> Seq<char>;

/// Decodes `bytes` as UTF-8, replacing invalid sequences with U+FFFD, through
/// `String::from_utf8_lossy`. Claimed: the result is `utf8_lossy(bytes)`, and it is the plain
/// decoding when the bytes are valid UTF-8 (std documents that valid input is returned as is).
#[verifier::external_body]
pub fn decode_lossy(bytes: &[u8]) -> (s: String)
    ensures
        s@ == utf8_lossy(bytes@),
        vstd::utf8::valid_utf8(bytes@) ==> s@ == vstd::utf8::decode_utf8(bytes@),
{
    String::from_utf8_lossy(bytes).into_owned()
}

/// Collects characters into a `String` through `String::from_iter`. Claimed: the string holds
/// exactly those characters.
#[verifier::external_body]
pub fn string_from_chars(chars: &[char]) -> (s: String)
    ensures
        s@ == chars@,
{
    String::from_iter(chars.iter())
}

/// The characters of `s`.
pub fn chars_of(s: &str) -> (r: Vec<char>)
    ensures
        r@ == s@,
{
    let n = s.unicode_len();
    let mut out: Vec<char> = Vec::new();
    let mut i: usize = 0;
    while i < n
        invariant
            0 <= i <= n,
            n == s@.len(),
            out@ == s@.subrange(0, i as int),
        decreases n - i,
    {
        out.push(s.get_char(i));
        i = i + 1;
        assert(out@ =~= s@.subrange(0, i as int));
    }
    assert(out@ =~= s@);
    out
}

/// Whether two character sequences are equal.
pub fn chars_eq(a: &[char], b: &[char]) -> (r: bool)
    ensures
        r == (a@ == b@),
{
    if a.len() != b.len() {
        return false;
    }
    let mut i: usize = 0;
    while i < a.len()
        invariant
            0 <= i <= a@.len(),
            a@.len() == b@.len(),
            forall|j: int| 0 <= j < i ==> a@[j] == b@[j],
        decreases a@.len() - i,
    {
        if a[i] != b[i] {
            return false;
        }
        i = i + 1;
    }
    assert(a@ =~= b@);
    true
}

/// Whether two strings are equal.
pub fn str_eq(a: &str, b: &str) -> (r: bool)
    ensures
        r == (a@ == b@),
{
    let x = chars_of(a);
    let y = chars_of(b);
    chars_eq(x.as_slice(), y.as_slice())
}

/// Whether `p` occurs in `s` at `i`.
pub open spec fn occurs_at(s: Seq<char>, p: Seq<char>, i: int) -> bool {
    0 <= i && i + p.len() <= s.len() && s.subrange(i, i + p.len()) == p
}

pub fn matches_at(s: &[char], p: &[char], i: usize) -> (r: bool)
    ensures
        r == occurs_at(s@, p@, i as int),
{
    let slen = s.len();
    if i > slen || p.len() > slen - i {
        return false;
    }
    let mut k: usize = 0;
    while k < p.len()
        invariant
            0 <= k <= p@.len(),
            slen == s@.len(),
            i + p@.len() <= s@.len(),
            forall|j: int| 0 <= j < k ==> s@[i + j] == p@[j],
        decreases p@.len() - k,
    {
        if s[i + k] != p[k] {
            assert(s@.subrange(i as int, i + p@.len())[k as int] != p@[k as int]);
            return false;
        }
        k = k + 1;
    }
    assert(s@.subrange(i as int, i + p@.len()) =~= p@);
    true
}

/// Whether `s` starts with `p`.
pub open spec fn has_prefix(s: Seq<char>, p: Seq<char>) -> bool {
    occurs_at(s, p, 0)
}

/// Whether `s` ends with `p`.
pub open spec fn has_suffix(s: Seq<char>, p: Seq<char>) -> bool {
    p.len() <= s.len() && occurs_at(s, p, s.len() - p.len())
}

pub fn starts_with(s: &[char], p: &[char]) -> (r: bool)
    ensures
        r == has_prefix(s@, p@),
{
    matches_at(s, p, 0)
}

pub fn ends_with(s: &[char], p: &[char]) -> (r: bool)
    ensures
        r == has_suffix(s@, p@),
{
    if p.len() > s.len() {
        return false;
    }
    matches_at(s, p, s.len() - p.len())
}

/// The first position at or after `from` where `p` occurs in `s`.
pub open spec fn first_occurrence(s: Seq<char>, p: Seq<char>, from: int) -> Option<int>
    decreases s.len() + 1 - from,
{
    if from < 0 || from + p.len() > s.len() {
        None
    } else if occurs_at(s, p, from) {
        Some(from)
    } else {
        first_occurrence(s, p, from + 1)
    }
}

/// Searches `s` for `p`, from `from` onwards.
pub fn find_from(s: &[char], p: &[char], from: usize) -> (r: Option<usize>)
    ensures
        r == (match first_occurrence(s@, p@, from as int) {
            Some(i) => Some(i as usize),
            None => None::<usize>,
        }),
{
    if p.len() > s.len() {
        return None;
    }
    if p.len() == 0 {
        if from <= s.len() {
            assert(occurs_at(s@, p@, from as int)) by {
                assert(s@.subrange(from as int, from as int) =~= p@);
            }
            return Some(from);
        }
        return None;
    }
    let slen = s.len();
    let last = slen - p.len();
    let mut i = from;
    while i <= last
        invariant
            from <= i,
            p@.len() >= 1,
            last < s@.len(),
            slen == s@.len(),
            last == s@.len() - p@.len(),
            first_occurrence(s@, p@, from as int) == first_occurrence(s@, p@, i as int),
        decreases last + 1 - i,
    {
        if matches_at(s, p, i) {
            return Some(i);
        }
        i = i + 1;
    }
    None
}

/// The number of occurrences of `c` in `s`.
pub open spec fn count_char(s: Seq<char>, c: char) -> int
    decreases s.len(),
{
    if s.len() == 0 { 0 } else { count_char(s.drop_last(), c) + if s.last() == c { 1int } else { 0 } }
}

pub fn count_of(s: &[char], c: char) -> (r: usize)
    ensures
        r == count_char(s@, c),
{
    let mut n: usize = 0;
    let mut i: usize = 0;
    while i < s.len()
        invariant
            0 <= i <= s@.len(),
            n == count_char(s@.subrange(0, i as int), c),
            n <= i,
        decreases s@.len() - i,
    {
        assert(s@.subrange(0, i + 1).drop_last() =~= s@.subrange(0, i as int));
        if s[i] == c {
            n = n + 1;
        }
        i = i + 1;
    }
    assert(s@.subrange(0, s@.len() as int) =~= s@);
    n
}

/// Whether `c` is an ASCII decimal digit.
pub open spec fn is_digit(c: char) -> bool {
    '0' <= c && c <= '9'
}

/// The value of the decimal digits `s`.
pub open spec fn digits_value(s: Seq<char>) -> int
    decreases s.len(),
{
    if s.len() == 0 { 0 } else { digits_value(s.drop_last()) * 10 + (s.last() as int - '0' as int) }
}

/// The digits after an optional leading `+`.
pub open spec fn unsigned_part(s: Seq<char>) -> Seq<char> {
    if s.len() > 0 && s[0] == '+' { s.drop_first() } else { s }
}

pub open spec fn all_digits(d: Seq<char>) -> bool {
    forall|i: int| 0 <= i < d.len() ==> is_digit(#[trigger] d[i])
}

/// What `str::parse::<u32>` gives: an optional `+`, then at least one digit and nothing else,
/// with a value that fits.
pub open spec fn spec_parse_u32(s: Seq<char>) -> Option<u32> {
    let d = unsigned_part(s);
    if d.len() > 0 && all_digits(d) && digits_value(d) <= u32::MAX {
        Some(digits_value(d) as u32)
    } else {
        None
    }
}

proof fn lemma_digits_value_nonneg(s: Seq<char>)
    requires
        forall|i: int| 0 <= i < s.len() ==> is_digit(#[trigger] s[i]),
    ensures
        digits_value(s) >= 0,
    decreases s.len(),
{
    if s.len() > 0 {
        lemma_digits_value_nonneg(s.drop_last());
    }
}

proof fn lemma_digits_value_mono(s: Seq<char>, k: int)
    requires
        0 <= k <= s.len(),
        forall|i: int| 0 <= i < s.len() ==> is_digit(#[trigger] s[i]),
    ensures
        digits_value(s.subrange(0, k)) <= digits_value(s),
    decreases s.len() - k,
{
    if k < s.len() {
        lemma_digits_value_mono(s, k + 1);
        assert(s.subrange(0, k + 1).drop_last() =~= s.subrange(0, k));
        lemma_digits_value_nonneg(s.subrange(0, k));
    } else {
        assert(s.subrange(0, k) =~= s);
    }
}

/// Parses an unsigned 32-bit decimal number as `str::parse::<u32>` does.
pub fn parse_u32(s: &[char]) -> (r: Option<u32>)
    ensures
        r == spec_parse_u32(s@),
{
    let start: usize = if s.len() > 0 && s[0] == '+' { 1 } else { 0 };
    let ghost d = unsigned_part(s@);
    assert(d =~= s@.subrange(start as int, s@.len() as int));
    if start >= s.len() {
        return None;
    }
    let mut v: u64 = 0;
    let mut i = start;
    while i < s.len()
        invariant
            start <= i <= s@.len(),
            d == s@.subrange(start as int, s@.len() as int),
            d == unsigned_part(s@),
            forall|j: int| 0 <= j < i - start ==> is_digit(#[trigger] d[j]),
            v == digits_value(d.subrange(0, i - start)),
            v <= u32::MAX,
        decreases s@.len() - i,
    {
        let c = s[i];
        assert(d[i - start] == c);
        if !('0' <= c && c <= '9') {
            assert(!is_digit(d[i - start]));
            assert(!all_digits(d));
            return None;
        }
        let digit = (c as u32 - '0' as u32) as u64;
        assert(d.subrange(0, i + 1 - start).drop_last() =~= d.subrange(0, i - start));
        v = v * 10 + digit;
        assert(d.subrange(0, i + 1 - start).last() == c);
        assert(v == digits_value(d.subrange(0, i + 1 - start)));
        if v > 0xffff_ffff {
            proof {
                assert forall|j: int| 0 <= j < i + 1 - start implies is_digit(#[trigger] d.subrange(0, i + 1 - start)[j]) by {}
                if all_digits(d) {
                    lemma_digits_value_mono(d, i + 1 - start);
                }
            }
            return None;
        }
        i = i + 1;
    }
    assert(d.subrange(0, d.len() as int) =~= d);
    Some(v as u32)
}

/// The fields of `s` between separators `sep`.
pub open spec fn split_fields(s: Seq<char>, sep: char) -> Seq<Seq<char>>
    decreases s.len(),
{
    if s.len() == 0 {
        seq![Seq::empty()]
    } else {
        let rest = split_fields(s.drop_last(), sep);
        if s.last() == sep {
            rest.push(Seq::empty())
        } else {
            rest.update(rest.len() - 1, rest.last().push(s.last()))
        }
    }
}

proof fn lemma_split_nonempty(s: Seq<char>, sep: char)
    ensures
        split_fields(s, sep).len() >= 1,
    decreases s.len(),
{
    if s.len() > 0 {
        lemma_split_nonempty(s.drop_last(), sep);
    }
}

/// Splits `s` at every `sep`, as `str::split` with a character does.
pub fn split_chars(s: &[char], sep: char) -> (r: Vec<Vec<char>>)
    ensures
        r@.len() == split_fields(s@, sep).len(),
        forall|i: int| 0 <= i < r@.len() ==> #[trigger] r@[i]@ == split_fields(s@, sep)[i],
{
    let mut out: Vec<Vec<char>> = Vec::new();
    let mut cur: Vec<char> = Vec::new();
    let mut i: usize = 0;
    while i < s.len()
        invariant
            0 <= i <= s@.len(),
            out@.len() + 1 == split_fields(s@.subrange(0, i as int), sep).len(),
            forall|j: int| 0 <= j < out@.len() ==> #[trigger] out@[j]@ == split_fields(s@.subrange(0, i as int), sep)[j],
            cur@ == split_fields(s@.subrange(0, i as int), sep).last(),
        decreases s@.len() - i,
    {
        proof {
            lemma_split_nonempty(s@.subrange(0, i as int), sep);
            assert(s@.subrange(0, i + 1).drop_last() =~= s@.subrange(0, i as int));
        }
        if s[i] == sep {
            let done = cur;
            out.push(done);
            cur = Vec::new();
        } else {
            cur.push(s[i]);
        }
        i = i + 1;
    }
    proof {
        lemma_split_nonempty(s@, sep);
        assert(s@.subrange(0, s@.len() as int) =~= s@);
    }
    out.push(cur);
    proof {
        let sp = split_fields(s@, sep);
        assert forall|i: int| 0 <= i < out@.len() implies #[trigger] out@[i]@ == sp[i] by {}
    }
    out
}

/// A line without the `\r` of a `\r\n` ending.
pub open spec fn strip_cr(l: Seq<char>) -> Seq<char> {
    if l.len() > 0 && l.last() == '\r' { l.drop_last() } else { l }
}

/// The lines of `s` as `str::lines` gives them: split at `\n`, each terminated line without
/// a trailing `\r`, and no empty line after a final `\n`.
pub open spec fn spec_lines(s: Seq<char>) -> Seq<Seq<char>> {
    let f = split_fields(s, '\n');
    let n = f.len() as int;
    Seq::new((if f[n - 1].len() == 0 { n - 1 } else { n }) as nat, |i: int| if i < n - 1 { strip_cr(f[i]) } else { f[i] })
}

/// Splits text into lines as `str::lines` does.
pub fn lines(s: &[char]) -> (r: Vec<Vec<char>>)
    ensures
        r@.len() == spec_lines(s@).len(),
        forall|i: int| 0 <= i < r@.len() ==> #[trigger] r@[i]@ == spec_lines(s@)[i],
{
    let fields = split_chars(s, '\n');
    proof {
        lemma_split_nonempty(s@, '\n');
    }
    let n = fields.len();
    let keep = if fields[n - 1].len() == 0 { n - 1 } else { n };
    let mut out: Vec<Vec<char>> = Vec::new();
    let mut i: usize = 0;
    while i < keep
        invariant
            0 <= i <= keep,
            keep <= n,
            n == fields@.len(),
            n == split_fields(s@, '\n').len(),
            keep == spec_lines(s@).len(),
            forall|j: int| 0 <= j < n ==> #[trigger] fields@[j]@ == split_fields(s@, '\n')[j],
            out@.len() == i,
            forall|j: int| 0 <= j < i ==> #[trigger] out@[j]@ == spec_lines(s@)[j],
        decreases keep - i,
    {
        let f = &fields[i];
        let mut line: Vec<char> = Vec::new();
        let len = f.len();
        let cut = if i + 1 < n && len > 0 && f[len - 1] == '\r' { len - 1 } else { len };
        let mut k: usize = 0;
        while k < cut
            invariant
                0 <= k <= cut,
                cut <= f@.len(),
                line@ == f@.subrange(0, k as int),
            decreases cut - k,
        {
            line.push(f[k]);
            k = k + 1;
            assert(line@ =~= f@.subrange(0, k as int));
        }
        proof {
            assert(f@.subrange(0, f@.len() as int) =~= f@);
            assert(f@.drop_last() =~= f@.subrange(0, f@.len() - 1));
            assert(line@ == spec_lines(s@)[i as int]);
        }
        out.push(line);
        i = i + 1;
    }
    out
}

/// What `str::parse::<u64>` gives.
pub open spec fn spec_parse_u64(s: Seq<char>) -> Option<u64> {
    let d = unsigned_part(s);
    if d.len() > 0 && all_digits(d) && digits_value(d) <= u64::MAX {
        Some(digits_value(d) as u64)
    } else {
        None
    }
}

/// Parses an unsigned 64-bit decimal number as `str::parse::<u64>` does.
pub fn parse_u64(s: &[char]) -> (r: Option<u64>)
    ensures
        r == spec_parse_u64(s@),
{
    let start: usize = if s.len() > 0 && s[0] == '+' { 1 } else { 0 };
    let ghost d = unsigned_part(s@);
    assert(d =~= s@.subrange(start as int, s@.len() as int));
    if start >= s.len() {
        return None;
    }
    let mut v: u128 = 0;
    let mut i = start;
    while i < s.len()
        invariant
            start <= i <= s@.len(),
            d == s@.subrange(start as int, s@.len() as int),
            d == unsigned_part(s@),
            forall|j: int| 0 <= j < i - start ==> is_digit(#[trigger] d[j]),
            v == digits_value(d.subrange(0, i - start)),
            v <= u64::MAX,
        decreases s@.len() - i,
    {
        let c = s[i];
        assert(d[i - start] == c);
        if !('0' <= c && c <= '9') {
            assert(!is_digit(d[i - start]));
            assert(!all_digits(d));
            return None;
        }
        let digit = (c as u32 - '0' as u32) as u128;
        assert(d.subrange(0, i + 1 - start).drop_last() =~= d.subrange(0, i - start));
        v = v * 10 + digit;
        assert(d.subrange(0, i + 1 - start).last() == c);
        assert(v == digits_value(d.subrange(0, i + 1 - start)));
        if v > 0xffff_ffff_ffff_ffff {
            proof {
                assert forall|j: int| 0 <= j < i + 1 - start implies is_digit(#[trigger] d.subrange(0, i + 1 - start)[j]) by {}
                if all_digits(d) {
                    lemma_digits_value_mono(d, i + 1 - start);
                }
            }
            return None;
        }
        i = i + 1;
    }
    assert(d.subrange(0, d.len() as int) =~= d);
    Some(v as u64)
}

/// Whether `p` occurs anywhere in `s`.
pub open spec fn contains_seq(s: Seq<char>, p: Seq<char>) -> bool {
    first_occurrence(s, p, 0) is Some
}

} // verus!

verus! {

/// The decimal digit character for `d`.
pub open spec fn digit_char(d: int) -> char {
    (d + '0' as int) as char
}

/// The decimal representation of `n`, without leading zeros.
pub open spec fn spec_decimal(n: nat) -> Seq<char>
    decreases n,
{
    if n < 10 {
        seq![digit_char(n as int)]
    } else {
        spec_decimal(n / 10).push(digit_char((n % 10) as int))
    }
}

pub fn push_decimal(n: u64, out: &mut Vec<char>)
    ensures
        final(out)@ == old(out)@ + spec_decimal(n as nat),
    decreases n,
{
    if n >= 10 {
        push_decimal(n / 10, out);
    }
    let d = (n % 10) as u8;
    let c = (48u8 + d) as char;
    out.push(c);
    proof {
        assert(c == digit_char((n % 10) as int));
        if n >= 10 {
            assert(old(out)@ + spec_decimal(n as nat) =~= old(out)@ + spec_decimal((n / 10) as nat) + seq![c]);
        } else {
            assert(old(out)@ + spec_decimal(n as nat) =~= old(out)@ + seq![c]);
        }
    }
}

/// `n` written in decimal.
pub fn decimal(n: u64) -> (s: String)
    ensures
        s@ == spec_decimal(n as nat),
{
    let mut v: Vec<char> = Vec::new();
    push_decimal(n, &mut v);
    assert(v@ =~= spec_decimal(n as nat));
    string_from_chars(v.as_slice())
}

} // verus!

verus! {

/// The last position below `k` where `p` occurs in `s`.
pub open spec fn last_occurrence(s: Seq<char>, p: Seq<char>, k: int) -> Option<int>
    decreases k,
{
    if k <= 0 {
        None
    } else if occurs_at(s, p, k - 1) {
        Some(k - 1)
    } else {
        last_occurrence(s, p, k - 1)
    }
}

/// Searches `s` for the last occurrence of `p`.
pub fn rfind(s: &[char], p: &[char]) -> (r: Option<usize>)
    ensures
        r == (match last_occurrence(s@, p@, s@.len() + 1int) {
            Some(i) => Some(i as usize),
            None => None::<usize>,
        }),
{
    let n = s.len();
    let mut k = n;
    loop
        invariant
            k <= n,
            n == s@.len(),
            last_occurrence(s@, p@, s@.len() + 1int) == last_occurrence(s@, p@, k + 1),
        decreases k,
    {
        if matches_at(s, p, k) {
            return Some(k);
        }
        if k == 0 {
            assert(last_occurrence(s@, p@, 0) == None::<int>);
            return None;
        }
        assert(last_occurrence(s@, p@, k + 1) == last_occurrence(s@, p@, k as int));
        k = k - 1;
    }
}

/// The characters of `a` followed by those of `b`.
pub fn concat(a: &str, b: &str) -> (s: String)
    ensures
        s@ == a@ + b@,
{
    let mut v = chars_of(a);
    let w = chars_of(b);
    let mut i: usize = 0;
    while i < w.len()
        invariant
            0 <= i <= w@.len(),
            w@ == b@,
            v@ == a@ + b@.subrange(0, i as int),
        decreases w@.len() - i,
    {
        v.push(w[i]);
        i = i + 1;
        assert(v@ =~= a@ + b@.subrange(0, i as int));
    }
    assert(b@.subrange(0, b@.len() as int) =~= b@);
    string_from_chars(v.as_slice())
}

/// A found position lies at or after the start, with the pattern inside.
pub proof fn lemma_first_occurrence_bounds(s: Seq<char>, p: Seq<char>, from: int)
    ensures
        match first_occurrence(s, p, from) {
            Some(i) => from <= i && i + p.len() <= s.len() && occurs_at(s, p, i),
            None => true,
        },
    decreases s.len() + 1 - from,
{
    if from < 0 || from + p.len() > s.len() {
    } else if occurs_at(s, p, from) {
    } else {
        lemma_first_occurrence_bounds(s, p, from + 1);
    }
}

/// A found position from the end search lies below the bound, with the pattern inside.
pub proof fn lemma_last_occurrence_bounds(s: Seq<char>, p: Seq<char>, k: int)
    ensures
        match last_occurrence(s, p, k) {
            Some(i) => 0 <= i < k && i + p.len() <= s.len() && occurs_at(s, p, i),
            None => true,
        },
    decreases k,
{
    if k > 0 && !occurs_at(s, p, k - 1) {
        lemma_last_occurrence_bounds(s, p, k - 1);
    }
}


/// A copy of a list of strings.
pub fn copy_strings(v: &Vec<String>) -> (r: Vec<String>)
    ensures
        r@ == v@,
{
    let mut out: Vec<String> = Vec::new();
    let mut i: usize = 0;
    while i < v.len()
        invariant
            0 <= i <= v@.len(),
            out@ == v@.subrange(0, i as int),
        decreases v@.len() - i,
    {
        out.push(v[i].clone());
        i = i + 1;
        assert(out@ =~= v@.subrange(0, i as int));
    }
    assert(out@ =~= v@);
    out
}


/// The lowercase hexadecimal digit for `d`.
pub open spec fn hex_digit(d: int) -> char {
    if d < 10 { (d + '0' as int) as char } else { (d - 10 + 'a' as int) as char }
}

/// The lowercase hexadecimal representation of `n`, without leading zeros.
pub open spec fn spec_hex(n: nat) -> Seq<char>
    decreases n,
{
    if n < 16 {
        seq![hex_digit(n as int)]
    } else {
        spec_hex(n / 16).push(hex_digit((n % 16) as int))
    }
}

/// Appends `n` in lowercase hexadecimal.
pub fn push_hex(n: u64, out: &mut Vec<char>)
    ensures
        final(out)@ == old(out)@ + spec_hex(n as nat),
    decreases n,
{
    if n >= 16 {
        push_hex(n / 16, out);
    }
    let d = (n % 16) as u8;
    let c = if d < 10 { (48u8 + d) as char } else { (87u8 + d) as char };
    out.push(c);
    proof {
        assert(c == hex_digit((n % 16) as int));
        if n >= 16 {
            assert(old(out)@ + spec_hex(n as nat) =~= old(out)@ + spec_hex((n / 16) as nat) + seq![c]);
        } else {
            assert(old(out)@ + spec_hex(n as nat) =~= old(out)@ + seq![c]);
        }
    }
}

/// `n` in decimal, with a leading `-` when negative.
pub open spec fn spec_signed(n: int) -> Seq<char> {
    if n < 0 { seq!['-'] + spec_decimal((-n) as nat) } else { spec_decimal(n as nat) }
}

/// Appends `n` in decimal, with a leading `-` when negative.
pub fn push_signed(n: i64, out: &mut Vec<char>)
    ensures
        final(out)@ == old(out)@ + spec_signed(n as int),
{
    if n < 0 {
        out.push('-');
        let m: u64 = (0i128 - n as i128) as u64;
        push_decimal(m, out);
        assert(final(out)@ =~= old(out)@ + spec_signed(n as int));
    } else {
        push_decimal(n as u64, out);
    }
}

/// Appends the characters of `s`.
pub fn push_str(out: &mut Vec<char>, s: &str)
    ensures
        final(out)@ == old(out)@ + s@,
{
    let c = chars_of(s);
    let mut i: usize = 0;
    while i < c.len()
        invariant
            0 <= i <= c@.len(),
            c@ == s@,
            out@ == old(out)@ + s@.subrange(0, i as int),
        decreases c@.len() - i,
    {
        out.push(c[i]);
        i = i + 1;
        assert(out@ =~= old(out)@ + s@.subrange(0, i as int));
    }
    assert(s@.subrange(0, s@.len() as int) =~= s@);
}

} // verus!

verus! {

/// Whether `c` has the Unicode `White_Space` property, which is what `char::is_whitespace`
/// tests.
pub open spec fn is_ws(c: char) -> bool {
    let u = c as u32;
    ||| 9 <= u <= 13
    ||| u == 32 || u == 0x85 || u == 0xa0 || u == 0x1680
    ||| 0x2000 <= u <= 0x200a
    ||| u == 0x2028 || u == 0x2029 || u == 0x202f || u == 0x205f || u == 0x3000
}

pub fn is_whitespace(c: char) -> (r: bool)
    ensures
        r == is_ws(c),
{
    let u = c as u32;
    (9 <= u && u <= 13) || u == 32 || u == 0x85 || u == 0xa0 || u == 0x1680 || (0x2000 <= u && u <= 0x200a)
        || u == 0x2028 || u == 0x2029 || u == 0x202f || u == 0x205f || u == 0x3000
}

/// `s` without its leading whitespace.
pub open spec fn trim_start(s: Seq<char>) -> Seq<char>
    decreases s.len(),
{
    if s.len() > 0 && is_ws(s[0]) { trim_start(s.drop_first()) } else { s }
}

/// `s` without its trailing characters `c`, as `str::trim_end_matches` with a character.
pub open spec fn strip_end(s: Seq<char>, c: char) -> Seq<char>
    decreases s.len(),
{
    if s.len() > 0 && s.last() == c { strip_end(s.drop_last(), c) } else { s }
}

/// `s` without its trailing whitespace.
pub open spec fn trim_end(s: Seq<char>) -> Seq<char>
    decreases s.len(),
{
    if s.len() > 0 && is_ws(s.last()) { trim_end(s.drop_last()) } else { s }
}

/// `s` without leading and trailing whitespace, as `str::trim` gives it.
pub open spec fn trim(s: Seq<char>) -> Seq<char> {
    trim_end(trim_start(s))
}

pub fn copy_range(s: &[char], from: usize, to: usize) -> (r: Vec<char>)
    requires
        from <= to <= s@.len(),
    ensures
        r@ == s@.subrange(from as int, to as int),
{
    let mut out: Vec<char> = Vec::new();
    let mut k = from;
    while k < to
        invariant
            from <= k <= to,
            to <= s@.len(),
            out@ == s@.subrange(from as int, k as int),
        decreases to - k,
    {
        out.push(s[k]);
        k = k + 1;
        assert(out@ =~= s@.subrange(from as int, k as int));
    }
    out
}

/// Trims whitespace from both ends of `s`.
pub fn trim_chars(s: &[char]) -> (r: Vec<char>)
    ensures
        r@ == trim(s@),
{
    let n = s.len();
    let mut i: usize = 0;
    assert(s@.subrange(0, n as int) =~= s@);
    while i < n && is_whitespace(s[i])
        invariant
            0 <= i <= n,
            n == s@.len(),
            trim_start(s@) == trim_start(s@.subrange(i as int, n as int)),
        decreases n - i,
    {
        assert(s@.subrange(i as int, n as int).drop_first() =~= s@.subrange(i + 1, n as int));
        i = i + 1;
    }
    assert(trim_start(s@) == s@.subrange(i as int, n as int)) by {
        if i == n {
            assert(s@.subrange(i as int, n as int) =~= Seq::<char>::empty());
        }
    }
    let mut j: usize = n;
    while j > i && is_whitespace(s[j - 1])
        invariant
            i <= j <= n,
            n == s@.len(),
            trim(s@) == trim_end(s@.subrange(i as int, j as int)),
        decreases j,
    {
        assert(s@.subrange(i as int, j as int).drop_last() =~= s@.subrange(i as int, j - 1));
        j = j - 1;
    }
    copy_range(s, i, j)
}

/// Removes every trailing `c` from `s`.
pub fn strip_end_chars(s: &[char], c: char) -> (r: Vec<char>)
    ensures
        r@ == strip_end(s@, c),
{
    let n = s.len();
    let mut j: usize = n;
    assert(s@.subrange(0, n as int) =~= s@);
    while j > 0 && s[j - 1] == c
        invariant
            j <= n,
            n == s@.len(),
            strip_end(s@, c) == strip_end(s@.subrange(0, j as int), c),
        decreases j,
    {
        assert(s@.subrange(0, j as int).drop_last() =~= s@.subrange(0, j - 1));
        j = j - 1;
    }
    copy_range(s, 0, j)
}

/// The whitespace-separated words of `s`, as `str::split_whitespace` gives them.
pub open spec fn words(s: Seq<char>) -> Seq<Seq<char>>
    decreases s.len(),
{
    if s.len() == 0 {
        Seq::empty()
    } else {
        let w = words(s.drop_last());
        let c = s.last();
        if is_ws(c) {
            w
        } else if s.len() >= 2 && !is_ws(s[s.len() - 2]) {
            w.update(w.len() - 1, w.last().push(c))
        } else {
            w.push(seq![c])
        }
    }
}

proof fn lemma_words_open(s: Seq<char>)
    requires
        s.len() > 0,
        !is_ws(s.last()),
    ensures
        words(s).len() >= 1,
    decreases s.len(),
{
    if s.len() >= 2 && !is_ws(s[s.len() - 2]) {
        assert(s.drop_last().last() == s[s.len() - 2]);
        lemma_words_open(s.drop_last());
    }
}

/// Splits `s` into its whitespace-separated words.
pub fn words_of(s: &[char]) -> (r: Vec<Vec<char>>)
    ensures
        r@.len() == words(s@).len(),
        forall|k: int| 0 <= k < r@.len() ==> #[trigger] r@[k]@ == words(s@)[k],
{
    let n = s.len();
    let mut out: Vec<Vec<char>> = Vec::new();
    let mut i: usize = 0;
    while i < n
        invariant
            0 <= i <= n,
            n == s@.len(),
            out@.len() == words(s@.subrange(0, i as int)).len(),
            forall|k: int| 0 <= k < out@.len() ==> #[trigger] out@[k]@ == words(s@.subrange(0, i as int))[k],
        decreases n - i,
    {
        let ghost pre = s@.subrange(0, i as int);
        let ghost next = s@.subrange(0, i + 1);
        assert(next.drop_last() =~= pre);
        let c = s[i];
        if is_whitespace(c) {
        } else if i >= 1 && !is_whitespace(s[i - 1]) {
            proof {
                assert(pre.last() == s@[i - 1]);
                lemma_words_open(pre);
            }
            let ghost before = out@;
            let mut last = out.pop().unwrap();
            last.push(c);
            out.push(last);
            proof {
                let w = words(pre);
                assert(words(next) == w.update(w.len() - 1, w.last().push(c)));
                assert forall|k: int| 0 <= k < out@.len() implies #[trigger] out@[k]@ == words(next)[k] by {
                    if k < out@.len() - 1 {
                        assert(out@[k] == before[k]);
                    }
                }
            }
        } else {
            let mut t: Vec<char> = Vec::new();
            t.push(c);
            out.push(t);
            proof {
                assert(t@ =~= seq![c]);
            }
        }
        i = i + 1;
    }
    assert(s@.subrange(0, n as int) =~= s@);
    out
}

} // verus!
