//! DEFLATE decompression (stored, fixed-Huffman and dynamic-Huffman blocks).

use vstd::prelude::*;
use vstd::arithmetic::power2::{pow2, lemma2_to64, lemma_pow2_pos, lemma_pow2_adds, lemma_pow2_strictly_increases};
use vstd::bits::{low_bits_mask, lemma_u32_shl_is_mul, lemma_u32_low_bits_mask_is_mod, lemma_u32_pow2_no_overflow};
use crate::tester::apk::ApkError;

verus! {

/// Bit `i` of a byte stream: bit `i % 8` of byte `i / 8`, the least significant first.
pub open spec fn stream_bit(b: Seq<u8>, i: int) -> int {
    (b[i / 8] as int / pow2((i % 8) as nat) as int) % 2
}

/// The `k` bits of the stream from bit `pos`, as a number whose lowest bit is the first.
pub open spec fn bits_at(b: Seq<u8>, pos: int, k: nat) -> int
    decreases k,
{
    if k == 0 { 0 } else { stream_bit(b, pos) + 2 * bits_at(b, pos + 1, (k - 1) as nat) }
}

proof fn lemma_bits_split(b: Seq<u8>, pos: int, m1: nat, m2: nat)
    ensures
        bits_at(b, pos, m1 + m2) == bits_at(b, pos, m1) + pow2(m1) * bits_at(b, pos + m1, m2),
    decreases m1,
{
    if m1 == 0 {
        lemma2_to64();
        assert(bits_at(b, pos, m1) == 0);
        assert(pow2(m1) * bits_at(b, pos + m1, m2) == bits_at(b, pos, m2));
    } else {
        let m = (m1 - 1) as nat;
        lemma_bits_split(b, pos + 1, m, m2);
        lemma_pow2_adds(1, m);
        lemma2_to64();
        assert((m + m2) as nat == (m1 + m2 - 1) as nat);
        assert(pos + 1 + m == pos + m1);
        let x = bits_at(b, pos + m1, m2);
        assert(bits_at(b, pos + 1, (m + m2) as nat) == bits_at(b, pos + 1, m) + pow2(m) * x);
        assert(bits_at(b, pos, m1 + m2) == stream_bit(b, pos) + 2 * bits_at(b, pos + 1, (m + m2) as nat));
        assert(bits_at(b, pos, m1) == stream_bit(b, pos) + 2 * bits_at(b, pos + 1, m));
        assert(2 * (pow2(m) * x) == pow2(m1) * x) by (nonlinear_arith)
            requires
                pow2(m1) == 2 * pow2(m),
        ;
        assert(bits_at(b, pos, m1 + m2) == bits_at(b, pos, m1) + pow2(m1) * x);
    }
}

proof fn lemma_bits_bound(b: Seq<u8>, pos: int, k: nat)
    ensures
        0 <= bits_at(b, pos, k) < pow2(k),
    decreases k,
{
    lemma2_to64();
    if k > 0 {
        lemma_bits_bound(b, pos + 1, (k - 1) as nat);
        lemma_pow2_adds(1, (k - 1) as nat);
        lemma_pow2_pos(k as nat);
    }
}

proof fn lemma_byte_bits(b: Seq<u8>, p: int, j: nat)
    requires
        0 <= p < b.len(),
        j <= 8,
    ensures
        bits_at(b, 8 * p + j, (8 - j) as nat) == b[p] as int / pow2(j) as int,
    decreases 8 - j,
{
    lemma2_to64();
    if j == 8 {
        assert(b[p] as int / 256 == 0);
    } else {
        lemma_byte_bits(b, p, j + 1);
        let i = 8 * p + j;
        vstd::arithmetic::div_mod::lemma_fundamental_div_mod_converse(i, 8, p, j as int);
        let x = b[p] as int;
        let y = x / pow2(j) as int;
        lemma_pow2_pos(j);
        lemma_pow2_adds(j, 1);
        vstd::arithmetic::div_mod::lemma_div_denominator(x, pow2(j) as int, 2);
        vstd::arithmetic::div_mod::lemma_fundamental_div_mod(y, 2);
        assert(x / pow2(j + 1) as int == y / 2);
    }
}

/// A least-significant-bit-first reader over a byte slice.
pub struct Bits<'a> {
    pub b: &'a [u8],
    pub p: usize,
    pub n: u32,
    pub v: u32,
}

impl<'a> Bits<'a> {
    /// The reader's state is consistent: the buffered bits are those before byte `p`, fewer
    /// than a byte of them.
    pub open spec fn wf(&self) -> bool {
        &&& self.buffered()
        &&& self.n <= 7
    }

    /// The buffer holds the `n` bits before byte `p`: at most 23, below bit `n`.
    pub open spec fn buffered(&self) -> bool {
        &&& self.p <= self.b@.len()
        &&& self.n <= 23
        &&& self.v < pow2(self.n as nat)
        &&& self.n <= 8 * self.p
        &&& self.v == bits_at(self.b@, self.pos(), self.n as nat)
    }

    /// The position of the next unread bit in the stream.
    pub open spec fn pos(&self) -> int {
        8 * self.p - self.n
    }

    /// The number of bits not yet consumed.
    pub open spec fn remaining(&self) -> int {
        8 * (self.b@.len() - self.p) + self.n
    }

    pub fn new(b: &'a [u8]) -> (r: Bits<'a>)
        ensures
            r.wf(),
            r.b@ == b@,
            r.remaining() == 8 * b@.len(),
    {
        proof {
            lemma2_to64();
        }
        Bits { b, p: 0, n: 0, v: 0 }
    }

    /// Reads the next `k` bits as a number, first bit lowest; fails at the end of the input.
    pub fn get(&mut self, k: u32) -> (r: Result<u32, ApkError>)
        requires
            old(self).wf(),
            1 <= k <= 16,
        ensures
            final(self).wf(),
            final(self).b@ == old(self).b@,
            k <= old(self).remaining() ==> r == Ok::<u32, ApkError>(bits_at(old(self).b@, old(self).pos(), k as nat) as u32)
                && final(self).pos() == old(self).pos() + k,
            k > old(self).remaining() ==> r == Err::<u32, ApkError>(ApkError::InvalidZipFormat),
            r is Ok && old(self).n < k ==> final(self).n < 8,
            r matches Ok(x) ==> x < pow2(k as nat) && final(self).remaining() == old(self).remaining() - k,
            final(self).remaining() <= old(self).remaining(),
            r is Err ==> r == Err::<u32, ApkError>(ApkError::InvalidZipFormat),
    {
        let ghost start = self.remaining();
        let ghost pos0 = self.pos();
        let (p0, n0, v0) = (self.p, self.n, self.v);
        while self.n < k
            invariant
                self.buffered(),
                old(self).n <= 7,
                p0 == old(self).p && n0 == old(self).n && v0 == old(self).v,
                old(self).wf(),
                self.b@ == old(self).b@,
                1 <= k <= 16,
                self.remaining() == start,
                start == old(self).remaining(),
                self.pos() == pos0,
                pos0 == old(self).pos(),
                old(self).n < k ==> self.n < k + 8,
                old(self).n >= k ==> self.n == old(self).n,
            decreases 24 - self.n,
        {
            if self.p == self.b.len() {
                self.p = p0;
                self.n = n0;
                self.v = v0;
                return Err(ApkError::InvalidZipFormat);
            }
            let byte = self.b[self.p] as u32;
            proof {
                lemma_bits_split(self.b@, pos0, self.n as nat, 8);
                lemma_byte_bits(self.b@, self.p as int, 0);
                lemma2_to64();
                assert(pos0 + self.n == 8 * self.p);
                lemma2_to64();
                if self.n < 16 {
                    lemma_pow2_strictly_increases(self.n as nat, 16);
                }
                assert(byte * pow2(self.n as nat) <= u32::MAX) by (nonlinear_arith)
                    requires
                        byte < 256,
                        pow2(self.n as nat) <= 0x10000,
                ;
                lemma_u32_pow2_no_overflow(self.n as nat);
                lemma_u32_shl_is_mul(byte, self.n);
                lemma_pow2_adds(self.n as nat, 8);
                lemma2_to64();
                assert(byte * pow2(self.n as nat) + self.v < pow2((self.n + 8) as nat)) by (nonlinear_arith)
                    requires
                        byte < 256,
                        self.v < pow2(self.n as nat),
                        pow2((self.n + 8) as nat) == pow2(self.n as nat) * 256,
                ;
                lemma_pow2_strictly_increases((self.n + 8) as nat, 32);
            }
            let ghost v0 = self.v;
            let ghost n0 = self.n;
            let ghost p0 = self.p;
            self.v = self.v + (byte << self.n);
            self.p = self.p + 1;
            self.n = self.n + 8;
            proof {
                assert(bits_at(self.b@, 8 * p0, 8) == byte) by {
                    lemma_byte_bits(self.b@, p0 as int, 0);
                    assert(pow2(0) == 1) by { lemma2_to64(); }
                    assert(8 * p0 + 0 == 8 * p0);
                }
                assert(pos0 + n0 == 8 * p0);
                assert(bits_at(self.b@, pos0, (n0 + 8) as nat) == v0 + pow2(n0 as nat) * byte);
                assert(self.v == v0 + byte * pow2(n0 as nat));
                assert(byte * pow2(n0 as nat) == pow2(n0 as nat) * byte) by (nonlinear_arith);
                assert(self.pos() == pos0);
                assert(self.v == bits_at(self.b@, self.pos(), self.n as nat));
                assert((n0 + 8) as nat == self.n as nat);
            }
        }
        proof {
            lemma_u32_pow2_no_overflow(k as nat);
            lemma_u32_shl_is_mul(1, k);
            lemma_pow2_pos(k as nat);
        }
        let mask = (1u32 << k) - 1;
        proof {
            lemma_u32_low_bits_mask_is_mod(self.v, k as nat);
        }
        let x = self.v & mask;
        let m = 1u32 << k;
        proof {
            let lo = bits_at(self.b@, pos0, k as nat);
            let hi = bits_at(self.b@, pos0 + k, (self.n - k) as nat);
            lemma_bits_split(self.b@, pos0, k as nat, (self.n - k) as nat);
            lemma_bits_bound(self.b@, pos0, k as nat);
            assert((k + (self.n - k)) as nat == self.n as nat);
            assert(self.v == hi * m + lo) by (nonlinear_arith)
                requires
                    self.v == lo + pow2(k as nat) * hi,
                    m == pow2(k as nat),
            ;
            vstd::arithmetic::div_mod::lemma_fundamental_div_mod_converse(self.v as int, m as int, hi, lo);
            assert(pow2((self.n - k) as nat) * pow2(k as nat) == pow2(self.n as nat)) by {
                lemma_pow2_adds((self.n - k) as nat, k as nat);
            }
            assert(self.v / m < pow2((self.n - k) as nat)) by (nonlinear_arith)
                requires
                    self.v < pow2(self.n as nat),
                    m == pow2(k as nat),
                    m > 0,
                    pow2((self.n - k) as nat) * m == pow2(self.n as nat),
            ;
        }
        self.v = self.v / m;
        self.n = self.n - k;
        Ok(x)
    }

    /// Drops the buffered bits, moving to the next byte boundary.
    pub fn align(&mut self)
        requires
            old(self).wf(),
        ensures
            final(self).wf(),
            final(self).b@ == old(self).b@,
            final(self).p == old(self).p,
            final(self).n == 0,
            final(self).v == 0,
            final(self).remaining() <= old(self).remaining(),
            final(self).pos() == 8 * ((old(self).pos() + 7) / 8),
    {
        proof {
            lemma2_to64();
            vstd::arithmetic::div_mod::lemma_fundamental_div_mod_converse(
                old(self).pos() + 7, 8, self.p as int, 7 - self.n);
        }
        self.v = 0;
        self.n = 0;
    }
}

/// A canonical Huffman code: (bit-reversed code, length, symbol) for every symbol with a
/// nonzero length.
#[derive(Clone)]
pub struct Huff {
    pub codes: Vec<(u32, u8, u16)>,
}

/// The low `n` bits of `x`, reversed.
pub open spec fn bit_reverse(x: int, n: int) -> int
    decreases n,
{
    if n <= 0 { 0 } else { 2 * bit_reverse(x, n - 1) + (x / pow2((n - 1) as nat) as int) % 2 }
}

/// Reverses the low `n` bits of `x`.
pub fn rev(x: u32, n: u8) -> (r: u32)
    requires
        n <= 16,
    ensures
        r < pow2(n as nat),
        r == bit_reverse(x as int, n as int),
{
    let ghost x0 = x;
    let mut x = x;
    let mut y: u32 = 0;
    let mut i: u8 = 0;
    proof {
        lemma2_to64();
    }
    while i < n
        invariant
            0 <= i <= n,
            n <= 16,
            y < pow2(i as nat),
            y == bit_reverse(x0 as int, i as int),
            x == x0 as int / pow2(i as nat) as int,
        decreases n - i,
    {
        proof {
            lemma_pow2_adds(i as nat, 1);
            lemma2_to64();
            lemma_pow2_strictly_increases((i + 1) as nat, 17);
            lemma_pow2_pos(i as nat);
            vstd::arithmetic::div_mod::lemma_div_denominator(x0 as int, pow2(i as nat) as int, 2);
        }
        y = y * 2 + x % 2;
        x = x / 2;
        i = i + 1;
    }
    y
}

/// How many of the first `m` code lengths equal `l`.
pub open spec fn len_count(lengths: Seq<u8>, l: int, m: int) -> int
    decreases m,
{
    if m <= 0 || m > lengths.len() {
        0
    } else {
        len_count(lengths, l, m - 1) + if lengths[m - 1] == l { 1int } else { 0 }
    }
}

/// The first code of length `l` in the canonical code for `lengths`.
pub open spec fn first_code(lengths: Seq<u8>, l: int) -> int
    decreases l,
{
    if l <= 1 { 0 } else { (first_code(lengths, l - 1) + len_count(lengths, l - 1, lengths.len() as int)) * 2 }
}

/// The canonical code for the first `m` symbols: for each symbol with a nonzero length, in
/// symbol order, its code bit-reversed (so that it reads first bit first), its length and the
/// symbol.
pub open spec fn canonical_codes(lengths: Seq<u8>, m: int) -> Seq<(u32, u8, u16)>
    decreases m,
{
    if m <= 0 || m > lengths.len() {
        seq![]
    } else {
        let rest = canonical_codes(lengths, m - 1);
        let l = lengths[m - 1];
        if l == 0 {
            rest
        } else {
            rest.push((bit_reverse(first_code(lengths, l as int) + len_count(lengths, l as int, m - 1), l as int) as u32, l, (m - 1) as u16))
        }
    }
}

/// Builds the canonical code for code lengths `lengths` (each at most 15).
pub fn huff(lengths: &[u8]) -> (r: Result<Huff, ApkError>)
    requires
        lengths@.len() <= 320,
    ensures
        (exists|i: int| 0 <= i < lengths@.len() && lengths@[i] > 15) ==> r == Err::<Huff, ApkError>(ApkError::InvalidZipFormat),
        (forall|i: int| 0 <= i < lengths@.len() ==> lengths@[i] <= 15) ==> (r matches Ok(h)
            && h.codes@ == canonical_codes(lengths@, lengths@.len() as int)),
        r matches Ok(h) ==> forall|k: int| 0 <= k < h.codes@.len() ==> {
            &&& 1 <= (#[trigger] h.codes@[k]).1 <= 15
            &&& h.codes@[k].2 < lengths@.len()
            &&& lengths@[h.codes@[k].2 as int] == h.codes@[k].1
        },
{
    let mut count: Vec<u32> = vec![0u32; 16];
    let mut i: usize = 0;
    while i < lengths.len()
        invariant
            0 <= i <= lengths@.len(),
            lengths@.len() <= 320,
            count@.len() == 16,
            forall|j: int| 0 <= j < 16 ==> #[trigger] count@[j] <= i,
            forall|j: int| 0 <= j < i ==> lengths@[j] <= 15,
            count@[0] == 0,
            forall|j: int| 1 <= j < 16 ==> #[trigger] count@[j] == len_count(lengths@, j, i as int),
        decreases lengths@.len() - i,
    {
        proof {
            assert forall|j: int| 1 <= j < 16 implies len_count(lengths@, j, i + 1) == len_count(lengths@, j, i as int)
                + if lengths@[i as int] == j { 1int } else { 0 } by {}
        }
        let l = lengths[i];
        if l > 15 {
            proof {
                assert forall|j: int| 0 <= j < i implies lengths@[j] <= 15 by {}
            }
            return Err(ApkError::InvalidZipFormat);
        }
        if l != 0 {
            let c = count[l as usize];
            count.set(l as usize, c + 1);
        }
        i = i + 1;
    }
    let mut next: Vec<u32> = vec![0u32; 16];
    let mut code: u32 = 0;
    let mut b: usize = 1;
    proof {
        lemma2_to64();
    }
    while b < 16
        invariant
            1 <= b <= 16,
            count@.len() == 16,
            next@.len() == 16,
            forall|j: int| 0 <= j < 16 ==> #[trigger] count@[j] <= 320,
            code + 640 <= 640 * pow2(b as nat),
            forall|j: int| 0 <= j < 16 ==> #[trigger] next@[j] <= 0x0400_0000,
            count@[0] == 0,
            forall|j: int| 1 <= j < 16 ==> #[trigger] count@[j] == len_count(lengths@, j, lengths@.len() as int),
            code == first_code(lengths@, b - 1),
            forall|j: int| 1 <= j < b ==> #[trigger] next@[j] == first_code(lengths@, j),
        decreases 16 - b,
    {
        proof {
            lemma_pow2_adds(b as nat, 1);
            lemma2_to64();
            if b < 15 {
                lemma_pow2_strictly_increases(b as nat, 15);
            }
            assert(640 * pow2(b as nat) <= 640 * 0x8000) by (nonlinear_arith)
                requires
                    pow2(b as nat) <= 0x8000,
            ;
        }
        code = (code + count[b - 1]) * 2;
        next.set(b, code);
        b = b + 1;
    }
    let mut codes: Vec<(u32, u8, u16)> = Vec::new();
    let mut s: usize = 0;
    while s < lengths.len()
        invariant
            0 <= s <= lengths@.len(),
            lengths@.len() <= 320,
            next@.len() == 16,
            forall|j: int| 0 <= j < lengths@.len() ==> lengths@[j] <= 15,
            forall|j: int| 0 <= j < 16 ==> #[trigger] next@[j] <= 0x0400_0000 + s,
            forall|k: int| 0 <= k < codes@.len() ==> {
                &&& 1 <= (#[trigger] codes@[k]).1 <= 15
                &&& codes@[k].2 < lengths@.len()
                &&& lengths@[codes@[k].2 as int] == codes@[k].1
            },
            forall|j: int| 1 <= j < 16 ==> #[trigger] next@[j] == first_code(lengths@, j) + len_count(lengths@, j, s as int),
            codes@ == canonical_codes(lengths@, s as int),
        decreases lengths@.len() - s,
    {
        proof {
            assert forall|j: int| 1 <= j < 16 implies len_count(lengths@, j, s + 1) == len_count(lengths@, j, s as int)
                + if lengths@[s as int] == j { 1int } else { 0 } by {}
        }
        let len = lengths[s];
        if len != 0 {
            let c = next[len as usize];
            next.set(len as usize, c + 1);
            codes.push((rev(c, len), len, s as u16));
        }
        s = s + 1;
    }
    Ok(Huff { codes })
}

/// Whether the code has an entry for symbol `s`.
pub open spec fn has_symbol(h: Huff, s: u16) -> bool {
    exists|k: int| 0 <= k < h.codes@.len() && (#[trigger] h.codes@[k]).2 == s
}

/// The symbol of the first entry of `codes`, from index `k` on, with length `n` and code `x`.
pub open spec fn find_code(codes: Seq<(u32, u8, u16)>, n: int, x: int, k: int) -> Option<u16>
    decreases codes.len() - k,
{
    if k < 0 || k >= codes.len() {
        None
    } else if codes[k].1 == n && codes[k].0 == x {
        Some(codes[k].2)
    } else {
        find_code(codes, n, x, k + 1)
    }
}

/// The symbol of `codes` at bit `pos`, trying the lengths from `n` up to 15: the first length
/// whose bits spell a code of that length; with the position after it. None when no length
/// does, or the stream ends first.
pub open spec fn sym_from(b: Seq<u8>, codes: Seq<(u32, u8, u16)>, pos: int, n: int) -> Option<(u16, int)>
    decreases 16 - n,
{
    if n < 1 || n > 15 || pos + n > 8 * b.len() {
        None
    } else {
        match find_code(codes, n, bits_at(b, pos, n as nat), 0) {
            Some(s) => Some((s, pos + n)),
            None => sym_from(b, codes, pos, n + 1),
        }
    }
}

/// The symbol of `codes` at bit `pos`, with the position after it.
pub open spec fn decode_sym(b: Seq<u8>, codes: Seq<(u32, u8, u16)>, pos: int) -> Option<(u16, int)> {
    sym_from(b, codes, pos, 1)
}

/// Decodes one symbol: reads bits one at a time until they spell a code of `h`; fails after
/// 15 bits or at the end of the input.
pub fn sym(bits: &mut Bits, h: &Huff) -> (r: Result<u16, ApkError>)
    requires
        old(bits).wf(),
    ensures
        final(bits).wf(),
        final(bits).b@ == old(bits).b@,
        match decode_sym(old(bits).b@, h.codes@, old(bits).pos()) {
            Some((s, q)) => r == Ok::<u16, ApkError>(s) && final(bits).pos() == q,
            None => r == Err::<u16, ApkError>(ApkError::InvalidZipFormat),
        },
        r matches Ok(s) ==> has_symbol(*h, s) && final(bits).remaining() < old(bits).remaining(),
        final(bits).remaining() <= old(bits).remaining(),
        r is Err ==> r == Err::<u16, ApkError>(ApkError::InvalidZipFormat),
{
    let mut x: u32 = 0;
    let mut factor: u32 = 1;
    let mut n: u8 = 1;
    proof {
        lemma2_to64();
    }
    while n <= 15
        invariant
            1 <= n <= 16,
            bits.wf(),
            bits.b@ == old(bits).b@,
            bits.remaining() == old(bits).remaining() - (n - 1),
            factor == pow2((n - 1) as nat),
            x < factor,
            x == bits_at(bits.b@, old(bits).pos(), (n - 1) as nat),
            bits.pos() == old(bits).pos() + n - 1,
            decode_sym(old(bits).b@, h.codes@, old(bits).pos()) == sym_from(old(bits).b@, h.codes@, old(bits).pos(), n as int),
        decreases 16 - n,
    {
        let ghost x0 = x;
        let ghost q0 = bits.pos();
        let b = match bits.get(1) {
            Ok(b) => b,
            Err(e) => return Err(e),
        };
        proof {
            lemma_bits_split(bits.b@, old(bits).pos(), (n - 1) as nat, 1);
            lemma_bits_bound(bits.b@, q0, 1);
            lemma2_to64();
            assert(b == bits_at(bits.b@, q0, 1));
            assert(q0 == old(bits).pos() + (n - 1) as nat);
            assert(((n - 1) + 1) as nat == n as nat);
            assert(bits_at(bits.b@, old(bits).pos(), n as nat) == x0 + pow2((n - 1) as nat) * b);
            lemma2_to64();
            lemma_pow2_adds((n - 1) as nat, 1);
            if n < 15 {
                lemma_pow2_strictly_increases((n - 1) as nat, 14);
            }
            assert(b * factor <= factor) by (nonlinear_arith)
                requires
                    b < 2,
            ;
        }
        x = x + b * factor;
        proof {
            assert(b * factor == pow2((n - 1) as nat) * b) by (nonlinear_arith)
                requires
                    factor == pow2((n - 1) as nat),
            ;
            assert(x == bits_at(bits.b@, old(bits).pos(), n as nat));
        }
        let ghost rem_now = bits.remaining();
        let mut k: usize = 0;
        while k < h.codes.len()
            invariant
                0 <= k <= h.codes@.len(),
                bits.wf(),
                bits.b@ == old(bits).b@,
                bits.remaining() == rem_now,
                rem_now < old(bits).remaining(),
                find_code(h.codes@, n as int, x as int, 0) == find_code(h.codes@, n as int, x as int, k as int),
                x == bits_at(old(bits).b@, old(bits).pos(), n as nat),
                1 <= n <= 15,
                bits.pos() == old(bits).pos() + n,
                bits.pos() <= 8 * old(bits).b@.len(),
                decode_sym(old(bits).b@, h.codes@, old(bits).pos()) == sym_from(old(bits).b@, h.codes@, old(bits).pos(), n as int),
            decreases h.codes@.len() - k,
        {
            let (c, l, s) = h.codes[k];
            if l == n && c == x {
                assert(h.codes@[k as int].2 == s);
                assert(find_code(h.codes@, n as int, x as int, k as int) == Some(s));
                assert(sym_from(old(bits).b@, h.codes@, old(bits).pos(), n as int) == Some((s, old(bits).pos() + n)));
                return Ok(s);
            }
            k = k + 1;
        }
        factor = factor * 2;
        n = n + 1;
    }
    Err(ApkError::InvalidZipFormat)
}

/// Extra bits of length symbols 257..285.
pub open spec fn len_extra_bits() -> Seq<u32> {
    seq![0u32, 0, 0, 0, 0, 0, 0, 0, 1, 1, 1, 1, 2, 2, 2, 2, 3, 3, 3, 3, 4, 4, 4, 4, 5, 5, 5, 5, 0]
}

/// Base lengths of length symbols 257..285.
pub open spec fn len_bases() -> Seq<usize> {
    seq![3usize, 4, 5, 6, 7, 8, 9, 10, 11, 13, 15, 17, 19, 23, 27, 31, 35, 43, 51, 59, 67, 83, 99, 115,
        131, 163, 195, 227, 258]
}

/// Base distances of distance symbols 0..29.
pub open spec fn dist_bases() -> Seq<usize> {
    seq![1usize, 2, 3, 4, 5, 7, 9, 13, 17, 25, 33, 49, 65, 97, 129, 193, 257, 385, 513, 769, 1025, 1537,
        2049, 3073, 4097, 6145, 8193, 12289, 16385, 24577]
}

/// Extra bits of distance symbols 0..29.
pub open spec fn dist_extra_bits() -> Seq<u32> {
    seq![0u32, 0, 0, 0, 1, 1, 2, 2, 3, 3, 4, 4, 5, 5, 6, 6, 7, 7, 8, 8, 9, 9, 10, 10, 11, 11, 12, 12, 13, 13]
}

/// `out` followed by `len` bytes, each copied from `dist` bytes back (a copy may reach into
/// the bytes it adds).
pub open spec fn copy_back(out: Seq<u8>, dist: int, len: nat) -> Seq<u8>
    decreases len,
{
    if len == 0 { out } else { copy_back(out.push(out[out.len() - dist]), dist, (len - 1) as nat) }
}

pub proof fn lemma_sym_advances(b: Seq<u8>, codes: Seq<(u32, u8, u16)>, pos: int, n: int)
    ensures
        sym_from(b, codes, pos, n) matches Some((s, q)) ==> pos < q <= 8 * b.len(),
    decreases 16 - n,
{
    if 1 <= n <= 15 && pos + n <= 8 * b.len() {
        lemma_sym_advances(b, codes, pos, n + 1);
    }
}

/// Decoding the rest of a Huffman block from bit `pos`, with `out` decoded so far, up to its
/// end-of-block symbol: `Ok` of the position after it and the output; `Err(true)` when the
/// output grows past `expected`; `Err(false)` when the stream is not a valid block.
pub open spec fn block_from(b: Seq<u8>, lc: Seq<(u32, u8, u16)>, dc: Seq<(u32, u8, u16)>, pos: int, out: Seq<u8>, expected: int)
    -> Result<(int, Seq<u8>), bool>
    decreases 8 * b.len() - pos,
{
    match decode_sym(b, lc, pos) {
        None => Err(false),
        Some((s, q)) => {
            proof {
                lemma_sym_advances(b, lc, pos, 1);
            }
            if s < 256 {
                let o = out.push(s as u8);
                if o.len() > expected { Err(true) } else { block_from(b, lc, dc, q, o, expected) }
            } else if s == 256 {
                Ok((q, out))
            } else if s <= 285 {
                let i = s - 257;
                let e = len_extra_bits()[i];
                if q + e > 8 * b.len() {
                    Err(false)
                } else {
                    let len = len_bases()[i] + bits_at(b, q, e as nat);
                    match decode_sym(b, dc, q + e) {
                        None => Err(false),
                        Some((ds, q2)) => {
                            proof {
                                lemma_sym_advances(b, dc, q + e, 1);
                            }
                            if ds >= 30 {
                                Err(false)
                            } else {
                                let de = dist_extra_bits()[ds as int];
                                let dist = dist_bases()[ds as int] + bits_at(b, q2, de as nat);
                                if q2 + de > 8 * b.len() || dist > out.len() {
                                    Err(false)
                                } else {
                                    let o = copy_back(out, dist, len as nat);
                                    if o.len() > expected { Err(true) } else { block_from(b, lc, dc, q2 + de, o, expected) }
                                }
                            }
                        },
                    }
                }
            } else {
                Err(false)
            }
        },
    }
}

/// Decodes the symbols of one Huffman block into `out`, until the end-of-block symbol; fails
/// on a bad symbol or distance, or when the output grows past `expected`.
#[verifier::spinoff_prover]
#[verifier::rlimit(60)]
fn decode_block(bits: &mut Bits, out: &mut Vec<u8>, lh: &Huff, dh: &Huff, expected: usize) -> (r: Result<(), ApkError>)
    requires
        old(bits).wf(),
    ensures
        final(bits).wf(),
        final(bits).b@ == old(bits).b@,
        final(bits).remaining() <= old(bits).remaining(),
        r is Ok ==> final(bits).remaining() < old(bits).remaining(),
        final(out)@.len() >= old(out)@.len(),
        final(out)@.subrange(0, old(out)@.len() as int) == old(out)@,
        match block_from(old(bits).b@, lh.codes@, dh.codes@, old(bits).pos(), old(out)@, expected as int) {
            Ok((q, o)) => r is Ok && final(bits).pos() == q && final(out)@ == o,
            Err(true) => r matches Err(ApkError::CorruptedEntry(m)) && m@ == "deflate output exceeds declared size"@,
            Err(false) => r == Err::<(), ApkError>(ApkError::InvalidZipFormat),
        },
{
    let extras: [u32; 29] = [0, 0, 0, 0, 0, 0, 0, 0, 1, 1, 1, 1, 2, 2, 2, 2, 3, 3, 3, 3, 4, 4, 4, 4, 5, 5, 5, 5, 0];
    let bases: [usize; 29] = [3, 4, 5, 6, 7, 8, 9, 10, 11, 13, 15, 17, 19, 23, 27, 31, 35, 43, 51, 59, 67, 83, 99, 115,
        131, 163, 195, 227, 258];
    let dbases: [usize; 30] = [1, 2, 3, 4, 5, 7, 9, 13, 17, 25, 33, 49, 65, 97, 129, 193, 257, 385, 513, 769, 1025, 1537,
        2049, 3073, 4097, 6145, 8193, 12289, 16385, 24577];
    let dextras: [u32; 30] = [0, 0, 0, 0, 1, 1, 2, 2, 3, 3, 4, 4, 5, 5, 6, 6, 7, 7, 8, 8, 9, 9, 10, 10, 11, 11, 12, 12, 13, 13];
    assert(extras@ =~= len_extra_bits());
    assert(bases@ =~= len_bases());
    assert(dbases@ =~= dist_bases());
    assert(dextras@ =~= dist_extra_bits());
    let ghost start_len = out@.len();
    let ghost start_out = out@;
    let ghost start_rem = bits.remaining();
    let ghost bs = bits.b@;
    let ghost goal = block_from(bs, lh.codes@, dh.codes@, old(bits).pos(), old(out)@, expected as int);
    loop
        invariant
            bits.wf(),
            bits.b@ == old(bits).b@,
            bs == old(bits).b@,
            bits.remaining() <= start_rem,
            out@.len() >= start_len,
            out@.subrange(0, start_len as int) == start_out,
            start_out == old(out)@,
            start_rem == old(bits).remaining(),
            extras@ == len_extra_bits() && bases@ == len_bases() && dbases@ == dist_bases() && dextras@ == dist_extra_bits(),
            forall|i: int| 0 <= i < 29 ==> #[trigger] extras@[i] <= 5 && bases@[i] <= 258,
            forall|i: int| 0 <= i < 30 ==> #[trigger] dextras@[i] <= 13 && dbases@[i] >= 1 && dbases@[i] <= 24577,
            goal == block_from(bs, lh.codes@, dh.codes@, old(bits).pos(), old(out)@, expected as int),
            goal == block_from(bs, lh.codes@, dh.codes@, bits.pos(), out@, expected as int),
        decreases bits.remaining(),
    {
        let ghost pos = bits.pos();
        let ghost cur = out@;
        proof {
            lemma_sym_advances(bs, lh.codes@, pos, 1);
        }
        let s = match sym(bits, lh) {
            Ok(s) => s as usize,
            Err(e) => {
                proof {
                    assert(out@.subrange(0, start_len as int) =~= start_out);
                }
                return Err(e);
            },
        };
        let ghost q = bits.pos();
        let ghost before = out@;
        if s < 256 {
            out.push(s as u8);
        } else if s == 256 {
            proof {
                assert(out@.subrange(0, start_len as int) =~= start_out);
            }
            return Ok(());
        } else if s <= 285 {
            let i = s - 257;
            let mut len = bases[i];
            let ghost e = extras@[i as int];
            if extras[i] > 0 {
                let x = match bits.get(extras[i]) {
                    Ok(x) => x,
                    Err(e) => return Err(e),
                };
                proof {
                    lemma2_to64();
                    vstd::arithmetic::power2::lemma_pow2_strictly_increases(extras@[i as int] as nat, 6);
                    lemma_bits_bound(bs, q, e as nat);
                    assert(x == bits_at(bs, q, e as nat));
                }
                len = len + x as usize;
            } else {
                assert(bits_at(bs, q, 0) == 0);
            }
            assert(len == len_bases()[i as int] + bits_at(bs, q, e as nat));
            assert(bits.pos() == q + e);
            proof {
                lemma_sym_advances(bs, dh.codes@, q + e, 1);
            }
            let ds = match sym(bits, dh) {
                Ok(d) => d as usize,
                Err(e) => return Err(e),
            };
            let ghost q2 = bits.pos();
            if ds >= 30 {
                return Err(ApkError::InvalidZipFormat);
            }
            let mut dist = dbases[ds];
            let ghost de = dextras@[ds as int];
            if dextras[ds] > 0 {
                let x = match bits.get(dextras[ds]) {
                    Ok(x) => x,
                    Err(e) => return Err(e),
                };
                proof {
                    lemma2_to64();
                    vstd::arithmetic::power2::lemma_pow2_strictly_increases(dextras@[ds as int] as nat, 14);
                    lemma_bits_bound(bs, q2, de as nat);
                    assert(x == bits_at(bs, q2, de as nat));
                }
                dist = dist + x as usize;
            } else {
                assert(bits_at(bs, q2, 0) == 0);
            }
            assert(dist == dist_bases()[ds as int] + bits_at(bs, q2, de as nat));
            assert(bits.pos() == q2 + de);
            if dist > out.len() {
                return Err(ApkError::InvalidZipFormat);
            }
            let mut c: usize = 0;
            while c < len
                invariant
                    0 <= c <= len,
                    1 <= dist <= before.len(),
                    out@.len() == before.len() + c,
                    out@.subrange(0, before.len() as int) == before,
                    copy_back(before, dist as int, len as nat) == copy_back(out@, dist as int, (len - c) as nat),
                decreases len - c,
            {
                let v = out[out.len() - dist];
                out.push(v);
                c = c + 1;
                assert(out@.subrange(0, before.len() as int) =~= before);
            }
            assert(out@ == copy_back(before, dist as int, len as nat));
        } else {
            return Err(ApkError::InvalidZipFormat);
        }
        assert(out@.subrange(0, start_len as int) =~= start_out) by {
            assert(out@.subrange(0, before.len() as int) == before);
            assert(before.subrange(0, start_len as int) == start_out);
        }
        if out.len() > expected {
            return Err(ApkError::CorruptedEntry("deflate output exceeds declared size".to_string()));
        }
    }
}

/// The code lengths of the fixed literal/length code.
/// The code lengths of the fixed literal/length code: 8 for 0..143, 9 for 144..255, 7 for
/// 256..279, 8 for 280..287.
pub open spec fn fixed_lit_lengths() -> Seq<u8> {
    Seq::new(288, |i: int| if i <= 143 { 8u8 } else if i <= 255 { 9u8 } else if i <= 279 { 7u8 } else { 8u8 })
}

fn fixed_lengths() -> (r: Vec<u8>)
    ensures
        r@.len() == 288,
        r@ == fixed_lit_lengths(),
{
    let mut x: Vec<u8> = Vec::new();
    let mut i: usize = 0;
    while i < 288
        invariant
            0 <= i <= 288,
            x@.len() == i,
            forall|j: int| 0 <= j < i ==> x@[j] == fixed_lit_lengths()[j],
        decreases 288 - i,
    {
        let l: u8 = if i <= 143 { 8 } else if i <= 255 { 9 } else if i <= 279 { 7 } else { 8 };
        x.push(l);
        i = i + 1;
    }
    assert(x@ =~= fixed_lit_lengths());
    x
}

/// The order in which a dynamic block lists the code lengths of the code-length code.
pub open spec fn cl_order() -> Seq<usize> {
    seq![16usize, 17, 18, 0, 8, 7, 9, 6, 10, 5, 11, 4, 12, 3, 13, 2, 14, 1, 15]
}

/// The 19 code lengths of the code-length code after reading the first `i` of them, three bits
/// each from bit `pos`, in `cl_order`; the others are zero.
pub open spec fn cl_lengths(b: Seq<u8>, pos: int, i: int) -> Seq<u8>
    decreases i,
{
    if i <= 0 {
        Seq::new(19, |j: int| 0u8)
    } else {
        cl_lengths(b, pos, i - 1).update(cl_order()[i - 1] as int, bits_at(b, pos + 3 * (i - 1), 3) as u8)
    }
}

/// Reading code lengths with the code-length code `ch` from bit `pos`, after `all`, until there
/// are at least `total`: a length 0..15 as it is, 16 repeating the previous length 3..6 times,
/// 17 and 18 giving 3..10 and 11..138 zeros. The position after them and the lengths, or None
/// for a bad symbol, a repeat with nothing before it, or the end of the stream.
pub open spec fn lengths_from(b: Seq<u8>, ch: Seq<(u32, u8, u16)>, pos: int, all: Seq<u8>, total: int)
    -> Option<(int, Seq<u8>)>
    decreases 8 * b.len() - pos,
{
    if all.len() >= total {
        Some((pos, all))
    } else {
        match decode_sym(b, ch, pos) {
            None => None,
            Some((s, q)) => {
                proof {
                    lemma_sym_advances(b, ch, pos, 1);
                }
                if s <= 15 {
                    lengths_from(b, ch, q, all.push(s as u8), total)
                } else if s == 16 {
                    if all.len() == 0 || q + 2 > 8 * b.len() {
                        None
                    } else {
                        lengths_from(b, ch, q + 2, all + Seq::new((bits_at(b, q, 2) + 3) as nat, |j: int| all.last()), total)
                    }
                } else if s == 17 {
                    if q + 3 > 8 * b.len() {
                        None
                    } else {
                        lengths_from(b, ch, q + 3, all + Seq::new((bits_at(b, q, 3) + 3) as nat, |j: int| 0u8), total)
                    }
                } else if s == 18 {
                    if q + 7 > 8 * b.len() {
                        None
                    } else {
                        lengths_from(b, ch, q + 7, all + Seq::new((bits_at(b, q, 7) + 11) as nat, |j: int| 0u8), total)
                    }
                } else {
                    None
                }
            },
        }
    }
}

/// The header of a dynamic block at bit `pos`: the position after it and the code lengths of
/// its literal/length and distance codes; None when it is malformed or cut short.
pub open spec fn dyn_codes(b: Seq<u8>, pos: int) -> Option<(int, Seq<u8>, Seq<u8>)> {
    if pos + 14 > 8 * b.len() {
        None
    } else {
        let nl = bits_at(b, pos, 5) + 257;
        let nd = bits_at(b, pos + 5, 5) + 1;
        let nc = bits_at(b, pos + 10, 4) + 4;
        if pos + 14 + 3 * nc > 8 * b.len() {
            None
        } else {
            let ch = canonical_codes(cl_lengths(b, pos + 14, nc), 19);
            match lengths_from(b, ch, pos + 14 + 3 * nc, seq![], nl + nd) {
                None => None,
                Some((q, all)) => if all.len() != nl + nd {
                    None
                } else {
                    Some((q, all.subrange(0, nl), all.subrange(nl, nl + nd)))
                },
            }
        }
    }
}

/// Reads the code-length code and the literal/length and distance code lengths of a dynamic
/// block, and builds both codes.
#[verifier::spinoff_prover]
#[verifier::rlimit(60)]
fn dynamic_codes(bits: &mut Bits) -> (r: Result<(Huff, Huff), ApkError>)
    requires
        old(bits).wf(),
    ensures
        final(bits).wf(),
        final(bits).b@ == old(bits).b@,
        final(bits).remaining() <= old(bits).remaining(),
        match dyn_codes(old(bits).b@, old(bits).pos()) {
            Some((q, ll, dl)) => r matches Ok((lh, dh)) && final(bits).pos() == q
                && lh.codes@ == canonical_codes(ll, ll.len() as int)
                && dh.codes@ == canonical_codes(dl, dl.len() as int),
            None => r == Err::<(Huff, Huff), ApkError>(ApkError::InvalidZipFormat),
        },
{
    proof {
        lemma2_to64();
    }
    let ghost bs = bits.b@;
    let ghost pos = bits.pos();
    let nl = match bits.get(5) {
        Ok(v) => v as usize + 257,
        Err(e) => return Err(e),
    };
    let nd = match bits.get(5) {
        Ok(v) => v as usize + 1,
        Err(e) => return Err(e),
    };
    let nc = match bits.get(4) {
        Ok(v) => v as usize + 4,
        Err(e) => return Err(e),
    };
    proof {
        lemma2_to64();
        lemma_bits_bound(bs, pos, 5);
        lemma_bits_bound(bs, pos + 5, 5);
        lemma_bits_bound(bs, pos + 10, 4);
    }
    assert(nl == bits_at(bs, pos, 5) + 257);
    assert(nd == bits_at(bs, pos + 5, 5) + 1);
    assert(nc == bits_at(bs, pos + 10, 4) + 4);
    let order: [usize; 19] = [16, 17, 18, 0, 8, 7, 9, 6, 10, 5, 11, 4, 12, 3, 13, 2, 14, 1, 15];
    assert(order@ =~= cl_order());
    let mut cl: Vec<u8> = vec![0u8; 19];
    assert(cl@ =~= cl_lengths(bs, pos + 14, 0));
    let mut i: usize = 0;
    while i < nc
        invariant
            0 <= i <= nc,
            nc <= 19,
            nc == bits_at(bs, pos + 10, 4) + 4,
            cl@.len() == 19,
            order@.len() == 19,
            order@ == cl_order(),
            forall|j: int| 0 <= j < 19 ==> #[trigger] order@[j] < 19,
            forall|j: int| 0 <= j < 19 ==> #[trigger] cl@[j] <= 7,
            cl@ == cl_lengths(bs, pos + 14, i as int),
            bits.wf(),
            bits.b@ == old(bits).b@,
            bs == old(bits).b@,
            pos == old(bits).pos(),
            pos + 14 <= 8 * bs.len(),
            bits.pos() == pos + 14 + 3 * i,
            bits.remaining() <= old(bits).remaining(),
        decreases nc - i,
    {
        let v = match bits.get(3) {
            Ok(v) => v as u8,
            Err(e) => {
                assert(dyn_codes(bs, pos) is None);
                return Err(e);
            },
        };
        proof {
            lemma_bits_bound(bs, pos + 14 + 3 * i, 3);
            lemma2_to64();
        }
        cl.set(order[i], v);
        i = i + 1;
        assert(cl@ =~= cl_lengths(bs, pos + 14, i as int));
    }
    let ch = match huff(cl.as_slice()) {
        Ok(h) => h,
        Err(e) => return Err(e),
    };
    let total = nl + nd;
    let ghost start = bits.pos();
    let mut all: Vec<u8> = Vec::new();
    let ghost goal = lengths_from(bs, ch.codes@, start, seq![], total as int);
    assert(all@ =~= seq![]);
    while all.len() < total
        invariant
            bits.wf(),
            bits.b@ == old(bits).b@,
            bs == old(bits).b@,
            bits.remaining() <= old(bits).remaining(),
            total == nl + nd,
            nl <= 288,
            nd <= 32,
            all@.len() <= total + 138,
            forall|j: int| 0 <= j < all@.len() ==> #[trigger] all@[j] <= 15,
            goal == lengths_from(bs, ch.codes@, bits.pos(), all@, total as int),
            pos == old(bits).pos(),
            nl == bits_at(bs, pos, 5) + 257,
            nd == bits_at(bs, pos + 5, 5) + 1,
            pos + 14 <= 8 * bs.len(),
            start == pos + 14 + 3 * (bits_at(bs, pos + 10, 4) + 4),
            start <= 8 * bs.len(),
            ch.codes@ == canonical_codes(cl_lengths(bs, pos + 14, bits_at(bs, pos + 10, 4) + 4), 19),
            goal == lengths_from(bs, ch.codes@, start, seq![], total as int),
        decreases bits.remaining(),
    {
        proof {
            lemma2_to64();
            lemma_sym_advances(bs, ch.codes@, bits.pos(), 1);
        }
        let s = match sym(bits, &ch) {
            Ok(s) => s,
            Err(e) => {
                assert(goal is None);
                return Err(e);
            },
        };
        let ghost q = bits.pos();
        let ghost before = all@;
        if s <= 15 {
            all.push(s as u8);
        } else if s == 16 {
            if all.len() == 0 {
                return Err(ApkError::InvalidZipFormat);
            }
            let v = all[all.len() - 1];
            let rep = match bits.get(2) {
                Ok(r) => r + 3,
                Err(e) => return Err(e),
            };
            proof {
                lemma_bits_bound(bs, q, 2);
            }
            let mut k: u32 = 0;
            while k < rep
                invariant
                    0 <= k <= rep,
                    rep <= 6,
                    all@.len() < total + k,
                    all@ == before + Seq::new(k as nat, |j: int| v),
                    v <= 15,
                    forall|j: int| 0 <= j < all@.len() ==> #[trigger] all@[j] <= 15,
                    bits.wf(),
                    bits.b@ == old(bits).b@,
                    bits.remaining() <= old(bits).remaining(),
                    total == nl + nd,
                    nl <= 288,
                    nd <= 32,
                decreases rep - k,
            {
                all.push(v);
                k = k + 1;
                assert(all@ =~= before + Seq::new(k as nat, |j: int| v));
            }
            assert(before.last() == v);
            assert(all@ =~= before + Seq::new((bits_at(bs, q, 2) + 3) as nat, |j: int| before.last()));
        } else if s == 17 || s == 18 {
            let rep = if s == 17 {
                match bits.get(3) {
                    Ok(r) => r + 3,
                    Err(e) => return Err(e),
                }
            } else {
                match bits.get(7) {
                    Ok(r) => r + 11,
                    Err(e) => return Err(e),
                }
            };
            proof {
                lemma_bits_bound(bs, q, 3);
                lemma_bits_bound(bs, q, 7);
            }
            let mut k: u32 = 0;
            while k < rep
                invariant
                    0 <= k <= rep,
                    rep <= 138,
                    all@.len() < total + k,
                    all@ == before + Seq::new(k as nat, |j: int| 0u8),
                    forall|j: int| 0 <= j < all@.len() ==> #[trigger] all@[j] <= 15,
                    bits.wf(),
                    bits.b@ == old(bits).b@,
                    bits.remaining() <= old(bits).remaining(),
                    total == nl + nd,
                    nl <= 288,
                    nd <= 32,
                decreases rep - k,
            {
                all.push(0);
                k = k + 1;
                assert(all@ =~= before + Seq::new(k as nat, |j: int| 0u8));
            }
        } else {
            return Err(ApkError::InvalidZipFormat);
        }
    }
    assert(goal == Some((bits.pos(), all@)));
    if all.len() != total {
        return Err(ApkError::InvalidZipFormat);
    }
    let lits = &all.as_slice()[0..nl];
    let dists = &all.as_slice()[nl..total];
    assert(lits@ == all@.subrange(0, nl as int));
    assert(dists@ == all@.subrange(nl as int, total as int));
    let lh = match huff(lits) {
        Ok(h) => h,
        Err(e) => return Err(e),
    };
    let dh = match huff(dists) {
        Ok(h) => h,
        Err(e) => return Err(e),
    };
    Ok((lh, dh))
}

/// Why a DEFLATE stream is refused: it is malformed, its output grows past the declared size,
/// or it ends with another size.
pub enum DeflateFault {
    Invalid,
    Overlong,
    SizeMismatch,
}

/// Whether `e` is the error that reports `f`.
pub open spec fn reports(e: ApkError, f: DeflateFault) -> bool {
    match f {
        DeflateFault::Invalid => e is InvalidZipFormat,
        DeflateFault::Overlong => e matches ApkError::CorruptedEntry(m) && m@ == "deflate output exceeds declared size"@,
        DeflateFault::SizeMismatch => e matches ApkError::CorruptedEntry(m) && m@ == "deflate output size mismatch"@,
    }
}

/// A stored block whose header ends at bit `pos`: from the next byte boundary, its length and
/// that length's complement (16 bits each), then that many bytes, appended to `out`. The
/// position after it and the output.
pub open spec fn stored_block(b: Seq<u8>, pos: int, out: Seq<u8>) -> Result<(int, Seq<u8>), DeflateFault> {
    let a = 8 * ((pos + 7) / 8);
    if a + 32 > 8 * b.len() {
        Err(DeflateFault::Invalid)
    } else {
        let n = bits_at(b, a, 16);
        let inv = bits_at(b, a + 16, 16);
        let start = (a + 32) / 8;
        if (n as u16) ^ (inv as u16) != 0xffffu16 || start + n > b.len() {
            Err(DeflateFault::Invalid)
        } else {
            Ok((8 * (start + n), out + b.subrange(start, start + n)))
        }
    }
}

/// A Huffman block with codes `lc` and `dc` from bit `pos`, as `block_from` decodes it.
pub open spec fn huffman_block(b: Seq<u8>, lc: Seq<(u32, u8, u16)>, dc: Seq<(u32, u8, u16)>, pos: int, out: Seq<u8>, expected: int)
    -> Result<(int, Seq<u8>), DeflateFault>
{
    match block_from(b, lc, dc, pos, out, expected) {
        Ok(x) => Ok(x),
        Err(true) => Err(DeflateFault::Overlong),
        Err(false) => Err(DeflateFault::Invalid),
    }
}

/// The body of a block of type `kind` whose header ends at bit `pos`: stored, fixed Huffman
/// (codes `fl` and `fd`) or dynamic Huffman.
#[verifier::opaque]
pub open spec fn block_body(b: Seq<u8>, fl: Seq<(u32, u8, u16)>, fd: Seq<(u32, u8, u16)>, kind: int, pos: int, out: Seq<u8>, expected: int)
    -> Result<(int, Seq<u8>), DeflateFault>
{
    if kind == 0 {
        stored_block(b, pos, out)
    } else if kind == 1 {
        huffman_block(b, fl, fd, pos, out, expected)
    } else if kind == 2 {
        match dyn_codes(b, pos) {
            None => Err(DeflateFault::Invalid),
            Some((q, ll, dl)) => huffman_block(b, canonical_codes(ll, ll.len() as int), canonical_codes(dl, dl.len() as int), q, out, expected),
        }
    } else {
        Err(DeflateFault::Invalid)
    }
}

/// The block at bit `pos`: a bit that marks the last block, two bits of type, then its body.
#[verifier::opaque]
pub open spec fn one_block(b: Seq<u8>, fl: Seq<(u32, u8, u16)>, fd: Seq<(u32, u8, u16)>, pos: int, out: Seq<u8>, expected: int)
    -> Result<(int, Seq<u8>), DeflateFault>
{
    block_body(b, fl, fd, bits_at(b, pos + 1, 2), pos + 3, out, expected)
}

/// Decoding the blocks from bit `pos` on, with `out` decoded so far, through the one marked
/// last; the output must then have `expected` bytes.
pub open spec fn blocks_from(b: Seq<u8>, fl: Seq<(u32, u8, u16)>, fd: Seq<(u32, u8, u16)>, pos: int, out: Seq<u8>, expected: int)
    -> Result<Seq<u8>, DeflateFault>
    decreases 8 * b.len() - pos,
{
    if pos < 0 || pos + 3 > 8 * b.len() {
        Err(DeflateFault::Invalid)
    } else {
        match one_block(b, fl, fd, pos, out, expected) {
            Err(f) => Err(f),
            Ok((q, o)) => if bits_at(b, pos, 1) != 0 {
                if o.len() == expected { Ok(o) } else { Err(DeflateFault::SizeMismatch) }
            } else if q <= pos || q > 8 * b.len() {
                Err(DeflateFault::Invalid)
            } else {
                blocks_from(b, fl, fd, q, o, expected)
            },
        }
    }
}

/// The output of the DEFLATE stream `b`, which must be `expected` bytes.
pub open spec fn spec_inflate(b: Seq<u8>, expected: int) -> Result<Seq<u8>, DeflateFault> {
    blocks_from(b, canonical_codes(fixed_lit_lengths(), 288), canonical_codes(Seq::new(32, |i: int| 5u8), 32), 0, seq![], expected)
}

/// An empty stream, or one whose first block has the reserved type 3 (bits 1 and 2 of the
/// first byte both set), is malformed.
pub proof fn lemma_inflate_rejects_empty_or_reserved(b: Seq<u8>, expected: int)
    requires
        b.len() == 0 || b[0] % 8 >= 6,
    ensures
        spec_inflate(b, expected) == Err::<Seq<u8>, DeflateFault>(DeflateFault::Invalid),
{
    if b.len() > 0 {
        lemma2_to64();
        let x = b[0] as int;
        assert(stream_bit(b, 1) == (x / 2) % 2);
        assert(stream_bit(b, 2) == (x / 4) % 2);
        assert((x / 2) % 2 == 1 && (x / 4) % 2 == 1) by (nonlinear_arith)
            requires
                0 <= x < 256,
                x % 8 >= 6,
        ;
        assert(bits_at(b, 3, 0) == 0);
        assert(bits_at(b, 2, 1) == stream_bit(b, 2));
        assert(bits_at(b, 1, 2) == 3);
        reveal(one_block);
        reveal(block_body);
    }
}

/// A back-reference reaching further back than the output decoded so far makes the block
/// malformed.
pub proof fn lemma_distance_past_output(b: Seq<u8>, lc: Seq<(u32, u8, u16)>, dc: Seq<(u32, u8, u16)>, pos: int,
    out: Seq<u8>, expected: int, s: u16, q: int, ds: u16, q2: int)
    requires
        decode_sym(b, lc, pos) == Some((s, q)),
        257 <= s <= 285,
        q + len_extra_bits()[s - 257] <= 8 * b.len(),
        decode_sym(b, dc, q + len_extra_bits()[s - 257]) == Some((ds, q2)),
        ds < 30,
        dist_bases()[ds as int] + bits_at(b, q2, dist_extra_bits()[ds as int] as nat) > out.len(),
    ensures
        block_from(b, lc, dc, pos, out, expected) == Err::<(int, Seq<u8>), bool>(false),
{
}

/// Copies a stored block whose header ends at the reader's position into `out`.
#[verifier::spinoff_prover]
#[verifier::rlimit(40)]
fn stored(bits: &mut Bits, out: &mut Vec<u8>) -> (r: Result<(), ApkError>)
    requires
        old(bits).wf(),
    ensures
        final(bits).wf(),
        final(bits).b@ == old(bits).b@,
        final(bits).remaining() <= old(bits).remaining(),
        match stored_block(old(bits).b@, old(bits).pos(), old(out)@) {
            Ok((q, o)) => r is Ok && final(bits).pos() == q && final(out)@ == o,
            Err(f) => r matches Err(e) && reports(e, f),
        },
{
    let ghost bs = bits.b@;
    let ghost before = out@;
    bits.align();
    let ghost a = bits.pos();
    let n = match bits.get(16) {
        Ok(v) => v as usize,
        Err(e) => return Err(e),
    };
    let inverse = match bits.get(16) {
        Ok(v) => v as u16,
        Err(e) => return Err(e),
    };
    proof {
        lemma_bits_bound(bs, a, 16);
        lemma_bits_bound(bs, a + 16, 16);
        lemma2_to64();
    }
    assert(n == bits_at(bs, a, 16));
    assert(inverse == bits_at(bs, a + 16, 16) as u16);
    if (n as u16) ^ inverse != 0xffff {
        return Err(ApkError::InvalidZipFormat);
    }
    assert(bits.pos() == a + 32);
    assert(bits.n == 0);
    let start = bits.p;
    assert(start == (a + 32) / 8);
    let blen = bits.b.len();
    if start > usize::MAX - n || start + n > blen {
        return Err(ApkError::InvalidZipFormat);
    }
    let end = start + n;
    let mut j = start;
    while j < end
        invariant
            start <= j <= end,
            end <= bs.len(),
            bs == bits.b@,
            out@ == before + bs.subrange(start as int, j as int),
        decreases end - j,
    {
        out.push(bits.b[j]);
        j = j + 1;
        assert(out@ =~= before + bs.subrange(start as int, j as int));
    }
    bits.p = end;
    bits.align();
    Ok(())
}

/// Decodes the body of a block of type `kind` into `out`.
#[verifier::spinoff_prover]
#[verifier::rlimit(40)]
fn block(bits: &mut Bits, out: &mut Vec<u8>, kind: u32, fixed_lit: &Huff, fixed_dist: &Huff, expected: usize) -> (r: Result<(), ApkError>)
    requires
        old(bits).wf(),
    ensures
        final(bits).wf(),
        final(bits).b@ == old(bits).b@,
        final(bits).remaining() <= old(bits).remaining(),
        match block_body(old(bits).b@, fixed_lit.codes@, fixed_dist.codes@, kind as int, old(bits).pos(), old(out)@, expected as int) {
            Ok((q, o)) => r is Ok && final(bits).pos() == q && final(out)@ == o,
            Err(f) => r matches Err(e) && reports(e, f),
        },
{
    proof {
        reveal(block_body);
    }
    if kind == 0 {
        stored(bits, out)
    } else if kind == 1 {
        decode_block(bits, out, fixed_lit, fixed_dist, expected)
    } else if kind == 2 {
        let (lh, dh) = match dynamic_codes(bits) {
            Ok(c) => c,
            Err(e) => return Err(e),
        };
        decode_block(bits, out, &lh, &dh, expected)
    } else {
        Err(ApkError::InvalidZipFormat)
    }
}

/// Decompresses a DEFLATE stream whose output must be exactly `expected` bytes.
#[verifier::spinoff_prover]
#[verifier::rlimit(40)]
pub fn inflate(input: &[u8], expected: usize) -> (r: Result<Vec<u8>, ApkError>)
    ensures
        match spec_inflate(input@, expected as int) {
            Ok(o) => r matches Ok(out) && out@ == o,
            Err(f) => r matches Err(e) && reports(e, f),
        },
        r matches Ok(out) ==> out@.len() == expected,
{
    let mut bits = Bits::new(input);
    let mut out: Vec<u8> = Vec::new();
    let fixed_l = fixed_lengths();
    let fixed_lit = match huff(fixed_l.as_slice()) {
        Ok(h) => h,
        Err(e) => return Err(e),
    };
    let fives: Vec<u8> = vec![5u8; 32];
    assert(fives@ =~= Seq::new(32, |i: int| 5u8));
    let fixed_dist = match huff(fives.as_slice()) {
        Ok(h) => h,
        Err(e) => return Err(e),
    };
    let ghost bs = input@;
    let ghost goal = spec_inflate(bs, expected as int);
    assert(bits.pos() == 0);
    assert(out@ =~= seq![]);
    let ghost fl = fixed_lit.codes@;
    let ghost fd = fixed_dist.codes@;
    loop
        invariant_except_break
            bits.wf(),
            bits.b@ == input@,
            bs == input@,
            fl == fixed_lit.codes@,
            fd == fixed_dist.codes@,
            goal == spec_inflate(bs, expected as int),
            goal == blocks_from(bs, fl, fd, bits.pos(), out@, expected as int),
        ensures
            goal == (if out@.len() == expected { Ok::<Seq<u8>, DeflateFault>(out@) } else { Err(DeflateFault::SizeMismatch) }),
        decreases bits.remaining(),
    {
        let ghost pos = bits.pos();
        let ghost before = out@;
        let last = match bits.get(1) {
            Ok(b) => b != 0,
            Err(e) => return Err(e),
        };
        let kind = match bits.get(2) {
            Ok(k) => k,
            Err(e) => return Err(e),
        };
        proof {
            lemma_bits_bound(bs, pos, 1);
            lemma_bits_bound(bs, pos + 1, 2);
            lemma2_to64();
        }
        assert(kind == bits_at(bs, pos + 1, 2));
        assert(last == (bits_at(bs, pos, 1) != 0));
        assert(one_block(bs, fl, fd, pos, before, expected as int)
            == block_body(bs, fl, fd, kind as int, pos + 3, before, expected as int)) by {
            reveal(one_block);
        }
        match block(&mut bits, &mut out, kind, &fixed_lit, &fixed_dist, expected) {
            Ok(()) => {},
            Err(e) => return Err(e),
        }
        if last {
            break;
        }
    }
    if out.len() != expected {
        return Err(ApkError::CorruptedEntry("deflate output size mismatch".to_string()));
    }
    Ok(out)
}

} // verus!
