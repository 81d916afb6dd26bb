//! Little-endian integers and length-prefixed byte strings, as the archive
//! stores them.

use crate::error::Error;
use vstd::prelude::*;
use vstd::slice::slice_subrange;
use vstd::slice::slice_to_vec;

verus! {

/// The value of the first four bytes of `s`, least significant first.
pub open spec fn le_u32(s: Seq<u8>) -> u32
    recommends
        s.len() >= 4,
{
    (s[0] as int + s[1] as int * 0x100 + s[2] as int * 0x1_0000 + s[3] as int * 0x100_0000) as u32
}

/// The four bytes of `x`, least significant first.
pub open spec fn u32_le(x: u32) -> Seq<u8> {
    seq![
        (x % 0x100) as u8,
        (x / 0x100 % 0x100) as u8,
        (x / 0x1_0000 % 0x100) as u8,
        (x / 0x100_0000) as u8,
    ]
}

/// The value of the first eight bytes of `s`, least significant first.
pub open spec fn le_u64(s: Seq<u8>) -> u64
    recommends
        s.len() >= 8,
{
    (le_u32(s) as int + le_u32(s.skip(4)) as int * 0x1_0000_0000) as u64
}

/// The eight bytes of `x`, least significant first.
pub open spec fn u64_le(x: u64) -> Seq<u8> {
    u32_le((x % 0x1_0000_0000) as u32) + u32_le((x / 0x1_0000_0000) as u32)
}

/// Decoding the encoding of a number gives the number back.
pub proof fn lemma_le_u32_of_u32_le(x: u32)
    ensures
        u32_le(x).len() == 4,
        le_u32(u32_le(x)) == x,
{
    assert(x == x % 0x100 + (x / 0x100 % 0x100) * 0x100 + (x / 0x1_0000 % 0x100) * 0x1_0000 + (x
        / 0x100_0000) * 0x100_0000 && x / 0x100_0000 < 0x100) by (bit_vector);
}

proof fn lemma_digits(a: u32, b: u32, c: u32, d: u32)
    by (bit_vector)
    requires
        a < 0x100,
        b < 0x100,
        c < 0x100,
        d < 0x100,
    ensures
        ({
            let x = (a + b * 0x100 + c * 0x1_0000 + d * 0x100_0000) as u32;
            &&& x == a + b * 0x100 + c * 0x1_0000 + d * 0x100_0000
            &&& x % 0x100 == a
            &&& x / 0x100 % 0x100 == b
            &&& x / 0x1_0000 % 0x100 == c
            &&& x / 0x100_0000 == d
        }),
{
}

/// Encoding the number decoded from four bytes gives the bytes back.
pub proof fn lemma_u32_le_of_le_u32(s: Seq<u8>)
    requires
        s.len() == 4,
    ensures
        u32_le(le_u32(s)) == s,
{
    lemma_digits(s[0] as u32, s[1] as u32, s[2] as u32, s[3] as u32);
    assert(u32_le(le_u32(s)) =~= s);
}

/// Decoding the encoding of a 64-bit number gives the number back.
pub proof fn lemma_le_u64_of_u64_le(x: u64)
    ensures
        u64_le(x).len() == 8,
        le_u64(u64_le(x)) == x,
{
    let lo = (x % 0x1_0000_0000) as u32;
    let hi = (x / 0x1_0000_0000) as u32;
    lemma_le_u32_of_u32_le(lo);
    lemma_le_u32_of_u32_le(hi);
    assert(u64_le(x).skip(4) =~= u32_le(hi));
    assert(le_u32(u64_le(x)) == le_u32(u32_le(lo)));
}

/// The bytes of a sequence of 32-bit words, each least significant byte
/// first.
pub open spec fn words_le(ws: Seq<u32>) -> Seq<u8>
    decreases ws.len(),
{
    if ws.len() == 0 {
        Seq::empty()
    } else {
        words_le(ws.drop_last()) + u32_le(ws.last())
    }
}

/// The `i`-th 32-bit word of `s`.
pub open spec fn word_at(s: Seq<u8>, i: int) -> u32
    recommends
        0 <= i,
        4 * i + 4 <= s.len(),
{
    le_u32(s.subrange(4 * i, 4 * i + 4))
}

/// The first `n` 32-bit words of `s`.
pub open spec fn le_words(s: Seq<u8>, n: nat) -> Seq<u32>
    recommends
        4 * n <= s.len(),
{
    Seq::new(n, |i: int| word_at(s, i))
}

/// The bytes of `ws` are four to a word, and each word can be read back at
/// its place.
pub proof fn lemma_words_le(ws: Seq<u32>)
    ensures
        words_le(ws).len() == 4 * ws.len(),
        forall|i: int| 0 <= i < ws.len() ==> #[trigger] word_at(words_le(ws), i) == ws[i],
    decreases ws.len(),
{
    if ws.len() > 0 {
        let front = ws.drop_last();
        lemma_words_le(front);
        lemma_le_u32_of_u32_le(ws.last());
        let all = words_le(ws);
        assert forall|i: int| 0 <= i < ws.len() implies #[trigger] word_at(all, i) == ws[i] by {
            if i < front.len() {
                assert(all.subrange(4 * i, 4 * i + 4) =~= words_le(front).subrange(
                    4 * i,
                    4 * i + 4,
                ));
                assert(word_at(words_le(front), i) == front[i]);
            } else {
                assert(all.subrange(4 * i, 4 * i + 4) =~= u32_le(ws.last()));
            }
        }
    }
}

/// The bytes of two runs of words, one after the other.
pub proof fn lemma_words_le_concat(a: Seq<u32>, b: Seq<u32>)
    ensures
        words_le(a + b) == words_le(a) + words_le(b),
    decreases b.len(),
{
    if b.len() == 0 {
        assert(a + b =~= a);
        assert(words_le(a) + words_le(b) =~= words_le(a));
    } else {
        lemma_words_le_concat(a, b.drop_last());
        assert((a + b).drop_last() =~= a + b.drop_last());
        assert((a + b).last() == b.last());
        assert(words_le(a + b) =~= words_le(a) + words_le(b));
    }
}

/// Reading `n` words out of `4 * n` bytes and writing them again gives the
/// bytes back.
pub proof fn lemma_words_le_of_le_words(s: Seq<u8>, n: nat)
    requires
        s.len() == 4 * n,
    ensures
        words_le(le_words(s, n)) == s,
    decreases n,
{
    if n == 0 {
        assert(words_le(le_words(s, n)) =~= s);
    } else {
        let front = s.take(4 * (n - 1));
        lemma_words_le_of_le_words(front, (n - 1) as nat);
        assert(le_words(s, n).drop_last() =~= le_words(front, (n - 1) as nat)) by {
            assert forall|i: int| 0 <= i < n - 1 implies word_at(s, i) == word_at(front, i) by {
                assert(s.subrange(4 * i, 4 * i + 4) =~= front.subrange(4 * i, 4 * i + 4));
            }
        }
        lemma_u32_le_of_le_u32(s.subrange(4 * (n - 1), 4 * (n - 1) + 4));
        assert(words_le(le_words(s, n)) =~= s);
    }
}

/// Reads the 32-bit little-endian number that starts at `pos`.
pub fn read_u32_le(data: &[u8], pos: usize) -> (r: u32)
    requires
        pos + 4 <= data@.len(),
    ensures
        r == le_u32(data@.subrange(pos as int, pos + 4)),
{
    let b0: u32 = data[pos] as u32;
    let b1: u32 = data[pos + 1] as u32;
    let b2: u32 = data[pos + 2] as u32;
    let b3: u32 = data[pos + 3] as u32;
    b0 + b1 * 0x100 + b2 * 0x1_0000 + b3 * 0x100_0000
}

/// Reads the 64-bit little-endian number that starts at `pos`.
pub fn read_u64_le(data: &[u8], pos: usize) -> (r: u64)
    requires
        pos + 8 <= data@.len(),
    ensures
        r == le_u64(data@.subrange(pos as int, pos + 8)),
{
    let total = data.len();
    assert(pos + 8 <= total);
    let lo: u64 = read_u32_le(data, pos) as u64;
    let hi: u64 = read_u32_le(data, pos + 4) as u64;
    proof {
        let s = data@.subrange(pos as int, pos + 8);
        assert(s.subrange(0, 4) =~= data@.subrange(pos as int, pos + 4));
        assert(s.skip(4).subrange(0, 4) =~= data@.subrange(pos + 4, pos + 8));
        assert(le_u32(s) == le_u32(s.subrange(0, 4)));
        assert(le_u32(s.skip(4)) == le_u32(s.skip(4).subrange(0, 4)));
    }
    lo + hi * 0x1_0000_0000
}

/// Appends the four bytes of `x`, least significant first.
pub fn write_u32_le(out: &mut Vec<u8>, x: u32)
    ensures
        final(out)@ == old(out)@ + u32_le(x),
{
    out.push((x % 0x100) as u8);
    out.push((x / 0x100 % 0x100) as u8);
    out.push((x / 0x1_0000 % 0x100) as u8);
    out.push((x / 0x100_0000) as u8);
    assert(out@ =~= old(out)@ + u32_le(x));
}

/// Appends the eight bytes of `x`, least significant first.
pub fn write_u64_le(out: &mut Vec<u8>, x: u64)
    ensures
        final(out)@ == old(out)@ + u64_le(x),
{
    write_u32_le(out, (x % 0x1_0000_0000) as u32);
    write_u32_le(out, (x / 0x1_0000_0000) as u32);
    assert(out@ =~= old(out)@ + u64_le(x));
}

/// A byte string that is stored behind its 32-bit length.
#[derive(Debug, Clone, PartialEq, Eq)]
pub struct LengthString {
    pub inner: Vec<u8>,
}

/// The stored form of a length-prefixed byte string: the length, then the
/// bytes.
pub open spec fn length_string_bytes(inner: Seq<u8>) -> Seq<u8>
    recommends
        inner.len() <= u32::MAX,
{
    u32_le(inner.len() as u32) + inner
}

/// What reading a length-prefixed byte string at the start of `s` gives: the
/// bytes and the number of bytes read, or `None` where `s` ends too soon.
pub open spec fn length_string_at(s: Seq<u8>) -> Option<(Seq<u8>, int)> {
    if s.len() < 4 {
        None
    } else if s.len() - 4 < le_u32(s) {
        None
    } else {
        Some((s.subrange(4, 4 + le_u32(s)), 4 + le_u32(s)))
    }
}

impl LengthString {
    /// Reads a length-prefixed byte string that starts at `*pos` and moves
    /// `*pos` behind it. Fails with `TruncatedInput`, leaving `*pos` alone,
    /// where the data ends before the string does.
    pub fn read(data: &[u8], pos: &mut usize) -> (r: Result<LengthString, Error>)
        requires
            *old(pos) <= data@.len(),
        ensures
            match length_string_at(data@.skip(*old(pos) as int)) {
                Some((bytes, used)) => r.is_ok() && r.unwrap().inner@ == bytes && *final(pos)
                    == *old(pos) + used,
                None => r == Err::<LengthString, Error>(Error::TruncatedInput) && *final(pos)
                    == *old(pos),
            },
    {
        let start: usize = *pos;
        let ghost rest = data@.skip(start as int);
        if data.len() - start < 4 {
            return Err(Error::TruncatedInput);
        }
        let len: u32 = read_u32_le(data, start);
        assert(data@.subrange(start as int, start + 4) =~= rest.subrange(0, 4));
        assert(le_u32(rest) == le_u32(rest.subrange(0, 4)));
        if data.len() - start - 4 < len as usize {
            return Err(Error::TruncatedInput);
        }
        let end: usize = start + 4 + len as usize;
        let inner = slice_to_vec(slice_subrange(data, start + 4, end));
        assert(inner@ =~= rest.subrange(4, 4 + len));
        *pos = end;
        Ok(LengthString { inner })
    }

    /// Appends the stored form of the string. Fails with `TooLarge`, leaving
    /// `out` alone, where the length does not fit in 32 bits.
    pub fn write(&self, out: &mut Vec<u8>) -> (r: Result<(), Error>)
        ensures
            self.inner@.len() <= u32::MAX ==> r.is_ok() && final(out)@ == old(out)@
                + length_string_bytes(self.inner@),
            self.inner@.len() > u32::MAX ==> r == Err::<(), Error>(Error::TooLarge) && final(out)@
                == old(out)@,
    {
        if self.inner.len() > u32::MAX as usize {
            return Err(Error::TooLarge);
        }
        write_u32_le(out, self.inner.len() as u32);
        out.extend_from_slice(self.inner.as_slice());
        assert(out@ =~= old(out)@ + length_string_bytes(self.inner@));
        Ok(())
    }
}

/// The order of the bytes of a stored number.
#[derive(Debug, Clone, Copy, PartialEq, Eq, Structural)]
pub enum Endian {
    /// The least significant byte first.
    Little,
    /// The most significant byte first.
    Big,
}

/// The type of the length that stands before a string.
#[derive(Debug, Clone, Copy, PartialEq, Eq, Structural)]
pub enum LengthPrefix {
    U8,
    U16,
    U32,
}

impl LengthPrefix {
    /// The number of bytes of the length.
    pub open spec fn width(self) -> int {
        match self {
            LengthPrefix::U8 => 1,
            LengthPrefix::U16 => 2,
            LengthPrefix::U32 => 4,
        }
    }
}

/// The value of the first `width` bytes of `s` in the byte order `endian`.
pub open spec fn number_at(s: Seq<u8>, width: int, endian: Endian) -> int
    recommends
        0 <= width <= s.len(),
    decreases width,
{
    if width <= 0 {
        0
    } else {
        match endian {
            Endian::Little => s[0] + 0x100 * number_at(s.skip(1), width - 1, endian),
            Endian::Big => number_at(s, width - 1, endian) * 0x100 + s[width - 1],
        }
    }
}

/// Reads the number of `width` bytes, at most 4, that starts at `pos`.
pub fn read_number(data: &[u8], pos: usize, width: usize, endian: Endian) -> (r: u32)
    requires
        width <= 4,
        pos + width <= data@.len(),
    ensures
        r == number_at(data@.skip(pos as int), width as int, endian),
{
    let total = data.len();
    let ghost s = data@.skip(pos as int);
    let mut value: u32 = 0;
    let mut i: usize = 0;
    match endian {
        Endian::Big => {
            while i < width
                invariant
                    i <= width <= 4,
                    total == data@.len(),
                    pos + width <= total,
                    s == data@.skip(pos as int),
                    value == number_at(s, i as int, Endian::Big),
                    value < pow256(i as int),
                decreases width - i,
            {
                value = value * 0x100 + data[pos + i] as u32;
                i += 1;
            }
        },
        Endian::Little => {
            while i < width
                invariant
                    i <= width <= 4,
                    total == data@.len(),
                    pos + width <= total,
                    s == data@.skip(pos as int),
                    value == number_at(s.skip(width - i), i as int, Endian::Little),
                    value < pow256(i as int),
                decreases width - i,
            {
                proof {
                    assert(s.skip(width - i - 1).skip(1) =~= s.skip(width - i));
                }
                value = data[pos + width - i - 1] as u32 + 0x100 * value;
                i += 1;
            }
            assert(s.skip(0) =~= s);
        },
    }
    value
}

/// 256 to the power of `i`, up to the fourth.
pub open spec fn pow256(i: int) -> int {
    if i <= 0 {
        1
    } else if i == 1 {
        0x100
    } else if i == 2 {
        0x1_0000
    } else if i == 3 {
        0x100_0000
    } else {
        0x1_0000_0000
    }
}

/// The `n` 16-bit code units that start at the start of `s`, each in the
/// byte order `endian`.
pub open spec fn units_at(s: Seq<u8>, n: int, endian: Endian) -> Seq<u16>
    recommends
        0 <= n,
        2 * n <= s.len(),
{
    Seq::new(n as nat, |i: int| number_at(s.skip(2 * i), 2, endian) as u16)
}

/// What reading a length-prefixed UTF-16 string at the start of `s` gives:
/// its code units and the number of bytes read, or `None` where `s` ends too
/// soon. The length counts bytes; half as many code units are read.
pub open spec fn utf16_string_at(s: Seq<u8>, prefix: LengthPrefix, endian: Endian) -> Option<
    (Seq<u16>, int),
> {
    if s.len() < prefix.width() {
        None
    } else {
        let units = number_at(s, prefix.width(), endian) / 2;
        if s.len() - prefix.width() < 2 * units {
            None
        } else {
            Some((units_at(s.skip(prefix.width()), units, endian), prefix.width() + 2 * units))
        }
    }
}

/// What `String::from_utf16_lossy` makes of `units`: the text that they
/// encode, with a replacement character for each unpaired surrogate.
pub uninterp spec fn utf16_lossy(units: Seq<u16>) -> Seq<char>;

/// `String::from_utf16_lossy`: the text that `units` encode.
#[verifier::external_body]
fn from_utf16_lossy(units: &[u16]) -> (s: String)
    ensures
        s@ == utf16_lossy(units@),
{
    String::from_utf16_lossy(units)
}

/// Reads the code units of a length-prefixed UTF-16 string that starts at
/// `*pos` and moves `*pos` behind them. Fails with `TruncatedInput`, leaving
/// `*pos` alone, where the data ends before the string does.
pub fn read_utf16_units(data: &[u8], pos: &mut usize, prefix: LengthPrefix, endian: Endian) -> (r:
    Result<Vec<u16>, Error>)
    requires
        *old(pos) <= data@.len(),
    ensures
        match utf16_string_at(data@.skip(*old(pos) as int), prefix, endian) {
            Some((units, used)) => r.is_ok() && r.unwrap()@ == units && *final(pos) == *old(pos)
                + used,
            None => r == Err::<Vec<u16>, Error>(Error::TruncatedInput) && *final(pos) == *old(pos),
        },
{
    let total = data.len();
    let start: usize = *pos;
    let ghost s = data@.skip(start as int);
    let width: usize = match prefix {
        LengthPrefix::U8 => 1,
        LengthPrefix::U16 => 2,
        LengthPrefix::U32 => 4,
    };
    if total - start < width {
        return Err(Error::TruncatedInput);
    }
    let count: usize = (read_number(data, start, width, endian) / 2) as usize;
    let first: usize = start + width;
    if (total - first) / 2 < count {
        return Err(Error::TruncatedInput);
    }
    let ghost body = s.skip(width as int);
    assert(body =~= data@.skip(first as int));
    let mut units: Vec<u16> = Vec::new();
    let mut i: usize = 0;
    while i < count
        invariant
            i <= count,
            total == data@.len(),
            first + 2 * count <= total,
            body == data@.skip(first as int),
            units@ == units_at(body, i as int, endian),
        decreases count - i,
    {
        let unit = read_number(data, first + 2 * i, 2, endian);
        proof {
            assert(body.skip(2 * i) =~= data@.skip(first + 2 * i));
            lemma_number_at_bound(body.skip(2 * i), 2, endian);
        }
        units.push(unit as u16);
        i += 1;
        assert(units@ =~= units_at(body, i as int, endian));
    }
    *pos = first + 2 * count;
    Ok(units)
}

/// A number of `width` bytes is below 256 to the power of `width`.
pub proof fn lemma_number_at_bound(s: Seq<u8>, width: int, endian: Endian)
    requires
        0 <= width <= 4,
        width <= s.len(),
    ensures
        0 <= number_at(s, width, endian) < pow256(width),
    decreases width,
{
    if width > 0 {
        match endian {
            Endian::Little => lemma_number_at_bound(s.skip(1), width - 1, endian),
            Endian::Big => lemma_number_at_bound(s, width - 1, endian),
        }
    }
}

/// Reads a length-prefixed UTF-16 string that starts at `*pos` and moves
/// `*pos` behind it. Code units that are no text are replaced. Fails with
/// `TruncatedInput`, leaving `*pos` alone, where the data ends before the
/// string does.
pub fn read_utf16_string(data: &[u8], pos: &mut usize, prefix: LengthPrefix, endian: Endian) -> (r:
    Result<String, Error>)
    requires
        *old(pos) <= data@.len(),
    ensures
        match utf16_string_at(data@.skip(*old(pos) as int), prefix, endian) {
            Some((units, used)) => r.is_ok() && r.unwrap()@ == utf16_lossy(units) && *final(pos)
                == *old(pos) + used,
            None => r.is_err() && r.unwrap_err() == Error::TruncatedInput && *final(pos) == *old(
                pos,
            ),
        },
{
    let units = read_utf16_units(data, pos, prefix, endian)?;
    Ok(from_utf16_lossy(units.as_slice()))
}

} // verus!
