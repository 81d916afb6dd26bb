//! RefPack decoder.
//!
//! A stream is a short header followed by commands. Each command first copies
//! some literal bytes from the input and then repeats a run of bytes that the
//! decoder has already produced. The meaning of a stream is given by the spec
//! function [`decoded`]; the executable decoder is proved to compute it.

use byteorder::BigEndian;
use byteorder::ByteOrder;
use vstd::prelude::*;
use vstd::slice::slice_subrange;

verus! {

/// An error representing invalid compressed data.
#[derive(Debug, Clone, Copy, PartialEq, Eq, Structural)]
pub enum Error {
    /// Expected another byte, but none found.
    ExpectedAnotherByte,
    /// Deduplication offset out of bounds (not in buffer).
    OffsetOutOfBounds,
    /// The second byte of the stream is not `0xFB`.
    InvalidMagic,
}

impl Error {
    /// A short, fixed description of the error.
    pub fn description(&self) -> (s: &'static str)
        ensures
            s@ == match *self {
                Error::ExpectedAnotherByte => "Expected another byte, found none."@,
                Error::OffsetOutOfBounds => "The offset to copy is not contained in the decompressed buffer."@,
                Error::InvalidMagic => "Invalid compression magic."@,
            },
    {
        match self {
            Error::ExpectedAnotherByte => "Expected another byte, found none.",
            Error::OffsetOutOfBounds => "The offset to copy is not contained in the decompressed buffer.",
            Error::InvalidMagic => "Invalid compression magic.",
        }
    }
}

/// One decoded command.
#[derive(Debug, Clone, Copy, PartialEq, Eq, Structural)]
pub enum Command {
    /// Copy `preceeding` literal bytes from the input, then repeat `len` bytes
    /// starting `offset + 1` bytes before the end of the output.
    Normal { preceeding: usize, len: usize, offset: usize },
    /// Copy `preceeding` literal bytes from the input and finish.
    Stop { preceeding: usize },
}

impl Command {
    /// The number of literal bytes that the command copies from the input.
    pub open spec fn literal_count(self) -> int {
        match self {
            Command::Normal { preceeding, .. } => preceeding as int,
            Command::Stop { preceeding } => preceeding as int,
        }
    }
}

/// What a decoder run leaves behind: the output buffer, and whether the
/// stream was well formed.
pub struct Decoded {
    pub output: Seq<u8>,
    pub result: Result<(), Error>,
}

/// The number of bytes of the command whose first byte is `b0`, read off the
/// unary prefix in the top bits.
pub open spec fn command_width(b0: u8) -> int {
    if b0 & 0x80 == 0 {
        2
    } else if b0 & 0x40 == 0 {
        3
    } else if b0 & 0x20 == 0 {
        4
    } else {
        1
    }
}

/// The command encoded at the start of `c`, which holds at least
/// `command_width(c[0])` bytes.
///
/// | first byte | bytes | layout                                  |
/// |------------|-------|-----------------------------------------|
/// | `0xxxxxxx` | 2     | `0OOLLLPP OOOOOOOO`                     |
/// | `10xxxxxx` | 3     | `10LLLLLL PPOOOOOO OOOOOOOO`            |
/// | `110xxxxx` | 4     | `110OLLPP OOOOOOOO OOOOOOOO LLLLLLLL`   |
/// | `111xxxxx` | 1     | `111PPPPP`, or stop when `PPP` is `111` |
pub open spec fn command_of(c: Seq<u8>) -> Command
    recommends
        c.len() >= 1,
        c.len() >= command_width(c[0]),
{
    let b0 = c[0] as u32;
    if c[0] & 0x80 == 0 {
        Command::Normal {
            preceeding: (b0 & 0x03) as usize,
            len: (((b0 & 0x1C) >> 2) + 3) as usize,
            offset: (((b0 & 0x60) << 3) + c[1] as u32) as usize,
        }
    } else if c[0] & 0x40 == 0 {
        Command::Normal {
            preceeding: ((c[1] as u32 & 0xC0) >> 6) as usize,
            len: ((b0 & 0x3F) + 4) as usize,
            offset: (((c[1] as u32 & 0x3F) << 8) + c[2] as u32) as usize,
        }
    } else if c[0] & 0x20 == 0 {
        Command::Normal {
            preceeding: (b0 & 0x03) as usize,
            len: (((b0 & 0x0C) << 6) + c[3] as u32 + 5) as usize,
            offset: (((b0 & 0x10) << 12) + ((c[1] as u32) << 8) + c[2] as u32) as usize,
        }
    } else if c[0] & 0x1C == 0x1C {
        Command::Stop { preceeding: (b0 & 0x03) as usize }
    } else {
        Command::Normal { preceeding: (((b0 & 0x1F) + 1) * 4) as usize, len: 0, offset: 0 }
    }
}

/// `out` followed by `n` bytes, each a copy of the byte that stands
/// `out.len() - start` places before it. The copy may run into the bytes it
/// has just written, which is how a short pattern is repeated.
pub open spec fn duplicated(out: Seq<u8>, start: int, n: nat) -> Seq<u8>
    recommends
        0 <= start < out.len(),
    decreases n,
{
    if n == 0 {
        out
    } else {
        duplicated(out.push(out[start]), start + 1, (n - 1) as nat)
    }
}

/// The effect of the commands in `input` on the output `out`.
///
/// Commands are run until a stop command or the end of the input. A command
/// that the input cuts short gives `ExpectedAnotherByte` and leaves the output
/// as it was before that command. A repeat that would start before the first
/// byte of the output gives `OffsetOutOfBounds`, after the command's literal
/// bytes have been appended.
pub open spec fn run_commands(input: Seq<u8>, out: Seq<u8>) -> Decoded
    decreases input.len(),
{
    if input.len() == 0 {
        Decoded { output: out, result: Ok(()) }
    } else if input.len() < command_width(input[0]) {
        Decoded { output: out, result: Err(Error::ExpectedAnotherByte) }
    } else {
        let cmd = command_of(input);
        let rest = input.skip(command_width(input[0]));
        if rest.len() < cmd.literal_count() {
            Decoded { output: out, result: Err(Error::ExpectedAnotherByte) }
        } else {
            let out1 = out + rest.take(cmd.literal_count());
            match cmd {
                Command::Stop { .. } => Decoded { output: out1, result: Ok(()) },
                Command::Normal { len, offset, .. } => {
                    if len == 0 {
                        run_commands(rest.skip(cmd.literal_count()), out1)
                    } else if offset >= out1.len() {
                        Decoded { output: out1, result: Err(Error::OffsetOutOfBounds) }
                    } else {
                        run_commands(
                            rest.skip(cmd.literal_count()),
                            duplicated(out1, out1.len() - offset - 1, len as nat),
                        )
                    }
                },
            }
        }
    }
}

/// The number of bytes in each size field of the header: 4 when the "large"
/// flag (bit 7) is set, else 3.
pub open spec fn size_width(flags: u8) -> int {
    if flags & 0x80 != 0 {
        4
    } else {
        3
    }
}

/// The length of the header: flags, magic, an optional compressed size
/// (present when bit 0 of the flags is set) and the decompressed size.
pub open spec fn header_len(flags: u8) -> int {
    if flags & 0x01 != 0 {
        2 + 2 * size_width(flags)
    } else {
        2 + size_width(flags)
    }
}

/// The decompressed size that the header of the stream `input` declares: the
/// last size field, most significant byte first.
///
/// `ExpectedAnotherByte` where the input ends within the header, and
/// `InvalidMagic` where its second byte is not `0xFB`.
pub open spec fn header_of(input: Seq<u8>) -> Result<u32, Error> {
    if input.len() < 2 {
        Err(Error::ExpectedAnotherByte)
    } else if input[1] != 0xFB {
        Err(Error::InvalidMagic)
    } else if input.len() < header_len(input[0]) {
        Err(Error::ExpectedAnotherByte)
    } else {
        let field = input.subrange(header_len(input[0]) - size_width(input[0]), header_len(input[0]));
        if size_width(input[0]) == 4 {
            Ok(be_u32(field) as u32)
        } else {
            Ok(be_u24(field) as u32)
        }
    }
}

/// The effect of decoding the whole stream `input` onto the output `out`.
///
/// The size fields of the header are skipped: they do not change what is
/// decoded.
pub open spec fn decoded(input: Seq<u8>, out: Seq<u8>) -> Decoded {
    if input.len() < 2 {
        Decoded { output: out, result: Err(Error::ExpectedAnotherByte) }
    } else if input[1] != 0xFB {
        Decoded { output: out, result: Err(Error::InvalidMagic) }
    } else if input.len() < header_len(input[0]) {
        Decoded { output: out, result: Err(Error::ExpectedAnotherByte) }
    } else {
        run_commands(input.skip(header_len(input[0])), out)
    }
}

/// The value of the first three bytes of `s`, most significant first.
pub open spec fn be_u24(s: Seq<u8>) -> int {
    s[0] as int * 0x1_0000 + s[1] as int * 0x100 + s[2] as int
}

/// The value of the first four bytes of `s`, most significant first.
pub open spec fn be_u32(s: Seq<u8>) -> int {
    s[0] as int * 0x100_0000 + s[1] as int * 0x1_0000 + s[2] as int * 0x100 + s[3] as int
}

/// `byteorder::BigEndian::read_u24`: the first three bytes of `buf` as a
/// big-endian number. The call panics on a shorter buffer.
#[verifier::external_body]
fn read_u24_be(buf: &[u8]) -> (r: u32)
    requires
        buf@.len() >= 3,
    ensures
        r == be_u24(buf@),
{
    BigEndian::read_u24(buf)
}

/// `byteorder::BigEndian::read_u32`: the first four bytes of `buf` as a
/// big-endian number. The call panics on a shorter buffer.
#[verifier::external_body]
fn read_u32_be(buf: &[u8]) -> (r: u32)
    requires
        buf@.len() >= 4,
    ensures
        r == be_u32(buf@),
{
    BigEndian::read_u32(buf)
}

/// `Vec::reserve_exact`: makes room for `additional` more bytes and leaves
/// the contents alone. The call panics when the new capacity would exceed
/// `isize::MAX` bytes.
#[verifier::external_body]
fn reserve_exact(v: &mut Vec<u8>, additional: usize)
    requires
        old(v)@.len() + additional <= isize::MAX,
    ensures
        final(v)@ == old(v)@,
{
    v.reserve_exact(additional)
}

/// A RefPack decoder: the input that is still to be read, and the output
/// produced so far.
pub struct Decoder<'a> {
    /// The compressed input.
    pub input: &'a [u8],
    /// The decompressed output.
    pub output: Vec<u8>,
}

impl<'a> Decoder<'a> {
    /// Splits the first `n` bytes off `input`, or fails and leaves `input`
    /// alone when it holds fewer.
    pub fn take_imp(input: &mut &'a [u8], n: usize) -> (r: Result<&'a [u8], Error>)
        ensures
            old(input)@.len() < n ==> r == Err::<&[u8], Error>(Error::ExpectedAnotherByte)
                && *final(input) == *old(input),
            old(input)@.len() >= n ==> r.is_ok() && r.unwrap()@ == old(input)@.take(n as int)
                && final(input)@ == old(input)@.skip(n as int),
    {
        if input.len() < n {
            Err(Error::ExpectedAnotherByte)
        } else {
            let whole: &'a [u8] = *input;
            let res = slice_subrange(whole, 0, n);
            *input = slice_subrange(whole, n, whole.len());
            Ok(res)
        }
    }

    /// Pops `n` bytes from the start of the input stream.
    pub fn take(&mut self, n: usize) -> (r: Result<&'a [u8], Error>)
        ensures
            final(self).output == old(self).output,
            old(self).input@.len() < n ==> r == Err::<&[u8], Error>(Error::ExpectedAnotherByte)
                && final(self).input == old(self).input,
            old(self).input@.len() >= n ==> r.is_ok() && r.unwrap()@ == old(self).input@.take(
                n as int,
            ) && final(self).input@ == old(self).input@.skip(n as int),
    {
        Self::take_imp(&mut self.input, n)
    }

    /// Appends `buf` to the output stream.
    pub fn output(output: &mut Vec<u8>, buf: &[u8])
        ensures
            final(output)@ == old(output)@ + buf@,
    {
        output.extend_from_slice(buf);
        assert(output@ =~= old(output)@ + buf@);
    }

    /// Appends `match_length` bytes to the output, copied one at a time from
    /// position `start` onwards, so that the copy may read what it has itself
    /// written.
    pub fn duplicate(&mut self, start: usize, match_length: usize)
        requires
            start < old(self).output@.len(),
        ensures
            final(self).input == old(self).input,
            final(self).output@ == duplicated(old(self).output@, start as int, match_length as nat),
    {
        let mut k: usize = 0;
        while k < match_length
            invariant
                k <= match_length,
                start < old(self).output@.len(),
                self.input == old(self).input,
                self.output@.len() == old(self).output@.len() + k,
                duplicated(self.output@, start + k, (match_length - k) as nat) == duplicated(
                    old(self).output@,
                    start as int,
                    match_length as nat,
                ),
            decreases match_length - k,
        {
            let end = self.output.len();
            assert(start + k < end);
            let b = self.output[start + k];
            self.output.push(b);
            k += 1;
        }
    }

    /// Reads one command from the start of the input, which must not be
    /// empty.
    pub fn read_command(&mut self) -> (r: Result<Command, Error>)
        requires
            old(self).input@.len() > 0,
        ensures
            final(self).output == old(self).output,
            old(self).input@.len() < command_width(old(self).input@[0]) ==> r == Err::<
                Command,
                Error,
            >(Error::ExpectedAnotherByte) && final(self).input == old(self).input,
            old(self).input@.len() >= command_width(old(self).input@[0]) ==> r == Ok::<
                Command,
                Error,
            >(command_of(old(self).input@)) && final(self).input@ == old(self).input@.skip(
                command_width(old(self).input@[0]),
            ),
    {
        let first: u8 = self.input[0];
        if first & 0x80 == 0 {
            // 2 bytes: 0OOLLLPP OOOOOOOO
            let cmd = self.take(2)?;
            let b0: u32 = cmd[0] as u32;
            let b1: u32 = cmd[1] as u32;
            assert(b0 & 0x03 <= 3 && (b0 & 0x1C) >> 2 <= 7 && (b0 & 0x60) << 3 <= 0x300)
                by (bit_vector)
                requires
                    b0 < 256,
            ;
            Ok(
                Command::Normal {
                    preceeding: (b0 & 0x03) as usize,
                    len: (((b0 & 0x1C) >> 2) + 3) as usize,
                    offset: (((b0 & 0x60) << 3) + b1) as usize,
                },
            )
        } else if first & 0x40 == 0 {
            // 3 bytes: 10LLLLLL PPOOOOOO OOOOOOOO
            let cmd = self.take(3)?;
            let b0: u32 = cmd[0] as u32;
            let b1: u32 = cmd[1] as u32;
            let b2: u32 = cmd[2] as u32;
            assert(b0 & 0x3F <= 0x3F && (b1 & 0xC0) >> 6 <= 3 && (b1 & 0x3F) << 8 <= 0x3F00)
                by (bit_vector)
                requires
                    b0 < 256,
                    b1 < 256,
            ;
            Ok(
                Command::Normal {
                    preceeding: ((b1 & 0xC0) >> 6) as usize,
                    len: ((b0 & 0x3F) + 4) as usize,
                    offset: (((b1 & 0x3F) << 8) + b2) as usize,
                },
            )
        } else if first & 0x20 == 0 {
            // 4 bytes: 110OLLPP OOOOOOOO OOOOOOOO LLLLLLLL
            let cmd = self.take(4)?;
            let b0: u32 = cmd[0] as u32;
            let b1: u32 = cmd[1] as u32;
            let b2: u32 = cmd[2] as u32;
            let b3: u32 = cmd[3] as u32;
            assert(b0 & 0x03 <= 3 && (b0 & 0x0C) << 6 <= 0x300 && (b0 & 0x10) << 12 <= 0x10000 && b1
                << 8 <= 0xFF00) by (bit_vector)
                requires
                    b0 < 256,
                    b1 < 256,
            ;
            Ok(
                Command::Normal {
                    preceeding: (b0 & 0x03) as usize,
                    len: (((b0 & 0x0C) << 6) + b3 + 5) as usize,
                    offset: (((b0 & 0x10) << 12) + (b1 << 8) + b2) as usize,
                },
            )
        } else {
            // 1 byte: 111PPPPP
            let cmd = self.take(1)?;
            let b: u8 = cmd[0];
            let b0: u32 = b as u32;
            assert(b0 & 0x03 <= 3 && b0 & 0x1F <= 0x1F) by (bit_vector)
                requires
                    b0 < 256,
            ;
            if b & 0x1C == 0x1C {
                Ok(Command::Stop { preceeding: (b0 & 0x03) as usize })
            } else {
                Ok(Command::Normal { preceeding: (((b0 & 0x1F) + 1) * 4) as usize, len: 0, offset: 0 })
            }
        }
    }

    /// Reads the header of the stream and returns the decompressed size
    /// that it declares. On an error the input may have been read in part.
    pub fn read_header(&mut self) -> (r: Result<u32, Error>)
        ensures
            final(self).output == old(self).output,
            match header_of(old(self).input@) {
                Ok(size) => r == Ok::<u32, Error>(size) && final(self).input@ == old(
                    self,
                ).input@.skip(header_len(old(self).input@[0])),
                Err(e) => r == Err::<u32, Error>(e),
            },
    {
        let ghost whole = self.input@;
        let flags: u8 = self.take(1)?[0];
        let magic: u8 = self.take(1)?[0];
        assert(flags == whole[0] && magic == whole[1]);
        if magic != 0xFB {
            return Err(Error::InvalidMagic);
        }
        let large = (flags & 0x80) != 0;
        let compressed_size_present = (flags & 0x01) != 0;

        // The compressed size is informational: it is read and not used.
        let _compressed_size: Option<u32> = if compressed_size_present {
            if large {
                Some(read_u32_be(self.take(4)?))
            } else {
                Some(read_u24_be(self.take(3)?))
            }
        } else {
            None
        };
        let ghost at_size = self.input@;
        assert(at_size =~= whole.skip(header_len(whole[0]) - size_width(whole[0])));
        let decompressed_size: u32 = if large {
            read_u32_be(self.take(4)?)
        } else {
            read_u24_be(self.take(3)?)
        };
        assert(self.input@ =~= whole.skip(header_len(whole[0])));
        assert(at_size.take(size_width(whole[0])) =~= whole.subrange(
            header_len(whole[0]) - size_width(whole[0]),
            header_len(whole[0]),
        ));
        Ok(decompressed_size)
    }

    /// Decodes the whole stream: the header, then every command.
    pub fn complete(&mut self) -> (r: Result<(), Error>)
        ensures
            decoded(old(self).input@, old(self).output@) == (Decoded {
                output: final(self).output@,
                result: r,
            }),
    {
        let decompressed_size: usize = self.read_header()? as usize;
        let filled = self.output.len();
        if filled <= isize::MAX as usize && decompressed_size <= isize::MAX as usize - filled {
            reserve_exact(&mut self.output, decompressed_size);
        }
        let ghost target = run_commands(self.input@, self.output@);
        while self.input.len() > 0
            invariant
                run_commands(self.input@, self.output@) == target,
                decoded(old(self).input@, old(self).output@) == target,
            decreases self.input@.len(),
        {
            let ghost before = self.input@;
            match self.read_command()? {
                Command::Normal { preceeding, len, offset } => {
                    let literal = Self::take_imp(&mut self.input, preceeding)?;
                    Self::output(&mut self.output, literal);
                    if len > 0 {
                        let filled = self.output.len();
                        if offset < filled {
                            // Repeat a run of the output written so far.
                            self.duplicate(filled - offset - 1, len);
                        } else {
                            return Err(Error::OffsetOutOfBounds);
                        }
                    }
                },
                Command::Stop { preceeding } => {
                    let literal = Self::take_imp(&mut self.input, preceeding)?;
                    Self::output(&mut self.output, literal);
                    return Ok(());
                },
            }
            assert(self.input@.len() < before.len());
        }
        Ok(())
    }
}

/// Decompresses all bytes of `input`, appending to `output`.
///
/// The result and the new contents of `output` are those of [`decoded`]. On
/// an error `output` keeps what was decoded before the fault was met.
pub fn decompress_into(input: &[u8], output: &mut Vec<u8>) -> (r: Result<(), Error>)
    ensures
        decoded(input@, old(output)@) == (Decoded { output: final(output)@, result: r }),
{
    let mut decoder = Decoder { input, output: Vec::new() };
    core::mem::swap(&mut decoder.output, output);
    let r = decoder.complete();
    core::mem::swap(&mut decoder.output, output);
    r
}

/// Decompresses all bytes of `input` into a new buffer.
///
/// Succeeds exactly when [`decoded`] on an empty output does, with that
/// output; else fails with the same error.
pub fn decompress(input: &[u8]) -> (r: Result<Vec<u8>, Error>)
    ensures
        match r {
            Ok(v) => decoded(input@, Seq::empty()).result.is_ok() && decoded(
                input@,
                Seq::empty(),
            ).output == v@,
            Err(e) => decoded(input@, Seq::empty()).result == Err::<(), Error>(e),
        },
{
    // Allocate a vector to contain the decompressed stream; it grows later.
    let mut vec: Vec<u8> = Vec::with_capacity(0);
    let r = decompress_into(input, &mut vec);
    match r {
        Ok(()) => Ok(vec),
        Err(e) => Err(e),
    }
}

} // verus!
