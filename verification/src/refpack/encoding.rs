//! What an encoder has to emit for the decoder to give back its input.
//!
//! This crate holds no encoder. A stream is described here by the steps
//! that it is made of, and the decoder is proved to play these steps.

use crate::refpack::decompress::command_of;
use crate::refpack::decompress::command_width;
use crate::refpack::decompress::decoded;
use crate::refpack::decompress::duplicated;
use crate::refpack::decompress::header_len;
use crate::refpack::decompress::run_commands;
use crate::refpack::decompress::Command;
use crate::refpack::decompress::Decoded;
use vstd::prelude::*;

verus! {

/// One step of a stream: the bytes of a command, and the literal bytes that
/// follow them.
pub struct Step {
    pub head: Seq<u8>,
    pub literals: Seq<u8>,
}

impl Step {
    /// The command of the step.
    pub open spec fn command(self) -> Command {
        command_of(self.head)
    }

    /// Whether the step is well formed: the head is one whole command, and
    /// there are as many literal bytes as the command says.
    pub open spec fn well_formed(self) -> bool {
        &&& self.head.len() > 0
        &&& self.head.len() == command_width(self.head[0])
        &&& self.literals.len() == self.command().literal_count()
    }

    /// The bytes of the step in the stream.
    pub open spec fn bytes(self) -> Seq<u8> {
        self.head + self.literals
    }

    /// Whether the step can be played on the output `out`: a repeat starts
    /// within the output and its own literal bytes.
    pub open spec fn fits(self, out: Seq<u8>) -> bool {
        match self.command() {
            Command::Stop { .. } => true,
            Command::Normal { len, offset, .. } => len == 0 || offset < out.len()
                + self.literals.len(),
        }
    }

    /// The output after the step was played on the output `out`: the
    /// literal bytes are appended, and then the repeat.
    pub open spec fn played(self, out: Seq<u8>) -> Seq<u8> {
        match self.command() {
            Command::Stop { .. } => out + self.literals,
            Command::Normal { len, offset, .. } => if len == 0 {
                out + self.literals
            } else {
                duplicated(
                    out + self.literals,
                    out.len() + self.literals.len() - offset - 1,
                    len as nat,
                )
            },
        }
    }
}

/// The bytes of the steps, one after the other.
pub open spec fn steps_bytes(steps: Seq<Step>) -> Seq<u8>
    decreases steps.len(),
{
    if steps.len() == 0 {
        Seq::empty()
    } else {
        steps[0].bytes() + steps_bytes(steps.skip(1))
    }
}

/// Whether the steps can be played on the output `out`: each is well formed
/// and fits the output that the steps before it leave, and only the last
/// may be a stop.
pub open spec fn playable(steps: Seq<Step>, out: Seq<u8>) -> bool
    decreases steps.len(),
{
    if steps.len() == 0 {
        true
    } else {
        &&& steps[0].well_formed()
        &&& steps[0].fits(out)
        &&& (steps[0].command() is Stop ==> steps.len() == 1)
        &&& playable(steps.skip(1), steps[0].played(out))
    }
}

/// The output after the steps were played on the output `out`.
pub open spec fn played(steps: Seq<Step>, out: Seq<u8>) -> Seq<u8>
    decreases steps.len(),
{
    if steps.len() == 0 {
        out
    } else {
        played(steps.skip(1), steps[0].played(out))
    }
}

/// The decoder plays the steps of a stream: from the bytes of steps that
/// can be played it makes the output that playing them gives, and reports
/// no error.
pub proof fn lemma_run_plays(steps: Seq<Step>, out: Seq<u8>)
    requires
        playable(steps, out),
    ensures
        run_commands(steps_bytes(steps), out) == (Decoded {
            output: played(steps, out),
            result: Ok(()),
        }),
    decreases steps.len(),
{
    if steps.len() > 0 {
        let step = steps[0];
        let rest = steps_bytes(steps.skip(1));
        let input = steps_bytes(steps);
        let width = command_width(step.head[0]);
        assert(input =~= step.head + (step.literals + rest));
        assert(input[0] == step.head[0]);
        assert(command_of(input) == command_of(step.head)) by {
            assert(input[0] == step.head[0]);
            if width >= 2 {
                assert(input[1] == step.head[1]);
            }
            if width >= 3 {
                assert(input[2] == step.head[2]);
            }
            if width >= 4 {
                assert(input[3] == step.head[3]);
            }
        }
        assert(input.skip(width) =~= step.literals + rest);
        let after = input.skip(width);
        let count = step.command().literal_count();
        assert(after.take(count) =~= step.literals);
        assert(after.skip(count) =~= rest);
        lemma_run_plays(steps.skip(1), step.played(out));
        if step.command() is Stop {
            assert(steps.skip(1).len() == 0);
        }
    }
}

/// What a conformant encoder emits is decoded to its input: a stream made of
/// a header with the magic byte and of steps that, played on an empty
/// output, give `x`, is decompressed to `x`.
pub proof fn lemma_decoded_plays(header: Seq<u8>, steps: Seq<Step>, x: Seq<u8>)
    requires
        header.len() >= 2,
        header[1] == 0xFB,
        header.len() == header_len(header[0]),
        playable(steps, Seq::empty()),
        played(steps, Seq::empty()) == x,
    ensures
        decoded(header + steps_bytes(steps), Seq::empty()) == (Decoded { output: x, result: Ok(()) }),
{
    let input = header + steps_bytes(steps);
    assert(input[0] == header[0] && input[1] == header[1]);
    assert(input.skip(header_len(input[0])) =~= steps_bytes(steps));
    lemma_run_plays(steps, Seq::empty());
}

/// The two bytes `0OOLLLPP OOOOOOOO` of the command that copies
/// `preceeding <= 3` literal bytes and repeats `3 <= len <= 10` bytes from
/// `offset <= 1023`.
pub open spec fn short_head(preceeding: u32, len: u32, offset: u32) -> Seq<u8> {
    seq![
        (((offset >> 8) << 5) | (((len - 3) as u32) << 2) | preceeding) as u8,
        (offset & 0xFF) as u8,
    ]
}

/// The three bytes `10LLLLLL PPOOOOOO OOOOOOOO` of the command that copies
/// `preceeding <= 3` literal bytes and repeats `4 <= len <= 67` bytes from
/// `offset <= 16383`.
pub open spec fn medium_head(preceeding: u32, len: u32, offset: u32) -> Seq<u8> {
    seq![
        (0x80 | ((len - 4) as u32)) as u8,
        ((preceeding << 6) | (offset >> 8)) as u8,
        (offset & 0xFF) as u8,
    ]
}

/// The four bytes `110OLLPP OOOOOOOO OOOOOOOO LLLLLLLL` of the command that
/// copies `preceeding <= 3` literal bytes and repeats `5 <= len <= 1028`
/// bytes from `offset <= 131071`.
pub open spec fn long_head(preceeding: u32, len: u32, offset: u32) -> Seq<u8> {
    seq![
        (0xC0 | ((offset >> 16) << 4) | ((((len - 5) as u32) >> 8) << 2) | preceeding) as u8,
        ((offset >> 8) & 0xFF) as u8,
        (offset & 0xFF) as u8,
        (((len - 5) as u32) & 0xFF) as u8,
    ]
}

/// The byte `111PPPPP` of the command that copies `preceeding` literal
/// bytes, a multiple of 4 from 4 to 112, and repeats nothing.
pub open spec fn literal_head(preceeding: u32) -> Seq<u8> {
    seq![(0xE0 | ((preceeding / 4 - 1) as u32)) as u8]
}

/// The byte `111111PP` of the command that copies `preceeding <= 3`
/// literal bytes and stops.
pub open spec fn stop_head(preceeding: u32) -> Seq<u8> {
    seq![(0xFC | preceeding) as u8]
}

/// The short command is decoded to its fields.
pub proof fn lemma_short_head(preceeding: u32, len: u32, offset: u32)
    requires
        preceeding <= 3,
        3 <= len <= 10,
        offset <= 1023,
    ensures
        short_head(preceeding, len, offset).len() == 2,
        command_width(short_head(preceeding, len, offset)[0]) == 2,
        command_of(short_head(preceeding, len, offset)) == (Command::Normal {
            preceeding: preceeding as usize,
            len: len as usize,
            offset: offset as usize,
        }),
{
    let l = (len - 3) as u32;
    let b0 = ((offset >> 8) << 5) | (l << 2) | preceeding;
    let b1 = offset & 0xFF;
    assert(b0 < 0x80 && b1 < 0x100 && b0 & 0x03 == preceeding && (b0 & 0x1C) >> 2 == l && ((b0
        & 0x60) << 3) + b1 == offset) by (bit_vector)
        requires
            preceeding <= 3,
            l <= 7,
            offset <= 1023,
            b0 == ((offset >> 8) << 5) | (l << 2) | preceeding,
            b1 == offset & 0xFF,
    ;
    let x = b0 as u8;
    assert(x & 0x80 == 0) by (bit_vector)
        requires
            x < 0x80,
    ;
}

/// The medium command is decoded to its fields.
pub proof fn lemma_medium_head(preceeding: u32, len: u32, offset: u32)
    requires
        preceeding <= 3,
        4 <= len <= 67,
        offset <= 16383,
    ensures
        medium_head(preceeding, len, offset).len() == 3,
        command_width(medium_head(preceeding, len, offset)[0]) == 3,
        command_of(medium_head(preceeding, len, offset)) == (Command::Normal {
            preceeding: preceeding as usize,
            len: len as usize,
            offset: offset as usize,
        }),
{
    let l = (len - 4) as u32;
    let b0 = 0x80 | l;
    let b1 = (preceeding << 6) | (offset >> 8);
    let b2 = offset & 0xFF;
    assert(0x80 <= b0 < 0xC0 && b1 < 0x100 && b2 < 0x100 && b0 & 0x3F == l && (b1 & 0xC0) >> 6
        == preceeding && ((b1 & 0x3F) << 8) + b2 == offset) by (bit_vector)
        requires
            preceeding <= 3,
            l <= 63,
            offset <= 16383,
            b0 == 0x80 | l,
            b1 == (preceeding << 6) | (offset >> 8),
            b2 == offset & 0xFF,
    ;
    let x = b0 as u8;
    assert(x & 0x80 != 0 && x & 0x40 == 0) by (bit_vector)
        requires
            0x80 <= x < 0xC0,
    ;
}

/// The long command is decoded to its fields.
pub proof fn lemma_long_head(preceeding: u32, len: u32, offset: u32)
    requires
        preceeding <= 3,
        5 <= len <= 1028,
        offset <= 131071,
    ensures
        long_head(preceeding, len, offset).len() == 4,
        command_width(long_head(preceeding, len, offset)[0]) == 4,
        command_of(long_head(preceeding, len, offset)) == (Command::Normal {
            preceeding: preceeding as usize,
            len: len as usize,
            offset: offset as usize,
        }),
{
    let l = (len - 5) as u32;
    let b0 = 0xC0 | ((offset >> 16) << 4) | ((l >> 8) << 2) | preceeding;
    let b1 = (offset >> 8) & 0xFF;
    let b2 = offset & 0xFF;
    let b3 = l & 0xFF;
    assert(0xC0 <= b0 < 0xE0 && b1 < 0x100 && b2 < 0x100 && b3 < 0x100 && b0 & 0x03 == preceeding
        && ((b0 & 0x0C) << 6) + b3 == l && ((b0 & 0x10) << 12) + (b1 << 8) + b2 == offset)
        by (bit_vector)
        requires
            preceeding <= 3,
            l <= 1023,
            offset <= 131071,
            b0 == 0xC0 | ((offset >> 16) << 4) | ((l >> 8) << 2) | preceeding,
            b1 == (offset >> 8) & 0xFF,
            b2 == offset & 0xFF,
            b3 == l & 0xFF,
    ;
    let x = b0 as u8;
    assert(x & 0x80 != 0 && x & 0x40 != 0 && x & 0x20 == 0) by (bit_vector)
        requires
            0xC0 <= x < 0xE0,
    ;
}

/// The command of a run of literal bytes is decoded to its length.
pub proof fn lemma_literal_head(preceeding: u32)
    requires
        4 <= preceeding <= 112,
        preceeding % 4 == 0,
    ensures
        literal_head(preceeding).len() == 1,
        command_width(literal_head(preceeding)[0]) == 1,
        command_of(literal_head(preceeding)) == (Command::Normal {
            preceeding: preceeding as usize,
            len: 0,
            offset: 0,
        }),
{
    let n = (preceeding / 4 - 1) as u32;
    let b0 = 0xE0 | n;
    assert(0xE0 <= b0 < 0xFC && b0 & 0x1F == n) by (bit_vector)
        requires
            n <= 27,
            b0 == 0xE0 | n,
    ;
    let x = b0 as u8;
    assert(x & 0x80 != 0 && x & 0x40 != 0 && x & 0x20 != 0 && x & 0x1C != 0x1C) by (bit_vector)
        requires
            0xE0 <= x < 0xFC,
    ;
}

/// The stop command is decoded to its number of literal bytes.
pub proof fn lemma_stop_head(preceeding: u32)
    requires
        preceeding <= 3,
    ensures
        stop_head(preceeding).len() == 1,
        command_width(stop_head(preceeding)[0]) == 1,
        command_of(stop_head(preceeding)) == (Command::Stop { preceeding: preceeding as usize }),
{
    let b0 = 0xFC | preceeding;
    assert(0xFC <= b0 < 0x100 && b0 & 0x03 == preceeding) by (bit_vector)
        requires
            preceeding <= 3,
            b0 == 0xFC | preceeding,
    ;
    let x = b0 as u8;
    assert(x & 0x80 != 0 && x & 0x40 != 0 && x & 0x20 != 0 && x & 0x1C == 0x1C) by (bit_vector)
        requires
            0xFC <= x,
    ;
}

} // verus!
