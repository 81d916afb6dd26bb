use sims3_rs::refpack::decompress::{decompress, decompress_into, Command, Decoder, Error};

fn stream(body: &[u8]) -> Vec<u8> {
    let mut v = vec![0x00, 0xFB, 0x00, 0x00, 0x00];
    v.extend_from_slice(body);
    v
}

#[test]
fn stop_only_stream_is_empty() {
    let input = [0x00, 0xFB, 0x00, 0x00, 0x00, 0b1111_1100];
    assert_eq!(decompress(&input), Ok(vec![]));
}

#[test]
fn short_back_reference_repeats_pair() {
    // Two literals "AB", then six bytes copied from two places back.
    let input = [0x00, 0xFB, 0x00, 0x00, 0x08, 0x0E, 0x01, b'A', b'B', 0xFC];
    assert_eq!(decompress(&input), Ok(b"ABABABAB".to_vec()));
}

#[test]
fn input_may_end_without_stop() {
    let input = [0x00, 0xFB, 0x00, 0x00, 0x08, 0x0E, 0x01, b'A', b'B'];
    assert_eq!(decompress(&input), Ok(b"ABABABAB".to_vec()));
}

#[test]
fn empty_input_expects_a_byte() {
    assert_eq!(decompress(&[]), Err(Error::ExpectedAnotherByte));
    assert_eq!(decompress(&[0x00]), Err(Error::ExpectedAnotherByte));
}

#[test]
fn wrong_magic_is_rejected() {
    assert_eq!(decompress(&[0x00, 0xFA, 0, 0, 0, 0xFC]), Err(Error::InvalidMagic));
}

#[test]
fn truncated_header_expects_a_byte() {
    assert_eq!(decompress(&[0x00, 0xFB, 0, 0]), Err(Error::ExpectedAnotherByte));
    // Large sizes with the compressed size present: ten header bytes.
    assert_eq!(decompress(&[0x81, 0xFB, 0, 0, 0, 0, 0, 0, 0]), Err(Error::ExpectedAnotherByte));
    assert_eq!(decompress(&[0x81, 0xFB, 0, 0, 0, 9, 0, 0, 0, 0]), Ok(vec![]));
}

#[test]
fn compressed_size_field_is_skipped() {
    let input = [0x01, 0xFB, 0xAA, 0xBB, 0xCC, 0x00, 0x00, 0x01, 0xFD, b'x'];
    assert_eq!(decompress(&input), Ok(b"x".to_vec()));
}

#[test]
fn large_flag_selects_four_byte_sizes() {
    let input = [0x80, 0xFB, 0x00, 0x00, 0x00, 0x02, 0xFE, b'h', b'i'];
    assert_eq!(decompress(&input), Ok(b"hi".to_vec()));
}

#[test]
fn truncated_command_expects_a_byte() {
    assert_eq!(decompress(&stream(&[0x0E])), Err(Error::ExpectedAnotherByte));
    assert_eq!(decompress(&stream(&[0x80, 0x00])), Err(Error::ExpectedAnotherByte));
    assert_eq!(decompress(&stream(&[0xC0, 0x00, 0x00])), Err(Error::ExpectedAnotherByte));
}

#[test]
fn truncated_literals_expect_a_byte() {
    assert_eq!(decompress(&stream(&[0xFF, b'a', b'b'])), Err(Error::ExpectedAnotherByte));
    assert_eq!(decompress(&stream(&[0xE0, 1, 2, 3])), Err(Error::ExpectedAnotherByte));
}

#[test]
fn offset_before_start_is_out_of_bounds() {
    // One literal, then a copy from two places back.
    assert_eq!(decompress(&stream(&[0x01, 0x01, b'a'])), Err(Error::OffsetOutOfBounds));
    // No literal at all, copy from one place back in an empty output.
    assert_eq!(decompress(&stream(&[0x00, 0x00])), Err(Error::OffsetOutOfBounds));
}

#[test]
fn long_plain_copy_takes_multiples_of_four() {
    let input = stream(&[0xE1, 1, 2, 3, 4, 5, 6, 7, 8, 0xFC]);
    assert_eq!(decompress(&input), Ok(vec![1, 2, 3, 4, 5, 6, 7, 8]));
}

#[test]
fn run_length_copy_chases_its_own_output() {
    // One literal, then ten copies of it: 0OOLLLPP with L = 7 (length 10), P = 1.
    let input = stream(&[0x1D, 0x00, b'z', 0xFC]);
    assert_eq!(decompress(&input), Ok(vec![b'z'; 11]));
}

#[test]
fn three_byte_command_fields() {
    // 10LLLLLL PPOOOOOO OOOOOOOO: length 4, two literals, offset 1.
    let input = stream(&[0x80, 0x80, 0x01, b'a', b'b', 0xFC]);
    assert_eq!(decompress(&input), Ok(b"ababab".to_vec()));
}

#[test]
fn four_byte_command_fields() {
    // 110OLLPP OOOOOOOO OOOOOOOO LLLLLLLL: length 5 + 1, three literals, offset 2.
    let input = stream(&[0xC3, 0x00, 0x02, 0x01, b'a', b'b', b'c', 0xFC]);
    assert_eq!(decompress(&input), Ok(b"abcabcabc".to_vec()));
}

#[test]
fn decompress_into_appends_and_may_copy_from_earlier_output() {
    let mut out = b"xy".to_vec();
    // No literal, copy three bytes from two places back.
    let r = decompress_into(&stream(&[0x00, 0x01, 0xFC]), &mut out);
    assert_eq!(r, Ok(()));
    assert_eq!(out, b"xyxyx".to_vec());
}

#[test]
fn decompress_into_keeps_partial_output_on_error() {
    let mut out = Vec::new();
    let r = decompress_into(&stream(&[0xE0, 1, 2, 3, 4, 0x01, 0x7F, 9]), &mut out);
    assert_eq!(r, Err(Error::OffsetOutOfBounds));
    assert_eq!(out, vec![1, 2, 3, 4, 9]);
}

#[test]
fn stop_carries_up_to_three_literals() {
    assert_eq!(decompress(&stream(&[0xFF, 1, 2, 3, 0xAA])), Ok(vec![1, 2, 3]));
}

#[test]
fn error_descriptions() {
    assert_eq!(Error::ExpectedAnotherByte.description(), "Expected another byte, found none.");
    assert_eq!(Error::InvalidMagic.description(), "Invalid compression magic.");
    assert_eq!(
        Error::OffsetOutOfBounds.description(),
        "The offset to copy is not contained in the decompressed buffer."
    );
}

#[test]
fn header_declares_the_decompressed_size() {
    let small = [0x00, 0xFB, 0x01, 0x02, 0x03, 0xFC];
    let mut d = Decoder { input: &small, output: Vec::new() };
    assert_eq!(d.read_header(), Ok(0x010203));
    assert_eq!(d.input, &[0xFC]);
    let large = [0x81, 0xFB, 9, 9, 9, 9, 0x01, 0x02, 0x03, 0x04];
    let mut d = Decoder { input: &large, output: Vec::new() };
    assert_eq!(d.read_header(), Ok(0x01020304));
    assert!(d.input.is_empty());
}

#[test]
fn commands_decode_to_their_fields() {
    let mut d = Decoder { input: &[0x7F, 0xFF], output: Vec::new() };
    assert_eq!(d.read_command(), Ok(Command::Normal { preceeding: 3, len: 10, offset: 1023 }));
    let mut d = Decoder { input: &[0xBF, 0xFF, 0xFF], output: Vec::new() };
    assert_eq!(d.read_command(), Ok(Command::Normal { preceeding: 3, len: 67, offset: 16383 }));
    let mut d = Decoder { input: &[0xDF, 0xFF, 0xFF, 0xFF], output: Vec::new() };
    assert_eq!(d.read_command(), Ok(Command::Normal { preceeding: 3, len: 1028, offset: 131071 }));
    let mut d = Decoder { input: &[0xFB], output: Vec::new() };
    assert_eq!(d.read_command(), Ok(Command::Normal { preceeding: 112, len: 0, offset: 0 }));
    let mut d = Decoder { input: &[0xFE], output: Vec::new() };
    assert_eq!(d.read_command(), Ok(Command::Stop { preceeding: 2 }));
    let mut d = Decoder { input: &[0x00, 0x00], output: Vec::new() };
    assert_eq!(d.read_command(), Ok(Command::Normal { preceeding: 0, len: 3, offset: 0 }));
}

#[test]
fn take_splits_the_input() {
    let mut input: &[u8] = &[1, 2, 3];
    assert_eq!(Decoder::take_imp(&mut input, 2), Ok(&[1u8, 2][..]));
    assert_eq!(input, &[3]);
    assert_eq!(Decoder::take_imp(&mut input, 2), Err(Error::ExpectedAnotherByte));
    assert_eq!(input, &[3]);
    let mut d = Decoder { input: &[7, 8], output: Vec::new() };
    assert_eq!(d.take(1), Ok(&[7u8][..]));
    assert_eq!(d.input, &[8]);
}

#[test]
fn duplicate_copies_byte_by_byte() {
    let mut d = Decoder { input: &[], output: vec![1, 2, 3] };
    d.duplicate(1, 5);
    assert_eq!(d.output, vec![1, 2, 3, 2, 3, 2, 3, 2]);
    let mut out = vec![9];
    Decoder::output(&mut out, &[8, 7]);
    assert_eq!(out, vec![9, 8, 7]);
}
