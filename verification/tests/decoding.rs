use wasm_decode::cursor::Cursor;
use wasm_decode::error::Error;
use wasm_decode::module::Module;
use wasm_decode::parser::{decode, Parser};

const PREAMBLE: [u8; 8] = [0x00, 0x61, 0x73, 0x6d, 0x01, 0x00, 0x00, 0x00];

fn with_preamble(body: &[u8]) -> Vec<u8> {
    let mut code = PREAMBLE.to_vec();
    code.extend_from_slice(body);
    code
}

#[test]
fn preamble_is_accepted_and_takes_eight_bytes() {
    let code = vec![0x00, 0x61, 0x73, 0x6d, 0x01, 0x00, 0x00, 0x00];
    let mut parser = Parser::new(&code);
    assert_eq!(parser.module_preamble(), Ok(()));
    assert_eq!(parser.cursor(), 8);
}

#[test]
fn preamble_with_wrong_magic_is_refused() {
    let code = vec![0x01, 0x61, 0x73, 0x6d, 0x01, 0x00, 0x00, 0x00];
    let mut parser = Parser::new(&code);
    assert_eq!(parser.module_preamble(), Err(Error::InvalidMagicNumber));
    assert_eq!(parser.cursor(), 4);
}

#[test]
fn preamble_with_wrong_version_is_refused() {
    let code = vec![0x00, 0x61, 0x73, 0x6d, 0x02, 0x00, 0x00, 0x00];
    let mut parser = Parser::new(&code);
    assert_eq!(parser.module_preamble(), Err(Error::InvalidVersionNumber));
    assert_eq!(parser.cursor(), 8);
}

#[test]
fn preamble_with_wrong_magic_and_no_version_is_refused_for_the_magic() {
    let code = vec![0x01, 0x61, 0x73, 0x6d];
    let mut parser = Parser::new(&code);
    assert_eq!(parser.module_preamble(), Err(Error::InvalidMagicNumber));
}

#[test]
fn preamble_cut_short_is_refused_for_want_of_bytes() {
    let code = vec![0x00, 0x61, 0x73];
    let mut parser = Parser::new(&code);
    assert_eq!(parser.module_preamble(), Err(Error::BufferEndReached));
    assert_eq!(parser.cursor(), 0);

    let code = vec![0x00, 0x61, 0x73, 0x6d, 0x01, 0x00];
    let mut parser = Parser::new(&code);
    assert_eq!(parser.module_preamble(), Err(Error::BufferEndReached));
    assert_eq!(parser.cursor(), 4);
}

#[test]
fn varuint32_leaves_the_bytes_behind_the_field() {
    let code = vec![0b1111_1111, 0b1111_1111, 0b0000_0011, 0b1010_1010];
    let mut parser = Parser::new(&code);
    assert_eq!(parser.varuint32(), Ok(0x0000_ffff));
    assert_eq!(parser.cursor(), 3);
    assert_eq!(parser.uint8(), Ok(0xaa));
}

#[test]
fn varint32_reads_a_negative_number() {
    let code = vec![0b1110_0000, 0b1010_1011, 0b1110_1101, 0b0111_1101, 0b0011_0110];
    let mut parser = Parser::new(&code);
    assert_eq!(parser.varint32(), Ok(-4_500_000));
    assert_eq!(parser.cursor(), 4);
}

#[test]
fn every_reader_refuses_an_empty_buffer() {
    let code: Vec<u8> = vec![];
    assert_eq!(Parser::new(&code).eat_byte(), None);
    assert_eq!(Parser::new(&code).eat_bytes(1), None);
    assert_eq!(Parser::new(&code).uint8(), Err(Error::BufferEndReached));
    assert_eq!(Parser::new(&code).uint16(), Err(Error::BufferEndReached));
    assert_eq!(Parser::new(&code).uint32(), Err(Error::BufferEndReached));
    assert_eq!(Parser::new(&code).varuint1(), Err(Error::BufferEndReached));
    assert_eq!(Parser::new(&code).varuint7(), Err(Error::BufferEndReached));
    assert_eq!(Parser::new(&code).varint7(), Err(Error::BufferEndReached));
    assert_eq!(Parser::new(&code).varuint32(), Err(Error::BufferEndReached));
    assert_eq!(Parser::new(&code).varint32(), Err(Error::BufferEndReached));
    assert_eq!(Parser::new(&code).varint64(), Err(Error::BufferEndReached));
    assert_eq!(Parser::new(&code).module_preamble(), Err(Error::BufferEndReached));
    assert!(matches!(Parser::new(&code).section(), Err(Error::BufferEndReached)));
    assert!(matches!(Parser::new(&code).module(), Err(Error::BufferEndReached)));
    assert!(matches!(decode(&code), Err(Error::BufferEndReached)));
}

#[test]
fn eat_bytes_of_nothing_succeeds_even_at_the_end() {
    let code: Vec<u8> = vec![];
    let mut parser = Parser::new(&code);
    let empty: &[u8] = &[];
    assert_eq!(parser.eat_bytes(0), Some(empty));
    assert_eq!(parser.cursor(), 0);
}

#[test]
fn eat_bytes_refuses_a_count_too_large_to_add() {
    let code = vec![1, 2, 3];
    let mut parser = Parser::new(&code);
    assert_eq!(parser.eat_byte(), Some(1));
    assert_eq!(parser.eat_bytes(usize::MAX), None);
    assert_eq!(parser.cursor(), 1);
}

#[test]
fn a_failing_fixed_width_read_consumes_nothing() {
    let code = vec![0x11, 0x22, 0x33, 0x44, 0x55];
    let mut parser = Parser::new(&code);
    assert_eq!(parser.uint16(), Ok(0x2211));
    assert_eq!(parser.cursor(), 2);
    assert_eq!(parser.uint32(), Err(Error::BufferEndReached));
    assert_eq!(parser.cursor(), 2);
    assert_eq!(parser.uint16(), Ok(0x4433));
    assert_eq!(parser.cursor(), 4);
    assert_eq!(parser.uint16(), Err(Error::BufferEndReached));
    assert_eq!(parser.cursor(), 4);
    assert_eq!(parser.uint8(), Ok(0x55));
    assert_eq!(parser.cursor(), 5);
    assert_eq!(parser.uint8(), Err(Error::BufferEndReached));
    assert_eq!(parser.cursor(), 5);
}

#[test]
fn fixed_width_reads_are_little_endian() {
    let code = vec![0x78, 0x56, 0x34, 0x12, 0xff, 0xff, 0xff, 0xff, 0xcd, 0xab];
    let mut parser = Parser::new(&code);
    assert_eq!(parser.uint32(), Ok(0x1234_5678));
    assert_eq!(parser.uint32(), Ok(0xffff_ffff));
    assert_eq!(parser.uint16(), Ok(0xabcd));
}

#[test]
fn varuint1_accepts_only_zero_and_one() {
    let code = vec![0x00, 0x01, 0x02];
    let mut parser = Parser::new(&code);
    assert_eq!(parser.varuint1(), Ok(false));
    assert_eq!(parser.varuint1(), Ok(true));
    assert_eq!(parser.varuint1(), Err(Error::InvalidVaruint1));
    assert_eq!(parser.cursor(), 3);

    let code = vec![0x81];
    assert_eq!(Parser::new(&code).varuint1(), Err(Error::InvalidVaruint1));
}

#[test]
fn varuint7_reads_every_value_below_128_and_refuses_the_rest() {
    for byte in 0u8..=255 {
        let code = vec![byte];
        let mut parser = Parser::new(&code);
        let expected = if byte < 128 { Ok(byte) } else { Err(Error::InvalidVaruint7) };
        assert_eq!(parser.varuint7(), expected);
        assert_eq!(parser.cursor(), 1);
    }
}

#[test]
fn varint7_extends_the_sign() {
    assert_eq!(Parser::new(&vec![0x7f]).varint7(), Ok(-1));
    assert_eq!(Parser::new(&vec![0x60]).varint7(), Ok(-32));
    assert_eq!(Parser::new(&vec![0x40]).varint7(), Ok(-64));
    assert_eq!(Parser::new(&vec![0x3f]).varint7(), Ok(63));
    assert_eq!(Parser::new(&vec![0x00]).varint7(), Ok(0));
    for byte in 0u8..=255 {
        let code = vec![byte];
        let expected = if byte >= 128 {
            Err(Error::InvalidVarint7)
        } else if byte >= 64 {
            Ok((byte as i16 - 128) as i8)
        } else {
            Ok(byte as i8)
        };
        assert_eq!(Parser::new(&code).varint7(), expected);
    }
}

#[test]
fn five_flagged_bytes_are_invalid_whatever_follows() {
    let alone = vec![0x80, 0x80, 0x80, 0x80, 0x80];
    let followed = vec![0xff, 0x80, 0xff, 0x80, 0xff, 0x00, 0x01];
    for code in [alone, followed] {
        let mut parser = Parser::new(&code);
        assert_eq!(parser.varuint32(), Err(Error::InvalidVaruint32));
        assert_eq!(parser.cursor(), 5);
        let mut parser = Parser::new(&code);
        assert_eq!(parser.varint32(), Err(Error::InvalidVarint32));
        assert_eq!(parser.cursor(), 5);
    }
}

#[test]
fn four_flagged_bytes_and_no_more_are_a_want_of_bytes() {
    let code = vec![0x80, 0x80, 0x80, 0x80];
    let mut parser = Parser::new(&code);
    assert_eq!(parser.varuint32(), Err(Error::BufferEndReached));
    assert_eq!(parser.cursor(), 4);
    let mut parser = Parser::new(&code);
    assert_eq!(parser.varint32(), Err(Error::BufferEndReached));
    assert_eq!(parser.cursor(), 4);
}

#[test]
fn varuint32_drops_the_bits_the_fifth_byte_has_too_many() {
    let code = vec![0xff, 0xff, 0xff, 0xff, 0x7f];
    assert_eq!(Parser::new(&code).varuint32(), Ok(0xffff_ffff));
    let code = vec![0x80, 0x80, 0x80, 0x80, 0x70];
    assert_eq!(Parser::new(&code).varuint32(), Ok(0));
}

#[test]
fn varuint32_reads_short_fields() {
    assert_eq!(Parser::new(&vec![0x00]).varuint32(), Ok(0));
    assert_eq!(Parser::new(&vec![0x7f]).varuint32(), Ok(127));
    assert_eq!(Parser::new(&vec![0x80, 0x01]).varuint32(), Ok(128));
    assert_eq!(Parser::new(&vec![0xe5, 0x8e, 0x26]).varuint32(), Ok(624_485));
}

#[test]
fn varint32_reads_short_fields() {
    assert_eq!(Parser::new(&vec![0x00]).varint32(), Ok(0));
    assert_eq!(Parser::new(&vec![0x3f]).varint32(), Ok(63));
    assert_eq!(Parser::new(&vec![0x40]).varint32(), Ok(-64));
    assert_eq!(Parser::new(&vec![0x7f]).varint32(), Ok(-1));
    assert_eq!(Parser::new(&vec![0xc0, 0xbb, 0x78]).varint32(), Ok(-123_456));
    assert_eq!(Parser::new(&vec![0xff, 0xff, 0xff, 0xff, 0x07]).varint32(), Ok(i32::MAX));
    assert_eq!(Parser::new(&vec![0x80, 0x80, 0x80, 0x80, 0x78]).varint32(), Ok(i32::MIN));
}

#[test]
fn varint64_reads_fields_of_up_to_nine_bytes() {
    assert_eq!(Parser::new(&vec![0x00]).varint64(), Ok(0));
    assert_eq!(Parser::new(&vec![0x7f]).varint64(), Ok(-1));
    assert_eq!(Parser::new(&vec![0xc0, 0xbb, 0x78]).varint64(), Ok(-123_456));
    let eight = vec![0x80, 0x80, 0x80, 0x80, 0x80, 0x80, 0x80, 0x40];
    assert_eq!(Parser::new(&eight).varint64(), Ok(-(1i64 << 55)));
    let nine = vec![0xff, 0xff, 0xff, 0xff, 0xff, 0xff, 0xff, 0xff, 0x3f];
    let mut parser = Parser::new(&nine);
    assert_eq!(parser.varint64(), Ok((1i64 << 62) - 1));
    assert_eq!(parser.cursor(), 9);
}

#[test]
fn varint64_does_not_extend_the_sign_of_a_nine_byte_field() {
    let code = vec![0x80, 0x80, 0x80, 0x80, 0x80, 0x80, 0x80, 0x80, 0x7f];
    assert_eq!(Parser::new(&code).varint64(), Ok(0x7f << 56));
}

#[test]
fn varint64_refuses_nine_flagged_bytes() {
    let code = vec![0x80, 0x80, 0x80, 0x80, 0x80, 0x80, 0x80, 0x80, 0x80, 0x00];
    let mut parser = Parser::new(&code);
    assert_eq!(parser.varint64(), Err(Error::InvalidVarint64));
    assert_eq!(parser.cursor(), 9);
    let code = vec![0x80, 0x80, 0x80, 0x80, 0x80, 0x80, 0x80, 0x80];
    let mut parser = Parser::new(&code);
    assert_eq!(parser.varint64(), Err(Error::BufferEndReached));
    assert_eq!(parser.cursor(), 8);
}

#[test]
fn section_hands_out_id_and_payload() {
    let code = vec![0x07, 0x03, 0xaa, 0xbb, 0xcc, 0x09];
    let mut parser = Parser::new(&code);
    let (id, payload) = parser.section().unwrap();
    assert_eq!(id, 7);
    assert_eq!(payload, &[0xaa, 0xbb, 0xcc]);
    assert_eq!(parser.cursor(), 5);
}

#[test]
fn section_with_a_length_past_the_end_is_refused_behind_the_length() {
    let code = vec![0x07, 0x04, 0xaa, 0xbb, 0xcc];
    let mut parser = Parser::new(&code);
    assert!(matches!(parser.section(), Err(Error::BufferEndReached)));
    assert_eq!(parser.cursor(), 2);
}

#[test]
fn section_passes_on_the_refusals_of_its_fields() {
    let code = vec![0x80, 0x00];
    let mut parser = Parser::new(&code);
    assert!(matches!(parser.section(), Err(Error::InvalidVaruint7)));
    assert_eq!(parser.cursor(), 1);
    let code = vec![0x01, 0x80, 0x80, 0x80, 0x80, 0x80, 0x00];
    let mut parser = Parser::new(&code);
    assert!(matches!(parser.section(), Err(Error::InvalidVaruint32)));
    assert_eq!(parser.cursor(), 6);
    let code = vec![0x01];
    let mut parser = Parser::new(&code);
    assert!(matches!(parser.section(), Err(Error::BufferEndReached)));
    assert_eq!(parser.cursor(), 1);
}

#[test]
fn module_body_keeps_signature_sections_and_skips_the_others() {
    let code = vec![
        0x00, 0x02, 0xde, 0xad, // a section that is passed over
        0x01, 0x03, 0x01, 0x60, 0x00, // signatures
        0x0b, 0x00, // an empty section
        0x01, 0x00, // signatures, empty
        0x7f, 0x01, 0xff, // an unknown id
    ];
    let mut parser = Parser::new(&code);
    assert_eq!(parser.module_body(), Ok(()));
    assert_eq!(parser.cursor(), code.len());
    // The body is at its end: a second walk finds nothing more.
    assert_eq!(parser.module_body(), Ok(()));
    let module = decode(&with_preamble(&code)).unwrap();
    assert_eq!(module.signatures, vec![vec![0x01, 0x60, 0x00], vec![]]);
}

#[test]
fn module_of_a_bare_preamble_is_empty() {
    let code = PREAMBLE.to_vec();
    let mut parser = Parser::new(&code);
    let module = parser.module().unwrap();
    assert!(module.signatures.is_empty());
    assert_eq!(parser.cursor(), 8);
}

#[test]
fn module_is_refused_as_a_whole() {
    // A good signature section, then one whose length overruns the input.
    let code = with_preamble(&[0x01, 0x01, 0x60, 0x01, 0x05, 0x00]);
    assert!(matches!(decode(&code), Err(Error::BufferEndReached)));
    let mut parser = Parser::new(&code);
    assert!(matches!(parser.module(), Err(Error::BufferEndReached)));
    assert_eq!(parser.cursor(), 8 + 3 + 2);

    let code = with_preamble(&[0x81]);
    assert!(matches!(decode(&code), Err(Error::InvalidVaruint7)));
    let code = with_preamble(&[0x01, 0xff, 0xff, 0xff, 0xff, 0xff]);
    assert!(matches!(decode(&code), Err(Error::InvalidVaruint32)));
    let code = vec![0x00, 0x61, 0x73, 0x6d, 0x02, 0x00, 0x00, 0x00, 0x01, 0x00];
    assert!(matches!(decode(&code), Err(Error::InvalidVersionNumber)));
    let code = vec![0x00, 0x61, 0x73, 0x6e, 0x01, 0x00, 0x00, 0x00];
    assert!(matches!(decode(&code), Err(Error::InvalidMagicNumber)));
}

#[test]
fn module_hands_the_blocks_over_and_starts_afresh() {
    let code = with_preamble(&[0x01, 0x02, 0x10, 0x20]);
    let mut parser = Parser::new(&code);
    let module = parser.module().unwrap();
    assert_eq!(module.signatures, vec![vec![0x10, 0x20]]);
    assert_eq!(parser.cursor(), code.len());
}

#[test]
fn decoding_twice_gives_the_same() {
    let good = with_preamble(&[0x01, 0x02, 0x10, 0x20, 0x05, 0x00]);
    let first = decode(&good).unwrap();
    let second = decode(&good).unwrap();
    assert_eq!(first.signatures, second.signatures);
    let bad = with_preamble(&[0x01, 0x02, 0x10]);
    assert_eq!(decode(&bad).unwrap_err(), decode(&bad).unwrap_err());
}

#[test]
fn record_keeps_only_the_signature_section() {
    let mut module = Module::new();
    assert!(module.signatures.is_empty());
    module.record(0, &[1, 2]);
    module.record(2, &[3]);
    assert!(module.signatures.is_empty());
    module.record(1, &[4, 5, 6]);
    module.record(1, &[]);
    assert_eq!(module.signatures, vec![vec![4, 5, 6], vec![]]);
}

#[test]
fn absorb_appends_in_order() {
    let mut first = Module::new();
    first.record(1, &[1]);
    let mut second = Module::new();
    second.record(1, &[2]);
    second.record(1, &[3]);
    first.absorb(second);
    assert_eq!(first.signatures, vec![vec![1], vec![2], vec![3]]);
}

#[test]
fn clones_are_equal_and_independent() {
    let mut module = Module::new();
    module.record(1, &[9, 8]);
    let mut copy = module.clone();
    assert_eq!(copy.signatures, module.signatures);
    copy.record(1, &[7]);
    assert_eq!(module.signatures.len(), 1);

    let code = vec![0x05, 0x06, 0x07];
    let mut parser = Parser::new(&code);
    assert_eq!(parser.uint8(), Ok(5));
    let mut twin = parser.clone();
    assert_eq!(twin.cursor(), 1);
    assert_eq!(twin.uint8(), Ok(6));
    assert_eq!(parser.cursor(), 1);
    assert_eq!(parser.uint16(), Ok(0x0706));
}

#[test]
fn cursor_reads_and_counts() {
    let buffer = vec![0x0a, 0x0b, 0x0c];
    let mut cursor = Cursor::new(&buffer);
    assert_eq!(cursor.position(), 0);
    assert_eq!(cursor.remaining(), 3);
    assert_eq!(cursor.read_byte(), Some(0x0a));
    assert_eq!(cursor.read_bytes(3), None);
    assert_eq!(cursor.position(), 1);
    let twin = cursor.clone();
    let expected: &[u8] = &[0x0b, 0x0c];
    assert_eq!(cursor.read_bytes(2), Some(expected));
    assert_eq!(cursor.remaining(), 0);
    assert_eq!(cursor.read_byte(), None);
    assert_eq!(cursor.position(), 3);
    assert_eq!(twin.position(), 1);
}

#[test]
fn into_module_hands_over_what_the_body_gathered() {
    let code = vec![0x01, 0x01, 0x60, 0x02, 0x00, 0x01, 0x02, 0x61, 0x62];
    let mut parser = Parser::new(&code);
    assert_eq!(parser.module_body(), Ok(()));
    let module = parser.into_module();
    assert_eq!(module.signatures, vec![vec![0x60], vec![0x61, 0x62]]);
}

#[test]
fn module_body_that_fails_leaves_the_module_as_it_was() {
    let code = vec![0x01, 0x01, 0x60, 0x01, 0x01, 0x61, 0x01, 0x09, 0x00];
    let mut parser = Parser::new(&code);
    assert_eq!(parser.section().map(|(id, _)| id), Ok(1));
    assert_eq!(parser.module_body(), Err(Error::BufferEndReached));
    assert_eq!(parser.cursor(), 8);
    assert!(parser.into_module().signatures.is_empty());
}
