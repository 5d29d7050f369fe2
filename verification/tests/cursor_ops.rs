use aluvm::cursor::{Cursor, CursorError};

#[test]
fn bit_fields_compose_into_one_byte() {
    // Writing a 1-bit value 1 then a 7-bit value 42 into a fresh byte and
    // reading a 1-bit then a 7-bit field back yields (1, 42).
    let mut w = Cursor::with(vec![0u8], vec![]);
    w.write_u1(1).unwrap();
    w.write_u7(42).unwrap();
    let byte = w.code[0];
    assert_eq!(byte, 1 | (42 << 1));

    let mut r = Cursor::with(vec![byte], vec![]);
    assert_eq!(r.read_u1().unwrap(), 1);
    assert_eq!(r.read_u7().unwrap(), 42);
}

#[test]
fn bit_fields_bool_and_small_widths() {
    let mut w = Cursor::with(vec![0u8], vec![]);
    w.write_bool(true).unwrap();
    w.write_u2(3).unwrap();
    w.write_u5(17).unwrap();
    let byte = w.code[0];

    let mut r = Cursor::with(vec![byte], vec![]);
    assert!(r.read_bool().unwrap());
    assert_eq!(r.read_u2().unwrap(), 3);
    assert_eq!(r.read_u5().unwrap(), 17);
}

#[test]
fn byte_words_little_endian() {
    let code = vec![0x34, 0x12, 0xFE, 0xFF, 0x78, 0x56, 0x34];
    let mut r = Cursor::with(code, vec![]);
    assert_eq!(r.read_u16().unwrap(), 0x1234);
    assert_eq!(r.read_i16().unwrap(), -2);
    assert_eq!(r.read_u24().unwrap(), 0x345678);
    assert_eq!(r.pos(), 7);
    assert!(r.is_end());
}

#[test]
fn byte_words_write_then_read() {
    let mut w = Cursor::with(vec![0u8; 7], vec![]);
    w.write_u16(0xBEEF).unwrap();
    w.write_i16(-2).unwrap();
    w.write_u24(0xABCDEF).unwrap();
    let mut r = Cursor::with(w.code.clone(), vec![]);
    assert_eq!(r.read_u16().unwrap(), 0xBEEF);
    assert_eq!(r.read_i16().unwrap(), -2);
    assert_eq!(r.read_u24().unwrap(), 0xABCDEF);
}

#[test]
fn bytes32_write_then_read() {
    let mut payload: Vec<u8> = Vec::new();
    for i in 0..32u8 {
        payload.push(i * 3);
    }
    let mut w = Cursor::with(vec![0u8; 40], vec![]);
    w.write_bytes32(&payload).unwrap();
    w.seek(0);
    let got = w.read_bytes32().unwrap();
    assert_eq!(got, payload);
    assert_eq!(w.pos(), 32);
}

#[test]
fn peek_does_not_advance() {
    let mut r = Cursor::with(vec![9u8, 7u8], vec![]);
    assert_eq!(r.peek_u8().unwrap(), 9);
    assert_eq!(r.pos(), 0);
    assert_eq!(r.read_u8().unwrap(), 9);
    assert_eq!(r.peek_u8().unwrap(), 7);
}

#[test]
fn eof_flag_raised_at_top_of_address_space() {
    let mut r = Cursor::with(vec![0u8; 65536], vec![]);
    r.seek(65535);
    assert!(!r.is_eof());
    assert_eq!(r.read_u8().unwrap(), 0);
    assert!(r.is_eof());
    assert_eq!(r.pos(), 65535);
    assert!(matches!(r.read_u8(), Err(CursorError::Eof)));
}

#[test]
fn write_after_eof_fails() {
    let mut w = Cursor::with(vec![0u8; 65536], vec![]);
    w.seek(65535);
    w.write_u8(5).unwrap();
    assert!(w.is_eof());
    assert!(matches!(w.write_u8(6), Err(CursorError::Eof)));
}

#[test]
fn multi_byte_advance_past_end_is_out_of_boundaries() {
    let mut r = Cursor::with(vec![0u8; 65536], vec![]);
    r.seek(65534);
    assert!(matches!(r.read_u16(), Err(CursorError::OutOfBoundaries(65536))));
    // The failed advance leaves the position alone.
    assert_eq!(r.pos(), 65534);
}

#[test]
fn data_allocator_deduplicates() {
    // Writing the same byte sequence twice yields the same stored offset
    // both times, and the data buffer grows by its length only once.
    let mut w = Cursor::with(vec![0u8; 16], vec![]);
    w.write_data(&b"ABC".to_vec()).unwrap();
    assert_eq!(w.data, b"ABC".to_vec());
    w.write_data(&b"ABC".to_vec()).unwrap();
    assert_eq!(w.data, b"ABC".to_vec());
    assert_eq!(w.data.len(), 3);

    let mut r = Cursor::with(w.code.clone(), w.data.clone());
    let (first, ovf1) = r.read_data().unwrap();
    let (second, ovf2) = r.read_data().unwrap();
    assert_eq!(first, b"ABC".to_vec());
    assert_eq!(second, b"ABC".to_vec());
    assert!(!ovf1);
    assert!(!ovf2);
    // Both references name the same offset, zero.
    assert_eq!(&w.code[0..3], &[0, 0, 0]);
    assert_eq!(&w.code[5..8], &[0, 0, 0]);
}

#[test]
fn data_allocator_reuses_interior_occurrence() {
    let mut w = Cursor::with(vec![0u8; 16], vec![]);
    w.write_data(&b"ABCDE".to_vec()).unwrap();
    w.write_data(&b"BCD".to_vec()).unwrap();
    // The second value already occurs inside the first at offset 1.
    assert_eq!(w.data, b"ABCDE".to_vec());
    assert_eq!(&w.code[5..8], &[1, 0, 0]);
    assert_eq!(&w.code[8..10], &[3, 0]);
}

#[test]
fn read_data_soft_overflow_clamps_and_flags() {
    // offset 1, length 10 against a 3-byte data buffer: the slice is
    // clamped and the overflow flag is raised, never a hard failure.
    let code = vec![1, 0, 0, 10, 0];
    let data = vec![9, 8, 7];
    let mut r = Cursor::with(code, data);
    let (slice, overflow) = r.read_data().unwrap();
    assert_eq!(slice, vec![8, 7]);
    assert!(overflow);
}

#[test]
fn read_data_within_bounds_has_no_overflow() {
    let code = vec![1, 0, 0, 2, 0];
    let data = vec![9, 8, 7];
    let mut r = Cursor::with(code, data);
    let (slice, overflow) = r.read_data().unwrap();
    assert_eq!(slice, vec![8, 7]);
    assert!(!overflow);
}

#[test]
fn read_number_must_be_exact() {
    let code = vec![0, 0, 0];
    let data = vec![1, 2, 3];
    let mut r = Cursor::with(code.clone(), data.clone());
    assert_eq!(r.read_number(3).unwrap(), vec![1, 2, 3]);

    let mut r2 = Cursor::with(code, data);
    assert!(matches!(r2.read_number(4), Err(CursorError::Eof)));
}

#[test]
fn write_number_stores_through_allocator() {
    let mut w = Cursor::with(vec![0u8; 6], vec![]);
    w.write_number(&vec![7, 7]).unwrap();
    assert_eq!(w.data, vec![7, 7]);
    assert_eq!(&w.code[0..3], &[0, 0, 0]);
    w.write_number(&vec![7]).unwrap();
    // The one-byte value occurs at offset 0 already: nothing is appended.
    assert_eq!(w.data, vec![7, 7]);
    assert_eq!(&w.code[3..6], &[0, 0, 0]);
}

#[test]
fn oversized_data_write_is_refused() {
    let mut w = Cursor::with(vec![0u8; 8], vec![]);
    let big = vec![1u8; 65536];
    assert!(matches!(w.write_data(&big), Err(CursorError::OutOfBoundaries(65536))));
}

#[test]
fn oversized_number_write_is_refused() {
    // A value that would carry the data segment past its bound fails with
    // the out-of-boundaries condition instead of being stored.
    let mut w = Cursor::with(vec![0u8; 8], vec![]);
    let big = vec![1u8; 16777217];
    assert!(matches!(w.write_number(&big), Err(CursorError::OutOfBoundaries(16777217))));
    assert_eq!(w.data.len(), 0);
    assert_eq!(w.pos(), 0);
}

#[test]
fn into_data_returns_the_accumulated_segment() {
    let mut w = Cursor::with(vec![0u8; 8], vec![]);
    w.write_data(&b"xy".to_vec()).unwrap();
    let data = w.into_data();
    assert_eq!(data, b"xy".to_vec());
}
