use nwn_lib::error::{Error, FileError, ParseFault};
use nwn_lib::files::{
    i16_to_u16, i32_to_u32, i64_to_u64, push_u32_le, push_u64_le, u16_from_le, u16_to_i16,
    u32_from_le, u32_to_i32, u64_from_le, u64_to_i64, write_all, ByteReader, Offset,
};

#[test]
fn little_endian_numbers() {
    assert_eq!(u16_from_le(&[0x34, 0x12]), 0x1234);
    assert_eq!(u32_from_le(&[0x78, 0x56, 0x34, 0x12, 0xff]), 0x1234_5678);
    assert_eq!(
        u64_from_le(&[0xef, 0xcd, 0xab, 0x89, 0x67, 0x45, 0x23, 0x01]),
        0x0123_4567_89ab_cdef
    );
    let mut out = vec![9];
    push_u32_le(&mut out, 0x1234_5678);
    push_u64_le(&mut out, 0x0123_4567_89ab_cdef);
    let mut expected = vec![9];
    expected.extend_from_slice(&0x1234_5678u32.to_le_bytes());
    expected.extend_from_slice(&0x0123_4567_89ab_cdefu64.to_le_bytes());
    assert_eq!(out, expected);
    for x in [0u32, 1, 255, 256, 65_535, 65_536, u32::MAX] {
        let mut b = vec![];
        push_u32_le(&mut b, x);
        assert_eq!(b, x.to_le_bytes());
        assert_eq!(u32_from_le(&b), x);
    }
}

#[test]
fn signed_and_unsigned_readings() {
    for x in [0u16, 1, 0x7fff, 0x8000, 0xffff] {
        assert_eq!(u16_to_i16(x), x as i16);
        assert_eq!(i16_to_u16(x as i16), x);
    }
    for x in [0u32, 1, 0x7fff_ffff, 0x8000_0000, u32::MAX] {
        assert_eq!(u32_to_i32(x), x as i32);
        assert_eq!(i32_to_u32(x as i32), x);
    }
    for x in [0u64, 1, i64::MAX as u64, 1 << 63, u64::MAX] {
        assert_eq!(u64_to_i64(x), x as i64);
        assert_eq!(i64_to_u64(x as i64), x);
    }
}

#[test]
fn reader_reads_and_seeks() {
    let data = [1u8, 2, 3, 4, 5, 6, 7, 8, 9, 10, 11, 12, 13];
    let mut r = ByteReader::new(&data);
    assert_eq!(r.read_u8(), Ok(1));
    assert_eq!(r.read_u32_le(), Ok(u32::from_le_bytes([2, 3, 4, 5])));
    assert_eq!(r.position(), 5);
    assert_eq!(r.read_u64_le(), Ok(u64::from_le_bytes([6, 7, 8, 9, 10, 11, 12, 13])));
    assert_eq!(r.read_u8(), Err(Error::ParseError(ParseFault::UnexpectedEof)));
    assert_eq!(r.position(), 13);
    r.seek_to(11);
    assert_eq!(r.read_exact(2), Ok(&data[11..]));
    r.seek_to(100);
    assert_eq!(r.read_exact(0), Err(Error::ParseError(ParseFault::UnexpectedEof)));
    r.seek_to(12);
    assert_eq!(r.read_u32_le(), Err(Error::ParseError(ParseFault::UnexpectedEof)));
    assert_eq!(r.position(), 12);
    assert_eq!(r.skip(3), Ok(()));
    assert_eq!(r.position(), 15);
    assert!(r.skip(usize::MAX).is_err());
}

#[test]
fn offsets_seek() {
    let data = [0u8; 8];
    let mut r = ByteReader::new(&data);
    assert_eq!(Offset(3).seek_to(&mut r), 3);
    assert_eq!(r.position(), 3);
    assert_eq!(Offset(3).seek_with_offset(&mut r, Offset(4)), Some(7));
    assert_eq!(r.position(), 7);
    assert_eq!(Offset(1).checked_add(2), Some(Offset(3)));
    assert_eq!(Offset(u32::MAX).checked_add(1), None);
}

#[test]
fn write_all_appends() {
    let mut out = vec![1];
    write_all(&mut out, &[2, 3]).unwrap();
    assert_eq!(out, vec![1, 2, 3]);
}

#[test]
fn file_errors_carry_the_file_name() {
    let e = FileError::from_err("a.ifo".to_string(), Error::InvalidStrRef { value: 2 });
    assert_eq!(e.file, "a.ifo");
    assert_eq!(e.err, Error::InvalidStrRef { value: 2 });
    let ok: Result<u8, FileError> = FileError::from_result("a.ifo".to_string(), Ok(3));
    assert_eq!(ok.unwrap(), 3);
    let err: Result<u8, FileError> = FileError::from_result(
        "b.ifo".to_string(),
        Err(Error::ParseError(ParseFault::TooLong)),
    );
    let err = err.unwrap_err();
    assert_eq!(err.file, "b.ifo");
    assert_eq!(err.err, Error::ParseError(ParseFault::TooLong));
}
