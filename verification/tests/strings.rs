use nwn_lib::error::{EnumType, Error, ErrorKind, ParseFault, WriteFault};
use nwn_lib::files::gff::exo_string::{ExoLocString, ExoLocSubString, ExoString};
use nwn_lib::files::gff::void::Void;
use nwn_lib::files::res_ref::ResRef;
use nwn_lib::files::tlk::Tlk;
use nwn_lib::files::{ByteReader, Gender, Language};

#[test]
fn exo_read_and_write_test() {
    let data = [0x04, 0x00, 0x00, 0x00, b'T', b'e', b's', b't'];

    let x = ExoString::read(&mut ByteReader::new(&data)).unwrap();
    assert_eq!(x, ExoString::from_text("Test").unwrap());

    let mut output = vec![];
    x.write(&mut output).unwrap();
    assert_eq!(output.as_slice(), &data)
}

#[test]
fn exo_string_read_test() {
    let mut data = Vec::<u8>::new();

    let str_data = [b'T', b'e', b's', b't'];

    data.extend_from_slice(&(str_data.len() as i32).to_le_bytes());
    data.extend_from_slice(&str_data);

    let x = ExoString::read(&mut ByteReader::new(&data)).unwrap();
    assert_eq!(x, ExoString::from_text("Test").unwrap());
    assert_eq!(x.text(), "Test");
}

#[test]
fn exo_loc_read_and_write_test() {
    let str = ExoLocString {
        str_ref: u32::MAX,
        tlk_string: None,
        substrings: vec![ExoLocSubString {
            gender: Gender::Masculine,
            language: Language::English,
            data: ExoString::from_text("Hello").unwrap(),
        }],
    };

    let mut buf = vec![];
    str.write(&mut buf).unwrap();

    let tlk = Tlk::default();
    let str_2 = ExoLocString::read(&mut ByteReader::new(&buf), Some(&tlk)).unwrap();

    assert_eq!(str, str_2)
}

fn empty_tlk() -> Vec<u8> {
    let mut bytes = b"TLK V3.0".to_vec();
    bytes.extend_from_slice(&0u32.to_le_bytes());
    bytes.extend_from_slice(&0u32.to_le_bytes());
    bytes.extend_from_slice(&20u32.to_le_bytes());
    bytes
}

#[test]
fn res_ref_read_and_write_test() {
    let data = [5, b'h', b'e', b'l', b'l', b'o'];
    let mut reader = ByteReader::new(&data);

    let r = ResRef::read(&mut reader).unwrap();

    assert_eq!(r, ResRef::from_text("hello").unwrap());
    assert_eq!(reader.position(), 6);

    let mut output = vec![];
    r.write(&mut output).unwrap();

    assert_eq!(&data.as_slice(), &output)
}

#[test]
fn res_ref_read_test() {
    let data = [5, b'h', b'e', b'l', b'l', b'o'];
    let mut reader = ByteReader::new(&data);

    let r = ResRef::read(&mut reader).unwrap();

    assert_eq!(r, ResRef::from_text("hello").unwrap());
    assert_eq!(reader.position(), 6);
}

#[test]
fn res_ref_count_above_sixteen_is_taken_for_sixteen() {
    let mut data = vec![20u8];
    data.extend_from_slice(b"abcdefghijklmnopqrstuvwxyz");
    let mut reader = ByteReader::new(&data);
    let r = ResRef::read(&mut reader).unwrap();
    assert_eq!(r.text(), "abcdefghijklmnop");
    assert_eq!(reader.position(), 17);
}

#[test]
fn res_ref_truncated_input_is_a_parse_error() {
    let data = [5, b'h', b'e'];
    assert_eq!(
        ResRef::read(&mut ByteReader::new(&data)),
        Err(Error::ParseError(ParseFault::UnexpectedEof))
    );
    assert_eq!(
        ResRef::read(&mut ByteReader::new(&[])),
        Err(Error::ParseError(ParseFault::UnexpectedEof))
    );
}

#[test]
fn exo_string_truncated_input_is_a_parse_error() {
    let data = [0x05, 0x00, 0x00, 0x00, b'T', b'e', b's', b't'];
    assert_eq!(
        ExoString::read(&mut ByteReader::new(&data)),
        Err(Error::ParseError(ParseFault::UnexpectedEof))
    );
    let data = [0x05, 0x00];
    assert_eq!(
        ExoString::read(&mut ByteReader::new(&data)),
        Err(Error::ParseError(ParseFault::UnexpectedEof))
    );
}

#[test]
fn exo_string_too_long_is_a_parse_error() {
    let data = [0x00, 0x00, 0x00, 0x01, b'T'];
    assert_eq!(
        ExoString::read(&mut ByteReader::new(&data)),
        Err(Error::ParseError(ParseFault::TooLong))
    );
}

#[test]
fn exo_string_text_uses_the_legacy_encoding() {
    let s = ExoString::from_text("na\u{ef}ve \u{20ac}").unwrap();
    assert_eq!(s.as_bytes(), &[b'n', b'a', 0xef, b'v', b'e', b' ', 0x80]);
    assert_eq!(s.text(), "na\u{ef}ve \u{20ac}");
    let mut out = vec![];
    s.write(&mut out).unwrap();
    assert_eq!(out[..4], 7u32.to_le_bytes());
}

#[test]
fn void_read_and_write() {
    let data = [3, 0, 0, 0, 0xde, 0xad, 0xbe, 0xef];
    let mut reader = ByteReader::new(&data);
    let v = Void::read(&mut reader).unwrap();
    assert_eq!(v.data, vec![0xde, 0xad, 0xbe]);
    assert_eq!(reader.position(), 7);
    let mut out = vec![0xaa];
    v.write(&mut out).unwrap();
    assert_eq!(out, vec![0xaa, 3, 0, 0, 0, 0xde, 0xad, 0xbe]);
    assert_eq!(
        Void::read(&mut ByteReader::new(&[9, 0, 0, 0, 1])),
        Err(Error::ParseError(ParseFault::UnexpectedEof))
    );
}

#[test]
fn exo_loc_wire_form() {
    let s = ExoLocString {
        str_ref: 7,
        tlk_string: None,
        substrings: vec![
            ExoLocSubString {
                gender: Gender::Feminine,
                language: Language::German,
                data: ExoString::from_text("Hallo").unwrap(),
            },
            ExoLocSubString {
                gender: Gender::Masculine,
                language: Language::Japanese,
                data: ExoString::from_text("").unwrap(),
            },
        ],
    };
    assert_eq!(s.substrings[0].get_file_data_size(), 13);
    assert_eq!(ExoLocString::get_total_size(&s.substrings), Some(29));
    let mut out = vec![];
    s.write(&mut out).unwrap();
    let mut expected = vec![];
    expected.extend_from_slice(&29u32.to_le_bytes());
    expected.extend_from_slice(&7u32.to_le_bytes());
    expected.extend_from_slice(&2u32.to_le_bytes());
    expected.extend_from_slice(&5u32.to_le_bytes());
    expected.extend_from_slice(&5u32.to_le_bytes());
    expected.extend_from_slice(b"Hallo");
    expected.extend_from_slice(&262u32.to_le_bytes());
    expected.extend_from_slice(&0u32.to_le_bytes());
    assert_eq!(out, expected);

    let back = ExoLocString::read(&mut ByteReader::new(&out), None).unwrap();
    assert_eq!(back, s);
}

#[test]
fn exo_loc_errors() {
    let mut bytes = vec![];
    bytes.extend_from_slice(&8u32.to_le_bytes());
    bytes.extend_from_slice(&u32::MAX.to_le_bytes());
    bytes.extend_from_slice(&1u32.to_le_bytes());
    bytes.extend_from_slice(&0u32.to_le_bytes());
    bytes.extend_from_slice(&0u32.to_le_bytes());
    assert_eq!(
        ExoLocString::read(&mut ByteReader::new(&bytes), None),
        Err(Error::ParseError(ParseFault::SizeMismatch))
    );

    let mut bytes = vec![];
    bytes.extend_from_slice(&16u32.to_le_bytes());
    bytes.extend_from_slice(&u32::MAX.to_le_bytes());
    bytes.extend_from_slice(&1u32.to_le_bytes());
    bytes.extend_from_slice(&40u32.to_le_bytes());
    bytes.extend_from_slice(&0u32.to_le_bytes());
    assert_eq!(
        ExoLocString::read(&mut ByteReader::new(&bytes), None),
        Err(Error::EnumError {
            enum_type: EnumType::Language,
            value: 20
        })
    );

    let mut bytes = vec![];
    bytes.extend_from_slice(&8u32.to_le_bytes());
    bytes.extend_from_slice(&3u32.to_le_bytes());
    bytes.extend_from_slice(&0u32.to_le_bytes());
    let tlk = Tlk::read(empty_tlk()).unwrap();
    assert_eq!(
        ExoLocString::read(&mut ByteReader::new(&bytes), Some(&tlk)),
        Err(Error::InvalidStrRef { value: 3 })
    );
    let without = ExoLocString::read(&mut ByteReader::new(&bytes), None).unwrap();
    assert_eq!(without.str_ref, 3);
    assert_eq!(without.tlk_string, None);
}

#[test]
fn messages_of_errors() {
    assert_eq!(
        Error::ParseError(ParseFault::UnexpectedEof).message(),
        "parse error: the input ends too early"
    );
    assert_eq!(
        Error::WriteError(WriteFault::TooLarge).message(),
        "write error: a number does not fit in 32 bits"
    );
    assert_eq!(
        Error::InvalidStrRef { value: 4294967295 }.message(),
        "string reference not found: 4294967295"
    );
    assert_eq!(
        Error::EnumError { enum_type: EnumType::FieldType, value: 255 }.message(),
        "unexpected value for FieldType: 255"
    );
    assert_eq!(
        Error::AlignmentError { offset: 0 }.message(),
        "offset not aligned on four bytes: 0"
    );
    assert_eq!(ParseFault::BadNumber.text(), "a text is no number");
    assert_eq!(EnumType::Language.name(), "Language");
}

#[test]
fn defaults() {
    use_defaults();
}

fn use_defaults() {
    let tlk = Tlk::default();
    assert_eq!(tlk.header.string_count, 0);
    assert_eq!(tlk.get_from_str_ref(0), Err(Error::InvalidStrRef { value: 0 }));
    assert_eq!(tlk.get_from_str_ref(u32::MAX), Ok(String::new()));
    let file = nwn_lib::files::gff::bin::Gff::default();
    assert!(file.structs.is_empty());
    assert_eq!(file.header, nwn_lib::files::gff::Header::default());
    assert_eq!(
        nwn_lib::files::gff::FixedSizeString::<4>::default().as_bytes(),
        &[0u8; 4]
    );
}

#[test]
fn kinds_of_error() {
    assert_eq!(
        Error::WriteError(WriteFault::TooLarge).is_parse_error(),
        false
    );
    assert!(Error::ParseError(ParseFault::UnexpectedEof).is_parse_error());
    let tag = Error::EnumError { enum_type: EnumType::FieldType, value: 255 };
    assert!(tag.is_parse_error());
    assert_eq!(tag.kind(), ErrorKind::Parse);
    assert_eq!(Error::AlignmentError { offset: 3 }.kind(), ErrorKind::Alignment);
    assert_eq!(Error::WriteError(WriteFault::TooLarge).kind(), ErrorKind::Write);
    assert_eq!(Error::InvalidStrRef { value: 1 }.kind(), ErrorKind::Lookup);
}
