use nwn_lib::error::{EnumType, Error, ParseFault};
use nwn_lib::files::tlk::reader::{StringInfo, TlkReader};
use nwn_lib::files::tlk::{get_empty_string, resolve_text, Header, Tlk};
use nwn_lib::files::{ByteReader, Gender, Language, Offset};

fn table(language: u32, entries: &[&[u8]]) -> Vec<u8> {
    let mut bytes = b"TLK V3.0".to_vec();
    bytes.extend_from_slice(&language.to_le_bytes());
    bytes.extend_from_slice(&(entries.len() as u32).to_le_bytes());
    let text_start = 20 + 40 * entries.len() as u32;
    bytes.extend_from_slice(&text_start.to_le_bytes());
    let mut offset = 0u32;
    for e in entries {
        bytes.extend_from_slice(&[0xaa; 28]);
        bytes.extend_from_slice(&offset.to_le_bytes());
        bytes.extend_from_slice(&(e.len() as u32).to_le_bytes());
        bytes.extend_from_slice(&[0xbb; 4]);
        offset += e.len() as u32;
    }
    for e in entries {
        bytes.extend_from_slice(e);
    }
    bytes
}

#[test]
fn tlk_header_and_entries() {
    let bytes = table(2, &[b"Hello", b"", b"World"]);
    let tlk = Tlk::read(bytes).unwrap();
    assert_eq!(tlk.header.file_type, *b"TLK ");
    assert_eq!(tlk.header.file_version, *b"V3.0");
    assert_eq!(tlk.header.language, Language::German);
    assert_eq!(tlk.header.string_count, 3);
    assert_eq!(tlk.header.string_entry_offset, 140);
    assert_eq!(
        tlk.reader.string_info,
        vec![
            StringInfo { offset: Offset(0), size: 5 },
            StringInfo { offset: Offset(5), size: 0 },
            StringInfo { offset: Offset(5), size: 5 },
        ]
    );
    assert_eq!(tlk.get_from_str_ref(0), Ok("Hello".to_string()));
    assert_eq!(tlk.get_from_str_ref(1), Ok("".to_string()));
    assert_eq!(tlk.get_from_str_ref(2), Ok("World".to_string()));
    assert_eq!(tlk.get_from_str_ref(3), Err(Error::InvalidStrRef { value: 3 }));
    assert_eq!(tlk.get_from_str_ref(u32::MAX), Ok("".to_string()));
    assert_eq!(tlk.get_bytes_from_str_ref(2), Ok(b"World".to_vec()));
    assert_eq!(tlk.reader.read_index(0), Ok(b"Hello".to_vec()));
}

#[test]
fn tlk_text_is_read_as_lossy_utf8() {
    let tlk = Tlk::read(table(0, &[&[b'a', 0xff, b'b'], "\u{2713}".as_bytes()])).unwrap();
    assert_eq!(tlk.get_from_str_ref(0), Ok("a\u{fffd}b".to_string()));
    assert_eq!(tlk.get_from_str_ref(1), Ok("\u{2713}".to_string()));
}

#[test]
fn tlk_errors() {
    assert_eq!(
        Tlk::read(b"TLK V3".to_vec()).err(),
        Some(Error::ParseError(ParseFault::UnexpectedEof))
    );
    assert_eq!(
        Tlk::read(table(77, &[])).err(),
        Some(Error::EnumError { enum_type: EnumType::Language, value: 77 })
    );
    let mut cut = table(0, &[b"Hello"]);
    cut.truncate(20 + 30);
    assert_eq!(
        Tlk::read(cut).err(),
        Some(Error::ParseError(ParseFault::UnexpectedEof))
    );
    let mut short = table(0, &[b"Hello"]);
    short.truncate(20 + 40 + 3);
    let tlk = Tlk::read(short).unwrap();
    assert_eq!(
        tlk.get_from_str_ref(0),
        Err(Error::ParseError(ParseFault::UnexpectedEof))
    );
    let header = Header::read(&mut ByteReader::new(&table(0x0000_0103, &[]))).unwrap();
    assert_eq!(header.language, Language::Italian);
}

#[test]
fn resolve_text_skips_the_resolver_for_the_sentinel() {
    let tlk = Tlk::read(table(0, &[b"Hello"])).unwrap();
    assert_eq!(resolve_text(Some(&tlk), u32::MAX), Ok(None));
    assert_eq!(resolve_text(None, 0), Ok(None));
    assert_eq!(resolve_text(None, 9), Ok(None));
    assert_eq!(resolve_text(Some(&tlk), 0), Ok(Some("Hello".to_string())));
    assert_eq!(resolve_text(Some(&tlk), 9), Err(Error::InvalidStrRef { value: 9 }));
    assert_eq!(get_empty_string(), "");
}

#[test]
fn reader_from_parts() {
    let reader = TlkReader::new(
        vec![StringInfo { offset: Offset(1), size: 2 }],
        Offset(1),
        b"abcdef".to_vec(),
    );
    assert_eq!(reader.read_index(0), Ok(b"cd".to_vec()));
    assert_eq!(reader.read_index(1), Err(Error::InvalidStrRef { value: 1 }));
}

#[test]
fn languages_and_genders() {
    let all = [
        (Language::English, 0u8),
        (Language::French, 1),
        (Language::German, 2),
        (Language::Italian, 3),
        (Language::Spanish, 4),
        (Language::Polish, 5),
        (Language::Korean, 128),
        (Language::ChineseTraditional, 129),
        (Language::ChineseSimplified, 130),
        (Language::Japanese, 131),
    ];
    for (l, n) in all {
        assert_eq!(l.as_num(), n);
        assert_eq!(Language::try_from(n), Ok(l));
    }
    assert!(Language::try_from(6).is_err());
    assert!(Language::try_from(127).is_err());
    assert_eq!(Gender::try_from(0), Ok(Gender::Masculine));
    assert_eq!(Gender::try_from(1), Ok(Gender::Feminine));
    assert!(Gender::try_from(2).is_err());
    assert_eq!(Gender::Feminine.as_num(), 1);
    assert_eq!(Language::default(), Language::English);
    assert_eq!(Gender::default(), Gender::Masculine);
}
