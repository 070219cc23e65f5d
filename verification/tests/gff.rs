use nwn_lib::error::{EnumType, Error, ParseFault};
use nwn_lib::files::gff::bin::{
    Field as BinField, FieldType, Gff as BinGff, Struct as BinStruct,
};
use nwn_lib::files::gff::exo_string::{ExoLocString, ExoLocSubString, ExoString};
use nwn_lib::files::gff::field::{Field, LabeledField, U32Char};
use nwn_lib::files::gff::label::Label;
use nwn_lib::files::gff::structs::{Struct, StructField, StructOrigin};
use nwn_lib::files::gff::void::Void;
use nwn_lib::files::gff::{FixedSizeString, Gff, Header};
use nwn_lib::files::res_ref::ResRef;
use nwn_lib::files::tlk::Tlk;
use nwn_lib::files::{ByteReader, Gender, Language, Offset};

fn label(text: &str) -> Label {
    Label::from_text(text).unwrap()
}

fn cell(name: &str, field: Field) -> StructField {
    StructField::new(LabeledField::new(label(name), field))
}

fn made(id: u32, fields: Vec<StructField>) -> Struct {
    Struct {
        id,
        origin: StructOrigin::Synthesized,
        fields,
    }
}

fn tag(bytes: &[u8; 4]) -> FixedSizeString<4> {
    FixedSizeString::new(*bytes).unwrap()
}

fn sample_tree() -> Gff {
    let name = ExoLocString {
        str_ref: u32::MAX,
        tlk_string: None,
        substrings: vec![ExoLocSubString {
            gender: Gender::Masculine,
            language: Language::English,
            data: ExoString::from_text("Cassie").unwrap(),
        }],
    };
    let item = |n: u32| {
        made(
            n,
            vec![
                cell("Tag", Field::ExoString(ExoString::from_text("item").unwrap())),
                cell("Count", Field::Word(n as u16)),
            ],
        )
    };
    let root = made(
        u32::MAX,
        vec![
            cell("FirstName", Field::ExoLocString(name)),
            cell("Level", Field::Byte(7)),
            cell("Initial", Field::Char(U32Char(b'C' as u32))),
            cell("Gold", Field::DWord(123_456)),
            cell("Karma", Field::Int(-5)),
            cell("Step", Field::Short(-2)),
            cell("Seen", Field::DWord64(0x0102_0304_0506_0708)),
            cell("Debt", Field::Int64(-9)),
            cell("Speed", Field::Float(1.5f32.to_bits())),
            cell("Mass", Field::Double(2.25f64.to_bits())),
            cell("Portrait", Field::ResRef(ResRef::from_text("po_cassie").unwrap())),
            cell("Blob", Field::Void(Void { data: vec![1, 2, 3] })),
            cell(
                "Stats",
                Field::Struct(made(
                    2,
                    vec![cell("Level", Field::Byte(1)), cell("Empty", Field::Struct(made(9, vec![])))],
                )),
            ),
            cell("Items", Field::List(vec![item(10), item(11), made(12, vec![])])),
            cell("Nothing", Field::List(vec![])),
        ],
    );
    Gff {
        file_type: tag(b"IFO "),
        file_version: tag(b"V3.2"),
        root,
    }
}

fn strip_origin(s: &mut Struct) {
    s.origin = StructOrigin::Synthesized;
    for f in s.fields.iter_mut() {
        match &mut f.0.field {
            Field::Struct(c) => strip_origin(c),
            Field::List(l) => {
                for c in l.iter_mut() {
                    strip_origin(c)
                }
            }
            _ => {}
        }
    }
}

#[test]
fn register_label_test() {
    let mut file = BinGff::empty();

    let labels = [label("hello"), label("hello"), label("hello"), label("goodbye")];

    let indices: Vec<u32> = labels
        .iter()
        .map(|l| file.register_label(l).unwrap())
        .collect();

    assert_eq!(file.labels.len(), 2);

    assert_eq!(file.labels, vec![label("hello"), label("goodbye")]);
    assert_eq!(indices, vec![0, 0, 0, 1]);
}

fn setup_store_test(field: Field) -> (BinGff, LabeledField) {
    let file = BinGff::empty();

    let labeled_field = LabeledField {
        label: label("hello"),
        field,
    };

    (file, labeled_field)
}

#[test]
fn store_int_field_test() {
    let (mut file, labeled_field) = setup_store_test(Field::Int(4));

    file.store_field(&labeled_field).unwrap();

    assert_eq!(file.labels.len(), 1);
    assert_eq!(
        file.fields,
        [BinField {
            id: FieldType::Int,
            label_index: 0,
            data_or_data_offset: 4
        }]
    );
    assert!(file.field_data.is_empty());
}

#[test]
fn store_int64_field_test() {
    let (mut file, labeled_field) = setup_store_test(Field::Int64(8));

    file.store_field(&labeled_field).unwrap();
    assert_eq!(file.labels.len(), 1);
    assert_eq!(
        file.fields,
        [BinField {
            id: FieldType::Int64,
            label_index: 0,
            data_or_data_offset: 0
        }]
    );
    assert_eq!(file.field_data, 8i64.to_le_bytes())
}

#[test]
fn header_write_test() {
    let header = Header {
        file_type: FixedSizeString::new(*b"IFO ").unwrap(),
        file_version: FixedSizeString::new(*b"V3.2").unwrap(),
        struct_offset: Offset(1),
        struct_count: 2,
        field_offset: Offset(3),
        field_count: 4,
        label_offset: Offset(5),
        label_count: 6,
        field_data_offset: Offset(7),
        field_data_count: 8,
        field_indices_offset: Offset(9),
        field_indices_count: 10,
        list_indices_offset: Offset(11),
        list_indices_count: 12,
    };

    let mut buf = vec![];
    header.write(&mut buf).unwrap();

    let header_2 = Header::read(&mut ByteReader::new(&buf)).unwrap();

    assert_eq!(header, header_2);
    assert_eq!(buf.len(), 56);
    assert_eq!(&buf[..8], b"IFO V3.2");
    assert_eq!(buf[8..12], 1u32.to_le_bytes());
    assert_eq!(buf[52..56], 12u32.to_le_bytes());
}

#[test]
fn header_tags_must_be_utf8() {
    let mut bytes = vec![0xff, b'F', b'O', b' '];
    bytes.extend_from_slice(b"V3.2");
    bytes.extend_from_slice(&[0u8; 48]);
    assert_eq!(
        Header::read(&mut ByteReader::new(&bytes)),
        Err(Error::ParseError(ParseFault::InvalidUtf8))
    );
    assert_eq!(
        FixedSizeString::<4>::new([0xc3, 0x28, 0, 0]),
        Err(Error::ParseError(ParseFault::InvalidUtf8))
    );
    assert_eq!(tag(b"GFF ").to_str(), "GFF ");
    assert_eq!(tag(b"GFF ").as_bytes(), b"GFF ");
    assert_eq!(FixedSizeString::<4>::len(), 4);
}

#[test]
fn truncated_header_is_a_parse_error() {
    let bytes = b"IFO V3.2\x38\x00\x00\x00".to_vec();
    assert_eq!(
        Header::read(&mut ByteReader::new(&bytes)),
        Err(Error::ParseError(ParseFault::UnexpectedEof))
    );
    assert_eq!(
        Gff::read_without_tlk(&mut ByteReader::new(&bytes)),
        Err(Error::ParseError(ParseFault::UnexpectedEof))
    );
}

#[test]
fn written_tree_is_read_back() {
    let tree = sample_tree();
    let mut bytes = vec![];
    tree.write(&mut bytes).unwrap();

    let mut back = Gff::read_without_tlk(&mut ByteReader::new(&bytes)).unwrap();
    assert_eq!(back.file_type, tree.file_type);
    assert_eq!(back.file_version, tree.file_version);

    let mut again = vec![];
    back.write(&mut again).unwrap();
    assert_eq!(again, bytes);

    assert_eq!(back.root.origin, StructOrigin::FromFile(0));
    match &back.root.fields[12].0.field {
        Field::Struct(s) => match &s.fields[1].0.field {
            Field::Struct(e) => assert_eq!(e.origin, StructOrigin::FromFile(u32::MAX)),
            other => panic!("unexpected {:?}", other),
        },
        other => panic!("unexpected {:?}", other),
    }
    strip_origin(&mut back.root);
    assert_eq!(back, tree);
}

#[test]
fn flat_form_of_a_small_tree() {
    let tree = Gff {
        file_type: tag(b"UTI "),
        file_version: tag(b"V3.2"),
        root: made(
            5,
            vec![
                cell("A", Field::Int(-1)),
                cell("B", Field::DWord64(8)),
                cell("A", Field::List(vec![made(6, vec![cell("B", Field::Byte(9))])])),
            ],
        ),
    };
    let bin = tree.to_binary().unwrap();
    assert_eq!(
        bin.structs,
        vec![
            BinStruct { id: 5, data_or_data_offset: 0, field_count: 3 },
            BinStruct { id: 6, data_or_data_offset: 3, field_count: 1 },
        ]
    );
    assert_eq!(
        bin.fields,
        vec![
            BinField { id: FieldType::Int, label_index: 0, data_or_data_offset: u32::MAX },
            BinField { id: FieldType::DWord64, label_index: 1, data_or_data_offset: 0 },
            BinField { id: FieldType::List, label_index: 0, data_or_data_offset: 0 },
            BinField { id: FieldType::Byte, label_index: 1, data_or_data_offset: 9 },
        ]
    );
    assert_eq!(bin.labels, vec![label("A"), label("B")]);
    assert_eq!(bin.field_data, 8u64.to_le_bytes());
    assert_eq!(bin.field_indices, vec![0, 1, 2]);
    assert_eq!(bin.list_indices, vec![1, 1]);
    let h = bin.header;
    assert_eq!(h.struct_offset, Offset(56));
    assert_eq!(h.struct_count, 2);
    assert_eq!(h.field_offset, Offset(56 + 24));
    assert_eq!(h.field_count, 4);
    assert_eq!(h.label_offset, Offset(56 + 24 + 48));
    assert_eq!(h.label_count, 2);
    assert_eq!(h.field_data_offset, Offset(56 + 24 + 48 + 32));
    assert_eq!(h.field_data_count, 8);
    assert_eq!(h.field_indices_offset, Offset(56 + 24 + 48 + 32 + 8));
    assert_eq!(h.field_indices_count, 12);
    assert_eq!(h.list_indices_offset, Offset(56 + 24 + 48 + 32 + 8 + 12));
    assert_eq!(h.list_indices_count, 8);

    let mut bytes = vec![];
    bin.write(&mut bytes).unwrap();
    assert_eq!(bytes.len(), 56 + 24 + 48 + 32 + 8 + 12 + 8);
    let again = BinGff::read(&mut ByteReader::new(&bytes)).unwrap();
    assert_eq!(again, bin);
}

#[test]
fn empty_struct_keeps_the_value_it_was_read_with() {
    let mut bin = BinGff::empty();
    bin.structs.push(BinStruct { id: 1, data_or_data_offset: 0xdead_beef, field_count: 0 });
    let bin = bin.lay_out(tag(b"GFF "), tag(b"V3.2")).unwrap();
    let tree = Gff::from_binary(&bin, None).unwrap();
    assert_eq!(tree.root.origin, StructOrigin::FromFile(0xdead_beef));
    assert_eq!(tree.to_binary().unwrap(), bin);

    let synthesized = Gff {
        file_type: tag(b"GFF "),
        file_version: tag(b"V3.2"),
        root: made(1, vec![]),
    };
    assert_eq!(synthesized.to_binary().unwrap().structs[0].data_or_data_offset, u32::MAX);
    assert_eq!(StructOrigin::Synthesized.emitted(), u32::MAX);
    assert_eq!(StructOrigin::FromFile(3).emitted(), 3);
}

fn file_with(structs: Vec<BinStruct>, fields: Vec<BinField>, field_indices: Vec<u32>) -> BinGff {
    let mut bin = BinGff::empty();
    bin.structs = structs;
    bin.fields = fields;
    bin.field_indices = field_indices;
    bin.labels = vec![label("x")];
    bin
}

#[test]
fn get_field_beyond_the_count_is_not_found() {
    let byte = BinField { id: FieldType::Byte, label_index: 0, data_or_data_offset: 1 };
    let file = file_with(vec![], vec![byte, byte, byte], vec![0, 1, 2]);
    for count in [0u32, 1, 2, 3] {
        let s = BinStruct { id: 0, data_or_data_offset: 0, field_count: count };
        for index in count..count + 3 {
            assert_eq!(s.get_field(&file, index), Ok(None));
        }
        assert_eq!(s.get_field(&file, u32::MAX), Ok(None));
    }
    let misaligned = BinStruct { id: 0, data_or_data_offset: 3, field_count: 2 };
    assert_eq!(misaligned.get_field(&file, 2), Ok(None));
}

#[test]
fn get_field_finds_the_field() {
    let a = BinField { id: FieldType::Byte, label_index: 0, data_or_data_offset: 1 };
    let b = BinField { id: FieldType::Word, label_index: 0, data_or_data_offset: 2 };
    let file = file_with(vec![], vec![a, b], vec![7, 1, 0]);
    let one = BinStruct { id: 0, data_or_data_offset: 1, field_count: 1 };
    assert_eq!(one.get_field(&file, 0), Ok(Some(&b)));
    let two = BinStruct { id: 0, data_or_data_offset: 4, field_count: 2 };
    assert_eq!(two.get_field(&file, 0), Ok(Some(&b)));
    assert_eq!(two.get_field(&file, 1), Ok(Some(&a)));
    let outside = BinStruct { id: 0, data_or_data_offset: 8, field_count: 2 };
    assert_eq!(outside.get_field(&file, 1), Err(Error::ParseError(ParseFault::OutOfRange)));
    let bad_index = BinStruct { id: 0, data_or_data_offset: 0, field_count: 2 };
    assert_eq!(bad_index.get_field(&file, 0), Err(Error::ParseError(ParseFault::OutOfRange)));
}

#[test]
fn misaligned_offset_is_an_alignment_error() {
    let a = BinField { id: FieldType::Byte, label_index: 0, data_or_data_offset: 1 };
    for offset in [1u32, 2, 3, 5, 7] {
        let s = BinStruct { id: 0, data_or_data_offset: offset, field_count: 2 };
        let file = file_with(vec![s], vec![a, a], vec![0, 1, 0, 1]);
        assert_eq!(s.get_field(&file, 0), Err(Error::AlignmentError { offset }));
        assert_eq!(s.get_field(&file, 1), Err(Error::AlignmentError { offset }));
        assert_eq!(
            Gff::from_binary(&file, None),
            Err(Error::AlignmentError { offset })
        );
        assert_eq!(
            Struct::new(&s, &file, None),
            Err(Error::AlignmentError { offset })
        );
    }
    let single = BinStruct { id: 0, data_or_data_offset: 1, field_count: 1 };
    let file = file_with(vec![single], vec![a, a], vec![]);
    assert!(single.get_field(&file, 0).is_ok());
}

fn tlk_with(entries: &[&str]) -> Vec<u8> {
    let mut bytes = b"TLK V3.0".to_vec();
    bytes.extend_from_slice(&0u32.to_le_bytes());
    bytes.extend_from_slice(&(entries.len() as u32).to_le_bytes());
    let text_start = 20 + 40 * entries.len() as u32;
    bytes.extend_from_slice(&text_start.to_le_bytes());
    let mut offset = 0u32;
    for e in entries {
        bytes.extend_from_slice(&[0u8; 28]);
        bytes.extend_from_slice(&offset.to_le_bytes());
        bytes.extend_from_slice(&(e.len() as u32).to_le_bytes());
        bytes.extend_from_slice(&[0u8; 4]);
        offset += e.len() as u32;
    }
    for e in entries {
        bytes.extend_from_slice(e.as_bytes());
    }
    bytes
}

#[test]
fn sentinel_string_ref_needs_no_resolver() {
    let tree = sample_tree();
    let mut bytes = vec![];
    tree.write(&mut bytes).unwrap();

    let without = Gff::read_without_tlk(&mut ByteReader::new(&bytes)).unwrap();
    let empty = Tlk::read(tlk_with(&[])).unwrap();
    let with_empty = Gff::read(&mut ByteReader::new(&bytes), Some(&empty)).unwrap();
    let full = Tlk::read(tlk_with(&["zero", "one"])).unwrap();
    let with_full = Gff::read(&mut ByteReader::new(&bytes), Some(&full)).unwrap();
    assert_eq!(without, with_empty);
    assert_eq!(without, with_full);
    match &without.root.fields[0].0.field {
        Field::ExoLocString(s) => {
            assert_eq!(s.str_ref, u32::MAX);
            assert_eq!(s.tlk_string, None);
            assert_eq!(s.substrings[0].data.text(), "Cassie");
        }
        other => panic!("unexpected {:?}", other),
    }
}

#[test]
fn string_ref_is_looked_up() {
    let tree = Gff {
        file_type: tag(b"UTC "),
        file_version: tag(b"V3.2"),
        root: made(
            0,
            vec![cell(
                "Name",
                Field::ExoLocString(ExoLocString { str_ref: 1, tlk_string: None, substrings: vec![] }),
            )],
        ),
    };
    let mut bytes = vec![];
    tree.write(&mut bytes).unwrap();
    let tlk = Tlk::read(tlk_with(&["zero", "one"])).unwrap();
    let back = Gff::read(&mut ByteReader::new(&bytes), Some(&tlk)).unwrap();
    match &back.root.fields[0].0.field {
        Field::ExoLocString(s) => assert_eq!(s.tlk_string, Some("one".to_string())),
        other => panic!("unexpected {:?}", other),
    }
    let short = Tlk::read(tlk_with(&["zero"])).unwrap();
    assert_eq!(
        Gff::read(&mut ByteReader::new(&bytes), Some(&short)),
        Err(Error::InvalidStrRef { value: 1 })
    );
    let without = Gff::read_without_tlk(&mut ByteReader::new(&bytes)).unwrap();
    match &without.root.fields[0].0.field {
        Field::ExoLocString(s) => assert_eq!(s.tlk_string, None),
        other => panic!("unexpected {:?}", other),
    }
}

#[test]
fn unknown_field_type_is_an_error() {
    let tree = Gff {
        file_type: tag(b"GFF "),
        file_version: tag(b"V3.2"),
        root: made(0, vec![cell("A", Field::Byte(1))]),
    };
    let mut bytes = vec![];
    tree.write(&mut bytes).unwrap();
    let field_offset = 56 + 12;
    for bad in [16u32, 255, 256, u32::MAX] {
        let mut broken = bytes.clone();
        broken[field_offset..field_offset + 4].copy_from_slice(&bad.to_le_bytes());
        assert_eq!(
            Gff::read_without_tlk(&mut ByteReader::new(&broken)),
            Err(Error::EnumError { enum_type: EnumType::FieldType, value: bad })
        );
    }
    assert!(FieldType::try_from(255).is_err());
    assert_eq!(FieldType::try_from(15), Ok(FieldType::List));
    assert_eq!(FieldType::List.as_num(), 15);
}

#[test]
fn struct_that_contains_itself_is_an_error() {
    let s = BinStruct { id: 0, data_or_data_offset: 0, field_count: 1 };
    let f = BinField { id: FieldType::Struct, label_index: 0, data_or_data_offset: 0 };
    let file = file_with(vec![s], vec![f], vec![]);
    assert_eq!(
        Gff::from_binary(&file, None),
        Err(Error::ParseError(ParseFault::NestingTooDeep))
    );
    assert_eq!(
        f.to_field(&file, None),
        Err(Error::ParseError(ParseFault::NestingTooDeep))
    );
}

#[test]
fn file_without_structs_has_no_root() {
    let file = BinGff::empty().lay_out(tag(b"GFF "), tag(b"V3.2")).unwrap();
    assert_eq!(
        Gff::from_binary(&file, None),
        Err(Error::ParseError(ParseFault::MissingRoot))
    );
}

#[test]
fn dangling_indices_are_parse_errors() {
    let s = BinStruct { id: 0, data_or_data_offset: 0, field_count: 1 };
    let cases = [
        BinField { id: FieldType::Struct, label_index: 0, data_or_data_offset: 5 },
        BinField { id: FieldType::List, label_index: 0, data_or_data_offset: 0 },
        BinField { id: FieldType::Byte, label_index: 3, data_or_data_offset: 0 },
    ];
    for f in cases {
        let file = file_with(vec![s], vec![f], vec![]);
        assert_eq!(
            Gff::from_binary(&file, None),
            Err(Error::ParseError(ParseFault::OutOfRange))
        );
    }
    let heap = [
        FieldType::DWord64,
        FieldType::Int64,
        FieldType::Double,
        FieldType::ExoString,
        FieldType::ResRef,
        FieldType::ExoLocString,
        FieldType::Void,
    ];
    for id in heap {
        let f = BinField { id, label_index: 0, data_or_data_offset: 4 };
        let file = file_with(vec![s], vec![f], vec![]);
        assert_eq!(
            Gff::from_binary(&file, None),
            Err(Error::ParseError(ParseFault::UnexpectedEof))
        );
    }
}

#[test]
fn inline_values_are_taken_from_the_low_bytes() {
    let s = BinStruct { id: 0, data_or_data_offset: 0, field_count: 0 };
    let file = file_with(vec![s], vec![], vec![]);
    let at = |id, d| BinField { id, label_index: 0, data_or_data_offset: d }.to_field(&file, None);
    assert_eq!(at(FieldType::Byte, 0x1234_56ff), Ok(Field::Byte(0xff)));
    assert_eq!(at(FieldType::Char, 0xffff_ffff), Ok(Field::Char(U32Char(0xffff_ffff))));
    assert_eq!(at(FieldType::Word, 0x0001_fffe), Ok(Field::Word(0xfffe)));
    assert_eq!(at(FieldType::Short, 0x0000_fffe), Ok(Field::Short(-2)));
    assert_eq!(at(FieldType::Short, 0xffff_8000), Ok(Field::Short(i16::MIN)));
    assert_eq!(at(FieldType::DWord, 0xffff_fffe), Ok(Field::DWord(0xffff_fffe)));
    assert_eq!(at(FieldType::Int, 0xffff_fffe), Ok(Field::Int(-2)));
    assert_eq!(at(FieldType::Int, 0x8000_0000), Ok(Field::Int(i32::MIN)));
    assert_eq!(at(FieldType::Float, 1.5f32.to_bits()), Ok(Field::Float(1.5f32.to_bits())));
}

#[test]
fn field_types_and_complexity() {
    let tree = sample_tree();
    let kinds: Vec<FieldType> = tree
        .root
        .fields
        .iter()
        .map(|f| f.0.field.get_field_type())
        .collect();
    assert_eq!(
        kinds,
        vec![
            FieldType::ExoLocString,
            FieldType::Byte,
            FieldType::Char,
            FieldType::DWord,
            FieldType::Int,
            FieldType::Short,
            FieldType::DWord64,
            FieldType::Int64,
            FieldType::Float,
            FieldType::Double,
            FieldType::ResRef,
            FieldType::Void,
            FieldType::Struct,
            FieldType::List,
            FieldType::List,
        ]
    );
    let complex: Vec<bool> = kinds.iter().map(|k| k.is_complex()).collect();
    assert_eq!(
        complex,
        vec![
            true, false, false, false, false, false, true, true, false, true, true, true, true,
            true, true
        ]
    );
    for n in 0..16u32 {
        assert_eq!(FieldType::try_from(n).unwrap().as_num() as u32, n);
    }
}

#[test]
fn char_is_read_in_the_legacy_encoding() {
    let mut c = U32Char(0x80);
    assert_eq!(c.get_char(), Some('\u{20ac}'));
    c.set_char('A');
    assert_eq!(c, U32Char(65));
    assert_eq!(c.get_char(), Some('A'));
}

#[test]
fn traversal_orders() {
    let tree = made(
        0,
        vec![
            cell(
                "a",
                Field::Struct(made(
                    1,
                    vec![
                        cell("a1", Field::Byte(1)),
                        cell("a2", Field::Struct(made(2, vec![cell("a21", Field::Byte(2))]))),
                    ],
                )),
            ),
            cell("b", Field::Byte(3)),
            cell(
                "c",
                Field::List(vec![
                    made(3, vec![cell("c00", Field::Byte(4)), cell("c01", Field::Byte(5))]),
                    made(4, vec![cell("c10", Field::Byte(6))]),
                ]),
            ),
        ],
    );
    let names = |paths: Vec<Vec<usize>>| -> Vec<String> {
        paths
            .iter()
            .map(|p| tree.get(p).unwrap().0.label.as_str())
            .collect()
    };
    assert_eq!(
        names(tree.bfs_iter()),
        vec!["a", "b", "c", "a1", "a2", "c00", "c01", "c10", "a21"]
    );
    assert_eq!(
        names(tree.dfs_iter()),
        vec!["a", "a2", "a21", "a1", "b", "c", "c10", "c01", "c00"]
    );
    assert_eq!(
        tree.bfs_iter(),
        vec![
            vec![0],
            vec![1],
            vec![2],
            vec![0, 0],
            vec![0, 1],
            vec![2, 0, 0],
            vec![2, 0, 1],
            vec![2, 1, 0],
            vec![0, 1, 0],
        ]
    );
    assert!(made(0, vec![]).bfs_iter().is_empty());
    assert!(made(0, vec![]).dfs_iter().is_empty());
}

#[test]
fn find_get_and_set() {
    let mut tree = sample_tree();
    let path = tree
        .root
        .bfs_iter()
        .into_iter()
        .find(|p| tree.root.get(p).unwrap().has_label("FirstName"))
        .unwrap();
    assert_eq!(path, vec![0]);
    let path = tree
        .root
        .dfs_iter()
        .into_iter()
        .find(|p| tree.root.get(p).unwrap().has_label("Count"))
        .unwrap();
    assert_eq!(path, vec![13, 1, 1]);

    assert_eq!(tree.root.find_direct("Level"), Some(1));
    assert_eq!(tree.root.find_direct("level"), None);
    assert_eq!(tree.root.find_direct("Count"), None);
    assert!(tree.root.fields[1].has_label_case_insensitive("LEVEL"));
    assert!(!tree.root.fields[1].has_label_case_insensitive("LEVEL "));

    assert!(tree.root.set(&[13, 1, 1], Field::Word(99)));
    assert_eq!(tree.root.get(&[13, 1, 1]).unwrap().0.field, Field::Word(99));
    assert_eq!(tree.root.get(&[13, 0, 1]).unwrap().0.field, Field::Word(10));
    assert!(tree.root.set(&[12, 0], Field::Byte(2)));
    assert_eq!(tree.root.get(&[12, 0]).unwrap().0.field, Field::Byte(2));

    let before = sample_tree();
    let mut same = sample_tree();
    assert!(!same.root.set(&[], Field::Byte(0)));
    assert!(!same.root.set(&[99], Field::Byte(0)));
    assert!(!same.root.set(&[1, 0], Field::Byte(0)));
    assert!(!same.root.set(&[13, 5, 0], Field::Byte(0)));
    assert!(!same.root.set(&[13, 0], Field::Byte(0)));
    assert_eq!(same, before);
    assert!(same.root.get(&[1, 0]).is_none());
    assert!(same.root.get(&[]).is_none());
}

#[test]
fn unused_label_is_not_written_again() {
    let tree = Gff {
        file_type: tag(b"GFF "),
        file_version: tag(b"V3.2"),
        root: made(0, vec![cell("A", Field::Byte(1))]),
    };
    let mut bin = tree.to_binary().unwrap();
    bin.labels.push(label("Unused"));
    let bin = bin.lay_out(tag(b"GFF "), tag(b"V3.2")).unwrap();
    let mut bytes = vec![];
    bin.write(&mut bytes).unwrap();

    let back = Gff::read_without_tlk(&mut ByteReader::new(&bytes)).unwrap();
    let mut again = vec![];
    back.write(&mut again).unwrap();
    assert_ne!(again, bytes);
    assert_eq!(again.len() + 16, bytes.len());

    let reread = Gff::read_without_tlk(&mut ByteReader::new(&again)).unwrap();
    assert!(back.root.is_readable(None));
    assert_eq!(reread, back);
    let mut third = vec![];
    reread.write(&mut third).unwrap();
    assert_eq!(third, again);
}

#[test]
fn labels_are_interned_once() {
    let tree = Gff {
        file_type: tag(b"GFF "),
        file_version: tag(b"V3.2"),
        root: made(
            0,
            vec![
                cell("hello", Field::Byte(1)),
                cell("hello", Field::Byte(2)),
                cell("goodbye", Field::Struct(made(1, vec![cell("hello", Field::Byte(3))]))),
                cell("hello", Field::Byte(4)),
            ],
        ),
    };
    let bin = tree.to_binary().unwrap();
    assert_eq!(bin.labels, vec![label("hello"), label("goodbye")]);
    let indices: Vec<u32> = bin.fields.iter().map(|f| f.label_index).collect();
    assert_eq!(indices, vec![0, 0, 1, 0, 0]);
}

#[test]
fn readable_structs_hold_the_text_of_their_string_refs() {
    let named = |text: Option<&str>| {
        made(
            0,
            vec![cell(
                "Items",
                Field::List(vec![made(
                    7,
                    vec![cell(
                        "Name",
                        Field::ExoLocString(ExoLocString {
                            str_ref: 1,
                            tlk_string: text.map(|t| t.to_string()),
                            substrings: vec![],
                        }),
                    )],
                )]),
            )],
        )
    };
    let tlk = Tlk::read(tlk_with(&["zero", "one"])).unwrap();
    let short = Tlk::read(tlk_with(&["zero"])).unwrap();

    assert!(sample_tree().root.is_readable(None));
    assert!(sample_tree().root.is_readable(Some(&tlk)));

    assert!(named(None).is_readable(None));
    assert!(!named(None).is_readable(Some(&tlk)));
    assert!(named(Some("one")).is_readable(Some(&tlk)));
    assert!(!named(Some("two")).is_readable(Some(&tlk)));
    assert!(!named(Some("one")).is_readable(None));
    assert!(!named(Some("one")).is_readable(Some(&short)));

    let tree = Gff { file_type: tag(b"UTC "), file_version: tag(b"V3.2"), root: named(Some("one")) };
    let mut bytes = vec![];
    tree.write(&mut bytes).unwrap();
    let mut back = Gff::read(&mut ByteReader::new(&bytes), Some(&tlk)).unwrap();
    strip_origin(&mut back.root);
    assert_eq!(back, tree);
}
