use nwn_lib::error::{EnumType, Error};
use nwn_lib::files::gff::exo_string::{ExoLocString, ExoString};
use nwn_lib::files::gff::field::{Field, LabeledField, U32Char};
use nwn_lib::files::gff::label::Label;
use nwn_lib::files::gff::structs::{Struct, StructField, StructOrigin};
use nwn_lib::files::gff::void::Void;
use nwn_lib::files::gff::{FixedSizeString, Gff};
use nwn_lib::files::res_ref::ResRef;

fn tree() -> Struct {
    Struct {
        id: 1,
        origin: StructOrigin::Synthesized,
        fields: vec![
            StructField::new(LabeledField::new(
                Label::from_text("Name").unwrap(),
                Field::ExoString(ExoString::from_text("Cassie").unwrap()),
            )),
            StructField::new(LabeledField::new(
                Label::from_text("Items").unwrap(),
                Field::List(vec![Struct {
                    id: 2,
                    origin: StructOrigin::FromFile(5),
                    fields: vec![StructField::new(LabeledField::new(
                        Label::from_text("Blob").unwrap(),
                        Field::Void(Void { data: vec![1, 2] }),
                    ))],
                }]),
            )),
        ],
    }
}

fn unexpected(found: u32) -> Error {
    Error::EnumError {
        enum_type: EnumType::Field,
        value: found,
    }
}

#[test]
fn expect_and_try_by_value() {
    assert_eq!(Field::Byte(3).expect_byte(), Ok(3));
    assert_eq!(Field::Byte(3).try_byte(), Some(3));
    assert_eq!(Field::Word(3).expect_byte(), Err(unexpected(2)));
    assert_eq!(Field::Word(3).try_byte(), None);

    assert_eq!(Field::Char(U32Char(65)).expect_char(), Ok(U32Char(65)));
    assert_eq!(Field::Word(9).expect_word(), Ok(9));
    assert_eq!(Field::Short(-9).expect_short(), Ok(-9));
    assert_eq!(Field::DWord(9).expect_dword(), Ok(9));
    assert_eq!(Field::Int(-9).expect_int(), Ok(-9));
    assert_eq!(Field::DWord64(9).expect_dword64(), Ok(9));
    assert_eq!(Field::Int64(-9).expect_int64(), Ok(-9));
    assert_eq!(Field::Float(1.5f32.to_bits()).expect_float().map(f32::from_bits), Ok(1.5));
    assert_eq!(Field::Double(2.5f64.to_bits()).expect_double().map(f64::from_bits), Ok(2.5));

    assert_eq!(Field::Float(0).expect_dword(), Err(unexpected(8)));
    assert_eq!(Field::DWord(0).expect_float(), Err(unexpected(4)));
    assert_eq!(Field::Double(0).try_dword64(), None);
    assert_eq!(Field::Int(0).try_short(), None);
    assert_eq!(Field::Int64(0).expect_int(), Err(unexpected(7)));
    assert_eq!(Field::Byte(0).unexpected(), unexpected(0));
}

#[test]
fn expect_and_try_by_reference() {
    let s = ExoString::from_text("x").unwrap();
    let field = Field::ExoString(s.clone());
    assert_eq!(field.expect_exostring(), Ok(&s));
    assert_eq!(field.try_exostring(), Some(&s));
    assert_eq!(field.expect_resref(), Err(unexpected(10)));
    assert_eq!(field.try_list(), None);
    assert_eq!(field.expect_struct(), Err(unexpected(10)));
    assert_eq!(field.expect_void(), Err(unexpected(10)));
    assert_eq!(field.expect_exolocstring(), Err(unexpected(10)));

    let r = ResRef::from_text("res").unwrap();
    assert_eq!(Field::ResRef(r.clone()).expect_resref(), Ok(&r));
    let v = Void { data: vec![7] };
    assert_eq!(Field::Void(v.clone()).try_void(), Some(&v));
    let l = ExoLocString { str_ref: 1, tlk_string: None, substrings: vec![] };
    assert_eq!(Field::ExoLocString(l.clone()).try_exolocstring(), Some(&l));
    let t = tree();
    assert_eq!(Field::Struct(t.clone()).expect_struct(), Ok(&t));
    assert_eq!(Field::List(vec![t.clone()]).expect_list(), Ok(&vec![t.clone()]));
    assert_eq!(Field::List(vec![]).expect_struct(), Err(unexpected(15)));
    assert_eq!(Field::Struct(t).try_list(), None);
}

#[test]
fn fields_from_values() {
    assert_eq!(Field::from(3u8), Field::Byte(3));
    assert_eq!(Field::from(3u16), Field::Word(3));
    assert_eq!(Field::from(-3i16), Field::Short(-3));
    assert_eq!(Field::from(3u32), Field::DWord(3));
    assert_eq!(Field::from(-3i32), Field::Int(-3));
    assert_eq!(Field::from(3u64), Field::DWord64(3));
    assert_eq!(Field::from(-3i64), Field::Int64(-3));
    assert_eq!(Field::from(U32Char(3)), Field::Char(U32Char(3)));
    assert_eq!(Field::from(Void { data: vec![] }), Field::Void(Void { data: vec![] }));
    assert_eq!(Field::from(tree()), Field::Struct(tree()));
    assert_eq!(Field::from(vec![tree()]), Field::List(vec![tree()]));
    let s = ExoString::from_text("x").unwrap();
    assert_eq!(Field::from(s.clone()), Field::ExoString(s));
    let r = ResRef::from_text("x").unwrap();
    assert_eq!(Field::from(r.clone()), Field::ResRef(r));
    let l = ExoLocString { str_ref: 1, tlk_string: Some("t".to_string()), substrings: vec![] };
    assert_eq!(Field::from(l.clone()), Field::ExoLocString(l));
}

#[test]
fn copies_are_equal_and_apart() {
    let t = tree();
    let mut copy = t.duplicate();
    assert_eq!(copy, t);
    assert_eq!(t.clone(), t);
    assert!(copy.set(&[1, 0, 0], Field::Byte(1)));
    assert_ne!(copy, t);
    assert_eq!(t.fields[1].duplicate(), t.fields[1]);
    assert_eq!(t.fields[0].0.clone(), t.fields[0].0);
    assert_eq!(t.fields[0].0.field.duplicate(), t.fields[0].0.field);

    let gff = Gff {
        file_type: FixedSizeString::new(*b"GFF ").unwrap(),
        file_version: FixedSizeString::new(*b"V3.2").unwrap(),
        root: t,
    };
    assert_eq!(gff.clone(), gff);
}

#[test]
fn text_limits() {
    assert!(ExoString::from_bytes(vec![0; 0x00ff_ffff]).is_some());
    assert!(ExoString::from_bytes(vec![0; 0x0100_0000]).is_none());
    let long = "a".repeat(0x0100_0000);
    assert!(ExoString::from_text(&long).is_none());
    assert!(Label::from_text(&long).is_none());
    assert!(ResRef::from_text(&long).is_none());
    assert_eq!(ResRef::from_bytes(b"abcdefghijklmnopqrstuvwxyz").as_bytes(), b"abcdefghijklmnop");
    assert_eq!(ResRef::from_text("caf\u{e9}").unwrap().as_bytes(), &[b'c', b'a', b'f', 0xe9]);
    assert_eq!(Label::from_text("ab\0cd").unwrap().as_bytes(), b"ab");
}
