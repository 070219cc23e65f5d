use nwn_lib::files::gff::label::{Label, LABEL_SIZE};
use nwn_lib::files::ByteReader;

#[test]
fn label_trailing_zero_test() {
    let trailing_zeros = [
        b'h', b'e', b'l', b'l', b'o', 0, 0, 0, 0, 0, 0, 0, 0, 0, 0, 0,
    ];

    let label = Label::new(trailing_zeros).unwrap();

    assert_eq!(label.as_str(), "hello");
    assert_eq!(label.get_string(), Ok("hello".to_string()));
}

#[test]
fn label_empty_test() {
    let empty = [0u8; LABEL_SIZE];
    let label = Label::new(empty).unwrap();

    assert_eq!(label.as_str(), "");
    assert_eq!(label.get_string(), Ok("".to_string()));
}

#[test]
fn label_full_test() {
    let full = [b'a'; LABEL_SIZE];
    let label = Label::new(full).unwrap();

    assert_eq!(label.as_str(), "aaaaaaaaaaaaaaaa");
    assert_eq!(label.get_string(), Ok("aaaaaaaaaaaaaaaa".to_string()));
}

#[test]
fn label_read_and_write_test() {
    let data = [b'h', b'i', 0, 0, 0, 0, 0, 0, 0, 0, 0, 0, 0, 0, 0, 0];

    let label = Label::new(data).unwrap();

    assert_eq!(label.as_str(), "hi");

    let mut buf = vec![];
    label.write(&mut buf).unwrap();

    assert_eq!(buf, data);
}

#[test]
fn label_read_moves_past_the_slot() {
    let mut bytes = vec![b'a', b'b', 0, b'c', 0, 0, 0, 0, 0, 0, 0, 0, 0, 0, 0, 0];
    bytes.push(0xff);
    let mut reader = ByteReader::new(&bytes);
    let label = Label::read(&mut reader).unwrap();
    assert_eq!(label.as_bytes(), b"ab");
    assert_eq!(reader.position(), 16);
    assert!(Label::read(&mut reader).is_err());
}

#[test]
fn label_from_text_round_trip() {
    let label = Label::from_text("FirstName").unwrap();
    assert_eq!(label.as_str(), "FirstName");
    assert_eq!(Label::new(label.to_array()).unwrap(), label);
}

#[test]
fn label_from_text_truncates_to_sixteen_bytes() {
    let label = Label::from_text("abcdefghijklmnopqrstuvwxyz").unwrap();
    assert_eq!(label.as_str(), "abcdefghijklmnop");
}

#[test]
fn label_from_text_uses_the_legacy_encoding() {
    let label = Label::from_text("caf\u{e9}").unwrap();
    assert_eq!(label.as_bytes(), &[b'c', b'a', b'f', 0xe9]);
    assert_eq!(label.as_str(), "caf\u{e9}");
    assert!(label.get_string().is_err());
}

#[test]
fn label_same_compares_bytes() {
    let a = Label::from_text("hello").unwrap();
    let b = Label::from_text("hello").unwrap();
    let c = Label::from_text("goodbye").unwrap();
    assert!(a.same(&b));
    assert!(!a.same(&c));
    assert!(a.clone().same(&a));
}

#[test]
fn text_outside_the_legacy_encoding_does_not_come_back() {
    let label = Label::from_text("\u{2713}").unwrap();
    assert_eq!(label.as_bytes(), b"&#10003;");
    assert_eq!(label.as_str(), "&#10003;");
}

#[test]
fn byte_order_mark_is_not_part_of_the_text() {
    let mut slot = [0u8; LABEL_SIZE];
    slot[..4].copy_from_slice(&[0xef, 0xbb, 0xbf, b'A']);
    let label = Label::new(slot).unwrap();
    assert_eq!(label.as_bytes(), &[0xef, 0xbb, 0xbf, b'A']);
    assert_eq!(label.as_str(), "A");
    assert_eq!(label.to_array(), slot);
}
