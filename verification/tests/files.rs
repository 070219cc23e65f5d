use nwn_lib::files::gff::bin::Gff as BinGff;
use nwn_lib::files::gff::exo_string::{ExoLocString, ExoLocSubString, ExoString};
use nwn_lib::files::gff::field::Field;
use nwn_lib::files::gff::Gff;
use nwn_lib::files::tlk::Tlk;
use nwn_lib::files::{ByteReader, Gender, Language};

fn push_all(bytes: &mut Vec<u8>, numbers: &[u32]) {
    for n in numbers {
        bytes.extend_from_slice(&n.to_le_bytes());
    }
}

fn push_label(bytes: &mut Vec<u8>, name: &str) {
    let mut slot = [0u8; 16];
    slot[..name.len()].copy_from_slice(name.as_bytes());
    bytes.extend_from_slice(&slot);
}

/// A list of players with one player in it, byte by byte.
fn player_list() -> Vec<u8> {
    let mut bytes = b"IFO V3.2".to_vec();
    push_all(&mut bytes, &[56, 2, 80, 3, 116, 3, 164, 26, 190, 8, 198, 8]);
    // structs: the root with its one field, the player with two
    push_all(&mut bytes, &[u32::MAX, 0, 1]);
    push_all(&mut bytes, &[0xbead, 0, 2]);
    // fields: the list, the first name, the age
    push_all(&mut bytes, &[15, 0, 0]);
    push_all(&mut bytes, &[12, 1, 0]);
    push_all(&mut bytes, &[5, 2, 30]);
    push_label(&mut bytes, "Mod_PlayerList");
    push_label(&mut bytes, "FirstName");
    push_label(&mut bytes, "Age");
    // field data: the first name
    push_all(&mut bytes, &[22, u32::MAX, 1, 0, 6]);
    bytes.extend_from_slice(b"Cassie");
    // field indices: the fields of the player
    push_all(&mut bytes, &[1, 2]);
    // list indices: one struct, the player
    push_all(&mut bytes, &[1, 1]);
    assert_eq!(bytes.len(), 206);
    bytes
}

/// A talk table with a hundred texts.
fn dialog() -> Vec<u8> {
    let texts: Vec<String> = (0..100).map(|i| format!("text {i}")).collect();
    let mut bytes = b"TLK V3.0".to_vec();
    push_all(&mut bytes, &[0, 100, 20 + 40 * 100]);
    let mut offset = 0u32;
    for t in &texts {
        bytes.extend_from_slice(&[0u8; 28]);
        push_all(&mut bytes, &[offset, t.len() as u32]);
        bytes.extend_from_slice(&[0u8; 4]);
        offset += t.len() as u32;
    }
    for t in &texts {
        bytes.extend_from_slice(t.as_bytes());
    }
    bytes
}

fn read_tlk_and_gff(gff_file: &[u8], tlk_file: Vec<u8>) -> (Tlk, Gff) {
    let tlk = Tlk::read(tlk_file).unwrap();
    let gff = BinGff::read(&mut ByteReader::new(gff_file)).unwrap();

    let gff = Gff::from_binary(&gff, Some(&tlk)).unwrap();

    (tlk, gff)
}

#[test]
fn gff_x() {
    let file = player_list();
    let parsed = BinGff::read(&mut ByteReader::new(&file)).unwrap();
    assert_eq!(parsed.structs.len(), 2);
    assert_eq!(parsed.fields.len(), 3);
    assert_eq!(parsed.labels.len(), 3);
}

#[test]
fn mod_x() {
    let data = dialog();

    let tlk = Tlk::read(data).unwrap();
    assert_eq!(tlk.header.string_count, 100);
}

#[test]
fn mod_read_test() {
    let gff_file = player_list();
    let tlk_file = dialog();

    let (tlk, gff) = read_tlk_and_gff(&gff_file, tlk_file);

    println!("{:#?}", gff.root);
    assert_eq!(gff.root.fields.len(), 1);

    let strings: Vec<String> = (0..100).map(|i| tlk.get_from_str_ref(i).unwrap()).collect();

    for (i, s) in strings.iter().enumerate() {
        assert_eq!(s, &format!("text {i}"));
    }
}

#[test]
fn write_test() {
    let gff_file = player_list();
    let tlk_file = dialog();

    let tlk = Tlk::read(tlk_file).unwrap();

    let gff_bin = BinGff::read(&mut ByteReader::new(&gff_file)).unwrap();
    let gff = Gff::from_binary(&gff_bin, Some(&tlk)).unwrap();

    let gff_2_bin = BinGff::from_data(&gff).unwrap();

    assert_eq!(gff_bin.header, gff_2_bin.header);
    assert_eq!(gff_bin.field_data, gff_2_bin.field_data);

    assert_eq!(gff_bin.labels, gff_2_bin.labels);
    assert_eq!(gff_bin.fields, gff_2_bin.fields);
    assert_eq!(gff_bin.structs, gff_2_bin.structs);

    assert_eq!(gff_bin, gff_2_bin);

    let gff_2 = Gff::from_binary(&gff_2_bin, Some(&tlk)).unwrap();
    assert_eq!(gff, gff_2);

    let mut buf = vec![];
    gff_2.write(&mut buf).unwrap();

    assert_eq!(buf, gff_file);
}

#[test]
fn find_test() {
    let gff_file = player_list();

    let gff = Gff::read_without_tlk(&mut ByteReader::new(&gff_file)).unwrap();

    let expected = {
        let exo_string = ExoLocString {
            str_ref: 4294967295,
            tlk_string: None,
            substrings: vec![ExoLocSubString {
                data: ExoString::from_text("Cassie").unwrap(),
                gender: Gender::Masculine,
                language: Language::English,
            }],
        };
        Field::ExoLocString(exo_string)
    };

    {
        let first_name = gff
            .root
            .bfs_iter()
            .into_iter()
            .filter_map(|path| gff.root.get(&path))
            .find(|x| x.has_label("FirstName"))
            .map(|x| x.0.field.clone())
            .unwrap();

        assert_eq!(first_name, expected);
    }
    {
        let first_name = gff
            .root
            .dfs_iter()
            .into_iter()
            .filter_map(|path| gff.root.get(&path))
            .find(|x| x.has_label("FirstName"))
            .map(|x| x.0.field.clone())
            .unwrap();

        assert_eq!(first_name, expected);
    }
}
