use nwn_lib::decimal::{parse_u32, parse_u64, push_decimal, push_two_digits};
use nwn_lib::error::{Error, ParseFault};
use nwn_lib::files::tlk::Tlk;
use nwn_lib::save_folder::{get_save_folder_name, save_from_groups, Date};
use nwn_lib::tlk_string_ref::TlkStringRef;

fn date() -> Date {
    Date {
        day: 6,
        month: 10,
        year: 2025,
        hour: 7,
        minute: 49,
    }
}

#[test]
fn date_strings() {
    let d = date();
    assert_eq!(d.hyphenated_string(), "2025-10-06-07-49");
    assert_eq!(d.date_string(), "202510060749");
    assert_eq!(d.pretty_string(), "2025-10-06 07:49");
    let wide = Date { day: 123, month: 0, year: 5, hour: 1000, minute: 9 };
    assert_eq!(wide.hyphenated_string(), "5-00-123-1000-09");
    assert_eq!(
        wide.hyphenated_string(),
        format!("{}-{:02}-{:02}-{:02}-{:02}", 5, 0, 123, 1000, 9)
    );
}

#[test]
fn date_from_strings() {
    assert_eq!(Date::from_strings("06", "10", "2025", "07", "49"), Ok(date()));
    assert_eq!(Date::from_strings("+6", "10", "2025", "7", "49"), Ok(date()));
    for bad in ["", "+", "-1", "1 ", " 1", "1.0", "4294967296", "x"] {
        assert_eq!(
            Date::from_strings("1", bad, "2025", "7", "49"),
            Err(Error::ParseError(ParseFault::BadNumber))
        );
    }
}

#[test]
fn dates_are_ordered() {
    let a = date();
    let mut b = date();
    assert!(!a.is_before(&b));
    b.minute = 50;
    assert!(a.is_before(&b));
    assert!(!b.is_before(&a));
    b.year = 2024;
    assert!(b.is_before(&a));
}

#[test]
fn decimal_numbers_agree_with_the_standard_library() {
    let texts = [
        "0", "7", "007", "+7", "++7", "-7", "", "+", " 7", "7 ", "4294967295", "4294967296",
        "18446744073709551615", "18446744073709551616", "1e3", "٣", "12a", "99999999999999999999",
    ];
    for t in texts {
        assert_eq!(parse_u32(t), t.parse::<u32>().ok(), "{:?}", t);
        assert_eq!(parse_u64(t), t.parse::<u64>().ok(), "{:?}", t);
    }
    for n in [0u64, 1, 9, 10, 11, 99, 100, 12345, u32::MAX as u64, u64::MAX] {
        let mut out = String::from("x");
        push_decimal(&mut out, n);
        assert_eq!(out, format!("x{}", n));
        let mut out = String::new();
        push_two_digits(&mut out, n);
        assert_eq!(out, format!("{:02}", n));
        assert_eq!(parse_u64(&n.to_string()), Some(n));
    }
}

#[test]
fn save_folder_names() {
    assert_eq!(
        get_save_folder_name("000003 - 06-10-2025-17-49"),
        Some((3, Date { day: 6, month: 10, year: 2025, hour: 17, minute: 49 }))
    );
    assert_eq!(
        get_save_folder_name("0120 - 1-2-3-4-5"),
        Some((120, Date { day: 1, month: 2, year: 3, hour: 4, minute: 5 }))
    );
    assert_eq!(get_save_folder_name("3 - 06-10-2025-17-49"), None);
    assert_eq!(get_save_folder_name("000003 - 06-10-2025-17"), None);
    assert_eq!(get_save_folder_name("000003 - 06-10-2025-17-49 copy"), None);
    assert_eq!(get_save_folder_name("000003 - 06-10-99999999999-17-49"), None);
    assert_eq!(get_save_folder_name(""), None);
    let mut groups: Vec<Option<String>> =
        ["000003 - 06-10-2025-17-49", "3", "6", "10", "2025", "17", "49"]
            .iter()
            .map(|s| Some(s.to_string()))
            .collect();
    assert_eq!(
        save_from_groups(&groups),
        Some((3, Date { day: 6, month: 10, year: 2025, hour: 17, minute: 49 }))
    );
    groups[0] = None;
    assert_eq!(
        save_from_groups(&groups),
        Some((3, Date { day: 6, month: 10, year: 2025, hour: 17, minute: 49 }))
    );
    groups[2] = None;
    assert_eq!(save_from_groups(&groups), None);
    groups[2] = Some("6".to_string());
    groups.pop();
    assert_eq!(save_from_groups(&groups), None);
}

#[test]
fn string_ref_with_text() {
    let mut bytes = b"TLK V3.0".to_vec();
    bytes.extend_from_slice(&0u32.to_le_bytes());
    bytes.extend_from_slice(&1u32.to_le_bytes());
    bytes.extend_from_slice(&60u32.to_le_bytes());
    bytes.extend_from_slice(&[0u8; 28]);
    bytes.extend_from_slice(&0u32.to_le_bytes());
    bytes.extend_from_slice(&3u32.to_le_bytes());
    bytes.extend_from_slice(&[0u8; 4]);
    bytes.extend_from_slice(b"Elf");
    let tlk = Tlk::read(bytes).unwrap();
    assert_eq!(
        TlkStringRef::from_id(&tlk, 0),
        Ok(TlkStringRef { id: 0, data: "Elf".to_string() })
    );
    assert_eq!(
        TlkStringRef::from_id(&tlk, u32::MAX),
        Ok(TlkStringRef { id: u32::MAX, data: String::new() })
    );
    assert_eq!(TlkStringRef::from_id(&tlk, 1), Err(Error::InvalidStrRef { value: 1 }));
}
