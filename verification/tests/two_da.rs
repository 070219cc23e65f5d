use nwn_lib::error::{Error, ParseFault};
use nwn_lib::files::two_da::{parse, split_line_parts, validate_header, DataTable};

fn lines_of(text: &str) -> Vec<String> {
    text.lines().map(|l| l.to_string()).collect()
}

const EXAMPLE: &str = "2DA V2.0\n\n    Label            Value   Letter  Number\n0   TestValue1       100     x       0\n1   TestValue2       200     y       1\n2   \"Test Value 3\"   300     z       2\n3   ****             ****    ****    ****\n";

#[test]
fn two_da_parse_2da_test() {
    let table = parse(&lines_of(EXAMPLE)).unwrap();

    let expect_row = |y: usize, expected: &[&str]| {
        (0..table.width()).for_each(|i| {
            assert_eq!(
                table.data[y][i].as_deref(),
                Some(expected[i]),
                "Row mismatch: index {y}"
            )
        });
    };

    assert_eq!(table.columns.len(), 4);
    assert_eq!(table.width(), 4);
    assert_eq!(table.height(), 4);

    expect_row(0, &["TestValue1", "100", "x", "0"]);
    expect_row(1, &["TestValue2", "200", "y", "1"]);
    expect_row(2, &["Test Value 3", "300", "z", "2"]);

    assert_eq!(table.data[3][0], None);
    assert_eq!(table.data[3][1], None);
    assert_eq!(table.data[3][2], None);
    assert_eq!(table.data[3][3], None);
}

#[test]
fn table_columns_and_rows() {
    let table = parse(&lines_of(EXAMPLE)).unwrap();
    assert_eq!(table.columns, vec!["Label", "Value", "Letter", "Number"]);
    assert_eq!(table.find_column_index("Letter"), Some(2));
    assert_eq!(table.find_column_index("letter"), None);
    let letters: Vec<Option<&str>> = table
        .get_column_data(2)
        .into_iter()
        .map(|c| c.map(|s| s.as_str()))
        .collect();
    assert_eq!(letters, vec![Some("x"), Some("y"), Some("z"), None]);
    assert!(table.get_column_data(4).is_empty());
    let row: Vec<Option<&str>> = table
        .get_row_data(1)
        .into_iter()
        .map(|c| c.map(|s| s.as_str()))
        .collect();
    assert_eq!(row, vec![Some("TestValue2"), Some("200"), Some("y"), Some("1")]);
    assert!(table.get_row_data(4).is_empty());
    assert_eq!(table.get(1, 2), Some(&Some("300".to_string())));
    assert_eq!(table.get(0, 3), Some(&None));
    assert_eq!(table.get(4, 0), None);
    assert_eq!(table.get(0, 4), None);
}

#[test]
fn rows_may_come_in_any_order_and_leave_gaps() {
    let table = parse(&lines_of("2DA V2.0\nA B\n2 x y z\n\n0 p\n")).unwrap();
    assert_eq!(table.height(), 3);
    assert_eq!(
        table.data,
        vec![
            vec![Some("p".to_string()), None],
            vec![None, None],
            vec![Some("x".to_string()), Some("y".to_string())],
        ]
    );
}

#[test]
fn table_errors() {
    assert_eq!(parse(&vec![]), Err(Error::ParseError(ParseFault::BadHeader)));
    assert_eq!(
        parse(&lines_of("2DA V1.0\nA\n0 x\n")),
        Err(Error::ParseError(ParseFault::BadHeader))
    );
    assert_eq!(
        parse(&lines_of("2DA V2.0 x\nA\n0 x\n")),
        Err(Error::ParseError(ParseFault::BadHeader))
    );
    assert_eq!(
        parse(&lines_of("2DA V2.0\n\n   \n")),
        Err(Error::ParseError(ParseFault::MissingTableHeader))
    );
    assert_eq!(
        parse(&lines_of("2DA V2.0\nA\nzero x\n")),
        Err(Error::ParseError(ParseFault::BadRowIndex))
    );
    assert_eq!(
        parse(&lines_of("2DA V2.0\nA\n-1 x\n")),
        Err(Error::ParseError(ParseFault::BadRowIndex))
    );
    let empty = parse(&lines_of("2DA V2.0\nA B C\n")).unwrap();
    assert_eq!(empty.height(), 0);
    assert_eq!(empty.width(), 3);
}

#[test]
fn line_parts() {
    assert_eq!(split_line_parts("a  b\tc\r\n"), vec!["a", "b", "c"]);
    assert_eq!(split_line_parts("  \"a b\"c \"\" d\"e"), vec!["a bc", "de"]);
    assert_eq!(split_line_parts("x \"open to the end"), vec!["x", "open to the end"]);
    assert!(split_line_parts(" \t ").is_empty());
    assert!(split_line_parts("").is_empty());
    assert_eq!(split_line_parts("\u{e9}t\u{e9} \u{2713}"), vec!["\u{e9}t\u{e9}", "\u{2713}"]);
}

#[test]
fn header_validation() {
    let good = vec!["2DA".to_string(), "V2.0".to_string()];
    assert_eq!(validate_header(Some(&good)), Ok(()));
    let bad = vec!["2DA".to_string()];
    assert_eq!(
        validate_header(Some(&bad)),
        Err(Error::ParseError(ParseFault::BadHeader))
    );
    assert_eq!(validate_header(None), Err(Error::ParseError(ParseFault::BadHeader)));
}

#[test]
fn insert_at_grows_the_table() {
    let mut table = DataTable {
        columns: vec!["A".to_string(), "B".to_string()],
        data: vec![],
    };
    table.insert_at(1, 2, Some("x".to_string()));
    table.insert_at(5, 0, Some("dropped".to_string()));
    table.insert_at(0, 0, None);
    assert_eq!(
        table.data,
        vec![vec![None, None], vec![None, None], vec![None, Some("x".to_string())]]
    );
}
