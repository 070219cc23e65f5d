use nwn_lib::string_stream::StringStream;
use nwn_lib::utils::pair_second;

#[test]
fn one_byte_test() {
    let s = "h";
    let mut stream = StringStream::new(s.as_bytes());
    assert_eq!(stream.next(), Some('h'));
}

#[test]
fn two_byte_test() {
    let s = "\u{1B1}";
    let mut stream = StringStream::new(s.as_bytes());
    assert_eq!(stream.next(), Some('\u{1B1}'));
}

#[test]
fn three_byte_test() {
    let s = "\u{2713}";
    let mut stream = StringStream::new(s.as_bytes());
    assert_eq!(stream.next(), Some('\u{2713}'));
}

#[test]
fn four_byte_test() {
    let s = "😉";
    let mut stream = StringStream::new(s.as_bytes());
    assert_eq!(stream.next(), Some('😉'));
}

#[test]
fn next_line_test() {
    let with_trailing = "hi\nhow\r\nare\nyou?\n";
    let without_trailing = "hi\nhow\r\nare\nyou?\n";

    let expected = ["hi", "how", "are", "you?"];

    fn get_lines(data: &str) -> Vec<String> {
        let mut stream = StringStream::new(data.as_bytes());
        let mut lines = Vec::new();
        while let Some(l) = stream.next_line() {
            lines.push(l);
        }

        lines
    }

    assert_eq!(get_lines(with_trailing), expected);
    assert_eq!(get_lines(without_trailing), expected);
}

#[test]
fn lines_test() {
    let s = "how\nmuch\nwood\nwould\na\nwoodchuck\nchuck?";
    let stream = StringStream::new(s.as_bytes());
    let lines = stream.lines();

    assert_eq!(
        lines,
        vec!["how", "much", "wood", "would", "a", "woodchuck", "chuck?"]
    )
}

#[test]
fn lines_stop_at_the_first_empty_line() {
    let stream = StringStream::new("one\n\ntwo\n".as_bytes());
    assert_eq!(stream.lines(), vec!["one"]);
}

#[test]
fn malformed_sequences_yield_no_character() {
    let mut stream = StringStream::new(&[0xff, b'a', b'b', b'c', b'd']);
    assert_eq!(stream.next(), None);
    assert_eq!(stream.next(), Some('d'));
    assert_eq!(stream.next(), None);

    let mut stream = StringStream::new(&[0xed, 0xa0, 0x80]);
    assert_eq!(stream.next(), None);
}

#[test]
fn lone_carriage_return_drops_the_next_character() {
    let mut stream = StringStream::new("a\rbc\n".as_bytes());
    assert_eq!(stream.next_line(), Some("a\rc".to_string()));
    assert_eq!(stream.next_line(), None);
}

#[test]
fn pair_second_test() {
    assert_eq!(pair_second((1, "two")), "two");
}
