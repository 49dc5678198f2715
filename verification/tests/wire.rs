use swords::entity::collection::Collection;
use swords::entity::record::Record;
use swords::entity::value::Value;
use swords::entity::Entries;
use swords::error::{ParseError, SerializeError};
use swords::io::parser::Parser;
use swords::wire::decode::MAX_DEPTH;

fn written_text(text: &str) -> Vec<u8> {
    let mut bytes = vec![0x00, (text.len() / 256) as u8, (text.len() % 256) as u8];
    bytes.extend_from_slice(text.as_bytes());
    bytes
}

fn nested(levels: usize) -> Vec<u8> {
    let mut bytes = vec![];
    for _ in 0..levels {
        bytes.push(0x03);
        bytes.extend_from_slice(&written_text("label"));
        bytes.extend_from_slice(&written_text("n"));
    }
    for _ in 0..levels {
        bytes.push(0x04);
    }
    bytes
}

#[test]
fn value_is_written_with_starter_length_and_payload() {
    assert_eq!(
        Value::new(b"hello", false).to_bytes().unwrap(),
        vec![0x00, 0x00, 0x05, 0x68, 0x65, 0x6c, 0x6c, 0x6f]
    );
    assert_eq!(
        Value::new(b"hello", true).to_bytes().unwrap(),
        vec![0x01, 0x00, 0x05, 0x68, 0x65, 0x6c, 0x6c, 0x6f]
    );
    assert_eq!(Value::new(b"", false).to_bytes().unwrap(), vec![0x00, 0x00, 0x00]);
    assert_eq!(Value::new(b"", true).to_bytes().unwrap(), vec![0x01, 0x00, 0x00]);
}

#[test]
fn value_length_is_written_big_endian() {
    let bytes = Value::new(&vec![0xab; 0x0102], false).to_bytes().unwrap();
    assert_eq!(&bytes[..3], &[0x00, 0x01, 0x02]);
    assert_eq!(bytes.len(), 3 + 0x0102);
    let bytes = Value::new(&vec![0xab; 0xffff], true).to_bytes().unwrap();
    assert_eq!(&bytes[..3], &[0x01, 0xff, 0xff]);
    assert_eq!(bytes.len(), 3 + 0xffff);
    let mut parser = Parser::new();
    parser.inject_input(&bytes);
    let read = parser.parse_value(true).unwrap();
    assert_eq!(read.inner(), &vec![0xab; 0xffff][..]);
}

#[test]
fn value_of_more_than_65535_bytes_cannot_be_written() {
    assert_eq!(
        Value::new(&vec![0u8; 0x1_0000], false).to_bytes(),
        Err(SerializeError::PayloadTooLong)
    );
    assert_eq!(
        Value::str_to_bytes(&"x".repeat(0x1_0000), false),
        Err(SerializeError::PayloadTooLong)
    );
}

#[test]
fn text_is_written_as_its_utf8_bytes() {
    assert_eq!(
        Value::str_to_bytes("msg", false).unwrap(),
        vec![0x00, 0x00, 0x03, 0x6d, 0x73, 0x67]
    );
    assert_eq!(
        Value::str_to_bytes("é", true).unwrap(),
        vec![0x01, 0x00, 0x02, 0xc3, 0xa9]
    );
}

#[test]
fn value_that_is_not_text_is_refused_as_text() {
    assert_eq!(
        Value::new(&[0xc3, 0x28], false).parse_string(),
        Err(ParseError::EncodingError)
    );
    let text: Result<String, ParseError> = Value::new(&[0xff], true).try_into();
    assert_eq!(text, Err(ParseError::EncodingError));
    assert_eq!(
        Value::new("grüße".as_bytes(), false).parse_string(),
        Ok("grüße".to_owned())
    );
    assert_eq!(Value::new(b"abc", true).take(), b"abc".to_vec().into_boxed_slice());
}

#[test]
fn key_that_is_not_text_is_refused() {
    let mut parser = Parser::new();
    parser.inject_input(&[0x00, 0x00, 0x01, 0xff, 0x00, 0x00, 0x00]);
    assert_eq!(parser.parse_key_value().unwrap_err(), ParseError::EncodingError);
}

#[test]
fn value_starter_that_is_neither_public_nor_secret_is_refused() {
    let mut parser = Parser::new();
    parser.inject_input(&[0x00, 0x00, 0x01, 0x6b, 0x02, 0x00, 0x00]);
    assert_eq!(
        parser.parse_key_value().unwrap_err(),
        ParseError::UnexpectedStarterByte
    );
}

#[test]
fn record_is_written_with_label_secret_and_extras() {
    let mut record = Record::new("abc".to_owned(), b"def".to_vec().into_boxed_slice());
    record.add_extra("n", &[0xaa], false);
    record.add_extra("s", &[0xbb], true);
    let mut expected = vec![0x02];
    expected.extend_from_slice(&written_text("label"));
    expected.extend_from_slice(&written_text("abc"));
    expected.extend_from_slice(&written_text("secret"));
    expected.extend_from_slice(&[0x01, 0x00, 0x03, b'd', b'e', b'f']);
    expected.extend_from_slice(&written_text("n"));
    expected.extend_from_slice(&[0x00, 0x00, 0x01, 0xaa]);
    expected.extend_from_slice(&written_text("s"));
    expected.extend_from_slice(&[0x01, 0x00, 0x01, 0xbb]);
    assert_eq!(record.to_bytes().unwrap(), expected);
    let mut parser = Parser::new();
    parser.inject_input(&expected);
    let read = parser.parse_record().unwrap();
    assert_eq!(read.label(), "abc");
    assert_eq!(&read.secret()[..], b"def");
    assert_eq!(read.get_extra("n").unwrap().inner(), &[0xaa]);
    assert!(!read.get_extra("n").unwrap().is_secret());
    assert_eq!(read.get_extra("s").unwrap().inner(), &[0xbb]);
    assert!(read.get_extra("s").unwrap().is_secret());
    assert!(read.get_extra("label").is_none());
    assert!(read.get_extra("secret").is_none());
    assert_eq!(read.to_bytes().unwrap(), expected);
}

#[test]
fn collection_is_written_with_label_extras_children_and_records() {
    let mut collection = Collection::new("top".to_owned());
    collection.add_record(Record::new("r".to_owned(), Box::new([1])));
    collection.add_child(Collection::new("in".to_owned()));
    collection.add_extra("k", b"v", true);
    let mut expected = vec![0x03];
    expected.extend_from_slice(&written_text("label"));
    expected.extend_from_slice(&written_text("top"));
    expected.extend_from_slice(&written_text("k"));
    expected.extend_from_slice(&[0x01, 0x00, 0x01, b'v']);
    expected.push(0x03);
    expected.extend_from_slice(&written_text("label"));
    expected.extend_from_slice(&written_text("in"));
    expected.push(0x04);
    expected.push(0x02);
    expected.extend_from_slice(&written_text("label"));
    expected.extend_from_slice(&written_text("r"));
    expected.extend_from_slice(&written_text("secret"));
    expected.extend_from_slice(&[0x01, 0x00, 0x01, 0x01]);
    expected.push(0x04);
    assert_eq!(collection.to_bytes().unwrap(), expected);
    let mut parser = Parser::new();
    parser.inject_input(&expected);
    let read = parser.parse_collection().unwrap();
    assert_eq!(read.to_bytes().unwrap(), expected);
}

#[test]
fn collection_members_are_accepted_in_any_order() {
    let mut input = vec![0x03];
    input.push(0x02);
    input.extend_from_slice(&written_text("secret"));
    input.extend_from_slice(&[0x01, 0x00, 0x01, 0x07]);
    input.extend_from_slice(&written_text("label"));
    input.extend_from_slice(&written_text("first"));
    input.push(0x03);
    input.extend_from_slice(&written_text("label"));
    input.extend_from_slice(&written_text("child"));
    input.push(0x04);
    input.extend_from_slice(&written_text("label"));
    input.extend_from_slice(&written_text("top"));
    input.push(0x02);
    input.extend_from_slice(&written_text("label"));
    input.extend_from_slice(&written_text("second"));
    input.extend_from_slice(&written_text("secret"));
    input.extend_from_slice(&[0x01, 0x00, 0x00]);
    input.push(0x04);
    let mut parser = Parser::new();
    parser.inject_input(&input);
    let read = parser.parse_collection().unwrap();
    assert_eq!(read.label(), "top");
    assert_eq!(read.children().len(), 1);
    assert_eq!(read.get_child(0).unwrap().label(), "child");
    assert_eq!(read.records().len(), 2);
    assert_eq!(read.get_record(0).unwrap().label(), "first");
    assert_eq!(&read.get_record(0).unwrap().secret()[..], &[0x07]);
    assert_eq!(read.get_record(1).unwrap().label(), "second");
    assert!(read.get_record(1).unwrap().secret().is_empty());
    assert!(read.get_record(2).is_none());
}

#[test]
fn later_entry_of_a_name_takes_the_place_of_an_earlier_one() {
    let mut input = vec![0x03];
    input.extend_from_slice(&written_text("label"));
    input.extend_from_slice(&written_text("old"));
    input.extend_from_slice(&written_text("k"));
    input.extend_from_slice(&[0x00, 0x00, 0x01, 0x01]);
    input.extend_from_slice(&written_text("label"));
    input.extend_from_slice(&written_text("new"));
    input.extend_from_slice(&written_text("k"));
    input.extend_from_slice(&[0x01, 0x00, 0x01, 0x02]);
    input.push(0x04);
    let mut parser = Parser::new();
    parser.inject_input(&input);
    let read = parser.parse_collection().unwrap();
    assert_eq!(read.label(), "new");
    assert_eq!(read.get_extra("k").unwrap().inner(), &[0x02]);
    assert!(read.get_extra("k").unwrap().is_secret());
}

#[test]
fn collection_with_a_secret_label_is_refused() {
    let mut input = vec![0x03];
    input.extend_from_slice(&written_text("label"));
    input.extend_from_slice(&[0x01, 0x00, 0x01, b'x']);
    input.push(0x04);
    let mut parser = Parser::new();
    parser.inject_input(&input);
    assert_eq!(
        parser.parse_collection().unwrap_err(),
        ParseError::ForbiddenSecretField("label".to_owned())
    );
}

#[test]
fn record_with_a_secret_label_is_refused() {
    let mut input = vec![0x02];
    input.extend_from_slice(&written_text("label"));
    input.extend_from_slice(&[0x01, 0x00, 0x01, b'x']);
    input.extend_from_slice(&written_text("secret"));
    input.extend_from_slice(&[0x01, 0x00, 0x01, b'y']);
    let mut parser = Parser::new();
    parser.inject_input(&input);
    assert_eq!(
        parser.parse_record().unwrap_err(),
        ParseError::ForbiddenSecretField("label".to_owned())
    );
}

#[test]
fn record_with_a_public_secret_is_refused() {
    let mut input = vec![0x02];
    input.extend_from_slice(&written_text("label"));
    input.extend_from_slice(&written_text("x"));
    input.extend_from_slice(&written_text("secret"));
    input.extend_from_slice(&[0x00, 0x00, 0x01, b'y']);
    let mut parser = Parser::new();
    parser.inject_input(&input);
    assert_eq!(
        parser.parse_record().unwrap_err(),
        ParseError::ForbiddenNonSecretField("secret".to_owned())
    );
}

#[test]
fn record_with_a_label_that_is_not_text_is_refused() {
    let mut input = vec![0x02];
    input.extend_from_slice(&written_text("label"));
    input.extend_from_slice(&[0x00, 0x00, 0x01, 0xff]);
    input.extend_from_slice(&written_text("secret"));
    input.extend_from_slice(&[0x01, 0x00, 0x01, b'y']);
    let mut parser = Parser::new();
    parser.inject_input(&input);
    assert_eq!(parser.parse_record().unwrap_err(), ParseError::EncodingError);
}

#[test]
fn record_with_nothing_behind_its_starter_is_refused_as_ended() {
    let mut parser = Parser::new();
    parser.inject_input(&[0x02]);
    assert_eq!(
        parser.parse_record().unwrap_err(),
        ParseError::UnexpectedEndOfFile
    );
    parser.inject_input(&[]);
    assert_eq!(
        parser.parse_record().unwrap_err(),
        ParseError::UnexpectedEndOfFile
    );
}

#[test]
fn collection_that_is_not_closed_is_refused_as_ended() {
    let mut input = vec![0x03];
    input.extend_from_slice(&written_text("label"));
    input.extend_from_slice(&written_text("top"));
    let mut parser = Parser::new();
    parser.inject_input(&input);
    assert_eq!(
        parser.parse_collection().unwrap_err(),
        ParseError::UnexpectedEndOfFile
    );
    parser.inject_input(&[0x03]);
    assert_eq!(
        parser.parse_collection().unwrap_err(),
        ParseError::UnexpectedEndOfFile
    );
    parser.inject_input(&[]);
    assert_eq!(
        parser.parse_collection().unwrap_err(),
        ParseError::UnexpectedEndOfFile
    );
}

#[test]
fn collection_member_with_an_unknown_starter_is_refused() {
    let mut input = vec![0x03];
    input.extend_from_slice(&written_text("label"));
    input.extend_from_slice(&written_text("top"));
    input.push(0x01);
    input.push(0x04);
    let mut parser = Parser::new();
    parser.inject_input(&input);
    assert_eq!(
        parser.parse_collection().unwrap_err(),
        ParseError::UnexpectedStarterByte
    );
}

#[test]
fn declared_length_beyond_the_input_is_refused_with_both_lengths() {
    let mut parser = Parser::new();
    parser.inject_input(&[0x00, 0xff, 0xff]);
    assert_eq!(
        parser.parse_value(false).unwrap_err(),
        ParseError::UnexpectedEndOfValue(0, 65_535)
    );
    parser.inject_input(&[0x01, 0x01, 0x00, 0xaa, 0xbb]);
    assert_eq!(
        parser.parse_value(true).unwrap_err(),
        ParseError::UnexpectedEndOfValue(2, 256)
    );
    parser.inject_input(&[0x00, 0x00, 0x01, b'k', 0x01, 0x00, 0x09, 1, 2, 3]);
    assert_eq!(
        parser.parse_key_value().unwrap_err(),
        ParseError::UnexpectedEndOfValue(3, 9)
    );
}

#[test]
fn refused_input_leaves_the_cursor_where_it_stood() {
    let mut parser = Parser::new();
    parser.inject_input(&[0x00, 0x00, 0x01, b'k', 0x00, 0x00, 0x05, 1, 2]);
    assert_eq!(
        parser.parse_key_value().unwrap_err(),
        ParseError::UnexpectedEndOfValue(2, 5)
    );
    let key = parser.parse_value(false).unwrap();
    assert_eq!(key.inner(), b"k");
    assert_eq!(parser.peek_starter_byte(), Ok(0x00));
}

#[test]
fn cursor_moves_behind_what_was_read() {
    let mut parser = Parser::new();
    parser.inject_input(&[0x00, 0x00, 0x01, b'a', 0x01, 0x00, 0x01, b'b', 0x09]);
    assert_eq!(parser.parse_value(false).unwrap().inner(), b"a");
    assert_eq!(parser.parse_value(true).unwrap().inner(), b"b");
    assert_eq!(parser.peek_starter_byte(), Ok(0x09));
    assert_eq!(parser.ensure_starter_byte(0x08), Err(ParseError::UnexpectedStarterByte));
    assert_eq!(
        parser.ensure_starter_byte_in(&[0x01, 0x02]),
        Err(ParseError::UnexpectedStarterByte)
    );
    assert_eq!(parser.ensure_starter_byte_in(&[0x01, 0x09]), Ok(0x09));
    assert_eq!(parser.peek_starter_byte(), Err(ParseError::UnexpectedEndOfFile));
    assert_eq!(parser.ensure_remaining_input(), Err(ParseError::UnexpectedEndOfFile));
    assert_eq!(parser.ensure_starter_byte(0x00), Err(ParseError::UnexpectedEndOfFile));
}

#[test]
fn bytes_are_taken_from_the_front() {
    let mut parser = Parser::new();
    parser.inject_input(&[1, 2, 3, 4, 5]);
    assert_eq!(parser.ensure_remaining_length(5), Ok(()));
    assert_eq!(
        parser.ensure_remaining_length(6),
        Err(ParseError::UnexpectedEndOfValue(5, 6))
    );
    assert_eq!(
        parser.ensure_remaining_length_or(6, ParseError::InvalidVersionNumber),
        Err(ParseError::InvalidVersionNumber)
    );
    assert_eq!(parser.take_bytes(2), Ok(&[1u8, 2][..]));
    assert_eq!(
        parser.take_bytes(4),
        Err(ParseError::UnexpectedEndOfValue(3, 4))
    );
    assert_eq!(
        parser.take_bytes_or(4, ParseError::UnexpectedEndOfFile),
        Err(ParseError::UnexpectedEndOfFile)
    );
    assert_eq!(
        parser.take_bytes_or(3, ParseError::UnexpectedEndOfFile),
        Ok(&[3u8, 4, 5][..])
    );
    assert_eq!(parser.take_bytes(0), Ok(&[][..]));
}

#[test]
fn magic_number_is_checked_on_the_first_eight_bytes() {
    let mut longer = swords::util::MAGIC_NUMBER.to_vec();
    assert!(Parser::check_magic_number(&longer));
    longer.push(0);
    assert!(Parser::check_magic_number(&longer));
    assert!(!Parser::check_magic_number(&longer[1..]));
    assert!(!Parser::check_magic_number(&longer[..7]));
    assert!(!Parser::check_magic_number(&[]));
}

#[test]
fn version_is_read_big_endian() {
    let mut parser = Parser::new();
    parser.inject_input(&[0x12, 0x34, 0x56, 0x78, 0x9a]);
    assert_eq!(parser.parse_version(), Ok(0x1234_5678));
    assert_eq!(parser.peek_starter_byte(), Ok(0x9a));
    parser.inject_input(&[0xff, 0xff, 0xff, 0xff]);
    assert_eq!(parser.parse_version(), Ok(u32::MAX));
    parser.inject_input(&[0, 0, 1]);
    assert_eq!(parser.parse_version(), Err(ParseError::UnexpectedEndOfFile));
}

#[test]
fn collections_may_stand_128_deep_and_no_deeper() {
    assert_eq!(MAX_DEPTH, 128);
    let mut parser = Parser::new();
    let deepest = nested(128);
    parser.inject_input(&deepest);
    let read = parser.parse_collection().unwrap();
    let mut depth = 1;
    let mut at = &read;
    while let Some(child) = at.get_child(0) {
        depth += 1;
        at = child;
    }
    assert_eq!(depth, 128);
    let too_deep = nested(129);
    parser.inject_input(&too_deep);
    assert_eq!(
        parser.parse_collection().unwrap_err(),
        ParseError::UnexpectedStarterByte
    );
    let shallow = nested(3);
    parser.inject_input(&shallow);
    assert!(parser.parse_collection_within(3).is_ok());
    parser.inject_input(&shallow);
    assert_eq!(
        parser.parse_collection_within(2).unwrap_err(),
        ParseError::UnexpectedStarterByte
    );
    parser.inject_input(&shallow);
    assert_eq!(
        parser.parse_collection_within(0).unwrap_err(),
        ParseError::UnexpectedStarterByte
    );
}

#[test]
fn entries_keep_the_order_in_which_their_names_first_came() {
    let mut entries = Entries::new();
    assert!(entries.is_empty());
    assert!(entries.insert("a".to_owned(), Value::new(b"1", false)).is_none());
    assert!(entries.insert("b".to_owned(), Value::new(b"2", true)).is_none());
    assert!(entries.insert("c".to_owned(), Value::new(b"3", false)).is_none());
    let before = entries.insert("a".to_owned(), Value::new(b"4", true)).unwrap();
    assert_eq!(before.inner(), b"1");
    assert!(!before.is_secret());
    assert_eq!(entries.len(), 3);
    assert_eq!(entries.key_at(0).unwrap(), "a");
    assert_eq!(entries.key_at(1).unwrap(), "b");
    assert_eq!(entries.key_at(2).unwrap(), "c");
    assert!(entries.key_at(3).is_none());
    assert_eq!(entries.value_at(0).unwrap().inner(), b"4");
    assert!(entries.value_at(0).unwrap().is_secret());
    assert!(entries.value_at(3).is_none());
    assert!(entries.contains_key("b"));
    assert!(!entries.contains_key("d"));
    let taken = entries.remove("b").unwrap();
    assert_eq!(taken.inner(), b"2");
    assert!(taken.is_secret());
    assert!(entries.remove("b").is_none());
    assert_eq!(entries.len(), 2);
    assert_eq!(entries.key_at(0).unwrap(), "a");
    assert_eq!(entries.key_at(1).unwrap(), "c");
    assert!(entries.get("b").is_none());
    assert_eq!(entries.get("c").unwrap().inner(), b"3");
    let mut expected = written_text("a");
    expected.extend_from_slice(&[0x01, 0x00, 0x01, b'4']);
    expected.extend_from_slice(&written_text("c"));
    expected.extend_from_slice(&[0x00, 0x00, 0x01, b'3']);
    assert_eq!(entries.to_bytes().unwrap(), expected);
}

#[test]
fn entries_with_a_key_that_is_too_long_cannot_be_written() {
    let mut entries = Entries::new();
    entries.insert("k".repeat(65_536), Value::new(b"", false));
    assert_eq!(entries.to_bytes(), Err(SerializeError::PayloadTooLong));
}

#[test]
fn required_fields_are_looked_for_in_their_order() {
    let mut entries = Entries::new();
    entries.insert("b".to_owned(), Value::new(b"", true));
    entries.insert("c".to_owned(), Value::new(b"", false));
    assert_eq!(entries.require_public(&[]), Ok(()));
    assert_eq!(entries.require_public(&["c"]), Ok(()));
    assert_eq!(
        entries.require_public(&["c", "a", "b"]),
        Err(ParseError::MissingRequiredField("a".to_owned()))
    );
    assert_eq!(
        entries.require_public(&["c", "b", "a"]),
        Err(ParseError::ForbiddenSecretField("b".to_owned()))
    );
    assert_eq!(entries.require_secret(&["b"]), Ok(()));
    assert_eq!(
        entries.require_secret(&["b", "c"]),
        Err(ParseError::ForbiddenNonSecretField("c".to_owned()))
    );
    assert_eq!(
        entries.require_secret(&["a", "c"]),
        Err(ParseError::MissingRequiredField("a".to_owned()))
    );
}

#[test]
fn collection_is_changed_in_place() {
    let mut root = Collection::new("root".to_owned());
    root.add_child(Collection::new("a".to_owned()));
    root.add_child(Collection::new("b".to_owned()));
    root.add_record(Record::new("r".to_owned(), Box::new([1])));
    root.get_child_mut(1).unwrap().set_label("renamed");
    root.get_child_mut(0)
        .unwrap()
        .add_record(Record::new("deep".to_owned(), Box::new([2])));
    root.get_record_mut(0).unwrap().add_extra("k", b"v", false);
    assert!(root.get_child_mut(2).is_none());
    assert!(root.get_record_mut(1).is_none());
    assert_eq!(root.label(), "root");
    assert_eq!(root.get_child(0).unwrap().label(), "a");
    assert_eq!(root.get_child(0).unwrap().get_record(0).unwrap().label(), "deep");
    assert_eq!(root.get_child(1).unwrap().label(), "renamed");
    assert_eq!(root.get_record(0).unwrap().get_extra("k").unwrap().inner(), b"v");
    root.set_label("top");
    assert_eq!(root.label(), "top");
    assert!(root.get_extra("k").is_none());
}
