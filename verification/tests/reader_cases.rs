use m4_expander::{ExpandError, ExpandingReader, MacroRegistry, ParseError, Token};

fn registry() -> MacroRegistry {
    let mut registry = MacroRegistry::new();
    registry.define("foo".to_string(), vec![Token::Literal("bar".to_string())]);
    registry
}

#[test]
fn reader_serves_in_pieces() {
    let mut reader = ExpandingReader::new(registry());
    reader.fill_buffer("foo-foo").unwrap();
    assert!(!reader.needs_input());

    let mut buf = [b'.'; 5];
    assert_eq!(reader.read(&mut buf), 5);
    assert_eq!(&buf, b"bar-b");
    let mut buf = [b'.'; 5];
    assert_eq!(reader.read(&mut buf), 2);
    assert_eq!(&buf, b"ar...");
    assert_eq!(reader.read(&mut buf), 0);
    assert_eq!(&buf, b"ar...");
    assert!(!reader.needs_input());
}

#[test]
fn reader_without_input_serves_nothing() {
    let mut reader = ExpandingReader::new(registry());
    let mut buf = [7u8; 3];
    assert!(reader.needs_input());
    assert_eq!(reader.read(&mut buf), 0);
    assert_eq!(buf, [7u8; 3]);
    assert!(reader.needs_input());
}

#[test]
fn reader_with_an_empty_buffer_serves_nothing() {
    let mut reader = ExpandingReader::new(registry());
    reader.fill_buffer("foo").unwrap();
    let mut none: [u8; 0] = [];
    assert_eq!(reader.read(&mut none), 0);
    let mut buf = [0u8; 8];
    assert_eq!(reader.read(&mut buf), 3);
    assert_eq!(&buf[..3], b"bar");
}

#[test]
fn reader_takes_its_input_once() {
    let mut reader = ExpandingReader::new(registry());
    reader.fill_buffer("foo").unwrap();
    reader.fill_buffer("something else").unwrap();
    let mut buf = [0u8; 32];
    assert_eq!(reader.read(&mut buf), 3);
    assert_eq!(&buf[..3], b"bar");
}

#[test]
fn reader_with_empty_input_is_done() {
    let mut reader = ExpandingReader::new(registry());
    reader.fill_buffer("").unwrap();
    assert!(!reader.needs_input());
    let mut buf = [0u8; 4];
    assert_eq!(reader.read(&mut buf), 0);
}

#[test]
fn reader_reports_a_failed_expansion_and_takes_nothing() {
    let mut reader = ExpandingReader::new(registry());
    assert_eq!(
        reader.fill_buffer("foo `"),
        Err(ExpandError::Parse(ParseError::UnterminatedQuote { at: 4 }))
    );
    assert!(reader.needs_input());
    reader.fill_buffer("foo").unwrap();
    let mut buf = [0u8; 4];
    assert_eq!(reader.read(&mut buf), 3);
}

#[test]
fn reader_serves_the_bytes_of_the_text() {
    let mut reader = ExpandingReader::new(registry());
    reader.fill_buffer("\u{e9}!").unwrap();
    let mut buf = [0u8; 2];
    assert_eq!(reader.read(&mut buf), 2);
    assert_eq!(buf, [0xc3, 0xa9]);
    assert_eq!(reader.read(&mut buf), 1);
    assert_eq!(buf[0], b'!');
}

#[test]
fn reader_leaves_the_definitions_of_its_input_behind() {
    let mut reader = ExpandingReader::new(registry());
    reader.fill_buffer("define(`foo', `changed')foo").unwrap();
    let mut buf = [0u8; 16];
    let n = reader.read(&mut buf);
    assert_eq!(&buf[..n], b"changed");
}
