//! Parsing raw terminal bytes into key events, including sequences split
//! across reads.

use rff::event::{parse_csi, parse_event, parse_utf8_char, CsiParsed, Event, Key, Parsed, Utf8Parsed};
use rff::input::Events;

fn one_event(bytes: Vec<u8>) -> Option<Event> {
    let mut events = Events::new();
    events.feed(&bytes);
    events.next_event(true)
}

#[test]
fn plain_bytes() {
    assert_eq!(one_event(vec![b'a']), Some(Event::Key(Key::Char('a'))));
    assert_eq!(one_event(vec![b'\r']), Some(Event::Key(Key::Char('\n'))));
    assert_eq!(one_event(vec![b'\n']), Some(Event::Key(Key::Char('\n'))));
    assert_eq!(one_event(vec![b'\t']), Some(Event::Key(Key::Char('\t'))));
    assert_eq!(one_event(vec![0x7F]), Some(Event::Key(Key::Backspace)));
    assert_eq!(one_event(vec![0x00]), Some(Event::Key(Key::Null)));
}

#[test]
fn control_bytes() {
    assert_eq!(one_event(vec![0x01]), Some(Event::Key(Key::Ctrl('a'))));
    assert_eq!(one_event(vec![0x03]), Some(Event::Key(Key::Ctrl('c'))));
    assert_eq!(one_event(vec![0x1A]), Some(Event::Key(Key::Ctrl('z'))));
    assert_eq!(one_event(vec![0x1C]), Some(Event::Key(Key::Ctrl('4'))));
    assert_eq!(one_event(vec![0x1F]), Some(Event::Key(Key::Ctrl('7'))));
}

#[test]
fn csi_finals() {
    assert_eq!(one_event(vec![0x1B, b'[', b'A']), Some(Event::Key(Key::Up)));
    assert_eq!(one_event(vec![0x1B, b'[', b'B']), Some(Event::Key(Key::Down)));
    assert_eq!(one_event(vec![0x1B, b'[', b'C']), Some(Event::Key(Key::Right)));
    assert_eq!(one_event(vec![0x1B, b'[', b'D']), Some(Event::Key(Key::Left)));
    assert_eq!(one_event(vec![0x1B, b'[', b'H']), Some(Event::Key(Key::Home)));
    assert_eq!(one_event(vec![0x1B, b'[', b'F']), Some(Event::Key(Key::End)));
}

#[test]
fn csi_numbered() {
    assert_eq!(one_event(vec![0x1B, b'[', b'2', b'~']), Some(Event::Key(Key::Insert)));
    assert_eq!(one_event(vec![0x1B, b'[', b'3', b'~']), Some(Event::Key(Key::Delete)));
    assert_eq!(one_event(vec![0x1B, b'[', b'5', b'~']), Some(Event::Key(Key::PageUp)));
    assert_eq!(one_event(vec![0x1B, b'[', b'6', b'~']), Some(Event::Key(Key::PageDown)));
    assert_eq!(one_event(vec![0x1B, b'[', b'7', b'~']), Some(Event::Key(Key::Home)));
    assert_eq!(one_event(vec![0x1B, b'[', b'8', b'~']), Some(Event::Key(Key::End)));
    assert_eq!(one_event(vec![0x1B, b'[', b'1', b'1', b'~']), Some(Event::Key(Key::F(1))));
    assert_eq!(one_event(vec![0x1B, b'[', b'1', b'5', b'~']), Some(Event::Key(Key::F(5))));
    assert_eq!(one_event(vec![0x1B, b'[', b'1', b'7', b'~']), Some(Event::Key(Key::F(6))));
    assert_eq!(one_event(vec![0x1B, b'[', b'2', b'4', b'~']), Some(Event::Key(Key::F(12))));
}

#[test]
fn function_keys() {
    assert_eq!(one_event(vec![0x1B, b'O', b'P']), Some(Event::Key(Key::F(1))));
    assert_eq!(one_event(vec![0x1B, b'O', b'S']), Some(Event::Key(Key::F(4))));
}

#[test]
fn alt_key() {
    assert_eq!(one_event(vec![0x1B, b'x']), Some(Event::Key(Key::Alt('x'))));
}

#[test]
fn multi_parameter_csi_degrades() {
    // Modifier sequences are unsupported: the raw bytes come back as an
    // unknown event instead of a crash.
    let bytes = vec![0x1B, b'[', b'1', b';', b'2', b'~'];
    assert_eq!(one_event(bytes.clone()), Some(Event::Unknown(bytes)));
}

#[test]
fn unrecognized_csi_final_degrades() {
    let bytes = vec![0x1B, b'[', b'1', b'z'];
    assert_eq!(one_event(bytes.clone()), Some(Event::Unknown(bytes)));
}

#[test]
fn utf8_characters() {
    assert_eq!(one_event(vec![0xC3, 0xA9]), Some(Event::Key(Key::Char('é'))));
    assert_eq!(one_event(vec![0xE5, 0xB1, 0xB1]), Some(Event::Key(Key::Char('山'))));
    assert_eq!(one_event(vec![0xF0, 0x9F, 0x92, 0xA3]), Some(Event::Key(Key::Char('💣'))));
}

#[test]
fn malformed_utf8_degrades() {
    let bytes = vec![0xFF, 0x00, 0x01, 0x02];
    assert_eq!(one_event(bytes.clone()), Some(Event::Unknown(bytes)));
}

#[test]
fn lone_escape_is_escape() {
    let mut events = Events::new();
    events.feed(&vec![0x1B]);
    assert_eq!(events.next_event(true), Some(Event::Key(Key::Escape)));
    assert_eq!(events.next_event(true), None);
}

#[test]
fn sequence_split_across_reads() {
    let mut events = Events::new();
    events.feed(&vec![0x1B, b'[']);
    assert_eq!(events.next_event(true), None);
    events.feed(&vec![b'A']);
    assert_eq!(events.next_event(true), Some(Event::Key(Key::Up)));
    assert_eq!(events.next_event(true), None);
}

#[test]
fn utf8_split_across_reads() {
    let mut events = Events::new();
    events.feed(&vec![0xF0, 0x9F]);
    assert_eq!(events.next_event(true), None);
    events.feed(&vec![0x92]);
    assert_eq!(events.next_event(true), None);
    events.feed(&vec![0xA3]);
    assert_eq!(events.next_event(true), Some(Event::Key(Key::Char('💣'))));
}

#[test]
fn no_byte_dropped_across_boundaries() {
    let mut events = Events::new();
    events.feed(&vec![b'a', b'b']);
    assert_eq!(events.next_event(true), Some(Event::Key(Key::Char('a'))));
    assert_eq!(events.next_event(true), Some(Event::Key(Key::Char('b'))));
    assert_eq!(events.next_event(true), None);

    events.feed(&vec![b'q', 0x1B]);
    assert_eq!(events.next_event(true), Some(Event::Key(Key::Char('q'))));
    assert_eq!(events.next_event(true), Some(Event::Key(Key::Escape)));
}

#[test]
fn parse_event_directly() {
    let buf = vec![0x1B, b'[', b'3', b'~', b'x'];
    match parse_event(&buf, 0) {
        Parsed::Found(e, next) => {
            assert_eq!(e, Event::Key(Key::Delete));
            assert_eq!(next, 4);
        },
        Parsed::Incomplete => panic!("expected a complete event"),
    }
    match parse_event(&buf, 4) {
        Parsed::Found(e, next) => {
            assert_eq!(e, Event::Key(Key::Char('x')));
            assert_eq!(next, 5);
        },
        Parsed::Incomplete => panic!("expected a complete event"),
    }
}

#[test]
fn parse_csi_directly() {
    let buf = vec![b'D'];
    match parse_csi(&buf, 0) {
        CsiParsed::Found(k, next) => {
            assert_eq!(k, Key::Left);
            assert_eq!(next, 1);
        },
        _ => panic!("expected an arrow key"),
    }
    match parse_csi(&buf, 1) {
        CsiParsed::Incomplete => {},
        _ => panic!("expected more bytes to be needed"),
    }
}

#[test]
fn parse_utf8_char_directly() {
    let buf = vec![0xC3, 0xA9];
    match parse_utf8_char(&buf, 0) {
        Utf8Parsed::Scalar(c, next) => {
            assert_eq!(c, 'é');
            assert_eq!(next, 2);
        },
        _ => panic!("expected a decoded character"),
    }
    match parse_utf8_char(&vec![0xC3], 0) {
        Utf8Parsed::Incomplete => {},
        _ => panic!("expected more bytes to be needed"),
    }
    match parse_utf8_char(&vec![0x80, 0, 0, 0], 0) {
        Utf8Parsed::Invalid(next) => assert_eq!(next, 4),
        _ => panic!("expected a malformed sequence"),
    }
}
