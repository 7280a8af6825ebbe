use monetproxy::formatter::Formatter;
use monetproxy::formatter::Side;
use monetproxy::formatter::TextFormatter;
use monetproxy::observers::describe_error;
use monetproxy::observers::BlockObserver;
use monetproxy::observers::MessageObserver;
use monetproxy::observers::RawObserver;
use monetproxy::proxy::Inspector;

fn text(f: &mut TextFormatter) -> String {
    String::from_utf8(f.take_output()).unwrap()
}

#[test]
fn error_phrases() {
    assert_eq!(describe_error(Side::Client, true), "error writing to server");
    assert_eq!(describe_error(Side::Server, true), "error writing to client");
    assert_eq!(describe_error(Side::Client, false), "could not be read");
    assert_eq!(describe_error(Side::Server, false), "could not be read");
}

#[test]
fn single_short_message() {
    let mut f = TextFormatter::new();
    let mut client = MessageObserver::new(Side::Client);
    let mut server = MessageObserver::new(Side::Server);
    client.on_data(&mut f, b"\x0b\x00hello");
    assert_eq!(
        text(&mut f),
        "┌ CLIENT text, 5 bytes, no trailing newline!\n│hello\n└\n"
    );
    server.on_data(&mut f, b"\x0d\x00world!");
    assert_eq!(
        text(&mut f),
        "┌ SERVER text, 6 bytes, no trailing newline!\n│world!\n└\n"
    );
}

#[test]
fn header_nine_announces_four_bytes() {
    let mut f = TextFormatter::new();
    let mut client = MessageObserver::new(Side::Client);
    client.on_data(&mut f, b"\x09\x00hello");
    assert_eq!(
        text(&mut f),
        "┌ CLIENT text, 4 bytes, no trailing newline!\n│hell\n└\n"
    );
    client.on_close(&mut f);
    assert_eq!(text(&mut f), "• CLIENT eof on incomplete block header\n");
}

#[test]
fn split_header_message() {
    let mut f = TextFormatter::new();
    let mut client = MessageObserver::new(Side::Client);
    client.on_data(&mut f, &[0x0b, 0x00, 0x68, 0x65]);
    assert_eq!(text(&mut f), "");
    client.on_data(&mut f, &[0x6c, 0x6c, 0x6f]);
    assert_eq!(
        text(&mut f),
        "┌ CLIENT text, 5 bytes, no trailing newline!\n│hello\n└\n"
    );
}

#[test]
fn multi_block_message() {
    let mut f = TextFormatter::new();
    let mut messages = MessageObserver::new(Side::Client);
    messages.on_data(&mut f, b"\x04\x00ab\x0b\x00cdefg");
    assert_eq!(
        text(&mut f),
        "┌ CLIENT text, 7 bytes, no trailing newline!\n│abcdefg\n└\n"
    );
    let mut blocks = BlockObserver::new(Side::Client);
    blocks.on_data(&mut f, b"\x04\x00ab\x0b\x00cdefg");
    assert_eq!(
        text(&mut f),
        "┌ CLIENT text, 2 bytes, no trailing newline, does not end the message\n│ab\n└\n\
         ┌ CLIENT text, 5 bytes, no trailing newline, ends the message\n│cdefg\n└\n"
    );
}

#[test]
fn message_across_calls_and_two_messages_in_one() {
    let mut f = TextFormatter::new();
    let mut o = MessageObserver::new(Side::Server);
    o.on_data(&mut f, b"\x04\x00ab");
    assert_eq!(text(&mut f), "");
    o.on_data(&mut f, b"\x05\x00c\n\x03\x00x\x02\x00y");
    assert_eq!(
        text(&mut f),
        "┌ SERVER text, 4 bytes\n│abc↵\n└\n\
         ┌ SERVER text, 1 bytes, no trailing newline!\n│x\n└\n"
    );
    o.on_data(&mut f, b"\x01\x00");
    assert_eq!(
        text(&mut f),
        "┌ SERVER text, 1 bytes, no trailing newline!\n│y\n└\n"
    );
}

#[test]
fn empty_message() {
    let mut f = TextFormatter::new();
    let mut o = MessageObserver::new(Side::Server);
    o.on_data(&mut f, &[0x01, 0x00]);
    assert_eq!(text(&mut f), "┌ SERVER text, 0 bytes\n└\n");
}

#[test]
fn binary_message() {
    let mut f = TextFormatter::new();
    let mut o = MessageObserver::new(Side::Server);
    o.on_data(&mut f, &[0x05, 0x00, 0x00, 0xff]);
    assert_eq!(
        text(&mut f),
        "┌ SERVER binary, 2 bytes\n│00 ff __ __  __ __ __ __   __ __ __ __  __ __ __ __     ░▒\n└\n"
    );
}

#[test]
fn forced_binary_message() {
    let mut f = TextFormatter::new();
    f.set_force_binary(true);
    let mut o = MessageObserver::new(Side::Client);
    o.on_data(&mut f, b"\x05\x00ok");
    assert_eq!(
        text(&mut f),
        "┌ CLIENT binary, 2 bytes\n│6f 6b __ __  __ __ __ __   __ __ __ __  __ __ __ __     ok\n└\n"
    );
}

#[test]
fn clean_eof_at_boundary() {
    let mut f = TextFormatter::new();
    let mut o = MessageObserver::new(Side::Client);
    o.on_data(&mut f, b"\x0b\x00hello");
    text(&mut f);
    assert!(!f.block_open());
    o.on_close(&mut f);
    assert_eq!(text(&mut f), "• CLIENT closed its side of the connection\n");
    let mut b = BlockObserver::new(Side::Server);
    b.on_close(&mut f);
    assert_eq!(text(&mut f), "• SERVER closed its side of the connection\n");
}

#[test]
fn partial_header_eof() {
    let mut f = TextFormatter::new();
    let mut o = MessageObserver::new(Side::Client);
    o.on_data(&mut f, &[0x0b]);
    o.on_close(&mut f);
    assert_eq!(text(&mut f), "• CLIENT eof on incomplete block header\n");
    let mut b = BlockObserver::new(Side::Client);
    b.on_data(&mut f, &[0x0b]);
    b.on_close(&mut f);
    assert_eq!(text(&mut f), "• CLIENT eof on incomplete block header\n");
}

#[test]
fn partial_body_eof() {
    let mut f = TextFormatter::new();
    let mut o = MessageObserver::new(Side::Server);
    o.on_data(&mut f, b"\x0b\x00hel");
    o.on_close(&mut f);
    assert_eq!(text(&mut f), "• SERVER eof on incomplete block body\n");
    let mut b = BlockObserver::new(Side::Server);
    b.on_data(&mut f, b"\x0b\x00");
    b.on_close(&mut f);
    assert_eq!(text(&mut f), "• SERVER eof on incomplete block body\n");
}

#[test]
fn raw_observer_shows_chunks() {
    let mut f = TextFormatter::new();
    let mut o = RawObserver::new(Side::Client);
    o.on_data(&mut f, b"\x0b\x00hello");
    assert_eq!(
        text(&mut f),
        "┌ CLIENT binary, 7 bytes\n│0b 00 68 65  6c 6c 6f __   __ __ __ __  __ __ __ __     ▒░hello\n└\n"
    );
    o.on_data(&mut f, b"plain\n");
    assert_eq!(text(&mut f), "┌ CLIENT text, 6 bytes\n│plain↵\n└\n");
    o.on_close(&mut f);
    assert_eq!(text(&mut f), "• CLIENT closed its side of the connection\n");
}

#[test]
fn errors_are_reported() {
    let mut f = TextFormatter::new();
    RawObserver::new(Side::Client).on_error(&mut f, true, "broken pipe");
    assert_eq!(text(&mut f), "• CLIENT error writing to server: broken pipe\n");
    BlockObserver::new(Side::Server).on_error(&mut f, true, "broken pipe");
    assert_eq!(text(&mut f), "• SERVER error writing to client: broken pipe\n");
    MessageObserver::new(Side::Server).on_error(&mut f, false, "reset");
    assert_eq!(text(&mut f), "• SERVER could not be read: reset\n");
}

#[test]
fn fixup_in_raw_mode() {
    let mut f = TextFormatter::new();
    let mut o = RawObserver::new(Side::Client);
    o.on_unix0(
        &mut f,
        b"0",
        Some("adjust unix->inet socket: remove leading '0'"),
    );
    assert_eq!(
        text(&mut f),
        "┌ CLIENT text, 1 bytes, no trailing newline\n│0\n└\n\
         • CLIENT adjust unix->inet socket: remove leading '0'\n"
    );
    o.on_unix0(&mut f, b"", Some("adjust inet->unix socket: insert '0'"));
    assert_eq!(text(&mut f), "• CLIENT adjust inet->unix socket: insert '0'\n");
    o.on_unix0(&mut f, b"0", None);
    assert_eq!(
        text(&mut f),
        "┌ CLIENT text, 1 bytes, no trailing newline\n│0\n└\n"
    );
    o.on_unix0(&mut f, b"", None);
    assert_eq!(text(&mut f), "");
}

#[test]
fn fixup_in_other_modes() {
    let mut f = TextFormatter::new();
    let mut b = BlockObserver::new(Side::Client);
    b.on_unix0(&mut f, b"0", Some("note"));
    assert_eq!(text(&mut f), "• CLIENT note\n");
    b.on_unix0(&mut f, b"0", None);
    assert_eq!(text(&mut f), "");
    let mut m = MessageObserver::new(Side::Client);
    m.on_unix0(&mut f, b"0", Some("note"));
    assert_eq!(text(&mut f), "");
}

#[test]
fn inspector_shows_each_block() {
    let mut f = TextFormatter::new();
    f.set_force_binary(true);
    let mut i = monetproxy::inspect::MessageInspector::new(Side::Client);
    i.on_data(&mut f, b"\x04\x00ab\x0b\x00cde");
    assert_eq!(
        text(&mut f),
        "┌ CLIENT text, 2 bytes, no trailing newline!\n│ab\n└\n"
    );
    i.on_close(&mut f);
    assert_eq!(text(&mut f), "• CLIENT eof on incomplete body\n");
    i.on_data(&mut f, b"f\n\x03\x00\x00\x05");
    assert_eq!(
        text(&mut f),
        "┌ CLIENT text, 5 bytes\n│cdef↵\n└\n\
         ┌ CLIENT binary, 1 bytes\n│00 __ __ __  __ __ __ __   __ __ __ __  __ __ __ __     ░\n└\n"
    );
    i.on_close(&mut f);
    assert_eq!(text(&mut f), "• CLIENT eof on incomplete header: 1/2\n");
    i.on_data(&mut f, b"\x00");
    i.on_close(&mut f);
    assert_eq!(text(&mut f), "• CLIENT eof on incomplete body\n");
    i.on_data(&mut f, b"..");
    text(&mut f);
    i.on_close(&mut f);
    assert_eq!(text(&mut f), "• CLIENT closed its side of the connection\n");
    i.on_error(&mut f, "reading from the server", "reset");
    assert_eq!(
        text(&mut f),
        "• CLIENT encountered an error reading from the server: reset\n"
    );
    i.on_adjustment(&mut f, "adjust unix->inet socket: remove leading '0'");
    assert_eq!(text(&mut f), "");
}
