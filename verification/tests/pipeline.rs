use monetproxy::network::expand_listen_address;
use monetproxy::network::has_separator;
use monetproxy::network::parse_port;
use monetproxy::network::Address;
use monetproxy::proxy::check_prefix;
use monetproxy::proxy::connect_failure_is_final;
use monetproxy::proxy::plan_fixup;
use monetproxy::proxy::plan_fixup_for;
use monetproxy::proxy::pump_action;
use monetproxy::proxy::refused_message;
use monetproxy::proxy::retry_bind;
use monetproxy::proxy::Half;
use monetproxy::proxy::InvalidPrefix;
use monetproxy::proxy::Notify;
use monetproxy::proxy::PumpEvent;
use monetproxy::proxy::BLOCKSIZE;
use monetproxy::proxy::FIXUP_BYTE;

#[test]
fn parse_path() {
    assert_eq!(
        Address::parse("/tmp/.s.monetdb.50000", false),
        Ok(Address::Unix("/tmp/.s.monetdb.50000".to_string()))
    );
    assert_eq!(
        Address::parse("./sock", true),
        Ok(Address::Unix("./sock".to_string()))
    );
    assert_eq!(Address::parse("12/34", false), Ok(Address::Unix("12/34".to_string())));
}

#[test]
fn parse_host_and_port() {
    assert_eq!(
        Address::parse("localhost:50000", true),
        Ok(Address::Inet("localhost:50000".to_string()))
    );
}

#[test]
fn parse_bare_port() {
    assert_eq!(Address::parse("50000", false), Ok(Address::PortOnly(50000)));
    assert_eq!(Address::parse("0", false), Ok(Address::PortOnly(0)));
    assert_eq!(Address::parse("65535", false), Ok(Address::PortOnly(65535)));
    assert_eq!(Address::parse("+80", false), Ok(Address::PortOnly(80)));
    assert_eq!(Address::parse("0080", false), Ok(Address::PortOnly(80)));
}

#[test]
fn parse_invalid() {
    for bad in ["", "+", "65536", "99999999999999999999", "-1", "12a", " 12", "host", "1+2", "++1"] {
        let r = Address::parse(bad, false);
        match r {
            Err(e) => {
                assert_eq!(e.text, bad);
                assert_eq!(e.message(), format!("invalid address: {}", bad));
            }
            Ok(a) => panic!("{:?} parsed as {:?}", bad, a),
        }
    }
}

#[test]
fn port_numbers() {
    assert_eq!(parse_port("50000"), Some(50000));
    assert_eq!(parse_port("65535"), Some(65535));
    assert_eq!(parse_port("65536"), None);
    assert_eq!(parse_port("+0"), Some(0));
    assert_eq!(parse_port(""), None);
    assert_eq!(parse_port("5é"), None);
    assert_eq!(parse_port("000000000000000000000000001"), Some(1));
    for n in [0u16, 9, 10, 99, 100, 4095, 50000, 65535] {
        assert_eq!(parse_port(&n.to_string()), n.to_string().parse::<u16>().ok());
    }
    for s in ["+", "-0", "+-1", "1 ", "0x10", "６"] {
        assert_eq!(parse_port(s), s.parse::<u16>().ok());
    }
}

#[test]
fn separator() {
    assert!(has_separator("/"));
    assert!(has_separator("a/b"));
    assert!(!has_separator("localhost:50000"));
    assert!(!has_separator(""));
}

#[test]
fn inet_and_unix_forms() {
    let port = Address::PortOnly(50000);
    assert_eq!(port.to_inet(), Some(Address::Inet("localhost:50000".to_string())));
    assert_eq!(
        port.to_unix(),
        Some(Address::Unix("/tmp/.s.monetdb.50000".to_string()))
    );
    let inet = Address::Inet("db:1".to_string());
    assert_eq!(inet.to_inet(), Some(inet.clone()));
    assert_eq!(inet.to_unix(), None);
    let unix = Address::Unix("/x/y".to_string());
    assert_eq!(unix.to_inet(), None);
    assert_eq!(unix.to_unix(), Some(unix.clone()));
}

#[test]
fn expansion_tries_the_local_socket_first() {
    assert_eq!(
        Address::PortOnly(7).expand(),
        vec![
            Address::Unix("/tmp/.s.monetdb.7".to_string()),
            Address::Inet("localhost:7".to_string())
        ]
    );
    let inet = Address::Inet("db:1".to_string());
    assert_eq!(inet.expand(), vec![inet.clone()]);
    let unix = Address::Unix("/x/y".to_string());
    assert_eq!(unix.expand(), vec![unix.clone()]);
}

#[test]
fn address_text() {
    assert_eq!(Address::PortOnly(50000).to_text(), "50000");
    assert_eq!(Address::Inet("db:1".to_string()).to_text(), "db:1");
    assert_eq!(Address::Unix("/x/y".to_string()).to_text(), "/x/y");
    assert!(Address::Unix("/x/y".to_string()).is_unix());
    assert!(!Address::Inet("db:1".to_string()).is_unix());
    assert!(!Address::PortOnly(1).is_unix());
}

#[test]
fn listen_addresses() {
    let resolved = vec!["127.0.0.1:50000".to_string(), "[::1]:50000".to_string()];
    assert_eq!(
        expand_listen_address(&Address::PortOnly(50000), &resolved),
        vec![
            Address::Unix("/tmp/.s.monetdb.50000".to_string()),
            Address::Inet("127.0.0.1:50000".to_string()),
            Address::Inet("[::1]:50000".to_string()),
        ]
    );
    assert_eq!(
        expand_listen_address(&Address::Inet("localhost:50000".to_string()), &resolved),
        vec![
            Address::Inet("127.0.0.1:50000".to_string()),
            Address::Inet("[::1]:50000".to_string()),
        ]
    );
    assert_eq!(
        expand_listen_address(&Address::Unix("/x".to_string()), &resolved),
        vec![Address::Unix("/x".to_string())]
    );
    assert_eq!(
        expand_listen_address(&Address::Inet("localhost:50000".to_string()), &Vec::new()),
        Vec::new()
    );
}

#[test]
fn fixup_plans() {
    let p = plan_fixup(true, false);
    assert!(p.strip && !p.insert);
    assert_eq!(p.note, Some("adjust unix->inet socket: remove leading '0'"));
    let p = plan_fixup(false, true);
    assert!(!p.strip && p.insert);
    assert_eq!(p.note, Some("adjust inet->unix socket: insert '0'"));
    let p = plan_fixup(true, true);
    assert!(p.strip && p.insert);
    assert_eq!(p.note, None);
    let p = plan_fixup(false, false);
    assert!(!p.strip && !p.insert);
    assert_eq!(p.note, None);
    let p = plan_fixup_for(
        &Address::Unix("/tmp/s".to_string()),
        &Address::Inet("db:1".to_string()),
    );
    assert!(p.strip && !p.insert);
    assert_eq!(p.note, Some("adjust unix->inet socket: remove leading '0'"));
}

#[test]
fn fixup_byte_is_checked() {
    assert_eq!(FIXUP_BYTE, b'0');
    assert_eq!(check_prefix(b'0'), Ok(()));
    assert_eq!(check_prefix(b'1'), Err(InvalidPrefix { got: 49 }));
    assert_eq!(check_prefix(0), Err(InvalidPrefix { got: 0 }));
    assert_eq!(
        InvalidPrefix { got: 49 }.message(),
        "expected first byte on unix socket to be '0', got 49"
    );
}

#[test]
fn pump_rules() {
    assert_eq!(BLOCKSIZE, 8190);
    let a = pump_action(PumpEvent::ReadData);
    assert_eq!(a.notify, Notify::Data);
    assert!(a.forward && !a.stop && !a.fail);
    assert_eq!(a.shutdown, None);
    let a = pump_action(PumpEvent::WriteDone);
    assert_eq!(a.notify, Notify::Nothing);
    assert!(!a.forward && !a.stop && !a.fail);
    assert_eq!(a.shutdown, None);
    let a = pump_action(PumpEvent::ReadEof);
    assert_eq!(a.notify, Notify::Close);
    assert!(!a.forward && a.stop && !a.fail && !a.close_anyway);
    assert_eq!(a.shutdown, Some(Half::Write));
    let a = pump_action(PumpEvent::ReadFailed);
    assert_eq!(a.notify, Notify::Error { while_writing: false });
    assert!(!a.forward && a.stop && !a.fail && a.close_anyway);
    assert_eq!(a.shutdown, Some(Half::Write));
    let a = pump_action(PumpEvent::WriteFailed);
    assert_eq!(a.notify, Notify::Error { while_writing: true });
    assert!(!a.forward && a.stop && a.fail && !a.close_anyway);
    assert_eq!(a.shutdown, Some(Half::Read));
}

#[test]
fn bind_is_retried_once() {
    assert!(retry_bind(true, true, false));
    assert!(!retry_bind(true, true, true));
    assert!(!retry_bind(true, false, false));
    assert!(!retry_bind(false, true, false));
}

#[test]
fn refused() {
    assert_eq!(
        refused_message(&Address::PortOnly(50000)),
        "can't connect to 50000"
    );
    assert_eq!(
        refused_message(&Address::Unix("/x".to_string())),
        "can't connect to /x"
    );
}

#[test]
fn connect_falls_through_from_the_local_socket() {
    assert!(!connect_failure_is_final(&Address::Unix("/x".to_string())));
    assert!(connect_failure_is_final(&Address::Inet("db:1".to_string())));
}

#[test]
fn port_numbers_agree_with_the_standard_parser() {
    for n in 0u32..70000 {
        let s = n.to_string();
        assert_eq!(parse_port(&s), s.parse::<u16>().ok());
        let signed = format!("+{}", n);
        assert_eq!(parse_port(&signed), signed.parse::<u16>().ok());
    }
}
