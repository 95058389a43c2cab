use echo_server::cli::{listen_address, parse_args, parse_port, Args, ConfigError, DEFAULT_PORT};

#[test]
fn defaults_apply_without_flags_or_environment() {
    let a = parse_args(None, None, None, None).unwrap();
    assert_eq!(a.port, 8080);
    assert_eq!(DEFAULT_PORT, 8080);
    assert_eq!(a.address, "localhost");
}

#[test]
fn flags_win_over_environment() {
    let a = parse_args(Some(9000), Some("0.0.0.0".to_string()), Some("7000".to_string()), Some("example".to_string()))
        .unwrap();
    assert_eq!(a.port, 9000);
    assert_eq!(a.address, "0.0.0.0");
}

#[test]
fn environment_wins_over_defaults() {
    let a = parse_args(None, None, Some("7000".to_string()), Some("127.0.0.1".to_string())).unwrap();
    assert_eq!(a.port, 7000);
    assert_eq!(a.address, "127.0.0.1");
}

#[test]
fn bad_environment_port_is_an_error() {
    let r = parse_args(None, None, Some("80a".to_string()), None);
    assert_eq!(r.err(), Some(ConfigError::InvalidPort));
    // a flag makes the environment port irrelevant
    assert!(parse_args(Some(1), None, Some("80a".to_string()), None).is_ok());
}

#[test]
fn port_text_is_read_in_decimal() {
    assert_eq!(parse_port(&"8080".to_string()), Some(8080));
    assert_eq!(parse_port(&"0".to_string()), Some(0));
    assert_eq!(parse_port(&"007".to_string()), Some(7));
    assert_eq!(parse_port(&"65535".to_string()), Some(65535));
    assert_eq!(parse_port(&"65536".to_string()), None);
    assert_eq!(parse_port(&"123456789012".to_string()), None);
    assert_eq!(parse_port(&"".to_string()), None);
    assert_eq!(parse_port(&"-1".to_string()), None);
    assert_eq!(parse_port(&" 80".to_string()), None);
    assert_eq!(parse_port(&"\u{663}".to_string()), None);
}

#[test]
fn listen_address_joins_address_and_port() {
    let a = Args { port: 8080, address: "localhost".to_string() };
    assert_eq!(listen_address(&a), "localhost:8080");
    let b = Args { port: 0, address: "0.0.0.0".to_string() };
    assert_eq!(listen_address(&b), "0.0.0.0:0");
    let c = Args { port: 65535, address: String::new() };
    assert_eq!(listen_address(&c), ":65535");
    let d = Args { port: 10, address: "h".to_string() };
    assert_eq!(listen_address(&d), "h:10");
}
