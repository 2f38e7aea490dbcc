use noq_datagram::bench::names::{CipherSuite, Congestion, Direction, RuntimeType, SendMode};

#[test]
fn runtime_types_have_names() {
    assert_eq!(RuntimeType::from_str("tokio").unwrap(), RuntimeType::Tokio);
    assert_eq!(
        RuntimeType::from_str("Tokio-Current-Thread").unwrap(),
        RuntimeType::TokioCurrentThread
    );
    assert_eq!(
        RuntimeType::from_str("Smol").unwrap_err().message,
        "Unknown runtime type Smol"
    );
}

#[test]
fn cipher_suites_have_names() {
    assert_eq!(CipherSuite::from_str("AES128").unwrap(), CipherSuite::Aes128);
    assert_eq!(CipherSuite::from_str("aes256").unwrap(), CipherSuite::Aes256);
    assert_eq!(CipherSuite::from_str("ChaCha20").unwrap(), CipherSuite::Chacha20);
    assert_eq!(CipherSuite::from_str("").unwrap_err().message, "Unknown cipher suite ");
}

#[test]
fn directions_have_names() {
    for (name, direction) in [
        ("send", Direction::Send),
        ("recv", Direction::Recv),
        ("receive", Direction::Recv),
        ("both", Direction::Both),
        ("DUPLEX", Direction::Both),
    ] {
        assert_eq!(Direction::from_str(name).unwrap(), direction);
    }
    assert_eq!(
        Direction::from_str("Up").unwrap_err().message,
        "Unknown direction Up (send|recv|both)"
    );
}

#[test]
fn send_modes_have_names() {
    assert_eq!(SendMode::from_str("drop").unwrap(), SendMode::Drop);
    assert_eq!(SendMode::from_str("Wait").unwrap(), SendMode::Wait);
    assert_eq!(
        SendMode::from_str("waits").unwrap_err().message,
        "Unknown send-mode waits (drop|wait)"
    );
}

#[test]
fn congestion_controllers_have_names() {
    for (name, congestion) in [
        ("cubic", Congestion::Cubic),
        ("newreno", Congestion::NewReno),
        ("new-reno", Congestion::NewReno),
        ("Reno", Congestion::NewReno),
        ("bbr3", Congestion::Bbr3),
        ("BBR", Congestion::Bbr3),
    ] {
        assert_eq!(Congestion::from_str(name).unwrap(), congestion);
    }
    assert_eq!(
        Congestion::from_str("vegas").unwrap_err().message,
        "Unknown congestion vegas (cubic|newreno|bbr3)"
    );
}

#[test]
fn names_read_back() {
    for direction in [Direction::Send, Direction::Recv, Direction::Both] {
        assert_eq!(Direction::from_str(direction.name()).unwrap(), direction);
    }
    for mode in [SendMode::Drop, SendMode::Wait] {
        assert_eq!(SendMode::from_str(mode.name()).unwrap(), mode);
    }
    for congestion in [Congestion::Cubic, Congestion::NewReno, Congestion::Bbr3] {
        assert_eq!(Congestion::from_str(congestion.name()).unwrap(), congestion);
    }
    for cipher in [CipherSuite::Aes128, CipherSuite::Aes256, CipherSuite::Chacha20] {
        assert_eq!(CipherSuite::from_str(cipher.name()).unwrap(), cipher);
    }
    for runtime in [RuntimeType::Tokio, RuntimeType::TokioCurrentThread] {
        assert_eq!(RuntimeType::from_str(runtime.name()).unwrap(), runtime);
    }
}

#[test]
fn a_name_is_taken_as_it_is_once_it_is_lowercase() {
    assert_eq!(Direction::by_name(&"send".to_owned()), Some(Direction::Send));
    assert_eq!(Direction::by_name(&"Send".to_owned()), None);
}

/// The Kelvin sign is a capital K to Unicode, though no ASCII letter.
#[test]
fn names_are_lowercased_by_the_rules_of_unicode() {
    assert_eq!(RuntimeType::from_str("TO\u{212a}IO").unwrap(), RuntimeType::Tokio);
}

#[test]
fn names_parse_from_strings() {
    assert_eq!("drop".parse::<SendMode>().unwrap(), SendMode::Drop);
    assert!("drip".parse::<SendMode>().is_err());
}

/// What is stated of ASCII texts holds of every ASCII character.
#[test]
fn ascii_is_lowercased_letter_by_letter() {
    for n in 0..128u8 {
        let c = n as char;
        let lower = if c.is_ascii_uppercase() { (n + 32) as char } else { c };
        assert_eq!(c.to_string().to_lowercase(), lower.to_string());
        assert_eq!(
            format!("a{c}{c}z").to_lowercase(),
            format!("a{lower}{lower}z")
        );
    }
}

#[test]
fn cipher_suites_are_those_of_the_handshake() {
    assert_eq!(
        CipherSuite::Aes128.as_rustls().suite(),
        rustls::CipherSuite::TLS13_AES_128_GCM_SHA256
    );
    assert_eq!(
        CipherSuite::Aes256.as_rustls().suite(),
        rustls::CipherSuite::TLS13_AES_256_GCM_SHA384
    );
    assert_eq!(
        CipherSuite::Chacha20.as_rustls().suite(),
        rustls::CipherSuite::TLS13_CHACHA20_POLY1305_SHA256
    );
    assert_eq!(u16::from(CipherSuite::Aes128.as_rustls().suite()), 0x1301);
    assert_eq!(u16::from(CipherSuite::Aes256.as_rustls().suite()), 0x1302);
    assert_eq!(u16::from(CipherSuite::Chacha20.as_rustls().suite()), 0x1303);
}
