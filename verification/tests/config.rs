use transport::config::{parse_ipv4, parse_port, ConfigError, DownloaderConfig};
use transport::downloader::ServerAddress;
use transport::registry::{EpollEvent, EventType, Registry};

fn args(list: &[&str]) -> Vec<String> {
    list.iter().map(|s| s.to_string()).collect()
}

fn config_error(list: &[&str]) -> ConfigError {
    match DownloaderConfig::try_from(&args(list)) {
        Ok(_) => panic!("accepted"),
        Err(e) => e,
    }
}

#[test]
fn config_from_arguments() {
    let config =
        DownloaderConfig::try_from(&args(&["client", "127.0.0.1", "40001", "out.bin", "15000"]))
            .ok()
            .unwrap();
    assert_eq!(config.address, ServerAddress { ip: 0x7f000001, port: 40001 });
    assert_eq!(config.file_name, "out.bin");
    assert_eq!(config.size, 15000);
}

#[test]
fn config_ignores_further_arguments() {
    let config =
        DownloaderConfig::try_from(&args(&["client", "10.1.2.3", "1", "f", "0", "more"]))
            .ok()
            .unwrap();
    assert_eq!(config.address, ServerAddress { ip: 0x0a010203, port: 1 });
    assert_eq!(config.size, 0);
}

#[test]
fn config_errors() {
    assert_eq!(config_error(&[]), ConfigError::MissingAddress);
    assert_eq!(config_error(&["client"]), ConfigError::MissingAddress);
    assert_eq!(config_error(&["client", "localhost"]), ConfigError::InvalidAddress);
    assert_eq!(config_error(&["client", "1.2.3.4"]), ConfigError::MissingPort);
    assert_eq!(config_error(&["client", "1.2.3.4", "65536"]), ConfigError::InvalidPort);
    assert_eq!(config_error(&["client", "1.2.3.4", "80"]), ConfigError::MissingFileName);
    assert_eq!(config_error(&["client", "1.2.3.4", "80", "f"]), ConfigError::MissingSize);
    assert_eq!(
        config_error(&["client", "1.2.3.4", "80", "f", "12k"]),
        ConfigError::InvalidSize
    );
    assert_eq!(
        config_error(&["client", "1.2.3", "x", "f"]),
        ConfigError::InvalidAddress
    );
}

#[test]
fn dotted_addresses() {
    assert_eq!(parse_ipv4(b"0.0.0.0"), Some(0));
    assert_eq!(parse_ipv4(b"255.255.255.255"), Some(u32::MAX));
    assert_eq!(parse_ipv4(b"192.168.0.1"), Some(0xc0a80001));
    assert_eq!(parse_ipv4(b"256.0.0.1"), None);
    assert_eq!(parse_ipv4(b"01.0.0.1"), None);
    assert_eq!(parse_ipv4(b"1.0.0"), None);
    assert_eq!(parse_ipv4(b"1.0.0.1.2"), None);
    assert_eq!(parse_ipv4(b"1..0.1"), None);
    assert_eq!(parse_ipv4(b"1.0.0.1 "), None);
    assert_eq!(parse_ipv4(b""), None);
    assert_eq!(parse_ipv4(b"1.2.3.0004"), None);
}

#[test]
fn ports() {
    assert_eq!(parse_port(b"0"), Some(0));
    assert_eq!(parse_port(b"65535"), Some(65535));
    assert_eq!(parse_port(b"65536"), None);
    assert_eq!(parse_port(b"-1"), None);
    assert_eq!(parse_port(b""), None);
}

#[test]
fn registry_keeps_interests() {
    let mut registry = Registry::new();
    assert_eq!(registry.timeout(), 1_500_000_000);
    assert!(!registry.has_interest(EventType::Read, 3));
    let event = registry.add_interest(EventType::Read, 3);
    assert_eq!(event, EpollEvent { events: 1, key: 0 });
    assert!(registry.has_interest(EventType::Read, 3));
    assert!(!registry.has_interest(EventType::Write, 3));
    assert!(!registry.has_interest(EventType::Read, 4));
    let event = registry.add_interest(EventType::Write, 3);
    assert_eq!(event, EpollEvent { events: 4, key: 1 });
    assert!(registry.has_interest(EventType::Write, 3));
    registry.delete_interest(EventType::Read, 3);
    assert!(!registry.has_interest(EventType::Read, 3));
    assert!(registry.has_interest(EventType::Write, 3));
    registry.delete_interest(EventType::Read, 9);
    assert!(!registry.has_interest(EventType::Read, 9));
    assert_eq!(Registry::with_timeout(7).timeout(), 7);
}

#[test]
fn registry_wait_arguments() {
    assert_eq!(Registry::wait_millis(0), 0);
    assert_eq!(Registry::wait_millis(999_999), 0);
    assert_eq!(Registry::wait_millis(1_000_000_000), 1000);
    assert_eq!(Registry::wait_millis(u64::MAX), i32::MAX);
    assert_eq!(EventType::Read.epoll_event(), EpollEvent { events: 1, key: 0 });
    assert_eq!(EventType::Write.epoll_event(), EpollEvent { events: 4, key: 1 });
}
