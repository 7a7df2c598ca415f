//! Validation of the command-line configuration.

use orderbook_merger::order_book_entries_to_rpc_levels;
use orderbook_merger::parse_log_level;
use orderbook_merger::parse_port;
use orderbook_merger::to_ascii_lowercase;
use orderbook_merger::Config;
use orderbook_merger::ConfigError;
use orderbook_merger::ExchangeId;
use orderbook_merger::LogLevel;
use orderbook_merger::OrderBookEntry;

#[test]
fn config_build_accepts_valid_values() {
    let config = Config::build(b"ETHBTC", b"127.0.0.1", b"8080", b"info").unwrap();
    assert_eq!(config.symbol, b"ethbtc".to_vec());
    assert_eq!(config.host, b"127.0.0.1".to_vec());
    assert_eq!(config.port, 8080);
    assert_eq!(config.log_level, LogLevel::Info);
}

#[test]
fn config_build_rejects_bad_port() {
    assert_eq!(
        Config::build(b"ethbtc", b"127.0.0.1", b"70000", b"info").unwrap_err(),
        ConfigError::InvalidPort
    );
    assert_eq!(
        Config::build(b"ethbtc", b"127.0.0.1", b"80x", b"info").unwrap_err(),
        ConfigError::InvalidPort
    );
}

#[test]
fn config_build_rejects_bad_log_level() {
    assert_eq!(
        Config::build(b"ethbtc", b"127.0.0.1", b"8080", b"loud").unwrap_err(),
        ConfigError::InvalidLogLevel
    );
}

#[test]
fn log_level_names_are_case_insensitive() {
    assert_eq!(parse_log_level(b"TRACE"), Some(LogLevel::Trace));
    assert_eq!(parse_log_level(b"Debug"), Some(LogLevel::Debug));
    assert_eq!(parse_log_level(b"info"), Some(LogLevel::Info));
    assert_eq!(parse_log_level(b"wArN"), Some(LogLevel::Warn));
    assert_eq!(parse_log_level(b"error"), Some(LogLevel::Error));
    assert_eq!(parse_log_level(b"verbose"), None);
}

#[test]
fn port_bounds() {
    assert_eq!(parse_port(b"0"), Some(0));
    assert_eq!(parse_port(b"65535"), Some(65535));
    assert_eq!(parse_port(b"65536"), None);
    assert_eq!(parse_port(b""), None);
}

#[test]
fn lowercasing_is_ascii_only() {
    assert_eq!(to_ascii_lowercase(b"EthBtc09"), b"ethbtc09".to_vec());
}

#[test]
fn entries_become_tagged_levels() {
    let entries = vec![
        OrderBookEntry {
            price: 3,
            quantity: 4,
        },
        OrderBookEntry {
            price: 5,
            quantity: 6,
        },
    ];
    let levels = order_book_entries_to_rpc_levels(ExchangeId::Bitstamp, &entries);
    assert_eq!(levels.len(), 2);
    assert_eq!(levels[0].exchange, ExchangeId::Bitstamp);
    assert_eq!(levels[0].price, 3);
    assert_eq!(levels[0].amount, 4);
    assert_eq!(levels[1].price, 5);
    assert_eq!(levels[1].amount, 6);
}
