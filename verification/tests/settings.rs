use orderbook::configuration::{Configuration, Environment, ExchangeConfig, Server};
use orderbook::error::Error;
use orderbook::exchange::{Exchange, VENUES};
use orderbook::telemetry::Tracer;
use orderbook::text::{eq_ignore_case, eq_text, write_number};
use orderbook::transport::{subscribe_frame, subscribe_message, subscribe_request, StopSender};

fn config(result_size: usize, venues: &[&str], port: u16) -> Configuration {
    Configuration {
        result_size,
        exchanges: venues.iter().map(|v| ExchangeConfig::new(v, "ethbtc", "wss://example.test")).collect(),
        server: Server { hostname: "[::1]".to_string(), port },
    }
}

#[test]
fn venue_names_are_read_without_regard_to_case() {
    assert_eq!(Exchange::parse("binance").ok(), Some(Exchange::Binance));
    assert_eq!(Exchange::parse("BINANCE").ok(), Some(Exchange::Binance));
    assert_eq!(Exchange::parse("BitStamp").ok(), Some(Exchange::Bitstamp));
    assert_eq!("bitstamp".parse::<Exchange>().ok(), Some(Exchange::Bitstamp));
}

#[test]
fn unknown_venue_names_are_refused() {
    for name in ["", "kraken", "binance ", "binanc", "bitstampp", "b\u{131}nance"] {
        match Exchange::parse(name) {
            Err(Error::Unknown(detail)) => assert_eq!(detail, format!("unsupported exchange: {}", name)),
            _ => panic!("the name is refused"),
        }
    }
}

#[test]
fn venue_names_and_tags() {
    assert_eq!(Exchange::Binance.as_str(), "binance");
    assert_eq!(Exchange::Bitstamp.as_str(), "bitstamp");
    assert_eq!(Exchange::Binance.tag(), 0);
    assert_eq!(Exchange::Bitstamp.tag(), 1);
    assert_eq!(VENUES, 2);
    assert_eq!(Exchange::from_tag(0), Some(Exchange::Binance));
    assert_eq!(Exchange::from_tag(1), Some(Exchange::Bitstamp));
    assert_eq!(Exchange::from_tag(2), None);
}

#[test]
fn names_are_given_as_references_too() {
    let venue: &str = Exchange::Bitstamp.as_ref();
    assert_eq!(venue, "bitstamp");
    let environment: &str = Environment::Production.as_ref();
    assert_eq!(environment, "production");
    let side: &str = orderbook::book::BookKind::Bids.as_ref();
    assert_eq!(side, "BIDS");
}

#[test]
fn environment_names_are_read_without_regard_to_case() {
    assert_eq!(Environment::parse("local").ok(), Some(Environment::Local));
    assert_eq!(Environment::parse("Production").ok(), Some(Environment::Production));
    assert_eq!(Environment::Local.as_str(), "local");
    assert_eq!(Environment::Production.as_str(), "production");
    match Environment::parse("staging") {
        Err(Error::Unknown(detail)) => assert_eq!(
            detail,
            "unsupported environment `staging`, please use `local` or `production`"
        ),
        _ => panic!("the name is refused"),
    }
}

#[test]
fn the_server_address_is_host_colon_port() {
    assert_eq!(config(1, &[], 12000).server_addr(), "[::1]:12000");
    assert_eq!(config(1, &[], 0).server_addr(), "[::1]:0");
    assert_eq!(config(1, &[], 65535).server_addr(), "[::1]:65535");
    assert_eq!(config(1, &[], 7).server_addr(), "[::1]:7");
}

#[test]
fn numbers_are_written_in_decimal() {
    assert_eq!(write_number(0), "0");
    assert_eq!(write_number(9), "9");
    assert_eq!(write_number(10), "10");
    assert_eq!(write_number(1234567890), "1234567890");
    assert_eq!(write_number(u64::MAX), "18446744073709551615");
}

#[test]
fn a_configuration_is_checked() {
    assert!(config(1, &["binance", "BITSTAMP"], 1).validate().is_ok());
    assert!(config(10, &[], 1).validate().is_ok());
    assert!(matches!(config(0, &["binance"], 1).validate(), Err(Error::Config(_))));
    assert!(matches!(config(3, &["binance", "kraken"], 1).validate(), Err(Error::Config(_))));
}

#[test]
fn what_is_wrong_with_a_configuration_is_said() {
    match config(0, &["kraken"], 1).validate() {
        Err(Error::Config(detail)) => assert_eq!(detail, "result_size must be at least 1"),
        _ => panic!("the size is refused"),
    }
    match config(3, &["binance", "kraken", "gemini"], 1).venues() {
        Err(Error::Config(detail)) => assert_eq!(detail, "unsupported exchange: kraken"),
        _ => panic!("the venue is refused"),
    }
    assert_eq!(
        config(3, &["Bitstamp", "binance"], 1).venues().ok(),
        Some(vec![Exchange::Bitstamp, Exchange::Binance])
    );
}

#[test]
fn subscribe_frames_are_as_the_venues_want_them() {
    assert_eq!(
        subscribe_message(&ExchangeConfig::new("binance", "ethbtc", "wss://x")).ok(),
        Some(r#"{"method":"SUBSCRIBE","params":["ethbtc@depth"],"id":1}"#.to_string())
    );
    assert_eq!(
        subscribe_message(&ExchangeConfig::new("bitstamp", "ethbtc", "wss://x")).ok(),
        Some(r#"{"event":"bts:subscribe","data":{"channel":"order_book_ethbtc"}}"#.to_string())
    );
    assert!(matches!(
        subscribe_message(&ExchangeConfig::new("kraken", "ethbtc", "wss://x")),
        Err(Error::Unknown(_))
    ));
}

#[test]
fn channel_names_are_quoted_as_json() {
    assert_eq!(
        subscribe_request(Exchange::Binance, "eth\"btc"),
        r#"{"method":"SUBSCRIBE","params":["eth\"btc@depth"],"id":1}"#
    );
    assert_eq!(
        subscribe_frame(Exchange::Bitstamp, "\"x\""),
        r#"{"event":"bts:subscribe","data":{"channel":"x"}}"#
    );
    let frame = subscribe_request(Exchange::Bitstamp, "a\\b");
    let parsed: serde_json::Value = serde_json::from_str(&frame).expect("the frame is json");
    assert_eq!(parsed["data"]["channel"], "order_book_a\\b");
}

#[test]
fn a_stop_request_fires_once() {
    let mut stop = StopSender::new();
    assert!(stop.armed());
    assert!(stop.try_stop());
    assert!(!stop.armed());
    assert!(!stop.try_stop());
    assert!(!stop.try_stop());
    assert!(!stop.armed());
}

#[test]
fn a_signal_that_nobody_received_is_an_error() {
    assert!(StopSender::delivered(true).is_ok());
    match StopSender::delivered(false) {
        Err(Error::Unknown(detail)) => assert_eq!(detail, "failed to stop transport"),
        _ => panic!("a signal that nobody received is an error"),
    }
}

#[test]
fn a_tracer_keeps_its_texts() {
    let tracer = Tracer::new("orderbook", "debug");
    assert_eq!(tracer.name(), "orderbook");
    assert_eq!(tracer.env_filter(), "debug");
}

#[test]
fn errors_have_messages() {
    assert_eq!(Error::Transport("refused".to_string()).message(), "refused");
    assert_eq!(Error::Parse.message(), "no dialect matches the frame");
    assert_eq!(Error::Config("bad".to_string()).message(), "bad");
    assert_eq!(Error::NoVenues.message(), "no connection was established");
    assert_eq!(Error::ChannelClosed.message(), "channel closed");
    assert_eq!(Error::Unknown("x".to_string()).message(), "x");
    match Exchange::parse("kraken") {
        Err(e) => assert_eq!(e.message(), "unsupported exchange: kraken"),
        Ok(_) => panic!("the name is refused"),
    }
    assert!(Error::NoVenues.is_fatal());
    assert!(Error::Config(String::new()).is_fatal());
    assert!(!Error::Parse.is_fatal());
    assert!(!Error::Transport(String::new()).is_fatal());
    assert!(!Error::ChannelClosed.is_fatal());
    assert!(!Error::Unknown(String::new()).is_fatal());
}

#[test]
fn texts_are_compared() {
    assert!(eq_text("abc", "abc"));
    assert!(!eq_text("abc", "abd"));
    assert!(!eq_text("abc", "ab"));
    assert!(eq_text("", ""));
    assert!(eq_ignore_case("AbC", "aBc"));
    assert!(!eq_ignore_case("abc", "abd"));
    assert!(!eq_ignore_case("k", "\u{212a}"));
    assert!(!eq_ignore_case("@", "`"));
    assert!(!eq_ignore_case("[", "{"));
}
