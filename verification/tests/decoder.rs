use orderbook::book::Book;
use orderbook::error::Error;
use orderbook::event::{decode, decode_json, DepthUpdate, Event};
use orderbook::exchange::Exchange;
use orderbook::json::Json;

fn texts(books: &[Book]) -> Vec<(String, String, String)> {
    books
        .iter()
        .map(|b| (b.price.clone(), b.amount.clone(), b.exchange.clone()))
        .collect()
}

fn triple(price: &str, amount: &str, exchange: &str) -> (String, String, String) {
    (price.to_string(), amount.to_string(), exchange.to_string())
}

fn decoded(text: &str, venue: Exchange) -> DepthUpdate {
    decode(text, venue).expect("the frame decodes")
}

fn refused(text: &str) {
    assert!(matches!(decode(text, Exchange::Binance), Err(Error::Parse)));
    assert!(matches!(decode(text, Exchange::Bitstamp), Err(Error::Parse)));
}

#[test]
fn binance_frame_decodes_element_for_element() {
    let update = decoded(
        r#"{"b":[["1.0","2.0"],["0.9","5"]],"a":[["3.0","4.0"]]}"#,
        Exchange::Binance,
    );
    assert_eq!(update.venue, Exchange::Binance);
    assert_eq!(
        texts(&update.bids),
        vec![triple("1.0", "2.0", "binance"), triple("0.9", "5", "binance")]
    );
    assert_eq!(texts(&update.asks), vec![triple("3.0", "4.0", "binance")]);
}

#[test]
fn bitstamp_frame_decodes_element_for_element() {
    let update = decoded(
        r#"{"data":{"bids":[["11","2"]],"asks":[["19","2"],["19.5","1"]]},"event":"data"}"#,
        Exchange::Bitstamp,
    );
    assert_eq!(update.venue, Exchange::Bitstamp);
    assert_eq!(texts(&update.bids), vec![triple("11", "2", "bitstamp")]);
    assert_eq!(
        texts(&update.asks),
        vec![triple("19", "2", "bitstamp"), triple("19.5", "1", "bitstamp")]
    );
}

#[test]
fn decimal_texts_are_kept_as_they_came() {
    let update = decoded(
        r#"{"b":[["0100.2500","+7.0"]],"a":[["0.00000001000","1e2"]]}"#,
        Exchange::Binance,
    );
    assert_eq!(texts(&update.bids), vec![triple("0100.2500", "+7.0", "binance")]);
    assert_eq!(texts(&update.asks), vec![triple("0.00000001000", "1e2", "binance")]);
}

#[test]
fn the_venue_comes_from_the_caller() {
    let update = decoded(r#"{"b":[["1","1"]],"a":[]}"#, Exchange::Bitstamp);
    assert_eq!(update.venue, Exchange::Bitstamp);
    assert_eq!(texts(&update.bids), vec![triple("1", "1", "bitstamp")]);
    let update = decoded(r#"{"data":{"bids":[],"asks":[["1","1"]]}}"#, Exchange::Binance);
    assert_eq!(update.venue, Exchange::Binance);
    assert_eq!(texts(&update.asks), vec![triple("1", "1", "binance")]);
}

#[test]
fn empty_sides_decode() {
    let update = decoded(r#"{"a":[],"b":[]}"#, Exchange::Binance);
    assert!(update.bids.is_empty());
    assert!(update.asks.is_empty());
}

#[test]
fn the_first_dialect_wins() {
    let update = decoded(
        r#"{"b":[["1","1"]],"a":[["2","2"]],"data":{"bids":[["3","3"]],"asks":[["4","4"]]}}"#,
        Exchange::Binance,
    );
    assert_eq!(texts(&update.bids), vec![triple("1", "1", "binance")]);
    assert_eq!(texts(&update.asks), vec![triple("2", "2", "binance")]);
}

#[test]
fn the_second_dialect_is_tried_when_the_first_does_not_fit() {
    let update = decoded(
        r#"{"b":[["1"]],"a":[],"data":{"bids":[["3","3"]],"asks":[["4","4"]]}}"#,
        Exchange::Bitstamp,
    );
    assert_eq!(texts(&update.bids), vec![triple("3", "3", "bitstamp")]);
    assert_eq!(texts(&update.asks), vec![triple("4", "4", "bitstamp")]);
}

#[test]
fn frames_that_are_no_json_are_refused() {
    refused("");
    refused("not json");
    refused(r#"{"b":[["1","1"]],"a":[["2","2"]]"#);
}

#[test]
fn frames_of_another_shape_are_refused() {
    refused("null");
    refused("[]");
    refused(r#"{"b":[["1","1"]]}"#);
    refused(r#"{"a":[["1","1"]]}"#);
    refused(r#"{"bids":[["1","1"]],"asks":[["2","2"]]}"#);
    refused(r#"{"data":{"b":[["1","1"]],"a":[["2","2"]]}}"#);
    refused(r#"{"data":[]}"#);
    refused(r#"{"b":{},"a":[]}"#);
    refused(r#"{"b":[["1","1","1"]],"a":[]}"#);
    refused(r#"{"b":[["1"]],"a":[]}"#);
    refused(r#"{"b":[[1,1]],"a":[]}"#);
    refused(r#"{"b":[["1",null]],"a":[]}"#);
    refused(r#"{"b":["1","1"],"a":[]}"#);
}

#[test]
fn prices_and_amounts_that_are_no_decimals_are_refused() {
    refused(r#"{"b":[["abc","1"]],"a":[]}"#);
    refused(r#"{"b":[["1",""]],"a":[]}"#);
    refused(r#"{"b":[],"a":[["1","1"],["1","x"]]}"#);
    refused(r#"{"data":{"bids":[["1","1"]],"asks":[["one","1"]]}}"#);
}

#[test]
fn negative_amounts_are_refused() {
    refused(r#"{"b":[["1","-1"]],"a":[]}"#);
    refused(r#"{"b":[],"a":[["1","1"],["2","-0.5"]]}"#);
    refused(r#"{"data":{"bids":[["1","-3"]],"asks":[]}}"#);
    let update = decoded(r#"{"b":[["-1","0"]],"a":[["1","0.0"]]}"#, Exchange::Binance);
    assert_eq!(texts(&update.bids), vec![triple("-1", "0", "binance")]);
    assert_eq!(texts(&update.asks), vec![triple("1", "0.0", "binance")]);
}

#[test]
fn the_dialect_is_told_apart() {
    let json = Json::parse(r#"{"b":[["1","2"]],"a":[]}"#).expect("json");
    match Event::from_json(&json) {
        Ok(Event::Binance(data)) => {
            assert_eq!(data.bids, vec![("1".to_string(), "2".to_string())]);
            assert!(data.asks.is_empty());
        }
        _ => panic!("a frame of the first dialect"),
    }
    let json = Json::parse(r#"{"data":{"bids":[],"asks":[["3","4"]]}}"#).expect("json");
    match Event::from_json(&json) {
        Ok(Event::Bitstamp { data }) => {
            assert!(data.bids.is_empty());
            assert_eq!(data.asks, vec![("3".to_string(), "4".to_string())]);
        }
        _ => panic!("a frame of the second dialect"),
    }
    let json = Json::parse(r#"{"data":7}"#).expect("json");
    assert!(matches!(Event::from_json(&json), Err(Error::Parse)));
}

#[test]
fn a_frame_built_by_hand_decodes() {
    let pair = |p: &str, a: &str| Json::Array(vec![Json::Text(p.to_string()), Json::Text(a.to_string())]);
    let json = Json::Object(vec![
        ("a".to_string(), Json::Array(vec![pair("3.0", "4.0")])),
        ("b".to_string(), Json::Array(vec![pair("1.0", "2.0")])),
        ("E".to_string(), Json::Number("1700000000".to_string())),
    ]);
    let update = decode_json(&json, Exchange::Binance).expect("the frame decodes");
    assert_eq!(texts(&update.bids), vec![triple("1.0", "2.0", "binance")]);
    assert_eq!(texts(&update.asks), vec![triple("3.0", "4.0", "binance")]);
}

#[test]
fn frames_of_float_texts_decode() {
    let values: [f64; 4] = [0.25, 17.5, 1234.125, 0.000001];
    let side = |offset: f64| -> String {
        let pairs: Vec<String> = values
            .iter()
            .map(|v| format!("[\"{}\",\"{}\"]", v + offset, v * 2.0))
            .collect();
        format!("[{}]", pairs.join(","))
    };
    let binance = format!("{{\"a\":{},\"b\":{}}}", side(1.0), side(0.0));
    let update = decoded(&binance, Exchange::Binance);
    assert_eq!(update.bids.len(), 4);
    assert_eq!(update.asks.len(), 4);
    let bitstamp = format!("{{\"data\":{{\"asks\":{},\"bids\":{}}}}}", side(1.0), side(0.0));
    let update = decoded(&bitstamp, Exchange::Bitstamp);
    assert_eq!(update.bids.len(), 4);
    assert_eq!(update.asks.len(), 4);
}

#[test]
fn json_values_are_read_and_taken_apart() {
    let json = Json::parse(r#"{"x":[true,null,1.5,"s"],"y":{"z":"w"}}"#).expect("json");
    let x = json.get("x").expect("member x").as_array().expect("an array");
    assert!(matches!(x[0], Json::Bool(true)));
    assert!(matches!(x[1], Json::Null));
    assert!(matches!(&x[2], Json::Number(n) if n == "1.5"));
    assert_eq!(x[3].as_str(), Some("s"));
    assert_eq!(json.get("y").and_then(|y| y.get("z")).and_then(|z| z.as_str()), Some("w"));
    assert!(json.get("z").is_none());
    assert!(json.as_array().is_none());
    assert!(json.as_str().is_none());
    assert!(x[3].get("x").is_none());
    assert!(Json::parse("{").is_none());
}

#[test]
fn quoting_escapes_what_json_wants_escaped() {
    assert_eq!(Json::quote("ethbtc"), "\"ethbtc\"");
    assert_eq!(Json::quote("a\"b\\c\n"), "\"a\\\"b\\\\c\\n\"");
}
