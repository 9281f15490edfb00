use serde_json::Value;
use trade_stream::amount::parse_amount;
use trade_stream::catalog::normalize_symbols;
use trade_stream::frame::{parse_agg_trade, ParseError, RawAggTrade, TradeField};
use trade_stream::subscriptions::{
    channel_streams, decimal_string, interval_stream_name, stream_name, stream_url, subscribe_message,
    unsubscribe_message, WS_COMBINED_URL, WS_URL,
};

fn expected_request(method: &str, streams: &[String], id: u64) -> Value {
    let mut m = serde_json::Map::new();
    m.insert("method".to_string(), Value::String(method.to_string()));
    m.insert("params".to_string(), Value::from(streams.to_vec()));
    m.insert("id".to_string(), Value::from(id));
    Value::Object(m)
}

#[test]
fn test_subscribe_message() {
    let streams = vec!["btcusdt@aggTrade".to_string(), "ethusdt@trade".to_string()];
    let id = 1;
    let message = subscribe_message(streams.clone(), id);
    let expected_message = expected_request("SUBSCRIBE", &streams, id);
    let message_json: Value = serde_json::from_str(&message).unwrap();
    assert_eq!(message_json, expected_message);
}

#[test]
fn test_unsubscribe_message() {
    let streams = vec!["btcusdt@aggTrade".to_string(), "ethusdt@trade".to_string()];
    let id = 1;
    let message = unsubscribe_message(streams.clone(), id);
    let expected_message = expected_request("UNSUBSCRIBE", &streams, id);
    let message_json: Value = serde_json::from_str(&message).unwrap();
    assert_eq!(message_json, expected_message);
}

#[test]
fn control_message_text_is_compact_json() {
    let streams = vec!["btcusdt@aggTrade".to_string()];
    assert_eq!(
        subscribe_message(streams, 42),
        "{\"method\":\"SUBSCRIBE\",\"params\":[\"btcusdt@aggTrade\"],\"id\":42}"
    );
    assert_eq!(
        unsubscribe_message(Vec::new(), 1042),
        "{\"method\":\"UNSUBSCRIBE\",\"params\":[],\"id\":1042}"
    );
}

#[test]
fn decimal_string_writes_every_digit() {
    assert_eq!(decimal_string(0), "0");
    assert_eq!(decimal_string(7), "7");
    assert_eq!(decimal_string(1001), "1001");
    assert_eq!(decimal_string(u64::MAX), "18446744073709551615");
}

#[test]
fn stream_names_and_urls() {
    assert_eq!(stream_name("btcusdt", "aggTrade"), "btcusdt@aggTrade");
    assert_eq!(interval_stream_name("ethusdt", "kline", "1m"), "ethusdt@kline_1m");
    let one = vec!["btcusdt@trade".to_string()];
    assert_eq!(stream_url(WS_URL, &one), "wss://stream.binance.com:9443/ws/btcusdt@trade");
    let two = vec!["btcusdt@trade".to_string(), "ethusdt@kline_1m".to_string()];
    assert_eq!(
        stream_url(WS_COMBINED_URL, &two),
        "wss://stream.binance.com:9443/stream?streams=btcusdt@trade/ethusdt@kline_1m"
    );
}

#[test]
fn channel_streams_name_each_symbol() {
    let symbols = vec!["btcusdt".to_string(), "ethusdt".to_string()];
    assert_eq!(channel_streams(&symbols, "trade", None), vec!["btcusdt@trade", "ethusdt@trade"]);
    assert_eq!(
        channel_streams(&symbols, "kline", Some("5m")),
        vec!["btcusdt@kline_5m", "ethusdt@kline_5m"]
    );
    assert!(channel_streams(&Vec::new(), "trade", None).is_empty());
}

#[test]
fn catalog_symbols_are_lowercased_in_order() {
    let symbols = vec!["BTCUSDT".to_string(), "EthBtc".to_string(), "bnbusdt".to_string()];
    assert_eq!(normalize_symbols(&symbols), vec!["btcusdt", "ethbtc", "bnbusdt"]);
}

#[test]
fn amounts_parse_to_fixed_point_units() {
    assert_eq!(parse_amount("27123.45000000"), Some(2_712_345_000_000));
    assert_eq!(parse_amount("1"), Some(100_000_000));
    assert_eq!(parse_amount("0.5"), Some(50_000_000));
    assert_eq!(parse_amount("0.00000001"), Some(1));
    assert_eq!(parse_amount("007.25"), Some(725_000_000));
    assert_eq!(parse_amount("720575940.37927935"), Some(72_057_594_037_927_935));
}

#[test]
fn malformed_or_oversized_amounts_are_rejected() {
    for text in ["", "abc", ".5", "1.", "1.123456789", "-1", "1e5", "1,5", "1.2.3", " 1", "١"] {
        assert_eq!(parse_amount(text), None, "{text}");
    }
    assert_eq!(parse_amount("720575940.37927936"), None);
    assert_eq!(parse_amount("100000000000000000000000"), None);
}

fn raw_frame() -> RawAggTrade {
    RawAggTrade {
        symbol: Some("BNBBTC".to_string()),
        trade_id: Some(26129),
        price: Some("0.01633102".to_string()),
        quantity: Some("4.70443515".to_string()),
        first_trade_id: Some(27781),
        last_trade_id: Some(27781),
        event_time: Some(1_498_793_709_153),
        is_buyer_maker: Some(true),
    }
}

#[test]
fn a_complete_frame_becomes_a_record() {
    let t = parse_agg_trade(raw_frame()).unwrap();
    assert_eq!(t.symbol, "BNBBTC");
    assert_eq!(t.trade_id, 26129);
    assert_eq!(t.price, 1_633_102);
    assert_eq!(t.quantity, 470_443_515);
    assert_eq!(t.first_trade_id, 27781);
    assert_eq!(t.last_trade_id, 27781);
    assert_eq!(t.timestamp, 1_498_793_709_153);
    assert!(t.is_buyer_maker);
}

#[test]
fn each_parse_failure_is_reported() {
    let mut r = raw_frame();
    r.event_time = None;
    assert_eq!(parse_agg_trade(r).err(), Some(ParseError::Missing(TradeField::EventTime)));
    let mut r = raw_frame();
    r.event_time = Some(u64::MAX);
    assert_eq!(parse_agg_trade(r).err(), Some(ParseError::InvalidTimestamp));
    let mut r = raw_frame();
    r.event_time = Some(i64::MAX as u64);
    assert_eq!(parse_agg_trade(r).err(), Some(ParseError::InvalidTimestamp));
    let mut r = raw_frame();
    r.symbol = None;
    assert_eq!(parse_agg_trade(r).err(), Some(ParseError::Missing(TradeField::Symbol)));
    let mut r = raw_frame();
    r.trade_id = None;
    assert_eq!(parse_agg_trade(r).err(), Some(ParseError::Missing(TradeField::TradeId)));
    let mut r = raw_frame();
    r.price = None;
    assert_eq!(parse_agg_trade(r).err(), Some(ParseError::Missing(TradeField::Price)));
    let mut r = raw_frame();
    r.price = Some("n/a".to_string());
    assert_eq!(parse_agg_trade(r).err(), Some(ParseError::NotANumber(TradeField::Price)));
    let mut r = raw_frame();
    r.quantity = None;
    assert_eq!(parse_agg_trade(r).err(), Some(ParseError::Missing(TradeField::Quantity)));
    let mut r = raw_frame();
    r.quantity = Some("4.7x".to_string());
    assert_eq!(parse_agg_trade(r).err(), Some(ParseError::NotANumber(TradeField::Quantity)));
    let mut r = raw_frame();
    r.first_trade_id = None;
    assert_eq!(parse_agg_trade(r).err(), Some(ParseError::Missing(TradeField::FirstTradeId)));
    let mut r = raw_frame();
    r.last_trade_id = None;
    assert_eq!(parse_agg_trade(r).err(), Some(ParseError::Missing(TradeField::LastTradeId)));
    let mut r = raw_frame();
    r.is_buyer_maker = None;
    assert_eq!(parse_agg_trade(r).err(), Some(ParseError::Missing(TradeField::BuyerMaker)));
    let mut r = raw_frame();
    r.price = Some("0.00000000".to_string());
    assert_eq!(parse_agg_trade(r).err(), Some(ParseError::NonPositivePrice));
    let mut r = raw_frame();
    r.first_trade_id = Some(27782);
    assert_eq!(parse_agg_trade(r).err(), Some(ParseError::InvertedTradeRange));
}
