//! Decoding the exchanges' wire frames.

use orderbook_merger::decode_binance;
use orderbook_merger::decode_bitstamp;
use orderbook_merger::deserialize_order_book_entries;
use orderbook_merger::BinanceOrderBookMessage;
use orderbook_merger::BitstampOrderBookMessage;
use orderbook_merger::BitstampOrderBookMessageData;
use orderbook_merger::OrderBookEntry;

use chrono::TimeZone;

#[test]
fn binance_deserialize_order_book_message() {
    let expected = BinanceOrderBookMessage {
        last_update_id: 4736432536,
        bids: vec![
            OrderBookEntry {
                price: 7642400,
                quantity: 587980000,
            },
            OrderBookEntry {
                price: 7642100,
                quantity: 251320000,
            },
        ],
        asks: vec![
            OrderBookEntry {
                price: 7642500,
                quantity: 880000000,
            },
            OrderBookEntry {
                price: 7642700,
                quantity: 12400000,
            },
        ],
    };
    let msg = "{\"lastUpdateId\":4736432536,\"bids\":[[\"0.07642400\",\"5.87980000\"],[\"0.07642100\",\"2.51320000\"]],\"asks\":[[\"0.07642500\",\"8.80000000\"],[\"0.07642700\",\"0.12400000\"]]}";
    let actual = decode_binance(msg.as_bytes());
    println!("{:?}", actual);

    assert!(actual.is_ok());
    assert_eq!(expected, actual.unwrap());
}

#[test]
fn bitstamp_deserialize_order_book_message() {
    let expected = BitstampOrderBookMessage {
        event: b"data".to_vec(),
        channel: b"order_book_ethbtc".to_vec(),
        data: BitstampOrderBookMessageData {
            timestamp: chrono::Utc.ymd(2022, 1, 8).and_hms(13, 14, 33).timestamp(),
            bids: vec![
                OrderBookEntry {
                    price: 7638925,
                    quantity: 156365297,
                },
                OrderBookEntry {
                    price: 7638231,
                    quantity: 115000000,
                },
            ],
            asks: vec![
                OrderBookEntry {
                    price: 7644937,
                    quantity: 115000000,
                },
                OrderBookEntry {
                    price: 7645112,
                    quantity: 40000000,
                },
            ],
        },
    };
    let msg = "{\"event\":\"data\",\"channel\":\"order_book_ethbtc\",\"data\":{\"timestamp\":\"1641647673\",\"bids\":[[\"0.07638925\",\"1.56365297\"],[\"0.07638231\",\"1.15000000\"]],\"asks\":[[\"0.07644937\",\"1.15000000\"],[\"0.07645112\",\"0.40000000\"]]}}";
    let actual = decode_bitstamp(msg.as_bytes());
    println!("{:?}", actual);

    assert!(actual.is_ok());
    assert_eq!(expected, actual.unwrap());
}

#[test]
fn bitstamp_field_order_does_not_matter() {
    let msg = "{\"data\":{\"timestamp\":\"1652103479\",\"bids\":[[\"0.07\",\"1\"]],\"asks\":[[\"0.08\",\"2\"]]},\"channel\":\"order_book_ethbtc\",\"event\":\"data\"}";
    let actual = decode_bitstamp(msg.as_bytes()).unwrap();
    assert_eq!(actual.event, b"data".to_vec());
    assert_eq!(actual.data.timestamp, 1652103479);
    assert_eq!(actual.data.bids[0].price, 7000000);
    assert_eq!(actual.data.asks[0].quantity, 200000000);
}

#[test]
fn binance_malformed_frame_is_rejected() {
    assert!(decode_binance(b"not json at all").is_err());
    assert!(decode_binance(b"{\"bids\":[],\"asks\":[]}").is_err());
    // A price with too many fractional digits does not fit the
    // fixed-point range and is rejected rather than rounded.
    let msg = "{\"lastUpdateId\":1,\"bids\":[[\"0.123456789\",\"1\"]],\"asks\":[]}";
    assert!(decode_binance(msg.as_bytes()).is_err());
}

#[test]
fn bitstamp_malformed_frame_is_rejected() {
    assert!(decode_bitstamp(b"{}").is_err());
    // The subscription acknowledgement has no order-book payload.
    let ack = "{\"event\":\"bts:subscription_succeeded\",\"channel\":\"order_book_ethbtc\",\"data\":{}}";
    assert!(decode_bitstamp(ack.as_bytes()).is_err());
}

#[test]
fn entries_array_round_trips() {
    let text = "[[\"1.5\",\"2\"],[\"0.00000001\",\"3\"]]";
    let entries = deserialize_order_book_entries(text.as_bytes()).unwrap();
    assert_eq!(
        entries,
        vec![
            OrderBookEntry {
                price: 150000000,
                quantity: 200000000,
            },
            OrderBookEntry {
                price: 1,
                quantity: 300000000,
            },
        ]
    );

    let empty = deserialize_order_book_entries(b"[]").unwrap();
    assert!(empty.is_empty());

    assert!(deserialize_order_book_entries(b"[[\"1\",\"2\"]] trailing").is_err());
    assert!(deserialize_order_book_entries(b"[[\"1\"]]").is_err());
}

#[test]
fn decoded_sides_are_truncated_to_ten() {
    let mut msg = String::from("{\"lastUpdateId\":9,\"bids\":[");
    for i in 0..11 {
        if i > 0 {
            msg.push(',');
        }
        msg.push_str(&format!("[\"{}\",\"1\"]", 100 + i));
    }
    msg.push_str("],\"asks\":[[\"200\",\"1\"]]}");
    let decoded = decode_binance(msg.as_bytes()).unwrap();
    // The raw message keeps all eleven entries; normalization sorts
    // and cuts to ten.
    assert_eq!(decoded.bids.len(), 11);
    let ob = decoded.into_order_book();
    assert_eq!(ob.bids.len(), 10);
    assert_eq!(ob.bids[0].price, 110 * 100_000_000);
    assert_eq!(ob.bids[9].price, 101 * 100_000_000);
}
