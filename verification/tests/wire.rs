//! The wire-level pieces: decimals, the handshake, the read-loop
//! policy, normalization, and the session policy.

use orderbook_merger::forwarder_decision;
use orderbook_merger::handle_frame;
use orderbook_merger::is_subscription_ack;
use orderbook_merger::normalize_levels;
use orderbook_merger::parse_decimal;
use orderbook_merger::parse_unsigned;
use orderbook_merger::subscription_request;
use orderbook_merger::Binance;
use orderbook_merger::BinanceOrderBookMessage;
use orderbook_merger::Bitstamp;
use orderbook_merger::DeliveryOutcome;
use orderbook_merger::ExchangeId;
use orderbook_merger::ForwarderAction;
use orderbook_merger::FrameAction;
use orderbook_merger::FrameEvent;
use orderbook_merger::OrderBookEntry;

#[test]
fn decimal_parsing_is_exact() {
    assert_eq!(parse_decimal(b"0.07642400"), Some(7642400));
    assert_eq!(parse_decimal(b"100"), Some(10_000_000_000));
    assert_eq!(parse_decimal(b"101.5"), Some(10_150_000_000));
    assert_eq!(parse_decimal(b"0.00000001"), Some(1));
    assert_eq!(parse_decimal(b"9999999999.99999999"), Some(999_999_999_999_999_999));

    assert_eq!(parse_decimal(b""), None);
    assert_eq!(parse_decimal(b"."), None);
    assert_eq!(parse_decimal(b"1."), None);
    assert_eq!(parse_decimal(b".5"), None);
    assert_eq!(parse_decimal(b"1.2.3"), None);
    assert_eq!(parse_decimal(b"1.123456789"), None);
    assert_eq!(parse_decimal(b"12345678901"), None);
    assert_eq!(parse_decimal(b"12e3"), None);
    assert_eq!(parse_decimal(b"-1"), None);
}

#[test]
fn unsigned_parsing_is_exact() {
    assert_eq!(parse_unsigned(b"0"), Some(0));
    assert_eq!(parse_unsigned(b"1641647673"), Some(1641647673));
    assert_eq!(parse_unsigned(b""), None);
    assert_eq!(parse_unsigned(b"12a"), None);
    assert_eq!(parse_unsigned(b"1234567890123456789"), None);
}

#[test]
fn subscription_request_frame() {
    let frame = subscription_request(b"ethbtc");
    assert_eq!(
        String::from_utf8(frame).unwrap(),
        "{\"data\":{\"channel\":\"order_book_ethbtc\"},\"event\":\"bts:subscribe\"}"
    );
}

#[test]
fn subscription_ack_detection() {
    let ack = "{\"event\":\"bts:subscription_succeeded\",\"channel\":\"order_book_ethbtc\"}";
    assert!(is_subscription_ack(ack.as_bytes()));
    let data = "{\"event\":\"data\",\"channel\":\"order_book_ethbtc\"}";
    assert!(!is_subscription_ack(data.as_bytes()));
    assert!(!is_subscription_ack(b"pong"));
}

#[test]
fn read_loop_frame_policy() {
    // A ping is answered with an empty pong.
    match handle_frame::<Bitstamp>(FrameEvent::Ping(vec![1, 2, 3])) {
        FrameAction::Reply(payload) => assert!(payload.is_empty()),
        _ => panic!("ping must be answered"),
    }
    // Pong, binary, and per-frame read errors are skipped.
    assert!(matches!(handle_frame::<Bitstamp>(FrameEvent::Pong), FrameAction::Ignore));
    assert!(matches!(handle_frame::<Bitstamp>(FrameEvent::Binary), FrameAction::Ignore));
    assert!(matches!(handle_frame::<Bitstamp>(FrameEvent::ReadError), FrameAction::Ignore));
    // A close ends the loop.
    assert!(matches!(handle_frame::<Bitstamp>(FrameEvent::Close), FrameAction::Terminate));
    // A malformed text frame is skipped, not fatal.
    let garbage = FrameEvent::Text(b"nonsense".to_vec());
    assert!(matches!(handle_frame::<Binance>(garbage), FrameAction::Ignore));
    // A valid text frame is delivered as a normalized book.
    let frame = "{\"lastUpdateId\":7,\"bids\":[[\"99\",\"1\"],[\"100\",\"1\"]],\"asks\":[[\"102\",\"1\"],[\"101\",\"1\"]]}";
    match handle_frame::<Binance>(FrameEvent::Text(frame.as_bytes().to_vec())) {
        FrameAction::Deliver(ob) => {
            assert_eq!(ob.exchange, ExchangeId::Binance);
            assert!(ob.is_well_formed());
            // Sorted: best bid first, best ask first.
            assert_eq!(ob.bids[0].price, 10_000_000_000);
            assert_eq!(ob.bids[1].price, 9_900_000_000);
            assert_eq!(ob.asks[0].price, 10_100_000_000);
            assert_eq!(ob.asks[1].price, 10_200_000_000);
        }
        _ => panic!("valid frame must be delivered"),
    }
}

#[test]
fn normalization_sorts_truncates_and_keeps_ties_stable() {
    let mut entries = Vec::new();
    // Twelve bids in ascending order; two share the top price.
    for i in 0..11u64 {
        entries.push(OrderBookEntry {
            price: 100 + i,
            quantity: i + 1,
        });
    }
    entries.push(OrderBookEntry {
        price: 110,
        quantity: 99,
    });
    let bids = normalize_levels(&entries, ExchangeId::Binance, false);
    assert_eq!(bids.len(), 10);
    // Best bid first; the tie at 110 keeps wire order (quantity 11
    // arrived before quantity 99).
    assert_eq!(bids[0].price, 110);
    assert_eq!(bids[0].amount, 11);
    assert_eq!(bids[1].price, 110);
    assert_eq!(bids[1].amount, 99);
    for w in bids.windows(2) {
        assert!(w[0].price >= w[1].price);
    }
    // The ask side of the same entries sorts the other way.
    let asks = normalize_levels(&entries, ExchangeId::Binance, true);
    assert_eq!(asks[0].price, 100);
    assert_eq!(asks.len(), 10);
}

#[test]
fn message_normalization_matches_spec() {
    let msg = BinanceOrderBookMessage {
        last_update_id: 1,
        bids: vec![
            OrderBookEntry {
                price: 5,
                quantity: 1,
            },
            OrderBookEntry {
                price: 9,
                quantity: 2,
            },
        ],
        asks: vec![
            OrderBookEntry {
                price: 12,
                quantity: 3,
            },
            OrderBookEntry {
                price: 11,
                quantity: 4,
            },
        ],
    };
    let ob = msg.into_order_book();
    assert_eq!(ob.exchange, ExchangeId::Binance);
    assert_eq!(ob.bids[0].price, 9);
    assert_eq!(ob.bids[1].price, 5);
    assert_eq!(ob.asks[0].price, 11);
    assert_eq!(ob.asks[1].price, 12);
    assert!(ob.is_well_formed());
}

#[test]
fn forwarder_policy() {
    assert_eq!(
        forwarder_decision(DeliveryOutcome::Delivered),
        ForwarderAction::Continue
    );
    // A slow client costs the summary, not the session.
    assert_eq!(
        forwarder_decision(DeliveryOutcome::QueueFull),
        ForwarderAction::Continue
    );
    // A disconnected client ends the forwarder within one summary.
    assert_eq!(
        forwarder_decision(DeliveryOutcome::Closed),
        ForwarderAction::Terminate
    );
}

#[test]
fn exchange_names_match_the_wire() {
    assert_eq!(ExchangeId::Binance.name(), "binance");
    assert_eq!(ExchangeId::Bitstamp.name(), "bitstamp");
}
