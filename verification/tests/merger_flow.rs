//! The merger's end-to-end behavior on concrete update sequences.
//! Prices and amounts are in 1e-8 units: `100.0` on the wire is
//! `10_000_000_000` here.

use orderbook_merger::decode_binance;
use orderbook_merger::ExchangeId;
use orderbook_merger::Level;
use orderbook_merger::OrderBook;
use orderbook_merger::OrderBookMerger;

const UNIT: u64 = 100_000_000;

fn lvl(exchange: ExchangeId, price: u64, amount: u64) -> Level {
    Level {
        exchange,
        price,
        amount,
    }
}

fn book(exchange: ExchangeId, bids: Vec<Level>, asks: Vec<Level>) -> OrderBook {
    OrderBook {
        exchange,
        bids,
        asks,
    }
}

#[test]
fn single_source_publish() {
    let binance = ExchangeId::Binance;
    let mut merger = OrderBookMerger::default();
    let ob = book(
        binance,
        vec![lvl(binance, 100 * UNIT, UNIT)],
        vec![lvl(binance, 101 * UNIT, 2 * UNIT)],
    );
    assert!(ob.is_well_formed());
    let summary = merger.process(ob).expect("one summary expected");
    assert_eq!(summary.spread, UNIT as i64);
    assert_eq!(summary.bids, vec![lvl(binance, 100 * UNIT, UNIT)]);
    assert_eq!(summary.asks, vec![lvl(binance, 101 * UNIT, 2 * UNIT)]);
}

#[test]
fn two_source_merge() {
    let binance = ExchangeId::Binance;
    let bitstamp = ExchangeId::Bitstamp;
    let mut merger = OrderBookMerger::default();

    let first = merger
        .process(book(
            binance,
            vec![lvl(binance, 100 * UNIT, UNIT), lvl(binance, 99 * UNIT, UNIT)],
            vec![lvl(binance, 102 * UNIT, UNIT)],
        ))
        .expect("first summary");
    assert_eq!(first.spread, 2 * UNIT as i64);
    assert_eq!(
        first.bids,
        vec![lvl(binance, 100 * UNIT, UNIT), lvl(binance, 99 * UNIT, UNIT)]
    );
    assert_eq!(first.asks, vec![lvl(binance, 102 * UNIT, UNIT)]);

    let second = merger
        .process(book(
            bitstamp,
            vec![lvl(bitstamp, 101 * UNIT, UNIT)],
            vec![lvl(bitstamp, 101 * UNIT + UNIT / 2, UNIT)],
        ))
        .expect("second summary");
    assert_eq!(second.spread, (UNIT / 2) as i64);
    assert_eq!(
        second.bids,
        vec![
            lvl(bitstamp, 101 * UNIT, UNIT),
            lvl(binance, 100 * UNIT, UNIT),
            lvl(binance, 99 * UNIT, UNIT),
        ]
    );
    assert_eq!(
        second.asks,
        vec![
            lvl(bitstamp, 101 * UNIT + UNIT / 2, UNIT),
            lvl(binance, 102 * UNIT, UNIT),
        ]
    );
}

#[test]
fn tie_break_is_lexicographic() {
    let binance = ExchangeId::Binance;
    let bitstamp = ExchangeId::Bitstamp;
    let mut merger = OrderBookMerger::default();
    merger
        .process(book(
            binance,
            vec![lvl(binance, 100 * UNIT, UNIT)],
            vec![lvl(binance, 101 * UNIT, UNIT)],
        ))
        .expect("summary");
    let summary = merger
        .process(book(
            bitstamp,
            vec![lvl(bitstamp, 100 * UNIT, 2 * UNIT)],
            vec![lvl(bitstamp, 101 * UNIT, 2 * UNIT)],
        ))
        .expect("summary");
    // Equal prices: binance comes first in lexicographic exchange order.
    assert_eq!(
        summary.bids,
        vec![
            lvl(binance, 100 * UNIT, UNIT),
            lvl(bitstamp, 100 * UNIT, 2 * UNIT),
        ]
    );
    assert_eq!(
        summary.asks,
        vec![
            lvl(binance, 101 * UNIT, UNIT),
            lvl(bitstamp, 101 * UNIT, 2 * UNIT),
        ]
    );
}

#[test]
fn truncation_keeps_ten_best() {
    let binance = ExchangeId::Binance;
    let mut merger = OrderBookMerger::default();
    let mut bids = Vec::new();
    for i in 0..12u64 {
        bids.push(lvl(binance, (200 - i) * UNIT, UNIT));
    }
    let summary = merger
        .process(book(binance, bids, vec![lvl(binance, 300 * UNIT, UNIT)]))
        .expect("summary");
    assert_eq!(summary.bids.len(), 10);
    assert_eq!(summary.bids[0].price, 200 * UNIT);
    // The two lowest bids (190 and 189) are dropped.
    assert_eq!(summary.bids[9].price, 191 * UNIT);
}

#[test]
fn negative_spread_is_published_verbatim() {
    let binance = ExchangeId::Binance;
    let bitstamp = ExchangeId::Bitstamp;
    let mut merger = OrderBookMerger::default();
    merger
        .process(book(
            binance,
            vec![lvl(binance, 105 * UNIT, UNIT)],
            vec![lvl(binance, 106 * UNIT, UNIT)],
        ))
        .expect("summary");
    let summary = merger
        .process(book(
            bitstamp,
            vec![lvl(bitstamp, 103 * UNIT, UNIT)],
            vec![lvl(bitstamp, 104 * UNIT, UNIT)],
        ))
        .expect("summary");
    assert_eq!(summary.bids[0], lvl(binance, 105 * UNIT, UNIT));
    assert_eq!(summary.asks[0], lvl(bitstamp, 104 * UNIT, UNIT));
    assert_eq!(summary.spread, -(UNIT as i64));
}

#[test]
fn empty_sides_gate_publishing() {
    let binance = ExchangeId::Binance;
    let bitstamp = ExchangeId::Bitstamp;
    let mut merger = OrderBookMerger::default();
    // Only asks known: nothing to publish yet.
    let none = merger.process(book(binance, vec![], vec![lvl(binance, 101 * UNIT, UNIT)]));
    assert!(none.is_none());
    // The other exchange supplies the bid side: publish with the
    // non-empty sides of both.
    let summary = merger
        .process(book(bitstamp, vec![lvl(bitstamp, 99 * UNIT, UNIT)], vec![]))
        .expect("summary");
    assert_eq!(summary.bids, vec![lvl(bitstamp, 99 * UNIT, UNIT)]);
    assert_eq!(summary.asks, vec![lvl(binance, 101 * UNIT, UNIT)]);
    assert_eq!(summary.spread, 2 * UNIT as i64);
}

#[test]
fn same_book_twice_is_idempotent() {
    let binance = ExchangeId::Binance;
    let mut merger = OrderBookMerger::default();
    let ob = || {
        book(
            binance,
            vec![lvl(binance, 100 * UNIT, UNIT)],
            vec![lvl(binance, 101 * UNIT, UNIT)],
        )
    };
    let first = merger.process(ob()).expect("first");
    let second = merger.process(ob()).expect("second");
    assert_eq!(first.spread, second.spread);
    assert_eq!(first.bids, second.bids);
    assert_eq!(first.asks, second.asks);
}

#[test]
fn single_exchange_summaries_hold_only_its_levels() {
    let bitstamp = ExchangeId::Bitstamp;
    let mut merger = OrderBookMerger::default();
    let summary = merger
        .process(book(
            bitstamp,
            vec![lvl(bitstamp, 90 * UNIT, UNIT)],
            vec![lvl(bitstamp, 91 * UNIT, UNIT)],
        ))
        .expect("summary");
    for l in summary.bids.iter().chain(summary.asks.iter()) {
        assert_eq!(l.exchange, bitstamp);
    }
}

#[test]
fn malformed_frame_between_two_valid_ones() {
    let mut merger = OrderBookMerger::default();
    let frames: Vec<&[u8]> = vec![
        b"{\"lastUpdateId\":1,\"bids\":[[\"100\",\"1\"]],\"asks\":[[\"101\",\"1\"]]}",
        b"{ this is not a depth frame }",
        b"{\"lastUpdateId\":2,\"bids\":[[\"100\",\"2\"]],\"asks\":[[\"101\",\"2\"]]}",
    ];
    let mut published = 0;
    for frame in frames {
        if let Ok(msg) = decode_binance(frame) {
            let ob = msg.into_order_book();
            assert!(ob.is_well_formed());
            if merger.process(ob).is_some() {
                published += 1;
            }
        }
    }
    assert_eq!(published, 2);
}

#[test]
fn no_publish_while_every_ask_side_is_empty() {
    let binance = ExchangeId::Binance;
    let bitstamp = ExchangeId::Bitstamp;
    let mut merger = OrderBookMerger::default();
    assert!(merger
        .process(book(binance, vec![lvl(binance, 100 * UNIT, UNIT)], vec![]))
        .is_none());
    assert!(merger
        .process(book(bitstamp, vec![lvl(bitstamp, 101 * UNIT, UNIT)], vec![]))
        .is_none());
    // The first ask anywhere unlocks publishing.
    let summary = merger
        .process(book(
            bitstamp,
            vec![lvl(bitstamp, 101 * UNIT, UNIT)],
            vec![lvl(bitstamp, 103 * UNIT, UNIT)],
        ))
        .expect("summary");
    assert_eq!(summary.asks, vec![lvl(bitstamp, 103 * UNIT, UNIT)]);
}
