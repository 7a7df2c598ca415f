//! The Binance depth-feed adapter: frames look like
//! `{"lastUpdateId":N,"bids":[["p","q"],…],"asks":[["p","q"],…]}`.

use vstd::prelude::*;
use vstd::slice::slice_subrange;

use crate::common::DecodeError;
use crate::common::ExchangeId;
use crate::common::Level;
use crate::common::OrderBook;
use crate::common::OrderBookEntry;
use crate::decimal::digits_val;
use crate::decimal::parse_unsigned;
use crate::exchange::normalize_levels;
use crate::exchange::spec_normalize;
use crate::exchange::Exchange;
use crate::merger::lemma_sorted_dir_equiv;
use crate::scan::digits_end;
use crate::scan::entries_at;
use crate::scan::entries_wf;
use crate::scan::find_from;
use crate::scan::find_pattern;
use crate::scan::key_asks;
use crate::scan::key_asks_vec;
use crate::scan::key_bids;
use crate::scan::key_bids_vec;
use crate::scan::key_last_update_id;
use crate::scan::key_last_update_id_vec;
use crate::scan::lemma_digits_end_bounds;
use crate::scan::lemma_find_from_bounds;
use crate::scan::parse_entries;
use crate::scan::scan_digits_end;
use crate::NUM_ORDER_BOOK_ENTRIES;

verus! {

/// The Binance adapter.
pub struct Binance;

/// A decoded Binance depth frame, prices and quantities in 1e-8 units.
#[derive(Debug, PartialEq)]
pub struct BinanceOrderBookMessage {
    pub last_update_id: i64,
    pub bids: Vec<OrderBookEntry>,
    pub asks: Vec<OrderBookEntry>,
}

/// What a Binance frame decodes to: the update id's digit run after
/// `"lastUpdateId":` and the entry arrays after `"bids":` and
/// `"asks":`, or `None` where any of them is missing or malformed.
pub open spec fn spec_decode_binance(s: Seq<u8>) -> Option<
    (i64, Seq<OrderBookEntry>, Seq<OrderBookEntry>),
> {
    match find_from(s, key_last_update_id(), 0) {
        Some(li) => {
            let v0 = li + key_last_update_id().len();
            let ve = digits_end(s, v0);
            if ve - v0 < 1 || ve - v0 > 18 {
                None
            } else {
                let lu = digits_val(s.subrange(v0, ve)) as i64;
                match find_from(s, key_bids(), 0) {
                    Some(bi) => match entries_at(s, bi + key_bids().len()) {
                        Some((bids, _)) => match find_from(s, key_asks(), 0) {
                            Some(ai) => match entries_at(s, ai + key_asks().len()) {
                                Some((asks, _)) => Some((lu, bids, asks)),
                                None => None,
                            },
                            None => None,
                        },
                        None => None,
                    },
                    None => None,
                }
            }
        },
        None => None,
    }
}

/// Decode one Binance text frame.
pub fn decode_binance(frame: &[u8]) -> (r: Result<BinanceOrderBookMessage, DecodeError>)
    ensures
        (r is Ok) <==> spec_decode_binance(frame@) is Some,
        match r {
            Ok(m) => spec_decode_binance(frame@) == Some((m.last_update_id, m.bids@, m.asks@))
                && entries_wf(m.bids@) && entries_wf(m.asks@),
            Err(e) => e == DecodeError::Malformed,
        },
{
    let n = frame.len();
    proof {
        assert(n == frame@.len());
    }
    let key_lu = key_last_update_id_vec();
    let li = match find_pattern(frame, key_lu.as_slice(), 0) {
        Some(i) => i,
        None => {
            return Err(DecodeError::Malformed);
        },
    };
    proof {
        lemma_find_from_bounds(frame@, key_last_update_id(), 0);
    }
    let v0 = li + key_lu.len();
    let ve = scan_digits_end(frame, v0);
    if ve - v0 < 1 || ve - v0 > 18 {
        return Err(DecodeError::Malformed);
    }
    let lu_txt = slice_subrange(frame, v0, ve);
    proof {
        lemma_digits_end_bounds(frame@, v0 as int);
    }
    let lu = match parse_unsigned(lu_txt) {
        Some(v) => v,
        None => {
            return Err(DecodeError::Malformed);
        },
    };
    let key_b = key_bids_vec();
    let bi = match find_pattern(frame, key_b.as_slice(), 0) {
        Some(i) => i,
        None => {
            return Err(DecodeError::Malformed);
        },
    };
    proof {
        lemma_find_from_bounds(frame@, key_bids(), 0);
    }
    let (bids, _bend) = match parse_entries(frame, bi + key_b.len()) {
        Some(t) => t,
        None => {
            return Err(DecodeError::Malformed);
        },
    };
    let key_a = key_asks_vec();
    let ai = match find_pattern(frame, key_a.as_slice(), 0) {
        Some(i) => i,
        None => {
            return Err(DecodeError::Malformed);
        },
    };
    proof {
        lemma_find_from_bounds(frame@, key_asks(), 0);
    }
    let (asks, _aend) = match parse_entries(frame, ai + key_a.len()) {
        Some(t) => t,
        None => {
            return Err(DecodeError::Malformed);
        },
    };
    Ok(BinanceOrderBookMessage { last_update_id: lu as i64, bids, asks })
}

impl BinanceOrderBookMessage {
    /// The message as a normalized order book: both sides tagged,
    /// stably sorted (bids descending, asks ascending) and truncated
    /// to the best `NUM_ORDER_BOOK_ENTRIES` levels.
    pub fn into_order_book(&self) -> (r: OrderBook)
        ensures
            r.exchange == ExchangeId::Binance,
            r.bids@ == spec_normalize(self.bids@, ExchangeId::Binance, false),
            r.asks@ == spec_normalize(self.asks@, ExchangeId::Binance, true),
            r.bids@.len() <= NUM_ORDER_BOOK_ENTRIES,
            r.asks@.len() <= NUM_ORDER_BOOK_ENTRIES,
            entries_wf(self.bids@) && entries_wf(self.asks@) ==> r.wf(),
    {
        let bids = normalize_levels(&self.bids, ExchangeId::Binance, false);
        let asks = normalize_levels(&self.asks, ExchangeId::Binance, true);
        proof {
            lemma_sorted_dir_equiv(bids@);
            lemma_sorted_dir_equiv(asks@);
        }
        OrderBook { exchange: ExchangeId::Binance, bids, asks }
    }
}

impl Exchange for Binance {
    type OrderBookMessage = BinanceOrderBookMessage;

    open spec fn spec_exchange_id() -> ExchangeId {
        ExchangeId::Binance
    }

    open spec fn spec_decode_book(s: Seq<u8>) -> Option<(Seq<Level>, Seq<Level>)> {
        match spec_decode_binance(s) {
            Some((lu, bids, asks)) => Some(
                (
                    spec_normalize(bids, ExchangeId::Binance, false),
                    spec_normalize(asks, ExchangeId::Binance, true),
                ),
            ),
            None => None,
        }
    }

    fn exchange_id() -> ExchangeId {
        ExchangeId::Binance
    }

    fn decode_order_book(frame: &[u8]) -> Result<OrderBook, DecodeError> {
        match decode_binance(frame) {
            Ok(m) => Ok(m.into_order_book()),
            Err(e) => Err(e),
        }
    }
}

} // verus!
