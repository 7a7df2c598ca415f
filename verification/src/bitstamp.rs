//! The Bitstamp order-book adapter: data frames look like
//! `{"event":"data","channel":"order_book_<symbol>","data":{"timestamp":"<unix-sec>","bids":[["p","q"],…],"asks":[["p","q"],…]}}`,
//! and the subscription handshake sends a subscribe frame and waits for
//! a `bts:subscription_succeeded` acknowledgement.

use vstd::prelude::*;
use vstd::slice::slice_subrange;
use vstd::slice::slice_to_vec;

use crate::common::DecodeError;
use crate::common::ExchangeId;
use crate::common::Level;
use crate::common::OrderBook;
use crate::common::OrderBookEntry;
use crate::decimal::all_digits;
use crate::decimal::digits_val;
use crate::decimal::parse_unsigned;
use crate::exchange::normalize_levels;
use crate::exchange::spec_normalize;
use crate::exchange::Exchange;
use crate::merger::lemma_sorted_dir_equiv;
use crate::scan::entries_at;
use crate::scan::entries_wf;
use crate::scan::find_from;
use crate::scan::find_pattern;
use crate::scan::key_asks;
use crate::scan::key_asks_vec;
use crate::scan::key_bids;
use crate::scan::key_bids_vec;
use crate::scan::lemma_find_from_bounds;
use crate::scan::parse_entries;
use crate::scan::bytes_eq;
use crate::scan::parse_str_tok;
use crate::scan::str_tok;
use crate::NUM_ORDER_BOOK_ENTRIES;

verus! {

/// The Bitstamp adapter.
pub struct Bitstamp;

/// A decoded Bitstamp data frame.
#[derive(Debug, PartialEq)]
pub struct BitstampOrderBookMessage {
    /// The frame's event tag, normally `data`.
    pub event: Vec<u8>,
    /// The channel the frame arrived on, `order_book_<symbol>`.
    pub channel: Vec<u8>,
    pub data: BitstampOrderBookMessageData,
}

/// The payload of a Bitstamp data frame, prices and quantities in 1e-8
/// units and the timestamp in unix seconds.
#[derive(Debug, PartialEq)]
pub struct BitstampOrderBookMessageData {
    pub timestamp: i64,
    pub bids: Vec<OrderBookEntry>,
    pub asks: Vec<OrderBookEntry>,
}

/// The Bitstamp frame key `"event":`.
pub open spec fn key_event() -> Seq<u8> {
    seq![34u8, 101, 118, 101, 110, 116, 34, 58]
}

/// Executable bytes of [`key_event`].
pub fn key_event_vec() -> (r: Vec<u8>)
    ensures
        r@ == key_event(),
{
    let mut v: Vec<u8> = Vec::new();
    v.push(34);
    v.push(101);
    v.push(118);
    v.push(101);
    v.push(110);
    v.push(116);
    v.push(34);
    v.push(58);
    proof {
        assert(v@ =~= key_event());
    }
    v
}

/// The Bitstamp frame key `"channel":`.
pub open spec fn key_channel() -> Seq<u8> {
    seq![34u8, 99, 104, 97, 110, 110, 101, 108, 34, 58]
}

/// Executable bytes of [`key_channel`].
pub fn key_channel_vec() -> (r: Vec<u8>)
    ensures
        r@ == key_channel(),
{
    let mut v: Vec<u8> = Vec::new();
    v.push(34);
    v.push(99);
    v.push(104);
    v.push(97);
    v.push(110);
    v.push(110);
    v.push(101);
    v.push(108);
    v.push(34);
    v.push(58);
    proof {
        assert(v@ =~= key_channel());
    }
    v
}

/// The Bitstamp frame key `"timestamp":`.
pub open spec fn key_timestamp() -> Seq<u8> {
    seq![34u8, 116, 105, 109, 101, 115, 116, 97, 109, 112, 34, 58]
}

/// Executable bytes of [`key_timestamp`].
pub fn key_timestamp_vec() -> (r: Vec<u8>)
    ensures
        r@ == key_timestamp(),
{
    let mut v: Vec<u8> = Vec::new();
    v.push(34);
    v.push(116);
    v.push(105);
    v.push(109);
    v.push(101);
    v.push(115);
    v.push(116);
    v.push(97);
    v.push(109);
    v.push(112);
    v.push(34);
    v.push(58);
    proof {
        assert(v@ =~= key_timestamp());
    }
    v
}

/// The event value acknowledging a subscription.
pub open spec fn ack_event() -> Seq<u8> {
    seq![98u8, 116, 115, 58, 115, 117, 98, 115, 99, 114, 105, 112, 116, 105, 111, 110, 95, 115, 117, 99, 99, 101, 101, 100, 101, 100]
}

/// Executable bytes of [`ack_event`].
pub fn ack_event_vec() -> (r: Vec<u8>)
    ensures
        r@ == ack_event(),
{
    let mut v: Vec<u8> = Vec::new();
    v.push(98);
    v.push(116);
    v.push(115);
    v.push(58);
    v.push(115);
    v.push(117);
    v.push(98);
    v.push(115);
    v.push(99);
    v.push(114);
    v.push(105);
    v.push(112);
    v.push(116);
    v.push(105);
    v.push(111);
    v.push(110);
    v.push(95);
    v.push(115);
    v.push(117);
    v.push(99);
    v.push(99);
    v.push(101);
    v.push(101);
    v.push(100);
    v.push(101);
    v.push(100);
    proof {
        assert(v@ =~= ack_event());
    }
    v
}

/// The subscribe frame up to the trading pair.
pub open spec fn sub_prefix() -> Seq<u8> {
    seq![123u8, 34, 100, 97, 116, 97, 34, 58, 123, 34, 99, 104, 97, 110, 110, 101, 108, 34, 58, 34, 111, 114, 100, 101, 114, 95, 98, 111, 111, 107, 95]
}

/// Executable bytes of [`sub_prefix`].
pub fn sub_prefix_vec() -> (r: Vec<u8>)
    ensures
        r@ == sub_prefix(),
{
    let mut v: Vec<u8> = Vec::new();
    v.push(123);
    v.push(34);
    v.push(100);
    v.push(97);
    v.push(116);
    v.push(97);
    v.push(34);
    v.push(58);
    v.push(123);
    v.push(34);
    v.push(99);
    v.push(104);
    v.push(97);
    v.push(110);
    v.push(110);
    v.push(101);
    v.push(108);
    v.push(34);
    v.push(58);
    v.push(34);
    v.push(111);
    v.push(114);
    v.push(100);
    v.push(101);
    v.push(114);
    v.push(95);
    v.push(98);
    v.push(111);
    v.push(111);
    v.push(107);
    v.push(95);
    proof {
        assert(v@ =~= sub_prefix());
    }
    v
}

/// The subscribe frame after the trading pair.
pub open spec fn sub_suffix() -> Seq<u8> {
    seq![34u8, 125, 44, 34, 101, 118, 101, 110, 116, 34, 58, 34, 98, 116, 115, 58, 115, 117, 98, 115, 99, 114, 105, 98, 101, 34, 125]
}

/// Executable bytes of [`sub_suffix`].
pub fn sub_suffix_vec() -> (r: Vec<u8>)
    ensures
        r@ == sub_suffix(),
{
    let mut v: Vec<u8> = Vec::new();
    v.push(34);
    v.push(125);
    v.push(44);
    v.push(34);
    v.push(101);
    v.push(118);
    v.push(101);
    v.push(110);
    v.push(116);
    v.push(34);
    v.push(58);
    v.push(34);
    v.push(98);
    v.push(116);
    v.push(115);
    v.push(58);
    v.push(115);
    v.push(117);
    v.push(98);
    v.push(115);
    v.push(99);
    v.push(114);
    v.push(105);
    v.push(98);
    v.push(101);
    v.push(34);
    v.push(125);
    proof {
        assert(v@ =~= sub_suffix());
    }
    v
}

/// The string token after the first occurrence of `key`.
pub open spec fn string_field(s: Seq<u8>, key: Seq<u8>) -> Option<Seq<u8>> {
    match find_from(s, key, 0) {
        Some(i) => match str_tok(s, i + key.len()) {
            Some((t, _)) => Some(t),
            None => None,
        },
        None => None,
    }
}

/// Executable counterpart of [`string_field`].
fn parse_string_field(frame: &[u8], key: &[u8]) -> (r: Option<Vec<u8>>)
    requires
        key@.len() >= 1,
    ensures
        match r {
            Some(v) => string_field(frame@, key@) == Some(v@),
            None => string_field(frame@, key@) is None,
        },
{
    let n = frame.len();
    let i = match find_pattern(frame, key, 0) {
        Some(i) => i,
        None => {
            return None;
        },
    };
    proof {
        lemma_find_from_bounds(frame@, key@, 0);
    }
    match parse_str_tok(frame, i + key.len()) {
        Some((e, _j)) => {
            let content = slice_subrange(frame, i + key.len() + 1, e);
            Some(slice_to_vec(content))
        },
        None => None,
    }
}

/// Append `s` to `v`.
fn append_bytes(v: &mut Vec<u8>, s: &[u8])
    ensures
        final(v)@ == old(v)@ + s@,
{
    let n = s.len();
    let mut i: usize = 0;
    while i < n
        invariant
            i <= n == s@.len(),
            v@ == old(v)@ + s@.take(i as int),
        decreases n - i,
    {
        proof {
            assert((old(v)@ + s@.take(i as int)).push(s@[i as int]) =~= old(v)@ + s@.take(
                i as int + 1,
            ));
        }
        v.push(s[i]);
        i = i + 1;
    }
    proof {
        assert(s@.take(n as int) =~= s@);
    }
}

/// The subscribe frame for `order_book_<trading_pair>`.
pub open spec fn spec_subscription_request(pair: Seq<u8>) -> Seq<u8> {
    sub_prefix() + pair + sub_suffix()
}

/// Build the subscribe frame the handshake sends.
pub fn subscription_request(trading_pair: &[u8]) -> (r: Vec<u8>)
    ensures
        r@ == spec_subscription_request(trading_pair@),
{
    let mut v = sub_prefix_vec();
    append_bytes(&mut v, trading_pair);
    let suf = sub_suffix_vec();
    append_bytes(&mut v, suf.as_slice());
    proof {
        assert(v@ =~= spec_subscription_request(trading_pair@));
    }
    v
}

/// The frame acknowledges the subscription: its event field is
/// `bts:subscription_succeeded`.
pub open spec fn spec_subscription_ack(s: Seq<u8>) -> bool {
    string_field(s, key_event()) == Some(ack_event())
}

/// Whether a handshake reply acknowledges the subscription.
pub fn is_subscription_ack(frame: &[u8]) -> (r: bool)
    ensures
        r == spec_subscription_ack(frame@),
{
    let key = key_event_vec();
    match parse_string_field(frame, key.as_slice()) {
        Some(v) => {
            let ack = ack_event_vec();
            bytes_eq(v.as_slice(), ack.as_slice())
        },
        None => false,
    }
}

/// What a Bitstamp frame decodes to: its event and channel strings,
/// the timestamp's digit run, and the two entry arrays, or `None`
/// where any of them is missing or malformed.
pub open spec fn spec_decode_bitstamp(s: Seq<u8>) -> Option<
    (Seq<u8>, Seq<u8>, i64, Seq<OrderBookEntry>, Seq<OrderBookEntry>),
> {
    match string_field(s, key_event()) {
        Some(ev) => match string_field(s, key_channel()) {
            Some(ch) => match string_field(s, key_timestamp()) {
                Some(ts) => if all_digits(ts) && 1 <= ts.len() <= 18 {
                    match find_from(s, key_bids(), 0) {
                        Some(bi) => match entries_at(s, bi + key_bids().len()) {
                            Some((bids, _)) => match find_from(s, key_asks(), 0) {
                                Some(ai) => match entries_at(s, ai + key_asks().len()) {
                                    Some((asks, _)) => Some(
                                        (ev, ch, digits_val(ts) as i64, bids, asks),
                                    ),
                                    None => None,
                                },
                                None => None,
                            },
                            None => None,
                        },
                        None => None,
                    }
                } else {
                    None
                },
                None => None,
            },
            None => None,
        },
        None => None,
    }
}

/// Decode one Bitstamp text frame.
pub fn decode_bitstamp(frame: &[u8]) -> (r: Result<BitstampOrderBookMessage, DecodeError>)
    ensures
        (r is Ok) <==> spec_decode_bitstamp(frame@) is Some,
        match r {
            Ok(m) => spec_decode_bitstamp(frame@) == Some(
                (m.event@, m.channel@, m.data.timestamp, m.data.bids@, m.data.asks@),
            ) && entries_wf(m.data.bids@) && entries_wf(m.data.asks@),
            Err(e) => e == DecodeError::Malformed,
        },
{
    let n = frame.len();
    proof {
        assert(n == frame@.len());
    }
    let k_event = key_event_vec();
    let event = match parse_string_field(frame, k_event.as_slice()) {
        Some(v) => v,
        None => {
            return Err(DecodeError::Malformed);
        },
    };
    let k_channel = key_channel_vec();
    let channel = match parse_string_field(frame, k_channel.as_slice()) {
        Some(v) => v,
        None => {
            return Err(DecodeError::Malformed);
        },
    };
    let k_ts = key_timestamp_vec();
    let ts_txt = match parse_string_field(frame, k_ts.as_slice()) {
        Some(v) => v,
        None => {
            return Err(DecodeError::Malformed);
        },
    };
    let timestamp = match parse_unsigned(ts_txt.as_slice()) {
        Some(v) => v,
        None => {
            return Err(DecodeError::Malformed);
        },
    };
    let key_b = key_bids_vec();
    let bi = match find_pattern(frame, key_b.as_slice(), 0) {
        Some(i) => i,
        None => {
            return Err(DecodeError::Malformed);
        },
    };
    proof {
        lemma_find_from_bounds(frame@, key_bids(), 0);
    }
    let (bids, _bend) = match parse_entries(frame, bi + key_b.len()) {
        Some(t) => t,
        None => {
            return Err(DecodeError::Malformed);
        },
    };
    let key_a = key_asks_vec();
    let ai = match find_pattern(frame, key_a.as_slice(), 0) {
        Some(i) => i,
        None => {
            return Err(DecodeError::Malformed);
        },
    };
    proof {
        lemma_find_from_bounds(frame@, key_asks(), 0);
    }
    let (asks, _aend) = match parse_entries(frame, ai + key_a.len()) {
        Some(t) => t,
        None => {
            return Err(DecodeError::Malformed);
        },
    };
    Ok(
        BitstampOrderBookMessage {
            event,
            channel,
            data: BitstampOrderBookMessageData { timestamp: timestamp as i64, bids, asks },
        },
    )
}

impl BitstampOrderBookMessage {
    /// The message as a normalized order book: both sides tagged,
    /// stably sorted (bids descending, asks ascending) and truncated
    /// to the best `NUM_ORDER_BOOK_ENTRIES` levels.
    pub fn into_order_book(&self) -> (r: OrderBook)
        ensures
            r.exchange == ExchangeId::Bitstamp,
            r.bids@ == spec_normalize(self.data.bids@, ExchangeId::Bitstamp, false),
            r.asks@ == spec_normalize(self.data.asks@, ExchangeId::Bitstamp, true),
            r.bids@.len() <= NUM_ORDER_BOOK_ENTRIES,
            r.asks@.len() <= NUM_ORDER_BOOK_ENTRIES,
            entries_wf(self.data.bids@) && entries_wf(self.data.asks@) ==> r.wf(),
    {
        let bids = normalize_levels(&self.data.bids, ExchangeId::Bitstamp, false);
        let asks = normalize_levels(&self.data.asks, ExchangeId::Bitstamp, true);
        proof {
            lemma_sorted_dir_equiv(bids@);
            lemma_sorted_dir_equiv(asks@);
        }
        OrderBook { exchange: ExchangeId::Bitstamp, bids, asks }
    }
}

impl Exchange for Bitstamp {
    type OrderBookMessage = BitstampOrderBookMessage;

    open spec fn spec_exchange_id() -> ExchangeId {
        ExchangeId::Bitstamp
    }

    open spec fn spec_decode_book(s: Seq<u8>) -> Option<(Seq<Level>, Seq<Level>)> {
        match spec_decode_bitstamp(s) {
            Some((ev, ch, ts, bids, asks)) => Some(
                (
                    spec_normalize(bids, ExchangeId::Bitstamp, false),
                    spec_normalize(asks, ExchangeId::Bitstamp, true),
                ),
            ),
            None => None,
        }
    }

    fn exchange_id() -> ExchangeId {
        ExchangeId::Bitstamp
    }

    fn decode_order_book(frame: &[u8]) -> Result<OrderBook, DecodeError> {
        match decode_bitstamp(frame) {
            Ok(m) => Ok(m.into_order_book()),
            Err(e) => Err(e),
        }
    }
}

} // verus!
