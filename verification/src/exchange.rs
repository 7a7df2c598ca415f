//! The adapter contract shared by the exchanges: decode a text frame,
//! normalize it to a common order book, and decide what the read loop
//! does with each kind of inbound frame.

use vstd::prelude::*;

use crate::common::DecodeError;
use crate::common::ExchangeId;
use crate::common::Level;
use crate::common::OrderBook;
use crate::common::OrderBookEntry;
use crate::common::levels_tagged;
use crate::common::levels_wf;
use crate::common::order_book_entries_to_rpc_levels;
use crate::common::spec_levels;
use crate::merger::lemma_take_top_props;
use crate::merger::sorted_dir;
use crate::merger::take_top;
use crate::scan::entries_wf;
use crate::sort::lemma_sort_dir_props;
use crate::sort::sort_dir;
use crate::sort::sort_levels;
use crate::NUM_ORDER_BOOK_ENTRIES;

verus! {

/// One side of a decoded frame after normalization: each entry tagged
/// with its exchange, stably sorted for its side (ties keep wire
/// order), and truncated to the best `NUM_ORDER_BOOK_ENTRIES` levels.
pub open spec fn spec_normalize(
    entries: Seq<OrderBookEntry>,
    exchange: ExchangeId,
    asc: bool,
) -> Seq<Level> {
    take_top(sort_dir(spec_levels(entries, exchange), asc))
}

/// Executable counterpart of [`spec_normalize`].
pub fn normalize_levels(entries: &Vec<OrderBookEntry>, exchange: ExchangeId, asc: bool) -> (r: Vec<
    Level,
>)
    ensures
        r@ == spec_normalize(entries@, exchange, asc),
        r@.len() <= NUM_ORDER_BOOK_ENTRIES,
        sorted_dir(r@, asc),
        levels_tagged(r@, exchange),
        entries_wf(entries@) ==> levels_wf(r@),
{
    let lv = order_book_entries_to_rpc_levels(exchange, entries);
    let mut out = sort_levels(&lv, asc);
    let ghost full = sort_dir(lv@, asc);
    proof {
        lemma_sort_dir_props(lv@, asc);
        lemma_take_top_props(full);
    }
    out.truncate(NUM_ORDER_BOOK_ENTRIES);
    proof {
        assert(out@ =~= take_top(full));
        assert forall|i: int, j: int|
            0 <= i < j < out@.len() implies crate::merger::price_le(out@[i], out@[j], asc) by {
            assert(crate::merger::price_le(full[i], full[j], asc));
        }
        assert forall|i: int| 0 <= i < out@.len() implies (#[trigger] out@[i]).exchange
            == exchange by {
            assert(full.contains(full[i]));
            assert(lv@.contains(full[i]));
            let k = choose|k: int| 0 <= k < lv@.len() && lv@[k] == full[i];
        }
        if entries_wf(entries@) {
            assert forall|i: int| 0 <= i < out@.len() implies (#[trigger] out@[i]).wf() by {
                assert(full.contains(full[i]));
                assert(lv@.contains(full[i]));
                let k = choose|k: int| 0 <= k < lv@.len() && lv@[k] == full[i];
                assert(entries@[k].wf());
            }
        }
    }
    out
}

/// What arrived on an adapter's socket, as plain data.
pub enum FrameEvent {
    /// A text frame holding one message.
    Text(Vec<u8>),
    /// A ping carrying its payload.
    Ping(Vec<u8>),
    Pong,
    Binary,
    /// The server closed the connection.
    Close,
    /// A transport error on a single frame.
    ReadError,
}

/// What the adapter's read loop does with one frame.
pub enum FrameAction {
    /// Hand a normalized order book to the sink.
    Deliver(OrderBook),
    /// Send this payload back (a pong with an empty payload).
    Reply(Vec<u8>),
    /// Skip the frame and keep reading.
    Ignore,
    /// Stop the read loop.
    Terminate,
}

/// The capability set of one exchange: a tag and a frame decoder.
/// Connecting the socket happens outside the library; everything the
/// adapter decides is here.
pub trait Exchange {
    /// The exchange-specific decoded message shape.
    type OrderBookMessage;

    /// The tag this adapter stamps on its books.
    spec fn spec_exchange_id() -> ExchangeId;

    /// What a text frame decodes and normalizes to: both sides as the
    /// merger will see them, or `None` for a frame that does not fit
    /// the exchange's message shape.
    spec fn spec_decode_book(s: Seq<u8>) -> Option<(Seq<Level>, Seq<Level>)>;

    /// Executable counterpart of [`Self::spec_exchange_id`].
    fn exchange_id() -> (r: ExchangeId)
        ensures
            r == Self::spec_exchange_id(),
    ;

    /// Decode one text frame and normalize it to an order book.
    fn decode_order_book(frame: &[u8]) -> (r: Result<OrderBook, DecodeError>)
        ensures
            (r is Ok) <==> Self::spec_decode_book(frame@) is Some,
            match r {
                Ok(ob) => Self::spec_decode_book(frame@) == Some((ob.bids@, ob.asks@))
                    && ob.exchange == Self::spec_exchange_id() && ob.wf() && ob.bids@.len()
                    <= NUM_ORDER_BOOK_ENTRIES && ob.asks@.len() <= NUM_ORDER_BOOK_ENTRIES,
                Err(e) => e == DecodeError::Malformed,
            },
    ;
}

/// One step of the shared read loop: a text frame is decoded and
/// delivered, a failed decode is logged and skipped by the caller, a
/// ping is answered with an empty pong, pongs and binary frames are
/// ignored, a close ends the loop, and a per-frame transport error is
/// skipped.
pub fn handle_frame<E: Exchange>(event: FrameEvent) -> (r: FrameAction)
    ensures
        match event {
            FrameEvent::Text(t) => match E::spec_decode_book(t@) {
                Some((bids, asks)) => r matches FrameAction::Deliver(ob) && ob.bids@ == bids
                    && ob.asks@ == asks && ob.exchange == E::spec_exchange_id() && ob.wf(),
                None => r is Ignore,
            },
            FrameEvent::Ping(_) => r matches FrameAction::Reply(p) && p@ == Seq::<u8>::empty(),
            FrameEvent::Pong => r is Ignore,
            FrameEvent::Binary => r is Ignore,
            FrameEvent::Close => r is Terminate,
            FrameEvent::ReadError => r is Ignore,
        },
{
    match event {
        FrameEvent::Text(t) => match E::decode_order_book(t.as_slice()) {
            Ok(ob) => FrameAction::Deliver(ob),
            Err(_) => FrameAction::Ignore,
        },
        FrameEvent::Ping(_) => FrameAction::Reply(Vec::new()),
        FrameEvent::Pong => FrameAction::Ignore,
        FrameEvent::Binary => FrameAction::Ignore,
        FrameEvent::Close => FrameAction::Terminate,
        FrameEvent::ReadError => FrameAction::Ignore,
    }
}

} // verus!
