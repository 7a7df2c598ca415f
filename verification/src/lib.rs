//! Verified core of a streaming order-book merger.
//!
//! Depth snapshots from two exchanges are decoded from their wire frames,
//! normalized into a common fixed-point representation, merged into a
//! top-N view with the spread between the best ask and the best bid, and
//! handed to a broadcast stage. Everything that computes or decides lives
//! here; connecting sockets and pumping channels is left to the embedding
//! binary.

use vstd::prelude::*;

mod binance;
mod bitstamp;
mod common;
mod config;
mod decimal;
mod exchange;
mod merger;
mod scan;
mod session;
mod sort;

pub use binance::Binance;
pub use binance::BinanceOrderBookMessage;
pub use bitstamp::Bitstamp;
pub use bitstamp::BitstampOrderBookMessage;
pub use bitstamp::BitstampOrderBookMessageData;
pub use common::DecodeError;
pub use common::ExchangeId;
pub use exchange::Exchange;
pub use exchange::FrameAction;
pub use exchange::FrameEvent;
pub use merger::OrderBookMerger;
pub use common::Level;
pub use common::OrderBook;
pub use common::OrderBookEntry;
pub use common::Summary;
pub use common::order_book_entries_to_rpc_levels;
pub use config::Config;
pub use config::ConfigError;
pub use config::LogLevel;
pub use scan::deserialize_order_book_entries;
pub use session::DeliveryOutcome;
pub use session::ForwarderAction;
pub use session::forwarder_decision;
pub use binance::decode_binance;
pub use bitstamp::decode_bitstamp;
pub use bitstamp::is_subscription_ack;
pub use bitstamp::subscription_request;
pub use config::parse_log_level;
pub use config::parse_port;
pub use config::to_ascii_lowercase;
pub use decimal::parse_decimal;
pub use decimal::parse_unsigned;
pub use exchange::handle_frame;
pub use exchange::normalize_levels;

verus! {

/// The number of order book entries to keep for processing, and the
/// maximum number of levels per side in a published summary.
pub const NUM_ORDER_BOOK_ENTRIES: usize = 10;

} // verus!
