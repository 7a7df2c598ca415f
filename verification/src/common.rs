//! Common order-book data model.
//!
//! Prices and amounts are fixed-point decimals: a value parsed from the
//! wire text `"0.07642400"` is held as the integer number of 1e-8 units,
//! here `7642400`. Subtraction and comparison on this representation are
//! exact, which is what the merger's spread and ordering rules need.

use vstd::prelude::*;

verus! {

/// Fixed-point scale: one price unit is 1e-8 of the quoted currency.
pub const PRICE_SCALE: u64 = 100_000_000;

/// Exclusive upper bound on any decoded price or amount.
///
/// The wire grammar admits at most ten integer digits and eight
/// fractional digits, so every decoded value is below 1e18, and the
/// spread of two such prices always fits an `i64`.
pub const PRICE_MAX: u64 = 1_000_000_000_000_000_000;

/// The exchanges this service merges. Listed in lexicographic order of
/// their names; the merger concatenates per-exchange books in this order.
#[derive(Clone, Copy, Debug, PartialEq, Eq, Structural)]
pub enum ExchangeId {
    Binance,
    Bitstamp,
}

impl ExchangeId {
    /// The exchange's short ASCII name, as it appears on the wire.
    pub open spec fn spec_name(self) -> Seq<char> {
        match self {
            ExchangeId::Binance => "binance"@,
            ExchangeId::Bitstamp => "bitstamp"@,
        }
    }

    /// Executable counterpart of [`Self::spec_name`].
    pub fn name(self) -> (r: &'static str)
        ensures
            r@ == self.spec_name(),
    {
        match self {
            ExchangeId::Binance => "binance",
            ExchangeId::Bitstamp => "bitstamp",
        }
    }
}

/// One price level as decoded from an exchange frame, before it is
/// tagged with its exchange.
#[derive(Clone, Copy, Debug, PartialEq, Eq, Structural)]
pub struct OrderBookEntry {
    pub price: u64,
    pub quantity: u64,
}

impl OrderBookEntry {
    /// Decoded values stay below [`PRICE_MAX`].
    pub open spec fn wf(self) -> bool {
        self.price < PRICE_MAX && self.quantity < PRICE_MAX
    }
}

/// One price level of a merged view, tagged with its originating exchange.
#[derive(Clone, Copy, Debug, PartialEq, Eq, Structural)]
pub struct Level {
    pub exchange: ExchangeId,
    pub price: u64,
    pub amount: u64,
}

impl Level {
    /// Decoded values stay below [`PRICE_MAX`].
    pub open spec fn wf(self) -> bool {
        self.price < PRICE_MAX && self.amount < PRICE_MAX
    }
}

/// All levels of `s` are in range.
pub open spec fn levels_wf(s: Seq<Level>) -> bool {
    forall|i: int| 0 <= i < s.len() ==> (#[trigger] s[i]).wf()
}

/// All levels of `s` carry the exchange tag `ex`.
pub open spec fn levels_tagged(s: Seq<Level>, ex: ExchangeId) -> bool {
    forall|i: int| 0 <= i < s.len() ==> (#[trigger] s[i]).exchange == ex
}

/// Prices are non-increasing: the best (highest) bid comes first.
pub open spec fn sorted_desc(s: Seq<Level>) -> bool {
    forall|i: int, j: int| 0 <= i < j < s.len() ==> s[i].price >= s[j].price
}

/// Prices are non-decreasing: the best (lowest) ask comes first.
pub open spec fn sorted_asc(s: Seq<Level>) -> bool {
    forall|i: int, j: int| 0 <= i < j < s.len() ==> s[i].price <= s[j].price
}

/// A snapshot of one exchange's visible depth.
#[derive(Clone, Debug)]
pub struct OrderBook {
    pub exchange: ExchangeId,
    pub bids: Vec<Level>,
    pub asks: Vec<Level>,
}

impl OrderBook {
    /// The order-book invariant: every level is tagged with the book's
    /// exchange and in range, bids are sorted by price descending and
    /// asks ascending.
    pub open spec fn wf(self) -> bool {
        &&& levels_tagged(self.bids@, self.exchange)
        &&& levels_tagged(self.asks@, self.exchange)
        &&& levels_wf(self.bids@)
        &&& levels_wf(self.asks@)
        &&& sorted_desc(self.bids@)
        &&& sorted_asc(self.asks@)
    }

    /// Runtime check of [`Self::wf`], for callers outside verified code.
    pub fn is_well_formed(&self) -> (r: bool)
        ensures
            r == self.wf(),
    {
        let ok_b = side_tagged_sorted_desc(&self.bids, self.exchange);
        let ok_a = side_tagged_sorted_asc(&self.asks, self.exchange);
        ok_b && ok_a
    }
}

fn side_tagged_sorted_desc(s: &Vec<Level>, ex: ExchangeId) -> (r: bool)
    ensures
        r == (levels_tagged(s@, ex) && levels_wf(s@) && sorted_desc(s@)),
{
    let mut i: usize = 0;
    let mut ok: bool = true;
    while i < s.len()
        invariant
            i <= s@.len(),
            ok == {
                &&& (forall|k: int| 0 <= k < i ==> (#[trigger] s@[k]).exchange == ex)
                &&& (forall|k: int| 0 <= k < i ==> (#[trigger] s@[k]).wf())
                &&& (forall|k: int, j: int| 0 <= k < j < i ==> s@[k].price >= s@[j].price)
            },
        decreases s@.len() - i,
    {
        let l = s[i];
        let in_order = if i == 0 {
            true
        } else {
            s[i - 1].price >= l.price
        };
        ok = ok && l.exchange == ex && l.price < PRICE_MAX && l.amount < PRICE_MAX && in_order;
        proof {
            if in_order && (forall|k: int, j: int| 0 <= k < j < i ==> s@[k].price >= s@[j].price) {
                assert forall|k: int, j: int| 0 <= k < j < i + 1 implies s@[k].price >= s@[j].price by {
                    if j == i && k < i - 1 {
                        assert(s@[k].price >= s@[i - 1].price);
                    }
                }
            }
        }
        i = i + 1;
    }
    ok
}

fn side_tagged_sorted_asc(s: &Vec<Level>, ex: ExchangeId) -> (r: bool)
    ensures
        r == (levels_tagged(s@, ex) && levels_wf(s@) && sorted_asc(s@)),
{
    let mut i: usize = 0;
    let mut ok: bool = true;
    while i < s.len()
        invariant
            i <= s@.len(),
            ok == {
                &&& (forall|k: int| 0 <= k < i ==> (#[trigger] s@[k]).exchange == ex)
                &&& (forall|k: int| 0 <= k < i ==> (#[trigger] s@[k]).wf())
                &&& (forall|k: int, j: int| 0 <= k < j < i ==> s@[k].price <= s@[j].price)
            },
        decreases s@.len() - i,
    {
        let l = s[i];
        let in_order = if i == 0 {
            true
        } else {
            s[i - 1].price <= l.price
        };
        ok = ok && l.exchange == ex && l.price < PRICE_MAX && l.amount < PRICE_MAX && in_order;
        proof {
            if in_order && (forall|k: int, j: int| 0 <= k < j < i ==> s@[k].price <= s@[j].price) {
                assert forall|k: int, j: int| 0 <= k < j < i + 1 implies s@[k].price <= s@[j].price by {
                    if j == i && k < i - 1 {
                        assert(s@[k].price <= s@[i - 1].price);
                    }
                }
            }
        }
        i = i + 1;
    }
    ok
}

/// The merged top-of-book view that is published to subscribers.
///
/// `spread` is the best ask price minus the best bid price, in 1e-8
/// units; it is negative when the merged book is crossed.
#[derive(Clone, Debug)]
pub struct Summary {
    pub spread: i64,
    pub bids: Vec<Level>,
    pub asks: Vec<Level>,
}

/// The levels of a decoded side, tagged with `exchange`, in wire order.
pub open spec fn spec_levels(entries: Seq<OrderBookEntry>, exchange: ExchangeId) -> Seq<Level> {
    Seq::new(
        entries.len(),
        |i: int|
            (Level { exchange, price: entries[i].price, amount: entries[i].quantity }),
    )
}

/// Tag each decoded entry with its exchange, preserving order.
pub fn order_book_entries_to_rpc_levels(exchange: ExchangeId, entries: &Vec<OrderBookEntry>) -> (r:
    Vec<Level>)
    ensures
        r@ == spec_levels(entries@, exchange),
        r@.len() == entries@.len(),
        forall|i: int|
            0 <= i < entries@.len() ==> r@[i] == (Level {
                exchange,
                price: entries@[i].price,
                amount: entries@[i].quantity,
            }),
{
    let mut r: Vec<Level> = Vec::new();
    let mut i: usize = 0;
    while i < entries.len()
        invariant
            i <= entries@.len(),
            r@.len() == i,
            forall|k: int|
                0 <= k < i ==> r@[k] == (Level {
                    exchange,
                    price: entries@[k].price,
                    amount: entries@[k].quantity,
                }),
        decreases entries@.len() - i,
    {
        let e = entries[i];
        r.push(Level { exchange, price: e.price, amount: e.quantity });
        i = i + 1;
    }
    proof {
        assert(r@ =~= spec_levels(entries@, exchange));
    }
    r
}

/// Why a frame was rejected by a decoder.
#[derive(Clone, Copy, Debug, PartialEq, Eq, Structural)]
pub enum DecodeError {
    /// The frame does not fit the exchange's documented message shape.
    Malformed,
}

} // verus!
