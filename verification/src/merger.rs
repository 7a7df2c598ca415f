//! The merger: keeps the freshest order book per exchange and builds the
//! merged top-N summary on every accepted update.

use vstd::prelude::*;

use crate::common::ExchangeId;
use crate::common::Level;
use crate::common::OrderBook;
use crate::common::Summary;
use crate::common::levels_tagged;
use crate::common::levels_wf;
use crate::common::sorted_asc;
use crate::common::sorted_desc;
use crate::NUM_ORDER_BOOK_ENTRIES;

verus! {

/// `x` may stand before `y` on a side: lower price first on the ask
/// side (`asc`), higher price first on the bid side.
pub open spec fn price_le(x: Level, y: Level, asc: bool) -> bool {
    if asc {
        x.price <= y.price
    } else {
        x.price >= y.price
    }
}

/// `s` is ordered for its side.
pub open spec fn sorted_dir(s: Seq<Level>, asc: bool) -> bool {
    forall|i: int, j: int| 0 <= i < j < s.len() ==> price_le(s[i], s[j], asc)
}

/// Stable two-way merge: on a price tie the element of `a` wins, so
/// concatenating per-exchange sides in lexicographic exchange order and
/// merging keeps the earlier exchange first.
pub open spec fn merge_dir(a: Seq<Level>, b: Seq<Level>, asc: bool) -> Seq<Level>
    decreases a.len() + b.len(),
{
    if a.len() == 0 {
        b
    } else if b.len() == 0 {
        a
    } else if price_le(a[0], b[0], asc) {
        seq![a[0]] + merge_dir(a.skip(1), b, asc)
    } else {
        seq![b[0]] + merge_dir(a, b.skip(1), asc)
    }
}

/// The first `NUM_ORDER_BOOK_ENTRIES` elements of a merged side.
pub open spec fn take_top(s: Seq<Level>) -> Seq<Level> {
    if s.len() <= NUM_ORDER_BOOK_ENTRIES {
        s
    } else {
        s.take(NUM_ORDER_BOOK_ENTRIES as int)
    }
}

/// A merge of ordered sides is ordered, has the lengths summed, holds
/// exactly the elements of its inputs, and keeps well-formed levels
/// well-formed.
pub proof fn lemma_merge_dir_props(a: Seq<Level>, b: Seq<Level>, asc: bool)
    requires
        sorted_dir(a, asc),
        sorted_dir(b, asc),
    ensures
        merge_dir(a, b, asc).len() == a.len() + b.len(),
        sorted_dir(merge_dir(a, b, asc), asc),
        forall|x: Level| merge_dir(a, b, asc).contains(x) <==> a.contains(x) || b.contains(x),
        levels_wf(a) && levels_wf(b) ==> levels_wf(merge_dir(a, b, asc)),
    decreases a.len() + b.len(),
{
    let m = merge_dir(a, b, asc);
    if a.len() == 0 || b.len() == 0 {
        // the merge is the other operand verbatim
    } else if price_le(a[0], b[0], asc) {
        let rest = merge_dir(a.skip(1), b, asc);
        assert(sorted_dir(a.skip(1), asc));
        lemma_merge_dir_props(a.skip(1), b, asc);
        assert forall|x: Level| m.contains(x) <==> a.contains(x) || b.contains(x) by {
            if m.contains(x) {
                let i = choose|i: int| 0 <= i < m.len() && m[i] == x;
                if i == 0 {
                    assert(a[0] == x);
                } else {
                    assert(rest[i - 1] == x);
                    assert(rest.contains(x));
                    if a.skip(1).contains(x) {
                        let k = choose|k: int| 0 <= k < a.skip(1).len() && a.skip(1)[k] == x;
                        assert(a[k + 1] == x);
                    }
                }
            }
            if a.contains(x) {
                let k = choose|k: int| 0 <= k < a.len() && a[k] == x;
                if k == 0 {
                    assert(m[0] == x);
                } else {
                    assert(a.skip(1)[k - 1] == x);
                    assert(a.skip(1).contains(x));
                    let j = choose|j: int| 0 <= j < rest.len() && rest[j] == x;
                    assert(m[j + 1] == x);
                }
            }
            if b.contains(x) {
                let j = choose|j: int| 0 <= j < rest.len() && rest[j] == x;
                assert(m[j + 1] == x);
            }
        }
        assert forall|i: int, j: int| 0 <= i < j < m.len() implies price_le(m[i], m[j], asc) by {
            if i == 0 {
                let x = m[j];
                assert(rest[j - 1] == x);
                assert(rest.contains(x));
                if a.skip(1).contains(x) {
                    let k = choose|k: int| 0 <= k < a.skip(1).len() && a.skip(1)[k] == x;
                    assert(a[k + 1] == x);
                    assert(price_le(a[0], a[k + 1], asc));
                } else {
                    let k = choose|k: int| 0 <= k < b.len() && b[k] == x;
                    if k > 0 {
                        assert(price_le(b[0], b[k], asc));
                    }
                }
            } else {
                assert(price_le(rest[i - 1], rest[j - 1], asc));
            }
        }
        if levels_wf(a) && levels_wf(b) {
            assert forall|i: int| 0 <= i < m.len() implies (#[trigger] m[i]).wf() by {
                if i == 0 {
                    assert(a[0].wf());
                } else {
                    assert(rest[i - 1].wf());
                }
            }
        }
    } else {
        let rest = merge_dir(a, b.skip(1), asc);
        assert(sorted_dir(b.skip(1), asc));
        lemma_merge_dir_props(a, b.skip(1), asc);
        assert forall|x: Level| m.contains(x) <==> a.contains(x) || b.contains(x) by {
            if m.contains(x) {
                let i = choose|i: int| 0 <= i < m.len() && m[i] == x;
                if i == 0 {
                    assert(b[0] == x);
                } else {
                    assert(rest[i - 1] == x);
                    assert(rest.contains(x));
                    if b.skip(1).contains(x) {
                        let k = choose|k: int| 0 <= k < b.skip(1).len() && b.skip(1)[k] == x;
                        assert(b[k + 1] == x);
                    }
                }
            }
            if b.contains(x) {
                let k = choose|k: int| 0 <= k < b.len() && b[k] == x;
                if k == 0 {
                    assert(m[0] == x);
                } else {
                    assert(b.skip(1)[k - 1] == x);
                    assert(b.skip(1).contains(x));
                    let j = choose|j: int| 0 <= j < rest.len() && rest[j] == x;
                    assert(m[j + 1] == x);
                }
            }
            if a.contains(x) {
                let j = choose|j: int| 0 <= j < rest.len() && rest[j] == x;
                assert(m[j + 1] == x);
            }
        }
        assert forall|i: int, j: int| 0 <= i < j < m.len() implies price_le(m[i], m[j], asc) by {
            if i == 0 {
                let x = m[j];
                assert(rest[j - 1] == x);
                assert(rest.contains(x));
                if b.skip(1).contains(x) {
                    let k = choose|k: int| 0 <= k < b.skip(1).len() && b.skip(1)[k] == x;
                    assert(b[k + 1] == x);
                    assert(price_le(b[0], b[k + 1], asc));
                } else {
                    let k = choose|k: int| 0 <= k < a.len() && a[k] == x;
                    if k > 0 {
                        assert(price_le(a[0], a[k], asc));
                    }
                }
            } else {
                assert(price_le(rest[i - 1], rest[j - 1], asc));
            }
        }
        if levels_wf(a) && levels_wf(b) {
            assert forall|i: int| 0 <= i < m.len() implies (#[trigger] m[i]).wf() by {
                if i == 0 {
                    assert(b[0].wf());
                } else {
                    assert(rest[i - 1].wf());
                }
            }
        }
    }
}

/// Executable counterpart of [`merge_dir`].
fn merge_levels(a: &Vec<Level>, b: &Vec<Level>, asc: bool) -> (r: Vec<Level>)
    ensures
        r@ == merge_dir(a@, b@, asc),
{
    let mut r: Vec<Level> = Vec::new();
    let mut i: usize = 0;
    let mut j: usize = 0;
    proof {
        assert(a@.skip(0) =~= a@);
        assert(b@.skip(0) =~= b@);
        assert(r@ + merge_dir(a@, b@, asc) =~= merge_dir(a@, b@, asc));
    }
    while i < a.len() || j < b.len()
        invariant
            i <= a@.len(),
            j <= b@.len(),
            merge_dir(a@, b@, asc) == r@ + merge_dir(a@.skip(i as int), b@.skip(j as int), asc),
        decreases a@.len() - i + b@.len() - j,
    {
        let ghost sa = a@.skip(i as int);
        let ghost sb = b@.skip(j as int);
        let take_a = if i < a.len() && j < b.len() {
            if asc {
                a[i].price <= b[j].price
            } else {
                a[i].price >= b[j].price
            }
        } else {
            i < a.len()
        };
        if take_a {
            proof {
                assert(sa[0] == a@[i as int]);
                assert(sa.skip(1) =~= a@.skip(i as int + 1));
                if sb.len() == 0 {
                    assert(merge_dir(sa, sb, asc) == sa);
                    assert(merge_dir(sa.skip(1), sb, asc) == sa.skip(1)) by {
                        if sa.skip(1).len() == 0 {
                            assert(merge_dir(sa.skip(1), sb, asc) =~= sa.skip(1));
                        }
                    }
                    assert(sa =~= seq![sa[0]] + merge_dir(sa.skip(1), sb, asc));
                }
                assert(merge_dir(sa, sb, asc) == seq![a@[i as int]] + merge_dir(
                    a@.skip(i as int + 1),
                    sb,
                    asc,
                ));
                assert(r@ + merge_dir(sa, sb, asc) =~= r@.push(a@[i as int]) + merge_dir(
                    a@.skip(i as int + 1),
                    sb,
                    asc,
                ));
            }
            r.push(a[i]);
            i = i + 1;
        } else {
            proof {
                assert(sb[0] == b@[j as int]);
                assert(sb.skip(1) =~= b@.skip(j as int + 1));
                if sa.len() == 0 {
                    assert(merge_dir(sa, sb, asc) == sb);
                    assert(merge_dir(sa, sb.skip(1), asc) == sb.skip(1)) by {
                        assert(sa.len() == 0);
                    }
                    assert(sb =~= seq![sb[0]] + merge_dir(sa, sb.skip(1), asc));
                }
                assert(merge_dir(sa, sb, asc) == seq![b@[j as int]] + merge_dir(
                    sa,
                    b@.skip(j as int + 1),
                    asc,
                ));
                assert(r@ + merge_dir(sa, sb, asc) =~= r@.push(b@[j as int]) + merge_dir(
                    sa,
                    b@.skip(j as int + 1),
                    asc,
                ));
            }
            r.push(b[j]);
            j = j + 1;
        }
    }
    proof {
        assert(a@.skip(i as int).len() == 0);
        assert(merge_dir(a@.skip(i as int), b@.skip(j as int), asc) == b@.skip(j as int));
        assert(r@ + b@.skip(j as int) =~= r@);
    }
    r
}

/// Maintains the up-to-date order book of each exchange.
pub struct OrderBookMerger {
    pub binance_book: Option<OrderBook>,
    pub bitstamp_book: Option<OrderBook>,
}

impl OrderBookMerger {
    /// The stored book of `ex`, if that exchange has produced a frame.
    pub open spec fn spec_book(self, ex: ExchangeId) -> Option<OrderBook> {
        match ex {
            ExchangeId::Binance => self.binance_book,
            ExchangeId::Bitstamp => self.bitstamp_book,
        }
    }

    pub open spec fn has_book(self, ex: ExchangeId) -> bool {
        self.spec_book(ex) is Some
    }

    /// The stored bid side of `ex`; empty while no frame has arrived.
    pub open spec fn bids_of(self, ex: ExchangeId) -> Seq<Level> {
        match self.spec_book(ex) {
            Some(b) => b.bids@,
            None => Seq::empty(),
        }
    }

    /// The stored ask side of `ex`; empty while no frame has arrived.
    pub open spec fn asks_of(self, ex: ExchangeId) -> Seq<Level> {
        match self.spec_book(ex) {
            Some(b) => b.asks@,
            None => Seq::empty(),
        }
    }

    /// Every stored book is well-formed, tagged with its key, and holds
    /// at most `NUM_ORDER_BOOK_ENTRIES` levels per side.
    pub open spec fn inv(self) -> bool {
        forall|ex: ExchangeId|
            match #[trigger] self.spec_book(ex) {
                Some(b) => b.wf() && b.exchange == ex && b.bids@.len() <= NUM_ORDER_BOOK_ENTRIES
                    && b.asks@.len() <= NUM_ORDER_BOOK_ENTRIES,
                None => true,
            }
    }

    /// The merged bid side: both stored bid sides, best price first,
    /// the lexicographically earlier exchange winning ties, cut to N.
    pub open spec fn merged_bids(self) -> Seq<Level> {
        take_top(merge_dir(self.bids_of(ExchangeId::Binance), self.bids_of(ExchangeId::Bitstamp), false))
    }

    /// The merged ask side, lowest price first.
    pub open spec fn merged_asks(self) -> Seq<Level> {
        take_top(merge_dir(self.asks_of(ExchangeId::Binance), self.asks_of(ExchangeId::Bitstamp), true))
    }

    /// What the current state publishes: `None` while either merged side
    /// is empty, otherwise the spread (best ask minus best bid, exact and
    /// possibly negative) and the two merged sides.
    pub open spec fn spec_summary(self) -> Option<(int, Seq<Level>, Seq<Level>)> {
        let bids = self.merged_bids();
        let asks = self.merged_asks();
        if bids.len() > 0 && asks.len() > 0 {
            Some((asks[0].price - bids[0].price, bids, asks))
        } else {
            None
        }
    }
}

/// Index-wise facts about [`take_top`].
pub proof fn lemma_take_top_props(s: Seq<Level>)
    ensures
        take_top(s).len() == if s.len() <= NUM_ORDER_BOOK_ENTRIES {
            s.len()
        } else {
            NUM_ORDER_BOOK_ENTRIES as nat
        },
        forall|i: int| 0 <= i < take_top(s).len() ==> take_top(s)[i] == s[i],
        forall|x: Level| take_top(s).contains(x) ==> s.contains(x),
{
    assert forall|x: Level| take_top(s).contains(x) implies s.contains(x) by {
        let i = choose|i: int| 0 <= i < take_top(s).len() && take_top(s)[i] == x;
        assert(s[i] == x);
    }
}

/// Ordering words of the two sides, written once for both directions.
pub proof fn lemma_sorted_dir_equiv(s: Seq<Level>)
    ensures
        sorted_dir(s, false) <==> sorted_desc(s),
        sorted_dir(s, true) <==> sorted_asc(s),
{
    if sorted_dir(s, false) {
        assert forall|i: int, j: int| 0 <= i < j < s.len() implies s[i].price >= s[j].price by {
            assert(price_le(s[i], s[j], false));
        }
    }
    if sorted_desc(s) {
        assert forall|i: int, j: int| 0 <= i < j < s.len() implies price_le(s[i], s[j], false) by {
            assert(s[i].price >= s[j].price);
        }
    }
    if sorted_dir(s, true) {
        assert forall|i: int, j: int| 0 <= i < j < s.len() implies s[i].price <= s[j].price by {
            assert(price_le(s[i], s[j], true));
        }
    }
    if sorted_asc(s) {
        assert forall|i: int, j: int| 0 <= i < j < s.len() implies price_le(s[i], s[j], true) by {
            assert(s[i].price <= s[j].price);
        }
    }
}

impl OrderBookMerger {
    /// One merge cycle: install the (defensively truncated) book as the
    /// freshest state of its exchange and rebuild the merged view.
    ///
    /// Returns the summary to publish, or `None` while one of the merged
    /// sides is still empty. The summary is exactly what
    /// [`Self::spec_summary`] says of the new state: the spread is the
    /// best ask minus the best bid — negative for a crossed book, never
    /// clamped — and each side holds the best `NUM_ORDER_BOOK_ENTRIES`
    /// levels of the freshest books, the lexicographically earlier
    /// exchange winning price ties.
    pub fn process(&mut self, order_book: OrderBook) -> (r: Option<Summary>)
        requires
            old(self).inv(),
            order_book.wf(),
        ensures
            final(self).inv(),
            final(self).has_book(order_book.exchange),
            final(self).bids_of(order_book.exchange) == take_top(order_book.bids@),
            final(self).asks_of(order_book.exchange) == take_top(order_book.asks@),
            forall|ex: ExchangeId|
                ex != order_book.exchange ==> final(self).spec_book(ex) == old(self).spec_book(ex),
            match r {
                Some(s) => final(self).spec_summary() == Some(
                    ((s.spread as int), s.bids@, s.asks@),
                ),
                None => final(self).spec_summary() is None,
            },
            (r is Some) <==> ({
                let m = *final(self);
                m.bids_of(ExchangeId::Binance).len() + m.bids_of(ExchangeId::Bitstamp).len() > 0
                    && m.asks_of(ExchangeId::Binance).len() + m.asks_of(ExchangeId::Bitstamp).len()
                    > 0
            }),
    {
        let ghost prior = *old(self);
        let mut ob = order_book;
        // Defensive: adapters already truncate, but nothing here depends on it.
        ob.bids.truncate(NUM_ORDER_BOOK_ENTRIES);
        ob.asks.truncate(NUM_ORDER_BOOK_ENTRIES);
        proof {
            assert(ob.bids@ =~= take_top(order_book.bids@));
            assert(ob.asks@ =~= take_top(order_book.asks@));
            lemma_take_top_props(order_book.bids@);
            lemma_take_top_props(order_book.asks@);
            assert(ob.wf());
        }
        let ghost stored = ob;
        match ob.exchange {
            ExchangeId::Binance => {
                self.binance_book = Some(ob);
            },
            ExchangeId::Bitstamp => {
                self.bitstamp_book = Some(ob);
            },
        }
        proof {
            assert(self.spec_book(stored.exchange) == Some(stored));
            assert forall|ex: ExchangeId|
                match #[trigger] self.spec_book(ex) {
                    Some(b) => b.wf() && b.exchange == ex && b.bids@.len()
                        <= NUM_ORDER_BOOK_ENTRIES && b.asks@.len() <= NUM_ORDER_BOOK_ENTRIES,
                    None => true,
                } by {
                if ex != stored.exchange {
                    assert(self.spec_book(ex) == prior.spec_book(ex));
                }
            }
        }
        let empty: Vec<Level> = Vec::new();
        let bids_binance: &Vec<Level> = match &self.binance_book {
            Some(book) => &book.bids,
            None => &empty,
        };
        let bids_bitstamp: &Vec<Level> = match &self.bitstamp_book {
            Some(book) => &book.bids,
            None => &empty,
        };
        let asks_binance: &Vec<Level> = match &self.binance_book {
            Some(book) => &book.asks,
            None => &empty,
        };
        let asks_bitstamp: &Vec<Level> = match &self.bitstamp_book {
            Some(book) => &book.asks,
            None => &empty,
        };
        proof {
            assert(bids_binance@ == self.bids_of(ExchangeId::Binance));
            assert(bids_bitstamp@ == self.bids_of(ExchangeId::Bitstamp));
            assert(asks_binance@ == self.asks_of(ExchangeId::Binance));
            assert(asks_bitstamp@ == self.asks_of(ExchangeId::Bitstamp));
        }
        let mut bids = merge_levels(bids_binance, bids_bitstamp, false);
        let mut asks = merge_levels(asks_binance, asks_bitstamp, true);
        let ghost bids_full = merge_dir(
            self.bids_of(ExchangeId::Binance),
            self.bids_of(ExchangeId::Bitstamp),
            false,
        );
        let ghost asks_full = merge_dir(
            self.asks_of(ExchangeId::Binance),
            self.asks_of(ExchangeId::Bitstamp),
            true,
        );
        proof {
            lemma_sorted_dir_equiv(self.bids_of(ExchangeId::Binance));
            lemma_sorted_dir_equiv(self.bids_of(ExchangeId::Bitstamp));
            lemma_sorted_dir_equiv(self.asks_of(ExchangeId::Binance));
            lemma_sorted_dir_equiv(self.asks_of(ExchangeId::Bitstamp));
            lemma_merge_dir_props(
                self.bids_of(ExchangeId::Binance),
                self.bids_of(ExchangeId::Bitstamp),
                false,
            );
            lemma_merge_dir_props(
                self.asks_of(ExchangeId::Binance),
                self.asks_of(ExchangeId::Bitstamp),
                true,
            );
            lemma_take_top_props(bids_full);
            lemma_take_top_props(asks_full);
        }
        bids.truncate(NUM_ORDER_BOOK_ENTRIES);
        asks.truncate(NUM_ORDER_BOOK_ENTRIES);
        proof {
            assert(bids@ =~= take_top(bids_full));
            assert(asks@ =~= take_top(asks_full));
            assert(bids@ == self.merged_bids());
            assert(asks@ == self.merged_asks());
        }
        if bids.len() > 0 && asks.len() > 0 {
            proof {
                assert(asks_full[0].wf());
                assert(bids_full[0].wf());
            }
            let spread = (asks[0].price as i64) - (bids[0].price as i64);
            Some(Summary { spread, bids, asks })
        } else {
            None
        }
    }
}

/// Law: every published summary has at most `NUM_ORDER_BOOK_ENTRIES`
/// levels per side, bids non-increasing and asks non-decreasing by
/// price, its spread is exactly the best ask price minus the best bid
/// price, and every level comes from a book currently held by the
/// merger.
pub proof fn lemma_summary_invariants(m: OrderBookMerger)
    requires
        m.inv(),
        m.spec_summary() is Some,
    ensures
        ({
            let (spread, bids, asks) = m.spec_summary()->Some_0;
            &&& bids.len() <= NUM_ORDER_BOOK_ENTRIES
            &&& asks.len() <= NUM_ORDER_BOOK_ENTRIES
            &&& sorted_desc(bids)
            &&& sorted_asc(asks)
            &&& spread == asks[0].price - bids[0].price
            &&& forall|x: Level|
                bids.contains(x) ==> m.bids_of(ExchangeId::Binance).contains(x) || m.bids_of(
                    ExchangeId::Bitstamp,
                ).contains(x)
            &&& forall|x: Level|
                asks.contains(x) ==> m.asks_of(ExchangeId::Binance).contains(x) || m.asks_of(
                    ExchangeId::Bitstamp,
                ).contains(x)
        }),
{
    let bids_full = merge_dir(
        m.bids_of(ExchangeId::Binance),
        m.bids_of(ExchangeId::Bitstamp),
        false,
    );
    let asks_full = merge_dir(m.asks_of(ExchangeId::Binance), m.asks_of(ExchangeId::Bitstamp), true);
    lemma_sorted_dir_equiv(m.bids_of(ExchangeId::Binance));
    lemma_sorted_dir_equiv(m.bids_of(ExchangeId::Bitstamp));
    lemma_sorted_dir_equiv(m.asks_of(ExchangeId::Binance));
    lemma_sorted_dir_equiv(m.asks_of(ExchangeId::Bitstamp));
    lemma_merge_dir_props(m.bids_of(ExchangeId::Binance), m.bids_of(ExchangeId::Bitstamp), false);
    lemma_merge_dir_props(m.asks_of(ExchangeId::Binance), m.asks_of(ExchangeId::Bitstamp), true);
    lemma_take_top_props(bids_full);
    lemma_take_top_props(asks_full);
    let bids = take_top(bids_full);
    let asks = take_top(asks_full);
    assert forall|i: int, j: int| 0 <= i < j < bids.len() implies bids[i].price >= bids[j].price by {
        assert(price_le(bids_full[i], bids_full[j], false));
    }
    assert forall|i: int, j: int| 0 <= i < j < asks.len() implies asks[i].price <= asks[j].price by {
        assert(price_le(asks_full[i], asks_full[j], true));
    }
    lemma_sorted_dir_equiv(bids);
    lemma_sorted_dir_equiv(asks);
}

/// Law: the summary is a function of the stored sides alone — two
/// merger states holding the same books publish the same summary.
pub proof fn lemma_summary_depends_only_on_books(m1: OrderBookMerger, m2: OrderBookMerger)
    requires
        forall|ex: ExchangeId| #[trigger] m1.bids_of(ex) == m2.bids_of(ex),
        forall|ex: ExchangeId| #[trigger] m1.asks_of(ex) == m2.asks_of(ex),
    ensures
        m1.spec_summary() == m2.spec_summary(),
{
    assert(m1.bids_of(ExchangeId::Binance) == m2.bids_of(ExchangeId::Binance));
    assert(m1.bids_of(ExchangeId::Bitstamp) == m2.bids_of(ExchangeId::Bitstamp));
    assert(m1.asks_of(ExchangeId::Binance) == m2.asks_of(ExchangeId::Binance));
    assert(m1.asks_of(ExchangeId::Bitstamp) == m2.asks_of(ExchangeId::Bitstamp));
}

/// Law: feeding the same order book twice is idempotent. `m1` is any
/// state whose book for `ob.exchange` is the truncated `ob` — such as
/// the state right after the first `process(ob)` — and `m2` the state
/// after processing `ob` once more from `m1`; both states publish
/// summaries with identical content.
pub proof fn lemma_process_idempotent(m1: OrderBookMerger, m2: OrderBookMerger, ob: OrderBook)
    requires
        m1.bids_of(ob.exchange) == take_top(ob.bids@),
        m1.asks_of(ob.exchange) == take_top(ob.asks@),
        m2.bids_of(ob.exchange) == take_top(ob.bids@),
        m2.asks_of(ob.exchange) == take_top(ob.asks@),
        forall|ex: ExchangeId| ex != ob.exchange ==> #[trigger] m2.spec_book(ex) == m1.spec_book(ex),
    ensures
        m1.spec_summary() == m2.spec_summary(),
{
    assert forall|ex: ExchangeId| #[trigger] m1.bids_of(ex) == m2.bids_of(ex) by {
        if ex != ob.exchange {
            assert(m2.spec_book(ex) == m1.spec_book(ex));
        }
    }
    assert forall|ex: ExchangeId| #[trigger] m1.asks_of(ex) == m2.asks_of(ex) by {
        if ex != ob.exchange {
            assert(m2.spec_book(ex) == m1.spec_book(ex));
        }
    }
    lemma_summary_depends_only_on_books(m1, m2);
}

/// Law: while a single exchange is active, summaries hold only that
/// exchange's levels.
pub proof fn lemma_single_exchange(m: OrderBookMerger, ex: ExchangeId)
    requires
        m.inv(),
        forall|e: ExchangeId| e != ex ==> !(#[trigger] m.has_book(e)),
    ensures
        match m.spec_summary() {
            Some((spread, bids, asks)) => levels_tagged(bids, ex) && levels_tagged(asks, ex),
            None => true,
        },
{
    if m.spec_summary() is Some {
        let bids_full = merge_dir(
            m.bids_of(ExchangeId::Binance),
            m.bids_of(ExchangeId::Bitstamp),
            false,
        );
        let asks_full = merge_dir(
            m.asks_of(ExchangeId::Binance),
            m.asks_of(ExchangeId::Bitstamp),
            true,
        );
        assert forall|e: ExchangeId| levels_tagged(m.bids_of(e), ex) && levels_tagged(
            m.asks_of(e),
            ex,
        ) by {
            if e == ex {
                match m.spec_book(e) {
                    Some(b) => {
                        assert(b.wf() && b.exchange == e);
                    },
                    None => {},
                }
            } else {
                assert(!m.has_book(e));
            }
        }
        lemma_sorted_dir_equiv(m.bids_of(ExchangeId::Binance));
        lemma_sorted_dir_equiv(m.bids_of(ExchangeId::Bitstamp));
        lemma_sorted_dir_equiv(m.asks_of(ExchangeId::Binance));
        lemma_sorted_dir_equiv(m.asks_of(ExchangeId::Bitstamp));
        lemma_merge_dir_props(
            m.bids_of(ExchangeId::Binance),
            m.bids_of(ExchangeId::Bitstamp),
            false,
        );
        lemma_merge_dir_props(
            m.asks_of(ExchangeId::Binance),
            m.asks_of(ExchangeId::Bitstamp),
            true,
        );
        lemma_take_top_props(bids_full);
        lemma_take_top_props(asks_full);
        let bids = take_top(bids_full);
        let asks = take_top(asks_full);
        assert forall|i: int| 0 <= i < bids.len() implies (#[trigger] bids[i]).exchange == ex by {
            assert(bids_full.contains(bids_full[i]));
            let x = bids_full[i];
            if m.bids_of(ExchangeId::Binance).contains(x) {
                let k = choose|k: int|
                    0 <= k < m.bids_of(ExchangeId::Binance).len() && m.bids_of(
                        ExchangeId::Binance,
                    )[k] == x;
                assert(levels_tagged(m.bids_of(ExchangeId::Binance), ex));
            } else {
                let k = choose|k: int|
                    0 <= k < m.bids_of(ExchangeId::Bitstamp).len() && m.bids_of(
                        ExchangeId::Bitstamp,
                    )[k] == x;
                assert(levels_tagged(m.bids_of(ExchangeId::Bitstamp), ex));
            }
        }
        assert forall|i: int| 0 <= i < asks.len() implies (#[trigger] asks[i]).exchange == ex by {
            assert(asks_full.contains(asks_full[i]));
            let x = asks_full[i];
            if m.asks_of(ExchangeId::Binance).contains(x) {
                let k = choose|k: int|
                    0 <= k < m.asks_of(ExchangeId::Binance).len() && m.asks_of(
                        ExchangeId::Binance,
                    )[k] == x;
                assert(levels_tagged(m.asks_of(ExchangeId::Binance), ex));
            } else {
                let k = choose|k: int|
                    0 <= k < m.asks_of(ExchangeId::Bitstamp).len() && m.asks_of(
                        ExchangeId::Bitstamp,
                    )[k] == x;
                assert(levels_tagged(m.asks_of(ExchangeId::Bitstamp), ex));
            }
        }
    }
}

/// Law: truncating an ordered side drops only the lowest-priority
/// levels — every level kept stands no worse than any level cut off
/// (the lowest bids, the highest asks).
pub proof fn lemma_truncation_drops_worst(s: Seq<Level>, asc: bool)
    requires
        sorted_dir(s, asc),
    ensures
        forall|i: int, j: int|
            0 <= i < take_top(s).len() && take_top(s).len() <= j < s.len() ==> price_le(
                take_top(s)[i],
                s[j],
                asc,
            ),
{
    lemma_take_top_props(s);
    assert forall|i: int, j: int|
        0 <= i < take_top(s).len() && take_top(s).len() <= j < s.len() implies price_le(
        take_top(s)[i],
        s[j],
        asc,
    ) by {
        assert(take_top(s)[i] == s[i]);
        assert(price_le(s[i], s[j], asc));
    }
}

/// Law: a summary is published exactly when some stored book has a
/// non-empty bid side and some stored book has a non-empty ask side.
pub proof fn lemma_publish_condition(m: OrderBookMerger)
    requires
        m.inv(),
    ensures
        m.spec_summary() is Some <==> (m.bids_of(ExchangeId::Binance).len() + m.bids_of(
            ExchangeId::Bitstamp,
        ).len() > 0 && m.asks_of(ExchangeId::Binance).len() + m.asks_of(
            ExchangeId::Bitstamp,
        ).len() > 0),
{
    lemma_sorted_dir_equiv(m.bids_of(ExchangeId::Binance));
    lemma_sorted_dir_equiv(m.bids_of(ExchangeId::Bitstamp));
    lemma_sorted_dir_equiv(m.asks_of(ExchangeId::Binance));
    lemma_sorted_dir_equiv(m.asks_of(ExchangeId::Bitstamp));
    lemma_merge_dir_props(m.bids_of(ExchangeId::Binance), m.bids_of(ExchangeId::Bitstamp), false);
    lemma_merge_dir_props(m.asks_of(ExchangeId::Binance), m.asks_of(ExchangeId::Bitstamp), true);
    lemma_take_top_props(
        merge_dir(m.bids_of(ExchangeId::Binance), m.bids_of(ExchangeId::Bitstamp), false),
    );
    lemma_take_top_props(
        merge_dir(m.asks_of(ExchangeId::Binance), m.asks_of(ExchangeId::Bitstamp), true),
    );
}

impl Default for OrderBookMerger {
    /// A merger that has seen no frame yet.
    fn default() -> (r: Self)
        ensures
            !r.has_book(ExchangeId::Binance),
            !r.has_book(ExchangeId::Bitstamp),
            r.inv(),
    {
        let r = OrderBookMerger { binance_book: None, bitstamp_book: None };
        proof {
            assert forall|ex: ExchangeId| r.spec_book(ex) is None by {}
        }
        r
    }
}

} // verus!
