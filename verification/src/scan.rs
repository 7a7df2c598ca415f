//! Byte-level scanning of the exchanges' wire frames.
//!
//! The feeds emit compact JSON whose relevant parts are a handful of
//! named fields holding strings, digit runs, or arrays of
//! `["price","quantity"]` pairs. The functions here locate a field by
//! its key and read the token after it; each executable scanner returns
//! exactly what its specification counterpart says.

use vstd::prelude::*;
use vstd::slice::slice_subrange;

use crate::common::DecodeError;
use crate::common::OrderBookEntry;
use crate::decimal::dec_val;
use crate::decimal::dec_wf;
use crate::decimal::is_digit;
use crate::decimal::parse_decimal;

verus! {

/// ASCII `'"'`.
pub const QUOTE: u8 = 34;

/// ASCII `','`.
pub const COMMA: u8 = 44;

/// ASCII `'['`.
pub const LBRACKET: u8 = 91;

/// ASCII `']'`.
pub const RBRACKET: u8 = 93;

/// `pat` occurs in `s` at position `i`.
pub open spec fn is_match(s: Seq<u8>, pat: Seq<u8>, i: int) -> bool {
    0 <= i && i + pat.len() <= s.len() && s.subrange(i, i + pat.len()) == pat
}

/// The first occurrence of `pat` in `s` at or after `i`.
pub open spec fn find_from(s: Seq<u8>, pat: Seq<u8>, i: int) -> Option<int>
    decreases s.len() - i,
        when 0 <= i && pat.len() >= 1
{
    if i + pat.len() > s.len() {
        None
    } else if is_match(s, pat, i) {
        Some(i)
    } else {
        find_from(s, pat, i + 1)
    }
}

pub proof fn lemma_find_from_bounds(s: Seq<u8>, pat: Seq<u8>, i: int)
    requires
        0 <= i,
        pat.len() >= 1,
    ensures
        match find_from(s, pat, i) {
            Some(j) => i <= j && j + pat.len() <= s.len() && is_match(s, pat, j),
            None => true,
        },
    decreases s.len() - i,
{
    if i + pat.len() > s.len() {
    } else if is_match(s, pat, i) {
    } else {
        lemma_find_from_bounds(s, pat, i + 1);
    }
}

/// Whether `pat` occurs at position `i` of `s`.
fn match_at(s: &[u8], pat: &[u8], i: usize) -> (r: bool)
    requires
        i <= s@.len(),
        pat@.len() <= s@.len() - i,
    ensures
        r == is_match(s@, pat@, i as int),
{
    let n = s.len();
    let m = pat.len();
    let mut j: usize = 0;
    while j < m
        invariant
            j <= m == pat@.len(),
            n == s@.len(),
            i + m <= n,
            forall|k: int| 0 <= k < j ==> s@[i + k] == pat@[k],
        decreases m - j,
    {
        if s[i + j] != pat[j] {
            proof {
                if is_match(s@, pat@, i as int) {
                    assert(s@.subrange(i as int, i as int + m as int)[j as int] == pat@[j as int]);
                }
            }
            return false;
        }
        j = j + 1;
    }
    proof {
        assert(s@.subrange(i as int, i as int + m as int) =~= pat@);
    }
    true
}

/// First occurrence of `pat` in `s` at or after `from`.
pub fn find_pattern(s: &[u8], pat: &[u8], from: usize) -> (r: Option<usize>)
    requires
        pat@.len() >= 1,
    ensures
        match r {
            Some(j) => find_from(s@, pat@, from as int) == Some(j as int),
            None => find_from(s@, pat@, from as int) is None,
        },
{
    let n = s.len();
    let m = pat.len();
    if m > n {
        return None;
    }
    let mut i = from;
    if i > n - m {
        proof {
            lemma_find_none_past(s@, pat@, from as int);
        }
        return None;
    }
    while i <= n - m
        invariant
            from <= i,
            m >= 1,
            m <= n == s@.len(),
            m == pat@.len(),
            i <= n - m + 1,
            find_from(s@, pat@, from as int) == find_from(s@, pat@, i as int),
        decreases n - i,
    {
        if match_at(s, pat, i) {
            return Some(i);
        }
        i = i + 1;
    }
    None
}

/// Past the last possible start there is no match.
proof fn lemma_find_none_past(s: Seq<u8>, pat: Seq<u8>, i: int)
    requires
        pat.len() >= 1,
        0 <= i,
        i + pat.len() > s.len(),
    ensures
        find_from(s, pat, i) is None,
{
}

/// The end of the digit run starting at `i`.
pub open spec fn digits_end(s: Seq<u8>, i: int) -> int
    decreases s.len() - i,
        when 0 <= i <= s.len()
{
    if i < s.len() && is_digit(s[i]) {
        digits_end(s, i + 1)
    } else {
        i
    }
}

pub proof fn lemma_digits_end_bounds(s: Seq<u8>, i: int)
    requires
        0 <= i <= s.len(),
    ensures
        i <= digits_end(s, i) <= s.len(),
        forall|k: int| i <= k < digits_end(s, i) ==> is_digit(#[trigger] s[k]),
        digits_end(s, i) < s.len() ==> !is_digit(s[digits_end(s, i)]),
    decreases s.len() - i,
{
    if i < s.len() && is_digit(s[i]) {
        lemma_digits_end_bounds(s, i + 1);
    }
}

/// Executable counterpart of [`digits_end`].
pub fn scan_digits_end(s: &[u8], i: usize) -> (r: usize)
    requires
        i <= s@.len(),
    ensures
        r == digits_end(s@, i as int),
        i <= r <= s@.len(),
{
    let n = s.len();
    let mut k = i;
    while k < n && s[k] >= 48 && s[k] <= 57
        invariant
            i <= k <= n == s@.len(),
            digits_end(s@, i as int) == digits_end(s@, k as int),
        decreases n - k,
    {
        k = k + 1;
    }
    k
}

/// The first position at or after `i` holding a quote, or the length.
pub open spec fn non_quote_end(s: Seq<u8>, i: int) -> int
    decreases s.len() - i,
        when 0 <= i <= s.len()
{
    if i < s.len() && s[i] != QUOTE {
        non_quote_end(s, i + 1)
    } else {
        i
    }
}

pub proof fn lemma_non_quote_end_bounds(s: Seq<u8>, i: int)
    requires
        0 <= i <= s.len(),
    ensures
        i <= non_quote_end(s, i) <= s.len(),
        non_quote_end(s, i) < s.len() ==> s[non_quote_end(s, i)] == QUOTE,
    decreases s.len() - i,
{
    if i < s.len() && s[i] != QUOTE {
        lemma_non_quote_end_bounds(s, i + 1);
    }
}

/// A JSON string token at `i`: `s[i]` is the opening quote, the content
/// runs to the next quote (the feeds' strings carry no escapes), and
/// the returned position is just past the closing quote.
pub open spec fn str_tok(s: Seq<u8>, i: int) -> Option<(Seq<u8>, int)> {
    if 0 <= i < s.len() && s[i] == QUOTE {
        let e = non_quote_end(s, i + 1);
        if e < s.len() {
            Some((s.subrange(i + 1, e), e + 1))
        } else {
            None
        }
    } else {
        None
    }
}

pub proof fn lemma_str_tok_bounds(s: Seq<u8>, i: int)
    ensures
        match str_tok(s, i) {
            Some((t, j)) => i + 2 <= j <= s.len() && t.len() == j - i - 2,
            None => true,
        },
{
    if 0 <= i < s.len() && s[i] == QUOTE {
        lemma_non_quote_end_bounds(s, i + 1);
    }
}

/// Executable counterpart of [`str_tok`]: returns the content bounds
/// `(content_end, next)`, with the content at `s[i + 1 .. content_end]`.
pub fn parse_str_tok(s: &[u8], i: usize) -> (r: Option<(usize, usize)>)
    ensures
        match r {
            Some((e, j)) => str_tok(s@, i as int) == Some(
                (s@.subrange(i as int + 1, e as int), j as int),
            ) && i + 1 <= e < s@.len() && j == e + 1,
            None => str_tok(s@, i as int) is None,
        },
{
    let n = s.len();
    if i >= n || s[i] != QUOTE {
        return None;
    }
    let mut k = i + 1;
    while k < n && s[k] != QUOTE
        invariant
            i + 1 <= k <= n == s@.len(),
            non_quote_end(s@, i as int + 1) == non_quote_end(s@, k as int),
        decreases n - k,
    {
        k = k + 1;
    }
    if k >= n {
        return None;
    }
    Some((k, k + 1))
}

/// A `["price","quantity"]` pair at `i`, both decimals well-formed.
pub open spec fn entry_at(s: Seq<u8>, i: int) -> Option<(OrderBookEntry, int)> {
    if 0 <= i < s.len() && s[i] == LBRACKET {
        match str_tok(s, i + 1) {
            Some((ptxt, j)) => if dec_wf(ptxt) && j < s.len() && s[j] == COMMA {
                match str_tok(s, j + 1) {
                    Some((qtxt, k)) => if dec_wf(qtxt) && k < s.len() && s[k] == RBRACKET {
                        Some(
                            (
                                OrderBookEntry {
                                    price: dec_val(ptxt) as u64,
                                    quantity: dec_val(qtxt) as u64,
                                },
                                k + 1,
                            ),
                        )
                    } else {
                        None
                    },
                    None => None,
                }
            } else {
                None
            },
            None => None,
        }
    } else {
        None
    }
}

pub proof fn lemma_entry_at_bounds(s: Seq<u8>, i: int)
    ensures
        match entry_at(s, i) {
            Some((e, j)) => i < j <= s.len(),
            None => true,
        },
{
    if 0 <= i < s.len() && s[i] == LBRACKET {
        lemma_str_tok_bounds(s, i + 1);
        match str_tok(s, i + 1) {
            Some((ptxt, j)) => {
                lemma_str_tok_bounds(s, j + 1);
            },
            None => {},
        }
    }
}

/// Executable counterpart of [`entry_at`].
pub fn parse_entry(s: &[u8], i: usize) -> (r: Option<(OrderBookEntry, usize)>)
    ensures
        match r {
            Some((e, j)) => entry_at(s@, i as int) == Some((e, j as int)) && e.wf() && i < j
                <= s@.len(),
            None => entry_at(s@, i as int) is None,
        },
{
    let n = s.len();
    if i >= n || s[i] != LBRACKET {
        return None;
    }
    let (pe, pj) = match parse_str_tok(s, i + 1) {
        Some(t) => t,
        None => {
            return None;
        },
    };
    let ptxt = slice_subrange(s, i + 2, pe);
    let price = match parse_decimal(ptxt) {
        Some(v) => v,
        None => {
            return None;
        },
    };
    if pj >= n || s[pj] != COMMA {
        return None;
    }
    let (qe, qj) = match parse_str_tok(s, pj + 1) {
        Some(t) => t,
        None => {
            return None;
        },
    };
    let qtxt = slice_subrange(s, pj + 2, qe);
    let quantity = match parse_decimal(qtxt) {
        Some(v) => v,
        None => {
            return None;
        },
    };
    if qe + 1 >= n || s[qe + 1] != RBRACKET {
        return None;
    }
    Some((OrderBookEntry { price, quantity }, qe + 2))
}

/// The entries after the opening bracket: `entry (',' entry)* ']'`.
pub open spec fn entries_tail(s: Seq<u8>, i: int) -> Option<(Seq<OrderBookEntry>, int)>
    decreases s.len() - i,
        via entries_tail_dec
{
    match entry_at(s, i) {
        Some((e, j)) => if j < s.len() && s[j] == COMMA {
            match entries_tail(s, j + 1) {
                Some((rest, k)) => Some((seq![e] + rest, k)),
                None => None,
            }
        } else if j < s.len() && s[j] == RBRACKET {
            Some((seq![e], j + 1))
        } else {
            None
        },
        None => None,
    }
}

#[via_fn]
proof fn entries_tail_dec(s: Seq<u8>, i: int) {
    lemma_entry_at_bounds(s, i);
}

/// A whole `[...]` array of entries at `i`; returns the entries and the
/// position just past the closing bracket.
pub open spec fn entries_at(s: Seq<u8>, i: int) -> Option<(Seq<OrderBookEntry>, int)> {
    if 0 <= i < s.len() && s[i] == LBRACKET {
        if i + 1 < s.len() && s[i + 1] == RBRACKET {
            Some((Seq::empty(), i + 2))
        } else {
            entries_tail(s, i + 1)
        }
    } else {
        None
    }
}

/// Every entry of `es` is in range.
pub open spec fn entries_wf(es: Seq<OrderBookEntry>) -> bool {
    forall|i: int| 0 <= i < es.len() ==> (#[trigger] es[i]).wf()
}

/// Executable counterpart of [`entries_tail`].
fn parse_entries_tail(s: &[u8], i: usize) -> (r: Option<(Vec<OrderBookEntry>, usize)>)
    requires
        i <= s@.len(),
    ensures
        match r {
            Some((es, j)) => entries_tail(s@, i as int) == Some((es@, j as int)) && entries_wf(es@)
                && i < j <= s@.len(),
            None => entries_tail(s@, i as int) is None,
        },
    decreases s@.len() - i,
{
    let (e, j) = match parse_entry(s, i) {
        Some(t) => t,
        None => {
            return None;
        },
    };
    let n = s.len();
    if j < n && s[j] == COMMA {
        match parse_entries_tail(s, j + 1) {
            Some((mut rest, k)) => {
                let ghost old_rest = rest@;
                rest.insert(0, e);
                proof {
                    assert(rest@ =~= seq![e] + old_rest);
                }
                Some((rest, k))
            },
            None => None,
        }
    } else if j < n && s[j] == RBRACKET {
        let mut es: Vec<OrderBookEntry> = Vec::new();
        es.push(e);
        proof {
            assert(es@ =~= seq![e]);
        }
        Some((es, j + 1))
    } else {
        None
    }
}

/// Executable counterpart of [`entries_at`].
pub fn parse_entries(s: &[u8], i: usize) -> (r: Option<(Vec<OrderBookEntry>, usize)>)
    ensures
        match r {
            Some((es, j)) => entries_at(s@, i as int) == Some((es@, j as int)) && entries_wf(es@)
                && i < j <= s@.len(),
            None => entries_at(s@, i as int) is None,
        },
{
    let n = s.len();
    if i >= n || s[i] != LBRACKET {
        return None;
    }
    if i + 1 < n && s[i + 1] == RBRACKET {
        let es: Vec<OrderBookEntry> = Vec::new();
        proof {
            assert(es@ =~= Seq::<OrderBookEntry>::empty());
        }
        return Some((es, i + 2));
    }
    parse_entries_tail(s, i + 1)
}

/// The Binance frame key `"lastUpdateId":`.
pub open spec fn key_last_update_id() -> Seq<u8> {
    seq![34u8, 108, 97, 115, 116, 85, 112, 100, 97, 116, 101, 73, 100, 34, 58]
}

/// Executable bytes of [`key_last_update_id`].
pub fn key_last_update_id_vec() -> (r: Vec<u8>)
    ensures
        r@ == key_last_update_id(),
{
    let mut v: Vec<u8> = Vec::new();
    v.push(34);
    v.push(108);
    v.push(97);
    v.push(115);
    v.push(116);
    v.push(85);
    v.push(112);
    v.push(100);
    v.push(97);
    v.push(116);
    v.push(101);
    v.push(73);
    v.push(100);
    v.push(34);
    v.push(58);
    proof {
        assert(v@ =~= key_last_update_id());
    }
    v
}

/// The key `"bids":`.
pub open spec fn key_bids() -> Seq<u8> {
    seq![34u8, 98, 105, 100, 115, 34, 58]
}

/// Executable bytes of [`key_bids`].
pub fn key_bids_vec() -> (r: Vec<u8>)
    ensures
        r@ == key_bids(),
{
    let mut v: Vec<u8> = Vec::new();
    v.push(34);
    v.push(98);
    v.push(105);
    v.push(100);
    v.push(115);
    v.push(34);
    v.push(58);
    proof {
        assert(v@ =~= key_bids());
    }
    v
}

/// The key `"asks":`.
pub open spec fn key_asks() -> Seq<u8> {
    seq![34u8, 97, 115, 107, 115, 34, 58]
}

/// Executable bytes of [`key_asks`].
pub fn key_asks_vec() -> (r: Vec<u8>)
    ensures
        r@ == key_asks(),
{
    let mut v: Vec<u8> = Vec::new();
    v.push(34);
    v.push(97);
    v.push(115);
    v.push(107);
    v.push(115);
    v.push(34);
    v.push(58);
    proof {
        assert(v@ =~= key_asks());
    }
    v
}

/// Two byte strings hold the same bytes.
pub fn bytes_eq(a: &[u8], b: &[u8]) -> (r: bool)
    ensures
        r == (a@ == b@),
{
    let n = a.len();
    if n != b.len() {
        return false;
    }
    let mut i: usize = 0;
    while i < n
        invariant
            i <= n == a@.len(),
            n == b@.len(),
            forall|k: int| 0 <= k < i ==> a@[k] == b@[k],
        decreases n - i,
    {
        if a[i] != b[i] {
            return false;
        }
        i = i + 1;
    }
    proof {
        assert(a@ =~= b@);
    }
    true
}

/// Parse a whole `[["<price>","<quantity>"],…]` array, as the entry
/// sides of both exchanges' frames are written.
///
/// Succeeds exactly when the text is one such array and nothing else.
pub fn deserialize_order_book_entries(text: &[u8]) -> (r: Result<Vec<OrderBookEntry>, DecodeError>)
    ensures
        (r is Ok) <==> (match entries_at(text@, 0) {
            Some((es, j)) => j == text@.len(),
            None => false,
        }),
        match r {
            Ok(es) => entries_at(text@, 0) == Some((es@, text@.len() as int)) && entries_wf(es@),
            Err(e) => e == DecodeError::Malformed,
        },
{
    match parse_entries(text, 0) {
        Some((es, j)) => {
            if j == text.len() {
                Ok(es)
            } else {
                Err(DecodeError::Malformed)
            }
        },
        None => Err(DecodeError::Malformed),
    }
}

} // verus!
