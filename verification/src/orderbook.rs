//! Order-book construction from untrusted snapshots: levels are
//! parsed, zero-quantity levels elided, sides sorted, and a book with
//! duplicate or crossed prices refused. Sequence numbers increase
//! strictly; a stale update is rejected.

use vstd::prelude::*;
use vstd::multiset::Multiset;
use crate::errors::IngestionError;
use crate::fixed::{spec_fixed, Fixed, lemma_fixed_eq};
use crate::normalization::{spec_book_wf, spec_price_of, normalize_price, normalize_quantity};
use crate::types::{BookLevel, BookSnapshotDoc, FieldValue, OrderBook, Symbol, Venue};

verus! {

/// The levels an untrusted side denotes: each pair parsed as price
/// and quantity, non-positive quantities elided, a non-positive or
/// malformed price refusing the side.
pub open spec fn spec_levels_of(s: Seq<(FieldValue, FieldValue)>) -> Option<Seq<BookLevel>>
    decreases s.len(),
{
    if s.len() == 0 {
        Some(Seq::<BookLevel>::empty())
    } else {
        match spec_levels_of(s.drop_last()) {
            None => None,
            Some(t) => {
                let pair = s.last();
                match (spec_price_of(pair.0), spec_price_of(pair.1)) {
                    (Some(p), Some(q)) => if p <= 0 {
                        None
                    } else if q <= 0 {
                        Some(t)
                    } else {
                        Some(t.push(BookLevel { price: spec_fixed(p), quantity: spec_fixed(q) }))
                    },
                    _ => None,
                }
            },
        }
    }
}

/// Parses one side of a snapshot.
fn parse_levels(levels: &Vec<(FieldValue, FieldValue)>) -> (r: Result<
    Vec<BookLevel>,
    IngestionError,
>)
    ensures
        match r {
            Ok(v) => spec_levels_of(levels@) == Some(v@) && (forall|k: int|
                0 <= k < v@.len() ==> (#[trigger] v@[k]).price@ > 0 && v@[k].quantity@ > 0),
            Err(e) => spec_levels_of(levels@) is None && (e
                matches IngestionError::InvalidFormat(_)),
        },
{
    let n = levels.len();
    let mut out: Vec<BookLevel> = Vec::new();
    let mut i: usize = 0;
    while i < n
        invariant
            i <= n,
            n == levels@.len(),
            spec_levels_of(levels@.take(i as int)) == Some(out@),
            forall|k: int|
                0 <= k < out@.len() ==> (#[trigger] out@[k]).price@ > 0 && out@[k].quantity@ > 0,
        decreases n - i,
    {
        proof {
            assert(levels@.take(i as int + 1).drop_last() =~= levels@.take(i as int));
            assert(levels@.take(i as int + 1).last() == levels@[i as int]);
        }
        let pair = &levels[i];
        let price = match normalize_price(&pair.0) {
            Ok(p) => p,
            Err(_) => {
                proof {
                    lemma_levels_none_extends(levels@, i as int + 1);
                }
                return Err(IngestionError::InvalidFormat("bad level price".to_owned()));
            },
        };
        let quantity = match normalize_quantity(&pair.1) {
            Ok(q) => q,
            Err(_) => {
                proof {
                    lemma_levels_none_extends(levels@, i as int + 1);
                }
                return Err(IngestionError::InvalidFormat("bad level quantity".to_owned()));
            },
        };
        if !price.is_positive() {
            proof {
                lemma_levels_none_extends(levels@, i as int + 1);
            }
            return Err(IngestionError::InvalidFormat("level price must be positive".to_owned()));
        }
        if quantity.is_positive() {
            proof {
                use_type_invariant(price);
                use_type_invariant(quantity);
                crate::fixed::lemma_spec_fixed(price@);
                crate::fixed::lemma_spec_fixed(quantity@);
                lemma_fixed_eq(price, spec_fixed(price@));
                lemma_fixed_eq(quantity, spec_fixed(quantity@));
            }
            out.push(BookLevel { price, quantity });
        }
        i = i + 1;
    }
    proof {
        assert(levels@.take(n as int) =~= levels@);
    }
    Ok(out)
}

proof fn lemma_levels_none_extends(s: Seq<(FieldValue, FieldValue)>, i: int)
    requires
        0 <= i <= s.len(),
        spec_levels_of(s.take(i)) is None,
    ensures
        spec_levels_of(s) is None,
    decreases s.len() - i,
{
    if i == s.len() {
        assert(s.take(i) =~= s);
    } else {
        assert(s.take(i + 1).drop_last() =~= s.take(i));
        lemma_levels_none_extends(s, i + 1);
    }
}

/// Sorts levels by price, descending when `descending`, keeping the
/// multiset of levels.
fn sort_levels(input: Vec<BookLevel>, descending: bool) -> (r: Vec<BookLevel>)
    ensures
        r@.to_multiset() == input@.to_multiset(),
        r@.len() == input@.len(),
        descending ==> forall|i: int, j: int|
            0 <= i < j < r@.len() ==> r@[i].price@ >= r@[j].price@,
        !descending ==> forall|i: int, j: int|
            0 <= i < j < r@.len() ==> r@[i].price@ <= r@[j].price@,
{
    let mut rest = input;
    let ghost orig = rest@;
    let mut out: Vec<BookLevel> = Vec::new();
    proof {
        broadcast use vstd::multiset::group_multiset_axioms;

        vstd::seq_lib::to_multiset_len(out@);
        assert(out@.to_multiset() =~= Multiset::<BookLevel>::empty());
        assert(out@.to_multiset().add(rest@.to_multiset()) =~= orig.to_multiset());
    }
    while rest.len() > 0
        invariant
            out@.to_multiset().add(rest@.to_multiset()) =~= orig.to_multiset(),
            out@.len() + rest@.len() == orig.len(),
            descending ==> forall|i: int, j: int|
                0 <= i < j < out@.len() ==> out@[i].price@ >= out@[j].price@,
            !descending ==> forall|i: int, j: int|
                0 <= i < j < out@.len() ==> out@[i].price@ <= out@[j].price@,
            descending ==> forall|a: int, b: int|
                0 <= a < out@.len() && 0 <= b < rest@.len() ==> out@[a].price@ >= rest@[b].price@,
            !descending ==> forall|a: int, b: int|
                0 <= a < out@.len() && 0 <= b < rest@.len() ==> out@[a].price@ <= rest@[b].price@,
        decreases rest@.len(),
    {
        let n = rest.len();
        let mut j: usize = 0;
        let mut k: usize = 1;
        while k < n
            invariant
                j < k <= n,
                n == rest@.len(),
                descending ==> forall|t: int| 0 <= t < k ==> rest@[j as int].price@ >= rest@[t].price@,
                !descending ==> forall|t: int| 0 <= t < k ==> rest@[j as int].price@ <= rest@[t].price@,
            decreases n - k,
        {
            let better = if descending {
                rest[k].price.gt(rest[j].price)
            } else {
                rest[k].price.lt(rest[j].price)
            };
            if better {
                j = k;
            }
            k = k + 1;
        }
        let ghost prev = rest@;
        let ghost prev_out = out@;
        let x = rest.remove(j);
        out.push(x);
        proof {
            broadcast use vstd::multiset::group_multiset_axioms;

            assert(prev[j as int] == x);
            assert(rest@ == prev.remove(j as int));
            vstd::seq_lib::to_multiset_remove(prev, j as int);
            assert(out@ == prev_out.push(x));
            vstd::seq_lib::to_multiset_build(prev_out, x);
            assert(prev.contains(x)) by {
                assert(0 <= j < prev.len() && prev[j as int] == x);
            }
            vstd::seq_lib::to_multiset_contains(prev, x);
            assert(prev.to_multiset().count(x) > 0);
            assert(out@.to_multiset().add(rest@.to_multiset()) =~= orig.to_multiset());
            assert forall|b: int| 0 <= b < rest@.len() implies (descending ==> x.price@
                >= rest@[b].price@) && (!descending ==> x.price@ <= rest@[b].price@) by {
                if b < j {
                    assert(rest@[b] == prev[b]);
                } else {
                    assert(rest@[b] == prev[b + 1]);
                }
            }
        }
    }
    proof {
        broadcast use vstd::multiset::group_multiset_axioms;

        vstd::seq_lib::to_multiset_len(rest@);
        assert(rest@.to_multiset() =~= Multiset::<BookLevel>::empty());
        assert(out@.to_multiset() =~= orig.to_multiset());
    }
    out
}

/// Two levels of one side share a price.
pub open spec fn spec_has_dup_price(s: Seq<BookLevel>) -> bool {
    exists|i: int, j: int|
        0 <= i < j < s.len() && (#[trigger] s[i]).price@ == (#[trigger] s[j]).price@
}

/// Some bid does not price strictly below some ask.
pub open spec fn spec_crossed(bids: Seq<BookLevel>, asks: Seq<BookLevel>) -> bool {
    exists|i: int, j: int|
        0 <= i < bids.len() && 0 <= j < asks.len() && (#[trigger] bids[i]).price@
            >= (#[trigger] asks[j]).price@
}

proof fn lemma_count_at_least_two(s: Seq<BookLevel>, i: int, j: int)
    requires
        0 <= i < j < s.len(),
        s[i] == s[j],
    ensures
        s.to_multiset().count(s[i]) >= 2,
{
    broadcast use vstd::multiset::group_multiset_axioms;

    vstd::seq_lib::to_multiset_remove(s, i);
    let t = s.remove(i);
    assert(t[j - 1] == s[j]);
    assert(t.contains(s[j])) by {
        assert(0 <= j - 1 < t.len() && t[j - 1] == s[j]);
    }
    vstd::seq_lib::to_multiset_contains(t, s[j]);
}

proof fn lemma_two_indices_of_value(t: Seq<BookLevel>, x: BookLevel)
    requires
        t.to_multiset().count(x) >= 2,
    ensures
        exists|k: int, l: int| 0 <= k < l < t.len() && t[k] == x && t[l] == x,
{
    broadcast use vstd::multiset::group_multiset_axioms;

    vstd::seq_lib::to_multiset_contains(t, x);
    assert(t.contains(x));
    let k = choose|k: int| 0 <= k < t.len() && t[k] == x;
    vstd::seq_lib::to_multiset_remove(t, k);
    let u = t.remove(k);
    vstd::seq_lib::to_multiset_contains(u, x);
    assert(u.contains(x));
    let m = choose|m: int| 0 <= m < u.len() && u[m] == x;
    if m < k {
        assert(u[m] == t[m]);
        assert(0 <= m < k < t.len() && t[m] == x && t[k] == x);
    } else {
        assert(u[m] == t[m + 1]);
        assert(0 <= k < m + 1 < t.len() && t[k] == x && t[m + 1] == x);
    }
}

/// A shared price within a side depends only on the multiset of
/// levels, not on their order.
pub proof fn lemma_dup_price_invariant(s: Seq<BookLevel>, t: Seq<BookLevel>)
    requires
        s.to_multiset() == t.to_multiset(),
        spec_has_dup_price(s),
    ensures
        spec_has_dup_price(t),
{
    broadcast use vstd::multiset::group_multiset_axioms;

    let (i, j) = choose|i: int, j: int|
        0 <= i < j < s.len() && (#[trigger] s[i]).price@ == (#[trigger] s[j]).price@;
    if s[i] == s[j] {
        lemma_count_at_least_two(s, i, j);
        lemma_two_indices_of_value(t, s[i]);
        let (k, l) = choose|k: int, l: int|
            0 <= k < l < t.len() && t[k] == s[i] && t[l] == s[i];
        assert(0 <= k < l < t.len() && t[k].price@ == t[l].price@);
    } else {
        assert(s.contains(s[i]));
        assert(s.contains(s[j]));
        vstd::seq_lib::to_multiset_contains(s, s[i]);
        vstd::seq_lib::to_multiset_contains(s, s[j]);
        vstd::seq_lib::to_multiset_contains(t, s[i]);
        vstd::seq_lib::to_multiset_contains(t, s[j]);
        assert(t.contains(s[i]) && t.contains(s[j]));
        let k = choose|k: int| 0 <= k < t.len() && t[k] == s[i];
        let l = choose|l: int| 0 <= l < t.len() && t[l] == s[j];
        assert(k != l);
        if k < l {
            assert(0 <= k < l < t.len() && t[k].price@ == t[l].price@);
        } else {
            assert(0 <= l < k < t.len() && t[l].price@ == t[k].price@);
        }
    }
}

/// Builds and maintains the canonical book of one `(symbol, venue)`
/// stream; its sequence counter increases strictly.
pub struct OrderBookBuilder {
    pub symbol: Symbol,
    pub venue: Venue,
    pub sequence: u64,
}

impl OrderBookBuilder {
    /// A fresh builder for one stream.
    pub fn new(symbol: Symbol, venue: Venue) -> (r: OrderBookBuilder)
        ensures
            r.symbol == symbol,
            r.venue == venue,
            r.sequence == 0,
    {
        OrderBookBuilder { symbol, venue, sequence: 0 }
    }

    /// Builds a book from an untrusted snapshot: parse both sides,
    /// sort bids descending and asks ascending, and refuse duplicate
    /// prices within a side or a crossed top of book. On success the
    /// sequence advances and the book carries it.
    #[verifier::rlimit(100)]
    pub fn from_snapshot(&mut self, snapshot: &BookSnapshotDoc, now_ms: i64) -> (r: Result<
        OrderBook,
        IngestionError,
    >)
        requires
            old(self).sequence < u64::MAX,
        ensures
            match r {
                Ok(book) => {
                    &&& spec_book_wf(book)
                    &&& book.symbol@ == old(self).symbol@
                    &&& book.venue@ == old(self).venue@
                    &&& book.timestamp == now_ms
                    &&& book.sequence == old(self).sequence + 1
                    &&& final(self).sequence == old(self).sequence + 1
                    &&& final(self).symbol == old(self).symbol
                    &&& final(self).venue == old(self).venue
                    &&& (match (snapshot.bids, snapshot.asks) {
                        (Some(bd), Some(ad)) => (match (
                            spec_levels_of(bd@),
                            spec_levels_of(ad@),
                        ) {
                            (Some(bl), Some(al)) => book.bids@.to_multiset() == bl.to_multiset()
                                && book.asks@.to_multiset() == al.to_multiset(),
                            _ => false,
                        }),
                        _ => false,
                    })
                },
                Err(e) => {
                    &&& *final(self) == *old(self)
                    &&& (e matches IngestionError::InvalidFormat(_))
                    &&& (match (snapshot.bids, snapshot.asks) {
                        (Some(bd), Some(ad)) => (match (
                            spec_levels_of(bd@),
                            spec_levels_of(ad@),
                        ) {
                            (Some(bl), Some(al)) => spec_has_dup_price(bl) || spec_has_dup_price(
                                al,
                            ) || spec_crossed(bl, al),
                            _ => true,
                        }),
                        _ => true,
                    })
                },
            },
    {
        let bids_doc = match &snapshot.bids {
            Some(b) => b,
            None => {
                return Err(IngestionError::InvalidFormat("missing bids".to_owned()));
            },
        };
        let asks_doc = match &snapshot.asks {
            Some(a) => a,
            None => {
                return Err(IngestionError::InvalidFormat("missing asks".to_owned()));
            },
        };
        let bids_raw = match parse_levels(bids_doc) {
            Ok(v) => v,
            Err(e) => {
                return Err(e);
            },
        };
        let asks_raw = match parse_levels(asks_doc) {
            Ok(v) => v,
            Err(e) => {
                return Err(e);
            },
        };
        let bids = sort_levels(bids_raw, true);
        let asks = sort_levels(asks_raw, false);
        let ghost bl = spec_levels_of(snapshot.bids->Some_0@)->Some_0;
        let ghost al = spec_levels_of(snapshot.asks->Some_0@)->Some_0;
        let dup_bids = has_adjacent_equal(&bids);
        let dup_asks = has_adjacent_equal(&asks);
        if dup_bids || dup_asks {
            proof {
                if dup_bids {
                    let i = choose|i: int|
                        0 <= i < bids@.len() - 1 && (#[trigger] bids@[i]).price@ == bids@[i
                            + 1].price@;
                    assert(spec_has_dup_price(bids@)) by {
                        assert(0 <= i < i + 1 < bids@.len() && bids@[i].price@ == bids@[i
                            + 1].price@);
                    }
                    lemma_dup_price_invariant(bids@, bl);
                } else {
                    let i = choose|i: int|
                        0 <= i < asks@.len() - 1 && (#[trigger] asks@[i]).price@ == asks@[i
                            + 1].price@;
                    assert(spec_has_dup_price(asks@)) by {
                        assert(0 <= i < i + 1 < asks@.len() && asks@[i].price@ == asks@[i
                            + 1].price@);
                    }
                    lemma_dup_price_invariant(asks@, al);
                }
            }
            return Err(IngestionError::InvalidFormat("duplicate price level".to_owned()));
        }
        if bids.len() > 0 && asks.len() > 0 && !bids[0].price.lt(asks[0].price) {
            proof {
                lemma_multiset_members(bids@, bl);
                lemma_multiset_members(asks@, al);
                assert(bl.contains(bids@[0]));
                assert(al.contains(asks@[0]));
                let k = choose|k: int| 0 <= k < bl.len() && bl[k] == bids@[0];
                let l = choose|l: int| 0 <= l < al.len() && al[l] == asks@[0];
                assert(spec_crossed(bl, al)) by {
                    assert(0 <= k < bl.len() && 0 <= l < al.len() && bl[k].price@ >= al[l].price@);
                }
            }
            return Err(IngestionError::InvalidFormat("crossed book".to_owned()));
        }
        proof {
            lemma_multiset_members(bids@, bl);
            lemma_multiset_members(asks@, al);
            assert forall|k: int|
                0 <= k < bids@.len() implies (#[trigger] bids@[k]).price@ > 0
                && bids@[k].quantity@ > 0 by {
                assert(bl.contains(bids@[k]));
                let w = choose|j: int| 0 <= j < bl.len() && bl[j] == bids@[k];
                assert(bl[w].price@ > 0 && bl[w].quantity@ > 0);
            }
            assert forall|k: int|
                0 <= k < asks@.len() implies (#[trigger] asks@[k]).price@ > 0
                && asks@[k].quantity@ > 0 by {
                assert(al.contains(asks@[k]));
                let w = choose|j: int| 0 <= j < al.len() && al[j] == asks@[k];
                assert(al[w].price@ > 0 && al[w].quantity@ > 0);
            }
            assert forall|i: int, j: int|
                0 <= i < j < bids@.len() implies bids@[i].price@ > bids@[j].price@ by {
                assert(bids@[i].price@ >= bids@[i + 1].price@ && bids@[i + 1].price@
                    >= bids@[j].price@);
            }
            assert forall|i: int, j: int|
                0 <= i < j < asks@.len() implies asks@[i].price@ < asks@[j].price@ by {
                assert(asks@[i].price@ <= asks@[i + 1].price@ && asks@[i + 1].price@
                    <= asks@[j].price@);
            }
        }
        self.sequence = self.sequence + 1;
        Ok(
            OrderBook {
                symbol: self.symbol.clone(),
                venue: self.venue.clone(),
                bids,
                asks,
                timestamp: now_ms,
                sequence: self.sequence,
            },
        )
    }

    /// Accepts an incremental update only with a sequence strictly
    /// beyond both the book's and the builder's own counter, and
    /// advances both, so that the stream's sequence stays strictly
    /// increasing across snapshots and updates alike; a stale update
    /// is rejected and changes nothing.
    pub fn apply_update(&mut self, book: &mut OrderBook, update_sequence: u64, now_ms: i64) -> (r:
        Result<(), IngestionError>)
        ensures
            (update_sequence > old(self).sequence && update_sequence > old(book).sequence) ==> (r
                is Ok && final(self).sequence == update_sequence && final(book).sequence
                == update_sequence && final(book).timestamp == now_ms && final(book).bids == old(
                book,
            ).bids && final(book).asks == old(book).asks && final(book).symbol == old(book).symbol
                && final(book).venue == old(book).venue && final(self).symbol == old(self).symbol
                && final(self).venue == old(self).venue),
            !(update_sequence > old(self).sequence && update_sequence > old(book).sequence) ==> (r
                is Err && *final(book) == *old(book) && *final(self) == *old(self)),
    {
        if update_sequence <= self.sequence || update_sequence <= book.sequence {
            return Err(IngestionError::InvalidFormat("stale book update".to_owned()));
        }
        self.sequence = update_sequence;
        book.sequence = update_sequence;
        book.timestamp = now_ms;
        Ok(())
    }
}

/// Whether two neighbors share a price.
fn has_adjacent_equal(v: &Vec<BookLevel>) -> (r: bool)
    ensures
        r == exists|i: int|
            0 <= i < v@.len() - 1 && (#[trigger] v@[i]).price@ == v@[i + 1].price@,
{
    let n = v.len();
    if n == 0 {
        return false;
    }
    let mut i: usize = 0;
    while i < n - 1
        invariant
            n == v@.len(),
            n >= 1,
            i <= n - 1,
            forall|j: int| 0 <= j < i ==> (#[trigger] v@[j]).price@ != v@[j + 1].price@,
        decreases n - i,
    {
        if !v[i].price.lt(v[i + 1].price) && !v[i].price.gt(v[i + 1].price) {
            return true;
        }
        i = i + 1;
    }
    false
}

/// Every member of a sequence with the multiset of another is a
/// member of the other's values, preserving positivity facts.
proof fn lemma_multiset_members(s: Seq<BookLevel>, t: Seq<BookLevel>)
    requires
        s.to_multiset() == t.to_multiset(),
    ensures
        forall|i: int| 0 <= i < s.len() ==> t.contains(#[trigger] s[i]),
        s.len() == t.len(),
{
    broadcast use vstd::multiset::group_multiset_axioms;

    vstd::seq_lib::to_multiset_len(s);
    vstd::seq_lib::to_multiset_len(t);
    assert forall|i: int| 0 <= i < s.len() implies t.contains(#[trigger] s[i]) by {
        assert(s.contains(s[i]));
        vstd::seq_lib::to_multiset_contains(s, s[i]);
        vstd::seq_lib::to_multiset_contains(t, s[i]);
    }
}

} // verus!
