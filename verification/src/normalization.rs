//! Normalization of untrusted market data into canonical values, and
//! the deterministic order-book derivations built on them.

use vstd::prelude::*;
use crate::codec::{spec_decimal_value, spec_fixed_bytes, parse_decimal, lemma_decimal_round_trip};
use crate::fixed::{
    fits, div_tz, div_val, mul_val, spec_fixed, ArithError, Fixed, BOUND, SCALE, WIDE_BOUND,
    lemma_fixed_eq, lemma_mul_val_nonneg,
};
use crate::errors::{IngestionError, NormalizationError};
use crate::types::{BookLevel, FieldValue, OrderBook, Side, Symbol, Tick, TickDoc, Venue};
use vstd::string::StringSliceAdditionalSpecFns;
use vstd::utf8::encode_utf8;

verus! {

/// Invariants every normalized order book satisfies: positive prices
/// and quantities, bids strictly descending, asks strictly ascending,
/// and no crossed top of book.
pub open spec fn spec_book_wf(book: OrderBook) -> bool {
    &&& forall|i: int|
        0 <= i < book.bids@.len() ==> (#[trigger] book.bids@[i]).price@ > 0
            && book.bids@[i].quantity@ > 0
    &&& forall|i: int|
        0 <= i < book.asks@.len() ==> (#[trigger] book.asks@[i]).price@ > 0
            && book.asks@[i].quantity@ > 0
    &&& forall|i: int, j: int|
        0 <= i < j < book.bids@.len() ==> book.bids@[i].price@ > book.bids@[j].price@
    &&& forall|i: int, j: int|
        0 <= i < j < book.asks@.len() ==> book.asks@[i].price@ < book.asks@[j].price@
    &&& (book.bids@.len() > 0 && book.asks@.len() > 0 ==> book.bids@[0].price@
        < book.asks@[0].price@)
}

/// Sum of level quantities.
pub open spec fn spec_qty_sum(s: Seq<BookLevel>) -> int
    decreases s.len(),
{
    if s.len() == 0 {
        0
    } else {
        spec_qty_sum(s.drop_last()) + s.last().quantity@
    }
}

/// Sum of level notionals, `price * quantity`.
pub open spec fn spec_notional_sum(s: Seq<BookLevel>) -> int
    decreases s.len(),
{
    if s.len() == 0 {
        0
    } else {
        spec_notional_sum(s.drop_last()) + mul_val(s.last().price@, s.last().quantity@)
    }
}

/// Mid price mantissa, absent when either side is empty.
pub open spec fn spec_mid_price(book: OrderBook) -> Option<int> {
    if book.bids@.len() == 0 || book.asks@.len() == 0 {
        None
    } else {
        Some(div_tz(book.bids@[0].price@ + book.asks@[0].price@, 2))
    }
}

/// Spread mantissa, absent when either side is empty.
pub open spec fn spec_spread(book: OrderBook) -> Option<int> {
    if book.bids@.len() == 0 || book.asks@.len() == 0 {
        None
    } else {
        Some(book.asks@[0].price@ - book.bids@[0].price@)
    }
}

/// Spread as a percentage of mid: `spread / mid * 100`.
pub open spec fn spec_spread_pct(book: OrderBook) -> Option<int> {
    match (spec_spread(book), spec_mid_price(book)) {
        (Some(sp), Some(mid)) => if mid == 0 {
            None
        } else {
            Some(mul_val(div_val(sp, mid), 100 * crate::fixed::SCALE as int))
        },
        _ => None,
    }
}

/// Depth imbalance of the two volume sums: `(b - a) / (b + a)`, zero
/// when both are zero.
pub open spec fn spec_imbalance(bq: int, aq: int) -> int {
    if bq + aq == 0 {
        0
    } else {
        div_val(bq - aq, bq + aq)
    }
}

/// Mean of the two top-ten notional sums: the book's quoted liquidity.
pub open spec fn spec_cex_liquidity(book: OrderBook) -> int {
    let bids = if book.bids@.len() > 10 {
        book.bids@.take(10)
    } else {
        book.bids@
    };
    let asks = if book.asks@.len() > 10 {
        book.asks@.take(10)
    } else {
        book.asks@
    };
    div_tz(spec_notional_sum(bids) + spec_notional_sum(asks), 2)
}

proof fn lemma_qty_sum_take_le(s: Seq<BookLevel>, i: int)
    requires
        0 <= i <= s.len(),
        forall|k: int| 0 <= k < s.len() ==> (#[trigger] s[k]).quantity@ > 0,
    ensures
        spec_qty_sum(s.take(i)) <= spec_qty_sum(s),
    decreases s.len() - i,
{
    if i == s.len() {
        assert(s.take(i) =~= s);
    } else {
        assert(s.take(i + 1).drop_last() =~= s.take(i));
        assert(s.take(i + 1).last() == s[i]);
        lemma_qty_sum_take_le(s, i + 1);
    }
}

/// Quantity sum of one book side, bailing out where a prefix leaves
/// the representable range.
fn qty_sum_checked(s: &Vec<BookLevel>) -> (r: Result<i128, ArithError>)
    requires
        forall|k: int| 0 <= k < s@.len() ==> (#[trigger] s@[k]).quantity@ > 0,
    ensures
        match r {
            Ok(v) => v as int == spec_qty_sum(s@) && 0 <= v as int <= BOUND as int,
            Err(e) => e == ArithError::Overflow && !fits(spec_qty_sum(s@)),
        },
{
    let n = s.len();
    let mut acc: i128 = 0;
    let mut i: usize = 0;
    while i < n
        invariant
            i <= n,
            n == s@.len(),
            forall|k: int| 0 <= k < s@.len() ==> (#[trigger] s@[k]).quantity@ > 0,
            acc as int == spec_qty_sum(s@.take(i as int)),
            0 <= acc <= BOUND,
        decreases n - i,
    {
        proof {
            assert(s@.take(i as int + 1).drop_last() =~= s@.take(i as int));
            assert(s@.take(i as int + 1).last() == s@[i as int]);
        }
        let q: i128 = s[i].quantity.mantissa();
        let next: i128 = acc + q;
        if next > BOUND {
            proof {
                lemma_qty_sum_take_le(s@, i as int + 1);
            }
            return Err(ArithError::Overflow);
        }
        acc = next;
        i = i + 1;
    }
    proof {
        assert(s@.take(n as int) =~= s@);
    }
    Ok(acc)
}

/// Best-bid/best-ask midpoint; `None` when either side is empty.
pub fn calculate_mid_price(book: &OrderBook) -> (r: Option<Fixed>)
    requires
        spec_book_wf(*book),
    ensures
        match r {
            Some(v) => spec_mid_price(*book) == Some(v@),
            None => spec_mid_price(*book) is None,
        },
{
    if book.bids.len() == 0 || book.asks.len() == 0 {
        return None;
    }
    let b = book.bids[0].price;
    let a = book.asks[0].price;
    proof {
        use_type_invariant(b);
        use_type_invariant(a);
        let v = b@ + a@;
        let av = if v >= 0 {
            v
        } else {
            -v
        };
        vstd::arithmetic::div_mod::lemma_div_is_ordered(av, 2 * (BOUND as int), 2);
    }
    let m: i128 = Fixed::half_tz(b.mantissa() + a.mantissa());
    Some(Fixed::from_mantissa(m))
}

/// Best-ask minus best-bid; `None` when either side is empty.
pub fn calculate_spread(book: &OrderBook) -> (r: Option<Fixed>)
    requires
        spec_book_wf(*book),
    ensures
        match r {
            Some(v) => spec_spread(*book) == Some(v@),
            None => spec_spread(*book) is None,
        },
{
    if book.bids.len() == 0 || book.asks.len() == 0 {
        return None;
    }
    let b = book.bids[0].price;
    let a = book.asks[0].price;
    proof {
        use_type_invariant(b);
        use_type_invariant(a);
    }
    Some(Fixed::from_mantissa(a.mantissa() - b.mantissa()))
}

/// Spread as a percentage of mid; `None` when either side is empty,
/// an explicit failure when the ratio leaves the representable range.
pub fn calculate_spread_pct(book: &OrderBook) -> (r: Result<Option<Fixed>, ArithError>)
    requires
        spec_book_wf(*book),
    ensures
        match r {
            Ok(None) => spec_spread_pct(*book) is None,
            Ok(Some(v)) => spec_spread_pct(*book) == Some(v@) && fits(v@) && (match (
                spec_spread(*book),
                spec_mid_price(*book),
            ) {
                (Some(sp), Some(mid)) => fits(div_val(sp, mid)),
                _ => false,
            }),
            Err(e) => e == ArithError::Overflow && (match (
                spec_spread(*book),
                spec_mid_price(*book),
            ) {
                (Some(sp), Some(mid)) => mid != 0 && !(fits(div_val(sp, mid)) && fits(
                    mul_val(div_val(sp, mid), 100 * crate::fixed::SCALE as int),
                )),
                _ => false,
            }),
        },
{
    let spread = match calculate_spread(book) {
        Some(v) => v,
        None => {
            return Ok(None);
        },
    };
    let mid = match calculate_mid_price(book) {
        Some(v) => v,
        None => {
            return Ok(None);
        },
    };
    if mid.is_zero() {
        return Ok(None);
    }
    let ratio = match spread.checked_div(mid) {
        Ok(v) => v,
        Err(_) => {
            return Err(ArithError::Overflow);
        },
    };
    let hundred = Fixed::from_mantissa(100 * crate::fixed::SCALE);
    match ratio.checked_mul(hundred) {
        Ok(v) => Ok(Some(v)),
        Err(_) => Err(ArithError::Overflow),
    }
}

/// Depth imbalance over all levels; zero on an empty book, an explicit
/// failure when a volume sum leaves the representable range.
pub fn calculate_depth_imbalance(book: &OrderBook) -> (r: Result<Fixed, ArithError>)
    requires
        spec_book_wf(*book),
    ensures
        match r {
            Ok(v) => v@ == spec_imbalance(spec_qty_sum(book.bids@), spec_qty_sum(book.asks@))
                && fits(spec_qty_sum(book.bids@)) && fits(spec_qty_sum(book.asks@)) && fits(
                spec_qty_sum(book.bids@) + spec_qty_sum(book.asks@),
            ),
            Err(e) => e == ArithError::Overflow && !(fits(spec_qty_sum(book.bids@)) && fits(
                spec_qty_sum(book.asks@),
            ) && fits(spec_qty_sum(book.bids@) + spec_qty_sum(book.asks@)) && fits(
                spec_imbalance(spec_qty_sum(book.bids@), spec_qty_sum(book.asks@)),
            )),
        },
{
    let bq: i128 = match qty_sum_checked(&book.bids) {
        Ok(v) => v,
        Err(_) => {
            return Err(ArithError::Overflow);
        },
    };
    let aq: i128 = match qty_sum_checked(&book.asks) {
        Ok(v) => v,
        Err(_) => {
            return Err(ArithError::Overflow);
        },
    };
    let denom: i128 = bq + aq;
    if denom > BOUND {
        return Err(ArithError::Overflow);
    }
    if denom == 0 {
        return Ok(Fixed::zero());
    }
    let num: i128 = bq - aq;
    let denom_f = Fixed::from_mantissa(denom);
    let imb: i128 = Fixed::wide_div(num, denom_f);
    match Fixed::try_from_mantissa(imb) {
        Some(v) => Ok(v),
        None => Err(ArithError::Overflow),
    }
}

/// Mean notional over the top ten levels of each side; an explicit
/// failure when it leaves the representable range.
pub fn calculate_cex_liquidity(book: &OrderBook) -> (r: Result<Fixed, ArithError>)
    requires
        spec_book_wf(*book),
    ensures
        match r {
            Ok(v) => v@ == spec_cex_liquidity(*book) && fits(spec_cex_liquidity(*book)),
            Err(e) => e == ArithError::Overflow && !fits(spec_cex_liquidity(*book)),
        },
{
    let bv: i128 = notional_top10(&book.bids);
    let av: i128 = notional_top10(&book.asks);
    let mean: i128 = Fixed::half_tz(bv + av);
    proof {
        if book.bids@.len() > 10 {
            assert(spec_notional_sum(book.bids@.take(10)) == bv as int);
        }
    }
    match Fixed::try_from_mantissa(mean) {
        Some(v) => Ok(v),
        None => Err(ArithError::Overflow),
    }
}

/// Notional sum over the top ten levels, wide and exact.
fn notional_top10(s: &Vec<BookLevel>) -> (r: i128)
    ensures
        r as int == spec_notional_sum(
            if s@.len() > 10 {
                s@.take(10)
            } else {
                s@
            },
        ),
        -10 * (WIDE_BOUND as int) <= r as int <= 10 * (WIDE_BOUND as int),
{
    let n: usize = if s.len() > 10 {
        10
    } else {
        s.len()
    };
    let ghost t = if s@.len() > 10 {
        s@.take(10)
    } else {
        s@
    };
    proof {
        assert(t =~= s@.take(n as int));
    }
    let mut acc: i128 = 0;
    let mut i: usize = 0;
    while i < n
        invariant
            i <= n,
            n <= s@.len(),
            n <= 10,
            acc as int == spec_notional_sum(s@.take(i as int)),
            -(i as int) * (WIDE_BOUND as int) <= acc as int <= (i as int) * (WIDE_BOUND as int),
        decreases n - i,
    {
        proof {
            assert(s@.take(i as int + 1).drop_last() =~= s@.take(i as int));
            assert(s@.take(i as int + 1).last() == s@[i as int]);
        }
        let level = &s[i];
        let e: i128 = level.price.wide_mul(level.quantity);
        proof {
            assert((i as int + 1) * (WIDE_BOUND as int) == (i as int) * (WIDE_BOUND as int) + (
            WIDE_BOUND as int)) by (nonlinear_arith);
        }
        acc = acc + e;
        i = i + 1;
    }
    proof {
        assert(s@.take(n as int) =~= t);
        assert((n as int) * (WIDE_BOUND as int) <= 10 * (WIDE_BOUND as int) && -10 * (
        WIDE_BOUND as int) <= -(n as int) * (WIDE_BOUND as int)) by (nonlinear_arith)
            requires
                0 <= n <= 10,
        ;
    }
    acc
}


/// The fixed-point value a price or quantity field denotes, `None`
/// where the field is malformed or the value unrepresentable.
pub open spec fn spec_price_of(v: FieldValue) -> Option<int> {
    match v {
        FieldValue::Text(b) => match spec_decimal_value(b@) {
            Some(x) => if fits(x) {
                Some(x)
            } else {
                None
            },
            None => None,
        },
        FieldValue::Integer(i) => if -100_000 <= i <= 100_000 {
            Some(i * SCALE as int)
        } else {
            None
        },
        FieldValue::Other => None,
    }
}

/// The epoch-millisecond timestamp a field denotes.
pub open spec fn spec_timestamp_of(v: FieldValue) -> Option<i64> {
    match v {
        FieldValue::Integer(i) => Some(i),
        FieldValue::Text(b) => rfc3339_epoch_ms(b@),
        FieldValue::Other => None,
    }
}

/// Epoch milliseconds denoted by an RFC 3339 text, if it parses. The
/// result is a function of the bytes alone; its definition lives in
/// the calendar implementation.
pub uninterp spec fn rfc3339_epoch_ms(s: Seq<u8>) -> Option<i64>;

/// Relies on `chrono::DateTime::parse_from_rfc3339` (and
/// `timestamp_millis`): parsing is a function of the bytes alone.
#[verifier::external_body]
fn parse_rfc3339_ms(s: &Vec<u8>) -> (r: Option<i64>)
    ensures
        r == rfc3339_epoch_ms(s@),
{
    let Ok(text) = std::str::from_utf8(s.as_slice()) else { return None };
    let Ok(dt) = chrono::DateTime::parse_from_rfc3339(text) else { return None };
    Some(dt.timestamp_millis())
}

/// ASCII upper-casing of one byte.
pub open spec fn spec_upper(b: u8) -> u8 {
    if 97 <= b <= 122 {
        (b - 32) as u8
    } else {
        b
    }
}

/// ASCII upper-casing of a byte string.
pub open spec fn spec_upper_seq(s: Seq<u8>) -> Seq<u8> {
    Seq::new(s.len(), |i: int| spec_upper(s[i]))
}

/// The side a text denotes, case-insensitively: `BUY`, `B` or `1`;
/// `SELL`, `S` or `2`.
pub open spec fn spec_side_of(s: Seq<u8>) -> Option<Side> {
    let u = spec_upper_seq(s);
    if u == seq![66u8, 85u8, 89u8] || u == seq![66u8] || u == seq![49u8] {
        Some(Side::Buy)
    } else if u == seq![83u8, 69u8, 76u8, 76u8] || u == seq![83u8] || u == seq![50u8] {
        Some(Side::Sell)
    } else {
        None
    }
}

/// Normalizes a price field into a fixed-point value.
pub fn normalize_price(value: &FieldValue) -> (r: Result<Fixed, NormalizationError>)
    ensures
        match r {
            Ok(f) => spec_price_of(*value) == Some(f@),
            Err(e) => spec_price_of(*value) is None && ((e matches NormalizationError::InvalidType(
                _,
            )) <==> (value is Other)),
        },
{
    match value {
        FieldValue::Text(bytes) => match parse_decimal(bytes) {
            Some(v) => {
                proof {
                    use_type_invariant(v);
                }
                Ok(v)
            },
            None => Err(NormalizationError::ParseError("price".to_owned())),
        },
        FieldValue::Integer(i) => {
            let i = *i;
            if -100_000 <= i && i <= 100_000 {
                proof {
                    assert(-(BOUND as int) <= (i as int) * (SCALE as int) <= BOUND as int)
                        by (nonlinear_arith)
                        requires
                            -100_000 <= i as int <= 100_000,
                    ;
                }
                Ok(Fixed::from_mantissa((i as i128) * SCALE))
            } else {
                Err(NormalizationError::ParseError("price".to_owned()))
            }
        },
        FieldValue::Other => Err(
            NormalizationError::InvalidType("expected text or number".to_owned()),
        ),
    }
}

/// Normalizes a quantity field; same rules as a price.
pub fn normalize_quantity(value: &FieldValue) -> (r: Result<Fixed, NormalizationError>)
    ensures
        match r {
            Ok(f) => spec_price_of(*value) == Some(f@),
            Err(e) => spec_price_of(*value) is None && ((e matches NormalizationError::InvalidType(
                _,
            )) <==> (value is Other)),
        },
{
    normalize_price(value)
}

/// Normalizes a timestamp field: epoch milliseconds, or RFC 3339 text.
pub fn normalize_timestamp(value: &FieldValue) -> (r: Result<i64, NormalizationError>)
    ensures
        match r {
            Ok(ms) => spec_timestamp_of(*value) == Some(ms),
            Err(e) => spec_timestamp_of(*value) is None && ((e
                matches NormalizationError::InvalidType(_)) <==> (value is Other)),
        },
{
    match value {
        FieldValue::Integer(i) => Ok(*i),
        FieldValue::Text(bytes) => match parse_rfc3339_ms(bytes) {
            Some(ms) => Ok(ms),
            None => Err(NormalizationError::ParseError("timestamp".to_owned())),
        },
        FieldValue::Other => Err(
            NormalizationError::InvalidType("expected number or text".to_owned()),
        ),
    }
}

/// Uppercases ASCII bytes.
fn upper_bytes(s: &[u8]) -> (r: Vec<u8>)
    ensures
        r@ == spec_upper_seq(s@),
{
    let n = s.len();
    let mut out: Vec<u8> = Vec::new();
    let mut i: usize = 0;
    while i < n
        invariant
            i <= n,
            n == s@.len(),
            out@.len() == i,
            forall|j: int| 0 <= j < i ==> out@[j] == spec_upper(s@[j]),
        decreases n - i,
    {
        let c = s[i];
        if 97 <= c && c <= 122 {
            out.push(c - 32);
        } else {
            out.push(c);
        }
        i = i + 1;
    }
    proof {
        assert(out@ =~= spec_upper_seq(s@));
    }
    out
}

/// Normalizes a side text, case-insensitively.
pub fn normalize_side(value: &str) -> (r: Result<Side, NormalizationError>)
    ensures
        match r {
            Ok(side) => spec_side_of(value.spec_bytes()) == Some(side),
            Err(e) => spec_side_of(value.spec_bytes()) is None,
        },
{
    let u = upper_bytes(value.as_bytes());
    let r = if u.len() == 3 && u[0] == 66 && u[1] == 85 && u[2] == 89 {
        Some(Side::Buy)
    } else if u.len() == 1 && u[0] == 66 {
        Some(Side::Buy)
    } else if u.len() == 1 && u[0] == 49 {
        Some(Side::Buy)
    } else if u.len() == 4 && u[0] == 83 && u[1] == 69 && u[2] == 76 && u[3] == 76 {
        Some(Side::Sell)
    } else if u.len() == 1 && u[0] == 83 {
        Some(Side::Sell)
    } else if u.len() == 1 && u[0] == 50 {
        Some(Side::Sell)
    } else {
        None
    };
    proof {
        let us = spec_upper_seq(value.spec_bytes());
        assert(us == u@);
        if u@.len() == 3 && u@[0] == 66 && u@[1] == 85 && u@[2] == 89 {
            assert(us =~= seq![66u8, 85u8, 89u8]);
        }
        if u@.len() == 1 && u@[0] == 66 {
            assert(us =~= seq![66u8]);
        }
        if u@.len() == 1 && u@[0] == 49 {
            assert(us =~= seq![49u8]);
        }
        if u@.len() == 4 && u@[0] == 83 && u@[1] == 69 && u@[2] == 76 && u@[3] == 76 {
            assert(us =~= seq![83u8, 69u8, 76u8, 76u8]);
        }
        if u@.len() == 1 && u@[0] == 83 {
            assert(us =~= seq![83u8]);
        }
        if u@.len() == 1 && u@[0] == 50 {
            assert(us =~= seq![50u8]);
        }
        if us == seq![66u8, 85u8, 89u8] || us == seq![66u8] || us == seq![49u8] {
            assert(u@.len() >= 1 && u@[0] == us[0]);
        }
    }
    match r {
        Some(side) => Ok(side),
        None => Err(NormalizationError::InvalidType("unknown side".to_owned())),
    }
}

/// The tick an untrusted document denotes, if every field normalizes
/// and price and quantity are strictly positive.
pub open spec fn spec_tick_of(doc: TickDoc, venue: Venue) -> Option<Tick> {
    match doc.symbol {
        None => None,
        Some(sym) => match spec_price_of(doc.price) {
            None => None,
            Some(p) => if p <= 0 {
                None
            } else {
                match spec_price_of(doc.quantity) {
                    None => None,
                    Some(q) => if q <= 0 {
                        None
                    } else {
                        match spec_timestamp_of(doc.timestamp) {
                            None => None,
                            Some(ts) => match doc.side {
                                None => None,
                                Some(sd) => match spec_side_of(encode_utf8(sd@)) {
                                    None => None,
                                    Some(side) => Some(
                                        Tick {
                                            symbol: Symbol(sym),
                                            venue,
                                            price: spec_fixed(p),
                                            quantity: spec_fixed(q),
                                            timestamp: ts,
                                            side,
                                        },
                                    ),
                                },
                            },
                        }
                    },
                }
            },
        },
    }
}

/// Normalizes a trade-print document into a tick for a venue.
pub fn normalize_tick(doc: &TickDoc, venue: &Venue) -> (r: Result<Tick, IngestionError>)
    ensures
        match r {
            Ok(t) => spec_tick_of(*doc, *venue) == Some(t),
            Err(e) => spec_tick_of(*doc, *venue) is None,
        },
{
    let symbol: Symbol = match &doc.symbol {
        Some(s) => Symbol(s.clone()),
        None => {
            return Err(IngestionError::InvalidFormat("missing symbol".to_owned()));
        },
    };
    let price = match normalize_price(&doc.price) {
        Ok(p) => p,
        Err(e) => {
            return Err(IngestionError::Normalization(e));
        },
    };
    if !price.is_positive() {
        return Err(IngestionError::InvalidFormat("price must be positive".to_owned()));
    }
    let quantity = match normalize_quantity(&doc.quantity) {
        Ok(q) => q,
        Err(e) => {
            return Err(IngestionError::Normalization(e));
        },
    };
    if !quantity.is_positive() {
        return Err(IngestionError::InvalidFormat("quantity must be positive".to_owned()));
    }
    let timestamp = match normalize_timestamp(&doc.timestamp) {
        Ok(ts) => ts,
        Err(e) => {
            return Err(IngestionError::Normalization(e));
        },
    };
    let side = match &doc.side {
        Some(s) => match normalize_side(s.as_str()) {
            Ok(sd) => sd,
            Err(e) => {
                return Err(IngestionError::Normalization(e));
            },
        },
        None => {
            return Err(IngestionError::InvalidFormat("missing side".to_owned()));
        },
    };
    proof {
        use_type_invariant(price);
        use_type_invariant(quantity);
        crate::fixed::lemma_spec_fixed(price@);
        crate::fixed::lemma_spec_fixed(quantity@);
        lemma_fixed_eq(price, spec_fixed(price@));
        lemma_fixed_eq(quantity, spec_fixed(quantity@));
    }
    Ok(Tick { symbol, venue: venue.clone(), price, quantity, timestamp, side })
}

/// Serializes a tick into the canonical document the normalizer
/// accepts: decimals in canonical bytes, the timestamp in epoch
/// milliseconds, the side as its canonical word.
pub fn tick_to_doc(t: &Tick) -> (r: TickDoc)
    ensures
        (match r.symbol {
            Some(s) => s == t.symbol.0,
            None => false,
        }),
        (match r.price {
            FieldValue::Text(b) => b@ == spec_fixed_bytes(t.price@),
            _ => false,
        }),
        (match r.quantity {
            FieldValue::Text(b) => b@ == spec_fixed_bytes(t.quantity@),
            _ => false,
        }),
        r.timestamp == FieldValue::Integer(t.timestamp),
        (match r.side {
            Some(s) => s@ == (if t.side == Side::Buy {
                "BUY"@
            } else {
                "SELL"@
            }),
            None => false,
        }),
{
    let mut price_bytes: Vec<u8> = Vec::new();
    crate::codec::push_fixed_bytes(&mut price_bytes, t.price);
    let mut qty_bytes: Vec<u8> = Vec::new();
    crate::codec::push_fixed_bytes(&mut qty_bytes, t.quantity);
    let side_text: String = match t.side {
        Side::Buy => "BUY".to_owned(),
        Side::Sell => "SELL".to_owned(),
    };
    TickDoc {
        symbol: Some(t.symbol.0.clone()),
        price: FieldValue::Text(price_bytes),
        quantity: FieldValue::Text(qty_bytes),
        timestamp: FieldValue::Integer(t.timestamp),
        side: Some(side_text),
    }
}

/// Round trip: a document carrying the canonical serialization of a
/// valid tick normalizes back to that very tick.
pub proof fn lemma_tick_round_trip(t: Tick, doc: TickDoc)
    requires
        fits(t.price@),
        fits(t.quantity@),
        t.price@ > 0,
        t.quantity@ > 0,
        (match doc.symbol {
            Some(s) => s == t.symbol.0,
            None => false,
        }),
        (match doc.price {
            FieldValue::Text(b) => b@ == spec_fixed_bytes(t.price@),
            _ => false,
        }),
        (match doc.quantity {
            FieldValue::Text(b) => b@ == spec_fixed_bytes(t.quantity@),
            _ => false,
        }),
        doc.timestamp == FieldValue::Integer(t.timestamp),
        (match doc.side {
            Some(s) => s@ == (if t.side == Side::Buy {
                "BUY"@
            } else {
                "SELL"@
            }),
            None => false,
        }),
    ensures
        (match spec_tick_of(doc, t.venue) {
            Some(t2) => t2.symbol@ == t.symbol@ && t2.venue == t.venue && t2.price == t.price
                && t2.quantity == t.quantity && t2.timestamp == t.timestamp && t2.side == t.side,
            None => false,
        }),
{
    broadcast use vstd::utf8::is_ascii_chars_encode_utf8;

    lemma_decimal_round_trip(t.price@);
    lemma_decimal_round_trip(t.quantity@);
    crate::fixed::lemma_spec_fixed(t.price@);
    crate::fixed::lemma_spec_fixed(t.quantity@);
    lemma_fixed_eq(spec_fixed(t.price@), t.price);
    lemma_fixed_eq(spec_fixed(t.quantity@), t.quantity);
    let sd = (match doc.side {
        Some(s) => s,
        None => doc.side->Some_0,
    });
    if t.side == Side::Buy {
        reveal_strlit("BUY");
        assert(vstd::utf8::is_ascii_chars(sd@));
        let e = encode_utf8(sd@);
        assert(e =~= seq![66u8, 85u8, 89u8]);
        assert(spec_upper_seq(e) =~= seq![66u8, 85u8, 89u8]);
    } else {
        reveal_strlit("SELL");
        assert(vstd::utf8::is_ascii_chars(sd@));
        let e = encode_utf8(sd@);
        assert(e =~= seq![83u8, 69u8, 76u8, 76u8]);
        assert(spec_upper_seq(e) =~= seq![83u8, 69u8, 76u8, 76u8]);
    }
}

} // verus!
