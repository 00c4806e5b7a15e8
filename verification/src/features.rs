//! Deterministic feature derivations: contradiction, entropy, quoted
//! liquidity, realized volatility over a bounded price history, and
//! Wilder's relative-strength index. Pure functions of their inputs;
//! no clock is read anywhere.

use vstd::prelude::*;
use std::collections::VecDeque;
use crate::fixed::{
    fits, abs_i, div_tz, div_val, mul_val, ArithError, Fixed, BOUND, SCALE, WIDE_BOUND,
    lemma_div_val_nonneg, lemma_mul_val_nonneg,
};
use crate::normalization::{
    spec_book_wf, spec_cex_liquidity, spec_imbalance, spec_mid_price, spec_qty_sum, spec_spread,
    spec_spread_pct, calculate_cex_liquidity, calculate_depth_imbalance, calculate_spread_pct,
};
use crate::types::OrderBook;

verus! {

/// Upper bound on the configurable history length; keeps every
/// intermediate sum inside 128 bits.
pub const MAX_HISTORY_LIMIT: usize = 10_000;

/// Contradiction score: `|onchain - cex| / cex`, zero without quoted
/// liquidity.
pub open spec fn spec_contradiction(book: OrderBook, onchain: int) -> int {
    let cex = spec_cex_liquidity(book);
    if cex == 0 {
        0
    } else {
        div_val(abs_i(onchain - cex), cex)
    }
}

/// Entropy: `spread_pct * (1 + |imbalance|)`; a missing spread
/// percentage counts as zero.
pub open spec fn spec_entropy(book: OrderBook) -> int {
    let sp = match spec_spread_pct(book) {
        Some(p) => p,
        None => 0,
    };
    let imb = spec_imbalance(spec_qty_sum(book.bids@), spec_qty_sum(book.asks@));
    mul_val(sp, SCALE as int + abs_i(imb))
}

/// Every representability condition entropy needs.
pub open spec fn spec_entropy_ok(book: OrderBook) -> bool {
    &&& (match (spec_spread(book), spec_mid_price(book)) {
        (Some(sp), Some(mid)) => mid != 0 ==> (fits(div_val(sp, mid)) && fits(
            mul_val(div_val(sp, mid), 100 * SCALE as int),
        )),
        _ => true,
    })
    &&& fits(spec_qty_sum(book.bids@))
    &&& fits(spec_qty_sum(book.asks@))
    &&& fits(spec_qty_sum(book.bids@) + spec_qty_sum(book.asks@))
    &&& fits(spec_imbalance(spec_qty_sum(book.bids@), spec_qty_sum(book.asks@)))
    &&& fits(spec_entropy(book))
}

/// A perfect integer square root.
pub open spec fn is_sqrt(x: int, r: int) -> bool {
    0 <= r && r * r <= x && x < (r + 1) * (r + 1)
}

proof fn lemma_sqrt_unique(x: int, a: int, b: int)
    requires
        is_sqrt(x, a),
        is_sqrt(x, b),
    ensures
        a == b,
{
    if a < b {
        assert((a + 1) * (a + 1) <= b * b) by (nonlinear_arith)
            requires
                0 <= a,
                a + 1 <= b,
        ;
    }
    if b < a {
        assert((b + 1) * (b + 1) <= a * a) by (nonlinear_arith)
            requires
                0 <= b,
                b + 1 <= a,
        ;
    }
}

/// The integer square root, as a total function.
pub closed spec fn spec_isqrt(x: int) -> int {
    choose|r: int| is_sqrt(x, r)
}

/// Floor square root by bisection.
fn isqrt_u128(x: u128) -> (r: u128)
    ensures
        is_sqrt(x as int, r as int),
        r as int == spec_isqrt(x as int),
{
    let mut lo: u128 = 0;
    let mut hi: u128 = 18_446_744_073_709_551_616;
    proof {
        assert((hi as int) * (hi as int) > u128::MAX as int) by (nonlinear_arith)
            requires
                hi == 18_446_744_073_709_551_616u128,
        ;
    }
    while lo + 1 < hi
        invariant
            0 <= lo < hi,
            hi <= 18_446_744_073_709_551_616,
            (lo as int) * (lo as int) <= x as int,
            (x as int) < (hi as int) * (hi as int),
        decreases hi - lo,
    {
        let mid: u128 = lo + (hi - lo) / 2;
        assert((mid as int) * (mid as int) <= u128::MAX as int) by (nonlinear_arith)
            requires
                mid < 18_446_744_073_709_551_616u128,
        ;
        if mid * mid <= x {
            lo = mid;
        } else {
            hi = mid;
        }
    }
    proof {
        assert(is_sqrt(x as int, lo as int));
        let w = spec_isqrt(x as int);
        assert(is_sqrt(x as int, w)) by {
            assert(exists|r: int| is_sqrt(x as int, r)) by {
                assert(is_sqrt(x as int, lo as int));
            }
        }
        lemma_sqrt_unique(x as int, lo as int, w);
    }
    lo
}

/// The history after recording one price: append, then drop the
/// oldest sample once the ring exceeds its capacity.
pub open spec fn spec_push_history(h: Seq<Fixed>, max: int, p: Fixed) -> Seq<Fixed> {
    let h2 = h.push(p);
    if h2.len() > max {
        h2.subrange(1, h2.len() as int)
    } else {
        h2
    }
}

/// The simple return between consecutive history samples.
pub open spec fn spec_return_at(h: Seq<Fixed>, i: int) -> int {
    div_val(h[i + 1]@ - h[i]@, h[i]@)
}

/// All returns are representable.
pub open spec fn spec_returns_fit(h: Seq<Fixed>) -> bool {
    forall|i: int| 0 <= i < h.len() - 1 ==> fits(#[trigger] spec_return_at(h, i))
}

/// Sum of the first `k` returns.
pub open spec fn spec_returns_sum(h: Seq<Fixed>, k: int) -> int
    decreases k,
{
    if k <= 0 {
        0
    } else {
        spec_returns_sum(h, k - 1) + spec_return_at(h, k - 1)
    }
}

/// Sum of the first `k` squared deviations from `mean`, each
/// deviation required to be representable.
pub open spec fn spec_sq_dev_sum(h: Seq<Fixed>, mean: int, k: int) -> int
    decreases k,
{
    if k <= 0 {
        0
    } else {
        spec_sq_dev_sum(h, mean, k - 1) + mul_val(
            spec_return_at(h, k - 1) - mean,
            spec_return_at(h, k - 1) - mean,
        )
    }
}

/// All deviations from `mean` are representable.
pub open spec fn spec_devs_fit(h: Seq<Fixed>, mean: int) -> bool {
    forall|i: int| 0 <= i < h.len() - 1 ==> fits((#[trigger] spec_return_at(h, i)) - mean)
}

/// Mean and population variance of the returns of a history, or
/// `None` where an intermediate leaves the representable range.
pub open spec fn spec_vol_stats(h: Seq<Fixed>) -> Option<(int, int)> {
    let n = h.len() - 1;
    if !spec_returns_fit(h) {
        None
    } else {
        let mean = div_tz(spec_returns_sum(h, n), n);
        if !fits(mean) || !spec_devs_fit(h, mean) {
            None
        } else {
            let variance = div_tz(spec_sq_dev_sum(h, mean, n), n);
            if !fits(variance) {
                None
            } else {
                Some((mean, variance))
            }
        }
    }
}

/// Annualized volatility mantissa from a variance mantissa: the square
/// root of the value, scaled by the fixed factor 724.
pub open spec fn spec_volatility_of(variance: int) -> int {
    spec_isqrt(variance * SCALE as int) * 724
}

/// Feature calculator: stateless but for the bounded price ring.
pub struct FeatureCalculator {
    pub price_history: VecDeque<Fixed>,
    pub max_history: usize,
}

impl FeatureCalculator {
    /// Well-formedness: positive samples, bounded ring.
    pub open spec fn wf(self) -> bool {
        &&& forall|i: int|
            0 <= i < self.price_history@.len() ==> (#[trigger] self.price_history@[i])@ > 0
        &&& self.price_history@.len() <= self.max_history as int
        &&& 1 <= self.max_history <= MAX_HISTORY_LIMIT
    }

    /// A fresh calculator with an empty ring of the given capacity.
    pub fn new(max_history: usize) -> (r: FeatureCalculator)
        requires
            1 <= max_history <= MAX_HISTORY_LIMIT,
        ensures
            r.wf(),
            r.price_history@.len() == 0,
            r.max_history == max_history,
    {
        FeatureCalculator { price_history: VecDeque::new(), max_history }
    }

    /// Divergence between on-chain and quoted liquidity, relative to
    /// the quoted side; zero when nothing is quoted.
    pub fn calculate_contradiction_score(
        &self,
        book: &OrderBook,
        onchain_liquidity: Fixed,
    ) -> (r: Result<Fixed, ArithError>)
        requires
            spec_book_wf(*book),
        ensures
            match r {
                Ok(v) => v@ == spec_contradiction(*book, onchain_liquidity@) && fits(
                    spec_cex_liquidity(*book),
                ) && fits(spec_contradiction(*book, onchain_liquidity@)),
                Err(e) => e == ArithError::Overflow && !(fits(spec_cex_liquidity(*book)) && fits(
                    spec_contradiction(*book, onchain_liquidity@),
                )),
            },
    {
        let cex = match calculate_cex_liquidity(book) {
            Ok(v) => v,
            Err(_) => {
                return Err(ArithError::Overflow);
            },
        };
        if cex.is_zero() {
            return Ok(Fixed::zero());
        }
        proof {
            use_type_invariant(cex);
            use_type_invariant(onchain_liquidity);
        }
        let diff: i128 = onchain_liquidity.mantissa() - cex.mantissa();
        let ad: i128 = if diff < 0 {
            -diff
        } else {
            diff
        };
        let score: i128 = Fixed::wide_div(ad, cex);
        match Fixed::try_from_mantissa(score) {
            Some(v) => Ok(v),
            None => Err(ArithError::Overflow),
        }
    }

    /// Market disorder: the spread percentage inflated by imbalance.
    pub fn calculate_entropy(&self, book: &OrderBook) -> (r: Result<Fixed, ArithError>)
        requires
            spec_book_wf(*book),
        ensures
            match r {
                Ok(v) => v@ == spec_entropy(*book) && spec_entropy_ok(*book),
                Err(e) => e == ArithError::Overflow && !spec_entropy_ok(*book),
            },
    {
        let sp: Fixed = match calculate_spread_pct(book) {
            Ok(Some(v)) => v,
            Ok(None) => Fixed::zero(),
            Err(_) => {
                return Err(ArithError::Overflow);
            },
        };
        let imb: Fixed = match calculate_depth_imbalance(book) {
            Ok(v) => v,
            Err(_) => {
                return Err(ArithError::Overflow);
            },
        };
        proof {
            use_type_invariant(sp);
            use_type_invariant(imb);
        }
        let im: i128 = imb.mantissa();
        let factor: i128 = SCALE + (if im < 0 {
            -im
        } else {
            im
        });
        let sm: i128 = sp.mantissa();
        proof {
            lemma_entropy_nonneg_parts(*book, sp@);
            assert((sm as int) * (factor as int) <= u128::MAX as int) by (nonlinear_arith)
                requires
                    0 <= sm as int <= BOUND as int,
                    0 <= factor as int <= BOUND as int + SCALE as int,
            ;
        }
        let p: u128 = (sm as u128) * (factor as u128);
        let q: u128 = p / (SCALE as u128);
        proof {
            assert(factor as int == SCALE as int + abs_i(imb@));
            assert(p as int == (sm as int) * (factor as int));
            assert(q as int == mul_val(sp@, SCALE as int + abs_i(imb@)));
        }
        if q > BOUND as u128 {
            return Err(ArithError::Overflow);
        }
        Ok(Fixed::from_mantissa(q as i128))
    }

    /// Quoted liquidity of a book: the mean top-ten notional.
    pub fn calculate_cex_liquidity(&self, book: &OrderBook) -> (r: Result<Fixed, ArithError>)
        requires
            spec_book_wf(*book),
        ensures
            match r {
                Ok(v) => v@ == spec_cex_liquidity(*book) && fits(spec_cex_liquidity(*book)),
                Err(e) => e == ArithError::Overflow && !fits(spec_cex_liquidity(*book)),
            },
    {
        calculate_cex_liquidity(book)
    }

    /// Records a price and returns the annualized realized volatility
    /// of the retained history; zero until two samples exist.
    pub fn calculate_volatility(&mut self, current_price: Fixed) -> (r: Result<
        Fixed,
        ArithError,
    >)
        requires
            old(self).wf(),
            current_price@ > 0,
        ensures
            final(self).wf(),
            final(self).max_history == old(self).max_history,
            final(self).price_history@ == spec_push_history(
                old(self).price_history@,
                old(self).max_history as int,
                current_price,
            ),
            match r {
                Ok(v) => {
                    let h = final(self).price_history@;
                    if h.len() < 2 {
                        v@ == 0
                    } else {
                        match spec_vol_stats(h) {
                            Some((mean, variance)) => v@ == spec_volatility_of(variance) && fits(
                                spec_volatility_of(variance),
                            ),
                            None => false,
                        }
                    }
                },
                Err(e) => {
                    let h = final(self).price_history@;
                    e == ArithError::Overflow && h.len() >= 2 && (match spec_vol_stats(h) {
                        Some((mean, variance)) => !fits(spec_volatility_of(variance)),
                        None => true,
                    })
                },
            },
    {
        self.price_history.push_back(current_price);
        if self.price_history.len() > self.max_history {
            let _ = self.price_history.pop_front();
        }
        proof {
            assert(self.price_history@ =~= spec_push_history(
                old(self).price_history@,
                old(self).max_history as int,
                current_price,
            ));
        }
        let n_samples = self.price_history.len();
        if n_samples < 2 {
            return Ok(Fixed::zero());
        }
        let ghost h = self.price_history@;
        let n: usize = n_samples - 1;
        let mut rets: Vec<i128> = Vec::new();
        let mut sum: i128 = 0;
        let mut i: usize = 0;
        while i < n
            invariant
                i <= n,
                n + 1 == h.len(),
                h == self.price_history@,
                self.wf(),
                self.max_history == old(self).max_history,
                self.price_history@ == spec_push_history(
                    old(self).price_history@,
                    old(self).max_history as int,
                    current_price,
                ),
                forall|k: int| 0 <= k < h.len() ==> (#[trigger] h[k])@ > 0,
                n <= MAX_HISTORY_LIMIT,
                rets@.len() == i,
                forall|k: int|
                    0 <= k < i ==> (#[trigger] rets@[k]) as int == spec_return_at(h, k) && fits(
                        rets@[k] as int,
                    ),
                sum as int == spec_returns_sum(h, i as int),
                -(i as int) * (BOUND as int) <= sum as int <= (i as int) * (BOUND as int),
            decreases n - i,
        {
            let p0 = self.price_history[i];
            let p1 = self.price_history[i + 1];
            proof {
                use_type_invariant(p0);
                use_type_invariant(p1);
            }
            let d: i128 = p1.mantissa() - p0.mantissa();
            let ret: i128 = Fixed::wide_div(d, p0);
            if ret > BOUND || ret < -BOUND {
                proof {
                    assert(!fits(spec_return_at(h, i as int)));
                }
                return Err(ArithError::Overflow);
            }
            proof {
                assert(((i + 1) as int) * (BOUND as int) == (i as int) * (BOUND as int) + (
                BOUND as int)) by (nonlinear_arith);
            }
            rets.push(ret);
            sum = sum + ret;
            i = i + 1;
        }
        proof {
            assert forall|k: int| 0 <= k < h.len() - 1 implies fits(
                #[trigger] spec_return_at(h, k),
            ) by {
                assert(rets@[k] as int == spec_return_at(h, k) && fits(rets@[k] as int));
            }
        }
        let mean: i128 = Fixed::div_tz_wide(sum, n as i128);
        if mean > BOUND || mean < -BOUND {
            return Err(ArithError::Overflow);
        }
        let mean_f = Fixed::from_mantissa(mean);
        let mut sq_sum: i128 = 0;
        let mut j: usize = 0;
        while j < n
            invariant
                j <= n,
                n + 1 == h.len(),
                h == self.price_history@,
                self.wf(),
                self.max_history == old(self).max_history,
                self.price_history@ == spec_push_history(
                    old(self).price_history@,
                    old(self).max_history as int,
                    current_price,
                ),
                n <= MAX_HISTORY_LIMIT,
                rets@.len() == n,
                forall|k: int|
                    0 <= k < n ==> (#[trigger] rets@[k]) as int == spec_return_at(h, k) && fits(
                        rets@[k] as int,
                    ),
                mean_f@ == mean as int,
                fits(mean as int),
                mean as int == div_tz(spec_returns_sum(h, n as int), n as int),
                spec_returns_fit(h),
                forall|k: int| 0 <= k < j ==> fits(#[trigger] spec_return_at(h, k) - mean as int),
                sq_sum as int == spec_sq_dev_sum(h, mean as int, j as int),
                0 <= sq_sum as int <= (j as int) * (WIDE_BOUND as int),
            decreases n - j,
        {
            let d: i128 = rets[j] - mean;
            if d > BOUND || d < -BOUND {
                proof {
                    assert(!fits(spec_return_at(h, j as int) - mean as int));
                }
                return Err(ArithError::Overflow);
            }
            let d_f = Fixed::from_mantissa(d);
            let sq: i128 = d_f.wide_mul(d_f);
            proof {
                let x = d as int;
                assert(x * x >= 0) by (nonlinear_arith);
                vstd::arithmetic::div_mod::lemma_div_pos_is_pos(x * x, SCALE as int);
                assert(((j + 1) as int) * (WIDE_BOUND as int) == (j as int) * (WIDE_BOUND as int)
                    + (WIDE_BOUND as int)) by (nonlinear_arith);
            }
            sq_sum = sq_sum + sq;
            j = j + 1;
        }
        proof {
            assert(spec_devs_fit(h, mean as int));
        }
        let variance: i128 = Fixed::div_tz_wide(sq_sum, n as i128);
        proof {
            vstd::arithmetic::div_mod::lemma_div_pos_is_pos(sq_sum as int, n as int);
            assert(variance as int == div_tz(spec_sq_dev_sum(h, mean as int, n as int), n as int));
        }
        if variance > BOUND {
            return Err(ArithError::Overflow);
        }
        proof {
            assert(spec_vol_stats(h) == Some((mean as int, variance as int)));
            assert((variance as int) * (SCALE as int) <= u128::MAX as int && (variance as int) * (
            SCALE as int) <= (BOUND as int) * (SCALE as int)) by (nonlinear_arith)
                requires
                    0 <= variance as int <= BOUND as int,
            ;
        }
        let scaled: u128 = (variance as u128) * (SCALE as u128);
        let root: u128 = isqrt_u128(scaled);
        proof {
            assert((root as int) * (root as int) <= (BOUND as int) * (SCALE as int));
            lemma_sqrt_le(root as int, BOUND as int * SCALE as int);
            assert((root as int) * 724 <= u128::MAX as int) by (nonlinear_arith)
                requires
                    0 <= root as int <= 1_000_000_000_000_000_000int,
            ;
        }
        let vol: u128 = root * 724;
        if vol > BOUND as u128 {
            return Err(ArithError::Overflow);
        }
        Ok(Fixed::from_mantissa(vol as i128))
    }
}

proof fn lemma_entropy_nonneg_parts(book: OrderBook, sp: int)
    requires
        spec_book_wf(book),
        sp == (match spec_spread_pct(book) {
            Some(p) => p,
            None => 0,
        }),
    ensures
        sp >= 0,
{
    match (spec_spread(book), spec_mid_price(book)) {
        (Some(spread), Some(mid)) => {
            if mid != 0 {
                vstd::arithmetic::div_mod::lemma_div_pos_is_pos(
                    book.bids@[0].price@ + book.asks@[0].price@,
                    2,
                );
                lemma_div_val_nonneg(spread, mid);
                lemma_mul_val_nonneg(div_val(spread, mid), 100 * SCALE as int);
            }
        },
        _ => {},
    }
}

/// A root below a square is below the square's root bound.
proof fn lemma_sqrt_le(r: int, cap: int)
    requires
        r >= 0,
        r * r <= cap,
        cap <= 1_000_000_000_000_000_000_000_000_000_000_000int,
    ensures
        r <= 1_000_000_000_000_000_000int,
{
    if r > 1_000_000_000_000_000_000int {
        assert(r * r > 1_000_000_000_000_000_000_000_000_000_000_000_000int) by (nonlinear_arith)
            requires
                r > 1_000_000_000_000_000_000int,
        ;
    }
}


/// Sum of the positive moves (`gains`) or negative moves (losses) of
/// the first `k` steps of a price series.
pub open spec fn spec_move_sum(p: Seq<Fixed>, k: int, gains: bool) -> int
    decreases k,
{
    if k <= 0 {
        0
    } else {
        let d = if gains {
            p[k]@ - p[k - 1]@
        } else {
            p[k - 1]@ - p[k]@
        };
        spec_move_sum(p, k - 1, gains) + (if d > 0 {
            d
        } else {
            0int
        })
    }
}

proof fn lemma_move_sum_mono(p: Seq<Fixed>, i: int, k: int, gains: bool)
    requires
        0 <= i <= k,
    ensures
        spec_move_sum(p, i, gains) <= spec_move_sum(p, k, gains),
    decreases k - i,
{
    if i < k {
        lemma_move_sum_mono(p, i, k - 1, gains);
    }
}

/// Wilder's relative-strength index over the whole series: one
/// hundred when no move was ever lost.
pub open spec fn spec_rsi(g: int, l: int) -> int {
    if l == 0 {
        100 * SCALE as int
    } else {
        100 * SCALE as int - div_val(100 * SCALE as int, SCALE as int + div_val(g, l))
    }
}

impl FeatureCalculator {
    /// The relative-strength index of a price series, or nothing when
    /// fewer than `period + 1` samples exist.
    pub fn calculate_rsi(&self, prices: &Vec<Fixed>, period: usize) -> (r: Result<
        Option<Fixed>,
        ArithError,
    >)
        requires
            forall|k: int| 0 <= k < prices@.len() ==> (#[trigger] prices@[k])@ > 0,
        ensures
            match r {
                Ok(None) => prices@.len() < period + 1,
                Ok(Some(v)) => {
                    let n = prices@.len() - 1;
                    &&& prices@.len() >= period + 1
                    &&& fits(spec_move_sum(prices@, n, true))
                    &&& fits(spec_move_sum(prices@, n, false))
                    &&& v@ == spec_rsi(
                        spec_move_sum(prices@, n, true),
                        spec_move_sum(prices@, n, false),
                    )
                },
                Err(e) => {
                    let n = prices@.len() - 1;
                    e == ArithError::Overflow && prices@.len() >= period + 1 && !(fits(
                        spec_move_sum(prices@, n, true),
                    ) && fits(spec_move_sum(prices@, n, false)))
                },
            },
    {
        let len = prices.len();
        if len < 1 || len - 1 < period || period == usize::MAX {
            return Ok(None);
        }
        let ghost p = prices@;
        let n: usize = len - 1;
        let mut gains: i128 = 0;
        let mut losses: i128 = 0;
        let mut k: usize = 1;
        while k <= n
            invariant
                1 <= k <= n + 1,
                n + 1 == p.len(),
                n < usize::MAX,
                p.len() >= period + 1,
                p == prices@,
                forall|t: int| 0 <= t < p.len() ==> (#[trigger] p[t])@ > 0,
                gains as int == spec_move_sum(p, k as int - 1, true),
                losses as int == spec_move_sum(p, k as int - 1, false),
                0 <= gains <= BOUND,
                0 <= losses <= BOUND,
            decreases n + 1 - k,
        {
            let prev = prices[k - 1];
            let cur = prices[k];
            proof {
                use_type_invariant(prev);
                use_type_invariant(cur);
            }
            let d: i128 = cur.mantissa() - prev.mantissa();
            if d > 0 {
                let new_gains = gains + d;
                if new_gains > BOUND {
                    proof {
                        lemma_move_sum_mono(p, k as int, n as int, true);
                    }
                    return Err(ArithError::Overflow);
                }
                gains = new_gains;
            } else if d < 0 {
                let new_losses = losses + (-d);
                if new_losses > BOUND {
                    proof {
                        lemma_move_sum_mono(p, k as int, n as int, false);
                    }
                    return Err(ArithError::Overflow);
                }
                losses = new_losses;
            }
            k = k + 1;
        }
        if losses == 0 {
            proof {
                assert(100int * (SCALE as int) == 10_000_000_000_000_000int) by (nonlinear_arith);
            }
            return Ok(Some(Fixed::from_mantissa(100 * SCALE)));
        }
        let losses_f = Fixed::from_mantissa(losses);
        let rs: i128 = Fixed::wide_div(gains, losses_f);
        proof {
            crate::fixed::lemma_div_val_nonneg(gains as int, losses as int);
        }
        let denom: i128 = SCALE + rs;
        let q: u128 = 1_000_000_000_000_000_000_000_000_000_000u128 / (denom as u128);
        proof {
            vstd::arithmetic::div_mod::lemma_div_is_ordered_by_denominator(
                1_000_000_000_000_000_000_000_000_000_000int,
                SCALE as int,
                denom as int,
            );
            vstd::arithmetic::div_mod::lemma_div_pos_is_pos(
                1_000_000_000_000_000_000_000_000_000_000int,
                denom as int,
            );
            assert(1_000_000_000_000_000_000_000_000_000_000int / 100_000_000_000_000int
                == 10_000_000_000_000_000int) by (nonlinear_arith);
            assert(100 * (SCALE as int) == 10_000_000_000_000_000int);
            assert(10_000_000_000_000_000int * 100_000_000_000_000int
                == 1_000_000_000_000_000_000_000_000_000_000int) by (nonlinear_arith);
            assert(SCALE as int == 100_000_000_000_000int);
            assert(q as int == div_val(100 * SCALE as int, denom as int));
        }
        let rsi_m: i128 = 100 * SCALE - (q as i128);
        Ok(Some(Fixed::from_mantissa(rsi_m)))
    }
}

} // verus!
