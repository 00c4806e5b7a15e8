//! Portfolio accounting: the sole owner of position lifetimes. Fills
//! update positions (volume-weighted entries, reductions, closes),
//! marks-to-market update prices, and every mutation recomputes the
//! derived exposure, leverage and energy fields before it returns; a
//! mutation that cannot be represented fails without changing state.

use vstd::prelude::*;
use crate::fixed::{
    fits, spec_fixed, mul_val, div_val, ArithError, Fixed, BOUND, WIDE_BOUND, lemma_fixed_eq,
    lemma_spec_fixed, lemma_mul_val_nonneg, lemma_div_val_nonneg,
};
use crate::hamiltonian::{spec_penalty, spec_energy, penalty_m};
use crate::types::{Portfolio, Position, Side, Symbol, Venue};

verus! {

broadcast use lemma_spec_fixed;

/// Exposure mantissa of one position: `quantity * current_price`.
pub open spec fn spec_exposure(p: Position) -> int {
    mul_val(p.quantity@, p.current_price@)
}

/// Profit mantissa of closing `qty` units entered at `entry` against
/// `price`, under the side's sign convention.
pub open spec fn spec_signed_pnl(side: Side, entry: int, price: int, qty: int) -> int {
    match side {
        Side::Buy => mul_val(price - entry, qty),
        Side::Sell => mul_val(entry - price, qty),
    }
}

/// The unrealized profit a position must carry to be consistent.
pub open spec fn spec_upnl(p: Position) -> int {
    spec_signed_pnl(p.side, p.entry_price@, p.current_price@, p.quantity@)
}

/// Sum of exposures.
pub open spec fn spec_total_exposure(s: Seq<Position>) -> int
    decreases s.len(),
{
    if s.len() == 0 {
        0
    } else {
        spec_total_exposure(s.drop_last()) + spec_exposure(s.last())
    }
}

/// Sum of exposures on one side.
pub open spec fn spec_side_exposure(s: Seq<Position>, side: Side) -> int
    decreases s.len(),
{
    if s.len() == 0 {
        0
    } else {
        spec_side_exposure(s.drop_last(), side) + if s.last().side == side {
            spec_exposure(s.last())
        } else {
            0int
        }
    }
}

/// Sum of the stored unrealized-profit fields.
pub open spec fn spec_upnl_sum(s: Seq<Position>) -> int
    decreases s.len(),
{
    if s.len() == 0 {
        0
    } else {
        spec_upnl_sum(s.drop_last()) + s.last().unrealized_pnl@
    }
}

/// Every prefix sum of unrealized profit stays representable; the
/// accounting accumulates them with checked arithmetic in this order.
pub open spec fn spec_upnl_prefixes_fit(s: Seq<Position>) -> bool
    decreases s.len(),
{
    if s.len() == 0 {
        true
    } else {
        spec_upnl_prefixes_fit(s.drop_last()) && fits(spec_upnl_sum(s))
    }
}

/// One position is internally consistent.
pub open spec fn spec_position_ok(p: Position) -> bool {
    &&& p.quantity@ > 0
    &&& p.current_price@ > 0
    &&& p.entry_price@ >= 0
    &&& p.unrealized_pnl@ == spec_upnl(p)
}

/// A position set is consistent: each position is, and symbols are
/// unique.
pub open spec fn spec_positions_ok(s: Seq<Position>) -> bool {
    &&& forall|i: int| 0 <= i < s.len() ==> spec_position_ok(#[trigger] s[i])
    &&& forall|i: int, j: int|
        0 <= i < j < s.len() ==> s[i].symbol@ != s[j].symbol@
}

/// Leverage mantissa: exposure over equity, zero without equity.
pub open spec fn spec_leverage(total: int, equity: int) -> int {
    if equity <= 0 {
        0
    } else {
        div_val(total, equity)
    }
}

/// Whether the derived metrics of a position set and cash balance are
/// all representable; a mutation fails exactly when they are not.
pub open spec fn spec_metrics_ok(s: Seq<Position>, cash: int) -> bool {
    let total = spec_total_exposure(s);
    let equity = cash + spec_upnl_sum(s);
    let lev = spec_leverage(total, equity);
    &&& fits(total)
    &&& spec_upnl_prefixes_fit(s)
    &&& fits(equity)
    &&& fits(lev)
    &&& fits(spec_energy(lev, spec_penalty(s)))
}

/// Index of the first position on `sym`, or -1.
pub open spec fn spec_find(s: Seq<Position>, sym: Seq<char>) -> int
    decreases s.len(),
{
    if s.len() == 0 {
        -1
    } else if s[0].symbol@ == sym {
        0
    } else {
        let r = spec_find(s.subrange(1, s.len() as int), sym);
        if r == -1 {
            -1
        } else {
            r + 1
        }
    }
}

proof fn lemma_find_none(s: Seq<Position>, sym: Seq<char>)
    requires
        forall|j: int| 0 <= j < s.len() ==> s[j].symbol@ != sym,
    ensures
        spec_find(s, sym) == -1,
    decreases s.len(),
{
    if s.len() > 0 {
        let t = s.subrange(1, s.len() as int);
        assert(forall|j: int| 0 <= j < t.len() ==> t[j] == s[j + 1]);
        lemma_find_none(t, sym);
    }
}

proof fn lemma_find_first(s: Seq<Position>, sym: Seq<char>, i: int)
    requires
        0 <= i < s.len(),
        s[i].symbol@ == sym,
        forall|j: int| 0 <= j < i ==> s[j].symbol@ != sym,
    ensures
        spec_find(s, sym) == i,
    decreases i,
{
    if i > 0 {
        let t = s.subrange(1, s.len() as int);
        assert(forall|j: int| 0 <= j < t.len() ==> t[j] == s[j + 1]);
        lemma_find_first(t, sym, i - 1);
    }
}

/// First position on a symbol, with the facts a caller needs: where it
/// is, that it matches, and that nothing before it does.
fn find_index(positions: &Vec<Position>, symbol: &Symbol) -> (r: Option<usize>)
    ensures
        match r {
            Some(i) => i < positions@.len() && positions@[i as int].symbol@ == symbol@
                && (forall|j: int| 0 <= j < i ==> positions@[j].symbol@ != symbol@) && spec_find(
                positions@,
                symbol@,
            ) == i as int,
            None => (forall|j: int| 0 <= j < positions@.len() ==> positions@[j].symbol@ != symbol@)
                && spec_find(positions@, symbol@) == -1,
        },
{
    let n = positions.len();
    let mut i: usize = 0;
    while i < n
        invariant
            i <= n,
            n == positions@.len(),
            forall|j: int| 0 <= j < i ==> positions@[j].symbol@ != symbol@,
        decreases n - i,
    {
        if positions[i].symbol.same_as(symbol) {
            proof {
                lemma_find_first(positions@, symbol@, i as int);
            }
            return Some(i);
        }
        i = i + 1;
    }
    proof {
        lemma_find_none(positions@, symbol@);
    }
    None
}

proof fn lemma_exposure_nonneg(p: Position)
    requires
        spec_position_ok(p),
    ensures
        spec_exposure(p) >= 0,
{
    lemma_mul_val_nonneg(p.quantity@, p.current_price@);
}

proof fn lemma_total_take_le(s: Seq<Position>, i: int)
    requires
        0 <= i <= s.len(),
        forall|k: int| 0 <= k < s.len() ==> spec_position_ok(#[trigger] s[k]),
    ensures
        spec_total_exposure(s.take(i)) <= spec_total_exposure(s),
    decreases s.len() - i,
{
    if i == s.len() {
        assert(s.take(i) =~= s);
    } else {
        assert(s.take(i + 1).drop_last() =~= s.take(i));
        assert(s.take(i + 1).last() == s[i]);
        lemma_exposure_nonneg(s[i]);
        lemma_total_take_le(s, i + 1);
    }
}

proof fn lemma_upnl_prefixes_fit_take(s: Seq<Position>, i: int)
    requires
        0 <= i <= s.len(),
        spec_upnl_prefixes_fit(s),
    ensures
        spec_upnl_prefixes_fit(s.take(i)),
    decreases s.len(),
{
    if i == s.len() {
        assert(s.take(i) =~= s);
    } else if s.len() > 0 {
        assert(s.drop_last().take(i) =~= s.take(i));
        lemma_upnl_prefixes_fit_take(s.drop_last(), i);
    }
}

/// The derived metrics of a position set and a cash balance, all
/// checked: total exposure, net exposure, equity, leverage and energy.
fn recompute_metrics(positions: &Vec<Position>, cash: Fixed) -> (r: Result<
    (Fixed, Fixed, Fixed, Fixed, Fixed),
    ArithError,
>)
    requires
        spec_positions_ok(positions@),
    ensures
        match r {
            Ok((total, net, equity, leverage, energy)) => {
                &&& spec_metrics_ok(positions@, cash@)
                &&& total@ == spec_total_exposure(positions@)
                &&& net@ == spec_side_exposure(positions@, Side::Buy) - spec_side_exposure(
                    positions@,
                    Side::Sell,
                )
                &&& equity@ == cash@ + spec_upnl_sum(positions@)
                &&& leverage@ == spec_leverage(total@, equity@)
                &&& energy@ == spec_energy(leverage@, spec_penalty(positions@))
            },
            Err(e) => e == ArithError::Overflow && !spec_metrics_ok(positions@, cash@),
        },
{
    let ghost s = positions@;
    let n = positions.len();
    let mut total_m: i128 = 0;
    let mut long_m: i128 = 0;
    let mut short_m: i128 = 0;
    let mut upnl_m: i128 = 0;
    let mut j: usize = 0;
    while j < n
        invariant
            j <= n,
            n == s.len(),
            s == positions@,
            spec_positions_ok(s),
            total_m as int == spec_total_exposure(s.take(j as int)),
            0 <= total_m <= BOUND,
            long_m as int == spec_side_exposure(s.take(j as int), Side::Buy),
            short_m as int == spec_side_exposure(s.take(j as int), Side::Sell),
            long_m >= 0,
            short_m >= 0,
            long_m + short_m == total_m,
            upnl_m as int == spec_upnl_sum(s.take(j as int)),
            fits(upnl_m as int),
            spec_upnl_prefixes_fit(s.take(j as int)),
        decreases n - j,
    {
        proof {
            assert(s.take(j as int + 1).drop_last() =~= s.take(j as int));
            assert(s.take(j as int + 1).last() == s[j as int]);
            lemma_exposure_nonneg(s[j as int]);
        }
        let p = &positions[j];
        let e: i128 = p.quantity.wide_mul(p.current_price);
        let new_total: i128 = total_m + e;
        if new_total > BOUND {
            proof {
                lemma_total_take_le(s, j as int + 1);
            }
            return Err(ArithError::Overflow);
        }
        total_m = new_total;
        if matches!(p.side, Side::Buy) {
            long_m = long_m + e;
        } else {
            short_m = short_m + e;
        }
        let new_upnl: i128 = upnl_m + p.unrealized_pnl.mantissa();
        if new_upnl > BOUND || new_upnl < -BOUND {
            proof {
                assert(!spec_upnl_prefixes_fit(s.take(j as int + 1)));
                if spec_upnl_prefixes_fit(s) {
                    lemma_upnl_prefixes_fit_take(s, j as int + 1);
                }
            }
            return Err(ArithError::Overflow);
        }
        upnl_m = new_upnl;
        j = j + 1;
    }
    proof {
        assert(s.take(n as int) =~= s);
    }
    let equity_m: i128 = cash.mantissa() + upnl_m;
    if equity_m > BOUND || equity_m < -BOUND {
        return Err(ArithError::Overflow);
    }
    let total = Fixed::from_mantissa(total_m);
    let net = Fixed::from_mantissa(long_m - short_m);
    let equity = Fixed::from_mantissa(equity_m);
    let leverage: Fixed = if equity_m <= 0 {
        Fixed::zero()
    } else {
        match total.checked_div(equity) {
            Ok(l) => l,
            Err(_) => {
                return Err(ArithError::Overflow);
            },
        }
    };
    let lev_sq: i128 = leverage.wide_mul(leverage);
    proof {
        use_type_invariant(leverage);
        let x = leverage@;
        assert(x * x >= 0) by (nonlinear_arith);
        vstd::arithmetic::div_mod::lemma_div_pos_is_pos(x * x, crate::fixed::SCALE as int);
    }
    let pen: i128 = penalty_m(positions);
    assert((usize::MAX as int) * (crate::constants::CORRELATION_PENALTY_UNIT_M as int) + (
    WIDE_BOUND as int) < i128::MAX as int) by (nonlinear_arith);
    let sum: i128 = lev_sq + pen;
    let half: u128 = (sum as u128) / 2;
    if half > BOUND as u128 {
        return Err(ArithError::Overflow);
    }
    let energy = Fixed::from_mantissa(half as i128);
    Ok((total, net, equity, leverage, energy))
}

/// Closing (or carrying) profit mantissa, wide and exact.
fn signed_pnl_m(side: Side, entry: Fixed, price: Fixed, qty: Fixed) -> (r: i128)
    requires
        entry@ >= 0,
        price@ >= 0,
    ensures
        r as int == spec_signed_pnl(side, entry@, price@, qty@),
        -(WIDE_BOUND as int) <= r as int <= WIDE_BOUND as int,
{
    proof {
        use_type_invariant(entry);
        use_type_invariant(price);
    }
    let d_m: i128 = match side {
        Side::Buy => price.mantissa() - entry.mantissa(),
        Side::Sell => entry.mantissa() - price.mantissa(),
    };
    let d = Fixed::from_mantissa(d_m);
    d.wide_mul(qty)
}

/// The accounting state a manager tracks, abstractly: the open
/// positions, the cash balance, and the realized profit to date.
pub ghost struct ManagerView {
    pub positions: Seq<Position>,
    pub cash: int,
    pub realized: int,
}

/// What one fill does to a position set: the new set and the realized
/// profit mantissa of whatever the fill closed, or `None` where a
/// result would leave the representable range.
pub open spec fn spec_apply_fill(
    s: Seq<Position>,
    symbol: Symbol,
    venue: Venue,
    side: Side,
    quantity: Fixed,
    price: Fixed,
) -> Option<(Seq<Position>, int)> {
    let i = spec_find(s, symbol@);
    if i == -1 {
        Some(
            (
                s.push(
                    Position {
                        symbol,
                        venue,
                        side,
                        quantity,
                        entry_price: price,
                        current_price: price,
                        unrealized_pnl: spec_fixed(0),
                        realized_pnl: spec_fixed(0),
                    },
                ),
                0,
            ),
        )
    } else {
        let p = s[i];
        if p.side == side {
            let nq = p.quantity@ + quantity@;
            let vnum = mul_val(p.quantity@, p.entry_price@) + mul_val(quantity@, price@);
            let entry = div_val(vnum, nq);
            let u = spec_signed_pnl(p.side, entry, price@, nq);
            if fits(nq) && fits(entry) && fits(u) {
                Some(
                    (
                        s.update(
                            i,
                            Position {
                                symbol: p.symbol,
                                venue: p.venue,
                                side: p.side,
                                quantity: spec_fixed(nq),
                                entry_price: spec_fixed(entry),
                                current_price: price,
                                unrealized_pnl: spec_fixed(u),
                                realized_pnl: p.realized_pnl,
                            },
                        ),
                        0,
                    ),
                )
            } else {
                None
            }
        } else if quantity@ >= p.quantity@ {
            Some((s.remove(i), spec_signed_pnl(p.side, p.entry_price@, price@, p.quantity@)))
        } else {
            let rq = p.quantity@ - quantity@;
            let rd = spec_signed_pnl(p.side, p.entry_price@, price@, quantity@);
            let u = spec_signed_pnl(p.side, p.entry_price@, price@, rq);
            if fits(rq) && fits(u) {
                Some(
                    (
                        s.update(
                            i,
                            Position {
                                symbol: p.symbol,
                                venue: p.venue,
                                side: p.side,
                                quantity: spec_fixed(rq),
                                entry_price: p.entry_price,
                                current_price: price,
                                unrealized_pnl: spec_fixed(u),
                                realized_pnl: p.realized_pnl,
                            },
                        ),
                        rd,
                    ),
                )
            } else {
                None
            }
        }
    }
}

/// What one fill does to the whole accounting state, or `None` where
/// any updated figure would leave the representable range.
pub open spec fn spec_update(
    v: ManagerView,
    symbol: Symbol,
    venue: Venue,
    side: Side,
    quantity: Fixed,
    price: Fixed,
) -> Option<ManagerView> {
    match spec_apply_fill(v.positions, symbol, venue, side, quantity, price) {
        None => None,
        Some((ns, rd)) => if fits(v.cash + rd) && fits(v.realized + rd) && spec_metrics_ok(
            ns,
            v.cash + rd,
        ) {
            Some(ManagerView { positions: ns, cash: v.cash + rd, realized: v.realized + rd })
        } else {
            None
        },
    }
}

/// Owner of the authoritative portfolio. `wf` ties every derived field
/// to the position set; each public operation preserves it.
pub struct PortfolioManager {
    pub portfolio: Portfolio,
    pub cash: Fixed,
    pub realized: Fixed,
}

impl View for PortfolioManager {
    type V = ManagerView;

    open spec fn view(&self) -> ManagerView {
        ManagerView {
            positions: self.portfolio.positions@,
            cash: self.cash@,
            realized: self.realized@,
        }
    }
}

impl PortfolioManager {
    /// Consistency of the managed portfolio: positions are valid with
    /// unique symbols, and every derived field equals its definition.
    pub open spec fn wf(self) -> bool {
        let s = self.portfolio.positions@;
        &&& spec_positions_ok(s)
        &&& spec_upnl_prefixes_fit(s)
        &&& fits(spec_total_exposure(s))
        &&& self.portfolio.total_exposure@ == spec_total_exposure(s)
        &&& self.portfolio.net_exposure@ == spec_side_exposure(s, Side::Buy) - spec_side_exposure(
            s,
            Side::Sell,
        )
        &&& self.portfolio.equity@ == self.cash@ + spec_upnl_sum(s)
        &&& self.portfolio.leverage@ == spec_leverage(
            self.portfolio.total_exposure@,
            self.portfolio.equity@,
        )
        &&& self.portfolio.energy@ == spec_energy(self.portfolio.leverage@, spec_penalty(s))
        &&& self.portfolio.correlation_matrix@.len() == 0
    }

    /// A fresh portfolio holding only equity.
    pub fn new(initial_equity: Fixed) -> (r: PortfolioManager)
        ensures
            r.wf(),
            r@.positions.len() == 0,
            r@.cash == initial_equity@,
            r@.realized == 0,
            r.portfolio.equity@ == initial_equity@,
    {
        let zero = Fixed::zero();
        let leverage: Fixed = zero;
        proof {
            assert(0int * 0int == 0) by (nonlinear_arith);
        }
        PortfolioManager {
            portfolio: Portfolio {
                equity: initial_equity,
                positions: Vec::new(),
                total_exposure: zero,
                net_exposure: zero,
                leverage,
                energy: zero,
                correlation_matrix: Vec::new(),
            },
            cash: initial_equity,
            realized: Fixed::zero(),
        }
    }

    /// Applies one fill: volume-weighted entry on a same-side fill,
    /// reduction or removal on an opposite one, a fresh position
    /// otherwise; then recomputes every derived field. Fails without
    /// changing state when a figure leaves the representable range.
    pub fn update_position(
        &mut self,
        symbol: &Symbol,
        venue: &Venue,
        side: Side,
        quantity: Fixed,
        price: Fixed,
    ) -> (r: Result<(), ArithError>)
        requires
            old(self).wf(),
            quantity@ > 0,
            price@ > 0,
        ensures
            final(self).wf(),
            match r {
                Ok(()) => spec_update(old(self)@, *symbol, *venue, side, quantity, price) == Some(
                    final(self)@,
                ),
                Err(e) => e == ArithError::Overflow && *final(self) == *old(self) && spec_update(
                    old(self)@,
                    *symbol,
                    *venue,
                    side,
                    quantity,
                    price,
                ) is None,
            },
    {
        let ghost s = self.portfolio.positions@;
        let found = find_index(&self.portfolio.positions, symbol);
        let mut np = clone_positions(&self.portfolio.positions);
        let rd_m: i128;
        match found {
            None => {
                let z = Fixed::zero();
                proof {
                    lemma_fixed_eq(z, spec_fixed(0));
                }
                let newp = Position {
                    symbol: symbol.clone(),
                    venue: venue.clone(),
                    side,
                    quantity,
                    entry_price: price,
                    current_price: price,
                    unrealized_pnl: z,
                    realized_pnl: z,
                };
                np.push(newp);
                rd_m = 0;
            },
            Some(i) => {
                let oldp = np.remove(i);
                proof {
                    use_type_invariant(oldp.quantity);
                    use_type_invariant(quantity);
                    use_type_invariant(oldp.entry_price);
                    use_type_invariant(price);
                }
                if oldp.side == side {
                    let nq = match oldp.quantity.checked_add(quantity) {
                        Ok(v) => v,
                        Err(_) => {
                            return Err(ArithError::Overflow);
                        },
                    };
                    let vnum: i128 = oldp.quantity.wide_mul(oldp.entry_price) + quantity.wide_mul(
                        price,
                    );
                    let entry = match Fixed::checked_div_wide(vnum, nq) {
                        Ok(v) => v,
                        Err(_) => {
                            return Err(ArithError::Overflow);
                        },
                    };
                    proof {
                        lemma_mul_val_nonneg(oldp.quantity@, oldp.entry_price@);
                        lemma_mul_val_nonneg(quantity@, price@);
                        lemma_div_val_nonneg(vnum as int, nq@);
                    }
                    let u_m: i128 = signed_pnl_m(side, entry, price, nq);
                    let u = match Fixed::try_from_mantissa(u_m) {
                        Some(v) => v,
                        None => {
                            return Err(ArithError::Overflow);
                        },
                    };
                    let upd = Position {
                        symbol: oldp.symbol,
                        venue: oldp.venue,
                        side: oldp.side,
                        quantity: nq,
                        entry_price: entry,
                        current_price: price,
                        unrealized_pnl: u,
                        realized_pnl: oldp.realized_pnl,
                    };
                    proof {
                        lemma_fixed_eq(nq, spec_fixed(nq@));
                        lemma_fixed_eq(entry, spec_fixed(entry@));
                        lemma_fixed_eq(u, spec_fixed(u@));
                    }
                    np.insert(i, upd);
                    proof {
                        assert(s.remove(i as int).insert(i as int, upd) =~= s.update(
                            i as int,
                            upd,
                        ));
                    }
                    rd_m = 0;
                } else if quantity.ge(oldp.quantity) {
                    rd_m = signed_pnl_m(oldp.side, oldp.entry_price, price, oldp.quantity);
                } else {
                    let rq = Fixed::from_mantissa(
                        oldp.quantity.mantissa() - quantity.mantissa(),
                    );
                    rd_m = signed_pnl_m(oldp.side, oldp.entry_price, price, quantity);
                    let u_m: i128 = signed_pnl_m(oldp.side, oldp.entry_price, price, rq);
                    let u = match Fixed::try_from_mantissa(u_m) {
                        Some(v) => v,
                        None => {
                            return Err(ArithError::Overflow);
                        },
                    };
                    let upd = Position {
                        symbol: oldp.symbol,
                        venue: oldp.venue,
                        side: oldp.side,
                        quantity: rq,
                        entry_price: oldp.entry_price,
                        current_price: price,
                        unrealized_pnl: u,
                        realized_pnl: oldp.realized_pnl,
                    };
                    proof {
                        lemma_fixed_eq(rq, spec_fixed(rq@));
                        lemma_fixed_eq(u, spec_fixed(u@));
                    }
                    np.insert(i, upd);
                    proof {
                        assert(s.remove(i as int).insert(i as int, upd) =~= s.update(
                            i as int,
                            upd,
                        ));
                    }
                }
            },
        }
        proof {
            use_type_invariant(self.cash);
            use_type_invariant(self.realized);
        }
        let new_cash_m: i128 = self.cash.mantissa() + rd_m;
        if new_cash_m > BOUND || new_cash_m < -BOUND {
            return Err(ArithError::Overflow);
        }
        let new_realized_m: i128 = self.realized.mantissa() + rd_m;
        if new_realized_m > BOUND || new_realized_m < -BOUND {
            return Err(ArithError::Overflow);
        }
        let new_cash = Fixed::from_mantissa(new_cash_m);
        let new_realized = Fixed::from_mantissa(new_realized_m);
        proof {
            lemma_positions_ok_after_fill(s, *symbol, *venue, side, quantity, price);
        }
        let metrics = match recompute_metrics(&np, new_cash) {
            Ok(m) => m,
            Err(_) => {
                return Err(ArithError::Overflow);
            },
        };
        let (total, net, equity, leverage, energy) = metrics;
        self.portfolio = Portfolio {
            equity,
            positions: np,
            total_exposure: total,
            net_exposure: net,
            leverage,
            energy,
            correlation_matrix: Vec::new(),
        };
        self.cash = new_cash;
        self.realized = new_realized;
        Ok(())
    }
}

/// The price an update carries for a symbol: the first entry that
/// matches, if any.
pub open spec fn spec_price_for(prices: Seq<(Symbol, Fixed)>, sym: Seq<char>) -> Option<Fixed>
    decreases prices.len(),
{
    if prices.len() == 0 {
        None
    } else if prices[0].0@ == sym {
        Some(prices[0].1)
    } else {
        spec_price_for(prices.subrange(1, prices.len() as int), sym)
    }
}

/// What a mark-to-market does to the position set: each position with
/// a quoted symbol takes the quote as its current price and recomputes
/// its unrealized profit; `None` where a profit cannot be represented.
pub open spec fn spec_mark(s: Seq<Position>, prices: Seq<(Symbol, Fixed)>) -> Option<
    Seq<Position>,
>
    decreases s.len(),
{
    if s.len() == 0 {
        Some(Seq::<Position>::empty())
    } else {
        match spec_mark(s.drop_last(), prices) {
            None => None,
            Some(t) => {
                let p = s.last();
                match spec_price_for(prices, p.symbol@) {
                    None => Some(t.push(p)),
                    Some(np) => {
                        let u = spec_signed_pnl(p.side, p.entry_price@, np@, p.quantity@);
                        if fits(u) {
                            Some(
                                t.push(
                                    Position {
                                        symbol: p.symbol,
                                        venue: p.venue,
                                        side: p.side,
                                        quantity: p.quantity,
                                        entry_price: p.entry_price,
                                        current_price: np,
                                        unrealized_pnl: spec_fixed(u),
                                        realized_pnl: p.realized_pnl,
                                    },
                                ),
                            )
                        } else {
                            None
                        }
                    },
                }
            },
        }
    }
}

/// What a mark-to-market does to the whole accounting state.
pub open spec fn spec_mark_update(v: ManagerView, prices: Seq<(Symbol, Fixed)>) -> Option<
    ManagerView,
> {
    match spec_mark(v.positions, prices) {
        None => None,
        Some(ns) => if spec_metrics_ok(ns, v.cash) {
            Some(ManagerView { positions: ns, cash: v.cash, realized: v.realized })
        } else {
            None
        },
    }
}

proof fn lemma_price_for_none(prices: Seq<(Symbol, Fixed)>, sym: Seq<char>)
    requires
        forall|j: int| 0 <= j < prices.len() ==> (#[trigger] prices[j]).0@ != sym,
    ensures
        spec_price_for(prices, sym) is None,
    decreases prices.len(),
{
    if prices.len() > 0 {
        let t = prices.subrange(1, prices.len() as int);
        assert(forall|j: int| 0 <= j < t.len() ==> t[j] == prices[j + 1]);
        lemma_price_for_none(t, sym);
    }
}

proof fn lemma_price_for_first(prices: Seq<(Symbol, Fixed)>, sym: Seq<char>, i: int)
    requires
        0 <= i < prices.len(),
        prices[i].0@ == sym,
        forall|j: int| 0 <= j < i ==> (#[trigger] prices[j]).0@ != sym,
    ensures
        spec_price_for(prices, sym) == Some(prices[i].1),
    decreases i,
{
    if i > 0 {
        let t = prices.subrange(1, prices.len() as int);
        assert(forall|j: int| 0 <= j < t.len() ==> t[j] == prices[j + 1]);
        lemma_price_for_first(t, sym, i - 1);
    }
}

/// First quote for a symbol, if any, with membership of the result.
fn find_price(prices: &Vec<(Symbol, Fixed)>, symbol: &Symbol) -> (r: Option<Fixed>)
    ensures
        r == spec_price_for(prices@, symbol@),
        match r {
            Some(v) => exists|k: int| 0 <= k < prices@.len() && (#[trigger] prices@[k]).1 == v,
            None => true,
        },
{
    let n = prices.len();
    let mut i: usize = 0;
    while i < n
        invariant
            i <= n,
            n == prices@.len(),
            forall|j: int| 0 <= j < i ==> (#[trigger] prices@[j]).0@ != symbol@,
        decreases n - i,
    {
        if prices[i].0.same_as(symbol) {
            proof {
                lemma_price_for_first(prices@, symbol@, i as int);
            }
            return Some(prices[i].1);
        }
        i = i + 1;
    }
    proof {
        lemma_price_for_none(prices@, symbol@);
    }
    None
}

proof fn lemma_mark_none_extends(s: Seq<Position>, prices: Seq<(Symbol, Fixed)>, i: int)
    requires
        0 <= i <= s.len(),
        spec_mark(s.take(i), prices) is None,
    ensures
        spec_mark(s, prices) is None,
    decreases s.len() - i,
{
    if i == s.len() {
        assert(s.take(i) =~= s);
    } else {
        assert(s.take(i + 1).drop_last() =~= s.take(i));
        lemma_mark_none_extends(s, prices, i + 1);
    }
}

impl PortfolioManager {
    /// Marks every quoted position to market and recomputes the
    /// derived fields; fails without changing state when a figure
    /// leaves the representable range.
    pub fn update_prices(&mut self, prices: &Vec<(Symbol, Fixed)>) -> (r: Result<(), ArithError>)
        requires
            old(self).wf(),
            forall|k: int| 0 <= k < prices@.len() ==> (#[trigger] prices@[k]).1@ > 0,
        ensures
            final(self).wf(),
            match r {
                Ok(()) => spec_mark_update(old(self)@, prices@) == Some(final(self)@),
                Err(e) => e == ArithError::Overflow && *final(self) == *old(self)
                    && spec_mark_update(old(self)@, prices@) is None,
            },
    {
        let ghost s = self.portfolio.positions@;
        let n = self.portfolio.positions.len();
        let mut np: Vec<Position> = Vec::new();
        let mut j: usize = 0;
        while j < n
            invariant
                j <= n,
                n == s.len(),
                *self == *old(self),
                old(self).wf(),
                s == self.portfolio.positions@,
                spec_positions_ok(s),
                forall|k: int| 0 <= k < prices@.len() ==> (#[trigger] prices@[k]).1@ > 0,
                spec_mark(s.take(j as int), prices@) == Some(np@),
                np@.len() == j,
                forall|a: int| 0 <= a < j ==> (#[trigger] np@[a]).symbol@ == s[a].symbol@,
                forall|a: int| 0 <= a < j ==> spec_position_ok(#[trigger] np@[a]),
            decreases n - j,
        {
            proof {
                assert(s.take(j as int + 1).drop_last() =~= s.take(j as int));
                assert(s.take(j as int + 1).last() == s[j as int]);
            }
            let p = &self.portfolio.positions[j];
            match find_price(prices, &p.symbol) {
                None => {
                    np.push(p.clone());
                },
                Some(newprice) => {
                    proof {
                        use_type_invariant(newprice);
                    }
                    let u_m: i128 = signed_pnl_m(p.side, p.entry_price, newprice, p.quantity);
                    match Fixed::try_from_mantissa(u_m) {
                        Some(u) => {
                            proof {
                                lemma_fixed_eq(u, spec_fixed(u@));
                            }
                            let upd = Position {
                                symbol: p.symbol.clone(),
                                venue: p.venue.clone(),
                                side: p.side,
                                quantity: p.quantity,
                                entry_price: p.entry_price,
                                current_price: newprice,
                                unrealized_pnl: u,
                                realized_pnl: p.realized_pnl,
                            };
                            np.push(upd);
                        },
                        None => {
                            proof {
                                lemma_mark_none_extends(s, prices@, j as int + 1);
                            }
                            return Err(ArithError::Overflow);
                        },
                    }
                },
            }
            j = j + 1;
        }
        proof {
            assert(s.take(n as int) =~= s);
            assert forall|a: int, b: int| 0 <= a < b < np@.len() implies np@[a].symbol@
                != np@[b].symbol@ by {
                assert(np@[a].symbol@ == s[a].symbol@ && np@[b].symbol@ == s[b].symbol@);
            }
        }
        let metrics = match recompute_metrics(&np, self.cash) {
            Ok(m) => m,
            Err(_) => {
                return Err(ArithError::Overflow);
            },
        };
        let (total, net, equity, leverage, energy) = metrics;
        self.portfolio = Portfolio {
            equity,
            positions: np,
            total_exposure: total,
            net_exposure: net,
            leverage,
            energy,
            correlation_matrix: Vec::new(),
        };
        Ok(())
    }

    /// The authoritative portfolio, read-only.
    pub fn portfolio(&self) -> (r: &Portfolio)
        ensures
            *r == self.portfolio,
    {
        &self.portfolio
    }

    /// Cumulative realized profit booked by closes and reductions.
    pub fn realized_pnl(&self) -> (r: Fixed)
        ensures
            r@ == self@.realized,
    {
        self.realized
    }

    /// The open position on a symbol, if one exists.
    pub fn get_position(&self, symbol: &Symbol) -> (r: Option<&Position>)
        ensures
            match r {
                Some(p) => spec_find(self@.positions, symbol@) >= 0 && *p == self@.positions[
                    spec_find(self@.positions, symbol@)],
                None => spec_find(self@.positions, symbol@) == -1,
            },
    {
        match find_index(&self.portfolio.positions, symbol) {
            Some(i) => Some(&self.portfolio.positions[i]),
            None => None,
        }
    }
}

/// An element-wise copy of a position vector, with its contents known.
fn clone_positions(v: &Vec<Position>) -> (r: Vec<Position>)
    ensures
        r@ == v@,
{
    let r = v.clone();
    proof {
        assert forall|i: int| 0 <= i < v@.len() implies r@[i] == v@[i] by {
            assert(cloned::<Position>(v@[i], r@[i]));
        }
        assert(r@ =~= v@);
    }
    r
}

/// A successful fill leaves the position set consistent.
proof fn lemma_positions_ok_after_fill(
    s: Seq<Position>,
    symbol: Symbol,
    venue: Venue,
    side: Side,
    quantity: Fixed,
    price: Fixed,
)
    requires
        spec_positions_ok(s),
        quantity@ > 0,
        price@ > 0,
    ensures
        match spec_apply_fill(s, symbol, venue, side, quantity, price) {
            Some((ns, rd)) => spec_positions_ok(ns),
            None => true,
        },
{
    let i = spec_find(s, symbol@);
    lemma_find_characterizes(s, symbol@);
    match spec_apply_fill(s, symbol, venue, side, quantity, price) {
        Some((ns, rd)) => {
            if i == -1 {
                assert(mul_val(0, quantity@) == 0) by {
                    assert(0int * quantity@ == 0) by (nonlinear_arith);
                };
                assert(spec_position_ok(ns.last()));
                assert forall|a: int| 0 <= a < ns.len() implies spec_position_ok(
                    #[trigger] ns[a],
                ) by {
                    if a < s.len() {
                        assert(ns[a] == s[a]);
                    }
                }
                assert forall|a: int, b: int| 0 <= a < b < ns.len() implies ns[a].symbol@
                    != ns[b].symbol@ by {
                    if b < s.len() {
                    } else {
                        assert(ns[a] == s[a] && ns[b].symbol@ == symbol@);
                    }
                }
            } else {
                let p = s[i];
                if p.side == side {
                    let nq = p.quantity@ + quantity@;
                    let vnum = mul_val(p.quantity@, p.entry_price@) + mul_val(quantity@, price@);
                    lemma_mul_val_nonneg(p.quantity@, p.entry_price@);
                    lemma_mul_val_nonneg(quantity@, price@);
                    lemma_div_val_nonneg(vnum, nq);
                    assert(spec_position_ok(ns[i]));
                    assert forall|a: int| 0 <= a < ns.len() implies spec_position_ok(
                        #[trigger] ns[a],
                    ) by {
                        if a != i {
                            assert(ns[a] == s[a]);
                        }
                    }
                    assert forall|a: int, b: int| 0 <= a < b < ns.len() implies ns[a].symbol@
                        != ns[b].symbol@ by {
                        assert(ns[a].symbol@ == s[a].symbol@ && ns[b].symbol@ == s[b].symbol@);
                    }
                } else if quantity@ >= p.quantity@ {
                    assert forall|a: int| 0 <= a < ns.len() implies spec_position_ok(
                        #[trigger] ns[a],
                    ) by {
                        if a < i {
                            assert(ns[a] == s[a]);
                        } else {
                            assert(ns[a] == s[a + 1]);
                        }
                    }
                    assert forall|a: int, b: int| 0 <= a < b < ns.len() implies ns[a].symbol@
                        != ns[b].symbol@ by {
                        if a < i {
                            assert(ns[a] == s[a]);
                        } else {
                            assert(ns[a] == s[a + 1]);
                        }
                        if b < i {
                            assert(ns[b] == s[b]);
                        } else {
                            assert(ns[b] == s[b + 1]);
                        }
                    }
                } else {
                    let rq = p.quantity@ - quantity@;
                    assert(spec_position_ok(ns[i]));
                    assert forall|a: int| 0 <= a < ns.len() implies spec_position_ok(
                        #[trigger] ns[a],
                    ) by {
                        if a != i {
                            assert(ns[a] == s[a]);
                        }
                    }
                    assert forall|a: int, b: int| 0 <= a < b < ns.len() implies ns[a].symbol@
                        != ns[b].symbol@ by {
                        assert(ns[a].symbol@ == s[a].symbol@ && ns[b].symbol@ == s[b].symbol@);
                    }
                }
            }
        },
        None => {},
    }
}

/// `spec_find` finds a real first match, or there is none.
proof fn lemma_find_characterizes(s: Seq<Position>, sym: Seq<char>)
    ensures
        spec_find(s, sym) == -1 ==> forall|j: int| 0 <= j < s.len() ==> s[j].symbol@ != sym,
        spec_find(s, sym) != -1 ==> 0 <= spec_find(s, sym) < s.len() && s[spec_find(
            s,
            sym,
        )].symbol@ == sym && forall|j: int| 0 <= j < spec_find(s, sym) ==> s[j].symbol@ != sym,
    decreases s.len(),
{
    if s.len() > 0 && s[0].symbol@ != sym {
        let t = s.subrange(1, s.len() as int);
        assert(forall|j: int| 0 <= j < t.len() ==> t[j] == s[j + 1]);
        lemma_find_characterizes(t, sym);
        let r = spec_find(t, sym);
        if r == -1 {
            assert forall|j: int| 0 <= j < s.len() implies s[j].symbol@ != sym by {
                if j > 0 {
                    assert(t[j - 1] == s[j]);
                }
            }
        } else {
            assert(t[r] == s[r + 1]);
            assert forall|j: int| 0 <= j < r + 1 implies s[j].symbol@ != sym by {
                if j > 0 {
                    assert(t[j - 1] == s[j]);
                }
            }
        }
    }
}


/// Volume-weighted entry law: two same-side fills on a flat book
/// leave one position whose quantity is the sum and whose entry price
/// is the volume-weighted average of the two fills.
pub proof fn lemma_vwap(
    v: ManagerView,
    symbol: Symbol,
    venue: Venue,
    side: Side,
    q1: Fixed,
    p1: Fixed,
    q2: Fixed,
    p2: Fixed,
)
    requires
        v.positions.len() == 0,
        q1@ > 0,
        p1@ > 0,
        q2@ > 0,
        p2@ > 0,
        spec_update(v, symbol, venue, side, q1, p1) is Some,
        spec_update(
            spec_update(v, symbol, venue, side, q1, p1)->Some_0,
            symbol,
            venue,
            side,
            q2,
            p2,
        ) is Some,
    ensures
        ({
            let v2 = spec_update(
                spec_update(v, symbol, venue, side, q1, p1)->Some_0,
                symbol,
                venue,
                side,
                q2,
                p2,
            )->Some_0;
            &&& v2.positions.len() == 1
            &&& v2.positions[0].quantity@ == q1@ + q2@
            &&& v2.positions[0].entry_price@ == div_val(
                mul_val(q1@, p1@) + mul_val(q2@, p2@),
                q1@ + q2@,
            )
            &&& v2.realized == v.realized
        }),
{
    let v1 = spec_update(v, symbol, venue, side, q1, p1)->Some_0;
    assert(spec_find(v.positions, symbol@) == -1);
    let s1 = v.positions.push(
        Position {
            symbol,
            venue,
            side,
            quantity: q1,
            entry_price: p1,
            current_price: p1,
            unrealized_pnl: spec_fixed(0),
            realized_pnl: spec_fixed(0),
        },
    );
    assert(v1.positions == s1);
    assert(s1[0].symbol@ == symbol@);
    assert(spec_find(s1, symbol@) == 0);
}

/// Close law: a fill and an equal opposite fill on a flat book leave
/// no position, and book exactly the closing profit of the first
/// fill's side convention.
pub proof fn lemma_close(
    v: ManagerView,
    symbol: Symbol,
    venue: Venue,
    first_side: Side,
    q: Fixed,
    p: Fixed,
    p2: Fixed,
)
    requires
        v.positions.len() == 0,
        q@ > 0,
        p@ > 0,
        p2@ > 0,
        spec_update(v, symbol, venue, first_side, q, p) is Some,
        spec_update(
            spec_update(v, symbol, venue, first_side, q, p)->Some_0,
            symbol,
            venue,
            (if first_side == Side::Buy {
                Side::Sell
            } else {
                Side::Buy
            }),
            q,
            p2,
        ) is Some,
    ensures
        ({
            let v2 = spec_update(
                spec_update(v, symbol, venue, first_side, q, p)->Some_0,
                symbol,
                venue,
                (if first_side == Side::Buy {
                    Side::Sell
                } else {
                    Side::Buy
                }),
                q,
                p2,
            )->Some_0;
            &&& v2.positions.len() == 0
            &&& v2.realized == v.realized + spec_signed_pnl(first_side, p@, p2@, q@)
            &&& v2.cash == v.cash + spec_signed_pnl(first_side, p@, p2@, q@)
        }),
{
    let v1 = spec_update(v, symbol, venue, first_side, q, p)->Some_0;
    assert(spec_find(v.positions, symbol@) == -1);
    let s1 = v.positions.push(
        Position {
            symbol,
            venue,
            side: first_side,
            quantity: q,
            entry_price: p,
            current_price: p,
            unrealized_pnl: spec_fixed(0),
            realized_pnl: spec_fixed(0),
        },
    );
    assert(v1.positions == s1);
    assert(s1[0].symbol@ == symbol@);
    assert(spec_find(s1, symbol@) == 0);
    let second = if first_side == Side::Buy {
        Side::Sell
    } else {
        Side::Buy
    };
    assert(s1[0].side != second);
    assert(s1.remove(0) =~= Seq::<Position>::empty());
}

} // verus!
