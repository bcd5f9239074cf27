//! The pricing engine: supply cap arithmetic, and the conservatively rounded
//! amounts of a buy (tokens for a currency budget) and of a sell (currency
//! for tokens), computed on a curve table.
//!
//! A buy starts at the ceiling supply of the current position and ends at the
//! floor supply of the advanced one; a sell starts at the ceiling supply and
//! searches back for the floor supply. Either way the pool is never the one
//! that loses to rounding.
use vstd::prelude::*;
use crate::table::{lemma_floor_below_ceil, lemma_position_monotone, lemma_supply_monotone, CurveTable};

verus! {

/// Whole tokens that can ever be sold along the curve.
pub const CAP_TOKENS: u64 = 800_000_000;

/// Decimals the production lookup table was generated for.
pub const LUT_DECIMALS: u8 = 9;

/// Largest number of decimals for which the cap in base units fits in a `u64`.
pub const MAX_DECIMALS: u8 = 10;

/// `10^d`.
pub open spec fn pow10(d: nat) -> nat
    decreases d,
{
    if d == 0 {
        1
    } else {
        10 * pow10((d - 1) as nat)
    }
}

/// The supply cap in base units: `CAP_TOKENS * 10^decimals`.
pub open spec fn cap_of(decimals: u8) -> int {
    CAP_TOKENS * pow10(decimals as nat)
}

/// Tokens sold so far, derived from what the pool still holds:
/// `cap - min(pool_balance, cap)`.
pub open spec fn sold_of(pool_balance: int, cap: int) -> int {
    if pool_balance >= cap {
        0
    } else {
        cap - pool_balance
    }
}

proof fn lemma_pow10_monotone(i: nat, j: nat)
    requires
        i <= j,
    ensures
        pow10(i) <= pow10(j),
    decreases j,
{
    if i < j {
        lemma_pow10_monotone(i, (j - 1) as nat);
    }
}

/// The cap is positive for every number of decimals.
pub proof fn lemma_cap_positive(decimals: u8)
    ensures
        cap_of(decimals) > 0,
{
    lemma_pow10_monotone(0, decimals as nat);
    assert(pow10(0) == 1);
}

/// The supply cap in base units for a token with `decimals` decimals.
pub fn cap_base(decimals: u8) -> (r: u64)
    requires
        decimals <= MAX_DECIMALS,
    ensures
        r == cap_of(decimals),
{
    proof {
        reveal_with_fuel(pow10, 11);
    }
    let mut c: u64 = CAP_TOKENS;
    let mut i: u8 = 0;
    while i < decimals
        invariant
            i <= decimals <= MAX_DECIMALS,
            c == CAP_TOKENS * pow10(i as nat),
        decreases decimals - i,
    {
        proof {
            lemma_pow10_monotone(i as nat, 9);
            reveal_with_fuel(pow10, 10);
        }
        c = c * 10;
        i = i + 1;
    }
    c
}

/// Cumulative tokens sold, given the pool's token balance in base units.
pub fn y_sold_from_pool(pool_balance_base: u64, decimals: u8) -> (r: u64)
    requires
        decimals <= MAX_DECIMALS,
    ensures
        r == sold_of(pool_balance_base as int, cap_of(decimals)),
        r <= cap_of(decimals),
{
    let cap = cap_base(decimals);
    if pool_balance_base >= cap {
        0
    } else {
        cap - pool_balance_base
    }
}


/// Position `x1 <= x0` releases at least `want` tokens when moving back from
/// `x0`: the ceiling supply at `x0` exceeds the floor supply at `x1` by `want`
/// or more.
pub open spec fn releases(t: &CurveTable, x0: int, x1: int, want: int) -> bool {
    t.floor_at(x1) + want <= t.ceil_at(x0)
}

/// `x1` is the furthest position in `[0, x0]` that releases `want` tokens,
/// or `0` when none does.
pub open spec fn is_sell_boundary(t: &CurveTable, x0: int, want: int, x1: int) -> bool {
    &&& 0 <= x1 <= x0
    &&& x1 == 0 || releases(t, x0, x1, want)
    &&& forall|x: int| x1 < x <= x0 ==> !releases(t, x0, x, want)
}

/// The sell boundary for `want` tokens from position `x0`.
pub open spec fn sell_boundary(t: &CurveTable, x0: int, want: int) -> int {
    choose|x1: int| is_sell_boundary(t, x0, want, x1)
}

/// Tokens remaining under the cap once `sold` have been sold.
pub open spec fn remaining_of(cap: int, sold: int) -> int {
    if sold < cap {
        cap - sold
    } else {
        0
    }
}

/// The position reached from `x0` by spending `budget`, stopping at the end
/// of the domain.
pub open spec fn advance(t: &CurveTable, x0: int, budget: int) -> int {
    if x0 + budget >= t.span {
        t.span as int
    } else {
        x0 + budget
    }
}

/// A buy with `budget` after `sold` tokens were sold: the floor supply at the
/// advanced position less the ceiling supply at the current one, at least
/// zero and at most what remains under the cap; and the currency the
/// advance covers.
pub open spec fn buy_quote(t: &CurveTable, sold: int, budget: int) -> (int, int) {
    if budget == 0 {
        (0, 0)
    } else {
        let x0 = t.position_of(sold);
        let x1 = advance(t, x0, budget);
        let gain = t.floor_at(x1) - t.ceil_at(x0);
        let remaining = remaining_of(t.cap as int, sold);
        let tokens = if gain <= 0 {
            0
        } else if gain <= remaining {
            gain
        } else {
            remaining
        };
        (tokens, x1 - x0)
    }
}

/// A sell of `tokens_in` after `sold` tokens were sold: the currency between
/// the current position and the sell boundary.
pub open spec fn sell_quote(t: &CurveTable, sold: int, tokens_in: int) -> int {
    if tokens_in == 0 {
        0
    } else {
        let x0 = t.position_of(sold);
        x0 - sell_boundary(t, x0, tokens_in)
    }
}

/// The furthest position in `1..=k` that releases `want` tokens from `x0`,
/// or `0` when none does.
pub open spec fn scan_back(t: &CurveTable, x0: int, want: int, k: int) -> int
    decreases k,
{
    if k <= 0 {
        0
    } else if releases(t, x0, k, want) {
        k
    } else {
        scan_back(t, x0, want, k - 1)
    }
}

proof fn lemma_scan_back(t: &CurveTable, x0: int, want: int, k: int)
    requires
        0 <= k <= x0,
    ensures
        0 <= scan_back(t, x0, want, k) <= k,
        scan_back(t, x0, want, k) == 0 || releases(t, x0, scan_back(t, x0, want, k), want),
        forall|x: int| scan_back(t, x0, want, k) < x <= k ==> !releases(t, x0, x, want),
    decreases k,
{
    if k > 0 && !releases(t, x0, k, want) {
        lemma_scan_back(t, x0, want, k - 1);
    }
}

/// From any position `x0 >= 0` a sell boundary exists: the furthest position
/// back from `x0` that still releases `want` tokens, or `0`.
pub proof fn lemma_sell_boundary_exists(t: &CurveTable, x0: int, want: int)
    requires
        0 <= x0,
    ensures
        is_sell_boundary(t, x0, want, sell_boundary(t, x0, want)),
        sell_boundary(t, x0, want) == scan_back(t, x0, want, x0),
{
    lemma_scan_back(t, x0, want, x0);
    lemma_sell_boundary_unique(t, x0, want, scan_back(t, x0, want, x0));
}

/// There is at most one sell boundary, so `sell_boundary` names it.
pub proof fn lemma_sell_boundary_unique(t: &CurveTable, x0: int, want: int, x1: int)
    requires
        is_sell_boundary(t, x0, want, x1),
    ensures
        sell_boundary(t, x0, want) == x1,
{
    let b = sell_boundary(t, x0, want);
    assert(is_sell_boundary(t, x0, want, b));
    if b < x1 {
        assert(!releases(t, x0, x1, want));
    } else if x1 < b {
        assert(!releases(t, x0, b, want));
    }
}

/// Tokens bought with `lamports_in` after `y_current_base` tokens were sold,
/// and the currency actually used; `(0, 0)` for a zero budget.
pub fn buy_on_curve(table: &CurveTable, y_current_base: u64, lamports_in: u64) -> (r: (u64, u64))
    requires
        table.wf(),
    ensures
        r.0 == buy_quote(table, y_current_base as int, lamports_in as int).0,
        r.1 == buy_quote(table, y_current_base as int, lamports_in as int).1,
        r.1 <= lamports_in,
        r.0 <= remaining_of(table.cap as int, y_current_base as int),
        lamports_in == 0 ==> r == (0u64, 0u64),
        r.0 > 0 ==> r.1 > 0,
{
    if lamports_in == 0 {
        return (0, 0);
    }
    let x0 = table.x_from_y_lut(y_current_base);
    let x1 = if lamports_in >= table.span - x0 {
        table.span
    } else {
        x0 + lamports_in
    };
    let y0_ceil = table.y_at_x_ceil(x0);
    let y1_floor = table.y_at_x_floor(x1);
    proof {
        lemma_floor_below_ceil(table, x0 as int);
    }
    let cap = table.cap;
    let remaining = if y_current_base < cap {
        cap - y_current_base
    } else {
        0
    };
    let gain = if y1_floor > y0_ceil {
        y1_floor - y0_ceil
    } else {
        0
    };
    let tokens_out = if gain <= remaining {
        gain
    } else {
        remaining
    };
    (tokens_out, x1 - x0)
}

/// The furthest position in `[0, x0]` that still releases `tokens_in_base`
/// tokens, found by bisection: at most one halving per bit of the position.
fn x_after_selling_tokens(table: &CurveTable, x0: u64, tokens_in_base: u64) -> (r: u64)
    requires
        table.wf(),
    ensures
        is_sell_boundary(table, x0 as int, tokens_in_base as int, r as int),
{
    let want = tokens_in_base;
    let y0_ceil = table.y_at_x_ceil(x0);
    let mut lo: u64 = 0;
    let mut hi: u64 = x0;
    while lo < hi
        invariant
            table.wf(),
            y0_ceil == table.ceil_at(x0 as int),
            lo <= hi <= x0,
            lo == 0 || releases(table, x0 as int, lo as int, want as int),
            forall|x: int| hi < x <= x0 ==> !releases(table, x0 as int, x, want as int),
        decreases hi - lo,
    {
        let mid = hi - (hi - lo) / 2;
        let y_mid_floor = table.y_at_x_floor(mid);
        if y_mid_floor <= y0_ceil && y0_ceil - y_mid_floor >= want {
            lo = mid;
        } else {
            assert forall|x: int| mid - 1 < x <= x0 implies !releases(
                table,
                x0 as int,
                x,
                want as int,
            ) by {
                if x <= hi {
                    lemma_supply_monotone(table, mid as int, x);
                }
            }
            hi = mid - 1;
        }
    }
    lo
}

/// Currency paid for selling `tokens_in_base` tokens after `y_current_base`
/// tokens were sold; zero for zero tokens.
pub fn sell_on_curve(table: &CurveTable, y_current_base: u64, tokens_in_base: u64) -> (r: u64)
    requires
        table.wf(),
    ensures
        r == sell_quote(table, y_current_base as int, tokens_in_base as int),
        r <= table.span,
        r <= table.position_of(y_current_base as int),
        tokens_in_base == 0 ==> r == 0,
{
    proof {
        lemma_position_monotone(table, y_current_base as int, y_current_base as int);
    }
    if tokens_in_base == 0 {
        return 0;
    }
    let x0 = table.x_from_y_lut(y_current_base);
    let x1 = x_after_selling_tokens(table, x0, tokens_in_base);
    proof {
        lemma_sell_boundary_unique(table, x0 as int, tokens_in_base as int, x1 as int);
    }
    x0 - x1
}


/// The window around position `x` over which the spot price is measured:
/// half a node width to either side, kept within `[0, span]`.
pub open spec fn spot_window(t: &CurveTable, x: int) -> (int, int) {
    let half = t.node_width() / 2;
    let lo = if x - half <= 0 {
        0
    } else if x - half >= t.span {
        t.span as int
    } else {
        x - half
    };
    let hi = if x + half >= t.span {
        t.span as int
    } else {
        x + half
    };
    (lo, hi)
}

/// A price as a ratio: `currency` base units buy `tokens` base units.
#[derive(Clone, Copy, Debug, PartialEq, Eq, Structural)]
pub struct SpotPrice {
    pub currency: u64,
    pub tokens: u64,
}

/// The spot price at position `x`, from the slope of the floor table across
/// the window around `x`; `None` where the window releases no tokens (an
/// unbounded price).
pub fn spot_price_sol_per_token(table: &CurveTable, x: u64) -> (r: Option<SpotPrice>)
    requires
        table.wf(),
    ensures
        ({
            let (lo, hi) = spot_window(table, x as int);
            let dy = table.floor_at(hi) - table.floor_at(lo);
            &&& dy <= 0 ==> r is None
            &&& dy > 0 ==> r == Some(SpotPrice { currency: (hi - lo) as u64, tokens: dy as u64 })
        }),
{
    let n = table.n_intervals();
    let half = table.span / (n as u64) / 2;
    let span = table.span;
    let lo = if x <= half {
        0
    } else if x - half >= span {
        span
    } else {
        x - half
    };
    let hi = if x >= span || half >= span - x {
        span
    } else {
        x + half
    };
    let yl = table.y_at_x_floor(lo);
    let yr = table.y_at_x_floor(hi);
    if yr <= yl {
        None
    } else {
        Some(SpotPrice { currency: hi - lo, tokens: yr - yl })
    }
}

} // verus!
