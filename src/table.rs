//! The cumulative-supply lookup table: floor and ceiling node sequences over
//! an evenly divided currency-spend domain, with rounding-directed linear
//! interpolation between nodes and the inverse map from supply to position.
//!
//! Positions are measured in currency base units: the table covers
//! `[0, span]`, split into `n` equal intervals by `n + 1` nodes.
use vstd::prelude::*;
use crate::arith::{
    lemma_down_le_up,
    lemma_interval_index,
    lemma_interval_order,
    lemma_inverse_not_past,
    lemma_position_bound,
    lemma_scaled_down_bounds,
    lemma_scaled_monotone,
    lemma_scaled_up_bounds,
};
use vstd::arithmetic::div_mod::lemma_basic_div;
use crate::curve::{cap_base, cap_of, MAX_DECIMALS};

verus! {

/// Which way an interpolated increment is rounded: down on the floor table,
/// up on the ceiling table.
#[derive(Clone, Copy, Debug, PartialEq, Eq, Structural)]
pub enum Rounding {
    Down,
    Up,
}

/// Every node is at most every later node.
pub open spec fn sorted(s: Seq<u64>) -> bool {
    forall|i: int, j: int| 0 <= i <= j < s.len() ==> s[i] <= s[j]
}

/// Every node is at most `cap`.
pub open spec fn bounded_by(s: Seq<u64>, cap: int) -> bool {
    forall|i: int| 0 <= i < s.len() ==> s[i] <= cap
}

/// Each floor node is at most the ceiling node at the same index.
pub open spec fn pointwise_le(lo: Seq<u64>, hi: Seq<u64>) -> bool {
    lo.len() == hi.len() && forall|i: int| 0 <= i < lo.len() ==> lo[i] <= hi[i]
}

/// The increment between nodes `a < b` at offset `r` of an interval of
/// width `span`, rounded in direction `dir`.
pub open spec fn scaled(a: int, b: int, r: int, span: int, dir: Rounding) -> int {
    match dir {
        Rounding::Down => ((b - a) * r) / span,
        Rounding::Up => ((b - a) * r + span - 1) / span,
    }
}

/// Cumulative supply at position `x`: zero at or below the start, `cap` at or
/// past the end, and in between the lower node of the bracketing interval plus
/// the interpolated increment rounded in direction `dir`, clamped to `cap`.
/// An interval whose upper node does not exceed its lower one yields the
/// lower node.
pub open spec fn interp(nodes: Seq<u64>, span: int, cap: int, x: int, dir: Rounding) -> int {
    let n = nodes.len() - 1;
    if x <= 0 {
        0
    } else if x >= span {
        cap
    } else {
        let i = (x * n) / span;
        let r = (x * n) % span;
        let a = nodes[i] as int;
        let b = nodes[i + 1] as int;
        let v = if b <= a {
            a
        } else {
            a + scaled(a, b, r, span, dir)
        };
        if v <= cap {
            v
        } else {
            cap
        }
    }
}

/// The largest index in `1..=j` whose node is at most `y`, or `0` if none is.
pub open spec fn last_at_most(nodes: Seq<u64>, y: int, j: int) -> int
    decreases j,
{
    if j <= 0 {
        0
    } else if nodes[j] <= y {
        j
    } else {
        last_at_most(nodes, y, j - 1)
    }
}

/// Position for cumulative supply `y` on the floor nodes: `0` for no supply,
/// `span` at or past `cap`; otherwise the last node at most `y`, plus the
/// linear fraction of the way to the next node, rounded down.
pub open spec fn invert(nodes: Seq<u64>, span: int, cap: int, y: int) -> int {
    let n = nodes.len() - 1;
    let yb = if y <= cap {
        y
    } else {
        cap
    };
    if yb <= 0 {
        0
    } else if yb >= cap {
        span
    } else {
        let lo = last_at_most(nodes, yb, n);
        if lo >= n {
            span
        } else {
            let yl = nodes[lo] as int;
            let yr = nodes[lo + 1] as int;
            let frac = if yr <= yl || yb <= yl {
                0
            } else {
                ((yb - yl) * span) / (yr - yl)
            };
            (lo * span + frac) / n
        }
    }
}

/// Why a published table cannot price a token.
#[derive(Clone, Copy, Debug, PartialEq, Eq, Structural)]
pub enum TableError {
    /// The table was generated for other decimals than the token has.
    DecimalsMismatch,
    /// The parts do not form a valid table.
    Malformed,
}

/// A lookup table of cumulative token supply (base units) at evenly spaced
/// currency-spend positions.
pub struct CurveTable {
    /// Supply at each node, rounded down when the table was generated.
    pub floor: Vec<u64>,
    /// Supply at each node, rounded up when the table was generated.
    pub ceil: Vec<u64>,
    /// Currency base units covered by the table.
    pub span: u64,
    /// Token decimals the table was generated for.
    pub decimals: u8,
    /// The supply cap in base units for `decimals`.
    pub cap: u64,
}

/// What a table built from these parts must satisfy: both sequences have
/// the same length of at least two, are sorted and bounded by the cap of
/// `decimals`, floor is never above ceiling, and the domain is non-empty.
pub open spec fn valid_parts(floor: Seq<u64>, ceil: Seq<u64>, span: u64, decimals: u8) -> bool {
    &&& floor.len() >= 2
    &&& pointwise_le(floor, ceil)
    &&& sorted(floor)
    &&& sorted(ceil)
    &&& span > 0
    &&& decimals <= MAX_DECIMALS
    &&& bounded_by(ceil, cap_of(decimals))
}

impl CurveTable {
    pub open spec fn wf(&self) -> bool {
        &&& valid_parts(self.floor@, self.ceil@, self.span, self.decimals)
        &&& self.cap == cap_of(self.decimals)
    }

    /// Number of intervals between nodes.
    pub open spec fn intervals(&self) -> int {
        self.floor@.len() - 1
    }

    /// Width of one interval, in currency base units, rounded down.
    pub open spec fn node_width(&self) -> int {
        self.span as int / self.intervals()
    }

    /// Supply at `x` on the floor table, rounded down.
    pub open spec fn floor_at(&self, x: int) -> int {
        interp(self.floor@, self.span as int, self.cap as int, x, Rounding::Down)
    }

    /// Supply at `x` on the ceiling table, rounded up.
    pub open spec fn ceil_at(&self, x: int) -> int {
        interp(self.ceil@, self.span as int, self.cap as int, x, Rounding::Up)
    }

    /// The table and rounding that interpolation in direction `dir` uses.
    pub open spec fn at(&self, x: int, dir: Rounding) -> int {
        match dir {
            Rounding::Down => self.floor_at(x),
            Rounding::Up => self.ceil_at(x),
        }
    }

    /// Position for cumulative supply `y`, inverted on the floor table.
    pub open spec fn position_of(&self, y: int) -> int {
        invert(self.floor@, self.span as int, self.cap as int, y)
    }
}


/// Interpolated supply never leaves `[0, cap]`; strictly inside the domain it
/// lies between the two nodes of the bracketing interval.
proof fn lemma_interp_bounds(nodes: Seq<u64>, span: int, cap: int, x: int, dir: Rounding)
    requires
        nodes.len() >= 2,
        sorted(nodes),
        bounded_by(nodes, cap),
        span > 0,
    ensures
        0 <= interp(nodes, span, cap, x, dir) <= cap,
        0 < x < span ==> {
            let i = (x * (nodes.len() - 1)) / span;
            &&& 0 <= i < nodes.len() - 1
            &&& nodes[i] <= interp(nodes, span, cap, x, dir) <= nodes[i + 1]
        },
{
    if 0 < x < span {
        let n = nodes.len() - 1;
        lemma_interval_index(x, n, span);
        let i = (x * n) / span;
        let r = (x * n) % span;
        let a = nodes[i] as int;
        let b = nodes[i + 1] as int;
        assert(a <= b);
        lemma_scaled_down_bounds(b - a, r, span);
        lemma_scaled_up_bounds(b - a, r, span);
        assert(b <= cap);
    } else {
        assert(nodes[0] <= cap);
    }
}

/// Interpolation is non-decreasing in the position.
proof fn lemma_interp_monotone(
    nodes: Seq<u64>,
    span: int,
    cap: int,
    x1: int,
    x2: int,
    dir: Rounding,
)
    requires
        nodes.len() >= 2,
        sorted(nodes),
        bounded_by(nodes, cap),
        span > 0,
        x1 <= x2,
    ensures
        interp(nodes, span, cap, x1, dir) <= interp(nodes, span, cap, x2, dir),
{
    lemma_interp_bounds(nodes, span, cap, x1, dir);
    lemma_interp_bounds(nodes, span, cap, x2, dir);
    if 0 < x1 && x2 < span {
        let n = nodes.len() - 1;
        lemma_interval_order(x1, x2, n, span);
        let i1 = (x1 * n) / span;
        let i2 = (x2 * n) / span;
        if i1 == i2 {
            let a = nodes[i1] as int;
            let b = nodes[i1 + 1] as int;
            lemma_scaled_monotone(b - a, (x1 * n) % span, (x2 * n) % span, span);
        } else {
            assert(nodes[i1 + 1] <= nodes[i2]);
        }
    }
}

/// Rounding the floor nodes down never exceeds rounding the ceiling nodes up.
proof fn lemma_interp_floor_le_ceil(
    lo: Seq<u64>,
    hi: Seq<u64>,
    span: int,
    cap: int,
    x: int,
)
    requires
        lo.len() >= 2,
        pointwise_le(lo, hi),
        sorted(lo),
        sorted(hi),
        bounded_by(hi, cap),
        span > 0,
    ensures
        interp(lo, span, cap, x, Rounding::Down) <= interp(hi, span, cap, x, Rounding::Up),
{
    if 0 < x < span {
        let n = lo.len() - 1;
        lemma_interval_index(x, n, span);
        let i = (x * n) / span;
        let r = (x * n) % span;
        assert(lo[i] <= lo[i + 1] && hi[i] <= hi[i + 1]);
        assert(lo[i] <= hi[i] && lo[i + 1] <= hi[i + 1]);
        lemma_down_le_up(lo[i] as int, lo[i + 1] as int, hi[i] as int, hi[i + 1] as int, r, span);
        assert((0 * r) / span == 0);
        assert(0 * r + span - 1 == span - 1);
        lemma_basic_div(span - 1, span);
    }
}

/// `last_at_most` is the only index that is `0` or has a node at most `y`,
/// and after which every node up to `j` exceeds `y`.
proof fn lemma_last_at_most_unique(nodes: Seq<u64>, y: int, j: int, k: int)
    requires
        0 <= j < nodes.len(),
        0 <= k <= j,
        k == 0 || nodes[k] <= y,
        forall|m: int| k < m <= j ==> nodes[m] > y,
    ensures
        last_at_most(nodes, y, j) == k,
    decreases j,
{
    if j > k {
        lemma_last_at_most_unique(nodes, y, j - 1, k);
    }
}

impl CurveTable {
    /// A table over `[0, span]` with the given floor and ceiling nodes,
    /// generated for `decimals`; `None` unless the parts are valid.
    pub fn new(floor: Vec<u64>, ceil: Vec<u64>, span: u64, decimals: u8) -> (r: Option<CurveTable>)
        ensures
            r.is_some() <==> valid_parts(floor@, ceil@, span, decimals),
            r matches Some(t) ==> {
                &&& t.wf()
                &&& t.floor@ == floor@
                &&& t.ceil@ == ceil@
                &&& t.span == span
                &&& t.decimals == decimals
            },
    {
        if floor.len() < 2 || floor.len() != ceil.len() || span == 0 || decimals > MAX_DECIMALS {
            return None;
        }
        let cap = cap_base(decimals);
        if floor[0] > ceil[0] || ceil[0] > cap {
            assert(!pointwise_le(floor@, ceil@) || !bounded_by(ceil@, cap_of(decimals)));
            return None;
        }
        let len = floor.len();
        let mut i: usize = 1;
        while i < len
            invariant
                1 <= i <= len,
                len == floor@.len(),
                len == ceil@.len(),
                cap == cap_of(decimals),
                forall|a: int, b: int| 0 <= a <= b < i ==> floor@[a] <= floor@[b],
                forall|a: int, b: int| 0 <= a <= b < i ==> ceil@[a] <= ceil@[b],
                forall|a: int| 0 <= a < i ==> floor@[a] <= ceil@[a],
                forall|a: int| 0 <= a < i ==> ceil@[a] <= cap,
            decreases len - i,
        {
            if floor[i - 1] > floor[i] {
                assert(!sorted(floor@));
                return None;
            }
            if ceil[i - 1] > ceil[i] {
                assert(!sorted(ceil@));
                return None;
            }
            if floor[i] > ceil[i] {
                assert(!pointwise_le(floor@, ceil@));
                return None;
            }
            if ceil[i] > cap {
                assert(!bounded_by(ceil@, cap_of(decimals)));
                return None;
            }
            assert forall|a: int, b: int| 0 <= a <= b < i + 1 implies floor@[a] <= floor@[b] by {
                if b == i && a < i {
                    assert(floor@[a] <= floor@[i - 1]);
                }
            }
            assert forall|a: int, b: int| 0 <= a <= b < i + 1 implies ceil@[a] <= ceil@[b] by {
                if b == i && a < i {
                    assert(ceil@[a] <= ceil@[i - 1]);
                }
            }
            i = i + 1;
        }
        Some(CurveTable { floor, ceil, span, decimals, cap })
    }

    /// The table for a token with `token_decimals` decimals: refused when
    /// it was generated for other decimals, or when its parts are invalid.
    pub fn for_token(
        floor: Vec<u64>,
        ceil: Vec<u64>,
        span: u64,
        decimals: u8,
        token_decimals: u8,
    ) -> (r: Result<CurveTable, TableError>)
        ensures
            decimals != token_decimals ==> r == Err::<CurveTable, TableError>(TableError::DecimalsMismatch),
            decimals == token_decimals && !valid_parts(floor@, ceil@, span, decimals) ==> r == Err::<
                CurveTable,
                TableError,
            >(TableError::Malformed),
            decimals == token_decimals && valid_parts(floor@, ceil@, span, decimals) ==> (r matches Ok(
                t,
            ) && t.wf() && t.floor@ == floor@ && t.ceil@ == ceil@ && t.span == span && t.decimals
                == decimals),
    {
        if decimals != token_decimals {
            return Err(TableError::DecimalsMismatch);
        }
        match CurveTable::new(floor, ceil, span, decimals) {
            Some(t) => Ok(t),
            None => Err(TableError::Malformed),
        }
    }

    /// Number of nodes.
    pub fn n_nodes(&self) -> (r: usize)
        requires
            self.wf(),
        ensures
            r == self.floor@.len(),
    {
        self.floor.len()
    }

    /// Number of intervals between nodes.
    pub fn n_intervals(&self) -> (r: usize)
        requires
            self.wf(),
        ensures
            r == self.intervals(),
            r >= 1,
    {
        self.floor.len() - 1
    }

    /// Cumulative supply at position `x`, interpolated on the floor table
    /// rounding down, or on the ceiling table rounding up.
    pub fn interpolate(&self, x: u64, dir: Rounding) -> (r: u64)
        requires
            self.wf(),
        ensures
            r == self.at(x as int, dir),
    {
        let nodes = match dir {
            Rounding::Down => &self.floor,
            Rounding::Up => &self.ceil,
        };
        proof {
            assert(bounded_by(nodes@, self.cap as int)) by {
                assert forall|k: int| 0 <= k < nodes@.len() implies nodes@[k] <= self.cap by {
                    assert(self.floor@[k] <= self.ceil@[k]);
                }
            }
            lemma_interp_bounds(nodes@, self.span as int, self.cap as int, x as int, dir);
        }
        if x == 0 {
            return 0;
        }
        if x >= self.span {
            return self.cap;
        }
        let n: usize = nodes.len() - 1;
        let span = self.span as u128;
        proof {
            assert((x as int) * (n as int) <= u128::MAX) by (nonlinear_arith)
                requires
                    x <= u64::MAX,
                    n <= u64::MAX,
            ;
            lemma_interval_index(x as int, n as int, self.span as int);
        }
        let u: u128 = (x as u128) * (n as u128);
        let i = (u / span) as usize;
        let r: u128 = u % span;
        let a = nodes[i];
        let b = nodes[i + 1];
        let v: u64 = if b <= a {
            a
        } else {
            let d = (b - a) as u128;
            proof {
                assert((d as int) * (r as int) + span <= u128::MAX) by (nonlinear_arith)
                    requires
                        d <= u64::MAX,
                        r < span,
                        span <= u64::MAX,
                ;
                lemma_scaled_down_bounds(d as int, r as int, span as int);
                lemma_scaled_up_bounds(d as int, r as int, span as int);
            }
            let incr = match dir {
                Rounding::Down => d * r / span,
                Rounding::Up => (d * r + span - 1) / span,
            };
            a + incr as u64
        };
        if v <= self.cap {
            v
        } else {
            self.cap
        }
    }

    /// Cumulative supply at `x` on the floor table, rounded down.
    pub fn y_at_x_floor(&self, x: u64) -> (r: u64)
        requires
            self.wf(),
        ensures
            r == self.floor_at(x as int),
    {
        self.interpolate(x, Rounding::Down)
    }

    /// Cumulative supply at `x` on the ceiling table, rounded up.
    pub fn y_at_x_ceil(&self, x: u64) -> (r: u64)
        requires
            self.wf(),
        ensures
            r == self.ceil_at(x as int),
    {
        self.interpolate(x, Rounding::Up)
    }

    /// Position for cumulative supply `y`: a binary search for the last floor
    /// node at most `y`, then the linear fraction of the way to the next node.
    pub fn x_from_y_lut(&self, y: u64) -> (r: u64)
        requires
            self.wf(),
        ensures
            r == self.position_of(y as int),
            r <= self.span,
    {
        let cap = self.cap;
        let yb = if y <= cap {
            y
        } else {
            cap
        };
        if yb == 0 {
            return 0;
        }
        if yb >= cap {
            return self.span;
        }
        let n: usize = self.floor.len() - 1;
        let mut lo: usize = 0;
        let mut hi: usize = n;
        while lo < hi
            invariant
                self.wf(),
                n == self.floor@.len() - 1,
                0 <= lo <= hi <= n,
                lo == 0 || self.floor@[lo as int] <= yb,
                forall|m: int| hi < m <= n ==> self.floor@[m] > yb,
            decreases hi - lo,
        {
            let mid = hi - (hi - lo) / 2;
            if self.floor[mid] <= yb {
                lo = mid;
            } else {
                assert forall|m: int| mid - 1 < m <= n implies self.floor@[m] > yb by {
                    if m <= hi {
                        assert(self.floor@[mid as int] <= self.floor@[m]);
                    }
                }
                hi = mid - 1;
            }
        }
        proof {
            lemma_last_at_most_unique(self.floor@, yb as int, n as int, lo as int);
        }
        if lo >= n {
            return self.span;
        }
        let yl = self.floor[lo];
        let yr = self.floor[lo + 1];
        let span = self.span as u128;
        let frac: u128 = if yr <= yl || yb <= yl {
            0
        } else {
            proof {
                assert(yb < yr) by {
                    if lo == 0 && yl > yb {
                    } else {
                        assert(self.floor@[lo + 1] > yb);
                    }
                }
                assert(((yb - yl) as int) * (span as int) <= u128::MAX) by (nonlinear_arith)
                    requires
                        yb - yl <= u64::MAX,
                        span <= u64::MAX,
                ;
                lemma_scaled_down_bounds(span as int, (yb - yl) as int, (yr - yl) as int);
                assert((span as int) * ((yb - yl) as int) == ((yb - yl) as int) * (span as int))
                    by (nonlinear_arith);
            }
            ((yb - yl) as u128) * span / ((yr - yl) as u128)
        };
        proof {
            assert((lo as int) * (span as int) + span <= u128::MAX) by (nonlinear_arith)
                requires
                    lo < n,
                    n <= u64::MAX,
                    span <= u64::MAX,
            ;
            lemma_position_bound(lo as int, frac as int, span as int, n as int);
        }
        (((lo as u128) * span + frac) / (n as u128)) as u64
    }
}


/// Under a well-formed table the floor nodes are bounded by the cap too.
proof fn lemma_floor_bounded(t: &CurveTable)
    requires
        t.wf(),
    ensures
        bounded_by(t.floor@, t.cap as int),
{
    assert forall|k: int| 0 <= k < t.floor@.len() implies t.floor@[k] <= t.cap by {
        assert(t.floor@[k] <= t.ceil@[k]);
    }
}

/// At every position, the floor-table supply is at most the ceiling-table
/// supply, and both lie within `[0, cap]`.
pub proof fn lemma_floor_below_ceil(t: &CurveTable, x: int)
    requires
        t.wf(),
    ensures
        0 <= t.floor_at(x) <= t.ceil_at(x) <= t.cap,
{
    lemma_floor_bounded(t);
    lemma_interp_bounds(t.floor@, t.span as int, t.cap as int, x, Rounding::Down);
    lemma_interp_bounds(t.ceil@, t.span as int, t.cap as int, x, Rounding::Up);
    lemma_interp_floor_le_ceil(t.floor@, t.ceil@, t.span as int, t.cap as int, x);
}

/// Floor-table and ceiling-table supply are both non-decreasing in the
/// position.
pub proof fn lemma_supply_monotone(t: &CurveTable, x1: int, x2: int)
    requires
        t.wf(),
        x1 <= x2,
    ensures
        t.floor_at(x1) <= t.floor_at(x2),
        t.ceil_at(x1) <= t.ceil_at(x2),
{
    lemma_floor_bounded(t);
    lemma_interp_monotone(t.floor@, t.span as int, t.cap as int, x1, x2, Rounding::Down);
    lemma_interp_monotone(t.ceil@, t.span as int, t.cap as int, x1, x2, Rounding::Up);
}

/// Inverting the floor-table supply at position `x` never lands past `x`, so
/// in particular never more than one node width past it. Left out are the
/// positions inside the domain whose supply already equals the cap or the
/// next node's supply (a flat stretch of the table): there the last node at
/// most that supply may lie further on.
pub proof fn lemma_invert_within_node(t: &CurveTable, x: int)
    requires
        t.wf(),
        0 <= x,
        0 < x < t.span ==> {
            let i = (x * t.intervals()) / t.span as int;
            &&& t.floor_at(x) < t.cap
            &&& t.floor_at(x) < t.floor@[i + 1]
        },
    ensures
        t.position_of(t.floor_at(x)) <= x,
        t.position_of(t.floor_at(x)) <= x + t.node_width(),
{
    let span = t.span as int;
    let n = t.intervals();
    let y = t.floor_at(x);
    lemma_floor_bounded(t);
    lemma_interp_bounds(t.floor@, span, t.cap as int, x, Rounding::Down);
    assert(0 <= span / n) by {
        vstd::arithmetic::div_mod::lemma_div_pos_is_pos(span, n);
    }
    if 0 < x < span && y > 0 {
        lemma_interval_index(x, n, span);
        let i = (x * n) / span;
        let r = (x * n) % span;
        let a = t.floor@[i] as int;
        let b = t.floor@[i + 1] as int;
        assert(a < b);
        assert forall|m: int| i < m <= n implies t.floor@[m] > y by {
            assert(t.floor@[i + 1] <= t.floor@[m]);
        }
        lemma_last_at_most_unique(t.floor@, y, n, i);
        let q = ((b - a) * r) / span;
        assert(y == a + q);
        let frac = if y <= a {
            0
        } else {
            ((y - a) * span) / (b - a)
        };
        assert(frac <= r) by {
            lemma_inverse_not_past(b - a, r, span);
            assert(q * span == (y - a) * span);
        }
        vstd::arithmetic::div_mod::lemma_div_is_ordered(i * span + frac, x * n, n);
        crate::arith::lemma_cancel(x, n);
    }
}


/// `last_at_most` is `0` or has a node at most `y`, and every node after it
/// up to `j` exceeds `y`.
proof fn lemma_last_at_most_char(nodes: Seq<u64>, y: int, j: int)
    requires
        0 <= j < nodes.len(),
    ensures
        0 <= last_at_most(nodes, y, j) <= j,
        last_at_most(nodes, y, j) == 0 || nodes[last_at_most(nodes, y, j)] <= y,
        forall|m: int| last_at_most(nodes, y, j) < m <= j ==> nodes[m] > y,
    decreases j,
{
    if j > 0 && nodes[j] > y {
        lemma_last_at_most_char(nodes, y, j - 1);
    }
}

/// Between the last node at most `yb` and the next one, the linear fraction
/// scaled to the interval width stays within `[0, span]`.
proof fn lemma_invert_fraction(t: &CurveTable, yb: int)
    requires
        t.wf(),
        0 < yb < t.cap,
        last_at_most(t.floor@, yb, t.intervals()) < t.intervals(),
    ensures
        ({
            let lo = last_at_most(t.floor@, yb, t.intervals());
            let yl = t.floor@[lo] as int;
            let yr = t.floor@[lo + 1] as int;
            let frac = if yr <= yl || yb <= yl {
                0
            } else {
                ((yb - yl) * t.span) / (yr - yl)
            };
            &&& 0 <= frac <= t.span
            &&& 0 <= t.position_of(yb) <= t.span
            &&& t.position_of(yb) == (lo * t.span + frac) / t.intervals()
        }),
{
    let n = t.intervals();
    let span = t.span as int;
    lemma_last_at_most_char(t.floor@, yb, n);
    let lo = last_at_most(t.floor@, yb, n);
    let yl = t.floor@[lo] as int;
    let yr = t.floor@[lo + 1] as int;
    if yl < yr && yl < yb {
        assert(yb < yr);
        lemma_scaled_down_bounds(span, yb - yl, yr - yl);
        assert(span * (yb - yl) == (yb - yl) * span) by (nonlinear_arith);
    }
    let frac = if yr <= yl || yb <= yl {
        0
    } else {
        ((yb - yl) * span) / (yr - yl)
    };
    lemma_position_bound(lo, frac, span, n);
}

/// The inverse stays within the domain `[0, span]` and is non-decreasing in
/// the supply.
pub proof fn lemma_position_monotone(t: &CurveTable, y1: int, y2: int)
    requires
        t.wf(),
        y1 <= y2,
    ensures
        0 <= t.position_of(y1) <= t.position_of(y2) <= t.span,
{
    let n = t.intervals();
    let span = t.span as int;
    let cap = t.cap as int;
    let yb1 = if y1 <= cap {
        y1
    } else {
        cap
    };
    let yb2 = if y2 <= cap {
        y2
    } else {
        cap
    };
    if 0 < yb1 < cap {
        lemma_last_at_most_char(t.floor@, yb1, n);
        if last_at_most(t.floor@, yb1, n) < n {
            lemma_invert_fraction(t, yb1);
        }
    }
    if 0 < yb2 < cap {
        lemma_last_at_most_char(t.floor@, yb2, n);
        if last_at_most(t.floor@, yb2, n) < n {
            lemma_invert_fraction(t, yb2);
        }
    }
    if 0 < yb1 && yb2 < cap {
        let lo1 = last_at_most(t.floor@, yb1, n);
        let lo2 = last_at_most(t.floor@, yb2, n);
        if lo2 < lo1 {
            assert(t.floor@[lo1] <= yb1);
            assert(t.floor@[lo1] > yb2);
        }
        if lo2 < n {
            let yl = t.floor@[lo1] as int;
            let yr = t.floor@[lo1 + 1] as int;
            let frac1 = if yr <= yl || yb1 <= yl {
                0
            } else {
                ((yb1 - yl) * span) / (yr - yl)
            };
            if lo1 < lo2 {
                let frac2 = if t.floor@[lo2 + 1] <= t.floor@[lo2] || yb2 <= t.floor@[lo2] {
                    0
                } else {
                    ((yb2 - t.floor@[lo2]) * span) / (t.floor@[lo2 + 1] - t.floor@[lo2])
                };
                assert(frac1 <= span);
                assert(0 <= frac2);
                assert((lo1 + 1) * span <= lo2 * span) by (nonlinear_arith)
                    requires
                        0 <= lo1 < lo2,
                        span >= 0,
                ;
                assert((lo1 + 1) * span == lo1 * span + span) by (nonlinear_arith);
                vstd::arithmetic::div_mod::lemma_div_is_ordered(lo1 * span + frac1, lo2 * span + frac2, n);
            } else {
                let frac2 = if yr <= yl || yb2 <= yl {
                    0
                } else {
                    ((yb2 - yl) * span) / (yr - yl)
                };
                if yl < yr && yl < yb1 {
                    lemma_scaled_monotone(span, yb1 - yl, yb2 - yl, yr - yl);
                    assert(span * (yb1 - yl) == (yb1 - yl) * span) by (nonlinear_arith);
                    assert(span * (yb2 - yl) == (yb2 - yl) * span) by (nonlinear_arith);
                }
                vstd::arithmetic::div_mod::lemma_div_is_ordered(lo1 * span + frac1, lo1 * span + frac2, n);
            }
        }
    }
}


/// `q / n` times `n` lies in `(q - n, q]`.
proof fn lemma_div_floor_range(q: int, n: int)
    requires
        n > 0,
    ensures
        q - n < (q / n) * n <= q,
{
    vstd::arithmetic::div_mod::lemma_fundamental_div_mod(q, n);
    vstd::arithmetic::div_mod::lemma_mod_bound(q, n);
    vstd::arithmetic::mul::lemma_mul_is_commutative(n, q / n);
}

/// The inverse relates to the largest position whose floor supply is at
/// most `y`: short of the end of the domain, the floor supply at the inverse
/// is at most `y`; and for positive `y`, no position whose floor supply is at
/// most `y` lies more than one node width (plus one unit of rounding) past
/// the inverse. (At `y == 0` the inverse is `0` by definition, even where
/// the table starts flat.)
pub proof fn lemma_position_near_largest(t: &CurveTable, y: int)
    requires
        t.wf(),
        0 <= y,
    ensures
        t.position_of(y) < t.span ==> t.floor_at(t.position_of(y)) <= y,
        y > 0 ==> forall|x: int|
            0 <= x <= t.span && #[trigger] t.floor_at(x) <= y ==> x <= t.position_of(y)
                + t.node_width() + 1,
{
    let n = t.intervals();
    let span = t.span as int;
    let cap = t.cap as int;
    let pos = t.position_of(y);
    lemma_floor_bounded(t);
    lemma_position_monotone(t, y, y);
    vstd::arithmetic::div_mod::lemma_div_pos_is_pos(span, n);
    crate::curve::lemma_cap_positive(t.decimals);
    if y > 0 && !(y < cap && last_at_most(t.floor@, y, n) < n) {
        if y < cap {
            lemma_last_at_most_char(t.floor@, y, n);
        }
        assert(pos == span);
        assert(0 <= t.node_width());
    }
    if 0 < y < cap && last_at_most(t.floor@, y, n) < n {
        lemma_last_at_most_char(t.floor@, y, n);
        lemma_invert_fraction(t, y);
        let lo = last_at_most(t.floor@, y, n);
        let yl = t.floor@[lo] as int;
        let yr = t.floor@[lo + 1] as int;
        let d = yr - yl;
        let frac = if yr <= yl || y <= yl {
            0
        } else {
            ((y - yl) * span) / d
        };
        let q = lo * span + frac;
        assert(pos == q / n);
        lemma_div_floor_range(q, n);
        if yl < yr && yl < y {
            assert(y < yr);
            assert((y - yl) * span < d * span) by (nonlinear_arith)
                requires
                    0 < y - yl < d,
                    span > 0,
            ;
            vstd::arithmetic::div_mod::lemma_multiply_divide_lt((y - yl) * span, d, span);
            lemma_div_floor_range((y - yl) * span, d);
            assert(frac < span);
        }
        // The floor supply at the inverse is at most `y`.
        if 0 < pos < span {
            lemma_interval_index(pos, n, span);
            lemma_interp_bounds(t.floor@, span, cap, pos, Rounding::Down);
            let i = (pos * n) / span;
            let r = (pos * n) % span;
            assert((lo + 1) * span == lo * span + span) by (nonlinear_arith);
            assert(i <= lo) by {
                assert(i * span <= pos * n);
                assert(pos * n < (lo + 1) * span || (frac == 0 && pos * n <= lo * span));
                if i > lo {
                    assert((lo + 1) * span <= i * span) by (nonlinear_arith)
                        requires
                            lo + 1 <= i,
                            span > 0,
                    ;
                    assert(lo * span <= (lo + 1) * span) by (nonlinear_arith)
                        requires
                            span > 0,
                    ;
                }
            }
            if i < lo {
                assert(t.floor@[i + 1] <= t.floor@[lo]);
            } else {
                assert(r <= frac);
                if yl < yr && yl < y {
                    lemma_scaled_monotone(d, r, frac, span);
                    lemma_div_floor_range((y - yl) * span, d);
                    assert(d * frac <= span * (y - yl)) by (nonlinear_arith)
                        requires
                            frac * d <= (y - yl) * span,
                    ;
                    vstd::arithmetic::div_mod::lemma_multiply_divide_le(d * frac, span, y - yl);
                } else {
                    assert(r == 0);
                    assert(pos * n > 0) by (nonlinear_arith)
                        requires
                            pos > 0,
                            n > 0,
                    ;
                    if lo == 0 {
                        assert(q == frac);
                    }
                    assert(lo >= 1);
                    assert((d * 0) / span == 0);
                }
            }
        }
        // Positions whose floor supply is at most `y` lie in the intervals up
        // to `lo`, so less than one node width past the inverse.
        let w = span / n;
        lemma_div_floor_range(span, n);
        assert forall|x: int| 0 <= x <= span && #[trigger] t.floor_at(x) <= y implies x <= pos + w + 1 by {
            if 0 < x < span {
                lemma_interval_index(x, n, span);
                lemma_interp_bounds(t.floor@, span, cap, x, Rounding::Down);
                let i = (x * n) / span;
                if i > lo {
                    assert(t.floor@[lo + 1] <= t.floor@[i]);
                }
                assert(x * n < (lo + 1) * span) by (nonlinear_arith)
                    requires
                        x * n == i * span + (x * n) % span,
                        (x * n) % span < span,
                        i <= lo,
                        span > 0,
                ;
                assert(x < pos + w + 2) by (nonlinear_arith)
                    requires
                        x * n < (lo + 1) * span,
                        q - n < pos * n,
                        lo * span <= q,
                        span < w * n + n,
                        n > 0,
                ;
            }
        }
    }
}

} // verus!
