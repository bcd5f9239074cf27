//! The per-pool ledger record and its phase machine: trades while `Active`,
//! a one-way switch to `Migrating` when the supply cap is sold, and the end
//! state `Migrated` once liquidity sits on the external market.
//!
//! Each operation takes the values it needs from the ledger as arguments
//! (live balances, the current slot, the caller) and returns the amounts the
//! caller must then move. Every refusal leaves the record untouched.
use vstd::prelude::*;
use crate::curve::{buy_on_curve, buy_quote, sell_on_curve, sell_quote, sold_of, y_sold_from_pool};
use crate::errors::PoolError;
use crate::table::CurveTable;

verus! {

/// An account identity: 256 bits held as four 64-bit words.
#[derive(Clone, Copy, Debug, PartialEq, Eq, Structural)]
pub struct Key {
    pub w0: u64,
    pub w1: u64,
    pub w2: u64,
    pub w3: u64,
}

#[derive(Clone, Copy, Debug, PartialEq, Eq, Structural)]
pub enum PoolPhase {
    /// The curve is live: buys and sells are accepted.
    Active,
    /// The cap was sold; trading is halted while reserves are drained.
    Migrating,
    /// Liquidity lives on the external market. Terminal.
    Migrated,
}

impl PoolPhase {
    /// Position of the phase in the one-way sequence.
    pub open spec fn rank(self) -> nat {
        match self {
            PoolPhase::Active => 0,
            PoolPhase::Migrating => 1,
            PoolPhase::Migrated => 2,
        }
    }
}

/// Balances read from the ledger before a buy.
#[derive(Clone, Copy, Debug, PartialEq, Eq, Structural)]
pub struct Holdings {
    /// Total supply of the token's mint.
    pub mint_supply: u64,
    /// Tokens in the pool's holding.
    pub pool_tokens: u64,
    /// Currency in the pool's vault.
    pub vault_currency: u64,
}

/// Balances read from the ledger when migration starts.
#[derive(Clone, Copy, Debug, PartialEq, Eq, Structural)]
pub struct LiveBalances {
    /// Tokens in the pool's holding.
    pub pool_tokens: u64,
    /// Tokens in the auxiliary treasury holding.
    pub treasury_tokens: u64,
    /// Currency in the pool's vault.
    pub vault_currency: u64,
}

/// What an accepted buy amounts to.
#[derive(Clone, Copy, Debug, PartialEq, Eq, Structural)]
pub struct BuyOutcome {
    /// Tokens the pool hands the buyer.
    pub tokens_out: u64,
    /// Currency the buyer pays the pool.
    pub currency_spent: u64,
    /// Whether this buy sold the last token under the cap.
    pub cap_reached: bool,
}

/// The transfers that migration start asks for, each out of its own
/// holding; a zero amount means that transfer is skipped.
#[derive(Clone, Copy, Debug, PartialEq, Eq, Structural)]
pub struct Drain {
    pub pool_tokens: u64,
    pub treasury_tokens: u64,
    pub vault_currency: u64,
    /// Whether this call moved the pool from `Active` to `Migrating`.
    pub entered_migrating: bool,
}

/// The ledger record of one pool.
#[derive(Clone, Copy, Debug, PartialEq, Eq, Structural)]
pub struct LiquidityPool {
    pub creator: Key,
    /// The token's mint.
    pub token: Key,
    /// Mint supply cached when reserves were first recorded.
    pub total_supply: u64,
    /// Tokens the pool holds; cumulative sold is derived from it.
    pub reserve_token: u64,
    /// Currency the pool's vault holds.
    pub reserve_currency: u64,
    /// Seed bump of the pool's derived address.
    pub bump: u8,
    pub phase: PoolPhase,
    /// Slot at which the cap was reached; set once.
    pub cap_reached_at: Option<u64>,
    /// The pool created on the external market; set at finalization.
    pub external_market: Option<Key>,
    /// The only actor allowed to drive migration.
    pub migration_authority: Key,
    /// Reserves captured when the pool entered `Migrating`.
    pub reserve_snapshot_token: u64,
    pub reserve_snapshot_currency: u64,
    /// Optional token-lock commitment; set at most once, at finalization.
    pub lock_record: Option<Key>,
}

impl LiquidityPool {
    /// Tokens sold so far under supply cap `cap`.
    pub open spec fn sold(self, cap: int) -> int {
        sold_of(self.reserve_token as int, cap)
    }

    /// The record a buy prices against: reserves that were never recorded
    /// are first taken from the live balances.
    pub open spec fn synced(self, h: Holdings) -> LiquidityPool {
        if self.reserve_token == 0 && self.reserve_currency == 0 {
            LiquidityPool {
                total_supply: h.mint_supply,
                reserve_token: h.pool_tokens,
                reserve_currency: h.vault_currency,
                ..self
            }
        } else {
            self
        }
    }

    /// The record switched to `Migrating` at `slot`, with the given snapshot.
    pub open spec fn entered_migrating(self, slot: u64, snap_token: u64, snap_currency: u64) -> LiquidityPool {
        LiquidityPool {
            phase: PoolPhase::Migrating,
            cap_reached_at: Some(slot),
            reserve_snapshot_token: snap_token,
            reserve_snapshot_currency: snap_currency,
            ..self
        }
    }

    /// The refusal a buy of `amount` meets, if any.
    pub open spec fn buy_error(self, table: &CurveTable, amount: u64, h: Holdings) -> Option<PoolError> {
        let b = self.synced(h);
        let q = buy_quote(table, b.sold(table.cap as int), amount as int);
        if amount == 0 || self.phase != PoolPhase::Active || q.0 == 0 || q.0 > b.reserve_token {
            Some(PoolError::InvalidAmount)
        } else if b.reserve_currency + q.1 > u64::MAX {
            Some(PoolError::ArithmeticOverflow)
        } else {
            None
        }
    }

    /// The outcome of an accepted buy of `amount`.
    pub open spec fn buy_outcome(self, table: &CurveTable, amount: u64, h: Holdings) -> BuyOutcome {
        let b = self.synced(h);
        let sold = b.sold(table.cap as int);
        let q = buy_quote(table, sold, amount as int);
        BuyOutcome {
            tokens_out: q.0 as u64,
            currency_spent: q.1 as u64,
            cap_reached: sold + q.0 == table.cap,
        }
    }

    /// The record after an accepted buy: reserves move by the outcome's
    /// amounts; if the cap was reached, the pool enters `Migrating` with a
    /// snapshot of the tokens it held before this buy (those it just sold
    /// out, as what remains is none when holdings match the cap) and of the
    /// currency reserve just updated by this buy.
    pub open spec fn after_buy(self, table: &CurveTable, amount: u64, h: Holdings, slot: u64) -> LiquidityPool {
        let b = self.synced(h);
        let o = self.buy_outcome(table, amount, h);
        let marked = if o.cap_reached {
            b.entered_migrating(slot, b.reserve_token, (b.reserve_currency + o.currency_spent) as u64)
        } else {
            b
        };
        LiquidityPool {
            reserve_token: (b.reserve_token - o.tokens_out) as u64,
            reserve_currency: (b.reserve_currency + o.currency_spent) as u64,
            ..marked
        }
    }

    /// The refusal a sell of `amount` tokens meets, if any. Selling more
    /// tokens than the pool holds is not refused.
    pub open spec fn sell_error(self, table: &CurveTable, amount: u64) -> Option<PoolError> {
        let out = sell_quote(table, self.sold(table.cap as int), amount as int);
        if amount == 0 || self.phase != PoolPhase::Active {
            Some(PoolError::InvalidAmount)
        } else if out > self.reserve_currency {
            Some(PoolError::InsufficientReserve)
        } else if self.reserve_token + amount > u64::MAX {
            Some(PoolError::ArithmeticOverflow)
        } else {
            None
        }
    }

    /// The refusal migration start meets, if any.
    pub open spec fn start_error(self, table: &CurveTable, caller: Key) -> Option<PoolError> {
        if caller != self.migration_authority {
            Some(PoolError::UnauthorizedActor)
        } else if self.phase == PoolPhase::Migrated {
            Some(PoolError::BadPhase)
        } else if self.sold(table.cap as int) < table.cap {
            Some(PoolError::CapNotReached)
        } else {
            None
        }
    }

    /// Snapshot fields still zero are filled from the live balances; phase
    /// and cap slot stay as they are.
    pub open spec fn backfilled(self, bal: LiveBalances) -> LiquidityPool {
        LiquidityPool {
            reserve_snapshot_token: if self.reserve_snapshot_token == 0 {
                bal.pool_tokens
            } else {
                self.reserve_snapshot_token
            },
            reserve_snapshot_currency: if self.reserve_snapshot_currency == 0 {
                bal.vault_currency
            } else {
                self.reserve_snapshot_currency
            },
            ..self
        }
    }

    /// The record after an accepted migration start: an `Active` pool enters
    /// `Migrating` with the live balances as snapshot, a `Migrating` one has
    /// missing snapshot fields backfilled; then the drained token holding is
    /// taken off the token reserve and a drained vault empties the currency
    /// reserve.
    pub open spec fn after_start(self, bal: LiveBalances, slot: u64) -> LiquidityPool {
        let marked = if self.phase == PoolPhase::Active {
            self.entered_migrating(slot, bal.pool_tokens, bal.vault_currency)
        } else {
            self.backfilled(bal)
        };
        LiquidityPool {
            reserve_token: if bal.pool_tokens > 0 {
                if marked.reserve_token > bal.pool_tokens {
                    (marked.reserve_token - bal.pool_tokens) as u64
                } else {
                    0
                }
            } else {
                marked.reserve_token
            },
            reserve_currency: if bal.vault_currency > 0 {
                0
            } else {
                marked.reserve_currency
            },
            ..marked
        }
    }

    /// The refusal finalization meets, if any.
    pub open spec fn finalize_error(self, caller: Key) -> Option<PoolError> {
        if caller != self.migration_authority {
            Some(PoolError::UnauthorizedActor)
        } else if self.phase != PoolPhase::Migrating {
            Some(PoolError::BadPhase)
        } else {
            None
        }
    }

    /// The record after finalization: the external market is recorded, the
    /// lock record too if one is given, and the pool is `Migrated`.
    pub open spec fn after_finalize(self, market: Key, lock: Option<Key>) -> LiquidityPool {
        LiquidityPool {
            external_market: Some(market),
            lock_record: if lock is Some {
                lock
            } else {
                self.lock_record
            },
            phase: PoolPhase::Migrated,
            ..self
        }
    }
}


fn is_active(phase: PoolPhase) -> (r: bool)
    ensures
        r == (phase == PoolPhase::Active),
{
    match phase {
        PoolPhase::Active => true,
        _ => false,
    }
}

impl LiquidityPool {
    /// A fresh `Active` pool with no reserves; its creator is also its
    /// migration authority until told otherwise.
    pub fn new(creator: Key, token: Key, bump: u8) -> (r: LiquidityPool)
        ensures
            r == (LiquidityPool {
                creator,
                token,
                total_supply: 0,
                reserve_token: 0,
                reserve_currency: 0,
                bump,
                phase: PoolPhase::Active,
                cap_reached_at: None,
                external_market: None,
                migration_authority: creator,
                reserve_snapshot_token: 0,
                reserve_snapshot_currency: 0,
                lock_record: None,
            }),
    {
        LiquidityPool {
            creator,
            token,
            total_supply: 0,
            reserve_token: 0,
            reserve_currency: 0,
            bump,
            phase: PoolPhase::Active,
            cap_reached_at: None,
            external_market: None,
            migration_authority: creator,
            reserve_snapshot_token: 0,
            reserve_snapshot_currency: 0,
            lock_record: None,
        }
    }

    /// Sets both reserve counters.
    pub fn update_reserves(&mut self, reserve_token: u64, reserve_currency: u64)
        ensures
            *final(self) == (LiquidityPool { reserve_token, reserve_currency, ..*old(self) }),
    {
        self.reserve_token = reserve_token;
        self.reserve_currency = reserve_currency;
    }

    /// Records the balances after the bootstrap deposit: the mint supply and
    /// both reserves.
    pub fn add_liquidity(&mut self, h: Holdings)
        ensures
            *final(self) == (LiquidityPool {
                total_supply: h.mint_supply,
                reserve_token: h.pool_tokens,
                reserve_currency: h.vault_currency,
                ..*old(self)
            }),
    {
        self.total_supply = h.mint_supply;
        self.update_reserves(h.pool_tokens, h.vault_currency);
    }

    /// Applies a buy with a currency budget of `amount` at `slot`. The pool
    /// must be `Active`; reserves never recorded are first taken from `h`.
    /// The buyer gets the curve's tokens for the budget, never more than the
    /// pool holds; if that sells the last token under the cap, the pool
    /// enters `Migrating` in the same step.
    pub fn buy(&mut self, table: &CurveTable, amount: u64, h: Holdings, slot: u64) -> (r: Result<
        BuyOutcome,
        PoolError,
    >)
        requires
            table.wf(),
        ensures
            old(self).buy_error(table, amount, h) matches Some(e) ==> r == Err::<BuyOutcome, PoolError>(e)
                && *final(self) == *old(self),
            old(self).buy_error(table, amount, h) is None ==> r == Ok::<BuyOutcome, PoolError>(
                old(self).buy_outcome(table, amount, h),
            ) && *final(self) == old(self).after_buy(table, amount, h, slot),
            r matches Ok(o) ==> {
                let b = old(self).synced(h);
                let cap = table.cap as int;
                &&& o.currency_spent <= amount
                &&& o.tokens_out <= b.reserve_token
                &&& b.sold(cap) <= final(self).sold(cap) <= cap
                &&& b.reserve_token <= cap ==> b.sold(cap) < final(self).sold(cap)
                &&& o.currency_spent > 0
                &&& o.cap_reached ==> {
                    &&& final(self).reserve_snapshot_currency == final(self).reserve_currency
                    &&& final(self).reserve_snapshot_token == b.reserve_token
                    &&& final(self).reserve_snapshot_token > 0
                    &&& final(self).reserve_snapshot_currency > 0
                }
            },
            amount == 0 ==> r == Err::<BuyOutcome, PoolError>(PoolError::InvalidAmount),
            old(self).phase.rank() <= final(self).phase.rank(),
    {
        if amount == 0 || !is_active(self.phase) {
            return Err(PoolError::InvalidAmount);
        }
        let mut b = *self;
        if b.reserve_token == 0 && b.reserve_currency == 0 {
            b.total_supply = h.mint_supply;
            b.reserve_token = h.pool_tokens;
            b.reserve_currency = h.vault_currency;
        }
        let cap = table.cap;
        let y_sold = y_sold_from_pool(b.reserve_token, table.decimals);
        let (tokens_out, currency_spent) = buy_on_curve(table, y_sold, amount);
        if tokens_out == 0 || tokens_out > b.reserve_token {
            return Err(PoolError::InvalidAmount);
        }
        let total_after = y_sold + tokens_out;
        let reserve_currency = match b.reserve_currency.checked_add(currency_spent) {
            Some(v) => v,
            None => return Err(PoolError::ArithmeticOverflow),
        };
        let cap_reached = total_after == cap;
        if cap_reached {
            b.phase = PoolPhase::Migrating;
            b.cap_reached_at = Some(slot);
            b.reserve_snapshot_token = b.reserve_token;
            b.reserve_snapshot_currency = reserve_currency;
        }
        b.reserve_currency = reserve_currency;
        b.reserve_token = b.reserve_token - tokens_out;
        *self = b;
        Ok(BuyOutcome { tokens_out, currency_spent, cap_reached })
    }

    /// Applies a sell of `amount` tokens. The pool must be `Active` and its
    /// currency reserve must cover the curve's price; the pool's token
    /// reserve grows by `amount`. Returns the currency owed to the seller.
    pub fn sell(&mut self, table: &CurveTable, amount: u64) -> (r: Result<u64, PoolError>)
        requires
            table.wf(),
        ensures
            old(self).sell_error(table, amount) matches Some(e) ==> r == Err::<u64, PoolError>(e)
                && *final(self) == *old(self),
            old(self).sell_error(table, amount) is None ==> {
                let out = sell_quote(table, old(self).sold(table.cap as int), amount as int);
                &&& r == Ok::<u64, PoolError>(out as u64)
                &&& *final(self) == (LiquidityPool {
                    reserve_token: (old(self).reserve_token + amount) as u64,
                    reserve_currency: (old(self).reserve_currency - out) as u64,
                    ..*old(self)
                })
            },
            r matches Ok(out) ==> out <= old(self).reserve_currency,
            amount == 0 ==> r == Err::<u64, PoolError>(PoolError::InvalidAmount),
            old(self).phase.rank() <= final(self).phase.rank(),
    {
        if amount == 0 || !is_active(self.phase) {
            return Err(PoolError::InvalidAmount);
        }
        let y_sold = y_sold_from_pool(self.reserve_token, table.decimals);
        let currency_out = sell_on_curve(table, y_sold, amount);
        if currency_out > self.reserve_currency {
            return Err(PoolError::InsufficientReserve);
        }
        let reserve_token = match self.reserve_token.checked_add(amount) {
            Some(v) => v,
            None => return Err(PoolError::ArithmeticOverflow),
        };
        self.reserve_currency = self.reserve_currency - currency_out;
        self.reserve_token = reserve_token;
        Ok(currency_out)
    }

    /// Fills the snapshot fields that are still zero from the live balances.
    /// A one-time repair for pools that entered `Migrating` without a
    /// snapshot; it changes neither the phase nor the cap slot.
    pub fn backfill_snapshots(&mut self, bal: LiveBalances)
        ensures
            *final(self) == old(self).backfilled(bal),
    {
        if self.reserve_snapshot_token == 0 {
            self.reserve_snapshot_token = bal.pool_tokens;
        }
        if self.reserve_snapshot_currency == 0 {
            self.reserve_snapshot_currency = bal.vault_currency;
        }
    }

    /// Starts migration once the cap is sold: checks the caller, switches an
    /// `Active` pool to `Migrating` at `slot` with the live balances as its
    /// snapshot (or backfills a `Migrating` pool's missing snapshot), and
    /// returns the three drains to perform, zeroing the tracked reserves
    /// they empty.
    pub fn start_migration(&mut self, table: &CurveTable, caller: Key, bal: LiveBalances, slot: u64) -> (r:
        Result<Drain, PoolError>)
        requires
            table.wf(),
        ensures
            old(self).start_error(table, caller) matches Some(e) ==> r == Err::<Drain, PoolError>(e)
                && *final(self) == *old(self),
            old(self).start_error(table, caller) is None ==> r == Ok::<Drain, PoolError>(
                Drain {
                    pool_tokens: bal.pool_tokens,
                    treasury_tokens: bal.treasury_tokens,
                    vault_currency: bal.vault_currency,
                    entered_migrating: old(self).phase == PoolPhase::Active,
                },
            ) && *final(self) == old(self).after_start(bal, slot),
            r is Ok ==> final(self).phase == PoolPhase::Migrating,
            caller == old(self).migration_authority && old(self).phase == PoolPhase::Active && old(
                self,
            ).sold(table.cap as int) < table.cap ==> r == Err::<Drain, PoolError>(
                PoolError::CapNotReached,
            ) && *final(self) == *old(self),
            old(self).phase.rank() <= final(self).phase.rank(),
    {
        if caller != self.migration_authority {
            return Err(PoolError::UnauthorizedActor);
        }
        if let PoolPhase::Migrated = self.phase {
            return Err(PoolError::BadPhase);
        }
        let cap = table.cap;
        let y_sold = y_sold_from_pool(self.reserve_token, table.decimals);
        if y_sold < cap {
            return Err(PoolError::CapNotReached);
        }
        let entered_migrating = is_active(self.phase);
        if entered_migrating {
            self.phase = PoolPhase::Migrating;
            self.cap_reached_at = Some(slot);
            self.reserve_snapshot_token = bal.pool_tokens;
            self.reserve_snapshot_currency = bal.vault_currency;
        } else {
            self.backfill_snapshots(bal);
        }
        if bal.pool_tokens > 0 {
            self.reserve_token = self.reserve_token.saturating_sub(bal.pool_tokens);
        }
        if bal.vault_currency > 0 {
            self.reserve_currency = 0;
        }
        Ok(
            Drain {
                pool_tokens: bal.pool_tokens,
                treasury_tokens: bal.treasury_tokens,
                vault_currency: bal.vault_currency,
                entered_migrating,
            },
        )
    }

    /// Finalizes migration: records the external market and, if given, the
    /// lock record, and makes the pool `Migrated`. Only the migration
    /// authority may call it, and only while the pool is `Migrating`.
    pub fn finalize_migration(&mut self, caller: Key, market: Key, lock: Option<Key>) -> (r: Result<
        (),
        PoolError,
    >)
        ensures
            old(self).finalize_error(caller) matches Some(e) ==> r == Err::<(), PoolError>(e)
                && *final(self) == *old(self),
            old(self).finalize_error(caller) is None ==> r == Ok::<(), PoolError>(())
                && *final(self) == old(self).after_finalize(market, lock),
            caller == old(self).migration_authority && old(self).phase == PoolPhase::Active ==> r
                == Err::<(), PoolError>(PoolError::BadPhase) && *final(self) == *old(self),
            old(self).phase.rank() <= final(self).phase.rank(),
    {
        if caller != self.migration_authority {
            return Err(PoolError::UnauthorizedActor);
        }
        if !matches!(self.phase, PoolPhase::Migrating) {
            return Err(PoolError::BadPhase);
        }
        self.external_market = Some(market);
        if lock.is_some() {
            self.lock_record = lock;
        }
        self.phase = PoolPhase::Migrated;
        Ok(())
    }
}


/// Phase never moves backwards. Given the phases a pool showed at successive
/// operations, each at or after the one before (as every operation's
/// contract states), any later observation is at or after any earlier one.
pub proof fn lemma_phase_never_regresses(phases: Seq<PoolPhase>, i: int, j: int)
    requires
        forall|k: int| 0 <= k < phases.len() - 1 ==> #[trigger] phases[k].rank() <= phases[k + 1].rank(),
        0 <= i <= j < phases.len(),
    ensures
        phases[i].rank() <= phases[j].rank(),
    decreases j - i,
{
    if i < j {
        lemma_phase_never_regresses(phases, i, j - 1);
        assert(phases[j - 1].rank() <= phases[j].rank());
    }
}

} // verus!
