//! The pool engine: custody of one pair's reserves, per-depositor escrow,
//! liquidity shares and constant-product swaps.
//!
//! Each operation is stated as a transition of `PoolView`, the pool's model:
//! on any error the model is unchanged, so every operation is all or nothing.
//! The engine does no transfers itself: what an operation returns is what the
//! caller's ledger must move (the amount withdrawn, the shares minted, the
//! amounts paid out), and what an operation is given (a deposit, a swap's input,
//! the shares burned) is what arrived with the call.
use std::collections::HashMap;
use vstd::prelude::*;
use crate::math::{burn, burn_amounts, mint, mint_amounts, swap_amount, swap_output};
use crate::types::{AccountId, AssetId, AssetPairKey, ExchangeError};

verus! {

broadcast use vstd::std_specs::hash::group_hash_axioms;

/// Whether an amount fits in 64 bits.
pub open spec fn fits(x: nat) -> bool {
    x <= u64::MAX
}

/// The model of a pool.
pub ghost struct PoolView {
    pub pair: AssetPairKey,
    pub reserve_a: nat,
    pub reserve_b: nat,
    pub liquidity_supply: nat,
    /// Whether a deposit was ever recorded.
    pub initialized: bool,
    /// Whether liquidity was ever added: an active pool stays active, even
    /// once all its liquidity is removed.
    pub active: bool,
    pub deposits_a: Map<AccountId, u64>,
    pub deposits_b: Map<AccountId, u64>,
}

impl PoolView {
    /// The pair is canonical; shares are outstanding exactly when both
    /// reserves are non-zero, and none are outstanding exactly when both are
    /// zero.
    pub open spec fn wf(self) -> bool {
        &&& self.pair.wf()
        &&& self.liquidity_supply == 0 ==> self.reserve_a == 0 && self.reserve_b == 0
        &&& self.liquidity_supply > 0 ==> self.reserve_a > 0 && self.reserve_b > 0 && self.active
        &&& fits(self.reserve_a) && fits(self.reserve_b) && fits(self.liquidity_supply)
    }

    /// The amount of `asset` held in escrow for `account` (zero when none,
    /// and for an asset outside the pair).
    pub open spec fn escrow(self, account: AccountId, asset: AssetId) -> nat {
        let m = if asset == self.pair.a {
            self.deposits_a
        } else {
            self.deposits_b
        };
        if !self.pair.contains(asset) || !m.contains_key(account) {
            0
        } else {
            m[account] as nat
        }
    }

    /// This pool with the escrow of `account` in `asset` (one of the pair)
    /// set to `value`.
    pub open spec fn set_escrow(self, account: AccountId, asset: AssetId, value: nat) -> PoolView {
        if asset == self.pair.a {
            PoolView { deposits_a: self.deposits_a.insert(account, value as u64), ..self }
        } else {
            PoolView { deposits_b: self.deposits_b.insert(account, value as u64), ..self }
        }
    }

    /// A pool for `pair` that nothing has touched yet.
    pub open spec fn fresh(pair: AssetPairKey) -> PoolView {
        PoolView {
            pair,
            reserve_a: 0,
            reserve_b: 0,
            liquidity_supply: 0,
            initialized: false,
            active: false,
            deposits_a: Map::empty(),
            deposits_b: Map::empty(),
        }
    }

    /// The product of the reserves.
    pub open spec fn product(self) -> nat {
        self.reserve_a * self.reserve_b
    }

    /// `deposit(caller, asset, amount)`: credits the caller's escrow.
    pub open spec fn deposit_step(self, caller: AccountId, asset: AssetId, amount: nat) -> (PoolView, Result<(), ExchangeError>) {
        if amount == 0 || !self.pair.contains(asset) {
            (self, Err(ExchangeError::InvalidAsset))
        } else if !fits(self.escrow(caller, asset) + amount) {
            (self, Err(ExchangeError::AmountOverflow))
        } else {
            (
                PoolView { initialized: true, ..self.set_escrow(caller, asset, self.escrow(caller, asset) + amount) },
                Ok(()),
            )
        }
    }

    /// `withdraw(caller, amount, asset)`: debits the caller's escrow by
    /// exactly `amount`, which is paid out to the caller.
    pub open spec fn withdraw_step(self, caller: AccountId, amount: u64, asset: AssetId) -> (PoolView, Result<u64, ExchangeError>) {
        if !self.initialized {
            (self, Err(ExchangeError::NotInitialized))
        } else if !self.pair.contains(asset) {
            (self, Err(ExchangeError::InvalidAsset))
        } else if amount > self.escrow(caller, asset) {
            (self, Err(ExchangeError::DesiredAmountTooHigh(amount)))
        } else {
            (self.set_escrow(caller, asset, (self.escrow(caller, asset) - amount) as nat), Ok(amount))
        }
    }

    /// `add_liquidity`: moves the amounts that `mint` takes from the caller's
    /// escrow into the reserves and mints the shares to the caller; what
    /// `mint` does not take stays in escrow. On a pool with liquidity, an
    /// offer worth no whole share mints none, takes nothing and succeeds
    /// (unless the caller asked for more); an empty pool is never
    /// bootstrapped with no shares.
    pub open spec fn add_liquidity_step(
        self,
        caller: AccountId,
        amount_a: u64,
        amount_b: u64,
        min_liquidity: u64,
        deadline: u64,
        now: u64,
    ) -> (PoolView, Result<u64, ExchangeError>) {
        let (s, ua, ub) = mint(self.reserve_a, self.reserve_b, self.liquidity_supply, amount_a as nat, amount_b as nat);
        if now > deadline {
            (self, Err(ExchangeError::DeadlineExpired))
        } else if amount_a > self.escrow(caller, self.pair.a) {
            (self, Err(ExchangeError::DesiredAmountTooHigh(amount_a)))
        } else if amount_b > self.escrow(caller, self.pair.b) {
            (self, Err(ExchangeError::DesiredAmountTooHigh(amount_b)))
        } else if s < min_liquidity || (self.liquidity_supply == 0 && s == 0) {
            (self, Err(ExchangeError::InsufficientLiquidityMinted))
        } else if s == 0 {
            (self, Ok(0))
        } else if !fits(self.liquidity_supply + s) || !fits(self.reserve_a + ua) || !fits(self.reserve_b + ub) {
            (self, Err(ExchangeError::AmountOverflow))
        } else {
            let moved = self.set_escrow(caller, self.pair.a, (self.escrow(caller, self.pair.a) - ua) as nat);
            let moved = moved.set_escrow(caller, self.pair.b, (self.escrow(caller, self.pair.b) - ub) as nat);
            (
                PoolView {
                    reserve_a: self.reserve_a + ua,
                    reserve_b: self.reserve_b + ub,
                    liquidity_supply: self.liquidity_supply + s,
                    active: true,
                    ..moved
                },
                Ok(s as u64),
            )
        }
    }

    /// `remove_liquidity`: burns `liquidity` shares and pays out the amounts
    /// that `burn` gives.
    pub open spec fn remove_liquidity_step(
        self,
        liquidity: u64,
        min_a: u64,
        min_b: u64,
        deadline: u64,
        now: u64,
    ) -> (PoolView, Result<(u64, u64), ExchangeError>) {
        let (oa, ob) = burn(self.reserve_a, self.reserve_b, self.liquidity_supply, liquidity as nat);
        if now > deadline {
            (self, Err(ExchangeError::DeadlineExpired))
        } else if !self.active {
            (self, Err(ExchangeError::NotInitialized))
        } else if liquidity > self.liquidity_supply {
            (self, Err(ExchangeError::DesiredAmountTooHigh(liquidity)))
        } else if oa < min_a || ob < min_b {
            (self, Err(ExchangeError::InsufficientOutputAmount))
        } else {
            (
                PoolView {
                    reserve_a: (self.reserve_a - oa) as nat,
                    reserve_b: (self.reserve_b - ob) as nat,
                    liquidity_supply: (self.liquidity_supply - liquidity) as nat,
                    ..self
                },
                Ok((oa as u64, ob as u64)),
            )
        }
    }

    /// `swap`: takes the whole input into its reserve and pays out
    /// `swap_output` from the other.
    pub open spec fn swap_step(
        self,
        input_asset: AssetId,
        input: u64,
        min_output: u64,
        deadline: u64,
        now: u64,
    ) -> (PoolView, Result<u64, ExchangeError>) {
        let a_in = input_asset == self.pair.a;
        let rin = if a_in { self.reserve_a } else { self.reserve_b };
        let rout = if a_in { self.reserve_b } else { self.reserve_a };
        let out = swap_output(rin, rout, input as nat);
        if now > deadline {
            (self, Err(ExchangeError::DeadlineExpired))
        } else if !self.pair.contains(input_asset) {
            (self, Err(ExchangeError::InvalidAsset))
        } else if !self.active {
            (self, Err(ExchangeError::NotInitialized))
        } else if self.liquidity_supply == 0 {
            (self, Err(ExchangeError::InsufficientLiquidity))
        } else if out < min_output {
            (self, Err(ExchangeError::InsufficientOutputAmount))
        } else if !fits(rin + input as nat) {
            (self, Err(ExchangeError::AmountOverflow))
        } else if a_in {
            (
                PoolView { reserve_a: rin + input as nat, reserve_b: (rout - out) as nat, ..self },
                Ok(out as u64),
            )
        } else {
            (
                PoolView { reserve_b: rin + input as nat, reserve_a: (rout - out) as nat, ..self },
                Ok(out as u64),
            )
        }
    }
}

/// A pool: the reserves and share supply of one pair, and the escrow of each
/// depositor in each of the pair's assets.
pub struct Pool {
    pub pair: AssetPairKey,
    pub reserve_a: u64,
    pub reserve_b: u64,
    pub liquidity_supply: u64,
    pub initialized: bool,
    pub active: bool,
    pub deposits_a: HashMap<AccountId, u64>,
    pub deposits_b: HashMap<AccountId, u64>,
}

impl View for Pool {
    type V = PoolView;

    open spec fn view(&self) -> PoolView {
        PoolView {
            pair: self.pair,
            reserve_a: self.reserve_a as nat,
            reserve_b: self.reserve_b as nat,
            liquidity_supply: self.liquidity_supply as nat,
            initialized: self.initialized,
            active: self.active,
            deposits_a: self.deposits_a@,
            deposits_b: self.deposits_b@,
        }
    }
}

impl Pool {
    /// An untouched pool for `pair`: no reserves, no shares, no escrow.
    pub fn new(pair: AssetPairKey) -> (r: Pool)
        requires
            pair.wf(),
        ensures
            r@ == PoolView::fresh(pair),
            r@.wf(),
    {
        Pool {
            pair,
            reserve_a: 0,
            reserve_b: 0,
            liquidity_supply: 0,
            initialized: false,
            active: false,
            deposits_a: HashMap::new(),
            deposits_b: HashMap::new(),
        }
    }

    /// The reserves of the pair's first and second asset.
    pub fn reserves(&self) -> (r: (u64, u64))
        ensures
            r.0 as nat == self@.reserve_a,
            r.1 as nat == self@.reserve_b,
    {
        (self.reserve_a, self.reserve_b)
    }

    /// The number of liquidity shares outstanding.
    pub fn liquidity_supply(&self) -> (r: u64)
        ensures
            r as nat == self@.liquidity_supply,
    {
        self.liquidity_supply
    }

    /// The escrow of `account` in `asset`; zero for an asset outside the pair.
    pub fn deposit_of(&self, account: AccountId, asset: AssetId) -> (r: u64)
        ensures
            r as nat == self@.escrow(account, asset),
    {
        if asset == self.pair.a {
            match self.deposits_a.get(&account) {
                Some(v) => *v,
                None => 0,
            }
        } else if asset == self.pair.b {
            match self.deposits_b.get(&account) {
                Some(v) => *v,
                None => 0,
            }
        } else {
            0
        }
    }

    fn set_deposit(&mut self, account: AccountId, asset: AssetId, value: u64)
        requires
            old(self)@.pair.contains(asset),
        ensures
            final(self)@ == old(self)@.set_escrow(account, asset, value as nat),
    {
        if asset == self.pair.a {
            self.deposits_a.insert(account, value);
        } else {
            self.deposits_b.insert(account, value);
        }
    }

    /// Records that `amount` of `asset` arrived from `caller`.
    pub fn deposit(&mut self, caller: AccountId, asset: AssetId, amount: u64) -> (r: Result<(), ExchangeError>)
        requires
            old(self)@.wf(),
        ensures
            (final(self)@, r) == old(self)@.deposit_step(caller, asset, amount as nat),
            final(self)@.wf(),
    {
        if amount == 0 || !self.pair.has_asset(asset) {
            return Err(ExchangeError::InvalidAsset);
        }
        let current = self.deposit_of(caller, asset);
        if current > u64::MAX - amount {
            return Err(ExchangeError::AmountOverflow);
        }
        self.set_deposit(caller, asset, current + amount);
        self.initialized = true;
        Ok(())
    }

    /// Pays `amount` of `asset` back out of the caller's escrow; on success
    /// the amount to transfer to the caller is returned.
    pub fn withdraw(&mut self, caller: AccountId, amount: u64, asset: AssetId) -> (r: Result<u64, ExchangeError>)
        requires
            old(self)@.wf(),
        ensures
            (final(self)@, r) == old(self)@.withdraw_step(caller, amount, asset),
            final(self)@.wf(),
    {
        if !self.initialized {
            return Err(ExchangeError::NotInitialized);
        }
        if !self.pair.has_asset(asset) {
            return Err(ExchangeError::InvalidAsset);
        }
        let current = self.deposit_of(caller, asset);
        if amount > current {
            return Err(ExchangeError::DesiredAmountTooHigh(amount));
        }
        self.set_deposit(caller, asset, current - amount);
        Ok(amount)
    }

    /// Moves `amount_a` and `amount_b` (at most) from the caller's escrow into
    /// the reserves and returns the shares minted to the caller. An empty pool
    /// takes both amounts whole and mints their floored geometric mean; a pool
    /// with liquidity takes each asset at the current price, and leaves the
    /// excess of the non-limiting asset in the caller's escrow. There an
    /// offer worth no whole share returns `Ok(0)` and changes nothing, while
    /// an empty pool refuses to mint no shares.
    pub fn add_liquidity(
        &mut self,
        caller: AccountId,
        amount_a: u64,
        amount_b: u64,
        min_liquidity: u64,
        deadline: u64,
        now: u64,
    ) -> (r: Result<u64, ExchangeError>)
        requires
            old(self)@.wf(),
        ensures
            (final(self)@, r) == old(self)@.add_liquidity_step(caller, amount_a, amount_b, min_liquidity, deadline, now),
            final(self)@.wf(),
    {
        if now > deadline {
            return Err(ExchangeError::DeadlineExpired);
        }
        let pa = self.pair.a;
        let pb = self.pair.b;
        let escrow_a = self.deposit_of(caller, pa);
        if amount_a > escrow_a {
            return Err(ExchangeError::DesiredAmountTooHigh(amount_a));
        }
        let escrow_b = self.deposit_of(caller, pb);
        if amount_b > escrow_b {
            return Err(ExchangeError::DesiredAmountTooHigh(amount_b));
        }
        let (s, ua, ub) = mint_amounts(self.reserve_a, self.reserve_b, self.liquidity_supply, amount_a, amount_b);
        if s < min_liquidity as u128 || (self.liquidity_supply == 0 && s == 0) {
            return Err(ExchangeError::InsufficientLiquidityMinted);
        }
        if s == 0 {
            return Ok(0);
        }
        if s > (u64::MAX - self.liquidity_supply) as u128 || ua > u64::MAX - self.reserve_a || ub > u64::MAX - self.reserve_b {
            return Err(ExchangeError::AmountOverflow);
        }
        proof {
            let ghost v = self@;
            if v.liquidity_supply == 0 {
                crate::math::lemma_sqrt_floor(amount_a as nat * amount_b as nat);
                assert(ua > 0 && ub > 0) by (nonlinear_arith)
                    requires s * s <= ua * ub, s > 0, ua >= 0, ub >= 0;
            }
        }
        self.set_deposit(caller, pa, escrow_a - ua);
        self.set_deposit(caller, pb, escrow_b - ub);
        self.reserve_a = self.reserve_a + ua;
        self.reserve_b = self.reserve_b + ub;
        self.liquidity_supply = self.liquidity_supply + s as u64;
        self.active = true;
        Ok(s as u64)
    }

    /// Burns `liquidity` shares, which arrived with the call, and returns the
    /// amounts of each asset paid out for them: the proportional part of each
    /// reserve, rounded down.
    pub fn remove_liquidity(&mut self, liquidity: u64, min_a: u64, min_b: u64, deadline: u64, now: u64) -> (r: Result<(u64, u64), ExchangeError>)
        requires
            old(self)@.wf(),
        ensures
            (final(self)@, r) == old(self)@.remove_liquidity_step(liquidity, min_a, min_b, deadline, now),
            final(self)@.wf(),
    {
        if now > deadline {
            return Err(ExchangeError::DeadlineExpired);
        }
        if !self.active {
            return Err(ExchangeError::NotInitialized);
        }
        if liquidity > self.liquidity_supply {
            return Err(ExchangeError::DesiredAmountTooHigh(liquidity));
        }
        if self.liquidity_supply == 0 {
            // nothing outstanding, so nothing is burned
            if 0 < min_a || 0 < min_b {
                return Err(ExchangeError::InsufficientOutputAmount);
            }
            return Ok((0, 0));
        }
        let (oa, ob) = burn_amounts(self.reserve_a, self.reserve_b, self.liquidity_supply, liquidity);
        if oa < min_a || ob < min_b {
            return Err(ExchangeError::InsufficientOutputAmount);
        }
        proof {
            let ra = self.reserve_a as int;
            let rb = self.reserve_b as int;
            let l = liquidity as int;
            let sup = self.liquidity_supply as int;
            if l < sup {
                assert(oa < ra) by (nonlinear_arith)
                    requires oa == (ra * l) / sup, l < sup, ra > 0, l >= 0;
                assert(ob < rb) by (nonlinear_arith)
                    requires ob == (rb * l) / sup, l < sup, rb > 0, l >= 0;
            } else {
                assert(oa == ra) by (nonlinear_arith)
                    requires oa == (ra * l) / sup, l == sup, sup > 0;
                assert(ob == rb) by (nonlinear_arith)
                    requires ob == (rb * l) / sup, l == sup, sup > 0;
            }
        }
        self.reserve_a = self.reserve_a - oa;
        self.reserve_b = self.reserve_b - ob;
        self.liquidity_supply = self.liquidity_supply - liquidity;
        Ok((oa, ob))
    }

    /// Exchanges `input` of `input_asset`, which arrived with the call, for
    /// the other asset of the pair; returns the amount paid out. The whole
    /// input, fee included, joins its reserve.
    pub fn swap(&mut self, input_asset: AssetId, input: u64, min_output: u64, deadline: u64, now: u64) -> (r: Result<u64, ExchangeError>)
        requires
            old(self)@.wf(),
        ensures
            (final(self)@, r) == old(self)@.swap_step(input_asset, input, min_output, deadline, now),
            final(self)@.wf(),
    {
        if now > deadline {
            return Err(ExchangeError::DeadlineExpired);
        }
        if !self.pair.has_asset(input_asset) {
            return Err(ExchangeError::InvalidAsset);
        }
        if !self.active {
            return Err(ExchangeError::NotInitialized);
        }
        if self.liquidity_supply == 0 {
            return Err(ExchangeError::InsufficientLiquidity);
        }
        let a_in = input_asset == self.pair.a;
        let rin = if a_in { self.reserve_a } else { self.reserve_b };
        let rout = if a_in { self.reserve_b } else { self.reserve_a };
        let out = swap_amount(rin, rout, input);
        if out < min_output {
            return Err(ExchangeError::InsufficientOutputAmount);
        }
        if input > u64::MAX - rin {
            return Err(ExchangeError::AmountOverflow);
        }
        if a_in {
            self.reserve_a = rin + input;
            self.reserve_b = rout - out;
        } else {
            self.reserve_b = rin + input;
            self.reserve_a = rout - out;
        }
        Ok(out)
    }
}

/// A deposit followed by a withdrawal of at most the resulting escrow
/// succeeds, pays out exactly the amount asked, and leaves the depositor's
/// escrow at its earlier amount plus the deposit less the withdrawal, with
/// every other escrow, the reserves and the share supply untouched.
pub proof fn lemma_deposit_then_withdraw(v: PoolView, caller: AccountId, asset: AssetId, deposit: u64, amount: u64)
    requires
        v.wf(),
        v.deposit_step(caller, asset, deposit as nat).1 is Ok,
        amount <= v.escrow(caller, asset) + deposit,
    ensures
        ({
            let v1 = v.deposit_step(caller, asset, deposit as nat).0;
            let (v2, r) = v1.withdraw_step(caller, amount, asset);
            &&& r == Ok::<u64, ExchangeError>(amount)
            &&& v2.escrow(caller, asset) == v.escrow(caller, asset) + deposit - amount
            &&& forall|acc: AccountId, x: AssetId|
                !(acc == caller && x == asset) ==> #[trigger] v2.escrow(acc, x) == v.escrow(acc, x)
            &&& v2.reserve_a == v.reserve_a && v2.reserve_b == v.reserve_b
            &&& v2.liquidity_supply == v.liquidity_supply
        }),
{
}

/// A withdrawal of more than the caller's escrow, from a pool that has seen a
/// deposit and in one of its assets, fails with `DesiredAmountTooHigh`
/// carrying the requested amount, and changes nothing.
pub proof fn lemma_withdraw_too_much(v: PoolView, caller: AccountId, amount: u64, asset: AssetId)
    requires
        v.initialized,
        v.pair.contains(asset),
        amount > v.escrow(caller, asset),
    ensures
        v.withdraw_step(caller, amount, asset) == (v, Err::<u64, ExchangeError>(ExchangeError::DesiredAmountTooHigh(amount))),
{
}

/// A withdrawal from a pool that never saw a deposit fails with
/// `NotInitialized`, whatever it asks for.
pub proof fn lemma_withdraw_uninitialized(v: PoolView, caller: AccountId, amount: u64, asset: AssetId)
    requires
        !v.initialized,
    ensures
        v.withdraw_step(caller, amount, asset) == (v, Err::<u64, ExchangeError>(ExchangeError::NotInitialized)),
{
}

/// A deposit of an asset outside the pair fails with `InvalidAsset`; so does
/// a withdrawal of one, from a pool that has seen a deposit.
pub proof fn lemma_foreign_asset(v: PoolView, caller: AccountId, asset: AssetId, amount: u64)
    requires
        !v.pair.contains(asset),
    ensures
        v.deposit_step(caller, asset, amount as nat) == (v, Err::<(), ExchangeError>(ExchangeError::InvalidAsset)),
        v.initialized ==> v.withdraw_step(caller, amount, asset) == (v, Err::<u64, ExchangeError>(ExchangeError::InvalidAsset)),
{
}

/// A swap never lowers the product of the reserves.
pub proof fn lemma_swap_keeps_product(v: PoolView, input_asset: AssetId, input: u64, min_output: u64, deadline: u64, now: u64)
    requires
        v.wf(),
    ensures
        v.swap_step(input_asset, input, min_output, deadline, now).0.product() >= v.product(),
{
    let (v2, r) = v.swap_step(input_asset, input, min_output, deadline, now);
    if r is Ok {
        let a_in = input_asset == v.pair.a;
        let rin = if a_in { v.reserve_a } else { v.reserve_b };
        let rout = if a_in { v.reserve_b } else { v.reserve_a };
        let out = swap_output(rin, rout, input as nat);
        let i = input as nat;
        let f = i * 997;
        assert(out * (rin * 1000 + f) <= rout * f) by (nonlinear_arith)
            requires out == rout * f / (rin * 1000 + f), rin > 0;
        assert(out <= rout) by (nonlinear_arith)
            requires out * (rin * 1000 + f) <= rout * f, rin > 0;
        assert(out * (rin + i) <= rout * i) by (nonlinear_arith)
            requires out * (rin * 1000 + i * 997) <= rout * (i * 997), out <= rout, f == i * 997;
        assert((rin + i) * (rout - out) >= rin * rout) by (nonlinear_arith)
            requires out * (rin + i) <= rout * i, out <= rout;
        if a_in {
            assert(v2.product() == (rin + i) * (rout - out));
        } else {
            assert(v2.product() == (rout - out) * (rin + i)) by (nonlinear_arith)
                requires v2.product() == v2.reserve_a * v2.reserve_b, v2.reserve_a == rout - out, v2.reserve_b == rin + i;
            assert(v.product() == rin * rout) by (nonlinear_arith)
                requires v.product() == v.reserve_a * v.reserve_b, v.reserve_a == rout, v.reserve_b == rin;
            assert((rout - out) * (rin + i) == (rin + i) * (rout - out)) by (nonlinear_arith);
        }
    }
}

/// Burning the shares that one `add_liquidity` just minted pays out no more
/// of either asset than that call took into the reserves.
pub proof fn lemma_add_remove_round_trip(
    v: PoolView,
    caller: AccountId,
    amount_a: u64,
    amount_b: u64,
    min_liquidity: u64,
    deadline: u64,
    now: u64,
    deadline2: u64,
    now2: u64,
)
    requires
        v.wf(),
        v.add_liquidity_step(caller, amount_a, amount_b, min_liquidity, deadline, now).1 is Ok,
        now2 <= deadline2,
    ensures
        ({
            let (v1, r) = v.add_liquidity_step(caller, amount_a, amount_b, min_liquidity, deadline, now);
            let s = r->Ok_0;
            let (v2, out) = v1.remove_liquidity_step(s, 0, 0, deadline2, now2);
            &&& out is Ok
            &&& out->Ok_0.0 <= v1.reserve_a - v.reserve_a
            &&& out->Ok_0.1 <= v1.reserve_b - v.reserve_b
        }),
{
    let (v1, r) = v.add_liquidity_step(caller, amount_a, amount_b, min_liquidity, deadline, now);
    let (s, ua, ub) = crate::math::mint(v.reserve_a, v.reserve_b, v.liquidity_supply, amount_a as nat, amount_b as nat);
    let ra = v.reserve_a;
    let rb = v.reserve_b;
    let l = v.liquidity_supply;
    if l == 0 {
        assert((ra + ua) * s / (l + s) == ua) by (nonlinear_arith)
            requires ra == 0, l == 0, s > 0;
        assert((rb + ub) * s / (l + s) == ub) by (nonlinear_arith)
            requires rb == 0, l == 0, s > 0;
    } else if s == 0 {
        assert(ra * 0 / l == 0 && rb * 0 / l == 0) by (nonlinear_arith)
            requires l > 0;
    } else {
        assert(ua * l >= s * ra) by (nonlinear_arith)
            requires ua == ((s * ra + l - 1) as nat) / l, l > 0;
        assert(ub * l >= s * rb) by (nonlinear_arith)
            requires ub == ((s * rb + l - 1) as nat) / l, l > 0;
        assert((ra + ua) * s / (l + s) <= ua) by (nonlinear_arith)
            requires ua * l >= s * ra, s > 0;
        assert((rb + ub) * s / (l + s) <= ub) by (nonlinear_arith)
            requires ub * l >= s * rb, s > 0;
    }
}

/// Past its deadline a swap, an `add_liquidity` or a `remove_liquidity`
/// fails with `DeadlineExpired` and changes nothing, whatever else it asks.
pub proof fn lemma_deadline_expired(
    v: PoolView,
    caller: AccountId,
    asset: AssetId,
    x: u64,
    y: u64,
    z: u64,
    deadline: u64,
    now: u64,
)
    requires
        now > deadline,
    ensures
        v.swap_step(asset, x, y, deadline, now) == (v, Err::<u64, ExchangeError>(ExchangeError::DeadlineExpired)),
        v.add_liquidity_step(caller, x, y, z, deadline, now) == (v, Err::<u64, ExchangeError>(ExchangeError::DeadlineExpired)),
        v.remove_liquidity_step(x, y, z, deadline, now) == (v, Err::<(u64, u64), ExchangeError>(ExchangeError::DeadlineExpired)),
{
}

} // verus!
