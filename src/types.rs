//! Identifiers, the canonical pair key, the error taxonomy and the plain
//! parameter records used by callers.
use vstd::prelude::*;

verus! {

/// Identifier of a fungible asset.
pub type AssetId = u64;

/// Identifier of an account that deposits into or trades with a pool.
pub type AccountId = u64;

/// An unordered pair of two distinct assets, stored with the smaller
/// identifier first so that `(x, y)` and `(y, x)` give the same key.
#[derive(Clone, Copy, Debug, PartialEq, Eq, Structural)]
pub struct AssetPairKey {
    pub a: AssetId,
    pub b: AssetId,
}

impl AssetPairKey {
    /// The two identifiers are distinct and in canonical order.
    pub open spec fn wf(self) -> bool {
        self.a < self.b
    }

    pub open spec fn contains(self, asset: AssetId) -> bool {
        asset == self.a || asset == self.b
    }

    /// The canonical key of two assets, whichever order they come in.
    pub open spec fn canonical(x: AssetId, y: AssetId) -> AssetPairKey {
        if x < y {
            AssetPairKey { a: x, b: y }
        } else {
            AssetPairKey { a: y, b: x }
        }
    }

    /// Builds the canonical key of `x` and `y`; `None` when they are equal.
    pub fn new(x: AssetId, y: AssetId) -> (r: Option<AssetPairKey>)
        ensures
            r == (if x == y {
                None
            } else {
                Some(AssetPairKey::canonical(x, y))
            }),
            r matches Some(k) ==> k.wf(),
    {
        if x == y {
            None
        } else if x < y {
            Some(AssetPairKey { a: x, b: y })
        } else {
            Some(AssetPairKey { a: y, b: x })
        }
    }

    pub fn has_asset(&self, asset: AssetId) -> (r: bool)
        ensures
            r == self.contains(asset),
    {
        asset == self.a || asset == self.b
    }
}

/// Every way an operation of a pool or of the registry can be rejected.
/// A rejected operation changes no state.
#[derive(Clone, Copy, Debug, PartialEq, Eq, Structural)]
pub enum ExchangeError {
    /// The asset is not one of the pool's pair (or a deposit of nothing).
    InvalidAsset,
    /// The pool has never received a deposit (for a withdrawal), or never
    /// held liquidity (for a swap or a removal).
    NotInitialized,
    /// More was asked for than is available; carries the requested amount.
    DesiredAmountTooHigh(u64),
    /// The operation ran after its deadline.
    DeadlineExpired,
    /// Fewer shares would be minted than the caller accepts, or an empty pool
    /// would be bootstrapped with no shares at all.
    InsufficientLiquidityMinted,
    /// Less would be paid out than the caller accepts.
    InsufficientOutputAmount,
    /// A swap into a pool whose liquidity was all removed: there are no
    /// reserves to trade against until it is bootstrapped again.
    InsufficientLiquidity,
    /// No pool is registered for the pair.
    PairNotRegistered,
    /// The code at a pool's address is not the code that was registered.
    CodeMismatch,
    /// A balance or supply would no longer fit in 64 bits.
    AmountOverflow,
}

/// How a pool instance is deployed: whether its code root is computed, whether
/// a counterfeit variant is deployed in place of the genuine template, and the
/// salt that takes part in its address.
#[derive(Clone, Copy, Debug)]
pub struct ExchangeContractConfiguration {
    pub compute_bytecode_root: bool,
    pub malicious: bool,
    pub salt: [u8; 32],
}

impl ExchangeContractConfiguration {
    /// Each setting that is not given takes its default: `false`, `false`,
    /// and an all-zero salt.
    pub fn new(compute_bytecode_root: Option<bool>, malicious: Option<bool>, salt: Option<[u8; 32]>) -> (r: Self)
        ensures
            r.compute_bytecode_root == (compute_bytecode_root == Some(true)),
            r.malicious == (malicious == Some(true)),
            salt matches Some(s) ==> r.salt == s,
            salt is None ==> r.salt@ == Seq::new(32, |i: int| 0u8),
    {
        let c = match compute_bytecode_root {
            Some(v) => v,
            None => false,
        };
        let m = match malicious {
            Some(v) => v,
            None => false,
        };
        let s = match salt {
            Some(v) => v,
            None => {
                let z = [0u8; 32];
                assert(z@ =~= Seq::new(32, |i: int| 0u8));
                z
            },
        };
        ExchangeContractConfiguration { compute_bytecode_root: c, malicious: m, salt: s }
    }

    /// Genuine code, no root computation, all-zero salt.
    pub fn default() -> (r: Self)
        ensures
            !r.compute_bytecode_root,
            !r.malicious,
            r.salt@ == Seq::new(32, |i: int| 0u8),
    {
        Self::new(None, None, None)
    }
}

/// The amounts, deadline and share count of one liquidity provision.
#[derive(Clone, Copy, Debug)]
pub struct LiquidityParameters {
    pub amounts: (u64, u64),
    pub deadline: u64,
    pub liquidity: u64,
}

impl LiquidityParameters {
    /// Each setting that is not given takes its default: amounts `(100, 400)`,
    /// deadline `1000`, liquidity `200`.
    pub fn new(amounts: Option<(u64, u64)>, deadline: Option<u64>, liquidity: Option<u64>) -> (r: Self)
        ensures
            r.amounts == (match amounts {
                Some(v) => v,
                None => (100u64, 400u64),
            }),
            r.deadline == (match deadline {
                Some(v) => v,
                None => 1000u64,
            }),
            r.liquidity == (match liquidity {
                Some(v) => v,
                None => 200u64,
            }),
    {
        let am = match amounts {
            Some(v) => v,
            None => (100u64, 400u64),
        };
        let d = match deadline {
            Some(v) => v,
            None => 1000u64,
        };
        let l = match liquidity {
            Some(v) => v,
            None => 200u64,
        };
        LiquidityParameters { amounts: am, deadline: d, liquidity: l }
    }

    pub fn default() -> (r: Self)
        ensures
            r.amounts == (100u64, 400u64),
            r.deadline == 1000,
            r.liquidity == 200,
    {
        Self::new(None, None, None)
    }
}

/// How many assets a test wallet holds, in how many coins, of what size.
#[derive(Clone, Copy, Debug, PartialEq, Eq, Structural)]
pub struct WalletAssetParameters {
    pub num_assets: u64,
    pub coins_per_asset: u64,
    pub amount_per_coin: u64,
}

} // verus!
