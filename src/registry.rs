//! Deterministic pool deployment and the pair registry.
//!
//! `CodeStore` stands for the ledger's code-identity table: what code (by its
//! content hash) is deployed at each address. An address is derived from a
//! `DeployKey` (template, canonical pair, salt) and nothing else, so the same
//! key always gives the same address. The `Registry` records, per pair, the
//! address of its pool and the code hash seen at registration, and checks that
//! hash against the store again on every lookup. It also holds the pools
//! themselves, one per entry, each created with its entry.
use vstd::prelude::*;
use crate::pool::{Pool, PoolView};
use crate::types::{AssetId, AssetPairKey, ExchangeContractConfiguration, ExchangeError};

verus! {

/// Address of a deployed contract: its position in the code store.
pub type PoolAddress = usize;

/// What determines a deployment's address.
#[derive(Clone, Copy, Debug)]
pub struct DeployKey {
    pub template_hash: u64,
    pub pair: AssetPairKey,
    pub salt: [u8; 32],
}

/// Two keys give the same address exactly when this holds.
pub open spec fn same_key(k1: DeployKey, k2: DeployKey) -> bool {
    k1.template_hash == k2.template_hash && k1.pair == k2.pair && k1.salt@ == k2.salt@
}

/// One deployed contract: its key and the hash of the code now at it.
#[derive(Clone, Copy, Debug)]
pub struct Deployment {
    pub key: DeployKey,
    pub code_hash: u64,
}

/// Position of the first deployment at or after `i` with key `key`; -1 when
/// there is none.
pub open spec fn deployment_index(s: Seq<Deployment>, key: DeployKey, i: int) -> int
    decreases s.len() - i,
{
    if i < 0 || i >= s.len() {
        -1
    } else if same_key(s[i].key, key) {
        i
    } else {
        deployment_index(s, key, i + 1)
    }
}

/// Hash of the code at `address`, if anything is deployed there.
pub open spec fn code_at(s: Seq<Deployment>, address: int) -> Option<u64> {
    if 0 <= address < s.len() {
        Some(s[address].code_hash)
    } else {
        None
    }
}

/// Deploying `code_hash` under `key`: where the key's address is already
/// taken nothing changes; otherwise the code is placed at a fresh address.
/// Either way the key's address is returned.
pub open spec fn deploy_step(s: Seq<Deployment>, key: DeployKey, code_hash: u64) -> (Seq<Deployment>, int) {
    let j = deployment_index(s, key, 0);
    if j >= 0 {
        (s, j)
    } else {
        (s.push(Deployment { key, code_hash }), s.len() as int)
    }
}

/// Hash of the counterfeit variant of the pool code whose hash is `template`.
pub open spec fn counterfeit_of(template: u64) -> u64 {
    if template == u64::MAX {
        0
    } else {
        (template + 1) as u64
    }
}

fn salts_equal(x: &[u8; 32], y: &[u8; 32]) -> (r: bool)
    ensures
        r == (x@ == y@),
{
    let mut i: usize = 0;
    while i < 32
        invariant
            0 <= i <= 32,
            x@.len() == 32,
            y@.len() == 32,
            forall|j: int| 0 <= j < i ==> x@[j] == y@[j],
        decreases 32 - i,
    {
        if x[i] != y[i] {
            return false;
        }
        i = i + 1;
    }
    assert(x@ =~= y@);
    true
}

fn keys_equal(k1: &DeployKey, k2: &DeployKey) -> (r: bool)
    ensures
        r == same_key(*k1, *k2),
{
    k1.template_hash == k2.template_hash && k1.pair == k2.pair && salts_equal(&k1.salt, &k2.salt)
}

/// The ledger's table of deployed code.
pub struct CodeStore {
    pub deployments: Vec<Deployment>,
}

impl View for CodeStore {
    type V = Seq<Deployment>;

    open spec fn view(&self) -> Seq<Deployment> {
        self.deployments@
    }
}

impl CodeStore {
    pub fn new() -> (r: CodeStore)
        ensures
            r@ == Seq::<Deployment>::empty(),
    {
        CodeStore { deployments: Vec::new() }
    }

    /// The address already taken by `key`, if any.
    pub fn address_of(&self, key: &DeployKey) -> (r: Option<PoolAddress>)
        ensures
            match r {
                Some(a) => a as int == deployment_index(self@, *key, 0),
                None => deployment_index(self@, *key, 0) == -1,
            },
    {
        let mut i: usize = 0;
        while i < self.deployments.len()
            invariant
                0 <= i <= self@.len(),
                deployment_index(self@, *key, 0) == deployment_index(self@, *key, i as int),
            decreases self@.len() - i,
        {
            if keys_equal(&self.deployments[i].key, key) {
                return Some(i);
            }
            i = i + 1;
        }
        None
    }

    /// Deploys `code_hash` under `key` and returns the key's address; an
    /// address that is already taken keeps its code.
    pub fn deploy(&mut self, key: DeployKey, code_hash: u64) -> (r: PoolAddress)
        ensures
            (final(self)@, r as int) == deploy_step(old(self)@, key, code_hash),
    {
        match self.address_of(&key) {
            Some(a) => a,
            None => {
                let a = self.deployments.len();
                self.deployments.push(Deployment { key, code_hash });
                a
            },
        }
    }

    /// Deploys a pool for the pair `x`, `y` from the template whose hash is
    /// `template_hash`, salted as `config` says: the genuine code, or its
    /// counterfeit variant where `config.malicious` is set. Returns the
    /// address and, where `config.compute_bytecode_root` is set, the hash of
    /// the code now at it (`None` otherwise). `None` for a pair of equal
    /// assets.
    pub fn deploy_exchange(&mut self, template_hash: u64, x: AssetId, y: AssetId, config: &ExchangeContractConfiguration) -> (r: Option<(PoolAddress, Option<u64>)>)
        ensures
            x == y ==> r is None && final(self)@ == old(self)@,
            x != y ==> ({
                let key = DeployKey { template_hash, pair: AssetPairKey::canonical(x, y), salt: config.salt };
                let code = if config.malicious { counterfeit_of(template_hash) } else { template_hash };
                let (s, a) = deploy_step(old(self)@, key, code);
                &&& final(self)@ == s
                &&& r == Some((a as usize, if config.compute_bytecode_root { code_at(s, a) } else { None }))
            }),
    {
        match AssetPairKey::new(x, y) {
            None => None,
            Some(pair) => {
                let code = if config.malicious {
                    if template_hash == u64::MAX { 0 } else { template_hash + 1 }
                } else {
                    template_hash
                };
                let a = self.deploy(DeployKey { template_hash, pair, salt: config.salt }, code);
                let root = if config.compute_bytecode_root { self.code_hash_at(a) } else { None };
                Some((a, root))
            },
        }
    }

    /// Hash of the code at `address`, if anything is deployed there.
    pub fn code_hash_at(&self, address: PoolAddress) -> (r: Option<u64>)
        ensures
            r == code_at(self@, address as int),
    {
        if address < self.deployments.len() {
            Some(self.deployments[address].code_hash)
        } else {
            None
        }
    }

    /// Puts other code at an existing address (a redeploy over it); `false`,
    /// and no change, where nothing is deployed there.
    pub fn replace_code(&mut self, address: PoolAddress, code_hash: u64) -> (r: bool)
        ensures
            r == (address < old(self)@.len()),
            r ==> final(self)@ == old(self)@.update(address as int, Deployment { key: old(self)@[address as int].key, code_hash }),
            !r ==> final(self)@ == old(self)@,
    {
        if address < self.deployments.len() {
            let key = self.deployments[address].key;
            self.deployments.set(address, Deployment { key, code_hash });
            true
        } else {
            false
        }
    }

    /// Whether the code at `address` has hash `expected`.
    pub fn verify(&self, address: PoolAddress, expected: u64) -> (r: bool)
        ensures
            r == (code_at(self@, address as int) == Some(expected)),
    {
        match self.code_hash_at(address) {
            Some(h) => h == expected,
            None => false,
        }
    }
}

/// One registered pair: the address of its pool and the hash of the code
/// found there at registration.
#[derive(Clone, Copy, Debug, PartialEq, Eq, Structural)]
pub struct RegistryEntry {
    pub pair: AssetPairKey,
    pub address: PoolAddress,
    pub code_hash: u64,
}

/// Position of the first entry at or after `i` for `pair`; -1 when there is
/// none.
pub open spec fn entry_index(s: Seq<RegistryEntry>, pair: AssetPairKey, i: int) -> int
    decreases s.len() - i,
{
    if i < 0 || i >= s.len() {
        -1
    } else if s[i].pair == pair {
        i
    } else {
        entry_index(s, pair, i + 1)
    }
}

/// Every pair in `s` is canonical and no two entries share a pair.
pub open spec fn entries_wf(s: Seq<RegistryEntry>) -> bool {
    &&& forall|i: int| 0 <= i < s.len() ==> (#[trigger] s[i]).pair.wf()
    &&& forall|i: int, j: int| 0 <= i < j < s.len() ==> (#[trigger] s[i]).pair != (#[trigger] s[j]).pair
}

/// The model of a registry.
pub ghost struct RegistryView {
    /// Hash of the genuine pool code.
    pub template_hash: u64,
    pub entries: Seq<RegistryEntry>,
    /// The pool of each entry, at the entry's position.
    pub pools: Seq<PoolView>,
}

/// Each entry has a well-formed pool for its pair, at the same position.
pub open spec fn pools_match(entries: Seq<RegistryEntry>, pools: Seq<PoolView>) -> bool {
    &&& pools.len() == entries.len()
    &&& forall|i: int| 0 <= i < pools.len() ==> (#[trigger] pools[i]).pair == entries[i].pair && pools[i].wf()
}

impl RegistryView {
    /// Every entry's pair is canonical, no two entries share a pair, and
    /// each entry has its pool.
    pub open spec fn wf(self) -> bool {
        entries_wf(self.entries) && pools_match(self.entries, self.pools)
    }

    /// `get_or_create_pool(x, y, salt)` against the code store `store`:
    /// a registered pair gives its address once its code is checked; an
    /// unregistered one is deployed from the template and registered with a
    /// fresh pool, unless other code already sits at its address.
    pub open spec fn get_or_create_step(self, store: Seq<Deployment>, x: AssetId, y: AssetId, salt: [u8; 32]) -> (
        RegistryView,
        Seq<Deployment>,
        Result<PoolAddress, ExchangeError>,
    ) {
        let pair = AssetPairKey::canonical(x, y);
        let i = entry_index(self.entries, pair, 0);
        if x == y {
            (self, store, Err(ExchangeError::InvalidAsset))
        } else if i >= 0 {
            let e = self.entries[i];
            if code_at(store, e.address as int) == Some(e.code_hash) {
                (self, store, Ok(e.address))
            } else {
                (self, store, Err(ExchangeError::CodeMismatch))
            }
        } else {
            let key = DeployKey { template_hash: self.template_hash, pair, salt };
            let (s1, a) = deploy_step(store, key, self.template_hash);
            if s1[a].code_hash != self.template_hash {
                (self, s1, Err(ExchangeError::CodeMismatch))
            } else {
                (
                    RegistryView {
                        entries: self.entries.push(
                            RegistryEntry { pair, address: a as usize, code_hash: self.template_hash },
                        ),
                        pools: self.pools.push(PoolView::fresh(pair)),
                        ..self
                    },
                    s1,
                    Ok(a as usize),
                )
            }
        }
    }

    /// `lookup(x, y)` against `store`: the registered address, once the code
    /// at it is checked against the registered hash.
    pub open spec fn lookup_step(self, store: Seq<Deployment>, x: AssetId, y: AssetId) -> Result<PoolAddress, ExchangeError> {
        let i = entry_index(self.entries, AssetPairKey::canonical(x, y), 0);
        if x == y || i < 0 {
            Err(ExchangeError::PairNotRegistered)
        } else if code_at(store, self.entries[i].address as int) == Some(self.entries[i].code_hash) {
            Ok(self.entries[i].address)
        } else {
            Err(ExchangeError::CodeMismatch)
        }
    }
}

/// The registry of pools, one per pair.
pub struct Registry {
    pub template_hash: u64,
    pub entries: Vec<RegistryEntry>,
    pub pools: Vec<Pool>,
}

impl View for Registry {
    type V = RegistryView;

    open spec fn view(&self) -> RegistryView {
        RegistryView {
            template_hash: self.template_hash,
            entries: self.entries@,
            pools: self.pools@.map_values(|p: Pool| p@),
        }
    }
}

proof fn lemma_entry_index_found(s: Seq<RegistryEntry>, pair: AssetPairKey, i: int)
    requires
        0 <= i,
        entry_index(s, pair, i) >= 0,
    ensures
        i <= entry_index(s, pair, i) < s.len(),
        s[entry_index(s, pair, i)].pair == pair,
    decreases s.len() - i,
{
    if i < s.len() && s[i].pair != pair {
        lemma_entry_index_found(s, pair, i + 1);
    }
}

proof fn lemma_entry_index_absent(s: Seq<RegistryEntry>, pair: AssetPairKey, i: int)
    requires
        0 <= i,
        entry_index(s, pair, i) < 0,
    ensures
        forall|j: int| i <= j < s.len() ==> s[j].pair != pair,
    decreases s.len() - i,
{
    if i < s.len() {
        lemma_entry_index_absent(s, pair, i + 1);
    }
}

proof fn lemma_entry_index_push(s: Seq<RegistryEntry>, e: RegistryEntry, i: int)
    requires
        0 <= i <= s.len(),
        entry_index(s, e.pair, i) < 0,
    ensures
        entry_index(s.push(e), e.pair, i) == s.len(),
    decreases s.len() - i,
{
    if i < s.len() {
        assert(s.push(e)[i] == s[i]);
        lemma_entry_index_push(s, e, i + 1);
    }
}

proof fn lemma_deployment_index_found(s: Seq<Deployment>, key: DeployKey, i: int)
    requires
        0 <= i,
        deployment_index(s, key, i) >= 0,
    ensures
        i <= deployment_index(s, key, i) < s.len(),
    decreases s.len() - i,
{
    if i < s.len() && !same_key(s[i].key, key) {
        lemma_deployment_index_found(s, key, i + 1);
    }
}

proof fn lemma_push_keeps_wf(reg: RegistryView, e: RegistryEntry)
    requires
        reg.wf(),
        entry_index(reg.entries, e.pair, 0) < 0,
        e.pair.wf(),
    ensures
        (RegistryView {
            entries: reg.entries.push(e),
            pools: reg.pools.push(PoolView::fresh(e.pair)),
            ..reg
        }).wf(),
{
    let entries = reg.entries;
    lemma_entry_index_absent(entries, e.pair, 0);
    let n = entries.push(e);
    let ps = reg.pools.push(PoolView::fresh(e.pair));
    assert forall|i: int, j: int| 0 <= i < j < n.len() implies (#[trigger] n[i]).pair != (#[trigger] n[j]).pair by {
        assert(n[i] == entries[i]);
        if j < entries.len() {
            assert(n[j] == entries[j]);
            assert(entries[i].pair != entries[j].pair);
        } else {
            assert(n[j] == e);
            assert(entries[i].pair != e.pair);
        }
    }
    assert forall|i: int| 0 <= i < n.len() implies (#[trigger] n[i]).pair.wf() by {
        if i < entries.len() {
            assert(n[i] == entries[i]);
        }
    }
    assert forall|i: int| 0 <= i < ps.len() implies (#[trigger] ps[i]).pair == n[i].pair && ps[i].wf() by {
        if i < entries.len() {
            assert(ps[i] == reg.pools[i]);
            assert(n[i] == entries[i]);
        }
    }
}

/// The first `get_or_create_pool` call for an unregistered pair succeeds
/// unless code other than the template already sits at the pair's derived
/// address; it then adds exactly one entry, with a fresh pool, and deploys
/// at most once.
pub proof fn lemma_fresh_pair_registers(reg: RegistryView, store: Seq<Deployment>, x: AssetId, y: AssetId, salt: [u8; 32])
    requires
        reg.wf(),
        store.len() <= usize::MAX,
        x != y,
        entry_index(reg.entries, AssetPairKey::canonical(x, y), 0) < 0,
    ensures
        ({
            let pair = AssetPairKey::canonical(x, y);
            let key = DeployKey { template_hash: reg.template_hash, pair, salt };
            let j = deployment_index(store, key, 0);
            let (r1, s1, o1) = reg.get_or_create_step(store, x, y, salt);
            &&& (j < 0 || store[j].code_hash == reg.template_hash) ==> {
                &&& o1 is Ok
                &&& r1.entries == reg.entries.push(
                    RegistryEntry { pair, address: o1->Ok_0, code_hash: reg.template_hash },
                )
                &&& r1.pools == reg.pools.push(PoolView::fresh(pair))
                &&& s1.len() <= store.len() + 1
            }
            &&& (j >= 0 && store[j].code_hash != reg.template_hash) ==> {
                &&& o1 == Err::<PoolAddress, ExchangeError>(ExchangeError::CodeMismatch)
                &&& r1 == reg
                &&& s1 == store
            }
        }),
{
    let pair = AssetPairKey::canonical(x, y);
    let key = DeployKey { template_hash: reg.template_hash, pair, salt };
    if deployment_index(store, key, 0) >= 0 {
        lemma_deployment_index_found(store, key, 0);
    }
}

/// Two `get_or_create_pool` calls for one pair, with its assets in either
/// order and any salts, deploy one pool only: once the first call has
/// succeeded, the second returns the same address and changes neither the
/// registry nor the code store, and the registry holds exactly one entry for
/// the pair.
pub proof fn lemma_one_pool_per_pair(
    reg: RegistryView,
    store: Seq<Deployment>,
    x: AssetId,
    y: AssetId,
    salt1: [u8; 32],
    salt2: [u8; 32],
)
    requires
        reg.wf(),
        store.len() <= usize::MAX,
        reg.get_or_create_step(store, x, y, salt1).2 is Ok,
    ensures
        ({
            let (r1, s1, o1) = reg.get_or_create_step(store, x, y, salt1);
            let pair = AssetPairKey::canonical(x, y);
            &&& r1.wf()
            &&& r1.get_or_create_step(s1, y, x, salt2) == (r1, s1, o1)
            &&& r1.get_or_create_step(s1, x, y, salt2) == (r1, s1, o1)
            &&& r1.lookup_step(s1, x, y) == o1
            &&& exists|i: int| 0 <= i < r1.entries.len() && (#[trigger] r1.entries[i]).pair == pair
            &&& forall|i: int, j: int|
                0 <= i < r1.entries.len() && 0 <= j < r1.entries.len() && (#[trigger] r1.entries[i]).pair == pair
                    && (#[trigger] r1.entries[j]).pair == pair ==> i == j
        }),
{
    let (r1, s1, o1) = reg.get_or_create_step(store, x, y, salt1);
    let pair = AssetPairKey::canonical(x, y);
    assert(AssetPairKey::canonical(y, x) == pair);
    let i = entry_index(reg.entries, pair, 0);
    if i >= 0 {
        lemma_entry_index_found(reg.entries, pair, 0);
    } else {
        let key = DeployKey { template_hash: reg.template_hash, pair, salt: salt1 };
        let (st, a) = deploy_step(store, key, reg.template_hash);
        if deployment_index(store, key, 0) >= 0 {
            lemma_deployment_index_found(store, key, 0);
        }
        let e = RegistryEntry { pair, address: a as usize, code_hash: reg.template_hash };
        lemma_push_keeps_wf(reg, e);
        lemma_entry_index_push(reg.entries, e, 0);
        assert(r1.entries[reg.entries.len() as int] == e);
    }
    lemma_entry_index_found(r1.entries, pair, 0);
    let k = entry_index(r1.entries, pair, 0);
    assert(entry_index(r1.entries, AssetPairKey::canonical(y, x), 0) == k);
    assert(code_at(s1, r1.entries[k].address as int) == Some(r1.entries[k].code_hash));
}

impl Registry {
    /// An empty registry for pools built from the code whose hash is
    /// `template_hash`.
    pub fn new(template_hash: u64) -> (r: Registry)
        ensures
            r@ == (RegistryView { template_hash, entries: Seq::empty(), pools: Seq::empty() }),
            r@.wf(),
    {
        let r = Registry { template_hash, entries: Vec::new(), pools: Vec::new() };
        assert(r@.pools =~= Seq::<PoolView>::empty());
        r
    }

    /// The pool at position `i`, which serves the pair of entry `i`.
    pub fn pool(&self, i: usize) -> (r: &Pool)
        requires
            i < self@.pools.len(),
        ensures
            r@ == self@.pools[i as int],
    {
        &self.pools[i]
    }

    /// The pool at position `i`, to operate on in place; the entries stay as
    /// they are.
    pub fn pool_mut(&mut self, i: usize) -> (r: &mut Pool)
        requires
            i < old(self)@.pools.len(),
        ensures
            r@ == old(self)@.pools[i as int],
            final(self).pools@ == old(self).pools@.update(i as int, *final(r)),
            final(self).entries == old(self).entries,
            final(self).template_hash == old(self).template_hash,
    {
        &mut self.pools[i]
    }

    /// Position of the entry (and pool) for the pair `x`, `y`, if registered.
    pub fn position(&self, x: AssetId, y: AssetId) -> (r: Option<usize>)
        ensures
            x == y ==> r is None,
            x != y ==> match r {
                Some(i) => i as int == entry_index(self@.entries, AssetPairKey::canonical(x, y), 0),
                None => entry_index(self@.entries, AssetPairKey::canonical(x, y), 0) < 0,
            },
    {
        match AssetPairKey::new(x, y) {
            None => None,
            Some(pair) => self.find(&pair),
        }
    }

    fn find(&self, pair: &AssetPairKey) -> (r: Option<usize>)
        ensures
            match r {
                Some(i) => i as int == entry_index(self@.entries, *pair, 0),
                None => entry_index(self@.entries, *pair, 0) == -1,
            },
    {
        let mut i: usize = 0;
        while i < self.entries.len()
            invariant
                0 <= i <= self@.entries.len(),
                entry_index(self@.entries, *pair, 0) == entry_index(self@.entries, *pair, i as int),
            decreases self@.entries.len() - i,
        {
            if self.entries[i].pair == *pair {
                return Some(i);
            }
            i = i + 1;
        }
        None
    }

    /// The pool address for the pair `x`, `y`, deploying and registering a
    /// pool first where the pair has none. The code at the address is checked
    /// against the registered hash (or, for a fresh pool, the template's).
    pub fn get_or_create_pool(&mut self, store: &mut CodeStore, x: AssetId, y: AssetId, salt: [u8; 32]) -> (r: Result<PoolAddress, ExchangeError>)
        requires
            old(self)@.wf(),
        ensures
            (final(self)@, final(store)@, r) == old(self)@.get_or_create_step(old(store)@, x, y, salt),
            final(self)@.wf(),
    {
        let pair = match AssetPairKey::new(x, y) {
            None => {
                return Err(ExchangeError::InvalidAsset);
            },
            Some(p) => p,
        };
        match self.find(&pair) {
            Some(i) => {
                proof {
                    lemma_entry_index_found(self@.entries, pair, 0);
                }
                let e = self.entries[i];
                if store.verify(e.address, e.code_hash) {
                    Ok(e.address)
                } else {
                    Err(ExchangeError::CodeMismatch)
                }
            },
            None => {
                let template = self.template_hash;
                let key = DeployKey { template_hash: template, pair, salt };
                let ghost s0 = store@;
                let a = store.deploy(key, template);
                proof {
                    if deployment_index(s0, key, 0) >= 0 {
                        lemma_deployment_index_found(s0, key, 0);
                    }
                }
                if store.deployments[a].code_hash != template {
                    return Err(ExchangeError::CodeMismatch);
                }
                let ghost old_view = self@;
                let entry = RegistryEntry { pair, address: a, code_hash: template };
                self.entries.push(entry);
                let pool = Pool::new(pair);
                let ghost pv = pool@;
                self.pools.push(pool);
                proof {
                    assert(self@.pools =~= old_view.pools.push(pv));
                    lemma_push_keeps_wf(old_view, entry);
                }
                Ok(a)
            },
        }
    }

    /// The registered pool address for the pair `x`, `y`, after checking the
    /// code at it.
    pub fn lookup(&self, store: &CodeStore, x: AssetId, y: AssetId) -> (r: Result<PoolAddress, ExchangeError>)
        ensures
            r == self@.lookup_step(store@, x, y),
    {
        let pair = match AssetPairKey::new(x, y) {
            None => {
                return Err(ExchangeError::PairNotRegistered);
            },
            Some(p) => p,
        };
        match self.find(&pair) {
            None => Err(ExchangeError::PairNotRegistered),
            Some(i) => {
                proof {
                    lemma_entry_index_found(self@.entries, pair, 0);
                }
                let e = self.entries[i];
                if store.verify(e.address, e.code_hash) {
                    Ok(e.address)
                } else {
                    Err(ExchangeError::CodeMismatch)
                }
            },
        }
    }
}

} // verus!
