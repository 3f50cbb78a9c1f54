use amm::registry::{CodeStore, Registry};
use amm::types::{AssetPairKey, ExchangeContractConfiguration, ExchangeError};

const TEMPLATE: u64 = 0xabcd;

#[test]
fn concurrent_requests_share_one_pool() {
    let mut store = CodeStore::new();
    let mut registry = Registry::new(TEMPLATE);
    let first = registry.get_or_create_pool(&mut store, 1, 2, [0u8; 32]).unwrap();
    let second = registry.get_or_create_pool(&mut store, 2, 1, [9u8; 32]).unwrap();
    assert_eq!(first, second);
    assert_eq!(registry.entries.len(), 1);
    assert_eq!(store.deployments.len(), 1);
    assert_eq!(registry.lookup(&store, 2, 1), Ok(first));
}

#[test]
fn distinct_pairs_get_distinct_pools() {
    let mut store = CodeStore::new();
    let mut registry = Registry::new(TEMPLATE);
    let a = registry.get_or_create_pool(&mut store, 1, 2, [0u8; 32]).unwrap();
    let b = registry.get_or_create_pool(&mut store, 2, 3, [0u8; 32]).unwrap();
    assert_ne!(a, b);
    assert_eq!(registry.entries[1].pair, AssetPairKey::new(3, 2).unwrap());
    assert_eq!(store.code_hash_at(b), Some(TEMPLATE));
}

#[test]
fn lookup_errors() {
    let mut store = CodeStore::new();
    let mut registry = Registry::new(TEMPLATE);
    assert_eq!(registry.lookup(&store, 1, 2), Err(ExchangeError::PairNotRegistered));
    assert_eq!(registry.lookup(&store, 1, 1), Err(ExchangeError::PairNotRegistered));
    assert_eq!(registry.get_or_create_pool(&mut store, 5, 5, [0u8; 32]), Err(ExchangeError::InvalidAsset));
    assert_eq!(store.deployments.len(), 0);
}

#[test]
fn substituted_code_is_detected() {
    let mut store = CodeStore::new();
    let mut registry = Registry::new(TEMPLATE);
    let addr = registry.get_or_create_pool(&mut store, 1, 2, [0u8; 32]).unwrap();
    assert!(store.verify(addr, TEMPLATE));
    assert!(store.replace_code(addr, 0x666));
    assert!(!store.verify(addr, TEMPLATE));
    assert_eq!(registry.lookup(&store, 1, 2), Err(ExchangeError::CodeMismatch));
    assert_eq!(registry.get_or_create_pool(&mut store, 1, 2, [0u8; 32]), Err(ExchangeError::CodeMismatch));
    assert!(!store.replace_code(17, 1));
}

#[test]
fn counterfeit_at_derived_address_is_refused() {
    let mut store = CodeStore::new();
    let config = ExchangeContractConfiguration::new(None, Some(true), None);
    let (fake, root) = store.deploy_exchange(TEMPLATE, 2, 1, &config).unwrap();
    assert_eq!(root, None);
    assert_eq!(store.code_hash_at(fake), Some(TEMPLATE + 1));
    let mut registry = Registry::new(TEMPLATE);
    assert_eq!(registry.get_or_create_pool(&mut store, 1, 2, [0u8; 32]), Err(ExchangeError::CodeMismatch));
    assert_eq!(registry.entries.len(), 0);
    let genuine = registry.get_or_create_pool(&mut store, 1, 2, [1u8; 32]).unwrap();
    assert_ne!(genuine, fake);
}

#[test]
fn deployment_address_is_deterministic() {
    let mut store = CodeStore::new();
    let config = ExchangeContractConfiguration::default();
    assert!(!config.malicious && !config.compute_bytecode_root);
    assert_eq!(config.salt, [0u8; 32]);
    let (a, root_a) = store.deploy_exchange(TEMPLATE, 1, 2, &config).unwrap();
    let (b, _) = store.deploy_exchange(TEMPLATE, 2, 1, &config).unwrap();
    assert_eq!(root_a, None);
    assert_eq!(a, b);
    assert_eq!(store.deploy_exchange(TEMPLATE, 3, 3, &config), None);
    let mut salt = [0u8; 32];
    salt[31] = 1;
    let salted = ExchangeContractConfiguration::new(Some(true), None, Some(salt));
    let (c, root_c) = store.deploy_exchange(TEMPLATE, 1, 2, &salted).unwrap();
    assert_eq!(root_c, Some(TEMPLATE));
    let counterfeit = ExchangeContractConfiguration::new(Some(true), Some(true), Some([7u8; 32]));
    let (_, root_fake) = store.deploy_exchange(TEMPLATE, 1, 2, &counterfeit).unwrap();
    assert_eq!(root_fake, Some(TEMPLATE + 1));
    assert_ne!(a, c);
    let mut registry = Registry::new(TEMPLATE);
    assert_eq!(registry.get_or_create_pool(&mut store, 2, 1, [0u8; 32]), Ok(a));
}

#[test]
fn registry_holds_one_pool_per_pair() {
    let mut store = CodeStore::new();
    let mut registry = Registry::new(TEMPLATE);
    registry.get_or_create_pool(&mut store, 8, 3, [0u8; 32]).unwrap();
    registry.get_or_create_pool(&mut store, 3, 8, [0u8; 32]).unwrap();
    assert_eq!(registry.pools.len(), 1);
    let i = registry.position(8, 3).unwrap();
    assert_eq!(registry.position(3, 8), Some(i));
    assert_eq!(registry.position(3, 3), None);
    assert_eq!(registry.position(3, 9), None);
    assert_eq!(registry.pool(i).pair, AssetPairKey::new(3, 8).unwrap());
    assert_eq!(registry.pool(i).liquidity_supply(), 0);
    registry.pool_mut(i).deposit(1, 8, 40).unwrap();
    assert_eq!(registry.pool(i).deposit_of(1, 8), 40);
    assert_eq!(registry.pool_mut(i).withdraw(1, 41, 8), Err(ExchangeError::DesiredAmountTooHigh(41)));
}
