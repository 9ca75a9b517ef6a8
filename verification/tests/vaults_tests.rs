use marketplace::decimal::Decimal;
use marketplace::vaults::{TokenVaults, Vault};

#[test]
fn repeated_access_yields_the_same_vault() {
    let mut vaults = TokenVaults::new();
    let asset = "resource_xrd".to_owned();
    let first = vaults.get(&asset);
    let second = vaults.get(&asset);
    assert_eq!(first, second);
    assert_eq!(vaults.len(), 1);
    assert_eq!(vaults.address_at(first), "resource_xrd");
}

#[test]
fn distinct_assets_get_independent_vaults() {
    let mut vaults = TokenVaults::new();
    let xrd = vaults.get(&"resource_xrd".to_owned());
    let btc = vaults.get(&"resource_btc".to_owned());
    assert_ne!(xrd, btc);
    assert_eq!(vaults.len(), 2);
    vaults.deposit(xrd, Decimal::new(100));
    assert_eq!(vaults.amount_at(xrd).subunits(), 100);
    assert_eq!(vaults.amount_at(btc).subunits(), 0);
}

#[test]
fn a_new_vault_starts_empty() {
    let mut vaults = TokenVaults::new();
    assert_eq!(vaults.len(), 0);
    let slot = vaults.get(&"resource_new".to_owned());
    assert_eq!(vaults.amount_at(slot).subunits(), 0);
}

#[test]
fn deposits_and_withdrawals_move_the_balance() {
    let mut vaults = TokenVaults::new();
    let slot = vaults.get(&"resource_xrd".to_owned());
    vaults.deposit(slot, Decimal::new(250));
    vaults.deposit(slot, Decimal::new(50));
    assert_eq!(vaults.amount_at(slot).subunits(), 300);
    vaults.withdraw(slot, Decimal::new(120));
    assert_eq!(vaults.amount_at(slot).subunits(), 180);
}

#[test]
fn standalone_vault_reports_its_asset_and_balance() {
    let vault = Vault::new("resource_gold".to_owned());
    assert_eq!(vault.resource_address(), "resource_gold");
    assert_eq!(vault.amount().subunits(), 0);
}

#[test]
fn custody_mapping_round_trips_through_bytes() {
    let mut vaults = TokenVaults::new();
    let xrd = vaults.get(&"resource_xrd".to_owned());
    let btc = vaults.get(&"resource_btc".to_owned());
    vaults.deposit(xrd, Decimal::new(77));
    vaults.deposit(btc, Decimal::new(-9));
    let bytes = vaults.to_bytes();
    let back = TokenVaults::from_bytes(&bytes).unwrap();
    assert_eq!(back.len(), 2);
    assert_eq!(back.address_at(0), "resource_xrd");
    assert_eq!(back.amount_at(0).subunits(), 77);
    assert_eq!(back.address_at(1), "resource_btc");
    assert_eq!(back.amount_at(1).subunits(), -9);
}

#[test]
fn empty_custody_mapping_round_trips() {
    let vaults = TokenVaults::new();
    let bytes = vaults.to_bytes();
    let back = TokenVaults::from_bytes(&bytes).unwrap();
    assert_eq!(back.len(), 0);
}

#[test]
fn trailing_garbage_after_vaults_is_rejected() {
    let mut vaults = TokenVaults::new();
    vaults.get(&"resource_xrd".to_owned());
    let mut bytes = vaults.to_bytes();
    bytes.push(1);
    assert!(TokenVaults::from_bytes(&bytes).is_none());
}
