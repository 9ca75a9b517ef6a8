use marketplace::asset::{Metadata, MetadataError, ResourceDef};
use marketplace::decimal::Decimal;
use marketplace::prices::MarketPrices;

#[test]
fn updated_symbol_is_priced_and_unset_symbol_is_absent() {
    let mut prices = MarketPrices::new();
    prices.update("BTC".to_owned(), Decimal::new(20_000));
    assert_eq!(prices.get("BTC".to_owned()), Some(Decimal::new(20_000)));
    assert_eq!(prices.get("ETH".to_owned()), None);
}

#[test]
fn update_overwrites_an_earlier_price() {
    let mut prices = MarketPrices::new();
    prices.update("BTC".to_owned(), Decimal::new(20_000));
    prices.update("BTC".to_owned(), Decimal::new(21_500));
    assert_eq!(prices.get("BTC".to_owned()), Some(Decimal::new(21_500)));
    assert_eq!(prices.assets().len(), 1);
}

#[test]
fn zero_is_a_stored_price_not_absence() {
    let mut prices = MarketPrices::new();
    prices.update("DUST".to_owned(), Decimal::new(0));
    assert_eq!(prices.get("DUST".to_owned()), Some(Decimal::new(0)));
    assert_ne!(prices.get("DUST".to_owned()), None);
    assert_eq!(prices.get("UNSET".to_owned()), None);
}

#[test]
fn assets_lists_each_symbol_once() {
    let mut prices = MarketPrices::new();
    prices.update("BTC".to_owned(), Decimal::new(20_000));
    prices.update("ETH".to_owned(), Decimal::new(1_500));
    prices.update("BTC".to_owned(), Decimal::new(19_000));
    let mut symbols = prices.assets();
    symbols.sort();
    assert_eq!(symbols, vec!["BTC".to_owned(), "ETH".to_owned()]);
}

#[test]
fn empty_index_has_no_assets() {
    let prices = MarketPrices::new();
    assert!(prices.assets().is_empty());
    assert_eq!(prices.get("BTC".to_owned()), None);
}

#[test]
fn for_address_resolves_through_metadata() {
    let mut prices = MarketPrices::new();
    prices.update("XRD".to_owned(), Decimal::new(3));
    let mut metadata = Metadata::new();
    metadata.add("symbol".to_owned(), "XRD".to_owned());
    let known = ResourceDef::new("resource_xrd".to_owned(), metadata);
    assert_eq!(prices.for_address(&known), Ok(Some(Decimal::new(3))));

    let mut other_metadata = Metadata::new();
    other_metadata.add("symbol".to_owned(), "ETH".to_owned());
    let unpriced = ResourceDef::new("resource_eth".to_owned(), other_metadata);
    assert_eq!(prices.for_address(&unpriced), Ok(None));
}

#[test]
fn for_address_fails_without_symbol_entry() {
    let prices = MarketPrices::new();
    let bare = ResourceDef::new("resource_bare".to_owned(), Metadata::new());
    assert_eq!(prices.for_address(&bare), Err(MetadataError::MissingSymbol));
}

#[test]
fn price_index_round_trips_through_bytes() {
    let mut prices = MarketPrices::new();
    prices.update("BTC".to_owned(), Decimal::new(20_000));
    prices.update("ETH".to_owned(), Decimal::new(-7));
    prices.update("BTC".to_owned(), Decimal::new(19_999));
    let bytes = prices.to_bytes();
    let back = MarketPrices::from_bytes(&bytes).unwrap();
    assert_eq!(back.get("BTC".to_owned()), Some(Decimal::new(19_999)));
    assert_eq!(back.get("ETH".to_owned()), Some(Decimal::new(-7)));
    assert_eq!(back.get("XRD".to_owned()), None);
    assert_eq!(back.assets().len(), 2);
}

#[test]
fn empty_price_index_round_trips() {
    let prices = MarketPrices::new();
    let bytes = prices.to_bytes();
    let back = MarketPrices::from_bytes(&bytes).unwrap();
    assert!(back.assets().is_empty());
}

#[test]
fn truncated_price_bytes_are_rejected() {
    let mut prices = MarketPrices::new();
    prices.update("BTC".to_owned(), Decimal::new(20_000));
    let mut bytes = prices.to_bytes();
    bytes.pop();
    assert!(MarketPrices::from_bytes(&bytes).is_none());
    bytes.clear();
    assert!(MarketPrices::from_bytes(&bytes).is_none());
}
