use marketplace::asset::{Metadata, MetadataError, ResourceDef};
use marketplace::decimal::Decimal;
use marketplace::order::{Order, OrderTicket};

fn asset_with_symbol(address: &str, symbol: &str) -> ResourceDef {
    let mut metadata = Metadata::new();
    metadata.add("name".to_owned(), "Some asset".to_owned());
    metadata.add("symbol".to_owned(), symbol.to_owned());
    ResourceDef::new(address.to_owned(), metadata)
}

fn asset_without_symbol(address: &str) -> ResourceDef {
    let mut metadata = Metadata::new();
    metadata.add("name".to_owned(), "Nameless asset".to_owned());
    ResourceDef::new(address.to_owned(), metadata)
}

fn order(number: i64, buy: bool, price: i128, purse: i128, payment: i128) -> Order {
    Order {
        number,
        buy,
        token: asset_with_symbol("resource_xrd", "XRD"),
        price: Decimal::new(price),
        purse: Decimal::new(purse),
        payment: Decimal::new(payment),
    }
}

#[test]
fn buy_order_with_empty_escrow_is_filled() {
    let o = order(1, true, 10, 0, 0);
    assert!(o.is_filled());
}

#[test]
fn buy_order_with_underfunded_escrow_is_filled() {
    let o = order(2, true, 10, 5, 8);
    assert!(o.is_filled());
}

#[test]
fn sell_order_with_stock_left_is_not_filled() {
    let o = order(3, false, 5, 3, 0);
    assert!(!o.is_filled());
}

#[test]
fn sell_order_with_empty_purse_is_filled() {
    let o = order(7, false, 5, 0, 123);
    assert!(o.is_filled());
}

#[test]
fn buy_order_with_exact_escrow_is_open() {
    let o = order(8, true, 10, 5, 10);
    assert!(!o.is_filled());
}

#[test]
fn zero_price_marks_market_order_regardless_of_balances() {
    let o = order(4, true, 0, 100, 50);
    assert!(o.is_market_order());
    let limit = order(5, true, 10, 100, 50);
    assert!(!limit.is_market_order());
}

#[test]
fn market_order_marker_survives_balance_mutation() {
    let mut o = order(6, true, 0, 100, 50);
    assert!(o.is_market_order());
    o.purse = Decimal::new(0);
    o.payment = Decimal::new(0);
    assert!(o.is_market_order());
    o.purse = Decimal::new(7_000);
    o.payment = Decimal::new(1);
    assert!(o.is_market_order());
}

#[test]
fn buy_and_sell_are_complementary() {
    let buy = order(9, true, 10, 0, 0);
    assert!(buy.is_buy_order());
    assert!(!buy.is_sell_order());
    let sell = order(10, false, 10, 0, 0);
    assert!(!sell.is_buy_order());
    assert!(sell.is_sell_order());
}

#[test]
fn token_symbol_reads_the_metadata_entry() {
    let o = order(11, true, 10, 0, 0);
    assert_eq!(o.token_symbol().unwrap(), "XRD".to_owned());
}

#[test]
fn token_symbol_fails_without_symbol_entry() {
    let mut o = order(12, true, 10, 0, 0);
    o.token = asset_without_symbol("resource_mystery");
    assert_eq!(o.token_symbol(), Err(MetadataError::MissingSymbol));
}

#[test]
fn later_metadata_binding_overrides_earlier() {
    let mut metadata = Metadata::new();
    metadata.add("symbol".to_owned(), "OLD".to_owned());
    metadata.add("symbol".to_owned(), "NEW".to_owned());
    let token = ResourceDef::new("resource_renamed".to_owned(), metadata);
    assert_eq!(token.symbol().unwrap(), "NEW".to_owned());
}

#[test]
fn order_round_trips_through_bytes() {
    let o = order(42, true, 10, 5, 8);
    let bytes = o.to_bytes();
    let back = Order::from_bytes(&bytes).unwrap();
    assert_eq!(back.number, 42);
    assert!(back.buy);
    assert_eq!(back.token.address(), "resource_xrd");
    assert_eq!(back.token_symbol().unwrap(), "XRD".to_owned());
    assert_eq!(back.price.subunits(), 10);
    assert_eq!(back.purse.subunits(), 5);
    assert_eq!(back.payment.subunits(), 8);
}

#[test]
fn order_with_unicode_strings_round_trips() {
    let mut metadata = Metadata::new();
    metadata.add("symbol".to_owned(), "₿TC–ü".to_owned());
    let token = ResourceDef::new("resource_ünïcødé".to_owned(), metadata);
    let o = Order {
        number: -3,
        buy: false,
        token,
        price: Decimal::new(-1),
        purse: Decimal::new(i128::MAX),
        payment: Decimal::new(i128::MIN),
    };
    let bytes = o.to_bytes();
    let back = Order::from_bytes(&bytes).unwrap();
    assert_eq!(back.number, -3);
    assert!(!back.buy);
    assert_eq!(back.token.address(), "resource_ünïcødé");
    assert_eq!(back.token_symbol().unwrap(), "₿TC–ü".to_owned());
    assert_eq!(back.price.subunits(), -1);
    assert_eq!(back.purse.subunits(), i128::MAX);
    assert_eq!(back.payment.subunits(), i128::MIN);
}

#[test]
fn truncated_order_bytes_are_rejected() {
    let o = order(13, true, 10, 5, 8);
    let mut bytes = o.to_bytes();
    bytes.pop();
    assert!(Order::from_bytes(&bytes).is_none());
}

#[test]
fn trailing_garbage_after_order_is_rejected() {
    let o = order(14, true, 10, 5, 8);
    let mut bytes = o.to_bytes();
    bytes.push(0);
    assert!(Order::from_bytes(&bytes).is_none());
}

#[test]
fn malformed_side_byte_is_rejected() {
    let o = order(15, true, 10, 5, 8);
    let mut bytes = o.to_bytes();
    // The side flag follows the eight bytes of the order number.
    bytes[8] = 7;
    assert!(Order::from_bytes(&bytes).is_none());
}

#[test]
fn order_ticket_carries_the_claim_data() {
    let ticket = OrderTicket {
        order_number: 1,
        order_token_address: "resource_xrd".to_owned(),
        order_currency: "USD".to_owned(),
    };
    assert_eq!(ticket.order_number, 1);
    assert_eq!(ticket.order_token_address, "resource_xrd");
    assert_eq!(ticket.order_currency, "USD");
}

#[test]
fn metadata_lookup_finds_only_present_keys() {
    let mut metadata = Metadata::new();
    assert_eq!(metadata.len(), 0);
    metadata.add("symbol".to_owned(), "XRD".to_owned());
    metadata.add("name".to_owned(), "Radix".to_owned());
    assert_eq!(metadata.len(), 2);
    assert_eq!(metadata.get(&"name".to_owned()), Some("Radix".to_owned()));
    assert_eq!(metadata.get(&"decimals".to_owned()), None);
}

#[test]
fn decimal_comparisons_follow_subunits() {
    let small = Decimal::new(-5);
    let zero = Decimal::zero();
    let big = Decimal::new(5);
    assert!(zero.is_zero());
    assert!(!small.is_zero());
    assert!(small.lt(&zero));
    assert!(zero.lt(&big));
    assert!(!big.lt(&zero));
    assert_eq!(small.plus(&big).subunits(), 0);
    assert_eq!(big.minus(&small).subunits(), 10);
    assert_eq!(Decimal::new(3), Decimal::new(3));
}
