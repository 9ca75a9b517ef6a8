//! Standing orders and their fill state.
//!
//! An order is a buy or a sell of one asset at a limit price, together
//! with its current accounting state: the purse of traded asset still
//! held and the payment escrowed in market currency. Settlement mutates
//! `purse` and `payment` as trades execute and consults the predicates
//! here to decide whether the order is done. A price of zero is the
//! permanent market-order marker fixed at creation, not a transient
//! balance; it must never be conflated with a buy order whose escrow
//! happens to have reached zero.

use vstd::prelude::*;

use crate::asset::{spec_lookup, symbol_key, Metadata, MetadataError, ResourceDef};
use crate::codec::{dec_bool_at, dec_i128_at, dec_i64_at, dec_ss_table_at, dec_str_at, enc_bool,
    enc_i128, enc_i64, enc_ss_table, enc_str, lemma_dec_enc_bool, lemma_dec_enc_i128,
    lemma_dec_enc_i64, lemma_dec_enc_ss_table, lemma_dec_enc_str, lemma_subrange_split, read_bool,
    read_i128, read_i64, read_str, ss_ok, str_ok, write_bool, write_i128, write_i64, write_str};
use crate::decimal::Decimal;

verus! {

/// The observable content of an order: every field as a plain
/// mathematical value.
#[verifier::ext_equal]
pub ghost struct OrderView {
    /// The order number.
    pub number: int,
    /// True for a buy order.
    pub buy: bool,
    /// The traded asset's address.
    pub token_addr: Seq<char>,
    /// The traded asset's metadata table.
    pub token_meta: Seq<(Seq<char>, Seq<char>)>,
    /// The limit price, in atomic subunits.
    pub price: int,
    /// The remaining purse, in atomic subunits.
    pub purse: int,
    /// The escrowed payment, in atomic subunits.
    pub payment: int,
}

/// One standing order. A filled order is retained as a closed record,
/// never deleted.
#[derive(Debug)]
pub struct Order {
    /// Order number, unique per marketplace, assigned from 1 upward at
    /// creation and immutable thereafter.
    pub number: i64,
    /// True for a buy order, false for a sell order.
    pub buy: bool,
    /// The asset being bought or sold.
    pub token: ResourceDef,
    /// Limit price in market currency; zero marks a market order.
    pub price: Decimal,
    /// Amount of the traded asset still held by the order.
    pub purse: Decimal,
    /// Market currency escrowed for this order.
    pub payment: Decimal,
}

impl View for Order {
    type V = OrderView;

    open spec fn view(&self) -> OrderView {
        OrderView {
            number: self.number as int,
            buy: self.buy,
            token_addr: self.token.addr(),
            token_meta: self.token.meta(),
            price: self.price@,
            purse: self.purse@,
            payment: self.payment@,
        }
    }
}

/// The stable byte encoding of an order: number, side, asset address,
/// asset metadata, then price, purse and payment.
pub open spec fn enc_order(v: OrderView) -> Seq<u8> {
    enc_i64(v.number as i64) + enc_bool(v.buy) + enc_str(v.token_addr) + enc_ss_table(v.token_meta)
        + enc_i128(v.price as i128) + enc_i128(v.purse as i128) + enc_i128(v.payment as i128)
}

/// The order read at `pos`, with the position after it.
pub open spec fn dec_order_at(s: Seq<u8>, pos: int) -> Option<(OrderView, int)> {
    match dec_i64_at(s, pos) {
        Some(number) => match dec_bool_at(s, number.1) {
            Some(buy) => match dec_str_at(s, buy.1) {
                Some(addr) => match dec_ss_table_at(s, addr.1) {
                    Some(meta) => match dec_i128_at(s, meta.1) {
                        Some(price) => match dec_i128_at(s, price.1) {
                            Some(purse) => match dec_i128_at(s, purse.1) {
                                Some(payment) => Some(
                                    (
                                        OrderView {
                                            number: number.0 as int,
                                            buy: buy.0,
                                            token_addr: addr.0,
                                            token_meta: meta.0,
                                            price: price.0 as int,
                                            purse: purse.0 as int,
                                            payment: payment.0 as int,
                                        },
                                        payment.1,
                                    ),
                                ),
                                None => None,
                            },
                            None => None,
                        },
                        None => None,
                    },
                    None => None,
                },
                None => None,
            },
            None => None,
        },
        None => None,
    }
}

/// An order's observable content can be carried by its encoding: its
/// number is a 64-bit integer, its amounts are 128-bit subunit counts,
/// and its strings and metadata table fit their length prefixes.
pub open spec fn order_encodable(v: OrderView) -> bool {
    &&& i64::MIN <= v.number <= i64::MAX
    &&& str_ok(v.token_addr)
    &&& ss_ok(v.token_meta)
    &&& i128::MIN <= v.price <= i128::MAX
    &&& i128::MIN <= v.purse <= i128::MAX
    &&& i128::MIN <= v.payment <= i128::MAX
}

/// The subrange of an order's encoding that holds each field's own
/// encoding.
#[verifier::rlimit(100)]
proof fn lemma_order_split(v: OrderView)
    ensures
        ({
            let buf = enc_order(v);
            let e1 = enc_i64(v.number as i64);
            let e2 = enc_bool(v.buy);
            let e3 = enc_str(v.token_addr);
            let e4 = enc_ss_table(v.token_meta);
            let e5 = enc_i128(v.price as i128);
            let e6 = enc_i128(v.purse as i128);
            let e7 = enc_i128(v.payment as i128);
            let p1 = e1.len() as int;
            let p2 = p1 + e2.len();
            let p3 = p2 + e3.len();
            let p4 = p3 + e4.len();
            let p5 = p4 + e5.len();
            let p6 = p5 + e6.len();
            &&& buf.len() == p6 + e7.len()
            &&& buf.subrange(0, p1) == e1
            &&& buf.subrange(p1, p2) == e2
            &&& buf.subrange(p2, p3) == e3
            &&& buf.subrange(p3, p4) == e4
            &&& buf.subrange(p4, p5) == e5
            &&& buf.subrange(p5, p6) == e6
            &&& buf.subrange(p6, buf.len() as int) == e7
        }),
{
    let buf = enc_order(v);
    let e1 = enc_i64(v.number as i64);
    let e2 = enc_bool(v.buy);
    let e3 = enc_str(v.token_addr);
    let e4 = enc_ss_table(v.token_meta);
    let e5 = enc_i128(v.price as i128);
    let e6 = enc_i128(v.purse as i128);
    let e7 = enc_i128(v.payment as i128);
    let a2 = e1 + e2;
    let a3 = a2 + e3;
    let a4 = a3 + e4;
    let a5 = a4 + e5;
    let a6 = a5 + e6;
    assert(buf == a6 + e7);
    assert(buf.subrange(0, buf.len() as int) =~= buf);
    lemma_subrange_split(buf, 0, a6, e7);
    lemma_subrange_split(buf, 0, a5, e6);
    lemma_subrange_split(buf, 0, a4, e5);
    lemma_subrange_split(buf, 0, a3, e4);
    lemma_subrange_split(buf, 0, a2, e3);
    lemma_subrange_split(buf, 0, e1, e2);
}

/// The order's number, side and asset address decode in sequence from
/// the front of its encoding.
#[verifier::rlimit(100)]
proof fn lemma_order_fields_low(v: OrderView)
    requires
        order_encodable(v),
    ensures
        ({
            let buf = enc_order(v);
            let p1 = enc_i64(v.number as i64).len() as int;
            let p2 = p1 + enc_bool(v.buy).len();
            let p3 = p2 + enc_str(v.token_addr).len();
            &&& dec_i64_at(buf, 0) == Some((v.number as i64, p1))
            &&& dec_bool_at(buf, p1) == Some((v.buy, p2))
            &&& dec_str_at(buf, p2) == Some((v.token_addr, p3))
        }),
{
    let buf = enc_order(v);
    let p1 = enc_i64(v.number as i64).len() as int;
    let p2 = p1 + enc_bool(v.buy).len();
    lemma_order_split(v);
    lemma_dec_enc_i64(buf, 0, v.number as i64);
    lemma_dec_enc_bool(buf, p1, v.buy);
    lemma_dec_enc_str(buf, p2, v.token_addr);
}

/// The order's asset metadata and three amounts decode in sequence from
/// the back of its encoding.
#[verifier::rlimit(100)]
proof fn lemma_order_fields_high(v: OrderView)
    requires
        order_encodable(v),
    ensures
        ({
            let buf = enc_order(v);
            let p3 = enc_i64(v.number as i64).len() + enc_bool(v.buy).len() + enc_str(
                v.token_addr,
            ).len() as int;
            let p4 = p3 + enc_ss_table(v.token_meta).len();
            let p5 = p4 + enc_i128(v.price as i128).len();
            let p6 = p5 + enc_i128(v.purse as i128).len();
            &&& buf.len() == p6 + enc_i128(v.payment as i128).len()
            &&& dec_ss_table_at(buf, p3) == Some((v.token_meta, p4))
            &&& dec_i128_at(buf, p4) == Some((v.price as i128, p5))
            &&& dec_i128_at(buf, p5) == Some((v.purse as i128, p6))
            &&& dec_i128_at(buf, p6) == Some((v.payment as i128, buf.len() as int))
        }),
{
    let buf = enc_order(v);
    let p3 = enc_i64(v.number as i64).len() + enc_bool(v.buy).len() + enc_str(
        v.token_addr,
    ).len() as int;
    let p4 = p3 + enc_ss_table(v.token_meta).len();
    let p5 = p4 + enc_i128(v.price as i128).len();
    let p6 = p5 + enc_i128(v.purse as i128).len();
    lemma_order_split(v);
    lemma_dec_enc_ss_table(buf, p3, v.token_meta);
    lemma_dec_enc_i128(buf, p4, v.price as i128);
    lemma_dec_enc_i128(buf, p5, v.purse as i128);
    lemma_dec_enc_i128(buf, p6, v.payment as i128);
}

/// A buffer on which every field of an order decodes in sequence
/// decodes as that order.
proof fn lemma_order_assemble(
    buf: Seq<u8>,
    v: OrderView,
    p1: int,
    p2: int,
    p3: int,
    p4: int,
    p5: int,
    p6: int,
    end: int,
)
    requires
        i64::MIN <= v.number <= i64::MAX,
        i128::MIN <= v.price <= i128::MAX,
        i128::MIN <= v.purse <= i128::MAX,
        i128::MIN <= v.payment <= i128::MAX,
        dec_i64_at(buf, 0) == Some((v.number as i64, p1)),
        dec_bool_at(buf, p1) == Some((v.buy, p2)),
        dec_str_at(buf, p2) == Some((v.token_addr, p3)),
        dec_ss_table_at(buf, p3) == Some((v.token_meta, p4)),
        dec_i128_at(buf, p4) == Some((v.price as i128, p5)),
        dec_i128_at(buf, p5) == Some((v.purse as i128, p6)),
        dec_i128_at(buf, p6) == Some((v.payment as i128, end)),
    ensures
        dec_order_at(buf, 0) == Some((v, end)),
{
    assert(dec_order_at(buf, 0).unwrap().0 =~= v);
}

/// Decoding an order's encoding yields an order with exactly the same
/// observable fields.
#[verifier::rlimit(100)]
pub proof fn lemma_order_round_trip(v: OrderView)
    requires
        order_encodable(v),
    ensures
        dec_order_at(enc_order(v), 0) == Some((v, enc_order(v).len() as int)),
{
    let buf = enc_order(v);
    let e1 = enc_i64(v.number as i64);
    let e2 = enc_bool(v.buy);
    let e3 = enc_str(v.token_addr);
    let e4 = enc_ss_table(v.token_meta);
    let e5 = enc_i128(v.price as i128);
    let e6 = enc_i128(v.purse as i128);
    let p1 = e1.len() as int;
    let p2 = p1 + e2.len();
    let p3 = p2 + e3.len();
    let p4 = p3 + e4.len();
    let p5 = p4 + e5.len();
    let p6 = p5 + e6.len();
    lemma_order_fields_low(v);
    lemma_order_fields_high(v);
    lemma_order_assemble(buf, v, p1, p2, p3, p4, p5, p6, buf.len() as int);
}

impl Order {
    /// A sell order is filled when its purse is empty; a buy order is
    /// filled when its escrow is empty or cannot cover one unit at the
    /// limit price.
    pub open spec fn spec_is_filled(self) -> bool {
        if self.buy {
            self.payment@ == 0 || self.payment@ < self.price@
        } else {
            self.purse@ == 0
        }
    }

    /// A market order carries the permanent price sentinel zero.
    pub open spec fn spec_is_market_order(self) -> bool {
        self.price@ == 0
    }

    /// The buy side of the order's tag.
    pub open spec fn spec_is_buy_order(self) -> bool {
        self.buy
    }

    /// The sell side of the order's tag.
    pub open spec fn spec_is_sell_order(self) -> bool {
        !self.buy
    }

    /// The symbol of the traded asset from its metadata. Fails exactly
    /// when the metadata has no `"symbol"` entry.
    pub fn token_symbol(&self) -> (r: Result<String, MetadataError>)
        ensures
            match spec_lookup(self.token.meta(), symbol_key()) {
                Some(v) => r matches Ok(s) && s@ == v,
                None => r matches Err(e) && e == MetadataError::MissingSymbol,
            },
    {
        self.token.symbol()
    }

    /// Whether the order is economically exhausted: an empty purse for a
    /// sell, an empty or under-funded escrow for a buy. Both buy cases
    /// must count as done, else settlement would attempt fills that
    /// cannot complete.
    pub fn is_filled(&self) -> (r: bool)
        ensures
            r == self.spec_is_filled(),
            !self.buy ==> r == (self.purse@ == 0),
            self.buy ==> r == (self.payment@ == 0 || self.payment@ < self.price@),
    {
        if self.buy {
            self.payment.is_zero() || self.payment.lt(&self.price)
        } else {
            self.purse.is_zero()
        }
    }

    /// Whether the order is to be filled at the prevailing market price
    /// rather than at a stored limit price.
    pub fn is_market_order(&self) -> (r: bool)
        ensures
            r == self.spec_is_market_order(),
            r == (self.price@ == 0),
    {
        self.price.is_zero()
    }

    /// Whether this is a buy order.
    pub fn is_buy_order(&self) -> (r: bool)
        ensures
            r == self.spec_is_buy_order(),
            r == self.buy,
    {
        self.buy
    }

    /// Whether this is a sell order.
    pub fn is_sell_order(&self) -> (r: bool)
        ensures
            r == self.spec_is_sell_order(),
            r == !self.buy,
    {
        !self.is_buy_order()
    }

    /// The order's stable byte encoding.
    pub fn to_bytes(&self) -> (r: Vec<u8>)
        ensures
            r@ == enc_order(self@),
    {
        let mut out: Vec<u8> = Vec::new();
        write_i64(self.number, &mut out);
        write_bool(self.buy, &mut out);
        write_str(self.token.address(), &mut out);
        self.token.metadata().write_into(&mut out);
        write_i128(self.price.subunits(), &mut out);
        write_i128(self.purse.subunits(), &mut out);
        write_i128(self.payment.subunits(), &mut out);
        proof {
            crate::decimal::lemma_decimal_in_range(self.price);
            crate::decimal::lemma_decimal_in_range(self.purse);
            crate::decimal::lemma_decimal_in_range(self.payment);
            assert(out@ =~= enc_order(self@));
        }
        out
    }

    /// The order encoded in the given bytes, or `None` if they are not
    /// exactly one order's encoding.
    pub fn from_bytes(data: &Vec<u8>) -> (r: Option<Order>)
        ensures
            match dec_order_at(data@, 0) {
                Some(p) => {
                    if p.1 == data@.len() {
                        r matches Some(o) && o@ == p.0
                    } else {
                        r is None
                    }
                },
                None => r is None,
            },
    {
        let number = match read_i64(data, 0) {
            Some(p) => p,
            None => { return None },
        };
        let buy = match read_bool(data, number.1) {
            Some(p) => p,
            None => { return None },
        };
        let addr = match read_str(data, buy.1) {
            Some(p) => p,
            None => { return None },
        };
        let meta = match Metadata::read_from(data, addr.1) {
            Some(p) => p,
            None => { return None },
        };
        let price = match read_i128(data, meta.1) {
            Some(p) => p,
            None => { return None },
        };
        let purse = match read_i128(data, price.1) {
            Some(p) => p,
            None => { return None },
        };
        let payment = match read_i128(data, purse.1) {
            Some(p) => p,
            None => { return None },
        };
        if payment.1 != data.len() {
            return None;
        }
        let o = Order {
            number: number.0,
            buy: buy.0,
            token: ResourceDef::new(addr.0, meta.0),
            price: Decimal::new(price.0),
            purse: Decimal::new(purse.0),
            payment: Decimal::new(payment.0),
        };
        proof {
            assert(o@ =~= dec_order_at(data@, 0).unwrap().0);
        }
        Some(o)
    }
}

/// Every order is exactly one of a buy and a sell: the two side
/// predicates are complementary.
pub proof fn lemma_sides_complementary(o: Order)
    ensures
        o.spec_is_buy_order() == !o.spec_is_sell_order(),
{
}

/// Market-order classification depends on the price field alone: it is
/// unchanged by any mutation of `purse` or `payment` (or of any field
/// other than `price`).
pub proof fn lemma_market_order_invariant(before: Order, after: Order)
    requires
        after.price == before.price,
    ensures
        after.spec_is_market_order() == before.spec_is_market_order(),
{
}

/// A claim token proving ownership of an order: a durable, transferable
/// receipt whose contents stay stable independent of the mutable order
/// record it references.
#[derive(Debug)]
pub struct OrderTicket {
    /// The number of the order this ticket claims.
    pub order_number: i64,
    /// The address of the order's traded asset.
    pub order_token_address: String,
    /// The symbol of the market currency the order trades against.
    pub order_currency: String,
}

} // verus!
