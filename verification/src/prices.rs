//! Per-symbol price index.
//!
//! One instance per marketplace maps asset symbols to the last-known
//! traded price. Entries are added or overwritten at settlement and never
//! removed, so an asset once priced stays queryable. Absence of a price
//! is a normal "no data" answer and is distinct from a stored zero price:
//! zero is a valid traded price here, not a sentinel.

use vstd::prelude::*;

use crate::asset::{spec_lookup, symbol_key, MetadataError, ResourceDef};
use crate::codec::{dec_sd_table_at, enc_sd_table, lemma_dec_enc_sd_table, read_sd_table, sd_obs,
    sd_ok, str_ok, write_sd_table};
use crate::decimal::{lemma_decimal_in_range, lemma_spec_decimal_id, spec_decimal, Decimal};

verus! {

/// The partial map described by an association list, where a later entry
/// for a key overrides an earlier one.
pub open spec fn price_map_of(s: Seq<(String, Decimal)>) -> Map<Seq<char>, Decimal>
    decreases s.len(),
{
    if s.len() == 0 {
        Map::empty()
    } else {
        price_map_of(s.drop_last()).insert(s.last().0@, s.last().1)
    }
}

/// A key is in the map exactly when some entry carries it.
proof fn lemma_price_map_contains(s: Seq<(String, Decimal)>, k: Seq<char>)
    ensures
        price_map_of(s).contains_key(k) <==> exists|i: int| 0 <= i < s.len() && s[i].0@ == k,
    decreases s.len(),
{
    if s.len() > 0 {
        lemma_price_map_contains(s.drop_last(), k);
        if s.last().0@ == k {
            assert(s[s.len() - 1].0@ == k);
        } else if price_map_of(s).contains_key(k) {
            let i = choose|i: int| 0 <= i < s.drop_last().len() && s.drop_last()[i].0@ == k;
            assert(s[i].0@ == k);
        } else {
            assert(forall|i: int|
                0 <= i < s.drop_last().len() ==> s.drop_last()[i].0@ == s[i].0@);
        }
    }
}

/// An entry whose key recurs in no later entry gives the map's value for
/// that key.
proof fn lemma_price_map_get(s: Seq<(String, Decimal)>, i: int)
    requires
        0 <= i < s.len(),
        forall|j: int| i < j < s.len() ==> s[j].0@ != s[i].0@,
    ensures
        price_map_of(s).contains_key(s[i].0@),
        price_map_of(s)[s[i].0@] == s[i].1,
    decreases s.len(),
{
    if i == s.len() - 1 {
    } else {
        assert(s.drop_last()[i] == s[i]);
        lemma_price_map_get(s.drop_last(), i);
        assert(s.last().0@ != s[i].0@);
    }
}

/// Replacing the value of the unique entry for a key updates the map at
/// that key alone.
proof fn lemma_price_map_update(s: Seq<(String, Decimal)>, i: int, key: String, price: Decimal)
    requires
        0 <= i < s.len(),
        s[i].0@ == key@,
        forall|j: int| i < j < s.len() ==> s[j].0@ != s[i].0@,
    ensures
        price_map_of(s.update(i, (key, price))) == price_map_of(s).insert(key@, price),
    decreases s.len(),
{
    let t = s.update(i, (key, price));
    if i == s.len() - 1 {
        assert(t.drop_last() =~= s.drop_last());
        assert(t.last() == (key, price));
        assert(price_map_of(t) =~= price_map_of(s).insert(key@, price));
    } else {
        assert(t.drop_last() =~= s.drop_last().update(i, (key, price)));
        assert(s.drop_last()[i] == s[i]);
        lemma_price_map_update(s.drop_last(), i, key, price);
        assert(t.last() == s.last());
        assert(s.last().0@ != key@);
        assert(price_map_of(t) =~= price_map_of(s).insert(key@, price));
    }
}

/// Appending an entry for a fresh key extends the map at that key.
proof fn lemma_price_map_push(s: Seq<(String, Decimal)>, key: String, price: Decimal)
    ensures
        price_map_of(s.push((key, price))) == price_map_of(s).insert(key@, price),
{
    assert(s.push((key, price)).drop_last() =~= s);
    assert(price_map_of(s.push((key, price))) =~= price_map_of(s).insert(key@, price));
}

/// The price index of one marketplace: each known asset symbol mapped to
/// its last-known price.
#[derive(Debug)]
pub struct MarketPrices {
    asset_prices: Vec<(String, Decimal)>,
}

impl View for MarketPrices {
    type V = Map<Seq<char>, Decimal>;

    closed spec fn view(&self) -> Map<Seq<char>, Decimal> {
        price_map_of(self.asset_prices@)
    }
}

impl MarketPrices {
    /// At most one entry per symbol.
    #[verifier::type_invariant]
    spec fn wf(self) -> bool {
        forall|i: int, j: int|
            0 <= i < j < self.asset_prices@.len() ==> self.asset_prices@[i].0@
                != self.asset_prices@[j].0@
    }

    /// An empty price index: no symbol has a price yet.
    pub fn new() -> (r: MarketPrices)
        ensures
            r@ == Map::<Seq<char>, Decimal>::empty(),
    {
        MarketPrices { asset_prices: Vec::new() }
    }

    /// All symbols with a known price, each exactly once; their order
    /// carries no meaning.
    pub fn assets(&self) -> (r: Vec<String>)
        ensures
            forall|i: int| 0 <= i < r@.len() ==> self@.contains_key(#[trigger] r@[i]@),
            forall|k: Seq<char>|
                self@.contains_key(k) ==> exists|i: int| 0 <= i < r@.len() && r@[i]@ == k,
            forall|i: int, j: int| 0 <= i < j < r@.len() ==> r@[i]@ != r@[j]@,
    {
        proof {
            use_type_invariant(&*self);
        }
        let mut r: Vec<String> = Vec::new();
        let mut i: usize = 0;
        while i < self.asset_prices.len()
            invariant
                i <= self.asset_prices.len(),
                r@.len() == i,
                forall|j: int| 0 <= j < i ==> r@[j]@ == self.asset_prices@[j].0@,
                self.wf(),
            decreases self.asset_prices.len() - i,
        {
            r.push(self.asset_prices[i].0.clone());
            i = i + 1;
        }
        proof {
            assert forall|i: int| 0 <= i < r@.len() implies self@.contains_key(
                #[trigger] r@[i]@,
            ) by {
                lemma_price_map_contains(self.asset_prices@, r@[i]@);
            }
            assert forall|k: Seq<char>| self@.contains_key(k) implies exists|i: int|
                0 <= i < r@.len() && r@[i]@ == k by {
                lemma_price_map_contains(self.asset_prices@, k);
                let i = choose|i: int|
                    0 <= i < self.asset_prices@.len() && self.asset_prices@[i].0@ == k;
                assert(r@[i]@ == k);
            }
        }
        r
    }

    /// The last-known price for the symbol, or `None` if the symbol was
    /// never priced. A zero result is a real stored price, not absence.
    pub fn get(&self, asset_symbol: String) -> (r: Option<Decimal>)
        ensures
            r == (if self@.contains_key(asset_symbol@) {
                Some(self@[asset_symbol@])
            } else {
                None::<Decimal>
            }),
    {
        proof {
            use_type_invariant(&*self);
        }
        let mut i: usize = 0;
        while i < self.asset_prices.len()
            invariant
                i <= self.asset_prices.len(),
                forall|j: int| 0 <= j < i ==> self.asset_prices@[j].0@ != asset_symbol@,
                self.wf(),
            decreases self.asset_prices.len() - i,
        {
            let entry = &self.asset_prices[i];
            if entry.0 == asset_symbol {
                proof {
                    lemma_price_map_get(self.asset_prices@, i as int);
                }
                return Some(entry.1);
            }
            i = i + 1;
        }
        proof {
            lemma_price_map_contains(self.asset_prices@, asset_symbol@);
        }
        None
    }

    /// The price for the asset behind the given handle: its symbol is
    /// read from the handle's metadata, then looked up as `get` does.
    /// Fails exactly when the metadata has no `"symbol"` entry; a missing
    /// price is not a failure but an `Ok(None)`.
    pub fn for_address(&self, resource: &ResourceDef) -> (r: Result<
        Option<Decimal>,
        MetadataError,
    >)
        ensures
            match spec_lookup(resource.meta(), symbol_key()) {
                Some(sym) => r matches Ok(p) && p == (if self@.contains_key(sym) {
                    Some(self@[sym])
                } else {
                    None::<Decimal>
                }),
                None => r matches Err(e) && e == MetadataError::MissingSymbol,
            },
    {
        match resource.symbol() {
            Ok(asset_symbol) => Ok(self.get(asset_symbol)),
            Err(e) => Err(e),
        }
    }

    /// The index of the entry for `key`, or the entry count if no entry
    /// carries it.
    fn position(&self, key: &String) -> (i: usize)
        ensures
            i <= self.asset_prices@.len(),
            i < self.asset_prices@.len() ==> self.asset_prices@[i as int].0@ == key@,
            i == self.asset_prices@.len() ==> forall|j: int|
                0 <= j < self.asset_prices@.len() ==> self.asset_prices@[j].0@ != key@,
    {
        let mut i: usize = 0;
        while i < self.asset_prices.len()
            invariant
                i <= self.asset_prices.len(),
                forall|j: int| 0 <= j < i ==> self.asset_prices@[j].0@ != key@,
            decreases self.asset_prices.len() - i,
        {
            if self.asset_prices[i].0 == *key {
                return i;
            }
            i = i + 1;
        }
        i
    }

    /// Records the symbol's last traded price, inserting it if new and
    /// overwriting any earlier price otherwise. The price is taken as
    /// settlement produced it; no sign or magnitude check is applied.
    pub fn update(&mut self, asset_symbol: String, price: Decimal)
        ensures
            final(self)@ == old(self)@.insert(asset_symbol@, price),
    {
        proof {
            use_type_invariant(&*self);
        }
        let ghost s0 = self.asset_prices@;
        let i = self.position(&asset_symbol);
        let mut entries: Vec<(String, Decimal)> = Vec::new();
        core::mem::swap(&mut self.asset_prices, &mut entries);
        if i < entries.len() {
            proof {
                lemma_price_map_update(s0, i as int, asset_symbol, price);
            }
            entries[i] = (asset_symbol, price);
            assert(forall|j: int| 0 <= j < entries@.len() && j != i ==> entries@[j] == s0[j]);
        } else {
            proof {
                lemma_price_map_push(s0, asset_symbol, price);
            }
            entries.push((asset_symbol, price));
        }
        core::mem::swap(&mut self.asset_prices, &mut entries);
    }
}

/// The price map described by a sequence of observable symbol-price
/// pairs, where a later pair for a symbol overrides an earlier one.
pub open spec fn price_map_of_pairs(s: Seq<(Seq<char>, int)>) -> Map<Seq<char>, Decimal>
    decreases s.len(),
{
    if s.len() == 0 {
        Map::empty()
    } else {
        price_map_of_pairs(s.drop_last()).insert(s.last().0, spec_decimal(s.last().1))
    }
}

/// The observable pairs of an entry list describe the same map as the
/// list itself.
proof fn lemma_map_of_pairs_obs(s: Seq<(String, Decimal)>)
    ensures
        price_map_of_pairs(sd_obs(s)) == price_map_of(s),
    decreases s.len(),
{
    if s.len() == 0 {
        assert(sd_obs(s) =~= Seq::<(Seq<char>, int)>::empty());
        assert(price_map_of_pairs(sd_obs(s)) =~= price_map_of(s));
    } else {
        assert(sd_obs(s).drop_last() =~= sd_obs(s.drop_last()));
        lemma_map_of_pairs_obs(s.drop_last());
        lemma_spec_decimal_id(s.last().1);
        assert(sd_obs(s).last() == (s.last().0@, s.last().1@));
        assert(price_map_of_pairs(sd_obs(s)) =~= price_map_of(s));
    }
}

impl MarketPrices {
    /// The price index's stable byte encoding.
    pub closed spec fn spec_to_bytes(&self) -> Seq<u8> {
        enc_sd_table(sd_obs(self.asset_prices@))
    }

    /// The index can be carried by its encoding: the entry count and
    /// every symbol fit their length prefixes.
    pub closed spec fn encodable(&self) -> bool {
        self.asset_prices@.len() < 0x1_0000_0000_0000_0000 && forall|i: int|
            0 <= i < self.asset_prices@.len() ==> str_ok(#[trigger] self.asset_prices@[i].0@)
    }

    /// The index's stable byte encoding: an entry count, then each
    /// symbol and price.
    pub fn to_bytes(&self) -> (r: Vec<u8>)
        ensures
            r@ == self.spec_to_bytes(),
    {
        let mut out: Vec<u8> = Vec::new();
        write_sd_table(&self.asset_prices, &mut out);
        assert(out@ =~= self.spec_to_bytes());
        out
    }

    /// The price index encoded in the given bytes, or `None` if they
    /// are not exactly one index's encoding.
    pub fn from_bytes(data: &Vec<u8>) -> (r: Option<MarketPrices>)
        ensures
            match dec_sd_table_at(data@, 0) {
                Some(p) => {
                    if p.1 == data@.len() {
                        r matches Some(m) && m@ == price_map_of_pairs(p.0)
                    } else {
                        r is None
                    }
                },
                None => r is None,
            },
    {
        let decoded = match read_sd_table(data, 0) {
            Some(p) => p,
            None => { return None },
        };
        if decoded.1 != data.len() {
            return None;
        }
        let entries = decoded.0;
        let ghost obs = sd_obs(entries@);
        let mut m = MarketPrices::new();
        let mut i: usize = 0;
        assert(obs.take(0) =~= Seq::<(Seq<char>, int)>::empty());
        assert(m@ =~= price_map_of_pairs(obs.take(0)));
        while i < entries.len()
            invariant
                i <= entries@.len(),
                obs == sd_obs(entries@),
                obs.len() == entries@.len(),
                forall|j: int|
                    0 <= j < entries@.len() ==> obs[j] == (entries@[j].0@, entries@[j].1@),
                dec_sd_table_at(data@, 0) == Some((obs, data@.len() as int)),
                m@ == price_map_of_pairs(obs.take(i as int)),
            decreases entries@.len() - i,
        {
            let key = entries[i].0.clone();
            let price = entries[i].1;
            m.update(key, price);
            proof {
                lemma_spec_decimal_id(price);
                assert(obs.take(i + 1).drop_last() =~= obs.take(i as int));
                assert(obs.take(i + 1).last() == obs[i as int]);
            }
            i = i + 1;
        }
        assert(obs.take(entries@.len() as int) =~= obs);
        Some(m)
    }
}

/// Decoding a price index's encoding yields exactly the index's
/// mapping, with nothing left over.
pub proof fn lemma_prices_round_trip(m: MarketPrices)
    requires
        m.encodable(),
    ensures
        ({
            let d = dec_sd_table_at(m.spec_to_bytes(), 0);
            &&& d is Some
            &&& d.unwrap().1 == m.spec_to_bytes().len()
            &&& price_map_of_pairs(d.unwrap().0) == m@
        }),
{
    let obs = sd_obs(m.asset_prices@);
    let buf = m.spec_to_bytes();
    assert(sd_ok(obs)) by {
        assert forall|i: int| 0 <= i < obs.len() implies str_ok(#[trigger] obs[i].0) && i128::MIN
            <= obs[i].1 <= i128::MAX by {
            assert(obs[i] == (m.asset_prices@[i].0@, m.asset_prices@[i].1@));
            lemma_decimal_in_range(m.asset_prices@[i].1);
        }
    }
    assert(buf.subrange(0, buf.len() as int) =~= buf);
    lemma_dec_enc_sd_table(buf, 0, obs);
    lemma_map_of_pairs_obs(m.asset_prices@);
}

/// Once a symbol's price is recorded, looking that symbol up yields
/// exactly the recorded price; a symbol that was never set stays absent,
/// it does not read as a zero price.
pub proof fn lemma_update_then_get(
    prices: Map<Seq<char>, Decimal>,
    sym: Seq<char>,
    price: Decimal,
    unset: Seq<char>,
)
    requires
        !prices.contains_key(unset),
        unset != sym,
    ensures
        prices.insert(sym, price).contains_key(sym),
        prices.insert(sym, price)[sym] == price,
        !prices.insert(sym, price).contains_key(unset),
{
}

} // verus!
