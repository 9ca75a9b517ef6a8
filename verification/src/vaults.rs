//! Per-asset custody vaults.
//!
//! One instance per marketplace holds, for each asset, at most one vault
//! with the marketplace's balance of that asset. Access is get-or-create:
//! a vault is created empty on the first access for its asset and then
//! persists for the marketplace's lifetime, so callers never need a
//! separate existence check and can never deposit into a container that
//! does not exist.

use vstd::prelude::*;

use crate::codec::{dec_sd_table_at, enc_sd_table, lemma_dec_enc_sd_table, read_sd_table, sd_obs,
    sd_ok, str_ok, write_sd_table};
use crate::decimal::{lemma_decimal_in_range, Decimal};

verus! {

/// No two slots of the sequence carry the same asset address.
pub open spec fn keys_unique(s: Seq<(Seq<char>, int)>) -> bool {
    forall|i: int, j: int| 0 <= i < j < s.len() ==> s[i].0 != s[j].0
}

/// A custody container holding the marketplace's balance of one asset.
#[derive(Debug)]
pub struct Vault {
    address: String,
    amount: Decimal,
}

impl Vault {
    /// The address of the asset this vault holds.
    pub closed spec fn addr(&self) -> Seq<char> {
        self.address@
    }

    /// The held balance, in atomic subunits.
    pub closed spec fn balance(&self) -> int {
        self.amount@
    }

    /// An empty vault for the given asset.
    pub fn new(address: String) -> (r: Vault)
        ensures
            r.addr() == address@,
            r.balance() == 0,
    {
        Vault { address, amount: Decimal::zero() }
    }

    /// The address of the asset this vault holds.
    pub fn resource_address(&self) -> (r: &String)
        ensures
            r@ == self.addr(),
    {
        &self.address
    }

    /// The held balance.
    pub fn amount(&self) -> (r: Decimal)
        ensures
            r@ == self.balance(),
    {
        self.amount
    }
}

/// Whether some slot of the mapping is keyed by the given address.
pub open spec fn spec_contains(s: Seq<(Seq<char>, int)>, addr: Seq<char>) -> bool {
    exists|j: int| 0 <= j < s.len() && s[j].0 == addr
}

/// The mapping after a get-or-create access for the given address: it is
/// unchanged when a vault for the address exists, and grows one empty
/// vault for the address otherwise.
pub open spec fn spec_get_state(s: Seq<(Seq<char>, int)>, addr: Seq<char>) -> Seq<
    (Seq<char>, int),
> {
    if spec_contains(s, addr) {
        s
    } else {
        s.push((addr, 0))
    }
}

/// The custody vaults of one marketplace, viewed as the sequence of
/// (asset address, balance) slots; at most one slot per asset.
#[derive(Debug)]
pub struct TokenVaults {
    vaults: Vec<Vault>,
}

impl View for TokenVaults {
    type V = Seq<(Seq<char>, int)>;

    closed spec fn view(&self) -> Seq<(Seq<char>, int)> {
        self.vaults@.map_values(|v: Vault| (v.addr(), v.balance()))
    }
}

impl TokenVaults {
    /// At most one vault per asset address.
    #[verifier::type_invariant]
    spec fn wf(self) -> bool {
        forall|i: int, j: int|
            0 <= i < j < self.vaults@.len() ==> self.vaults@[i].addr() != self.vaults@[j].addr()
    }

    /// An empty custody mapping: no asset has a vault yet.
    pub fn new() -> (r: TokenVaults)
        ensures
            r@ =~= Seq::<(Seq<char>, int)>::empty(),
    {
        TokenVaults { vaults: Vec::new() }
    }

    /// The number of vaults, one per asset accessed so far.
    pub fn len(&self) -> (r: usize)
        ensures
            r == self@.len(),
    {
        self.vaults.len()
    }

    /// The slot of the vault for `asset`, creating an empty vault first
    /// if the asset has none. The returned index is the one slot for the
    /// asset: a repeated access yields the same slot and creates nothing.
    pub fn get(&mut self, asset: &String) -> (i: usize)
        ensures
            final(self)@ == spec_get_state(old(self)@, asset@),
            i < final(self)@.len(),
            final(self)@[i as int].0 == asset@,
            forall|j: int| 0 <= j < final(self)@.len() && final(self)@[j].0 == asset@ ==> j == i,
            spec_contains(old(self)@, asset@) ==> i < old(self)@.len(),
            !spec_contains(old(self)@, asset@) ==> i == old(self)@.len() && final(self)@[i as int]
                == (asset@, 0int),
    {
        proof {
            use_type_invariant(&*self);
        }
        let ghost s0 = self@;
        let mut i: usize = 0;
        while i < self.vaults.len()
            invariant
                i <= self.vaults.len(),
                forall|j: int| 0 <= j < i ==> self.vaults@[j].addr() != asset@,
                self.wf(),
            decreases self.vaults.len() - i,
        {
            if *self.vaults[i].resource_address() == *asset {
                proof {
                    assert(self@[i as int].0 == asset@);
                }
                return i;
            }
            i = i + 1;
        }
        proof {
            assert(forall|j: int| 0 <= j < s0.len() ==> s0[j].0 != asset@);
            assert(!spec_contains(s0, asset@));
        }
        let vault = Vault::new(asset.clone());
        let mut vaults: Vec<Vault> = Vec::new();
        core::mem::swap(&mut self.vaults, &mut vaults);
        vaults.push(vault);
        core::mem::swap(&mut self.vaults, &mut vaults);
        proof {
            assert(self@ =~= s0.push((asset@, 0int)));
        }
        i
    }

    /// The balance held in the given slot.
    pub fn amount_at(&self, i: usize) -> (r: Decimal)
        requires
            i < self@.len(),
        ensures
            r@ == self@[i as int].1,
    {
        self.vaults[i].amount()
    }

    /// The asset address of the given slot.
    pub fn address_at(&self, i: usize) -> (r: &String)
        requires
            i < self@.len(),
        ensures
            r@ == self@[i as int].0,
    {
        self.vaults[i].resource_address()
    }

    /// Adds an amount to the balance of the given slot; every other slot
    /// is untouched.
    pub fn deposit(&mut self, i: usize, amount: Decimal)
        requires
            i < old(self)@.len(),
            i128::MIN <= old(self)@[i as int].1 + amount@ <= i128::MAX,
        ensures
            final(self)@ == old(self)@.update(
                i as int,
                (old(self)@[i as int].0, old(self)@[i as int].1 + amount@),
            ),
    {
        proof {
            use_type_invariant(&*self);
        }
        let ghost s0 = self@;
        let address = self.vaults[i].resource_address().clone();
        let new_amount = self.vaults[i].amount().plus(&amount);
        let mut vaults: Vec<Vault> = Vec::new();
        core::mem::swap(&mut self.vaults, &mut vaults);
        vaults[i] = Vault { address, amount: new_amount };
        core::mem::swap(&mut self.vaults, &mut vaults);
        proof {
            assert(self@ =~= s0.update(i as int, (s0[i as int].0, s0[i as int].1 + amount@)));
        }
    }

    /// Removes an amount, at most the held balance, from the given slot;
    /// every other slot is untouched.
    pub fn withdraw(&mut self, i: usize, amount: Decimal)
        requires
            i < old(self)@.len(),
            0 <= amount@ <= old(self)@[i as int].1,
        ensures
            final(self)@ == old(self)@.update(
                i as int,
                (old(self)@[i as int].0, old(self)@[i as int].1 - amount@),
            ),
    {
        proof {
            use_type_invariant(&*self);
        }
        let ghost s0 = self@;
        let address = self.vaults[i].resource_address().clone();
        let held = self.vaults[i].amount();
        proof {
            crate::decimal::lemma_decimal_in_range(held);
        }
        let new_amount = held.minus(&amount);
        let mut vaults: Vec<Vault> = Vec::new();
        core::mem::swap(&mut self.vaults, &mut vaults);
        vaults[i] = Vault { address, amount: new_amount };
        core::mem::swap(&mut self.vaults, &mut vaults);
        proof {
            assert(self@ =~= s0.update(i as int, (s0[i as int].0, s0[i as int].1 - amount@)));
        }
    }
}

impl TokenVaults {
    /// The mapping can be carried by its encoding: the vault count and
    /// every address fit their length prefixes.
    pub open spec fn encodable(&self) -> bool {
        self@.len() < 0x1_0000_0000_0000_0000 && forall|i: int|
            0 <= i < self@.len() ==> str_ok(#[trigger] self@[i].0)
    }

    /// The mapping's stable byte encoding: a vault count, then each
    /// asset address and balance.
    pub fn to_bytes(&self) -> (r: Vec<u8>)
        ensures
            r@ == enc_sd_table(self@),
            keys_unique(self@),
    {
        proof {
            use_type_invariant(&*self);
            assert forall|a: int, b: int| 0 <= a < b < self@.len() implies self@[a].0
                != self@[b].0 by {
                assert(self.vaults@[a].addr() != self.vaults@[b].addr());
                assert(self@[a] == (self.vaults@[a].addr(), self.vaults@[a].balance()));
                assert(self@[b] == (self.vaults@[b].addr(), self.vaults@[b].balance()));
            }
        }
        let mut pairs: Vec<(String, Decimal)> = Vec::new();
        let mut i: usize = 0;
        while i < self.vaults.len()
            invariant
                i <= self.vaults@.len(),
                pairs@.len() == i,
                forall|j: int|
                    0 <= j < i ==> (#[trigger] pairs@[j]).0@ == self@[j].0 && pairs@[j].1@
                        == self@[j].1,
            decreases self.vaults@.len() - i,
        {
            let address = self.vaults[i].resource_address().clone();
            let amount = self.vaults[i].amount();
            pairs.push((address, amount));
            i = i + 1;
        }
        assert(sd_obs(pairs@) =~= self@);
        let mut out: Vec<u8> = Vec::new();
        write_sd_table(&pairs, &mut out);
        assert(out@ =~= enc_sd_table(self@));
        out
    }

    /// The custody mapping encoded in the given bytes, or `None` if
    /// they are not exactly one mapping's encoding or repeat an asset.
    pub fn from_bytes(data: &Vec<u8>) -> (r: Option<TokenVaults>)
        ensures
            match dec_sd_table_at(data@, 0) {
                Some(p) => {
                    if p.1 == data@.len() && keys_unique(p.0) {
                        r matches Some(tv) && tv@ == p.0
                    } else {
                        r is None
                    }
                },
                None => r is None,
            },
    {
        let decoded = match read_sd_table(data, 0) {
            Some(p) => p,
            None => { return None },
        };
        if decoded.1 != data.len() {
            return None;
        }
        let entries = decoded.0;
        let ghost obs = sd_obs(entries@);
        let mut tv = TokenVaults::new();
        let mut i: usize = 0;
        assert(obs.take(0) =~= Seq::<(Seq<char>, int)>::empty());
        assert(tv@ =~= obs.take(0));
        while i < entries.len()
            invariant
                i <= entries@.len(),
                obs == sd_obs(entries@),
                obs.len() == entries@.len(),
                forall|j: int|
                    0 <= j < entries@.len() ==> obs[j] == (entries@[j].0@, entries@[j].1@),
                dec_sd_table_at(data@, 0) == Some((obs, data@.len() as int)),
                tv@ == obs.take(i as int),
            decreases entries@.len() - i,
        {
            let n0 = tv.len();
            let idx = tv.get(&entries[i].0);
            if idx < n0 {
                proof {
                    let key = obs[i as int].0;
                    let pre = obs.take(i as int);
                    assert(spec_contains(pre, key));
                    let j = choose|j: int| 0 <= j < pre.len() && pre[j].0 == key;
                    assert(obs[j].0 == obs[i as int].0);
                    assert(!keys_unique(obs));
                }
                return None;
            }
            proof {
                lemma_decimal_in_range(entries@[i as int].1);
            }
            tv.deposit(idx, entries[i].1);
            proof {
                assert(tv@ =~= obs.take(i + 1));
            }
            i = i + 1;
        }
        assert(obs.take(entries@.len() as int) =~= obs);
        proof {
            use_type_invariant(&tv);
            assert forall|a: int, b: int| 0 <= a < b < obs.len() implies obs[a].0 != obs[b].0 by {
                assert(tv.vaults@[a].addr() != tv.vaults@[b].addr());
                assert(obs[a] == (tv.vaults@[a].addr(), tv.vaults@[a].balance()));
            }
        }
        Some(tv)
    }
}

/// Decoding a custody mapping's encoding yields exactly the mapping,
/// with nothing left over.
pub proof fn lemma_vaults_round_trip(vaults: Seq<(Seq<char>, int)>)
    requires
        sd_ok(vaults),
    ensures
        dec_sd_table_at(enc_sd_table(vaults), 0) == Some(
            (vaults, enc_sd_table(vaults).len() as int),
        ),
{
    let buf = enc_sd_table(vaults);
    assert(buf.subrange(0, buf.len() as int) =~= buf);
    lemma_dec_enc_sd_table(buf, 0, vaults);
}

/// Get-or-create never duplicates and never disturbs other vaults: after
/// an access for an asset the mapping has a vault for it, a second access
/// for the same asset leaves the mapping unchanged, and an access for any
/// asset leaves every slot that already existed exactly as it was.
pub proof fn lemma_get_or_create_stable(s: Seq<(Seq<char>, int)>, a: Seq<char>, b: Seq<char>)
    ensures
        spec_contains(spec_get_state(s, a), a),
        spec_get_state(spec_get_state(s, a), a) == spec_get_state(s, a),
        spec_get_state(s, b).len() >= s.len(),
        forall|i: int| 0 <= i < s.len() ==> spec_get_state(s, b)[i] == s[i],
{
    if !spec_contains(s, a) {
        assert(spec_get_state(s, a)[s.len() as int].0 == a);
    }
}

} // verus!
