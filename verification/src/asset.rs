//! Asset identity and metadata.
//!
//! An asset is identified by its address, a string handle. The host's
//! registry supplies a key-value metadata table for each asset; the
//! marketplace reads the `"symbol"` entry to key its price index and to
//! label order tickets. A missing `"symbol"` entry is a caller-visible
//! error, never silently defaulted: a substituted placeholder would
//! corrupt price-index keys and ticket contents.

use vstd::prelude::*;

use crate::codec::{dec_ss_table_at, enc_ss_table, ss_obs, read_ss_table, write_ss_table};

verus! {

/// Failure of a metadata read.
#[derive(Clone, Copy, Debug, PartialEq, Eq, Structural)]
pub enum MetadataError {
    /// The asset's metadata table has no `"symbol"` entry.
    MissingSymbol,
}

/// The metadata key under which an asset's symbol is stored.
pub open spec fn symbol_key() -> Seq<char> {
    "symbol"@
}

/// The value bound to `key` in a table read back to front, so that a
/// later entry for the same key overrides an earlier one.
pub open spec fn spec_lookup(table: Seq<(Seq<char>, Seq<char>)>, key: Seq<char>) -> Option<
    Seq<char>,
>
    decreases table.len(),
{
    if table.len() == 0 {
        None
    } else if table.last().0 == key {
        Some(table.last().1)
    } else {
        spec_lookup(table.drop_last(), key)
    }
}

/// A key-value metadata table for one asset, as handed out by the host's
/// registry. Lookup returns the most recently added binding of a key.
#[derive(Debug)]
pub struct Metadata {
    entries: Vec<(String, String)>,
}

impl View for Metadata {
    type V = Seq<(Seq<char>, Seq<char>)>;

    closed spec fn view(&self) -> Seq<(Seq<char>, Seq<char>)> {
        self.entries@.map_values(|p: (String, String)| (p.0@, p.1@))
    }
}

impl Metadata {
    /// An empty metadata table.
    pub fn new() -> (r: Metadata)
        ensures
            r@ =~= Seq::<(Seq<char>, Seq<char>)>::empty(),
    {
        Metadata { entries: Vec::new() }
    }

    /// Adds a binding; it overrides any earlier binding of the same key.
    pub fn add(&mut self, key: String, value: String)
        ensures
            final(self)@ =~= old(self)@.push((key@, value@)),
    {
        self.entries.push((key, value));
    }

    /// The number of bindings in the table.
    pub fn len(&self) -> (r: usize)
        ensures
            r == self@.len(),
    {
        self.entries.len()
    }

    /// Appends the table's stable byte encoding: its entry count, then
    /// each key and value in order.
    pub fn write_into(&self, out: &mut Vec<u8>)
        ensures
            final(out)@ == old(out)@ + enc_ss_table(self@),
    {
        assert(ss_obs(self.entries@) =~= self@);
        write_ss_table(&self.entries, out);
    }

    /// Reads a table back from its byte encoding at `pos`.
    pub fn read_from(data: &Vec<u8>, pos: usize) -> (r: Option<(Metadata, usize)>)
        ensures
            match dec_ss_table_at(data@, pos as int) {
                Some(p) => r matches Some(q) && q.0@ == p.0 && q.1 as int == p.1,
                None => r is None,
            },
    {
        match read_ss_table(data, pos) {
            Some((entries, end)) => {
                let m = Metadata { entries };
                assert(m@ =~= ss_obs(m.entries@));
                Some((m, end))
            },
            None => None,
        }
    }

    /// The value bound to `key`, or `None` if the table has no such key.
    pub fn get(&self, key: &String) -> (r: Option<String>)
        ensures
            match spec_lookup(self@, key@) {
                Some(v) => r matches Some(s) && s@ == v,
                None => r is None,
            },
    {
        let mut i: usize = self.entries.len();
        assert(self@.take(i as int) =~= self@);
        while i > 0
            invariant
                i <= self.entries.len(),
                spec_lookup(self@, key@) == spec_lookup(self@.take(i as int), key@),
            decreases i,
        {
            i = i - 1;
            let entry = &self.entries[i];
            if entry.0 == *key {
                assert(self@.take(i as int + 1).last() == (entry.0@, entry.1@));
                return Some(entry.1.clone());
            }
            assert(self@.take(i as int + 1).drop_last() =~= self@.take(i as int));
        }
        assert(self@.take(0) =~= Seq::<(Seq<char>, Seq<char>)>::empty());
        None
    }
}

/// An asset handle: the asset's address together with the registry
/// metadata the marketplace reads for it.
#[derive(Debug)]
pub struct ResourceDef {
    address: String,
    metadata: Metadata,
}

impl ResourceDef {
    /// The asset's address.
    pub closed spec fn addr(&self) -> Seq<char> {
        self.address@
    }

    /// The asset's metadata table.
    pub closed spec fn meta(&self) -> Seq<(Seq<char>, Seq<char>)> {
        self.metadata@
    }

    /// An asset handle for the given address, carrying the given
    /// registry metadata.
    pub fn new(address: String, metadata: Metadata) -> (r: ResourceDef)
        ensures
            r.addr() == address@,
            r.meta() == metadata@,
    {
        ResourceDef { address, metadata }
    }

    /// The asset's address.
    pub fn address(&self) -> (r: &String)
        ensures
            r@ == self.addr(),
    {
        &self.address
    }

    /// The asset's metadata table.
    pub fn metadata(&self) -> (r: &Metadata)
        ensures
            r@ == self.meta(),
    {
        &self.metadata
    }

    /// The asset's symbol from its metadata. Fails exactly when the
    /// metadata has no `"symbol"` entry; the failure is surfaced, never
    /// defaulted.
    pub fn symbol(&self) -> (r: Result<String, MetadataError>)
        ensures
            match spec_lookup(self.meta(), symbol_key()) {
                Some(v) => r matches Ok(s) && s@ == v,
                None => r matches Err(e) && e == MetadataError::MissingSymbol,
            },
    {
        let key: String = "symbol".to_owned();
        match self.metadata.get(&key) {
            Some(s) => Ok(s),
            None => Err(MetadataError::MissingSymbol),
        }
    }
}

} // verus!
