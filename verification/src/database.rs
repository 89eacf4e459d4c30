//! The symbol database: an immutable mapping from symbol name to relative
//! virtual address, combined with the module's runtime base address. Built
//! once from the records walked out of a debug symbol database, queried many
//! times; per-name absence is fatal only to the hook requesting that name.
//!
//! Opening and parsing the database file, and asking the host for the
//! module's base address, are I/O edges that stay with the embedding
//! application; it hands the walked records here as plain values.

use vstd::prelude::*;
use crate::text::str_eq;

verus! {

/// One public symbol walked out of the debug symbol database: its name,
/// whether the database flags it as a function, and its relative virtual
/// address where the database's address-translation table could produce one.
#[derive(Clone, Debug)]
pub struct SymbolRecord {
    pub name: String,
    pub is_function: bool,
    pub rva: Option<u32>,
}

/// A record enters the map when the database flags it as a function and its
/// offset translated to a relative virtual address.
pub open spec fn record_kept(r: SymbolRecord) -> bool {
    r.is_function && r.rva is Some
}

/// A record is surfaced as skipped when it is flagged as a function but its
/// offset could not be translated — recording it at offset zero instead
/// would collapse it onto the module base address.
pub open spec fn record_skipped(r: SymbolRecord) -> bool {
    r.is_function && r.rva is None
}

/// The name/offset pairs the kept records contribute, in walk order.
pub open spec fn kept_entries(records: Seq<SymbolRecord>) -> Seq<(Seq<char>, u32)>
    decreases records.len(),
{
    if records.len() == 0 {
        Seq::empty()
    } else {
        let rest = kept_entries(records.drop_last());
        let r = records.last();
        if record_kept(r) {
            rest.push((r.name@, r.rva->Some_0))
        } else {
            rest
        }
    }
}

/// The names of the skipped records, in walk order.
pub open spec fn skipped_names(records: Seq<SymbolRecord>) -> Seq<Seq<char>>
    decreases records.len(),
{
    if records.len() == 0 {
        Seq::empty()
    } else {
        let rest = skipped_names(records.drop_last());
        let r = records.last();
        if record_skipped(r) {
            rest.push(r.name@)
        } else {
            rest
        }
    }
}

/// The offset a name resolves to among the entries: that of the last entry
/// carrying the name, as a later record for the same name replaces an
/// earlier one.
pub open spec fn lookup(entries: Seq<(Seq<char>, u32)>, name: Seq<char>) -> Option<u32>
    decreases entries.len(),
{
    if entries.len() == 0 {
        None
    } else if entries.last().0 == name {
        Some(entries.last().1)
    } else {
        lookup(entries.drop_last(), name)
    }
}

/// Why a symbol database could not be assembled from its records.
#[derive(Clone, Copy, PartialEq, Eq, Structural, Debug)]
pub enum DatabaseError {
    /// The module base address sits so high that adding a 32-bit relative
    /// address could wrap; no resolved address would be trustworthy.
    BaseOutOfRange,
}

struct MapEntry {
    name: String,
    offset: u32,
}

/// The name→address map for one loaded module: each retained public symbol's
/// relative virtual address, plus the module's runtime base address.
pub struct SymbolDatabase {
    base: u64,
    entries: Vec<MapEntry>,
}

impl SymbolDatabase {
    /// The module's runtime base address.
    pub closed spec fn spec_base(&self) -> u64 {
        self.base
    }

    /// The retained name/offset pairs, in walk order.
    pub closed spec fn entries_model(&self) -> Seq<(Seq<char>, u32)> {
        self.entries@.map(|i: int, e: MapEntry| (e.name@, e.offset))
    }

    /// Every address this database can produce fits in 64 bits.
    #[verifier::type_invariant]
    closed spec fn wf(&self) -> bool {
        self.base <= u64::MAX - (u32::MAX as u64)
    }

    /// The absolute address a name resolves to: base plus stored offset if
    /// the name is present, and nothing otherwise — no retry, no guessing.
    pub open spec fn spec_resolve(&self, name: Seq<char>) -> Option<u64> {
        match lookup(self.entries_model(), name) {
            Some(off) => Some((self.spec_base() + off) as u64),
            None => None,
        }
    }

    /// Builds the map from the records walked out of the debug symbol
    /// database. Symbols not flagged as functions are ignored; a function
    /// symbol whose offset failed address translation is skipped and its
    /// name returned for the caller to warn about, never recorded at offset
    /// zero. Fails only when the base address is too high to combine with a
    /// 32-bit offset.
    pub fn new(base: u64, records: Vec<SymbolRecord>) -> (r: Result<
        (SymbolDatabase, Vec<String>),
        DatabaseError,
    >)
        ensures
            base <= u64::MAX - (u32::MAX as u64) ==> (match r {
                Ok((db, skipped)) => {
                    &&& db.spec_base() == base
                    &&& db.entries_model() == kept_entries(records@)
                    &&& skipped.deep_view() == skipped_names(records@)
                },
                Err(_) => false,
            }),
            base > u64::MAX - (u32::MAX as u64) ==> r == Err::<(SymbolDatabase, Vec<String>),
            DatabaseError>(DatabaseError::BaseOutOfRange),
    {
        if base > u64::MAX - 0xFFFF_FFFFu64 {
            return Err(DatabaseError::BaseOutOfRange);
        }
        let mut entries: Vec<MapEntry> = Vec::new();
        let mut skipped: Vec<String> = Vec::new();
        let mut i: usize = 0;
        while i < records.len()
            invariant
                i <= records.len(),
                entries@.map(|k: int, e: MapEntry| (e.name@, e.offset)) == kept_entries(
                    records@.subrange(0, i as int),
                ),
                skipped.deep_view() == skipped_names(records@.subrange(0, i as int)),
            decreases records.len() - i,
        {
            let ghost prefix = records@.subrange(0, i as int);
            let ghost prefix1 = records@.subrange(0, i as int + 1);
            proof {
                assert(prefix1.drop_last() =~= prefix);
                assert(prefix1.last() == records@[i as int]);
            }
            let r = &records[i];
            if r.is_function {
                match r.rva {
                    Some(off) => {
                        let ghost old_entries = entries@;
                        entries.push(MapEntry { name: r.name.clone(), offset: off });
                        proof {
                            assert(entries@.map(|k: int, e: MapEntry| (e.name@, e.offset))
                                =~= old_entries.map(|k: int, e: MapEntry| (e.name@, e.offset)).push(
                                (records@[i as int].name@, off),
                            ));
                        }
                    },
                    None => {
                        let ghost old_skipped = skipped.deep_view();
                        skipped.push(r.name.clone());
                        proof {
                            assert(skipped.deep_view() =~= old_skipped.push(
                                records@[i as int].name@,
                            ));
                        }
                    },
                }
            }
            i += 1;
        }
        proof {
            assert(records@.subrange(0, records@.len() as int) =~= records@);
        }
        Ok((SymbolDatabase { base, entries }, skipped))
    }

    /// Resolves a function name to its absolute runtime address: base plus
    /// the stored relative address if the name is in the map, else `None`.
    pub fn get_function_address(&self, function_name: &str) -> (r: Option<u64>)
        ensures
            r == self.spec_resolve(function_name@),
    {
        proof {
            use_type_invariant(self);
        }
        let mut found: Option<u32> = None;
        let mut i: usize = 0;
        while i < self.entries.len()
            invariant
                self.wf(),
                i <= self.entries.len(),
                found == lookup(
                    self.entries_model().subrange(0, i as int),
                    function_name@,
                ),
            decreases self.entries.len() - i,
        {
            let ghost prefix = self.entries_model().subrange(0, i as int);
            let ghost prefix1 = self.entries_model().subrange(0, i as int + 1);
            proof {
                assert(prefix1.drop_last() =~= prefix);
            }
            if str_eq(self.entries[i].name.as_str(), function_name) {
                found = Some(self.entries[i].offset);
            }
            i += 1;
        }
        proof {
            assert(self.entries_model().subrange(0, self.entries_model().len() as int)
                =~= self.entries_model());
        }
        match found {
            Some(off) => Some(self.base + (off as u64)),
            None => None,
        }
    }
}

} // verus!
