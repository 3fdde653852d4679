//! The storage keys of the board's collections.

use vstd::prelude::*;

verus! {

/// The storage prefixes of the board's collections.
#[derive(Clone, Copy, Debug, PartialEq, Eq)]
pub enum StorageKey {
    Threads,
    OwnerId,
    ModersId,
    BansId,
    FTDeposits,
    Answers,
}

impl StorageKey {
    /// The position of the variant in the declaration, from zero.
    pub open spec fn tag(self) -> u8 {
        match self {
            StorageKey::Threads => 0,
            StorageKey::OwnerId => 1,
            StorageKey::ModersId => 2,
            StorageKey::BansId => 3,
            StorageKey::FTDeposits => 4,
            StorageKey::Answers => 5,
        }
    }

    /// The storage prefix of the key: the single byte that Borsh writes for
    /// a variant of a field-less enum, its position.
    pub fn into_storage_key(&self) -> (prefix: Vec<u8>)
        ensures
            prefix@ == seq![self.tag()],
    {
        let tag: u8 = match self {
            StorageKey::Threads => 0,
            StorageKey::OwnerId => 1,
            StorageKey::ModersId => 2,
            StorageKey::BansId => 3,
            StorageKey::FTDeposits => 4,
            StorageKey::Answers => 5,
        };
        let mut prefix: Vec<u8> = Vec::new();
        prefix.push(tag);
        prefix
    }
}

} // verus!
