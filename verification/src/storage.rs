//! The table of wallets: an ordered map from public keys to wallet records.

use vstd::prelude::*;
use crate::crypto::{
    lemma_precedes_irreflexive, lemma_precedes_transitive, precedes, KeyOrder, PublicKey,
};
use crate::ledger::{
    is_listing_of, keys_increase, lemma_listed_is_finite, lemma_listing_determines_map,
    lemma_listing_insert, lemma_listing_replace, lemma_listing_unique, lemma_map_of_listing,
    listing_of, map_of, Ledger,
};
use crate::schema::{Wallet, WalletView};

verus! {

/// A key and the record stored under it.
struct Entry {
    key: PublicKey,
    value: Wallet,
}

/// A table from public keys to wallets, kept in increasing order of the
/// keys. It is viewed as the [`Ledger`] of the records that it holds.
///
/// Records are added and replaced, never removed.
pub struct WalletIndex {
    entries: Vec<Entry>,
}

impl View for WalletIndex {
    type V = Ledger;

    closed spec fn view(&self) -> Ledger {
        map_of(self.listing())
    }
}

impl WalletIndex {
    /// The entries of the table, in the order in which they are held.
    spec fn listing(&self) -> Seq<(Seq<u8>, WalletView)> {
        Seq::new(self.entries@.len(), |i: int| (self.entries@[i].key@, self.entries@[i].value@))
    }

    /// The invariant of the table: its keys stand in strictly increasing order.
    pub closed spec fn wf(&self) -> bool {
        keys_increase(self.listing())
    }

    /// A well-formed table holds finitely many wallets, each under a key of
    /// 32 bytes, and is listed in key order by [`listing_of`].
    pub proof fn lemma_view(&self)
        requires
            self.wf(),
        ensures
            self@.dom().finite(),
            forall|key: Seq<u8>| self@.contains_key(key) ==> key.len() == 32,
            is_listing_of(listing_of(self@), self@),
    {
        self.lemma_listing();
        lemma_listed_is_finite(self.listing(), self@);
        assert forall|key: Seq<u8>| self@.contains_key(key) implies key.len() == 32 by {
            let listing = self.listing();
            let i = choose|i: int| #![trigger listing[i]] 0 <= i < listing.len() && listing[i].0 == key;
            self.entries@[i].key.lemma_len();
        }
    }

    /// The entries held are the listing of the view.
    proof fn lemma_listing(&self)
        requires
            self.wf(),
        ensures
            is_listing_of(self.listing(), self@),
            self.listing() == listing_of(self@),
    {
        lemma_map_of_listing(self.listing());
        lemma_listing_unique(self.listing(), listing_of(self@), self@);
    }

    /// Makes an empty table.
    pub fn new() -> (index: WalletIndex)
        ensures
            index.wf(),
            index@ == Map::<Seq<u8>, WalletView>::empty(),
    {
        let index = WalletIndex { entries: Vec::new() };
        assert(index@ =~= Map::<Seq<u8>, WalletView>::empty());
        index
    }

    /// Looks for `key` by bisection. Returns the position of its entry and
    /// `true`, or the position at which an entry for it belongs and `false`.
    fn search(&self, key: &PublicKey) -> (found: (usize, bool))
        requires
            self.wf(),
        ensures
            found.0 <= self.entries@.len(),
            found.1 ==> found.0 < self.entries@.len() && self.listing()[found.0 as int].0 == key@,
            !found.1 ==> forall|i: int|
                #![trigger self.listing()[i]]
                0 <= i < found.0 ==> precedes(self.listing()[i].0, key@),
            !found.1 ==> forall|i: int|
                #![trigger self.listing()[i]]
                found.0 <= i < self.entries@.len() ==> precedes(key@, self.listing()[i].0),
    {
        let ghost listing = self.listing();
        let mut low: usize = 0;
        let mut high: usize = self.entries.len();
        while low < high
            invariant
                self.wf(),
                listing == self.listing(),
                low <= high <= self.entries@.len(),
                forall|i: int| #![trigger listing[i]] 0 <= i < low ==> precedes(listing[i].0, key@),
                forall|i: int|
                    #![trigger listing[i]]
                    high <= i < self.entries@.len() ==> precedes(key@, listing[i].0),
            decreases high - low,
        {
            let middle: usize = low + (high - low) / 2;
            match self.entries[middle].key.compare(key) {
                KeyOrder::Equal => {
                    return (middle, true);
                },
                KeyOrder::Less => {
                    assert forall|i: int| #![trigger listing[i]] 0 <= i < middle + 1 implies precedes(
                        listing[i].0,
                        key@,
                    ) by {
                        if i < middle {
                            assert(precedes(listing[i].0, listing[middle as int].0));
                            lemma_precedes_transitive(listing[i].0, listing[middle as int].0, key@);
                        }
                    }
                    low = middle + 1;
                },
                KeyOrder::Greater => {
                    assert forall|i: int|
                        #![trigger listing[i]]
                        middle <= i < self.entries@.len() implies precedes(key@, listing[i].0) by {
                        if middle < i {
                            assert(precedes(listing[middle as int].0, listing[i].0));
                            lemma_precedes_transitive(key@, listing[middle as int].0, listing[i].0);
                        }
                    }
                    high = middle;
                },
            }
        }
        (low, false)
    }

    /// Absence of a key that stands strictly between two neighbours.
    proof fn lemma_absent(&self, key: Seq<u8>, at: int)
        requires
            self.wf(),
            0 <= at <= self.entries@.len(),
            forall|i: int|
                #![trigger self.listing()[i]]
                0 <= i < at ==> precedes(self.listing()[i].0, key),
            forall|i: int|
                #![trigger self.listing()[i]]
                at <= i < self.entries@.len() ==> precedes(key, self.listing()[i].0),
        ensures
            !self@.contains_key(key),
    {
        let listing = self.listing();
        lemma_precedes_irreflexive(key);
        if self@.contains_key(key) {
            let i = choose|i: int| #![trigger listing[i]] 0 <= i < listing.len() && listing[i].0 == key;
            if i < at {
                assert(precedes(listing[i].0, key));
            } else {
                assert(precedes(key, listing[i].0));
            }
        }
    }

    /// Whether a wallet is stored under `key`.
    pub fn contains(&self, key: &PublicKey) -> (present: bool)
        requires
            self.wf(),
        ensures
            present == self@.contains_key(key@),
    {
        let (at, found) = self.search(key);
        proof {
            if found {
                self.lemma_listing();
                assert(self@.contains_key(self.listing()[at as int].0));
            } else {
                self.lemma_absent(key@, at as int);
            }
        }
        found
    }

    /// The wallet stored under `key`, if there is one.
    pub fn get(&self, key: &PublicKey) -> (wallet: Option<Wallet>)
        requires
            self.wf(),
        ensures
            wallet is Some <==> self@.contains_key(key@),
            wallet matches Some(w) ==> w@ == self@[key@],
    {
        let (at, found) = self.search(key);
        if found {
            proof {
                self.lemma_listing();
                assert(self@.contains_key(self.listing()[at as int].0));
            }
            Some(self.entries[at].value.clone())
        } else {
            proof {
                self.lemma_absent(key@, at as int);
            }
            None
        }
    }

    /// Stores `value` under `key`, in place of the wallet stored there
    /// before, if there was one. No other key is touched.
    pub fn put(&mut self, key: &PublicKey, value: Wallet)
        requires
            old(self).wf(),
        ensures
            final(self).wf(),
            final(self)@ == old(self)@.insert(key@, value@),
    {
        let (at, found) = self.search(key);
        let ghost before = self.listing();
        let ghost record = value@;
        proof {
            self.lemma_listing();
        }
        if found {
            self.entries.set(at, Entry { key: *key, value });
            proof {
                lemma_listing_replace(before, old(self)@, at as int, record);
                assert(self.listing() =~= before.update(at as int, (key@, record)));
            }
        } else {
            self.entries.insert(at, Entry { key: *key, value });
            proof {
                lemma_listing_insert(before, old(self)@, at as int, key@, record);
                assert(self.listing() =~= before.insert(at as int, (key@, record)));
            }
        }
        proof {
            lemma_map_of_listing(self.listing());
            lemma_listing_determines_map(self.listing(), self@, old(self)@.insert(key@, record));
        }
    }

    /// The keys of the table, in increasing order.
    pub fn keys(&self) -> (keys: Vec<PublicKey>)
        requires
            self.wf(),
        ensures
            keys@.len() == listing_of(self@).len(),
            forall|i: int| 0 <= i < keys@.len() ==> (#[trigger] keys@[i])@ == listing_of(self@)[i].0,
    {
        proof {
            self.lemma_listing();
        }
        let mut keys: Vec<PublicKey> = Vec::new();
        let mut i: usize = 0;
        while i < self.entries.len()
            invariant
                i <= self.entries@.len(),
                keys@.len() == i,
                forall|j: int| 0 <= j < i ==> (#[trigger] keys@[j])@ == self.listing()[j].0,
            decreases self.entries@.len() - i,
        {
            keys.push(self.entries[i].key);
            i += 1;
        }
        keys
    }

    /// The wallets of the table, in increasing order of the keys under
    /// which they are stored.
    pub fn values(&self) -> (wallets: Vec<Wallet>)
        requires
            self.wf(),
        ensures
            wallets@.len() == listing_of(self@).len(),
            forall|i: int|
                0 <= i < wallets@.len() ==> (#[trigger] wallets@[i])@ == listing_of(self@)[i].1,
    {
        proof {
            self.lemma_listing();
        }
        let mut wallets: Vec<Wallet> = Vec::new();
        let mut i: usize = 0;
        while i < self.entries.len()
            invariant
                i <= self.entries@.len(),
                wallets@.len() == i,
                forall|j: int| 0 <= j < i ==> (#[trigger] wallets@[j])@ == self.listing()[j].1,
            decreases self.entries@.len() - i,
        {
            wallets.push(self.entries[i].value.clone());
            i += 1;
        }
        wallets
    }
}

} // verus!
