//! The mathematical model of the wallet table: a finite map from key bytes
//! to wallet records, its listing in key order, and the sum of its balances.

use vstd::prelude::*;
use crate::crypto::{
    lemma_precedes_asymmetric, lemma_precedes_irreflexive, lemma_precedes_total,
    lemma_precedes_transitive, precedes,
};
use crate::schema::WalletView;

verus! {

/// What a wallet table holds: the record stored under each key.
pub type Ledger = Map<Seq<u8>, WalletView>;

/// Whether the keys of `entries` stand in strictly increasing order.
pub open spec fn keys_increase(entries: Seq<(Seq<u8>, WalletView)>) -> bool {
    forall|i: int, j: int|
        #![trigger entries[i], entries[j]]
        0 <= i < j < entries.len() ==> precedes(entries[i].0, entries[j].0)
}

/// Whether `entries` lists each key of `ledger` once, with the record stored
/// under it, in increasing order of the keys.
pub open spec fn is_listing_of(entries: Seq<(Seq<u8>, WalletView)>, ledger: Ledger) -> bool {
    &&& keys_increase(entries)
    &&& forall|i: int|
        #![trigger entries[i]]
        0 <= i < entries.len() ==> ledger.contains_key(entries[i].0) && ledger[entries[i].0]
            == entries[i].1
    &&& forall|key: Seq<u8>| #[trigger]
        ledger.contains_key(key) ==> exists|i: int|
            #![trigger entries[i]]
            0 <= i < entries.len() && entries[i].0 == key
}

/// The listing of `ledger` in key order. It is a function of the map alone:
/// tables that hold the same records list them in the same order.
pub open spec fn listing_of(ledger: Ledger) -> Seq<(Seq<u8>, WalletView)> {
    choose|entries: Seq<(Seq<u8>, WalletView)>| is_listing_of(entries, ledger)
}

/// The map that holds, under each key of `entries`, the record of an entry
/// with that key.
pub open spec fn map_of(entries: Seq<(Seq<u8>, WalletView)>) -> Ledger {
    Map::new(
        |key: Seq<u8>|
            exists|i: int| #![trigger entries[i]] 0 <= i < entries.len() && entries[i].0 == key,
        |key: Seq<u8>|
            entries[choose|i: int|
                #![trigger entries[i]]
                0 <= i < entries.len() && entries[i].0 == key].1,
    )
}

/// Entries whose keys increase are the listing of the map made of them.
pub proof fn lemma_map_of_listing(entries: Seq<(Seq<u8>, WalletView)>)
    requires
        keys_increase(entries),
    ensures
        is_listing_of(entries, map_of(entries)),
{
    let ledger = map_of(entries);
    assert forall|i: int| #![trigger entries[i]] 0 <= i < entries.len() implies ledger.contains_key(
        entries[i].0,
    ) && ledger[entries[i].0] == entries[i].1 by {
        let key = entries[i].0;
        let chosen = choose|j: int| #![trigger entries[j]] 0 <= j < entries.len() && entries[j].0 == key;
        lemma_precedes_irreflexive(key);
        if chosen < i {
            assert(precedes(entries[chosen].0, entries[i].0));
        } else if i < chosen {
            assert(precedes(entries[i].0, entries[chosen].0));
        }
    }
}

/// Two maps with the same listing are the same map.
pub proof fn lemma_listing_determines_map(
    entries: Seq<(Seq<u8>, WalletView)>,
    first: Ledger,
    second: Ledger,
)
    requires
        is_listing_of(entries, first),
        is_listing_of(entries, second),
    ensures
        first == second,
{
    assert forall|key: Seq<u8>| first.contains_key(key) implies second.contains_key(key)
        && first[key] == second[key] by {
        let i = choose|i: int| #![trigger entries[i]] 0 <= i < entries.len() && entries[i].0 == key;
        assert(second.contains_key(entries[i].0));
    }
    assert forall|key: Seq<u8>| second.contains_key(key) implies first.contains_key(key) by {
        let i = choose|i: int| #![trigger entries[i]] 0 <= i < entries.len() && entries[i].0 == key;
        assert(first.contains_key(entries[i].0));
    }
    assert(first =~= second);
}

/// Replacing the record of an entry lists the map with that record stored
/// under the entry's key.
pub proof fn lemma_listing_replace(
    entries: Seq<(Seq<u8>, WalletView)>,
    ledger: Ledger,
    at: int,
    wallet: WalletView,
)
    requires
        is_listing_of(entries, ledger),
        0 <= at < entries.len(),
    ensures
        is_listing_of(
            entries.update(at, (entries[at].0, wallet)),
            ledger.insert(entries[at].0, wallet),
        ),
{
    let key = entries[at].0;
    let after = entries.update(at, (key, wallet));
    let stored = ledger.insert(key, wallet);
    assert forall|i: int, j: int|
        #![trigger after[i], after[j]]
        0 <= i < j < after.len() implies precedes(after[i].0, after[j].0) by {
        assert(precedes(entries[i].0, entries[j].0));
    }
    assert forall|i: int| #![trigger after[i]] 0 <= i < after.len() implies stored.contains_key(
        after[i].0,
    ) && stored[after[i].0] == after[i].1 by {
        if i != at {
            assert(ledger.contains_key(entries[i].0));
            lemma_precedes_irreflexive(key);
            if i < at {
                assert(precedes(entries[i].0, entries[at].0));
            } else {
                assert(precedes(entries[at].0, entries[i].0));
            }
        }
    }
    assert forall|k: Seq<u8>| #[trigger] stored.contains_key(k) implies exists|i: int|
        #![trigger after[i]]
        0 <= i < after.len() && after[i].0 == k by {
        if k == key {
            assert(after[at].0 == k);
        } else {
            assert(ledger.contains_key(k));
            let i = choose|i: int| #![trigger entries[i]] 0 <= i < entries.len() && entries[i].0 == k;
            assert(after[i].0 == k);
        }
    }
}

/// Inserting an entry between the keys that precede its key and the keys
/// that follow it lists the map with the entry's record stored under its key.
pub proof fn lemma_listing_insert(
    entries: Seq<(Seq<u8>, WalletView)>,
    ledger: Ledger,
    at: int,
    key: Seq<u8>,
    wallet: WalletView,
)
    requires
        is_listing_of(entries, ledger),
        0 <= at <= entries.len(),
        forall|i: int| #![trigger entries[i]] 0 <= i < at ==> precedes(entries[i].0, key),
        forall|i: int| #![trigger entries[i]] at <= i < entries.len() ==> precedes(key, entries[i].0),
    ensures
        is_listing_of(entries.insert(at, (key, wallet)), ledger.insert(key, wallet)),
{
    let after = entries.insert(at, (key, wallet));
    let stored = ledger.insert(key, wallet);
    assert forall|i: int| #![trigger after[i]] 0 <= i < after.len() implies after[i] == (if i < at {
        entries[i]
    } else if i == at {
        (key, wallet)
    } else {
        entries[i - 1]
    }) by {}
    assert forall|i: int, j: int|
        #![trigger after[i], after[j]]
        0 <= i < j < after.len() implies precedes(after[i].0, after[j].0) by {
        if j < at {
            assert(precedes(entries[i].0, entries[j].0));
        } else if j == at {
            assert(precedes(entries[i].0, key));
        } else if i < at {
            assert(precedes(entries[i].0, entries[j - 1].0));
        } else if i == at {
            assert(precedes(key, entries[j - 1].0));
        } else {
            assert(precedes(entries[i - 1].0, entries[j - 1].0));
        }
    }
    lemma_precedes_irreflexive(key);
    assert forall|i: int| #![trigger after[i]] 0 <= i < after.len() implies stored.contains_key(
        after[i].0,
    ) && stored[after[i].0] == after[i].1 by {
        if i < at {
            assert(ledger.contains_key(entries[i].0));
            assert(precedes(entries[i].0, key));
        } else if i > at {
            assert(ledger.contains_key(entries[i - 1].0));
            assert(precedes(key, entries[i - 1].0));
        }
    }
    assert forall|k: Seq<u8>| #[trigger] stored.contains_key(k) implies exists|i: int|
        #![trigger after[i]]
        0 <= i < after.len() && after[i].0 == k by {
        if k == key {
            assert(after[at].0 == k);
        } else {
            assert(ledger.contains_key(k));
            let i = choose|i: int| #![trigger entries[i]] 0 <= i < entries.len() && entries[i].0 == k;
            if i < at {
                assert(after[i].0 == k);
            } else {
                assert(after[i + 1].0 == k);
            }
        }
    }
}

/// Dropping the last entry of a listing gives a listing of the map without
/// the last key.
proof fn lemma_listing_drop_last(entries: Seq<(Seq<u8>, WalletView)>, ledger: Ledger)
    requires
        is_listing_of(entries, ledger),
        entries.len() > 0,
    ensures
        is_listing_of(entries.drop_last(), ledger.remove(entries.last().0)),
        ledger.contains_key(entries.last().0),
{
    let rest = entries.drop_last();
    let last = entries.last();
    let smaller = ledger.remove(last.0);
    assert(entries[entries.len() - 1] == last);
    assert forall|i: int| #![trigger rest[i]] 0 <= i < rest.len() implies smaller.contains_key(
        rest[i].0,
    ) && smaller[rest[i].0] == rest[i].1 by {
        assert(rest[i] == entries[i]);
        assert(precedes(entries[i].0, entries[entries.len() - 1].0));
        lemma_precedes_irreflexive(last.0);
    }
    assert forall|key: Seq<u8>| #[trigger] smaller.contains_key(key) implies exists|i: int|
        #![trigger rest[i]]
        0 <= i < rest.len() && rest[i].0 == key by {
        assert(ledger.contains_key(key));
        let i = choose|i: int| #![trigger entries[i]] 0 <= i < entries.len() && entries[i].0 == key;
        assert(rest[i] == entries[i]);
    }
    assert forall|i: int, j: int| #![trigger rest[i], rest[j]] 0 <= i < j < rest.len() implies precedes(
        rest[i].0,
        rest[j].0,
    ) by {
        assert(rest[i] == entries[i]);
        assert(rest[j] == entries[j]);
    }
}

/// A map that has a listing is finite, and the listing has one entry for
/// each of its keys.
pub proof fn lemma_listed_is_finite(entries: Seq<(Seq<u8>, WalletView)>, ledger: Ledger)
    requires
        is_listing_of(entries, ledger),
    ensures
        ledger.dom().finite(),
        ledger.dom().len() == entries.len(),
    decreases entries.len(),
{
    if entries.len() == 0 {
        assert(ledger.dom() =~= Set::<Seq<u8>>::empty());
    } else {
        let key = entries.last().0;
        lemma_listing_drop_last(entries, ledger);
        lemma_listed_is_finite(entries.drop_last(), ledger.remove(key));
        assert(ledger.dom() =~= ledger.remove(key).dom().insert(key));
    }
}

/// A map has at most one listing: the order of a listing depends on
/// nothing but the records that the map holds.
pub proof fn lemma_listing_unique(
    first: Seq<(Seq<u8>, WalletView)>,
    second: Seq<(Seq<u8>, WalletView)>,
    ledger: Ledger,
)
    requires
        is_listing_of(first, ledger),
        is_listing_of(second, ledger),
    ensures
        first == second,
    decreases first.len(),
{
    lemma_listed_is_finite(first, ledger);
    lemma_listed_is_finite(second, ledger);
    if first.len() == 0 {
        assert(first =~= second);
    } else {
        let a = first.last();
        let b = second.last();
        assert(first[first.len() - 1] == a);
        assert(second[second.len() - 1] == b);
        lemma_listing_drop_last(first, ledger);
        lemma_listing_drop_last(second, ledger);
        // The last key of either listing is the greatest key of the map.
        let i = choose|i: int| #![trigger first[i]] 0 <= i < first.len() && first[i].0 == b.0;
        let j = choose|j: int| #![trigger second[j]] 0 <= j < second.len() && second[j].0 == a.0;
        if a.0 != b.0 {
            assert(precedes(first[i].0, first[first.len() - 1].0));
            assert(precedes(second[j].0, second[second.len() - 1].0));
            lemma_precedes_asymmetric(a.0, b.0);
        }
        assert(a == b);
        lemma_listing_unique(first.drop_last(), second.drop_last(), ledger.remove(a.0));
        assert(first =~= first.drop_last().push(a));
        assert(second =~= second.drop_last().push(b));
    }
}

/// A finite map of wallets has a listing in key order.
pub proof fn lemma_listing_exists(ledger: Ledger)
    requires
        ledger.dom().finite(),
        forall|key: Seq<u8>| ledger.contains_key(key) ==> key.len() == 32,
    ensures
        is_listing_of(listing_of(ledger), ledger),
    decreases ledger.dom().len(),
{
    if ledger.dom().len() == 0 {
        let entries = Seq::<(Seq<u8>, WalletView)>::empty();
        assert(is_listing_of(entries, ledger)) by {
            assert forall|key: Seq<u8>| #[trigger] ledger.contains_key(key) implies false by {
                assert(ledger.dom().contains(key));
            }
        }
    } else {
        let greatest = greatest_key(ledger.dom());
        lemma_greatest_key(ledger.dom());
        let smaller = ledger.remove(greatest);
        lemma_listing_exists(smaller);
        let rest = listing_of(smaller);
        let entries = rest.push((greatest, ledger[greatest]));
        assert(is_listing_of(entries, ledger)) by {
            assert forall|i: int, j: int|
                #![trigger entries[i], entries[j]]
                0 <= i < j < entries.len() implies precedes(entries[i].0, entries[j].0) by {
                if j < rest.len() {
                    assert(entries[i] == rest[i]);
                    assert(entries[j] == rest[j]);
                } else {
                    assert(entries[i] == rest[i]);
                    assert(smaller.contains_key(rest[i].0));
                }
            }
            assert forall|i: int| #![trigger entries[i]] 0 <= i < entries.len() implies ledger.contains_key(
                entries[i].0,
            ) && ledger[entries[i].0] == entries[i].1 by {
                if i < rest.len() {
                    assert(entries[i] == rest[i]);
                    assert(smaller.contains_key(rest[i].0));
                }
            }
            assert forall|key: Seq<u8>| #[trigger] ledger.contains_key(key) implies exists|i: int|
                #![trigger entries[i]]
                0 <= i < entries.len() && entries[i].0 == key by {
                if key == greatest {
                    assert(entries[rest.len() as int].0 == key);
                } else {
                    assert(smaller.contains_key(key));
                    let i = choose|i: int| #![trigger rest[i]] 0 <= i < rest.len() && rest[i].0 == key;
                    assert(entries[i] == rest[i]);
                }
            }
        }
    }
}

/// The key of a finite, non-empty set of keys that no other key of the set
/// follows.
pub open spec fn greatest_key(keys: Set<Seq<u8>>) -> Seq<u8> {
    choose|key: Seq<u8>|
        keys.contains(key) && forall|other: Seq<u8>|
            keys.contains(other) && other != key ==> precedes(other, key)
}

/// A finite, non-empty set of keys of one length has a greatest key.
proof fn lemma_greatest_key(keys: Set<Seq<u8>>)
    requires
        keys.finite(),
        keys.len() > 0,
        forall|key: Seq<u8>| keys.contains(key) ==> key.len() == 32,
    ensures
        keys.contains(greatest_key(keys)),
        forall|other: Seq<u8>|
            keys.contains(other) && other != greatest_key(keys) ==> precedes(
                other,
                greatest_key(keys),
            ),
    decreases keys.len(),
{
    let picked = keys.choose();
    let rest = keys.remove(picked);
    if rest.len() == 0 {
        assert forall|other: Seq<u8>| keys.contains(other) && other != picked implies precedes(
            other,
            picked,
        ) by {
            assert(rest.contains(other));
        }
    } else {
        lemma_greatest_key(rest);
        let best = greatest_key(rest);
        lemma_precedes_total(picked, best);
        if precedes(picked, best) {
            assert forall|other: Seq<u8>| keys.contains(other) && other != best implies precedes(
                other,
                best,
            ) by {
                if other != picked {
                    assert(rest.contains(other));
                }
            }
        } else {
            assert forall|other: Seq<u8>| keys.contains(other) && other != picked implies precedes(
                other,
                picked,
            ) by {
                assert(rest.contains(other));
                if other != best {
                    lemma_precedes_transitive(other, best, picked);
                }
            }
        }
    }
}

/// The sum of the balances of all wallets of a finite map.
pub open spec fn total_balance(ledger: Ledger) -> nat
    decreases ledger.dom().len(),
    when ledger.dom().finite()
{
    if ledger.dom().len() == 0 {
        0
    } else {
        let key = ledger.dom().choose();
        ledger[key].balance as nat + total_balance(ledger.remove(key))
    }
}

/// The total is the balance of any one wallet plus the total of the others.
pub proof fn lemma_total_remove(ledger: Ledger, key: Seq<u8>)
    requires
        ledger.dom().finite(),
        ledger.contains_key(key),
    ensures
        total_balance(ledger) == ledger[key].balance + total_balance(ledger.remove(key)),
    decreases ledger.dom().len(),
{
    let picked = ledger.dom().choose();
    if picked != key {
        lemma_total_remove(ledger.remove(picked), key);
        lemma_total_remove(ledger.remove(key), picked);
        assert(ledger.remove(picked).remove(key) =~= ledger.remove(key).remove(picked));
    }
}

/// Storing a record under a key changes the total by the difference between
/// the new balance and the balance that was stored under the key before.
pub proof fn lemma_total_insert(ledger: Ledger, key: Seq<u8>, wallet: WalletView)
    requires
        ledger.dom().finite(),
    ensures
        total_balance(ledger.insert(key, wallet)) + (if ledger.contains_key(key) {
            ledger[key].balance as nat
        } else {
            0
        }) == total_balance(ledger) + wallet.balance,
{
    let stored = ledger.insert(key, wallet);
    lemma_total_remove(stored, key);
    if ledger.contains_key(key) {
        lemma_total_remove(ledger, key);
        assert(stored.remove(key) =~= ledger.remove(key));
    } else {
        assert(stored.remove(key) =~= ledger);
    }
}

} // verus!
