use cryptocurrency::crypto::{KeyOrder, PublicKey, PUBLIC_KEY_LENGTH};
use cryptocurrency::errors::{Error, ExecutionError};
use cryptocurrency::schema::{CurrencySchema, Wallet};
use cryptocurrency::storage::WalletIndex;

fn key_of(bytes: &[u8]) -> PublicKey {
    let mut all = [0u8; 32];
    all[..bytes.len()].copy_from_slice(bytes);
    PublicKey::new(all)
}

fn wallet(pub_key: &PublicKey, name: &str, balance: u64) -> Wallet {
    Wallet::new(pub_key, name, "contact", balance)
}

#[test]
fn wallet_keeps_its_fields() {
    let pub_key = key_of(&[7]);
    let wallet = Wallet::new(&pub_key, "Alice", "alice@example.com", 12);
    assert_eq!(*wallet.pub_key(), pub_key);
    assert_eq!(wallet.name(), "Alice");
    assert_eq!(wallet.email(), "alice@example.com");
    assert_eq!(wallet.balance(), 12);
    let copy = wallet.clone();
    assert_eq!(copy.name(), "Alice");
    assert_eq!(copy.balance(), 12);
}

#[test]
fn increase_adds_to_the_balance() {
    let pub_key = key_of(&[7]);
    let wallet = Wallet::new(&pub_key, "Alice", "alice@example.com", 12).increase(30);
    assert_eq!(wallet.balance(), 42);
    assert_eq!(wallet.name(), "Alice");
    assert_eq!(wallet.email(), "alice@example.com");
    assert_eq!(*wallet.pub_key(), pub_key);
    assert_eq!(wallet.increase(0).balance(), 42);
    let full = Wallet::new(&pub_key, "Alice", "", u64::MAX - 1).increase(1);
    assert_eq!(full.balance(), u64::MAX);
}

#[test]
fn decrease_takes_from_the_balance() {
    let pub_key = key_of(&[7]);
    let wallet = Wallet::new(&pub_key, "Alice", "alice@example.com", 42).decrease(30);
    assert_eq!(wallet.balance(), 12);
    assert_eq!(wallet.name(), "Alice");
    assert_eq!(wallet.decrease(12).balance(), 0);
}

#[test]
fn freeze_takes_from_the_balance_as_decrease_does() {
    let pub_key = key_of(&[7]);
    let frozen = Wallet::new(&pub_key, "Alice", "alice@example.com", 42).freeze(30);
    let decreased = Wallet::new(&pub_key, "Alice", "alice@example.com", 42).decrease(30);
    assert_eq!(frozen.balance(), 12);
    assert_eq!(frozen.balance(), decreased.balance());
    assert_eq!(frozen.name(), decreased.name());
    assert_eq!(frozen.email(), decreased.email());
    assert_eq!(frozen.pub_key(), decreased.pub_key());
}

#[test]
fn public_key_is_made_of_32_bytes() {
    assert_eq!(PUBLIC_KEY_LENGTH, 32);
    let bytes: Vec<u8> = (0..32).collect();
    let key = PublicKey::from_slice(&bytes).unwrap();
    assert_eq!(&key.as_bytes()[..], &bytes[..]);
    assert!(PublicKey::from_slice(&bytes[..31]).is_none());
    assert!(PublicKey::from_slice(&[0u8; 33]).is_none());
    assert!(PublicKey::from_slice(&[]).is_none());
    let mut array = [0u8; 32];
    array.copy_from_slice(&bytes);
    assert_eq!(PublicKey::new(array), key);
}

#[test]
fn public_keys_are_ordered_byte_by_byte() {
    let low = key_of(&[1, 200]);
    let high = key_of(&[2, 0]);
    assert_eq!(low.compare(&high), KeyOrder::Less);
    assert_eq!(high.compare(&low), KeyOrder::Greater);
    assert_eq!(low.compare(&low), KeyOrder::Equal);
    assert_eq!(low.compare(&key_of(&[1, 200])), KeyOrder::Equal);
    let mut last = [0u8; 32];
    last[31] = 1;
    assert_eq!(PublicKey::new([0u8; 32]).compare(&PublicKey::new(last)), KeyOrder::Less);
    assert_eq!(key_of(&[0, 255]).compare(&key_of(&[1])), KeyOrder::Less);
    assert!(low != high);
    assert!(low == key_of(&[1, 200]));
}

#[test]
fn empty_index_holds_nothing() {
    let index = WalletIndex::new();
    assert!(index.get(&key_of(&[1])).is_none());
    assert!(!index.contains(&key_of(&[1])));
    assert!(index.keys().is_empty());
    assert!(index.values().is_empty());
}

#[test]
fn index_returns_what_was_put() {
    let mut index = WalletIndex::new();
    let alice = key_of(&[1]);
    let bob = key_of(&[2]);
    index.put(&alice, wallet(&alice, "Alice", 10));
    assert!(index.contains(&alice));
    assert!(!index.contains(&bob));
    assert_eq!(index.get(&alice).unwrap().name(), "Alice");
    assert!(index.get(&bob).is_none());
    index.put(&bob, wallet(&bob, "Bob", 20));
    assert_eq!(index.get(&alice).unwrap().balance(), 10);
    assert_eq!(index.get(&bob).unwrap().balance(), 20);
}

#[test]
fn put_replaces_the_record_under_a_key() {
    let mut index = WalletIndex::new();
    let alice = key_of(&[1]);
    let bob = key_of(&[2]);
    index.put(&alice, wallet(&alice, "Alice", 10));
    index.put(&bob, wallet(&bob, "Bob", 20));
    index.put(&alice, wallet(&alice, "Alicia", 11));
    assert_eq!(index.keys(), vec![alice, bob]);
    let stored = index.get(&alice).unwrap();
    assert_eq!(stored.name(), "Alicia");
    assert_eq!(stored.balance(), 11);
    assert_eq!(index.get(&bob).unwrap().name(), "Bob");
}

#[test]
fn index_lists_in_key_order_whatever_the_order_of_puts() {
    let orders: [[u8; 5]; 3] = [[1, 2, 3, 4, 5], [5, 4, 3, 2, 1], [3, 1, 5, 2, 4]];
    for order in orders.iter() {
        let mut index = WalletIndex::new();
        for byte in order.iter() {
            let pub_key = key_of(&[*byte]);
            index.put(&pub_key, wallet(&pub_key, "owner", *byte as u64));
        }
        let keys = index.keys();
        assert_eq!(
            keys,
            vec![key_of(&[1]), key_of(&[2]), key_of(&[3]), key_of(&[4]), key_of(&[5])]
        );
        let balances: Vec<u64> = index.values().iter().map(|w| w.balance()).collect();
        assert_eq!(balances, vec![1, 2, 3, 4, 5]);
        for byte in 1u8..=5 {
            assert_eq!(index.get(&key_of(&[byte])).unwrap().balance(), byte as u64);
        }
        assert!(index.get(&key_of(&[0])).is_none());
        assert!(index.get(&key_of(&[6])).is_none());
        assert!(index.get(&key_of(&[3, 1])).is_none());
    }
}

#[test]
fn index_holds_many_keys() {
    let mut index = WalletIndex::new();
    for i in 0u32..300 {
        let n = (i * 7919) % 300;
        let pub_key = key_of(&[(n / 256) as u8, (n % 256) as u8]);
        index.put(&pub_key, wallet(&pub_key, "owner", n as u64));
    }
    let keys = index.keys();
    assert_eq!(keys.len(), 300);
    for (n, pub_key) in keys.iter().enumerate() {
        assert_eq!(*pub_key, key_of(&[(n / 256) as u8, (n % 256) as u8]));
        assert_eq!(index.get(pub_key).unwrap().balance(), n as u64);
    }
}

#[test]
fn a_record_may_be_stored_under_another_key_than_its_own() {
    let mut index = WalletIndex::new();
    let alice = key_of(&[1]);
    let bob = key_of(&[2]);
    index.put(&bob, wallet(&alice, "Alice", 10));
    assert!(index.get(&alice).is_none());
    assert_eq!(*index.get(&bob).unwrap().pub_key(), alice);
}

#[test]
fn schema_reads_and_writes_its_table() {
    let alice = key_of(&[1]);
    let bob = key_of(&[2]);
    let mut index = WalletIndex::new();
    index.put(&alice, wallet(&alice, "Alice", 10));
    let mut schema = CurrencySchema::new(index);
    assert_eq!(schema.wallet(&alice).unwrap().balance(), 10);
    assert!(schema.wallet(&bob).is_none());
    assert_eq!(schema.wallets().keys(), vec![alice]);
    schema.wallets_mut().put(&bob, wallet(&bob, "Bob", 20));
    assert_eq!(schema.wallet(&bob).unwrap().name(), "Bob");
    assert_eq!(schema.wallets().get(&bob).unwrap().balance(), 20);
    let index = schema.into_view();
    assert_eq!(index.keys(), vec![alice, bob]);
}

#[test]
fn error_codes_are_stable() {
    assert_eq!(Error::WalletAlreadyExists.code(), 0);
    assert_eq!(Error::SenderNotFound.code(), 1);
    assert_eq!(Error::ReceiverNotFound.code(), 2);
    assert_eq!(Error::InsufficientCurrencyAmount.code(), 3);
    assert_eq!(Error::BalanceOverflow.code(), 4);
}

#[test]
fn error_descriptions_are_fixed() {
    assert_eq!(Error::WalletAlreadyExists.description(), "Wallet already exists");
    assert_eq!(Error::SenderNotFound.description(), "Sender doesn't exist");
    assert_eq!(Error::ReceiverNotFound.description(), "Receiver doesn't exist");
    assert_eq!(Error::InsufficientCurrencyAmount.description(), "Insufficient currency amount");
    assert_eq!(Error::BalanceOverflow.description(), "Receiver balance overflow");
}

#[test]
fn execution_error_carries_code_and_description() {
    let error = ExecutionError::from(Error::ReceiverNotFound);
    assert_eq!(error.code(), 2);
    assert_eq!(error.description(), Some("Receiver doesn't exist"));
    let converted: ExecutionError = Error::InsufficientCurrencyAmount.into();
    assert_eq!(
        converted,
        ExecutionError::with_description(3, "Insufficient currency amount")
    );
    assert_eq!(converted.clone(), converted);
    let bare = ExecutionError::new(9);
    assert_eq!(bare.code(), 9);
    assert_eq!(bare.description(), None);
    assert_ne!(bare, ExecutionError::with_description(9, ""));
}
