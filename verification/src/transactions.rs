//! The transactions that the service understands.

use vstd::prelude::*;
use crate::crypto::PublicKey;

verus! {

/// What a [`TxCreateWallet`] holds, as mathematical values.
pub struct TxCreateWalletView {
    /// Bytes of the public key of the new wallet's owner.
    pub pub_key: Seq<u8>,
    /// Display name of the owner.
    pub name: Seq<char>,
    /// Contact string of the owner.
    pub email: Seq<char>,
}

/// Creates a wallet with the initial balance.
#[derive(Debug)]
pub struct TxCreateWallet {
    pub_key: PublicKey,
    name: String,
    email: String,
}

impl View for TxCreateWallet {
    type V = TxCreateWalletView;

    closed spec fn view(&self) -> TxCreateWalletView {
        TxCreateWalletView { pub_key: self.pub_key@, name: self.name@, email: self.email@ }
    }
}

impl Clone for TxCreateWallet {
    fn clone(&self) -> (copy: TxCreateWallet)
        ensures
            copy@ == self@,
    {
        TxCreateWallet {
            pub_key: self.pub_key,
            name: self.name.clone(),
            email: self.email.clone(),
        }
    }
}

impl TxCreateWallet {
    /// Makes the transaction of its fields.
    pub fn new(pub_key: &PublicKey, name: &str, email: &str) -> (tx: TxCreateWallet)
        ensures
            tx@ == (TxCreateWalletView { pub_key: pub_key@, name: name@, email: email@ }),
    {
        TxCreateWallet { pub_key: *pub_key, name: name.to_owned(), email: email.to_owned() }
    }

    /// Public key of the new wallet's owner.
    pub fn pub_key(&self) -> (key: &PublicKey)
        ensures
            key@ == self@.pub_key,
    {
        &self.pub_key
    }

    /// Display name of the owner.
    pub fn name(&self) -> (name: &str)
        ensures
            name@ == self@.name,
    {
        self.name.as_str()
    }

    /// Contact string of the owner.
    pub fn email(&self) -> (email: &str)
        ensures
            email@ == self@.email,
    {
        self.email.as_str()
    }
}

/// What a [`TxTransfer`] holds, as mathematical values.
pub struct TxTransferView {
    /// Bytes of the sender's public key.
    pub from: Seq<u8>,
    /// Bytes of the receiver's public key.
    pub to: Seq<u8>,
    /// Number of tokens to move.
    pub amount: u64,
    /// A number that tells otherwise equal transfers apart.
    pub seed: u64,
}

/// Moves tokens from one wallet to another.
#[derive(Clone, Copy, Debug)]
pub struct TxTransfer {
    from: PublicKey,
    to: PublicKey,
    amount: u64,
    seed: u64,
}

impl View for TxTransfer {
    type V = TxTransferView;

    closed spec fn view(&self) -> TxTransferView {
        TxTransferView { from: self.from@, to: self.to@, amount: self.amount, seed: self.seed }
    }
}

impl TxTransfer {
    /// Makes the transaction of its fields.
    pub fn new(from: &PublicKey, to: &PublicKey, amount: u64, seed: u64) -> (tx: TxTransfer)
        ensures
            tx@ == (TxTransferView { from: from@, to: to@, amount, seed }),
    {
        TxTransfer { from: *from, to: *to, amount, seed }
    }

    /// Public key of the sender.
    pub fn from(&self) -> (key: &PublicKey)
        ensures
            key@ == self@.from,
    {
        &self.from
    }

    /// Public key of the receiver.
    pub fn to(&self) -> (key: &PublicKey)
        ensures
            key@ == self@.to,
    {
        &self.to
    }

    /// Number of tokens to move.
    pub fn amount(&self) -> (amount: u64)
        ensures
            amount == self@.amount,
    {
        self.amount
    }

    /// The number that tells this transfer from others with the same
    /// sender, receiver and amount. It has no part in the execution.
    pub fn seed(&self) -> (seed: u64)
        ensures
            seed == self@.seed,
    {
        self.seed
    }
}

/// What a [`TxFreeze`] holds, as mathematical values.
pub struct TxFreezeView {
    /// Bytes of the owner's public key.
    pub pub_key: Seq<u8>,
    /// Number of tokens to freeze.
    pub amount: u64,
}

/// Freezes tokens of a wallet.
#[derive(Clone, Copy, Debug)]
pub struct TxFreeze {
    pub_key: PublicKey,
    amount: u64,
}

impl View for TxFreeze {
    type V = TxFreezeView;

    closed spec fn view(&self) -> TxFreezeView {
        TxFreezeView { pub_key: self.pub_key@, amount: self.amount }
    }
}

impl TxFreeze {
    /// Makes the transaction of its fields.
    pub fn new(pub_key: &PublicKey, amount: u64) -> (tx: TxFreeze)
        ensures
            tx@ == (TxFreezeView { pub_key: pub_key@, amount }),
    {
        TxFreeze { pub_key: *pub_key, amount }
    }

    /// Public key of the wallet's owner.
    pub fn pub_key(&self) -> (key: &PublicKey)
        ensures
            key@ == self@.pub_key,
    {
        &self.pub_key
    }

    /// Number of tokens to freeze.
    pub fn amount(&self) -> (amount: u64)
        ensures
            amount == self@.amount,
    {
        self.amount
    }
}

/// Any transaction of the service.
#[derive(Debug)]
pub enum CurrencyTransactions {
    /// Creates a wallet.
    TxCreateWallet(TxCreateWallet),
    /// Moves tokens between two wallets.
    TxTransfer(TxTransfer),
    /// Freezes tokens of a wallet.
    TxFreeze(TxFreeze),
}

impl Clone for CurrencyTransactions {
    fn clone(&self) -> (copy: CurrencyTransactions)
        ensures
            match (*self, copy) {
                (
                    CurrencyTransactions::TxCreateWallet(tx),
                    CurrencyTransactions::TxCreateWallet(other),
                ) => other@ == tx@,
                (CurrencyTransactions::TxTransfer(tx), CurrencyTransactions::TxTransfer(other)) => other
                    == tx,
                (CurrencyTransactions::TxFreeze(tx), CurrencyTransactions::TxFreeze(other)) => other
                    == tx,
                _ => false,
            },
    {
        match self {
            CurrencyTransactions::TxCreateWallet(tx) => CurrencyTransactions::TxCreateWallet(
                tx.clone(),
            ),
            CurrencyTransactions::TxTransfer(tx) => CurrencyTransactions::TxTransfer(*tx),
            CurrencyTransactions::TxFreeze(tx) => CurrencyTransactions::TxFreeze(*tx),
        }
    }
}

} // verus!
