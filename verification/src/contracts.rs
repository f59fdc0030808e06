//! What each transaction checks and what it does to the wallets.

use vstd::prelude::*;
use crate::crypto::{KeyOrder, PublicKey};
use crate::errors::Error;
use crate::invariants::{
    lemma_create_wallet_total, lemma_freeze_total, lemma_transfer_conserves_total,
};
use crate::ledger::{total_balance, Ledger};
use crate::schema::{view_of, CurrencySchema, Wallet, WalletView};
use crate::transactions::{
    CurrencyTransactions, TxCreateWallet, TxCreateWalletView, TxFreeze, TxFreezeView, TxTransfer,
    TxTransferView,
};

verus! {

/// Balance of a newly created wallet.
pub const INIT_BALANCE: u64 = 0;

/// The wallets after a transaction with the given outcome: the new wallets
/// if it succeeded, the wallets as they were if it failed.
pub open spec fn ledger_after(outcome: Result<Ledger, Error>, before: Ledger) -> Ledger {
    match outcome {
        Ok(ledger) => ledger,
        Err(_) => before,
    }
}

/// The record stored under `key`, if there is one.
pub open spec fn stored(ledger: Ledger, key: Seq<u8>) -> Option<WalletView> {
    if ledger.contains_key(key) {
        Some(ledger[key])
    } else {
        None
    }
}

/// The record that a [`TxCreateWallet`] stores, given what is stored under
/// the owner's key: a wallet with the initial balance, unless one exists.
pub open spec fn created(tx: TxCreateWalletView, existing: Option<WalletView>) -> Result<
    WalletView,
    Error,
> {
    match existing {
        Some(_) => Err(Error::WalletAlreadyExists),
        None => Ok(
            WalletView {
                pub_key: tx.pub_key,
                name: tx.name,
                email: tx.email,
                balance: INIT_BALANCE,
            },
        ),
    }
}

/// The records that a [`TxTransfer`] stores under the sender's key and under
/// the receiver's key, given what is stored there. The checks are made in
/// this order: the sender exists, the receiver exists, the sender's balance
/// covers the amount, the receiver's new balance fits 64 bits.
pub open spec fn transferred(
    tx: TxTransferView,
    sender: Option<WalletView>,
    receiver: Option<WalletView>,
) -> Result<(WalletView, WalletView), Error> {
    match (sender, receiver) {
        (None, _) => Err(Error::SenderNotFound),
        (Some(_), None) => Err(Error::ReceiverNotFound),
        (Some(from), Some(to)) => {
            if from.balance < tx.amount {
                Err(Error::InsufficientCurrencyAmount)
            } else if to.balance + tx.amount > u64::MAX {
                Err(Error::BalanceOverflow)
            } else {
                Ok(
                    (
                        from.with_balance((from.balance - tx.amount) as u64),
                        to.with_balance((to.balance + tx.amount) as u64),
                    ),
                )
            }
        },
    }
}

/// The record that a [`TxFreeze`] stores, given what is stored under the
/// owner's key: the wallet with the amount taken from its balance.
pub open spec fn frozen(tx: TxFreezeView, owner: Option<WalletView>) -> Result<WalletView, Error> {
    match owner {
        None => Err(Error::SenderNotFound),
        Some(wallet) => {
            if wallet.balance < tx.amount {
                Err(Error::InsufficientCurrencyAmount)
            } else {
                Ok(wallet.with_balance((wallet.balance - tx.amount) as u64))
            }
        },
    }
}

impl TxCreateWallet {
    /// Decides the creation, given the wallet stored under the owner's key:
    /// the record to store there, or the error that rejects the transaction.
    pub fn apply(&self, existing: Option<Wallet>) -> (result: Result<Wallet, Error>)
        ensures
            match created(self@, view_of(existing)) {
                Ok(wallet) => result matches Ok(w) && w@ == wallet,
                Err(error) => result matches Err(e) && e == error,
            },
    {
        if existing.is_none() {
            Ok(Wallet::new(self.pub_key(), self.name(), self.email(), INIT_BALANCE))
        } else {
            Err(Error::WalletAlreadyExists)
        }
    }
}

impl TxTransfer {
    /// Decides the transfer, given the wallets stored under the sender's
    /// key and under the receiver's key: the records to store there, the
    /// sender's first, or the error that rejects the transaction.
    pub fn apply(&self, sender: Option<Wallet>, receiver: Option<Wallet>) -> (result: Result<
        (Wallet, Wallet),
        Error,
    >)
        ensures
            match transferred(self@, view_of(sender), view_of(receiver)) {
                Ok(wallets) => result matches Ok(w) && w.0@ == wallets.0 && w.1@ == wallets.1,
                Err(error) => result matches Err(e) && e == error,
            },
    {
        let sender = match sender {
            Some(wallet) => wallet,
            None => {
                return Err(Error::SenderNotFound);
            },
        };
        let receiver = match receiver {
            Some(wallet) => wallet,
            None => {
                return Err(Error::ReceiverNotFound);
            },
        };
        let amount: u64 = self.amount();
        if sender.balance() >= amount {
            if receiver.balance() > u64::MAX - amount {
                return Err(Error::BalanceOverflow);
            }
            let sender = sender.decrease(amount);
            let receiver = receiver.increase(amount);
            Ok((sender, receiver))
        } else {
            Err(Error::InsufficientCurrencyAmount)
        }
    }
}

impl TxFreeze {
    /// Decides the freeze, given the wallet stored under the owner's key:
    /// the record to store there, or the error that rejects the transaction.
    pub fn apply(&self, owner: Option<Wallet>) -> (result: Result<Wallet, Error>)
        ensures
            match frozen(self@, view_of(owner)) {
                Ok(wallet) => result matches Ok(w) && w@ == wallet,
                Err(error) => result matches Err(e) && e == error,
            },
    {
        let freezer = match owner {
            Some(wallet) => wallet,
            None => {
                return Err(Error::SenderNotFound);
            },
        };
        let amount: u64 = self.amount();
        if freezer.balance() >= amount {
            Ok(freezer.freeze(amount))
        } else {
            Err(Error::InsufficientCurrencyAmount)
        }
    }
}

/// A transaction: a stateless check before execution, and the execution
/// against the wallets.
pub trait Transaction {
    /// Bytes of the key for which the signature of the transaction has to
    /// be valid.
    spec fn spec_signer(&self) -> Seq<u8>;

    /// Whether the transaction passes verification, given whether its
    /// signature is valid for the signer's key.
    spec fn spec_verify(&self, signature_valid: bool) -> bool;

    /// What executing the transaction against `ledger` gives: the wallets
    /// afterwards, or the error that rejects it.
    spec fn outcome(&self, ledger: Ledger) -> Result<Ledger, Error>;

    /// The key for which the signature of the transaction has to be valid.
    fn signer(&self) -> (key: &PublicKey)
        ensures
            key@ == self.spec_signer(),
    ;

    /// Checks the transaction without looking at the wallets.
    /// `signature_valid` says whether the signature of the transaction is
    /// valid for the key that [`Transaction::signer`] returns.
    fn verify(&self, signature_valid: bool) -> (valid: bool)
        ensures
            valid == self.spec_verify(signature_valid),
    ;

    /// Executes the transaction. On success the schema holds the wallets
    /// that [`Transaction::outcome`] gives. On failure it holds what it held
    /// before. Either way every key that was there is still there.
    fn execute(&self, schema: &mut CurrencySchema) -> (result: Result<(), Error>)
        requires
            old(schema).wf(),
        ensures
            final(schema).wf(),
            match self.outcome(old(schema)@) {
                Ok(ledger) => result is Ok && final(schema)@ == ledger,
                Err(error) => result == Err::<(), Error>(error) && final(schema)@ == old(schema)@,
            },
            forall|key: Seq<u8>|
                old(schema)@.contains_key(key) ==> #[trigger] final(schema)@.contains_key(key),
    ;
}

/// Creation is signed by the owner of the new wallet. It succeeds if and
/// only if no wallet is stored under the owner's key, and then adds the
/// initial balance to the sum of all balances.
impl Transaction for TxCreateWallet {
    open spec fn spec_signer(&self) -> Seq<u8> {
        self@.pub_key
    }

    open spec fn spec_verify(&self, signature_valid: bool) -> bool {
        signature_valid
    }

    open spec fn outcome(&self, ledger: Ledger) -> Result<Ledger, Error> {
        match created(self@, stored(ledger, self@.pub_key)) {
            Ok(wallet) => Ok(ledger.insert(self@.pub_key, wallet)),
            Err(error) => Err(error),
        }
    }

    fn signer(&self) -> (key: &PublicKey) {
        self.pub_key()
    }

    fn verify(&self, signature_valid: bool) -> (valid: bool) {
        signature_valid
    }

    fn execute(&self, schema: &mut CurrencySchema) -> (result: Result<(), Error>)
        ensures
            result is Ok <==> !old(schema)@.contains_key(self@.pub_key),
            total_balance(final(schema)@) == total_balance(old(schema)@) + (if result is Ok {
                INIT_BALANCE as nat
            } else {
                0
            }),
    {
        proof {
            schema.lemma_view();
            lemma_create_wallet_total(*self, schema@);
        }
        match self.apply(schema.wallet(self.pub_key())) {
            Ok(wallet) => {
                schema.wallets_mut().put(self.pub_key(), wallet);
                Ok(())
            },
            Err(error) => Err(error),
        }
    }
}

/// A transfer is signed by the sender, and passes verification only if
/// sender and receiver differ. Between two different wallets it keeps the
/// sum of all balances, whether it succeeds or fails.
impl Transaction for TxTransfer {
    open spec fn spec_signer(&self) -> Seq<u8> {
        self@.from
    }

    open spec fn spec_verify(&self, signature_valid: bool) -> bool {
        self@.from != self@.to && signature_valid
    }

    open spec fn outcome(&self, ledger: Ledger) -> Result<Ledger, Error> {
        match transferred(self@, stored(ledger, self@.from), stored(ledger, self@.to)) {
            Ok(wallets) => Ok(ledger.insert(self@.from, wallets.0).insert(self@.to, wallets.1)),
            Err(error) => Err(error),
        }
    }

    fn signer(&self) -> (key: &PublicKey) {
        self.from()
    }

    fn verify(&self, signature_valid: bool) -> (valid: bool)
        ensures
            self@.from == self@.to ==> !valid,
    {
        match self.from().compare(self.to()) {
            KeyOrder::Equal => false,
            KeyOrder::Less => signature_valid,
            KeyOrder::Greater => signature_valid,
        }
    }

    fn execute(&self, schema: &mut CurrencySchema) -> (result: Result<(), Error>)
        ensures
            old(schema)@.contains_key(self@.from) && old(schema)@.contains_key(self@.to)
                && self@.amount > old(schema)@[self@.from].balance ==> result == Err::<(), Error>(
                Error::InsufficientCurrencyAmount,
            ) && final(schema)@ == old(schema)@,
            self@.from != self@.to ==> total_balance(final(schema)@) == total_balance(
                old(schema)@,
            ),
    {
        proof {
            schema.lemma_view();
            if self@.from != self@.to {
                lemma_transfer_conserves_total(*self, schema@);
            }
        }
        let sender = schema.wallet(self.from());
        let receiver = schema.wallet(self.to());
        match self.apply(sender, receiver) {
            Ok((sender, receiver)) => {
                let wallets = schema.wallets_mut();
                wallets.put(self.from(), sender);
                wallets.put(self.to(), receiver);
                Ok(())
            },
            Err(error) => Err(error),
        }
    }
}

/// A freeze is signed by the owner of the wallet. On success it takes the
/// amount out of the sum of all balances.
impl Transaction for TxFreeze {
    open spec fn spec_signer(&self) -> Seq<u8> {
        self@.pub_key
    }

    open spec fn spec_verify(&self, signature_valid: bool) -> bool {
        signature_valid
    }

    open spec fn outcome(&self, ledger: Ledger) -> Result<Ledger, Error> {
        match frozen(self@, stored(ledger, self@.pub_key)) {
            Ok(wallet) => Ok(ledger.insert(self@.pub_key, wallet)),
            Err(error) => Err(error),
        }
    }

    fn signer(&self) -> (key: &PublicKey) {
        self.pub_key()
    }

    fn verify(&self, signature_valid: bool) -> (valid: bool) {
        signature_valid
    }

    fn execute(&self, schema: &mut CurrencySchema) -> (result: Result<(), Error>)
        ensures
            old(schema)@.contains_key(self@.pub_key) && self@.amount > old(
                schema,
            )@[self@.pub_key].balance ==> result == Err::<(), Error>(
                Error::InsufficientCurrencyAmount,
            ) && final(schema)@ == old(schema)@,
            total_balance(final(schema)@) + (if result is Ok {
                self@.amount as nat
            } else {
                0
            }) == total_balance(old(schema)@),
    {
        proof {
            schema.lemma_view();
            lemma_freeze_total(*self, schema@);
        }
        match self.apply(schema.wallet(self.pub_key())) {
            Ok(wallet) => {
                schema.wallets_mut().put(self.pub_key(), wallet);
                Ok(())
            },
            Err(error) => Err(error),
        }
    }
}

/// Any transaction is verified and executed as the variant that it holds.
impl Transaction for CurrencyTransactions {
    open spec fn spec_signer(&self) -> Seq<u8> {
        match self {
            CurrencyTransactions::TxCreateWallet(tx) => tx.spec_signer(),
            CurrencyTransactions::TxTransfer(tx) => tx.spec_signer(),
            CurrencyTransactions::TxFreeze(tx) => tx.spec_signer(),
        }
    }

    open spec fn spec_verify(&self, signature_valid: bool) -> bool {
        match self {
            CurrencyTransactions::TxCreateWallet(tx) => tx.spec_verify(signature_valid),
            CurrencyTransactions::TxTransfer(tx) => tx.spec_verify(signature_valid),
            CurrencyTransactions::TxFreeze(tx) => tx.spec_verify(signature_valid),
        }
    }

    open spec fn outcome(&self, ledger: Ledger) -> Result<Ledger, Error> {
        match self {
            CurrencyTransactions::TxCreateWallet(tx) => tx.outcome(ledger),
            CurrencyTransactions::TxTransfer(tx) => tx.outcome(ledger),
            CurrencyTransactions::TxFreeze(tx) => tx.outcome(ledger),
        }
    }

    fn signer(&self) -> (key: &PublicKey) {
        match self {
            CurrencyTransactions::TxCreateWallet(tx) => tx.signer(),
            CurrencyTransactions::TxTransfer(tx) => tx.signer(),
            CurrencyTransactions::TxFreeze(tx) => tx.signer(),
        }
    }

    fn verify(&self, signature_valid: bool) -> (valid: bool) {
        match self {
            CurrencyTransactions::TxCreateWallet(tx) => tx.verify(signature_valid),
            CurrencyTransactions::TxTransfer(tx) => tx.verify(signature_valid),
            CurrencyTransactions::TxFreeze(tx) => tx.verify(signature_valid),
        }
    }

    fn execute(&self, schema: &mut CurrencySchema) -> (result: Result<(), Error>) {
        match self {
            CurrencyTransactions::TxCreateWallet(tx) => tx.execute(schema),
            CurrencyTransactions::TxTransfer(tx) => tx.execute(schema),
            CurrencyTransactions::TxFreeze(tx) => tx.execute(schema),
        }
    }
}

} // verus!
