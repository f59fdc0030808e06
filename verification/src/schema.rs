//! The wallet record, and typed access to the table that holds the wallets.

use vstd::prelude::*;
use crate::crypto::PublicKey;
use crate::ledger::Ledger;
use crate::storage::WalletIndex;

verus! {

/// What a wallet holds, as mathematical values.
pub struct WalletView {
    /// Bytes of the owner's public key.
    pub pub_key: Seq<u8>,
    /// Display name of the owner.
    pub name: Seq<char>,
    /// Contact string of the owner.
    pub email: Seq<char>,
    /// Balance, in the smallest denomination of the currency.
    pub balance: u64,
}

impl WalletView {
    /// The same record with another balance.
    pub open spec fn with_balance(self, balance: u64) -> WalletView {
        WalletView { balance, ..self }
    }
}

/// What an optional wallet holds, as mathematical values.
pub open spec fn view_of(wallet: Option<Wallet>) -> Option<WalletView> {
    match wallet {
        Some(w) => Some(w@),
        None => None,
    }
}

/// A wallet record. Records are values: every change makes a new record,
/// which replaces the old one in the store.
#[derive(Debug)]
pub struct Wallet {
    pub_key: PublicKey,
    name: String,
    email: String,
    balance: u64,
}

impl View for Wallet {
    type V = WalletView;

    closed spec fn view(&self) -> WalletView {
        WalletView {
            pub_key: self.pub_key@,
            name: self.name@,
            email: self.email@,
            balance: self.balance,
        }
    }
}

impl Clone for Wallet {
    fn clone(&self) -> (copy: Wallet)
        ensures
            copy@ == self@,
    {
        Wallet {
            pub_key: self.pub_key,
            name: self.name.clone(),
            email: self.email.clone(),
            balance: self.balance,
        }
    }
}

impl Wallet {
    /// Makes a wallet record of its four fields.
    pub fn new(pub_key: &PublicKey, name: &str, email: &str, balance: u64) -> (wallet: Wallet)
        ensures
            wallet@ == (WalletView { pub_key: pub_key@, name: name@, email: email@, balance }),
    {
        Wallet { pub_key: *pub_key, name: name.to_owned(), email: email.to_owned(), balance }
    }

    /// Public key of the owner.
    pub fn pub_key(&self) -> (key: &PublicKey)
        ensures
            key@ == self@.pub_key,
    {
        &self.pub_key
    }

    /// Display name of the owner.
    pub fn name(&self) -> (name: &str)
        ensures
            name@ == self@.name,
    {
        self.name.as_str()
    }

    /// Contact string of the owner.
    pub fn email(&self) -> (email: &str)
        ensures
            email@ == self@.email,
    {
        self.email.as_str()
    }

    /// Current balance.
    pub fn balance(&self) -> (balance: u64)
        ensures
            balance == self@.balance,
    {
        self.balance
    }

    /// The record with `amount` added to the balance. The caller makes sure
    /// that the sum fits a `u64`.
    pub fn increase(self, amount: u64) -> (wallet: Wallet)
        requires
            self@.balance + amount <= u64::MAX,
        ensures
            wallet@ == self@.with_balance((self@.balance + amount) as u64),
    {
        let balance: u64 = self.balance + amount;
        Wallet { pub_key: self.pub_key, name: self.name, email: self.email, balance }
    }

    /// The record with `amount` taken from the balance. The caller makes sure
    /// that the balance covers the amount.
    pub fn decrease(self, amount: u64) -> (wallet: Wallet)
        requires
            amount <= self@.balance,
        ensures
            wallet@ == self@.with_balance((self@.balance - amount) as u64),
    {
        let balance: u64 = self.balance - amount;
        Wallet { pub_key: self.pub_key, name: self.name, email: self.email, balance }
    }

    /// The record with `amount` frozen. Frozen tokens are taken from the
    /// balance and recorded nowhere else, so this equals [`Wallet::decrease`].
    pub fn freeze(self, amount: u64) -> (wallet: Wallet)
        requires
            amount <= self@.balance,
        ensures
            wallet@ == self@.with_balance((self@.balance - amount) as u64),
    {
        let balance: u64 = self.balance - amount;
        Wallet { pub_key: self.pub_key, name: self.name, email: self.email, balance }
    }
}

/// Typed access to the tables of the service over one view of the storage.
///
/// A shared reference reads the view; an exclusive reference, which only
/// the execution of one transaction holds, may also write to it. The schema
/// is viewed as the [`Ledger`] of its table of wallets.
pub struct CurrencySchema {
    view: WalletIndex,
}

impl View for CurrencySchema {
    type V = Ledger;

    closed spec fn view(&self) -> Ledger {
        self.view@
    }
}

impl CurrencySchema {
    /// The invariant of the schema: its table of wallets is well formed.
    pub closed spec fn wf(&self) -> bool {
        self.view.wf()
    }

    /// A well-formed schema holds finitely many wallets, each under a key
    /// of 32 bytes.
    pub proof fn lemma_view(&self)
        requires
            self.wf(),
        ensures
            self@.dom().finite(),
            forall|key: Seq<u8>| self@.contains_key(key) ==> key.len() == 32,
    {
        self.view.lemma_view();
    }

    /// Makes the schema over a view of the storage.
    pub fn new(view: WalletIndex) -> (schema: CurrencySchema)
        requires
            view.wf(),
        ensures
            schema.wf(),
            schema@ == view@,
    {
        CurrencySchema { view }
    }

    /// Gives the view of the storage back.
    pub fn into_view(self) -> (view: WalletIndex)
        requires
            self.wf(),
        ensures
            view.wf(),
            view@ == self@,
    {
        self.view
    }

    /// The table of wallets, for reading.
    pub fn wallets(&self) -> (index: &WalletIndex)
        requires
            self.wf(),
        ensures
            index.wf(),
            index@ == self@,
    {
        &self.view
    }

    /// The wallet stored under `pub_key`, if there is one.
    pub fn wallet(&self, pub_key: &PublicKey) -> (wallet: Option<Wallet>)
        requires
            self.wf(),
        ensures
            wallet is Some <==> self@.contains_key(pub_key@),
            wallet matches Some(w) ==> w@ == self@[pub_key@],
    {
        self.wallets().get(pub_key)
    }

    /// The table of wallets, for writing. What the caller stores in the
    /// table is what the schema holds afterwards.
    pub fn wallets_mut(&mut self) -> (index: &mut WalletIndex)
        requires
            old(self).wf(),
        ensures
            index.wf(),
            index@ == old(self)@,
            final(self)@ == final(index)@,
            final(index).wf() ==> final(self).wf(),
    {
        &mut self.view
    }
}

} // verus!
