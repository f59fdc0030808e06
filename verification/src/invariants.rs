//! What every execution keeps: laws of the outcomes of transactions, each
//! stated over the wallets before and after.

use vstd::prelude::*;
use crate::contracts::{ledger_after, stored, Transaction, INIT_BALANCE};
use crate::errors::Error;
use crate::ledger::{lemma_total_insert, total_balance, Ledger};
use crate::transactions::{CurrencyTransactions, TxCreateWallet, TxFreeze, TxTransfer};

verus! {

/// The wallets after a run of transactions, each executed against what the
/// one before it left. A transaction that fails leaves the wallets as they
/// were, and the run goes on.
pub open spec fn ledger_after_all(txs: Seq<CurrencyTransactions>, ledger: Ledger) -> Ledger
    decreases txs.len(),
{
    if txs.len() == 0 {
        ledger
    } else {
        ledger_after_all(txs.drop_first(), ledger_after(txs[0].outcome(ledger), ledger))
    }
}

/// Of two transactions that create a wallet for the same key, the first
/// succeeds if no wallet is stored under the key yet, and the second is
/// rejected because the wallet exists.
pub proof fn lemma_create_wallet_twice(first: TxCreateWallet, second: TxCreateWallet, ledger: Ledger)
    requires
        first@.pub_key == second@.pub_key,
    ensures
        first.outcome(ledger) is Ok <==> !ledger.contains_key(first@.pub_key),
        second.outcome(ledger_after(first.outcome(ledger), ledger)) == Err::<Ledger, Error>(
            Error::WalletAlreadyExists,
        ),
{
}

/// A wallet is created with the initial balance, under the key of its owner.
pub proof fn lemma_created_wallet(tx: TxCreateWallet, ledger: Ledger)
    requires
        !ledger.contains_key(tx@.pub_key),
    ensures
        tx.outcome(ledger) matches Ok(after) && after.contains_key(tx@.pub_key)
            && after[tx@.pub_key].pub_key == tx@.pub_key && after[tx@.pub_key].balance
            == INIT_BALANCE,
{
}

/// Whether every wallet is stored under the key of its owner.
pub open spec fn keyed_by_owner(ledger: Ledger) -> bool {
    forall|key: Seq<u8>| #[trigger] ledger.contains_key(key) ==> ledger[key].pub_key == key
}

/// If every wallet is stored under the key of its owner, this is still so
/// after any transaction.
pub proof fn lemma_keyed_by_owner(tx: CurrencyTransactions, ledger: Ledger)
    requires
        keyed_by_owner(ledger),
    ensures
        keyed_by_owner(ledger_after(tx.outcome(ledger), ledger)),
{
}

/// If every wallet is stored under the key of its owner, this is still so
/// after any run of transactions.
pub proof fn lemma_keyed_by_owner_all(txs: Seq<CurrencyTransactions>, ledger: Ledger)
    requires
        keyed_by_owner(ledger),
    ensures
        keyed_by_owner(ledger_after_all(txs, ledger)),
    decreases txs.len(),
{
    if txs.len() > 0 {
        lemma_keyed_by_owner(txs[0], ledger);
        lemma_keyed_by_owner_all(txs.drop_first(), ledger_after(txs[0].outcome(ledger), ledger));
    }
}

/// No transaction removes a wallet, and every transaction leaves finitely
/// many wallets where it found finitely many.
pub proof fn lemma_wallets_stay(tx: CurrencyTransactions, ledger: Ledger)
    ensures
        ledger.dom().subset_of(ledger_after(tx.outcome(ledger), ledger).dom()),
        ledger.dom().finite() ==> ledger_after(tx.outcome(ledger), ledger).dom().finite(),
{
}

/// No run of transactions removes a wallet.
pub proof fn lemma_wallets_stay_all(txs: Seq<CurrencyTransactions>, ledger: Ledger)
    ensures
        ledger.dom().subset_of(ledger_after_all(txs, ledger).dom()),
        ledger.dom().finite() ==> ledger_after_all(txs, ledger).dom().finite(),
    decreases txs.len(),
{
    if txs.len() > 0 {
        let next = ledger_after(txs[0].outcome(ledger), ledger);
        lemma_wallets_stay(txs[0], ledger);
        lemma_wallets_stay_all(txs.drop_first(), next);
    }
}

/// A transfer between two different wallets keeps the sum of all balances,
/// whether it succeeds or fails.
pub proof fn lemma_transfer_conserves_total(tx: TxTransfer, ledger: Ledger)
    requires
        ledger.dom().finite(),
        tx@.from != tx@.to,
    ensures
        total_balance(ledger_after(tx.outcome(ledger), ledger)) == total_balance(ledger),
{
    if tx.outcome(ledger) is Ok {
        let sender = ledger[tx@.from].with_balance((ledger[tx@.from].balance - tx@.amount) as u64);
        let receiver = ledger[tx@.to].with_balance((ledger[tx@.to].balance + tx@.amount) as u64);
        lemma_total_insert(ledger, tx@.from, sender);
        lemma_total_insert(ledger.insert(tx@.from, sender), tx@.to, receiver);
    }
}

/// Creating a wallet adds the initial balance to the sum of all balances.
pub proof fn lemma_create_wallet_total(tx: TxCreateWallet, ledger: Ledger)
    requires
        ledger.dom().finite(),
    ensures
        total_balance(ledger_after(tx.outcome(ledger), ledger)) == total_balance(ledger) + (
        if tx.outcome(ledger) is Ok {
            INIT_BALANCE as nat
        } else {
            0
        }),
{
    if tx.outcome(ledger) is Ok {
        let created = tx.outcome(ledger)->Ok_0[tx@.pub_key];
        lemma_total_insert(ledger, tx@.pub_key, created);
    }
}

/// Freezing takes the frozen amount out of the sum of all balances: the
/// tokens are recorded nowhere else.
pub proof fn lemma_freeze_total(tx: TxFreeze, ledger: Ledger)
    requires
        ledger.dom().finite(),
    ensures
        total_balance(ledger_after(tx.outcome(ledger), ledger)) + (if tx.outcome(ledger) is Ok {
            tx@.amount as nat
        } else {
            0
        }) == total_balance(ledger),
{
    if tx.outcome(ledger) is Ok {
        let frozen = ledger[tx@.pub_key].with_balance(
            (ledger[tx@.pub_key].balance - tx@.amount) as u64,
        );
        lemma_total_insert(ledger, tx@.pub_key, frozen);
    }
}

/// A run of wallet creations and of transfers that pass verification keeps
/// the sum of all balances.
pub proof fn lemma_run_conserves_total(txs: Seq<CurrencyTransactions>, ledger: Ledger)
    requires
        ledger.dom().finite(),
        forall|i: int|
            0 <= i < txs.len() ==> !(#[trigger] txs[i] is TxFreeze) && txs[i].spec_verify(true),
    ensures
        total_balance(ledger_after_all(txs, ledger)) == total_balance(ledger),
    decreases txs.len(),
{
    if txs.len() > 0 {
        let next = ledger_after(txs[0].outcome(ledger), ledger);
        assert(!(txs[0] is TxFreeze) && txs[0].spec_verify(true));
        match txs[0] {
            CurrencyTransactions::TxCreateWallet(tx) => {
                lemma_create_wallet_total(tx, ledger);
            },
            CurrencyTransactions::TxTransfer(tx) => {
                lemma_transfer_conserves_total(tx, ledger);
            },
            CurrencyTransactions::TxFreeze(tx) => {},
        }
        lemma_wallets_stay(txs[0], ledger);
        let rest = txs.drop_first();
        assert forall|i: int| 0 <= i < rest.len() implies !(#[trigger] rest[i] is TxFreeze)
            && rest[i].spec_verify(true) by {
            assert(rest[i] == txs[i + 1]);
        }
        lemma_run_conserves_total(rest, next);
    }
}

/// A transfer from a wallet to itself does not pass verification, whatever
/// its signature.
pub proof fn lemma_self_transfer_rejected(tx: TxTransfer, signature_valid: bool)
    requires
        tx@.from == tx@.to,
    ensures
        !tx.spec_verify(signature_valid),
{
}

/// The seed of a transfer has no part in its verification or its execution.
pub proof fn lemma_seed_has_no_effect(
    first: TxTransfer,
    second: TxTransfer,
    signature_valid: bool,
    ledger: Ledger,
)
    requires
        first@.from == second@.from,
        first@.to == second@.to,
        first@.amount == second@.amount,
    ensures
        first.spec_verify(signature_valid) == second.spec_verify(signature_valid),
        first.outcome(ledger) == second.outcome(ledger),
{
}

/// A transaction leaves alone every wallet but that of its signer and, for
/// a transfer, that of the receiver.
pub proof fn lemma_other_wallets_untouched(tx: CurrencyTransactions, ledger: Ledger, key: Seq<u8>)
    requires
        key != tx.spec_signer(),
        tx matches CurrencyTransactions::TxTransfer(transfer) ==> key != transfer@.to,
    ensures
        stored(ledger_after(tx.outcome(ledger), ledger), key) == stored(ledger, key),
{
}

/// A transfer or a freeze of more than the wallet holds fails, and a failed
/// transaction leaves every wallet as it was.
pub proof fn lemma_overdraft_fails(tx: CurrencyTransactions, ledger: Ledger)
    ensures
        tx matches CurrencyTransactions::TxTransfer(t) && ledger.contains_key(t@.from)
            && ledger.contains_key(t@.to) && t@.amount > ledger[t@.from].balance ==> tx.outcome(
            ledger,
        ) == Err::<Ledger, Error>(Error::InsufficientCurrencyAmount),
        tx matches CurrencyTransactions::TxFreeze(f) && ledger.contains_key(f@.pub_key)
            && f@.amount > ledger[f@.pub_key].balance ==> tx.outcome(ledger) == Err::<
            Ledger,
            Error,
        >(Error::InsufficientCurrencyAmount),
        tx.outcome(ledger) is Err ==> ledger_after(tx.outcome(ledger), ledger) == ledger,
{
}

} // verus!
