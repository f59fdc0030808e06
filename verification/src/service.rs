//! The service: its identity, and the course of one transaction through it.

use vstd::prelude::*;
use crate::contracts::Transaction;
use crate::errors::Error;
use crate::ledger::Ledger;
use crate::schema::CurrencySchema;
use crate::transactions::CurrencyTransactions;

verus! {

/// The identifier under which the service usually runs.
pub const SERVICE_ID: u16 = 1;

/// How the course of one transaction ended.
#[derive(Clone, Copy, Debug, PartialEq, Eq, Structural)]
pub enum TxStatus {
    /// The transaction did not pass verification and was not executed.
    Rejected,
    /// The transaction was executed, and the wallets are changed.
    Committed,
    /// A domain rule rejected the transaction during execution.
    Failed(Error),
}

/// The end of the course of `tx` against `ledger`, with the wallets
/// afterwards.
pub open spec fn spec_process(
    tx: CurrencyTransactions,
    signature_valid: bool,
    ledger: Ledger,
) -> (TxStatus, Ledger) {
    if !tx.spec_verify(signature_valid) {
        (TxStatus::Rejected, ledger)
    } else {
        match tx.outcome(ledger) {
            Ok(after) => (TxStatus::Committed, after),
            Err(error) => (TxStatus::Failed(error), ledger),
        }
    }
}

/// The cryptocurrency service.
#[derive(Clone, Copy, Debug)]
pub struct CurrencyService {
    service_id: u16,
}

impl CurrencyService {
    /// Makes the service with the identifier under which it runs.
    pub fn new(service_id: u16) -> (service: CurrencyService)
        ensures
            service.spec_service_id() == service_id,
    {
        CurrencyService { service_id }
    }

    /// The identifier that the service was made with.
    pub closed spec fn spec_service_id(&self) -> u16 {
        self.service_id
    }

    /// The identifier of the service.
    pub fn service_id(&self) -> (id: u16)
        ensures
            id == self.spec_service_id(),
    {
        self.service_id
    }

    /// The name of the service.
    pub fn service_name(&self) -> (name: &'static str)
        ensures
            name@ == "cryptocurrency"@,
    {
        "cryptocurrency"
    }

    /// Takes one transaction through verification and, if it passes,
    /// execution. `signature_valid` says whether the signature of the
    /// transaction is valid for the key of its signer. Only a committed
    /// transaction changes the wallets.
    pub fn process(
        &self,
        tx: &CurrencyTransactions,
        signature_valid: bool,
        schema: &mut CurrencySchema,
    ) -> (status: TxStatus)
        requires
            old(schema).wf(),
        ensures
            final(schema).wf(),
            (status, final(schema)@) == spec_process(*tx, signature_valid, old(schema)@),
            status != TxStatus::Committed ==> final(schema)@ == old(schema)@,
    {
        if !tx.verify(signature_valid) {
            return TxStatus::Rejected;
        }
        match tx.execute(schema) {
            Ok(()) => TxStatus::Committed,
            Err(error) => TxStatus::Failed(error),
        }
    }
}

impl Default for CurrencyService {
    fn default() -> (service: CurrencyService)
        ensures
            service.spec_service_id() == SERVICE_ID,
    {
        CurrencyService { service_id: SERVICE_ID }
    }
}

} // verus!
