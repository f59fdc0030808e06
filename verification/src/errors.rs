//! Domain failures of transaction execution and their stable numeric codes.

use vstd::prelude::*;

verus! {

/// A domain rule that rejected a transaction during execution.
///
/// The codes are part of the interface to clients: a later error gets the
/// next free code, and no code changes its meaning.
#[derive(Clone, Copy, Debug, PartialEq, Eq, Structural)]
pub enum Error {
    /// A wallet is already stored under the given key.
    WalletAlreadyExists,
    /// No wallet is stored under the sender's key.
    SenderNotFound,
    /// No wallet is stored under the receiver's key.
    ReceiverNotFound,
    /// The wallet holds fewer tokens than the transaction asks for.
    InsufficientCurrencyAmount,
    /// The receiver's balance would no longer fit 64 bits.
    BalanceOverflow,
}

impl Error {
    /// The numeric code of each error.
    pub open spec fn spec_code(self) -> u8 {
        match self {
            Error::WalletAlreadyExists => 0,
            Error::SenderNotFound => 1,
            Error::ReceiverNotFound => 2,
            Error::InsufficientCurrencyAmount => 3,
            Error::BalanceOverflow => 4,
        }
    }

    /// The description of each error.
    pub open spec fn spec_description(self) -> Seq<char> {
        match self {
            Error::WalletAlreadyExists => "Wallet already exists"@,
            Error::SenderNotFound => "Sender doesn't exist"@,
            Error::ReceiverNotFound => "Receiver doesn't exist"@,
            Error::InsufficientCurrencyAmount => "Insufficient currency amount"@,
            Error::BalanceOverflow => "Receiver balance overflow"@,
        }
    }

    /// Returns the numeric code that clients match on.
    pub fn code(self) -> (code: u8)
        ensures
            code == self.spec_code(),
    {
        match self {
            Error::WalletAlreadyExists => 0,
            Error::SenderNotFound => 1,
            Error::ReceiverNotFound => 2,
            Error::InsufficientCurrencyAmount => 3,
            Error::BalanceOverflow => 4,
        }
    }

    /// Returns the human-readable description of the error.
    pub fn description(self) -> (text: &'static str)
        ensures
            text@ == self.spec_description(),
    {
        match self {
            Error::WalletAlreadyExists => "Wallet already exists",
            Error::SenderNotFound => "Sender doesn't exist",
            Error::ReceiverNotFound => "Receiver doesn't exist",
            Error::InsufficientCurrencyAmount => "Insufficient currency amount",
            Error::BalanceOverflow => "Receiver balance overflow",
        }
    }
}

/// Different errors have different codes.
pub proof fn lemma_codes_distinct(first: Error, second: Error)
    ensures
        first.spec_code() == second.spec_code() ==> first == second,
{
}

/// What an [`ExecutionError`] holds, as mathematical values.
pub struct ExecutionErrorView {
    /// The error code.
    pub code: u8,
    /// The description, if one was given.
    pub description: Option<Seq<char>>,
}

/// The failure of a transaction as the platform records it: an error code
/// and an optional description.
#[derive(Debug, PartialEq, Eq)]
pub struct ExecutionError {
    code: u8,
    description: Option<String>,
}

impl View for ExecutionError {
    type V = ExecutionErrorView;

    closed spec fn view(&self) -> ExecutionErrorView {
        ExecutionErrorView {
            code: self.code,
            description: match self.description {
                Some(text) => Some(text@),
                None => None,
            },
        }
    }
}

impl Clone for ExecutionError {
    fn clone(&self) -> (copy: ExecutionError)
        ensures
            copy@ == self@,
    {
        match &self.description {
            Some(text) => ExecutionError { code: self.code, description: Some(text.clone()) },
            None => ExecutionError { code: self.code, description: None },
        }
    }
}

impl ExecutionError {
    /// Makes an error with a code and no description.
    pub fn new(code: u8) -> (error: ExecutionError)
        ensures
            error@ == (ExecutionErrorView { code, description: None }),
    {
        ExecutionError { code, description: None }
    }

    /// Makes an error with a code and a description.
    pub fn with_description(code: u8, description: &str) -> (error: ExecutionError)
        ensures
            error@ == (ExecutionErrorView { code, description: Some(description@) }),
    {
        ExecutionError { code, description: Some(description.to_owned()) }
    }

    /// The error code.
    pub fn code(&self) -> (code: u8)
        ensures
            code == self@.code,
    {
        self.code
    }

    /// The description, if the error has one.
    pub fn description(&self) -> (text: Option<&str>)
        ensures
            text is Some <==> self@.description is Some,
            text matches Some(t) ==> self@.description == Some(t@),
    {
        match &self.description {
            Some(text) => Some(text.as_str()),
            None => None,
        }
    }
}

impl From<Error> for ExecutionError {
    /// The failure that the platform records for a domain error: the code
    /// of the error, with its description.
    fn from(value: Error) -> (error: ExecutionError)
        ensures
            error@ == (ExecutionErrorView {
                code: value.spec_code(),
                description: Some(value.spec_description()),
            }),
    {
        ExecutionError::with_description(value.code(), value.description())
    }
}

impl vstd::std_specs::convert::FromSpecImpl<Error> for ExecutionError {
    open spec fn obeys_from_spec() -> bool {
        false
    }

    open spec fn from_spec(value: Error) -> ExecutionError {
        arbitrary()
    }
}

} // verus!
