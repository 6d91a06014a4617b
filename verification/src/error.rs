//! The errors of the library.

use vstd::prelude::*;
use vstd::string::StringExecFns;

verus! {

/// Why a text or a key could not be turned into a zqlu key.
#[derive(Debug)]
pub enum ZqluError {
    /// The input is not a valid key; the text says why.
    InvalidInput(String),
    /// The key type is not one that zqlu supports yet.
    UnsupportedKeyType,
}

/// Why `parse` could read the text as none of the formats it accepts: the
/// error of each reader in turn.
#[derive(Debug)]
pub enum ParsePublicKeyError {
    InvalidInput { openssh: ssh_key::Error, zqlu: ZqluError, pem: ZqluError },
}

/// The mathematical value of a [`ZqluError`].
pub enum ZqluErrorView {
    InvalidInput(Seq<char>),
    UnsupportedKeyType,
}

impl View for ZqluError {
    type V = ZqluErrorView;

    open spec fn view(&self) -> ZqluErrorView {
        match self {
            ZqluError::InvalidInput(m) => ZqluErrorView::InvalidInput(m@),
            ZqluError::UnsupportedKeyType => ZqluErrorView::UnsupportedKeyType,
        }
    }
}

/// The message shown for an error.
pub open spec fn error_message(e: ZqluErrorView) -> Seq<char> {
    match e {
        ZqluErrorView::InvalidInput(m) => "Failed to parse the provided input as a key: "@ + m,
        ZqluErrorView::UnsupportedKeyType => "Zqlu does not yet support the supplied key type"@,
    }
}

/// An `InvalidInput` error with the message `msg`.
pub fn invalid_input(msg: &str) -> (e: ZqluError)
    ensures
        e@ == ZqluErrorView::InvalidInput(msg@),
{
    ZqluError::InvalidInput(msg.to_owned())
}

impl ZqluError {
    /// The message shown for this error.
    pub fn to_string(&self) -> (s: String)
        ensures
            s@ == error_message(self@),
    {
        match self {
            ZqluError::InvalidInput(m) => {
                let s = String::from_str("Failed to parse the provided input as a key: ");
                s.concat(m.as_str())
            },
            ZqluError::UnsupportedKeyType => String::from_str(
                "Zqlu does not yet support the supplied key type",
            ),
        }
    }
}

} // verus!
