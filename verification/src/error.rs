//! Errors surfaced by the store, and the host status code they map onto.

use crate::value::DataError;
use vstd::prelude::*;

verus! {

/// Engine status code for a key or database that was not found.
pub const MDB_NOTFOUND: i32 = -30798;

/// Engine status code for exceeding the named-database limit.
pub const MDB_DBS_FULL: i32 = -30791;

/// Engine status code for an incompatible reuse of a database slot.
pub const MDB_BAD_DBI: i32 = -30780;

/// Engine status code for a second live read transaction on one thread.
pub const MDB_BAD_RSLOT: i32 = -30783;

/// Engine status code for a database made with an incompatible discipline.
pub const MDB_INCOMPATIBLE: i32 = -30784;

/// Operating-system code for a path that does not exist.
pub const ENOENT: i32 = 2;

/// Operating-system code for an invalid argument, such as a store name
/// holding a NUL byte.
pub const EINVAL: i32 = 22;

/// A raw status code from the underlying storage engine.
#[derive(Clone, Copy, Debug, PartialEq, Eq, Structural)]
pub struct EngineError {
    pub code: i32,
}

/// Everything a store operation can fail with.
///
/// A missing key on `get` is *not* an error: it is `Ok(None)`. A missing key
/// on `delete` is `KeyAbsent`, so callers that want idempotent deletes can
/// catch exactly that case.
#[derive(Clone, Copy, Debug, PartialEq, Eq, Structural)]
pub enum StoreError {
    /// The environment directory does not exist; it is never created here.
    DirectoryDoesNotExist,
    /// `open_existing` found no store of that name.
    StoreDoesNotExist,
    /// Creating one more named store would exceed the limit fixed at open.
    TooManyStores,
    /// A second read transaction was begun on a thread that already has one.
    ReadTransactionAlreadyExists,
    /// `delete` of a key that is not present.
    KeyAbsent,
    /// The stored bytes do not decode as a tagged value.
    Data(DataError),
    /// Any other engine failure, with its native code.
    Engine(i32),
    /// `get_next` was called on an exhausted iterator.
    IterationFinished,
}

/// Host status code: success when the high bit is clear.
#[allow(non_camel_case_types)]
#[derive(Clone, Copy, Debug, PartialEq, Eq, Structural)]
pub struct nsresult(pub u32);

/// The success code.
pub const NS_OK: u32 = 0;

/// The generic failure code.
pub const NS_ERROR_FAILURE: u32 = 0x80004005;

/// The failure code for an unimplemented conversion.
pub const NS_ERROR_NOT_IMPLEMENTED: u32 = 0x80004001;

/// The failure code for an unexpected internal state.
pub const NS_ERROR_UNEXPECTED: u32 = 0x8000FFFF;

impl nsresult {
    /// A code is a failure exactly when its high bit is set.
    pub open spec fn spec_failed(self) -> bool {
        self.0 >= 0x8000_0000
    }

    /// Whether this code reports failure.
    pub fn failed(&self) -> (r: bool)
        ensures
            r == self.spec_failed(),
    {
        let code = self.0;
        proof {
            assert((code >> 31) != 0 <==> code >= 0x8000_0000u32) by (bit_vector);
        }
        (code >> 31) != 0
    }

    /// Whether this code reports success.
    pub fn succeeded(&self) -> (r: bool)
        ensures
            r == !self.spec_failed(),
    {
        !self.failed()
    }

    /// Split the code into the conventional `Result`: failures to `Err`.
    pub fn to_result(self) -> (r: Result<nsresult, nsresult>)
        ensures
            self.spec_failed() ==> r == Err::<nsresult, nsresult>(self),
            !self.spec_failed() ==> r == Ok::<nsresult, nsresult>(self),
    {
        if self.failed() {
            Err(self)
        } else {
            Ok(self)
        }
    }

    /// A printable name for the codes this crate itself produces; any
    /// other code is reported as unknown.
    pub fn error_name(&self) -> (r: String)
        ensures
            self.0 == NS_OK ==> r@ == "NS_OK"@,
            self.0 == NS_ERROR_FAILURE ==> r@ == "NS_ERROR_FAILURE"@,
            self.0 == NS_ERROR_NOT_IMPLEMENTED ==> r@ == "NS_ERROR_NOT_IMPLEMENTED"@,
            self.0 == NS_ERROR_UNEXPECTED ==> r@ == "NS_ERROR_UNEXPECTED"@,
            self.0 != NS_OK && self.0 != NS_ERROR_FAILURE && self.0 != NS_ERROR_NOT_IMPLEMENTED
                && self.0 != NS_ERROR_UNEXPECTED ==> r@ == "NS_ERROR_UNKNOWN"@,
    {
        if self.0 == NS_OK {
            "NS_OK".to_owned()
        } else if self.0 == NS_ERROR_FAILURE {
            "NS_ERROR_FAILURE".to_owned()
        } else if self.0 == NS_ERROR_NOT_IMPLEMENTED {
            "NS_ERROR_NOT_IMPLEMENTED".to_owned()
        } else if self.0 == NS_ERROR_UNEXPECTED {
            "NS_ERROR_UNEXPECTED".to_owned()
        } else {
            "NS_ERROR_UNKNOWN".to_owned()
        }
    }
}

impl StoreError {
    /// The host status code for this error: always a failure code.
    pub fn to_nsresult(&self) -> (r: nsresult)
        ensures
            r.spec_failed(),
            r.0 == match self {
                StoreError::Data(_) => NS_ERROR_NOT_IMPLEMENTED,
                StoreError::IterationFinished => NS_ERROR_UNEXPECTED,
                _ => NS_ERROR_FAILURE,
            },
    {
        match self {
            StoreError::Data(_) => nsresult(NS_ERROR_NOT_IMPLEMENTED),
            StoreError::IterationFinished => nsresult(NS_ERROR_UNEXPECTED),
            _ => nsresult(NS_ERROR_FAILURE),
        }
    }
}

} // verus!
