//! Errors of the registry.
use crate::error::{CtclError, CtclErrorModel};
use crate::text::join;
use vstd::prelude::*;

verus! {

/// Why the registry refused an operation.
#[derive(Debug, Clone, PartialEq, Eq)]
pub enum StoreError {
    Sqlite(String),
    Json(String),
    UnknownInstant(String),
    UnknownSystem(String),
    UnknownGroup(String),
    InvalidInput(String),
    Core(CtclError),
}

/// A `StoreError` with its text as characters.
pub enum StoreErrorModel {
    Sqlite(Seq<char>),
    Json(Seq<char>),
    UnknownInstant(Seq<char>),
    UnknownSystem(Seq<char>),
    UnknownGroup(Seq<char>),
    InvalidInput(Seq<char>),
    Core(CtclErrorModel),
}

impl View for StoreError {
    type V = StoreErrorModel;

    open spec fn view(&self) -> StoreErrorModel {
        match *self {
            StoreError::Sqlite(s) => StoreErrorModel::Sqlite(s@),
            StoreError::Json(s) => StoreErrorModel::Json(s@),
            StoreError::UnknownInstant(s) => StoreErrorModel::UnknownInstant(s@),
            StoreError::UnknownSystem(s) => StoreErrorModel::UnknownSystem(s@),
            StoreError::UnknownGroup(s) => StoreErrorModel::UnknownGroup(s@),
            StoreError::InvalidInput(s) => StoreErrorModel::InvalidInput(s@),
            StoreError::Core(e) => StoreErrorModel::Core(e@),
        }
    }
}

impl StoreErrorModel {
    /// The error's code.
    pub open spec fn code(self) -> Seq<char> {
        match self {
            StoreErrorModel::UnknownInstant(_) => "UNKNOWN_INSTANT"@,
            StoreErrorModel::UnknownSystem(_) => "UNKNOWN_SYSTEM"@,
            StoreErrorModel::UnknownGroup(_) => "UNKNOWN_GROUP"@,
            StoreErrorModel::InvalidInput(_) => "INVALID_TIME_VALUE"@,
            StoreErrorModel::Core(e) => e.code(),
            StoreErrorModel::Sqlite(_) => "STORE_UNAVAILABLE"@,
            StoreErrorModel::Json(_) => "STORE_UNAVAILABLE"@,
        }
    }

    /// The error in words.
    pub open spec fn message(self) -> Seq<char> {
        match self {
            StoreErrorModel::Sqlite(s) => "database error: "@ + s,
            StoreErrorModel::Json(s) => "serialization error: "@ + s,
            StoreErrorModel::UnknownInstant(s) => "unknown instant: "@ + s,
            StoreErrorModel::UnknownSystem(s) => "unknown system: "@ + s,
            StoreErrorModel::UnknownGroup(s) => "unknown group: "@ + s,
            StoreErrorModel::InvalidInput(s) => "invalid input: "@ + s,
            StoreErrorModel::Core(e) => e.message(),
        }
    }
}

impl StoreError {
    /// The code that callers match on.
    pub fn code(&self) -> (r: &'static str)
        ensures
            r@ == self@.code(),
    {
        match self {
            StoreError::UnknownInstant(_) => "UNKNOWN_INSTANT",
            StoreError::UnknownSystem(_) => "UNKNOWN_SYSTEM",
            StoreError::UnknownGroup(_) => "UNKNOWN_GROUP",
            StoreError::InvalidInput(_) => "INVALID_TIME_VALUE",
            StoreError::Core(e) => e.code(),
            StoreError::Sqlite(_) => "STORE_UNAVAILABLE",
            StoreError::Json(_) => "STORE_UNAVAILABLE",
        }
    }

    /// The error in words.
    pub fn message(&self) -> (r: String)
        ensures
            r@ == self@.message(),
    {
        match self {
            StoreError::Sqlite(s) => join("database error: ", s.as_str()),
            StoreError::Json(s) => join("serialization error: ", s.as_str()),
            StoreError::UnknownInstant(s) => join("unknown instant: ", s.as_str()),
            StoreError::UnknownSystem(s) => join("unknown system: ", s.as_str()),
            StoreError::UnknownGroup(s) => join("unknown group: ", s.as_str()),
            StoreError::InvalidInput(s) => join("invalid input: ", s.as_str()),
            StoreError::Core(e) => e.message(),
        }
    }
}

/// Why a record cannot be read that should hold a number, and holds none.
pub open spec fn no_number() -> StoreErrorModel {
    StoreErrorModel::Json("invalid type: null, expected f64"@)
}

/// Why a record cannot be read that should hold a number, and holds none.
pub fn no_number_there() -> (r: StoreError)
    ensures
        r@ == no_number(),
{
    StoreError::Json("invalid type: null, expected f64".to_owned())
}

/// What a result says, with its texts as characters.
pub open spec fn outcome<T: View>(r: Result<T, StoreError>) -> Result<T::V, StoreErrorModel> {
    match r {
        Ok(v) => Ok(v@),
        Err(e) => Err(e@),
    }
}

/// What a result without a value says.
pub open spec fn done(r: Result<(), StoreError>) -> Result<(), StoreErrorModel> {
    match r {
        Ok(()) => Ok(()),
        Err(e) => Err(e@),
    }
}

/// Callers tell errors apart by their codes: what is not known by what it is, what cannot be kept by the
/// store, and what was given wrongly.
pub proof fn law_errors_have_their_codes(e: StoreErrorModel)
    ensures
        e is UnknownInstant ==> e.code() == "UNKNOWN_INSTANT"@,
        e is UnknownSystem ==> e.code() == "UNKNOWN_SYSTEM"@,
        e is UnknownGroup ==> e.code() == "UNKNOWN_GROUP"@,
        e is InvalidInput ==> e.code() == "INVALID_TIME_VALUE"@,
        e is Sqlite || e is Json ==> e.code() == "STORE_UNAVAILABLE"@,
        e matches StoreErrorModel::Core(c) ==> e.code() == c.code() && e.message() == c.message(),
{
}

} // verus!
