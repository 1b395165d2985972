//! Errors of the conversions, with the codes that callers match on.
use crate::text::join;
use vstd::prelude::*;

verus! {

/// Why a conversion was refused.
#[derive(Debug, Clone, PartialEq, Eq)]
pub enum CtclError {
    InvalidTimeValue(String),
    UnknownEncoding(String),
    InvalidTimezone(String),
    UnsupportedPolicy(String),
}

/// A `CtclError` with its text as characters.
pub enum CtclErrorModel {
    InvalidTimeValue(Seq<char>),
    UnknownEncoding(Seq<char>),
    InvalidTimezone(Seq<char>),
    UnsupportedPolicy(Seq<char>),
}

impl View for CtclError {
    type V = CtclErrorModel;

    open spec fn view(&self) -> CtclErrorModel {
        match *self {
            CtclError::InvalidTimeValue(s) => CtclErrorModel::InvalidTimeValue(s@),
            CtclError::UnknownEncoding(s) => CtclErrorModel::UnknownEncoding(s@),
            CtclError::InvalidTimezone(s) => CtclErrorModel::InvalidTimezone(s@),
            CtclError::UnsupportedPolicy(s) => CtclErrorModel::UnsupportedPolicy(s@),
        }
    }
}

impl CtclErrorModel {
    /// The error's code.
    pub open spec fn code(self) -> Seq<char> {
        match self {
            CtclErrorModel::InvalidTimeValue(_) => "INVALID_TIME_VALUE"@,
            CtclErrorModel::UnknownEncoding(_) => "UNKNOWN_ENCODING"@,
            CtclErrorModel::InvalidTimezone(_) => "INVALID_TIMEZONE"@,
            CtclErrorModel::UnsupportedPolicy(_) => "UNSUPPORTED_POLICY"@,
        }
    }

    /// The error in words.
    pub open spec fn message(self) -> Seq<char> {
        match self {
            CtclErrorModel::InvalidTimeValue(s) => "invalid time value: "@ + s,
            CtclErrorModel::UnknownEncoding(s) => "unknown encoding: "@ + s,
            CtclErrorModel::InvalidTimezone(s) => "invalid timezone: "@ + s,
            CtclErrorModel::UnsupportedPolicy(s) => "unsupported policy: "@ + s,
        }
    }
}

impl CtclError {
    /// The code that callers match on.
    pub fn code(&self) -> (r: &'static str)
        ensures
            r@ == self@.code(),
    {
        match self {
            CtclError::InvalidTimeValue(_) => "INVALID_TIME_VALUE",
            CtclError::UnknownEncoding(_) => "UNKNOWN_ENCODING",
            CtclError::InvalidTimezone(_) => "INVALID_TIMEZONE",
            CtclError::UnsupportedPolicy(_) => "UNSUPPORTED_POLICY",
        }
    }

    /// The error in words.
    pub fn message(&self) -> (r: String)
        ensures
            r@ == self@.message(),
    {
        match self {
            CtclError::InvalidTimeValue(s) => join("invalid time value: ", s.as_str()),
            CtclError::UnknownEncoding(s) => join("unknown encoding: ", s.as_str()),
            CtclError::InvalidTimezone(s) => join("invalid timezone: ", s.as_str()),
            CtclError::UnsupportedPolicy(s) => join("unsupported policy: ", s.as_str()),
        }
    }
}

/// Callers tell errors apart by their codes, and people by their messages, which name what was wrong.
pub proof fn law_errors_have_codes_and_messages(s: Seq<char>)
    ensures
        CtclErrorModel::InvalidTimeValue(s).code() == "INVALID_TIME_VALUE"@,
        CtclErrorModel::UnknownEncoding(s).code() == "UNKNOWN_ENCODING"@,
        CtclErrorModel::InvalidTimezone(s).code() == "INVALID_TIMEZONE"@,
        CtclErrorModel::UnsupportedPolicy(s).code() == "UNSUPPORTED_POLICY"@,
        CtclErrorModel::InvalidTimeValue(s).message() == "invalid time value: "@ + s,
        CtclErrorModel::UnknownEncoding(s).message() == "unknown encoding: "@ + s,
        CtclErrorModel::InvalidTimezone(s).message() == "invalid timezone: "@ + s,
        CtclErrorModel::UnsupportedPolicy(s).message() == "unsupported policy: "@ + s,
{
}

} // verus!
