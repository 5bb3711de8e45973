//! The failures that the calendar reports.

use vstd::prelude::*;
use vstd::string::StringExecFns;

verus! {

/// Why an operation of the calendar failed.
#[derive(Clone, Debug, PartialEq, Eq)]
pub enum Error {
    /// A date or datetime of the query cannot be represented.
    InvalidRange,
    /// The search reached the end of the calendar without a result.
    NoWorkdayFound,
    /// A setter was given a configuration that cannot be used.
    ConfigurationError,
    /// A keyed argument lacks one of its keys.
    ArgKeyError { arg_name: String, key_name: String },
}

/// The `Debug` form of a text: the text between double quotes, with the
/// characters escaped that `Debug` escapes.
pub uninterp spec fn debug_form(text: Seq<char>) -> Seq<char>;

/// `format!` with `{:?}` on a string: its `Debug` form.
#[verifier::external_body]
fn debug_text(text: &String) -> (r: String)
    ensures
        r@ == debug_form(text@),
{
    format!("{:?}", text)
}

/// The message for a missing key, from the `Debug` forms of the names of
/// the argument and of the key.
pub fn key_error_message(argument: &str, key: &str) -> (r: String)
    ensures
        r@ == "key error for argment: "@ + argument@ + ", key:"@ + key@,
{
    "key error for argment: ".to_owned().concat(argument).concat(", key:").concat(key)
}

impl Error {
    /// What the message of an error says.
    pub open spec fn message_text(self) -> Seq<char> {
        match self {
            Error::InvalidRange => "invalid range"@,
            Error::NoWorkdayFound => "no workday found"@,
            Error::ConfigurationError => "configuration error"@,
            Error::ArgKeyError { arg_name, key_name } => "key error for argment: "@ + debug_form(
                arg_name@,
            ) + ", key:"@ + debug_form(key_name@),
        }
    }

    /// The message of the error.
    pub fn message(&self) -> (r: String)
        ensures
            r@ == self.message_text(),
    {
        match self {
            Error::InvalidRange => "invalid range".to_owned(),
            Error::NoWorkdayFound => "no workday found".to_owned(),
            Error::ConfigurationError => "configuration error".to_owned(),
            Error::ArgKeyError { arg_name, key_name } => {
                let argument = debug_text(arg_name);
                let key = debug_text(key_name);
                key_error_message(argument.as_str(), key.as_str())
            },
        }
    }

    /// The error for an argument `arg` that lacks the key `key`.
    pub fn missing_key(arg: &str, key: &str) -> (r: Error)
        ensures
            r matches Error::ArgKeyError { arg_name, key_name } && arg_name@ == arg@ && key_name@
                == key@,
    {
        Error::ArgKeyError { arg_name: arg.to_owned(), key_name: key.to_owned() }
    }
}

} // verus!
