//! What is refused on the admin interface.

use crate::admin::methods::Error;
use vstd::prelude::*;

verus! {

pub enum AdminError {
    WriteProtectionEnabled,
    InvalidMethod(Error<Option<String>>),
    InvalidParams,
    InvalidLen,
    ParseError,
    OutOfBounds,
    Inaccessible,
}

impl AdminError {
    /// The code of the error in a reply.
    pub open spec fn number(self) -> int {
        match self {
            AdminError::InvalidMethod(_) => -32601,
            AdminError::InvalidParams => -32602,
            AdminError::InvalidLen => -32602,
            AdminError::ParseError => -32602,
            AdminError::OutOfBounds => -32602,
            AdminError::WriteProtectionEnabled => -32000,
            AdminError::Inaccessible => -32603,
        }
    }

    /// The code of the error in a reply.
    pub fn code(&self) -> (code: i64)
        ensures
            code == self.number(),
    {
        match self {
            AdminError::InvalidMethod(_) => -32601,
            AdminError::InvalidParams => -32602,
            AdminError::InvalidLen => -32602,
            AdminError::ParseError => -32602,
            AdminError::OutOfBounds => -32602,
            AdminError::WriteProtectionEnabled => -32000,
            AdminError::Inaccessible => -32603,
        }
    }

    pub open spec fn text(self) -> Seq<char> {
        match self {
            AdminError::WriteProtectionEnabled => "Write protection is enabled"@,
            AdminError::InvalidMethod(error) => error.text(),
            AdminError::InvalidParams => "Invalid params"@,
            AdminError::InvalidLen => "Invalid number of params"@,
            AdminError::ParseError => "Failed to parse params"@,
            AdminError::OutOfBounds => "Index out of bounds"@,
            AdminError::Inaccessible => "List is inaccessible"@,
        }
    }

    /// What is refused, in words.
    pub fn message(&self) -> (text: String)
        ensures
            text@ == self.text(),
    {
        match self {
            AdminError::WriteProtectionEnabled => "Write protection is enabled".to_owned(),
            AdminError::InvalidMethod(error) => error.message(),
            AdminError::InvalidParams => "Invalid params".to_owned(),
            AdminError::InvalidLen => "Invalid number of params".to_owned(),
            AdminError::ParseError => "Failed to parse params".to_owned(),
            AdminError::OutOfBounds => "Index out of bounds".to_owned(),
            AdminError::Inaccessible => "List is inaccessible".to_owned(),
        }
    }
}

/// Each error has its code and its words: what is no method, what is wrong with the parameters,
/// what is not allowed and what cannot be reached are told apart.
pub proof fn law_errors_have_codes_and_words(error: &AdminError, code: i64, text: String)
    requires
        call_ensures(AdminError::code, (error,), code),
        call_ensures(AdminError::message, (error,), text),
    ensures
        *error is InvalidMethod <==> code == -32601,
        *error is InvalidParams || *error is InvalidLen || *error is ParseError || *error
            is OutOfBounds <==> code == -32602,
        *error is WriteProtectionEnabled <==> code == -32000,
        *error is Inaccessible <==> code == -32603,
        *error is WriteProtectionEnabled ==> text@ == "Write protection is enabled"@,
        *error is InvalidParams ==> text@ == "Invalid params"@,
        *error is InvalidLen ==> text@ == "Invalid number of params"@,
        *error is ParseError ==> text@ == "Failed to parse params"@,
        *error is OutOfBounds ==> text@ == "Index out of bounds"@,
        *error is Inaccessible ==> text@ == "List is inaccessible"@,
{
}

} // verus!
