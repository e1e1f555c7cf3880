//! The ways in which a schema script can be rejected.

use vstd::prelude::*;

verus! {

/// Why a script was rejected. No diagram is produced for a rejected script.
#[derive(Debug, Clone, Copy, PartialEq, Eq, Structural)]
pub enum SchemaError {
    /// The field of a `FOREIGN KEY` line is not written as `("name")`.
    MalformedForeignKeyField,
    /// A table definition holds something other than field declarations.
    InvalidField,
    /// A statement is neither a table definition nor a foreign key.
    InvalidExpression,
}

impl SchemaError {
    /// A short description of the error.
    pub fn message(&self) -> (text: &'static str)
        ensures
            text@ == match *self {
                SchemaError::MalformedForeignKeyField => "malformed foreign key field"@,
                SchemaError::InvalidField => "invalid field"@,
                SchemaError::InvalidExpression => "invalid expression"@,
            },
    {
        match self {
            SchemaError::MalformedForeignKeyField => "malformed foreign key field",
            SchemaError::InvalidField => "invalid field",
            SchemaError::InvalidExpression => "invalid expression",
        }
    }
}

} // verus!
