//! What is said to the user: the errors of a run, their messages and exit
//! codes, and the labels of the progress display.

use crate::decimal::{decimal, decimal_digits};
use vstd::prelude::*;
use vstd::string::StringExecFns;

verus! {

/// The errors that end a run.
#[derive(Clone, Copy, Debug, PartialEq, Eq, Structural)]
pub enum ChopError {
    /// The source could not be read or decoded.
    Load,
    /// The tile at `(column, row)`, both counted from zero, could not be
    /// encoded or written.
    Save { column: u32, row: u32 },
}

impl ChopError {
    /// The message of the error. The coordinates of a tile are given as
    /// they are, counted from zero.
    pub open spec fn message_of(self) -> Seq<char> {
        match self {
            ChopError::Load => "Error loading image"@,
            ChopError::Save { column, row } => "Error saving chunk "@ + decimal_digits(
                column as nat,
            ) + ", "@ + decimal_digits(row as nat),
        }
    }

    /// The line to print on standard error.
    pub fn message(&self) -> (text: String)
        ensures
            text@ == self.message_of(),
    {
        match self {
            ChopError::Load => String::from_str("Error loading image"),
            ChopError::Save { column, row } => {
                let mut text = String::from_str("Error saving chunk ");
                let column_text = decimal(*column as u64);
                text.append(column_text.as_str());
                text.append(", ");
                let row_text = decimal(*row as u64);
                text.append(row_text.as_str());
                text
            },
        }
    }

    /// The exit status of a run that ends with this error.
    pub fn exit_code(&self) -> (code: i32)
        ensures
            code == 1,
    {
        1
    }
}

/// The label of the progress display while tiles are written.
pub fn generating_label() -> (label: &'static str)
    ensures
        label@ == "Generating"@,
{
    "Generating"
}

/// The label of the line that closes a run in which every tile was
/// written.
pub fn saved_label() -> (label: &'static str)
    ensures
        label@ == "Saved"@,
{
    "Saved"
}

/// The message of the line that closes a run in which every tile was
/// written.
pub fn saved_message() -> (message: &'static str)
    ensures
        message@ == "Saved all files safely"@,
{
    "Saved all files safely"
}

} // verus!
