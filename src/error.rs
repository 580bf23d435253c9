use vstd::prelude::*;

verus! {

/// Everything that can stop a bulk edit.
#[derive(Debug)]
pub enum Error {
    /// A required argument was given neither on the command line nor in the environment.
    MissingArgument(String),
    /// An argument could not be read.
    ParseArgument(String),
    /// The edited document does not fit the items it was made from.
    InvalidEditResult(String),
    /// An item cannot be written as one line of the document.
    NotEditableItem(String),
    /// The text editor did not finish successfully (its exit code, when it has one).
    Command(Option<i32>),
    /// A new channel name breaks the naming rules.
    InvalidChannelName { name: String, message: String },
}

} // verus!
