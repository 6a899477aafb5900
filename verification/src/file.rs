//! Errors of the source that a text is read from.

use vstd::prelude::*;

verus! {

/// Why a text could not be read.
#[derive(PartialEq, Eq, Debug)]
pub enum FileLCSError {
    /// The file at this path could not be opened.
    Open(String),
}

impl FileLCSError {
    /// The message that goes with the error.
    pub fn description(&self) -> (text: String)
        ensures
            text@ == "Hubo un error al intentar abrir el archivo"@,
    {
        match self {
            FileLCSError::Open(_) => "Hubo un error al intentar abrir el archivo".to_owned(),
        }
    }
}

} // verus!
