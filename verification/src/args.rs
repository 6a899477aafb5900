//! The two paths that a run is given, and the errors of a run.

use vstd::prelude::*;
use crate::file::FileLCSError;
use crate::matrix::MatrixError;

verus! {

/// What is wrong with the arguments of a run.
#[derive(PartialEq, Eq, Debug, Clone, Copy)]
pub enum ArgsError {
    /// No path was given.
    NoArgs,
    /// Only one path was given.
    InvalidArgs,
}

impl ArgsError {
    /// The message that goes with the error.
    pub fn description(&self) -> (text: String)
        ensures
            text@ == (match *self {
                ArgsError::NoArgs => "No se pasaron argumentos"@,
                ArgsError::InvalidArgs => "La cantidad de argumentos pasados es erronea"@,
            }),
    {
        match self {
            ArgsError::NoArgs => "No se pasaron argumentos".to_owned(),
            ArgsError::InvalidArgs => "La cantidad de argumentos pasados es erronea".to_owned(),
        }
    }
}

/// Every way in which a run can fail.
#[derive(Debug)]
pub enum LCSError {
    Matrix(MatrixError),
    File(FileLCSError),
    Args(ArgsError),
}

/// Picks the paths of the new and the old text out of the arguments of a run,
/// the program's own name being the first of them. Arguments after the two
/// paths are not looked at.
pub fn file_arguments(args: &Vec<String>) -> (res: Result<(String, String), ArgsError>)
    ensures
        args@.len() < 2 ==> res matches Err(ArgsError::NoArgs),
        args@.len() == 2 ==> res matches Err(ArgsError::InvalidArgs),
        args@.len() > 2 ==> (res matches Ok(paths) && paths.0@ == args@[1]@ && paths.1@
            == args@[2]@),
{
    if args.len() > 1 {
        if args.len() > 2 {
            Ok((args[1].clone(), args[2].clone()))
        } else {
            Err(ArgsError::InvalidArgs)
        }
    } else {
        Err(ArgsError::NoArgs)
    }
}

} // verus!
