//! Error type shared by agent initialisation and the aggregator.

use vstd::prelude::*;

verus! {

/// Error taxonomy: `IO` carries the text of an I/O failure raised while an
/// exporter was built or used; `Other` carries any other failure text, such as
/// a configuration conflict.
#[derive(Debug)]
pub enum Error {
    IO(String),
    Other(String),
}

impl Error {
    /// Wraps arbitrary failure text in the `Other` variant.
    pub fn other(msg: &str) -> (r: Error)
        ensures
            r matches Error::Other(m) && m@ == msg@,
    {
        Error::Other(msg.to_owned())
    }

    /// Wraps I/O failure text in the `IO` variant.
    pub fn io(msg: &str) -> (r: Error)
        ensures
            r matches Error::IO(m) && m@ == msg@,
    {
        Error::IO(msg.to_owned())
    }

    /// Returns the failure text carried by either variant.
    pub fn message(&self) -> (r: &String)
        ensures
            r@ == match self {
                Error::IO(m) => m@,
                Error::Other(m) => m@,
            },
    {
        match self {
            Error::IO(m) => m,
            Error::Other(m) => m,
        }
    }
}

} // verus!
