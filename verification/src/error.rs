//! The crate's error type: every fallible operation of the library reports one
//! of these variants. I/O and environment failures arrive from the caller as
//! plain message strings.

use vstd::prelude::*;

verus! {

#[derive(Debug)]
pub enum Error {
    /// An I/O failure, carried as its rendered message.
    Io(String),
    /// A missing or unreadable environment variable, as its rendered message.
    StdVar(String),
    /// Any other failure, described in words.
    Any(String),
    NoArgProvided,
    NoProjectsFound,
    InvalidArgs,
    UnSupportedOS,
    GitStatus,
}

impl Error {
    /// The user-facing message for this error, mirroring how each variant is
    /// reported on the diagnostic stream.
    pub fn message(&self) -> (r: String)
        ensures
            (match self {
                Error::Io(m) => r@ == m@,
                Error::StdVar(m) => r@ == m@,
                Error::Any(m) => r@ == m@,
                Error::NoArgProvided => r@ == "No argument provided"@,
                Error::InvalidArgs => r@
                    == "Invalid argument(s) provided. Try running command with --help flag"@,
                Error::NoProjectsFound => r@
                    == "No Project(s) found. Check README for more details"@,
                Error::UnSupportedOS => r@ == "Current OS is unsupported"@,
                Error::GitStatus => r@ == "Something went wrong while fetching git status"@,
            }),
    {
        match self {
            Error::Io(m) => m.clone(),
            Error::StdVar(m) => m.clone(),
            Error::Any(m) => m.clone(),
            Error::NoArgProvided => String::from_str("No argument provided"),
            Error::InvalidArgs => String::from_str(
                "Invalid argument(s) provided. Try running command with --help flag",
            ),
            Error::NoProjectsFound => String::from_str(
                "No Project(s) found. Check README for more details",
            ),
            Error::UnSupportedOS => String::from_str("Current OS is unsupported"),
            Error::GitStatus => String::from_str("Something went wrong while fetching git status"),
        }
    }
}

} // verus!
