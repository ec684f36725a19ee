pub mod igdb;
pub mod laws;
pub mod logs;
pub mod monitor;
pub mod records;
pub mod registry;
pub mod schema;
pub mod settings;
pub mod steam;
pub mod store;
pub mod sync;
pub mod text;

use vstd::prelude::*;

verus! {

/// The errors of the library. What the store layer or an outside parser
/// reports is carried as a typed value; a text payload holds the message of
/// a configuration error.
#[derive(Debug)]
pub enum Error {
    /// A process id that the system no longer knows.
    ProcessNotFound,
    /// A settings or registry document that does not parse.
    TomlParse,
    /// A configuration error, with its message.
    Custom(Vec<char>),
}

pub ghost enum ErrorV {
    ProcessNotFound,
    TomlParse,
    Custom(Seq<char>),
}

impl View for Error {
    type V = ErrorV;

    open spec fn view(&self) -> ErrorV {
        match self {
            Error::ProcessNotFound => ErrorV::ProcessNotFound,
            Error::TomlParse => ErrorV::TomlParse,
            Error::Custom(m) => ErrorV::Custom(m@),
        }
    }
}

} // verus!
