//! Core library of a modular device-control framework: a schema model for
//! interface and manifest documents, an error-taxonomy compiler that merges
//! declarative error references into discriminated unions, a command-registry
//! builder, and the decision logic of the generic command dispatcher.

use vstd::prelude::*;

pub mod dispatch;
pub mod error_list;
pub mod interface;
pub mod manifest;
pub mod registry;
pub mod session;
pub mod taxonomy;
pub mod types;
pub mod value;

verus! {

/// A recoverable fault of one command invocation, surfaced to the caller as
/// an ordinary typed result: a required argument is absent, or an argument
/// has the wrong shape.
#[derive(Debug)]
pub enum Error {
    MissingArgument(String),
    InvalidArgument(String),
}

/// Mathematical model of an invocation fault.
pub enum ErrorSpec {
    MissingArgument(Seq<char>),
    InvalidArgument(Seq<char>),
}

impl View for Error {
    type V = ErrorSpec;

    open spec fn view(&self) -> ErrorSpec {
        match self {
            Error::MissingArgument(n) => ErrorSpec::MissingArgument(n@),
            Error::InvalidArgument(n) => ErrorSpec::InvalidArgument(n@),
        }
    }
}

impl Error {
    /// The name of the argument the fault is about.
    pub fn argument_name(&self) -> (r: &str)
        ensures
            match self@ {
                ErrorSpec::MissingArgument(n) => r@ == n,
                ErrorSpec::InvalidArgument(n) => r@ == n,
            },
    {
        match self {
            Error::MissingArgument(n) => n.as_str(),
            Error::InvalidArgument(n) => n.as_str(),
        }
    }
}

/// Raw serialized payload exchanged with the native broker runtime. The
/// library only frames and checks such blobs; turning bytes into structured
/// values is left to the embedding process.
pub struct JsonBlob {
    pub data: Vec<u8>,
}

impl JsonBlob {
    /// The raw bytes of the payload.
    pub fn as_bytes(&self) -> (r: &[u8])
        ensures
            r@ == self.data@,
    {
        self.data.as_slice()
    }

    /// Wraps a byte buffer as a payload blob.
    pub fn from_vec(data: Vec<u8>) -> (r: Self)
        ensures
            r.data@ == data@,
    {
        JsonBlob { data }
    }
}

} // verus!
