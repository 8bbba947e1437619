use vstd::prelude::*;

verus! {

/// An error parsing a web-based URL, named after the part of the URL that was invalid.
#[derive(Copy, Clone, Ord, PartialOrd, Eq, PartialEq, Structural, Hash, Debug)]
pub enum Error {
    /// The scheme was invalid.
    InvalidScheme,
    /// The host was invalid.
    InvalidHost,
    /// The port was invalid.
    InvalidPort,
    /// The path was invalid.
    InvalidPath,
    /// The query was invalid.
    InvalidQuery,
    /// The query parameter was invalid.
    InvalidParam,
    /// The fragment was invalid.
    InvalidFragment,
    /// The URL was too long. (it must be under 4 GiB)
    UrlTooLong,
}

impl Error {
    /// Gets the error message.
    pub fn message(&self) -> (r: &'static str)
        ensures
            r@ == match *self {
                Error::InvalidScheme => "invalid scheme"@,
                Error::InvalidHost => "invalid host"@,
                Error::InvalidPort => "invalid port"@,
                Error::InvalidPath => "invalid path"@,
                Error::InvalidQuery => "invalid query"@,
                Error::InvalidParam => "invalid query parameter"@,
                Error::InvalidFragment => "invalid fragment"@,
                Error::UrlTooLong => "URL too long (>= 4 GiB)"@,
            },
    {
        match self {
            Error::InvalidScheme => "invalid scheme",
            Error::InvalidHost => "invalid host",
            Error::InvalidPort => "invalid port",
            Error::InvalidPath => "invalid path",
            Error::InvalidQuery => "invalid query",
            Error::InvalidParam => "invalid query parameter",
            Error::InvalidFragment => "invalid fragment",
            Error::UrlTooLong => "URL too long (>= 4 GiB)",
        }
    }
}

} // verus!
