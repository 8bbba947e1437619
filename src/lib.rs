//! A validating parser for web URLs of the form
//! `scheme://host[:port]/path[?query][#fragment]`, and a compact representation that keeps the
//! whole URL in one string with byte offsets to its components.

pub mod bytes;
pub mod fragment;
pub mod host;
pub mod laws;
pub mod param;
pub mod parse;
pub mod path;
pub mod query;
pub mod scheme;
mod text;
pub mod url;

pub use fragment::Fragment;
pub use param::Param;
pub use parse::Error;
pub use path::Path;
pub use query::Query;
pub use scheme::Scheme;
pub use url::{Host, WebUrl};
