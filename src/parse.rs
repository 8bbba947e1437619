//! The parsing pipeline: the pre-path stage (scheme, host, port), the path-plus stage (path,
//! query, fragment), and the finalizer that turns both into a `WebUrl`.

pub mod error;
pub mod finalize;
pub mod from_str;
pub mod path_plus;
pub mod pre_path;

pub use error::Error;
pub use finalize::finalize_web_url;
pub use path_plus::{parse_fragment, parse_path, parse_path_plus, parse_query, PathPlus};
pub use pre_path::{
    parse_host, parse_ip_and_validate_domain, parse_port, parse_pre_path, parse_scheme_len,
    PrePath,
};
