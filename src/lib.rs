//! Extraction of endpoints, subdomains, query parameters, custom headers and
//! vendor secrets from client-side script text.

pub mod endpoints;
pub mod laws;
pub mod matching;
pub mod parameters;
pub mod result_set;
pub mod secrets;
pub mod subdomains;

pub use endpoints::find_endpoints;
pub use parameters::{find_header, find_parameters};
pub use secrets::find_api_keys;
pub use subdomains::find_subdomains;
