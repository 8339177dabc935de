//! Process configuration: the credential and endpoint values the rest of the
//! library consumes. Loading these from the environment is the caller's job;
//! the library only holds the loaded values.

use vstd::prelude::*;

verus! {

/// Configuration values shared by proxy construction and the cookie provider.
///
/// `proxy_username`, `proxy_password`, `proxy_host` and `proxy_port` describe
/// the upstream proxy account; `zenrows_api_key` authenticates against the
/// cookie-generation service; `api_port` and `proxies_txt_file` configure the
/// surrounding process.
pub struct Config {
    pub proxy_username: String,
    pub proxy_password: String,
    pub proxy_host: String,
    pub proxy_port: String,
    pub zenrows_api_key: String,
    pub api_port: String,
    pub proxies_txt_file: String,
}

} // verus!
