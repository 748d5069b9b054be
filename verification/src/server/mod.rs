//! The wire protocol: packets, message encoding, login and what requests do.

use vstd::prelude::*;
use vstd::string::*;

pub mod auth;
pub mod link;
pub mod message;
pub mod oranum;
pub mod request;
pub mod tns;
pub mod ttc;
pub mod wire_order;

verus! {

/// Server settings.
#[derive(Debug, Clone)]
pub struct Config {
    /// The password every user logs in with. Any user name is accepted.
    pub password: String,
}

pub const DEFAULT_PASSWORD: &'static str = "oracle";

impl Default for Config {
    fn default() -> (c: Config)
        ensures
            c.password@ == DEFAULT_PASSWORD@,
    {
        Config { password: DEFAULT_PASSWORD.to_owned() }
    }
}

} // verus!
