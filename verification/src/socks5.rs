//! SOCKS5 proxy nodes.

use vstd::prelude::*;

use crate::text;

verus! {

pub const NO_HOST: &'static str = "SOCKS5 node is missing its host";

pub const NO_PASSWORD: &'static str = "a SOCKS5 username needs a password";

/// A proxy, and what it asks for.
#[derive(Debug, Clone)]
pub struct Socks5NodeConfig {
    pub host: String,
    pub port: u16,
    pub username: Option<String>,
    pub password: Option<String>,
}

/// Why a proxy's settings cannot be used. A username without a password would
/// silently fall back to no authentication.
pub open spec fn proxy_fault(
    host: Seq<char>,
    username: Option<Seq<char>>,
    password: Option<Seq<char>>,
) -> Option<Seq<char>> {
    if text::trimmed(host).len() == 0 {
        Some(NO_HOST@)
    } else if username is Some && password is None {
        Some(NO_PASSWORD@)
    } else {
        None
    }
}

impl Socks5NodeConfig {
    /// Checks the settings without touching the network.
    pub fn validate(&self) -> (r: Result<(), String>)
        ensures
            match proxy_fault(
                self.host@,
                text::option_view(self.username),
                text::option_view(self.password),
            ) {
                Some(why) => r matches Err(message) && message@ == why,
                None => r is Ok,
            },
    {
        if text::trim(text::chars(self.host.as_str()).as_slice()).len() == 0 {
            return Err(NO_HOST.to_owned());
        }
        if self.username.is_some() && self.password.is_none() {
            return Err(NO_PASSWORD.to_owned());
        }
        Ok(())
    }
}

/// A proxy needs a host, and a password where it has a username; a password
/// alone or neither will do.
pub proof fn what_a_proxy_needs(
    host: Seq<char>,
    username: Option<Seq<char>>,
    password: Option<Seq<char>>,
)
    ensures
        proxy_fault(host, username, password) is None <==> text::trimmed(host).len() > 0 && (
        username is None || password is Some),
{
}

} // verus!
