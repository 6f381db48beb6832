//! Server configuration.
use vstd::prelude::*;
use vstd::string::*;

verus! {

/// Server configuration; currently only the port to listen on.
pub struct Config {
    pub port: String,
}

/// The port used where none is configured.
pub open spec fn default_port() -> Seq<char> {
    "8080"@
}

impl Config {
    /// The configuration for a configured port, where there is one.
    pub fn from_port(port: Option<String>) -> (c: Config)
        ensures
            c.port@ == match port {
                Some(p) => p@,
                None => default_port(),
            },
    {
        match port {
            Some(p) => Config { port: p },
            None => Config { port: String::from_str("8080") },
        }
    }

    /// The address to bind: every interface, on the configured port.
    pub fn address(&self) -> (r: String)
        ensures
            r@ == "0.0.0.0:"@ + self.port@,
    {
        let mut r = String::from_str("0.0.0.0:");
        r.append(self.port.as_str());
        r
    }
}

} // verus!
