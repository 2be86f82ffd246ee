//! The tunnel that exposes nothing: the gateway is reached directly.

use vstd::prelude::*;
use crate::text::{decimal, to_decimal};

verus! {

/// No tunnel: direct local access, no external exposure.
pub struct NoneTunnel;

impl NoneTunnel {
    /// The tunnel's name, `"none"`.
    pub fn name(&self) -> (r: &'static str)
        ensures
            r@ == "none"@,
    {
        "none"
    }

    /// "Starts" the tunnel: the address to reach is the local one,
    /// `http://{host}:{port}`.
    pub fn start(&self, local_host: &str, local_port: u16) -> (r: Result<String, String>)
        ensures
            r matches Ok(u) && u@ == "http://"@ + local_host@ + ":"@ + decimal(local_port as nat),
    {
        let port = to_decimal(local_port as u64);
        Ok(String::from_str("http://").concat(local_host).concat(":").concat(port.as_str()))
    }

    /// Nothing to stop.
    pub fn stop(&self) -> (r: Result<(), String>)
        ensures
            r is Ok,
    {
        Ok(())
    }

    /// Always healthy.
    pub fn health_check(&self) -> (r: bool)
        ensures
            r,
    {
        true
    }

    /// There is no public address.
    pub fn public_url(&self) -> (r: Option<String>)
        ensures
            r is None,
    {
        None
    }
}

} // verus!
