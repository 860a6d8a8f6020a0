//! The listening address of a server.
use vstd::prelude::*;

verus! {

/// The address a server listens on: its ip, a colon, its port.
pub fn server_address(ip: &str, port: &str) -> (address: String)
    ensures
        address@ == ip@ + ":"@ + port@,
{
    let mut address = String::new();
    address.append(ip);
    address.append(":");
    address.append(port);
    address
}

} // verus!
