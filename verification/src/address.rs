//! The address that the server listens on.

use vstd::prelude::*;

verus! {

/// The loopback interface, the only one the server binds to.
pub const LOOPBACK: &'static str = "127.0.0.1";

/// The port taken when none is chosen.
pub const DEFAULT_PORT: &'static str = "8080";

/// The listening address for a chosen port, or for the default port when
/// none is chosen: the loopback interface, a colon, the port.
pub open spec fn listen_address_of(port: Option<Seq<char>>) -> Seq<char> {
    LOOPBACK@ + seq![':'] + match port {
        Some(chosen) => chosen,
        None => DEFAULT_PORT@,
    }
}

/// The listening address for `port`: see [`listen_address_of`]. The port is
/// taken as it is given; whether it names a port is for the bind to find out.
pub fn listen_address(port: Option<&str>) -> (address: String)
    ensures
        address@ == listen_address_of(
            match port {
                Some(chosen) => Some(chosen@),
                None => None,
            },
        ),
{
    proof {
        reveal_strlit(":");
        assert(":"@ =~= seq![':']);
    }
    let mut address = LOOPBACK.to_owned();
    address.append(":");
    match port {
        Some(chosen) => address.append(chosen),
        None => address.append(DEFAULT_PORT),
    }
    address
}

} // verus!
