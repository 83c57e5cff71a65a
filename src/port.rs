use vstd::prelude::*;

verus! {

/// First port that is probed.
pub const PORT_RANGE_START: u16 = 8000;
/// End (exclusive) of the probed ports.
pub const PORT_RANGE_END: u16 = 9000;

/// The first port from `PORT_RANGE_START` up to `PORT_RANGE_END` (exclusive) for which
/// `port_is_available` answers true, probing them in order; `None` where none does.
pub fn get_available_port<F: Fn(u16) -> bool>(port_is_available: F) -> (r: Option<u16>)
    requires
        forall|p: u16| port_is_available.requires((p,)),
    ensures
        r matches Some(p) ==> PORT_RANGE_START <= p < PORT_RANGE_END
            && port_is_available.ensures((p,), true)
            && forall|q: u16| PORT_RANGE_START <= q < p ==> port_is_available.ensures((q,), false),
        r is None ==> forall|q: u16|
            PORT_RANGE_START <= q < PORT_RANGE_END ==> port_is_available.ensures((q,), false),
{
    let mut port: u16 = PORT_RANGE_START;
    while port < PORT_RANGE_END
        invariant
            PORT_RANGE_START <= port <= PORT_RANGE_END,
            forall|p: u16| port_is_available.requires((p,)),
            forall|q: u16| PORT_RANGE_START <= q < port ==> port_is_available.ensures((q,), false),
        decreases PORT_RANGE_END - port,
    {
        if port_is_available(port) {
            return Some(port);
        }
        port = port + 1;
    }
    None
}

} // verus!
