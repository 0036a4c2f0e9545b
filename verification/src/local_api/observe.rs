//! What is seen of the mesh, and of the agent's saved state.

use crate::ipc::transport::opt_seen;
use crate::policy::firewall::{network_id_of, parse_network_id};
use vstd::prelude::*;
use vstd::string::*;

verus! {

/// Point-in-time mesh facts produced by the agent runtime.
#[derive(Debug)]
pub struct MeshObservation<M, P> {
    pub endpoint_id: String,
    pub hostname: String,
    pub mode: M,
    pub data_plane_up: bool,
    pub uptime_secs: u64,
    pub networks: Vec<ObservedNetwork>,
    pub peers: Vec<P>,
}

/// One network, as the runtime sees it.
#[derive(Debug)]
pub struct ObservedNetwork {
    pub network_id: String,
    pub network_name: String,
    pub ip: String,
    pub mode: String,
    pub role: String,
    pub peers_total: usize,
    pub peers_online: usize,
}

/// Why there is no agent state.
pub open spec fn not_connected(state_file: Seq<char>) -> Seq<char> {
    "not connected to a network yet (no state in "@ + state_file
        + "). Use `tunnet create` for Direct or `tunnet enroll` for Managed"@
}

/// The saved state of the agent, where there is one in the file.
pub fn discover_agent_state<T>(loaded: Option<T>, state_file: &str) -> (r: Result<T, String>)
    ensures
        r is Ok == loaded is Some,
        r matches Ok(s) ==> loaded == Some(s),
        r matches Err(m) ==> m@ == not_connected(state_file@),
{
    match loaded {
        Some(s) => Ok(s),
        None => {
            let mut m: String = "not connected to a network yet (no state in ".to_owned();
            m.append(state_file);
            m.append("). Use `tunnet create` for Direct or `tunnet enroll` for Managed");
            Err(m)
        },
    }
}

/// The primary network of the saved state, with the state.
pub fn discover_network_id<T>(
    loaded: Option<T>,
    primary: Option<u128>,
    state_file: &str,
) -> (r: Result<(u128, T), String>)
    ensures
        r is Ok == (loaded is Some && primary is Some),
        r matches Ok(p) ==> primary == Some(p.0) && loaded == Some(p.1),
        r matches Err(m) ==> m@ == (if loaded is None {
            not_connected(state_file@)
        } else {
            "persisted state has no network id"@
        }),
{
    match discover_agent_state(loaded, state_file) {
        Err(m) => Err(m),
        Ok(s) => match primary {
            Some(id) => Ok((id, s)),
            None => Err("persisted state has no network id".to_owned()),
        },
    }
}

/// Why no network is chosen.
#[derive(Debug, Clone, Copy, PartialEq, Eq, Structural)]
pub enum NoNetwork {
    /// The id that was given is none.
    BadId,
    /// No id was given, and no network is the primary one.
    Several,
}

/// The network that a request is about: the one that it names, else the primary one.
pub open spec fn network_meant(query: Option<Seq<char>>, primary: Option<u128>) -> Result<
    u128,
    NoNetwork,
> {
    match query {
        Some(text) => match network_id_of(text) {
            Some(id) => Ok(id),
            None => Err(NoNetwork::BadId),
        },
        None => match primary {
            Some(id) => Ok(id),
            None => Err(NoNetwork::Several),
        },
    }
}

pub fn routes_network(query: Option<&str>, primary: Option<u128>) -> (r: Result<u128, NoNetwork>)
    ensures
        r == network_meant(opt_seen(query), primary),
{
    match query {
        Some(text) => match parse_network_id(text) {
            Some(id) => Ok(id),
            None => Err(NoNetwork::BadId),
        },
        None => match primary {
            Some(id) => Ok(id),
            None => Err(NoNetwork::Several),
        },
    }
}

/// Why no network is chosen where none was given.
pub fn several_networks_message() -> (s: &'static str)
    ensures
        s@ == "multiple networks joined; pass ?network_id=<uuid>"@,
{
    "multiple networks joined; pass ?network_id=<uuid>"
}

/// A request that names a network is about that one, and about none where the name is no id;
/// one that names none is about the primary one.
pub proof fn law_network_of_a_request(text: Seq<char>, primary: Option<u128>)
    ensures
        network_id_of(text) is Some ==> network_meant(Some(text), primary) == Ok::<
            u128,
            NoNetwork,
        >(network_id_of(text)->0),
        network_id_of(text) is None ==> network_meant(Some(text), primary) == Err::<
            u128,
            NoNetwork,
        >(NoNetwork::BadId),
        primary is Some ==> network_meant(None, primary) == Ok::<u128, NoNetwork>(primary->0),
        primary is None ==> network_meant(None, primary) == Err::<u128, NoNetwork>(
            NoNetwork::Several,
        ),
{
}

} // verus!
