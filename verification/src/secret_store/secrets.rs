//! The secrets of an agent, in memory.

use super::crypto::{encode_hex, hex_text};
use crate::names::{keyed, NameTable};
use crate::table::Table;
use vstd::prelude::*;
use vstd::string::*;

verus! {

/// Per-network sealed fields.
#[derive(Debug)]
pub struct NetworkSecrets {
    /// Join/bootstrap secret (hex). Not used for ongoing transport auth.
    pub join_secret: String,
    pub doc_ticket: Option<String>,
    /// Coordinator ed25519 signing key seed (hex). Present only on coordinator.
    pub coordinator_signing_key: Option<String>,
    /// The serialized grant of this endpoint.
    pub network_grant: Option<String>,
    /// Network content encryption key (32-byte hex).
    pub content_key: Option<String>,
}

/// Tokens of a login, as they are serialized.
#[derive(Debug, Clone)]
pub struct CliAuthTokens {
    pub json: String,
}

/// In-memory secrets held after unlock.
pub struct AgentSecrets {
    pub identity_seed: Vec<u8>,
    pub networks: Table<u128, NetworkSecrets>,
    pub auth: Option<CliAuthTokens>,
    /// Custom Direct relay auth tokens keyed by relay URL.
    pub relay_auth: NameTable<String>,
}

impl AgentSecrets {
    pub open spec fn wf(&self) -> bool {
        self.networks.wf() && self.relay_auth.wf()
    }

    /// The secrets of a new identity.
    pub fn from_identity(seed: Vec<u8>) -> (s: Self)
        ensures
            s.wf(),
            s.identity_seed == seed,
            s.networks@ == Map::<u128, NetworkSecrets>::empty(),
            s.auth is None,
            s.relay_auth@ == Map::<Seq<char>, String>::empty(),
    {
        AgentSecrets {
            identity_seed: seed,
            networks: Table::new(),
            auth: None,
            relay_auth: NameTable::new(),
        }
    }

    /// The identity seed in hexadecimal.
    pub fn seed_hex(&self) -> (s: String)
        ensures
            s@ == hex_text(self.identity_seed@),
    {
        encode_hex(self.identity_seed.as_slice())
    }
}

/// Whether there are sealed secrets.
pub fn secrets_exist(sealed: &Option<Vec<u8>>) -> (b: bool)
    ensures
        b == sealed is Some,
{
    sealed.is_some()
}

/// Store management tokens.
pub fn store_auth(secrets: &mut AgentSecrets, auth: CliAuthTokens)
    requires
        old(secrets).wf(),
    ensures
        final(secrets).wf(),
        *final(secrets) == (AgentSecrets { auth: Some(auth), ..*old(secrets) }),
{
    secrets.auth = Some(auth);
}

/// The management tokens; none without secrets.
pub fn load_auth(secrets: &Option<AgentSecrets>) -> (r: Option<CliAuthTokens>)
    ensures
        match *secrets {
            Some(s) => match s.auth {
                Some(a) => r matches Some(b) && b.json@ == a.json@,
                None => r is None,
            },
            None => r is None,
        },
{
    match secrets {
        Some(s) => match &s.auth {
            Some(a) => Some(CliAuthTokens { json: a.json.clone() }),
            None => None,
        },
        None => None,
    }
}

pub fn clear_auth(secrets: &mut AgentSecrets)
    requires
        old(secrets).wf(),
    ensures
        final(secrets).wf(),
        *final(secrets) == (AgentSecrets { auth: None, ..*old(secrets) }),
{
    secrets.auth = None;
}

/// The tokens of the relays by their URLs; none without secrets.
pub fn load_relay_auth(secrets: &Option<AgentSecrets>) -> (t: NameTable<String>)
    requires
        secrets matches Some(s) ==> s.wf(),
    ensures
        t.wf(),
        t@ == (match *secrets {
            Some(s) => s.relay_auth@,
            None => Map::empty(),
        }),
{
    match secrets {
        Some(s) => {
            let ghost all = keyed(s.relay_auth.entries@);
            let mut entries: Vec<(String, String)> = Vec::new();
            let mut i: usize = 0;
            assert(keyed(entries@) =~= all.take(0));
            while i < s.relay_auth.entries.len()
                invariant
                    all == keyed(s.relay_auth.entries@),
                    i <= all.len(),
                    keyed(entries@) == all.take(i as int),
                decreases s.relay_auth.entries.len() - i,
            {
                let ghost before = entries@;
                let e = &s.relay_auth.entries[i];
                entries.push((e.0.clone(), e.1.clone()));
                proof {
                    assert(keyed(entries@) =~= keyed(before).push(all[i as int]));
                    assert(all.take(i + 1) =~= all.take(i as int).push(all[i as int]));
                }
                i += 1;
            }
            assert(all.take(i as int) =~= all);
            NameTable { entries }
        },
        None => NameTable::new(),
    }
}

/// Keep the token of a relay by its URL; an empty token removes it.
pub fn store_relay_auth(secrets: &mut AgentSecrets, url: &str, token: String)
    requires
        old(secrets).wf(),
    ensures
        final(secrets).wf(),
        final(secrets).relay_auth@ == (if token@.len() == 0 {
            old(secrets).relay_auth@.remove(url@)
        } else {
            old(secrets).relay_auth@.insert(url@, token)
        }),
        (AgentSecrets { relay_auth: old(secrets).relay_auth, ..*final(secrets) }) == *old(secrets),
{
    if token.as_str().is_empty() {
        secrets.relay_auth.remove(url);
    } else {
        secrets.relay_auth.insert(url.to_owned(), token);
    }
}

pub fn clear_relay_auth(secrets: &mut AgentSecrets)
    requires
        old(secrets).wf(),
    ensures
        final(secrets).wf(),
        final(secrets).relay_auth@ == Map::<Seq<char>, String>::empty(),
        (AgentSecrets { relay_auth: old(secrets).relay_auth, ..*final(secrets) }) == *old(secrets),
{
    secrets.relay_auth = NameTable::new();
}

} // verus!
