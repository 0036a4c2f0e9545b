//! The public state of an agent and its sealed secrets together.

use super::secrets::{AgentSecrets, NetworkSecrets};
use super::store::SealTier;
use crate::names::NameTable;
use crate::node::{DirectState, PersistedState};
use crate::table::Table;
use crate::text::copy_text;
use vstd::prelude::*;

verus! {

/// What is sealed of a network.
pub open spec fn network_secrets(d: DirectState) -> NetworkSecrets {
    NetworkSecrets {
        join_secret: d.join_secret,
        doc_ticket: d.doc_ticket,
        coordinator_signing_key: d.coordinator_signing_key,
        network_grant: d.network_grant,
        content_key: d.content_key,
    }
}

fn sealed_fields(d: &DirectState) -> (n: NetworkSecrets)
    ensures
        n == network_secrets(*d),
{
    NetworkSecrets {
        join_secret: d.join_secret.clone(),
        doc_ticket: copy_text(&d.doc_ticket),
        coordinator_signing_key: copy_text(&d.coordinator_signing_key),
        network_grant: copy_text(&d.network_grant),
        content_key: copy_text(&d.content_key),
    }
}

/// What is sealed of networks, by their ids; the last one with an id counts.
pub open spec fn sealed_parts(s: Seq<DirectState>) -> Map<u128, NetworkSecrets>
    decreases s.len(),
{
    if s.len() == 0 {
        Map::empty()
    } else {
        sealed_parts(s.drop_last()).insert(s.last().network_id, network_secrets(s.last()))
    }
}

/// The Direct networks of a state.
pub open spec fn networks_of(state: PersistedState) -> Seq<DirectState> {
    match state {
        PersistedState::Managed(_) => Seq::empty(),
        PersistedState::Direct { networks } => networks@,
    }
}

fn seal_networks(networks: &[DirectState]) -> (t: Table<u128, NetworkSecrets>)
    ensures
        t.wf(),
        t@ == sealed_parts(networks@),
{
    let ghost all = networks@;
    let mut t: Table<u128, NetworkSecrets> = Table::new();
    let mut i: usize = 0;
    assert(all.take(0) =~= Seq::<DirectState>::empty());
    while i < networks.len()
        invariant
            all == networks@,
            i <= all.len(),
            t.wf(),
            t@ == sealed_parts(all.take(i as int)),
        decreases networks.len() - i,
    {
        proof {
            assert(all.take(i + 1).drop_last() =~= all.take(i as int));
            assert(all.take(i + 1).last() == all[i as int]);
        }
        t.insert(networks[i].network_id, sealed_fields(&networks[i]));
        i += 1;
    }
    assert(all.take(i as int) =~= all);
    t
}

/// The secrets to save with an agent's state: its identity, the secrets of its networks,
/// and the tokens that were saved before.
pub fn persist_agent(seed: Vec<u8>, state: &PersistedState, existing: Option<AgentSecrets>) -> (s:
    AgentSecrets)
    requires
        existing matches Some(e) ==> e.wf(),
    ensures
        s.wf(),
        s.identity_seed == seed,
        s.networks@ == sealed_parts(networks_of(*state)),
        s.auth == (match existing {
            Some(e) => e.auth,
            None => None,
        }),
        s.relay_auth@ == (match existing {
            Some(e) => e.relay_auth@,
            None => Map::empty(),
        }),
{
    let networks: Table<u128, NetworkSecrets> = match state {
        PersistedState::Managed(_) => Table::new(),
        PersistedState::Direct { networks } => seal_networks(networks.as_slice()),
    };
    match existing {
        Some(e) => AgentSecrets {
            identity_seed: seed,
            networks,
            auth: e.auth,
            relay_auth: e.relay_auth,
        },
        None => AgentSecrets {
            identity_seed: seed,
            networks,
            auth: None,
            relay_auth: NameTable::new(),
        },
    }
}

/// A network with its sealed fields, where there are any.
pub open spec fn with_secrets(d: DirectState, m: Map<u128, NetworkSecrets>) -> DirectState {
    if m.dom().contains(d.network_id) {
        let n = m[d.network_id];
        DirectState {
            join_secret: n.join_secret,
            doc_ticket: n.doc_ticket,
            coordinator_signing_key: n.coordinator_signing_key,
            network_grant: n.network_grant,
            content_key: n.content_key,
            ..d
        }
    } else {
        d
    }
}

fn unseal_network(d: DirectState, secrets: &AgentSecrets) -> (r: DirectState)
    requires
        secrets.wf(),
    ensures
        r == with_secrets(d, secrets.networks@),
{
    let mut d = d;
    if let Some(n) = secrets.networks.get(&d.network_id) {
        d.join_secret = n.join_secret.clone();
        d.doc_ticket = copy_text(&n.doc_ticket);
        d.coordinator_signing_key = copy_text(&n.coordinator_signing_key);
        d.network_grant = copy_text(&n.network_grant);
        d.content_key = copy_text(&n.content_key);
    }
    d
}

/// A state is another one with the sealed fields of its networks.
pub open spec fn is_unsealed(
    before: PersistedState,
    after: PersistedState,
    m: Map<u128, NetworkSecrets>,
) -> bool {
    match before {
        PersistedState::Managed(_) => after == before,
        PersistedState::Direct { networks } => after is Direct && networks_of(after) == Seq::new(
            networks@.len(),
            |i: int| with_secrets(networks@[i], m),
        ),
    }
}

/// Merges the sealed fields into a state.
pub fn apply_secrets(state: PersistedState, secrets: &AgentSecrets) -> (r: PersistedState)
    requires
        secrets.wf(),
    ensures
        is_unsealed(state, r, secrets.networks@),
{
    match state {
        PersistedState::Managed(m) => PersistedState::Managed(m),
        PersistedState::Direct { networks } => {
            let ghost d = networks@;
            let ghost m = secrets.networks@;
            let count: usize = networks.len();
            let mut rest = networks;
            let mut out: Vec<DirectState> = Vec::new();
            let mut n: usize = 0;
            while n < count
                invariant
                    secrets.wf(),
                    m == secrets.networks@,
                    count == d.len(),
                    n <= count,
                    n + rest@.len() == d.len(),
                    rest@ == d.skip(n as int),
                    out@.len() == n,
                    forall|i: int| 0 <= i < n ==> #[trigger] out@[i] == with_secrets(d[i], m),
                decreases count - n,
            {
                let net = rest.remove(0);
                proof {
                    assert(net == d[n as int]);
                    assert(rest@ =~= d.skip(n + 1));
                }
                out.push(unseal_network(net, secrets));
                n += 1;
            }
            assert(out@ =~= Seq::new(d.len(), |i: int| with_secrets(d[i], m)));
            PersistedState::Direct { networks: out }
        },
    }
}

/// An agent as it was saved: the seed of its identity, its state with the secrets merged
/// in, and the tier in which they were kept.
pub fn load_agent(secrets: AgentSecrets, tier: SealTier, state: PersistedState) -> (r: (
    Vec<u8>,
    PersistedState,
    SealTier,
))
    requires
        secrets.wf(),
    ensures
        r.0 == secrets.identity_seed,
        is_unsealed(state, r.1, secrets.networks@),
        r.2 == tier,
{
    let state = apply_secrets(state, &secrets);
    (secrets.identity_seed, state, tier)
}

/// Two networks differ in nothing but what is sealed of them.
pub open spec fn same_public(a: DirectState, b: DirectState) -> bool {
    a == (DirectState {
        join_secret: a.join_secret,
        doc_ticket: a.doc_ticket,
        coordinator_signing_key: a.coordinator_signing_key,
        network_grant: a.network_grant,
        content_key: a.content_key,
        ..b
    })
}

/// No two networks have the same id.
pub open spec fn distinct_ids(s: Seq<DirectState>) -> bool {
    forall|i: int, j: int|
        0 <= i < j < s.len() ==> (#[trigger] s[i]).network_id != (#[trigger] s[j]).network_id
}

proof fn lemma_sealed(s: Seq<DirectState>, i: int)
    requires
        distinct_ids(s),
        0 <= i < s.len(),
    ensures
        sealed_parts(s).dom().contains(s[i].network_id),
        sealed_parts(s)[s[i].network_id] == network_secrets(s[i]),
    decreases s.len(),
{
    if i < s.len() - 1 {
        lemma_sealed(s.drop_last(), i);
        assert(s[i].network_id != s[s.len() - 1].network_id);
    }
}

/// What is sealed of a network comes back: merged into a network that was saved without
/// it, the secrets of an agent give the network as it was.
pub proof fn law_saved_network_comes_back(networks: Seq<DirectState>, i: int, public: DirectState)
    requires
        distinct_ids(networks),
        0 <= i < networks.len(),
        same_public(public, networks[i]),
    ensures
        with_secrets(public, sealed_parts(networks)) == networks[i],
{
    lemma_sealed(networks, i);
}

} // verus!
