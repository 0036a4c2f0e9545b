//! What a node starts with.

use super::{
    address_in, comma_joined, failed_names, has_news, is_last_seen, metered, offered, online_by,
    plan_fault, running_ids, seeds_of, state_after, Alpn, DirectState, GrantRead, NetworkStart,
    Relay,
};
use vstd::prelude::*;

verus! {

/// The protocols that a node offers, each once: streams and transfers always; datagrams and
/// recordings where they are advertised; gossip where it is enabled and in Direct mode, which
/// alone has authentication and documents.
pub proof fn law_offered_protocols(datagram: bool, recording: bool, direct: bool, gossip: bool)
    ensures
        ({
            let v = offered(datagram, recording, direct, gossip);
            &&& v.contains(Alpn::Stream) && v.contains(Alpn::Send) && v.contains(Alpn::Blobs)
            &&& v.contains(Alpn::Datagram) == datagram
            &&& v.contains(Alpn::Recording) == recording
            &&& v.contains(Alpn::Auth) == direct
            &&& v.contains(Alpn::Docs) == direct
            &&& v.contains(Alpn::Gossip) == (direct || gossip)
            &&& v.no_duplicates()
            &&& v[0] == Alpn::Stream
        }),
{
    let v = offered(datagram, recording, direct, gossip);
    let a: int = if datagram {
        2
    } else {
        1
    };
    let b: int = if recording {
        a + 1
    } else {
        a
    };
    assert(v[0] == Alpn::Stream);
    assert(datagram ==> v[1] == Alpn::Datagram);
    assert(recording ==> v[a] == Alpn::Recording);
    assert(v[b] == Alpn::Send && v[b + 1] == Alpn::Blobs);
    assert(direct ==> v[b + 2] == Alpn::Auth && v[b + 3] == Alpn::Gossip && v[b + 4] == Alpn::Docs);
    assert(!direct && gossip ==> v[b + 2] == Alpn::Gossip);
    assert(v.len() == b + 2 + (if direct {
        3int
    } else if gossip {
        1
    } else {
        0
    }));
}

/// A network keeps the address that it was given; one that has none takes the derived one.
pub proof fn law_address_of_a_network(assigned: u32, derived: u32)
    ensures
        assigned != 0 ==> address_in(assigned, derived) == assigned,
        address_in(0, derived) == derived,
{
}

/// A coordinator starts without a grant; a member needs one that can be read; nobody starts
/// with a signing key that cannot.
pub proof fn law_who_can_start(d: DirectState, grant: GrantRead)
    ensures
        plan_fault(d, false, grant) is Some,
        d.coordinator ==> plan_fault(d, true, grant) is None,
        !d.coordinator ==> plan_fault(d, true, grant) is None == grant is Readable,
        d.coordinator_endpoint_id is Some ==> seeds_of(d).len() == 1 && seeds_of(d)[0]
            == d.coordinator_endpoint_id->0@,
        d.coordinator_endpoint_id is None ==> seeds_of(d).len() == 0,
{
}

/// Every network either runs or has failed; those that run are named by their ids.
pub proof fn law_networks_run_or_fail(d: Seq<DirectState>, s: Seq<NetworkStart>, n: nat, i: int)
    requires
        d.len() == s.len(),
        n <= d.len(),
        0 <= i < n,
    ensures
        running_ids(d, s, n).len() + failed_names(d, s, n).len() == n,
        s[i] is Running ==> running_ids(d, s, n).contains(d[i].network_id),
        s[i] is Failed ==> failed_names(d, s, n).contains(d[i].network_name@),
        forall|id: u128| #[trigger]
            running_ids(d, s, n).contains(id) ==> exists|j: int|
                0 <= j < n && s[j] is Running && (#[trigger] d[j]).network_id == id,
    decreases n,
{
    let m = (n - 1) as nat;
    let r = running_ids(d, s, m);
    let f = failed_names(d, s, m);
    let rn = running_ids(d, s, n);
    let fne = failed_names(d, s, n);
    if m > 0 {
        law_networks_run_or_fail(
            d,
            s,
            m,
            if i < m {
                i
            } else {
                0
            },
        );
    }
    if i == m {
        if s[i] is Running {
            assert(rn[r.len() as int] == d[i].network_id);
        } else {
            assert(fne[f.len() as int] == d[i].network_name@);
        }
    } else if s[i] is Running {
        let k = choose|k: int| 0 <= k < r.len() && r[k] == d[i].network_id;
        assert(rn[k] == d[i].network_id);
    } else {
        let k = choose|k: int| 0 <= k < f.len() && f[k] == d[i].network_name@;
        assert(fne[k] == d[i].network_name@);
    }
    assert forall|id: u128| #[trigger] rn.contains(id) implies exists|j: int|
        0 <= j < n && s[j] is Running && (#[trigger] d[j]).network_id == id by {
        let k = choose|k: int| 0 <= k < rn.len() && rn[k] == id;
        if k < r.len() {
            assert(r[k] == id);
            assert(r.contains(id));
            let j = choose|j: int|
                0 <= j < m && s[j] is Running && (#[trigger] d[j]).network_id == id;
            assert(d[j].network_id == id);
        } else {
            assert(d[m as int].network_id == id);
        }
    }
}

/// A network that runs is saved with its address and what is new of its documents; what is
/// not new of them stays.
pub proof fn law_running_network_is_saved(
    d: DirectState,
    ip: u32,
    ticket: Option<String>,
    namespace: Option<String>,
)
    ensures
        ({
            let s = NetworkStart::Running { ip, new_ticket: ticket, new_namespace: namespace };
            let a = state_after(d, s);
            &&& a.assigned_ipv4 == ip
            &&& ticket is Some ==> a.doc_ticket == ticket && has_news(s)
            &&& ticket is None ==> a.doc_ticket == d.doc_ticket
            &&& namespace is Some ==> a.namespace_id == namespace && has_news(s)
            &&& namespace is None ==> a.namespace_id == d.namespace_id
            &&& ticket is None && namespace is None ==> !has_news(s)
            &&& a.network_id == d.network_id
            &&& a.network_name == d.network_name
            &&& a.join_secret == d.join_secret
        }),
{
}

/// Names are listed with a comma and a space between them.
pub proof fn law_names_are_listed(v: Seq<Seq<char>>, n: Seq<char>)
    ensures
        v.len() > 0 ==> comma_joined(v.push(n)) == comma_joined(v) + seq![',', ' '] + n,
        comma_joined(seq![n]) == n,
{
    reveal_strlit(", ");
    assert(v.push(n).drop_last() =~= v);
    assert(", "@ =~= seq![',', ' ']);
}

/// One table that sees a peer online is enough; it is offline where a table knows it and none
/// sees it online.
pub proof fn law_presence_of_a_peer(v: Seq<Option<bool>>, i: int)
    requires
        0 <= i < v.len(),
    ensures
        v[i] == Some(true) ==> online_by(v) == Some(true),
        online_by(v) is None ==> v[i] is None,
        online_by(v) == Some(false) ==> v[i] != Some(true),
        (forall|j: int| 0 <= j < v.len() ==> #[trigger] v[j] != Some(true)) && v[i] == Some(false)
            ==> online_by(v) == Some(false),
{
    if v[i] is Some {
        assert(v[i] == Some(true) || v[i] == Some(false));
        assert(v.contains(v[i]));
    }
}

/// A peer was last seen as long ago as the shortest of the ages says; one below zero says
/// nothing.
pub proof fn law_last_seen(v: Seq<Option<i64>>, r: Option<u64>, i: int)
    requires
        is_last_seen(v, r),
        0 <= i < v.len(),
        v[i] is Some,
        v[i]->0 >= 0,
    ensures
        r is Some,
        r->0 <= v[i]->0,
        exists|j: int| 0 <= j < v.len() && #[trigger] v[j] == Some(r->0 as i64),
{
}

/// The relays that meter are listed, in order, and no others.
pub proof fn law_metered_relays(v: Seq<Relay>, r: Relay)
    ensures
        metered(v.push(r), v.len() + 1) == (if r.metering {
            metered(v, v.len()).push(r.url@)
        } else {
            metered(v, v.len())
        }),
        metered(v, 0).len() == 0,
{
    lemma_metered(v, r, v.len());
}

proof fn lemma_metered(v: Seq<Relay>, r: Relay, n: nat)
    requires
        n <= v.len(),
    ensures
        metered(v.push(r), n) == metered(v, n),
    decreases n,
{
    if n > 0 {
        lemma_metered(v, r, (n - 1) as nat);
    }
}

} // verus!
