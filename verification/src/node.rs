//! Starting a node: what it offers, which networks it runs, and what it remembers.

pub mod starts;

use crate::policy::rules::texts;
use crate::table::Table;
use vstd::prelude::*;
use vstd::string::*;

verus! {

/// A protocol that the node's endpoint accepts.
#[derive(Debug, Clone, Copy, PartialEq, Eq, Structural)]
pub enum Alpn {
    Stream,
    Datagram,
    Recording,
    Send,
    Blobs,
    Auth,
    Gossip,
    Docs,
}

#[derive(Debug)]
pub struct CoreNodeConfig {
    pub hostname: String,
    pub agent_version: String,
    pub advertise_datagram_alpn: bool,
    /// Advertise `tunnet/recording/1` (this node can receive session recordings).
    pub advertise_recording_alpn: bool,
    /// `agent` or `sdk`.
    pub kind: String,
    /// Advertise/run shared gossip (Managed needs this for presence + service relay).
    pub enable_gossip: bool,
    /// Keep all peer connections open.
    pub keep_alive: bool,
}

impl CoreNodeConfig {
    /// The configuration of a node that nothing else is said of.
    pub fn of_version(agent_version: String) -> (c: Self)
        ensures
            c.agent_version == agent_version,
            c.hostname@ == "tunnet-node"@,
            c.kind@ == "sdk"@,
            !c.advertise_datagram_alpn,
            !c.advertise_recording_alpn,
            c.enable_gossip,
            c.keep_alive,
    {
        CoreNodeConfig {
            hostname: "tunnet-node".to_owned(),
            agent_version,
            advertise_datagram_alpn: false,
            advertise_recording_alpn: false,
            kind: "sdk".to_owned(),
            enable_gossip: true,
            keep_alive: true,
        }
    }
}

/// The protocols that a node offers, in order: streams always, datagrams and recordings
/// as configured, sending always; in Direct mode authentication, gossip and documents;
/// else gossip where it is enabled.
pub open spec fn offered(datagram: bool, recording: bool, direct: bool, gossip: bool) -> Seq<Alpn> {
    seq![Alpn::Stream] + (if datagram {
        seq![Alpn::Datagram]
    } else {
        seq![]
    }) + (if recording {
        seq![Alpn::Recording]
    } else {
        seq![]
    }) + seq![Alpn::Send, Alpn::Blobs] + (if direct {
        seq![Alpn::Auth, Alpn::Gossip, Alpn::Docs]
    } else if gossip {
        seq![Alpn::Gossip]
    } else {
        seq![]
    })
}

pub fn build_alpns(cfg: &CoreNodeConfig, direct: bool, enable_gossip: bool) -> (v: Vec<Alpn>)
    ensures
        v@ == offered(
            cfg.advertise_datagram_alpn,
            cfg.advertise_recording_alpn,
            direct,
            enable_gossip,
        ),
{
    let mut v: Vec<Alpn> = Vec::new();
    v.push(Alpn::Stream);
    if cfg.advertise_datagram_alpn {
        v.push(Alpn::Datagram);
    }
    if cfg.advertise_recording_alpn {
        v.push(Alpn::Recording);
    }
    v.push(Alpn::Send);
    v.push(Alpn::Blobs);
    if direct {
        v.push(Alpn::Auth);
        v.push(Alpn::Gossip);
        v.push(Alpn::Docs);
    } else if enable_gossip {
        v.push(Alpn::Gossip);
    }
    assert(v@ =~= offered(
        cfg.advertise_datagram_alpn,
        cfg.advertise_recording_alpn,
        direct,
        enable_gossip,
    ));
    v
}

/// What is saved of a Direct network.
#[derive(Debug)]
pub struct DirectState {
    pub network_id: u128,
    pub network_name: String,
    pub hostname: String,
    /// 0 where no address was assigned.
    pub assigned_ipv4: u32,
    pub collision_index: u32,
    pub coordinator: bool,
    pub coordinator_endpoint_id: Option<String>,
    pub namespace_id: Option<String>,
    pub topic_hash: String,
    /// This and what follows is saved sealed.
    pub join_secret: String,
    pub doc_ticket: Option<String>,
    pub coordinator_signing_key: Option<String>,
    pub network_grant: Option<String>,
    pub content_key: Option<String>,
}

/// What is saved of a Managed network.
#[derive(Debug)]
pub struct ManagedState {
    pub control_url: String,
    pub network_id: u128,
    pub network_name: String,
}

#[derive(Debug)]
pub enum PersistedState {
    Managed(ManagedState),
    Direct { networks: Vec<DirectState> },
}

/// How a node starts.
#[derive(Debug, Clone, Copy, PartialEq, Eq, Structural)]
pub enum BootMode {
    Managed,
    Direct,
}

/// The mode to start in. Direct mode needs a network.
pub fn boot_mode(state: &PersistedState) -> (r: Result<BootMode, String>)
    ensures
        r is Ok == !(state matches PersistedState::Direct { networks } && networks@.len() == 0),
        r matches Ok(m) ==> (m == BootMode::Managed) == (state is Managed),
        r matches Err(e) ==> e@ == "no Direct networks joined"@,
{
    match state {
        PersistedState::Managed(_) => Ok(BootMode::Managed),
        PersistedState::Direct { networks } => if networks.len() == 0 {
            Err("no Direct networks joined".to_owned())
        } else {
            Ok(BootMode::Direct)
        },
    }
}

/// The node's address in a network: the assigned one, else the one derived from its id.
pub open spec fn address_in(assigned: u32, derived: u32) -> u32 {
    if assigned == 0 {
        derived
    } else {
        assigned
    }
}

pub fn network_address(assigned: u32, derived: u32) -> (ip: u32)
    ensures
        ip == address_in(assigned, derived),
{
    if assigned == 0 {
        derived
    } else {
        assigned
    }
}

/// The saved grant of a network, as it was read.
#[derive(Debug)]
pub enum GrantRead {
    Missing,
    Readable,
    Corrupt(String),
}

/// What a network starts with.
#[derive(Debug)]
pub struct NetworkPlan {
    pub ip: u32,
    pub with_grant: bool,
    pub seeds: Vec<String>,
}

pub open spec fn corrupt_grant(why: Seq<char>) -> Seq<char> {
    "corrupt network_grant ("@ + why + "); re-join with a fresh invite"@
}

pub open spec fn bad_signing_key(name: Seq<char>) -> Seq<char> {
    "parse coordinator signing key for '"@ + name + "'"@
}

/// Why a network cannot start: its coordinator's signing key is unreadable, or it is a
/// member and has no readable grant. A coordinator starts without one.
pub open spec fn plan_fault(d: DirectState, key_readable: bool, grant: GrantRead) -> Option<
    Seq<char>,
> {
    if !key_readable {
        Some(bad_signing_key(d.network_name@))
    } else if d.coordinator {
        None
    } else {
        match grant {
            GrantRead::Readable => None,
            GrantRead::Missing => Some("missing network_grant; re-join with a fresh invite"@),
            GrantRead::Corrupt(why) => Some(corrupt_grant(why@)),
        }
    }
}

pub open spec fn seeds_of(d: DirectState) -> Seq<Seq<char>> {
    match d.coordinator_endpoint_id {
        Some(c) => seq![c@],
        None => seq![],
    }
}

/// What a network starts with, or why it cannot.
pub fn plan_network(direct: &DirectState, derived: u32, key_readable: bool, grant: &GrantRead) -> (r:
    Result<NetworkPlan, String>)
    ensures
        r is Ok == plan_fault(*direct, key_readable, *grant) is None,
        r matches Err(e) ==> plan_fault(*direct, key_readable, *grant) == Some(e@),
        r matches Ok(p) ==> p.ip == address_in(direct.assigned_ipv4, derived) && p.with_grant == (
        grant is Readable) && texts(p.seeds@) == seeds_of(*direct),
{
    if !key_readable {
        let mut e: String = "parse coordinator signing key for '".to_owned();
        e.append(direct.network_name.as_str());
        e.append("'");
        return Err(e);
    }
    let with_grant: bool = match grant {
        GrantRead::Readable => true,
        GrantRead::Missing => {
            if !direct.coordinator {
                return Err("missing network_grant; re-join with a fresh invite".to_owned());
            }
            false
        },
        GrantRead::Corrupt(why) => {
            if !direct.coordinator {
                let mut e: String = "corrupt network_grant (".to_owned();
                e.append(why.as_str());
                e.append("); re-join with a fresh invite");
                return Err(e);
            }
            false
        },
    };
    let mut seeds: Vec<String> = Vec::new();
    if let Some(c) = &direct.coordinator_endpoint_id {
        seeds.push(c.clone());
    }
    assert(texts(seeds@) =~= seeds_of(*direct));
    Ok(NetworkPlan { ip: network_address(direct.assigned_ipv4, derived), with_grant, seeds })
}

/// How the start of one network ended.
#[derive(Debug)]
pub enum NetworkStart {
    Running { ip: u32, new_ticket: Option<String>, new_namespace: Option<String> },
    Failed,
}

pub open spec fn or_else(new: Option<String>, before: Option<String>) -> Option<String> {
    if new is Some {
        new
    } else {
        before
    }
}

/// What is saved of a network after its start: its address, and what is new of its
/// documents. A network that failed is kept as it was, so that it can be left.
pub open spec fn state_after(d: DirectState, s: NetworkStart) -> DirectState {
    match s {
        NetworkStart::Running { ip, new_ticket, new_namespace } => DirectState {
            assigned_ipv4: ip,
            doc_ticket: or_else(new_ticket, d.doc_ticket),
            namespace_id: or_else(new_namespace, d.namespace_id),
            ..d
        },
        NetworkStart::Failed => d,
    }
}

/// A start brought something that has to be saved.
pub open spec fn has_news(s: NetworkStart) -> bool {
    s matches NetworkStart::Running { ip, new_ticket, new_namespace } && (new_ticket is Some
        || new_namespace is Some)
}

/// The ids of the first `n` networks that run.
pub open spec fn running_ids(d: Seq<DirectState>, s: Seq<NetworkStart>, n: nat) -> Seq<u128>
    decreases n,
{
    if n == 0 {
        seq![]
    } else if s[n - 1] is Running {
        running_ids(d, s, (n - 1) as nat).push(d[n - 1].network_id)
    } else {
        running_ids(d, s, (n - 1) as nat)
    }
}

/// The names of those of the first `n` networks that failed.
pub open spec fn failed_names(d: Seq<DirectState>, s: Seq<NetworkStart>, n: nat) -> Seq<Seq<char>>
    decreases n,
{
    if n == 0 {
        seq![]
    } else if s[n - 1] is Running {
        failed_names(d, s, (n - 1) as nat)
    } else {
        failed_names(d, s, (n - 1) as nat).push(d[n - 1].network_name@)
    }
}

/// Names with a comma and a space between them.
pub open spec fn comma_joined(v: Seq<Seq<char>>) -> Seq<char>
    decreases v.len(),
{
    if v.len() == 0 {
        seq![]
    } else if v.len() == 1 {
        v[0]
    } else {
        comma_joined(v.drop_last()) + ", "@ + v.last()
    }
}

fn comma_join(v: &[String]) -> (s: String)
    ensures
        s@ == comma_joined(texts(v@)),
{
    let mut s: String = String::new();
    let ghost t = texts(v@);
    let mut i: usize = 0;
    assert(s@ =~= comma_joined(t.take(0)));
    while i < v.len()
        invariant
            t == texts(v@),
            i <= v@.len(),
            s@ == comma_joined(t.take(i as int)),
        decreases v.len() - i,
    {
        proof {
            assert(t.take(i + 1).drop_last() =~= t.take(i as int));
            assert(t.take(i + 1).last() == t[i as int]);
        }
        if i == 0 {
            s = v[0].clone();
        } else {
            s.append(", ");
            s.append(v[i].as_str());
        }
        i += 1;
    }
    proof {
        assert(t.take(i as int) =~= t);
    }
    s
}

/// Why a node cannot start when none of its networks runs.
pub open spec fn none_started(failed: Seq<Seq<char>>) -> Seq<char> {
    if failed.len() == 0 {
        "no Direct networks joined"@
    } else {
        "all Direct networks failed to start ("@ + comma_joined(failed)
            + "); leave or re-join with `tunnet leave` / a fresh invite"@
    }
}

/// A node that has started in Direct mode.
#[derive(Debug)]
pub struct DirectBoot {
    /// What is saved, of the networks that run and of those that do not.
    pub networks: Vec<DirectState>,
    pub running: Vec<u128>,
    pub skipped: Vec<String>,
    /// Something has to be saved.
    pub save: bool,
}

fn settle(d: DirectState, s: NetworkStart) -> (r: (DirectState, bool))
    ensures
        r.0 == state_after(d, s),
        r.1 == has_news(s),
{
    let mut d = d;
    match s {
        NetworkStart::Running { ip, new_ticket, new_namespace } => {
            let news = new_ticket.is_some() || new_namespace.is_some();
            if new_ticket.is_some() {
                d.doc_ticket = new_ticket;
            }
            if new_namespace.is_some() {
                d.namespace_id = new_namespace;
            }
            d.assigned_ipv4 = ip;
            (d, news)
        },
        NetworkStart::Failed => (d, false),
    }
}

/// The outcome of starting the networks one by one: the node starts if any of them runs.
pub fn conclude_direct(networks: Vec<DirectState>, starts: Vec<NetworkStart>) -> (r: Result<
    DirectBoot,
    String,
>)
    requires
        networks@.len() == starts@.len(),
    ensures
        r is Ok == (exists|i: int| 0 <= i < starts@.len() && #[trigger] starts@[i] is Running),
        r matches Err(e) ==> e@ == none_started(
            failed_names(networks@, starts@, starts@.len()),
        ),
        r matches Ok(b) ==> {
            &&& b.networks@ == Seq::new(
                networks@.len(),
                |i: int| state_after(networks@[i], starts@[i]),
            )
            &&& b.running@ == running_ids(networks@, starts@, starts@.len())
            &&& texts(b.skipped@) == failed_names(networks@, starts@, starts@.len())
            &&& b.save == exists|i: int| 0 <= i < starts@.len() && #[trigger] has_news(starts@[i])
        },
{
    let ghost d = networks@;
    let ghost s = starts@;
    let mut networks = networks;
    let mut starts = starts;
    let mut kept: Vec<DirectState> = Vec::new();
    let mut running: Vec<u128> = Vec::new();
    let mut skipped: Vec<String> = Vec::new();
    let mut save: bool = false;
    let count: usize = networks.len();
    let mut n: usize = 0;
    proof {
        assert(texts(skipped@) =~= failed_names(d, s, 0));
    }
    while n < count
        invariant
            d.len() == s.len(),
            d.len() == count,
            n <= count,
            n + networks@.len() == d.len(),
            networks@.len() == starts@.len(),
            networks@ == d.skip(n as int),
            starts@ == s.skip(n as int),
            kept@.len() == n,
            forall|i: int| 0 <= i < n ==> #[trigger] kept@[i] == state_after(d[i], s[i]),
            running@ == running_ids(d, s, n as nat),
            texts(skipped@) == failed_names(d, s, n as nat),
            (running@.len() > 0) == (exists|i: int| 0 <= i < n && #[trigger] s[i] is Running),
            save == (exists|i: int| 0 <= i < n && #[trigger] has_news(s[i])),
        decreases count - n,
    {
        let net = networks.remove(0);
        let start = starts.remove(0);
        let ghost skipped0 = skipped@;
        let ghost running0 = running@;
        let ghost save0 = save;
        proof {
            assert(net == d[n as int]);
            assert(start == s[n as int]);
            assert(networks@ =~= d.skip(n + 1));
            assert(starts@ =~= s.skip(n + 1));
        }
        match &start {
            NetworkStart::Running { .. } => {
                running.push(net.network_id);
            },
            NetworkStart::Failed => {
                skipped.push(net.network_name.clone());
            },
        }
        let (after, news) = settle(net, start);
        if news {
            save = true;
        }
        kept.push(after);
        proof {
            if s[n as int] is Running {
                assert(exists|i: int| 0 <= i < n + 1 && #[trigger] s[i] is Running);
            } else {
                assert(texts(skipped@) =~= texts(skipped0).push(d[n as int].network_name@));
                if exists|i: int| 0 <= i < n && #[trigger] s[i] is Running {
                    let j = choose|i: int| 0 <= i < n && #[trigger] s[i] is Running;
                    assert(s[j] is Running);
                }
            }
            if has_news(s[n as int]) {
                assert(exists|i: int| 0 <= i < n + 1 && #[trigger] has_news(s[i]));
            } else if save0 {
                let j = choose|i: int| 0 <= i < n && #[trigger] has_news(s[i]);
                assert(has_news(s[j]));
            }
        }
        n += 1;
    }
    if running.len() == 0 {
        proof {
            assert(texts(skipped@).len() == skipped@.len());
        }
        if skipped.len() == 0 {
            return Err("no Direct networks joined".to_owned());
        }
        let mut e: String = "all Direct networks failed to start (".to_owned();
        let names = comma_join(skipped.as_slice());
        e.append(names.as_str());
        e.append("); leave or re-join with `tunnet leave` / a fresh invite");
        return Err(e);
    }
    assert(kept@ =~= Seq::new(d.len(), |i: int| state_after(d[i], s[i])));
    Ok(DirectBoot { networks: kept, running, skipped, save })
}

/// A network that failed to start stays saved as it was.
pub proof fn law_failed_network_stays(d: Seq<DirectState>, s: Seq<NetworkStart>, i: int)
    requires
        0 <= i < d.len(),
        d.len() == s.len(),
        s[i] is Failed,
    ensures
        state_after(d[i], s[i]) == d[i],
        failed_names(d, s, s.len()).contains(d[i].network_name@),
{
    lemma_failed_named(d, s, s.len(), i);
}

proof fn lemma_failed_named(d: Seq<DirectState>, s: Seq<NetworkStart>, n: nat, i: int)
    requires
        0 <= i < n <= d.len(),
        d.len() == s.len(),
        s[i] is Failed,
    ensures
        failed_names(d, s, n).contains(d[i].network_name@),
    decreases n,
{
    let before = failed_names(d, s, (n - 1) as nat);
    if i == n - 1 {
        assert(failed_names(d, s, n).last() == d[i].network_name@);
    } else {
        lemma_failed_named(d, s, (n - 1) as nat, i);
        let j = choose|j: int| 0 <= j < before.len() && before[j] == d[i].network_name@;
        assert(failed_names(d, s, n)[j] == d[i].network_name@);
    }
}

/// Whether a peer is online, from what the presence tables say: online if one says so,
/// offline if one knows it, else unknown.
pub open spec fn online_by(v: Seq<Option<bool>>) -> Option<bool> {
    if v.contains(Some(true)) {
        Some(true)
    } else if v.contains(Some(false)) {
        Some(false)
    } else {
        None
    }
}

pub fn peer_presence_online(statuses: &[Option<bool>]) -> (r: Option<bool>)
    ensures
        r == online_by(statuses@),
{
    let mut saw_entry: bool = false;
    let mut any_online: bool = false;
    let mut i: usize = 0;
    while i < statuses.len()
        invariant
            i <= statuses@.len(),
            any_online == exists|j: int| 0 <= j < i && #[trigger] statuses@[j] == Some(true),
            saw_entry == exists|j: int| 0 <= j < i && #[trigger] statuses@[j] == Some(false),
        decreases statuses.len() - i,
    {
        match statuses[i] {
            Some(b) => {
                assert(statuses@[i as int] == Some(b));
                if b {
                    any_online = true;
                } else {
                    saw_entry = true;
                }
            },
            None => {},
        }
        i += 1;
    }
    if any_online {
        return Some(true);
    }
    if saw_entry {
        return Some(false);
    }
    None
}

/// Seconds since a peer was last seen: the least of what the presence tables say, where
/// it is not in the future.
pub open spec fn is_last_seen(v: Seq<Option<i64>>, r: Option<u64>) -> bool {
    match r {
        None => forall|i: int| 0 <= i < v.len() && (#[trigger] v[i]) is Some ==> v[i]->0 < 0,
        Some(t) => t <= i64::MAX && v.contains(Some(t as i64)) && forall|i: int|
            0 <= i < v.len() && (#[trigger] v[i]) is Some && v[i]->0 >= 0 ==> t <= v[i]->0,
    }
}

pub fn peer_presence_last_seen(ages: &[Option<i64>]) -> (r: Option<u64>)
    ensures
        is_last_seen(ages@, r),
{
    let mut best: Option<u64> = None;
    let mut i: usize = 0;
    proof {
        assert(is_last_seen(ages@.take(0), best));
    }
    while i < ages.len()
        invariant
            i <= ages@.len(),
            is_last_seen(ages@.take(i as int), best),
        decreases ages.len() - i,
    {
        let ghost was = best;
        let ghost seen = ages@.take(i as int);
        let ghost now = ages@.take(i + 1);
        proof {
            assert(now =~= seen.push(ages@[i as int]));
        }
        if let Some(s) = ages[i] {
            assert(now[i as int] == Some(s));
            if s >= 0 {
                let t: u64 = s as u64;
                best =
                match best {
                    Some(b) if b <= t => Some(b),
                    _ => Some(t),
                };
            }
        }
        proof {
            if let Some(t) = was {
                let j = choose|j: int| 0 <= j < seen.len() && seen[j] == Some(t as i64);
                assert(now[j] == Some(t as i64));
            }
            assert forall|j: int|
                0 <= j < now.len() && (#[trigger] now[j]) is Some && now[j]->0 >= 0 implies (
            best matches Some(t) && t <= now[j]->0) by {
                if j < i {
                    assert(seen[j] == now[j]);
                }
            }
        }
        i += 1;
    }
    proof {
        assert(ages@.take(i as int) =~= ages@);
    }
    best
}

/// A relay that the control plane offers.
#[derive(Debug)]
pub struct Relay {
    pub url: String,
    pub metering: bool,
}

/// The URLs of the first `n` relays that are metered.
pub open spec fn metered(v: Seq<Relay>, n: nat) -> Seq<Seq<char>>
    decreases n,
{
    if n == 0 {
        seq![]
    } else if v[n - 1].metering {
        metered(v, (n - 1) as nat).push(v[n - 1].url@)
    } else {
        metered(v, (n - 1) as nat)
    }
}

pub fn metered_urls(relays: &[Relay]) -> (r: Vec<String>)
    ensures
        texts(r@) == metered(relays@, relays@.len()),
{
    let mut out: Vec<String> = Vec::new();
    let mut i: usize = 0;
    assert(texts(out@) =~= metered(relays@, 0));
    while i < relays.len()
        invariant
            i <= relays@.len(),
            texts(out@) == metered(relays@, i as nat),
        decreases relays.len() - i,
    {
        let ghost before = out@;
        if relays[i].metering {
            out.push(relays[i].url.clone());
            assert(texts(out@) =~= texts(before).push(relays@[i as int].url@));
        }
        i += 1;
    }
    out
}

/// The control plane's client, which only Managed mode has.
pub fn require_signed<T>(signed: Option<&T>) -> (r: Result<&T, String>)
    ensures
        r is Ok == signed is Some,
        r matches Ok(c) ==> signed == Some(c),
        r matches Err(e) ==> e@
            == "this operation requires Managed mode (control plane client unavailable in Direct)"@,
{
    match signed {
        Some(c) => Ok(c),
        None => Err(
            "this operation requires Managed mode (control plane client unavailable in Direct)".to_owned(),
        ),
    }
}

/// The snapshot to start from: the one that the control plane gave, which is kept, else
/// the one that was kept.
pub fn choose_snapshot<T>(registered: Option<T>, cached: Option<T>) -> (r: Result<
    (T, bool),
    &'static str,
>)
    ensures
        r is Ok == (registered is Some || cached is Some),
        r matches Ok(s) ==> s.1 == registered is Some && Some(s.0) == (if registered is Some {
            registered
        } else {
            cached
        }),
        r matches Err(e) ==> e@ == "no cache"@,
{
    match registered {
        Some(s) => Ok((s, true)),
        None => match cached {
            Some(s) => Ok((s, false)),
            None => Err("no cache"),
        },
    }
}

/// Per-Direct-network runtime: its documents, its firewall and its saved state, with the
/// presence of its peers where that is followed.
#[derive(Debug)]
pub struct DirectNetworkRuntime<D, F, P> {
    pub docs: D,
    pub firewall: F,
    pub state: DirectState,
    pub presence: Option<P>,
}

/// The networks that a node runs.
pub struct CoreNode<D, F, P> {
    pub primary_network_id: Option<u128>,
    pub direct: Table<u128, DirectNetworkRuntime<D, F, P>>,
}

impl<D, F, P> CoreNode<D, F, P> {
    pub open spec fn wf(&self) -> bool {
        self.direct.wf()
    }

    /// The runtime of a network, where it runs.
    pub open spec fn running(&self, id: u128) -> Option<DirectNetworkRuntime<D, F, P>> {
        if self.direct@.dom().contains(id) {
            Some(self.direct@[id])
        } else {
            None
        }
    }

    pub fn firewall_for(&self, network_id: u128) -> (r: Option<&F>)
        requires
            self.wf(),
        ensures
            r is Some == self.running(network_id) is Some,
            r matches Some(f) ==> *f == self.running(network_id)->Some_0.firewall,
    {
        match self.direct.get(&network_id) {
            Some(n) => Some(&n.firewall),
            None => None,
        }
    }

    pub fn docs_for(&self, network_id: u128) -> (r: Option<&D>)
        requires
            self.wf(),
        ensures
            r is Some == self.running(network_id) is Some,
            r matches Some(d) ==> *d == self.running(network_id)->Some_0.docs,
    {
        match self.direct.get(&network_id) {
            Some(n) => Some(&n.docs),
            None => None,
        }
    }

    pub fn presence_for(&self, network_id: u128) -> (r: Option<&P>)
        requires
            self.wf(),
        ensures
            r is Some == (self.running(network_id) matches Some(n) && n.presence is Some),
            r matches Some(p) ==> self.running(network_id)->Some_0.presence == Some(*p),
    {
        match self.direct.get(&network_id) {
            Some(n) => match &n.presence {
                Some(p) => Some(p),
                None => None,
            },
            None => None,
        }
    }

    /// Docs for the primary network: the one that is named so, never just any.
    pub fn primary_docs(&self) -> (r: Option<&D>)
        requires
            self.wf(),
        ensures
            r is Some == (self.primary_network_id matches Some(id) && self.running(id) is Some),
            r matches Some(d) ==> *d == self.running(self.primary_network_id->Some_0)->Some_0.docs,
    {
        match self.primary_network_id {
            Some(id) => self.docs_for(id),
            None => None,
        }
    }

    pub fn primary_firewall(&self) -> (r: Option<&F>)
        requires
            self.wf(),
        ensures
            r is Some == (self.primary_network_id matches Some(id) && self.running(id) is Some),
            r matches Some(f) ==> *f == self.running(
                self.primary_network_id->Some_0,
            )->Some_0.firewall,
    {
        match self.primary_network_id {
            Some(id) => self.firewall_for(id),
            None => None,
        }
    }
}

/// The networks whose own document store is left over: it holds something while the
/// shared one is empty.
pub fn legacy_docs(unified_nonempty: bool, legacy_nonempty: &[bool]) -> (r: Vec<usize>)
    ensures
        unified_nonempty ==> r@.len() == 0,
        !unified_nonempty ==> {
            &&& forall|i: int|
                0 <= i < r@.len() ==> (#[trigger] r@[i]) < legacy_nonempty@.len()
                    && legacy_nonempty@[r@[i] as int]
            &&& forall|i: int, j: int| 0 <= i < j < r@.len() ==> r@[i] < r@[j]
            &&& forall|k: usize|
                k < legacy_nonempty@.len() && legacy_nonempty@[k as int] ==> #[trigger] r@.contains(k)
        },
{
    let mut out: Vec<usize> = Vec::new();
    if unified_nonempty {
        return out;
    }
    let mut i: usize = 0;
    while i < legacy_nonempty.len()
        invariant
            i <= legacy_nonempty@.len(),
            forall|a: int|
                0 <= a < out@.len() ==> (#[trigger] out@[a]) < i && legacy_nonempty@[out@[a] as int],
            forall|a: int, b: int| 0 <= a < b < out@.len() ==> out@[a] < out@[b],
            forall|k: usize| k < i && legacy_nonempty@[k as int] ==> #[trigger] out@.contains(k),
        decreases legacy_nonempty.len() - i,
    {
        let ghost before = out@;
        if legacy_nonempty[i] {
            out.push(i);
            proof {
                assert(out@[before.len() as int] == i);
                assert forall|k: usize| k < i + 1 && legacy_nonempty@[k as int] implies #[trigger] out@.contains(
                k) by {
                    if k < i {
                        assert(before.contains(k));
                        let a = choose|a: int| 0 <= a < before.len() && before[a] == k;
                        assert(out@[a] == k);
                    }
                }
            }
        }
        i += 1;
    }
    out
}

} // verus!
