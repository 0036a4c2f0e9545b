//! The routes of the agent, as the CLI sees them.

use super::protocol::{ExitNodeRouteInfo, HostnameRouteInfo, RoutesInfo, SubnetRouteInfo};
use crate::ip::{dotted_quad, ip_str};
use crate::policy::denylog::text_of;
use crate::policy::rules::texts;
use crate::routing::model::TablesView;
use crate::routing::table::RoutingTable;
use crate::routing::tables::copy_texts;
use crate::routing::types::{HostnameRoute, Ipv4Net, SplitTunnelMode, SubnetRoute};
use crate::text::{chars_of, decimal, push_decimal, same_text, string_of, substring};
use vstd::prelude::*;
use vstd::string::*;

verus! {

/// What the control plane says of this node's network.
#[derive(Debug)]
pub struct Membership {
    pub subnet_routes: Vec<SubnetRoute>,
    pub hostname_routes: Vec<HostnameRoute>,
    pub split_tunnel_mode: SplitTunnelMode,
    /// In canonical form.
    pub split_tunnel_cidrs: Vec<String>,
}

/// How many bytes a character takes in UTF-8.
pub open spec fn width(c: char) -> nat {
    if c as u32 <= 0x7f {
        1
    } else if c as u32 <= 0x7ff {
        2
    } else if c as u32 <= 0xffff {
        3
    } else {
        4
    }
}

/// The characters that fit into the first `n` bytes.
pub open spec fn byte_prefix(s: Seq<char>, n: nat) -> Seq<char>
    decreases s.len(),
{
    if s.len() == 0 || width(s[0]) > n {
        Seq::empty()
    } else {
        seq![s[0]] + byte_prefix(s.drop_first(), (n - width(s[0])) as nat)
    }
}

fn first_bytes(s: &str, n: usize) -> (r: String)
    ensures
        r@ == byte_prefix(s@, n as nat),
{
    let v = chars_of(s);
    let mut left: usize = n;
    let mut i: usize = 0;
    assert(v@.skip(0) =~= v@);
    assert(v@.take(0) + byte_prefix(v@, n as nat) =~= byte_prefix(v@, n as nat));
    while i < v.len()
        invariant
            v@ == s@,
            i <= v@.len(),
            byte_prefix(s@, n as nat) == v@.take(i as int) + byte_prefix(
                v@.skip(i as int),
                left as nat,
            ),
        decreases v.len() - i,
    {
        let c = v[i];
        let w: usize = if c as u32 <= 0x7f {
            1
        } else if c as u32 <= 0x7ff {
            2
        } else if c as u32 <= 0xffff {
            3
        } else {
            4
        };
        let ghost rest = v@.skip(i as int);
        assert(rest[0] == c);
        if w > left {
            assert(v@.take(i as int) + Seq::<char>::empty() =~= v@.take(i as int));
            assert(v@.subrange(0, i as int) =~= v@.take(i as int));
            return substring(v.as_slice(), 0, i);
        }
        left = left - w;
        proof {
            assert(rest.drop_first() =~= v@.skip(i + 1));
            assert(v@.take(i as int) + (seq![c] + byte_prefix(v@.skip(i + 1), left as nat))
                =~= v@.take(i + 1) + byte_prefix(v@.skip(i + 1), left as nat));
        }
        i += 1;
    }
    assert(v@.take(i as int) + Seq::<char>::empty() =~= v@);
    string_of(v.as_slice())
}

/// A block in its usual form.
pub open spec fn block_text(n: Ipv4Net) -> Seq<char> {
    dotted_quad(n.addr) + "/"@ + decimal(n.prefix as nat)
}

fn net_str(n: Ipv4Net) -> (s: String)
    ensures
        s@ == block_text(n),
{
    let mut s: String = ip_str(n.addr);
    s.append("/");
    push_decimal(&mut s, n.prefix as u64);
    s
}

/// The name of a gateway: its hostname where it is a member, else the start of its id.
pub open spec fn via_name(t: TablesView, id: Seq<char>) -> Seq<char> {
    if t.by_endpoint.dom().contains(id) {
        t.by_endpoint[id].hostname
    } else {
        byte_prefix(id, 8)
    }
}

fn via_of(routes: &RoutingTable, id: &str) -> (s: String)
    requires
        routes.wf(),
    ensures
        s@ == via_name(routes.tables@, id@),
{
    match routes.lookup_endpoint(id) {
        Some(p) => p.hostname.clone(),
        None => first_bytes(id, 8),
    }
}

pub open spec fn is_subnet(i: SubnetRouteInfo, r: SubnetRoute, t: TablesView, self_id: Seq<char>) -> bool {
    &&& i.cidr@ == block_text(r.cidr)
    &&& i.via_hostname@ == via_name(t, r.via_endpoint_id@)
    &&& i.via_ip@ == dotted_quad(r.via_ip)
    &&& i.via_endpoint_id@ == r.via_endpoint_id@
    &&& i.advertised_by_self == (r.via_endpoint_id@ == self_id)
}

pub open spec fn is_hostname(i: HostnameRouteInfo, r: HostnameRoute, t: TablesView) -> bool {
    &&& i.hostname@ == r.hostname@
    &&& i.is_wildcard == r.is_wildcard
    &&& i.via_hostname@ == via_name(t, r.via_endpoint_id@)
    &&& i.via_ip@ == dotted_quad(r.via_ip)
    &&& i.via_endpoint_id@ == r.via_endpoint_id@
    &&& text_of(i.target_ip) == (match r.target_ip {
        Some(ip) => Some(dotted_quad(ip)),
        None => None,
    })
}

pub open spec fn mode_name(m: SplitTunnelMode) -> Seq<char> {
    match m {
        SplitTunnelMode::Off => "off"@,
        SplitTunnelMode::Include => "include"@,
        SplitTunnelMode::Exclude => "exclude"@,
    }
}

/// The routes of a membership; without one there are none.
pub open spec fn are_routes(
    i: RoutesInfo,
    m: Option<Membership>,
    t: TablesView,
    self_id: Seq<char>,
) -> bool {
    match m {
        None => i.subnet_routes@.len() == 0 && i.hostname_routes@.len() == 0 && i.exit_node is None
            && i.split_tunnel_mode@ == "exclude"@ && i.split_tunnel_cidrs@.len() == 0,
        Some(m) => {
            &&& i.subnet_routes@.len() == m.subnet_routes@.len()
            &&& forall|k: int|
                0 <= k < m.subnet_routes@.len() ==> is_subnet(
                    #[trigger] i.subnet_routes@[k],
                    m.subnet_routes@[k],
                    t,
                    self_id,
                )
            &&& i.hostname_routes@.len() == m.hostname_routes@.len()
            &&& forall|k: int|
                0 <= k < m.hostname_routes@.len() ==> is_hostname(
                    #[trigger] i.hostname_routes@[k],
                    m.hostname_routes@[k],
                    t,
                )
            &&& match t.exit_node {
                Some(p) => i.exit_node matches Some(e) && e.hostname@ == p.hostname && e.via_ip@
                    == dotted_quad(p.ip) && e.endpoint_id@ == p.endpoint_hex,
                None => i.exit_node is None,
            }
            &&& i.split_tunnel_mode@ == mode_name(m.split_tunnel_mode)
            &&& texts(i.split_tunnel_cidrs@) == texts(m.split_tunnel_cidrs@)
        },
    }
}

pub fn build_routes(routes: &RoutingTable, m: &Option<Membership>, self_id: &str) -> (i: RoutesInfo)
    requires
        routes.wf(),
    ensures
        are_routes(i, *m, routes.tables@, self_id@),
{
    let m = match m {
        None => {
            return RoutesInfo {
                subnet_routes: Vec::new(),
                hostname_routes: Vec::new(),
                exit_node: None,
                split_tunnel_mode: "exclude".to_owned(),
                split_tunnel_cidrs: Vec::new(),
            };
        },
        Some(m) => m,
    };
    let mut subnet_routes: Vec<SubnetRouteInfo> = Vec::new();
    let mut k: usize = 0;
    while k < m.subnet_routes.len()
        invariant
            routes.wf(),
            k <= m.subnet_routes@.len(),
            subnet_routes@.len() == k,
            forall|j: int|
                0 <= j < k ==> is_subnet(
                    #[trigger] subnet_routes@[j],
                    m.subnet_routes@[j],
                    routes.tables@,
                    self_id@,
                ),
        decreases m.subnet_routes.len() - k,
    {
        let r = &m.subnet_routes[k];
        subnet_routes.push(
            SubnetRouteInfo {
                cidr: net_str(r.cidr),
                via_hostname: via_of(routes, r.via_endpoint_id.as_str()),
                via_ip: ip_str(r.via_ip),
                via_endpoint_id: r.via_endpoint_id.clone(),
                advertised_by_self: same_text(r.via_endpoint_id.as_str(), self_id),
            },
        );
        k += 1;
    }
    let mut hostname_routes: Vec<HostnameRouteInfo> = Vec::new();
    let mut k: usize = 0;
    while k < m.hostname_routes.len()
        invariant
            routes.wf(),
            k <= m.hostname_routes@.len(),
            hostname_routes@.len() == k,
            forall|j: int|
                0 <= j < k ==> is_hostname(
                    #[trigger] hostname_routes@[j],
                    m.hostname_routes@[j],
                    routes.tables@,
                ),
        decreases m.hostname_routes.len() - k,
    {
        let r = &m.hostname_routes[k];
        let target_ip = match r.target_ip {
            Some(ip) => Some(ip_str(ip)),
            None => None,
        };
        hostname_routes.push(
            HostnameRouteInfo {
                hostname: r.hostname.clone(),
                is_wildcard: r.is_wildcard,
                via_hostname: via_of(routes, r.via_endpoint_id.as_str()),
                via_ip: ip_str(r.via_ip),
                via_endpoint_id: r.via_endpoint_id.clone(),
                target_ip,
            },
        );
        k += 1;
    }
    let exit_node = match routes.exit_node() {
        Some(p) => Some(
            ExitNodeRouteInfo {
                hostname: p.hostname.clone(),
                via_ip: ip_str(p.ip),
                endpoint_id: p.endpoint_hex.clone(),
            },
        ),
        None => None,
    };
    let mode: &str = match m.split_tunnel_mode {
        SplitTunnelMode::Off => "off",
        SplitTunnelMode::Include => "include",
        SplitTunnelMode::Exclude => "exclude",
    };
    RoutesInfo {
        subnet_routes,
        hostname_routes,
        exit_node,
        split_tunnel_mode: mode.to_owned(),
        split_tunnel_cidrs: copy_texts(m.split_tunnel_cidrs.as_slice()),
    }
}

} // verus!
