//! Which tunnels are inspected, and where the inspector listens.

use super::exchange::{with_id, CapturedExchange, ExchangeStore};
use crate::names::NameTable;
use crate::policy::denylog::text_of;
use crate::text::same_text;
use vstd::prelude::*;
use vstd::string::*;

verus! {

/// The inspector's address unless another is given, 127.0.0.1:4040.
pub fn default_addr() -> (s: &'static str)
    ensures
        s@ == "127.0.0.1:4040"@,
{
    "127.0.0.1:4040"
}

/// The registered tunnels, with the upstream of each, and the server. Addresses are
/// given in their canonical form.
pub struct InspectorHub {
    pub tunnels: NameTable<String>,
    pub bind_addr: Option<String>,
    pub running: bool,
    pub store: ExchangeStore,
}

/// What a registration comes to.
#[derive(Debug)]
pub enum Registered {
    /// The inspector listens elsewhere.
    Conflict { existing: String },
    /// The tunnel is registered; `spawn` tells that the server is to be started.
    Ready { url: String, spawn: bool },
}

/// The page of an address.
pub open spec fn url_of(addr: Seq<char>) -> Seq<char> {
    "http://"@ + addr
}

fn url_for(addr: &str) -> (s: String)
    ensures
        s@ == url_of(addr@),
{
    let mut s: String = "http://".to_owned();
    s.append(addr);
    s
}

/// What a request for a replay comes to.
#[derive(Debug)]
pub enum ReplayPlan {
    /// No such exchange.
    NotFound,
    /// The tunnel is no longer inspecting.
    TunnelGone,
    Replay { exchange: CapturedExchange, target: String },
}

/// The HTTP status of a replay that does not take place, and its text.
pub fn refusal(plan: &ReplayPlan) -> (r: Option<(u16, &'static str)>)
    ensures
        match *plan {
            ReplayPlan::NotFound => r matches Some(x) && x.0 == 404 && x.1@ == "not found"@,
            ReplayPlan::TunnelGone => r matches Some(x) && x.0 == 400 && x.1@
                == "tunnel is no longer inspecting"@,
            ReplayPlan::Replay { .. } => r is None,
        },
{
    match plan {
        ReplayPlan::NotFound => Some((404, "not found")),
        ReplayPlan::TunnelGone => Some((400, "tunnel is no longer inspecting")),
        ReplayPlan::Replay { .. } => None,
    }
}

impl InspectorHub {
    /// The server runs exactly while it has an address, and never without a tunnel.
    pub open spec fn wf(&self) -> bool {
        &&& self.tunnels.wf()
        &&& self.store.wf()
        &&& self.running == self.bind_addr is Some
        &&& self.running ==> !(self.tunnels@.dom() =~= Set::empty())
    }

    pub fn new() -> (h: Self)
        ensures
            h.wf(),
            !h.running,
            h.tunnels@ == Map::<Seq<char>, String>::empty(),
            h.store@.len() == 0,
    {
        InspectorHub {
            tunnels: NameTable::new(),
            bind_addr: None,
            running: false,
            store: ExchangeStore::new(),
        }
    }

    pub fn inspector_url(&self) -> (r: Option<String>)
        ensures
            text_of(r) == (match self.bind_addr {
                Some(a) => Some(url_of(a@)),
                None => None,
            }),
    {
        match &self.bind_addr {
            Some(a) => Some(url_for(a.as_str())),
            None => None,
        }
    }

    /// Register a tunnel for capture and replay. The first one starts the server.
    pub fn register_tunnel(&mut self, tunnel_id: &str, target: String, addr: String) -> (r: Registered)
        requires
            old(self).wf(),
        ensures
            final(self).wf(),
            final(self).store == old(self).store,
            ({
                let conflict = old(self).bind_addr is Some && old(self).bind_addr->Some_0@ != addr@;
                &&& conflict ==> *final(self) == *old(self) && (r matches Registered::Conflict {
                    existing,
                } && existing@ == old(self).bind_addr->Some_0@)
                &&& !conflict ==> final(self).running && final(self).bind_addr is Some && final(
                    self
                ).bind_addr->Some_0@ == addr@ && final(self).tunnels@ == old(
                    self,
                ).tunnels@.insert(tunnel_id@, target) && (r matches Registered::Ready {
                    url,
                    spawn,
                } && url@ == url_of(addr@) && spawn == !old(self).running)
            }),
    {
        if let Some(existing) = &self.bind_addr {
            if !same_text(existing.as_str(), addr.as_str()) {
                return Registered::Conflict { existing: existing.clone() };
            }
        }
        self.tunnels.insert(tunnel_id.to_owned(), target);
        proof {
            assert(self.tunnels@.dom().contains(tunnel_id@));
        }
        let url = url_for(addr.as_str());
        let spawn = !self.running;
        if spawn {
            self.running = true;
            self.bind_addr = Some(addr);
        }
        Registered::Ready { url, spawn }
    }

    /// Forget a tunnel. Tells that the server is to be stopped: the last one is gone.
    pub fn unregister_tunnel(&mut self, tunnel_id: &str) -> (stop: bool)
        requires
            old(self).wf(),
        ensures
            final(self).wf(),
            final(self).store == old(self).store,
            final(self).tunnels@ == old(self).tunnels@.remove(tunnel_id@),
            stop == (old(self).running && final(self).tunnels@.dom() =~= Set::empty()),
            final(self).running == (old(self).running && !stop),
            final(self).bind_addr == (if stop {
                None
            } else {
                old(self).bind_addr
            }),
    {
        self.tunnels.remove(tunnel_id);
        let n: usize = self.tunnels.len();
        proof {
            self.tunnels.lemma_finite();
            if n == 0 {
                assert(self.tunnels@.dom() =~= Set::empty());
            } else {
                assert(!(self.tunnels@.dom() =~= Set::<Seq<char>>::empty()));
            }
        }
        if n == 0 && self.running {
            self.running = false;
            self.bind_addr = None;
            return true;
        }
        false
    }

    pub fn target_for(&self, tunnel_id: &str) -> (r: Option<String>)
        requires
            self.wf(),
        ensures
            r is Some == self.tunnels@.dom().contains(tunnel_id@),
            r matches Some(t) ==> t == self.tunnels@[tunnel_id@],
    {
        match self.tunnels.get(tunnel_id) {
            Some(t) => Some(t.clone()),
            None => None,
        }
    }

    /// Whether and where a captured exchange can be replayed.
    pub fn plan_replay(&self, id: &str) -> (p: ReplayPlan)
        requires
            self.wf(),
        ensures
            match with_id(self.store@, id@) {
                None => p is NotFound,
                Some(e) => if self.tunnels@.dom().contains(e.tunnel_id) {
                    p matches ReplayPlan::Replay { exchange, target } && exchange@ == e && target
                        == self.tunnels@[e.tunnel_id]
                } else {
                    p is TunnelGone
                },
            },
    {
        match self.store.get(id) {
            None => ReplayPlan::NotFound,
            Some(exchange) => match self.target_for(exchange.tunnel_id.as_str()) {
                None => ReplayPlan::TunnelGone,
                Some(target) => ReplayPlan::Replay { exchange, target },
            },
        }
    }
}

} // verus!
