//! What holds of the policy in force over any run of publications.

use super::rules::{PolicyBundle, SelfIdentity};
use super::runtime::PolicyRuntime;
use super::slots::{has_slot, FwSource};
use vstd::prelude::*;

verus! {

/// A call on the runtime and the generation that it gave back.
pub enum Step {
    Acl { bundle: PolicyBundle, local: SelfIdentity, posture_ok: bool, stale: bool, gave: u64 },
    Firewall { network: u128, source: FwSource, gave: u64 },
    Invalidate { gave: u64 },
    /// Anything that leaves the policy alone: a packet judged, a slot looked up, a sweep.
    Use,
}

/// The call takes the runtime from `a` to `b`.
pub open spec fn takes(a: PolicyRuntime, e: Step, b: PolicyRuntime) -> bool {
    &&& a.wf()
    &&& b.wf()
    &&& match e {
        Step::Acl { bundle, local, posture_ok, stale, gave } => {
            &&& b.republished(a)
            &&& gave == b.generation
            &&& b.acl_source == bundle
            &&& b.local == local
            &&& b.src_posture_ok == posture_ok
            &&& b.stale == stale
            &&& b.fw_source == a.fw_source
        },
        Step::Firewall { network, source, gave } => {
            &&& b.republished(a)
            &&& gave == b.generation
            &&& b.fw_source@ == a.fw_source@.insert(network, source)
            &&& b.acl_source == a.acl_source
            &&& b.local == a.local
            &&& b.src_posture_ok == a.src_posture_ok
            &&& b.stale == a.stale
        },
        Step::Invalidate { gave } => {
            &&& b.republished(a)
            &&& gave == b.generation
            &&& b.fw_source == a.fw_source
            &&& b.acl_source == a.acl_source
            &&& b.local == a.local
            &&& b.src_posture_ok == a.src_posture_ok
            &&& b.stale == a.stale
        },
        Step::Use => {
            &&& b.generation == a.generation
            &&& b.fw_source == a.fw_source
            &&& b.acl_source == a.acl_source
            &&& b.local == a.local
            &&& b.src_posture_ok == a.src_posture_ok
            &&& b.stale == a.stale
        },
    }
}

/// A run of calls on a runtime that starts with its first policy.
pub open spec fn run(at: Seq<PolicyRuntime>, steps: Seq<Step>) -> bool {
    &&& at.len() == steps.len() + 1
    &&& at[0].wf()
    &&& at[0].generation == 1
    &&& forall|i: int| 0 <= i < steps.len() ==> takes(at[i], #[trigger] steps[i], at[i + 1])
}

/// The generations that the publications gave back, in order.
pub open spec fn given(steps: Seq<Step>) -> Seq<u64>
    decreases steps.len(),
{
    if steps.len() == 0 {
        Seq::empty()
    } else {
        let before = given(steps.drop_last());
        match steps.last() {
            Step::Acl { gave, .. } => before.push(gave),
            Step::Firewall { gave, .. } => before.push(gave),
            Step::Invalidate { gave } => before.push(gave),
            Step::Use => before,
        }
    }
}

/// The generation that a publication of an access-control list gave back.
pub open spec fn acl_gave(e: Step) -> Option<u64> {
    match e {
        Step::Acl { gave, .. } => Some(gave),
        _ => None,
    }
}

/// The generation that a publication of the firewall of a network gave back.
pub open spec fn firewall_gave(e: Step, net: u128) -> Option<u64> {
    match e {
        Step::Firewall { network, gave, .. } => if network == net {
            Some(gave)
        } else {
            None
        },
        _ => None,
    }
}

/// Among the publications of an access-control list, step `i` gave back the largest
/// generation.
pub open spec fn latest_acl(steps: Seq<Step>, i: int) -> bool {
    &&& 0 <= i < steps.len()
    &&& acl_gave(steps[i]) is Some
    &&& forall|j: int|
        0 <= j < steps.len() && acl_gave(#[trigger] steps[j]) is Some ==> acl_gave(steps[j])->0
            <= acl_gave(steps[i])->0
}

/// Among the publications of the firewall of a network, step `i` gave back the largest
/// generation.
pub open spec fn latest_firewall(steps: Seq<Step>, net: u128, i: int) -> bool {
    &&& 0 <= i < steps.len()
    &&& firewall_gave(steps[i], net) is Some
    &&& forall|j: int|
        0 <= j < steps.len() && firewall_gave(#[trigger] steps[j], net) is Some ==> firewall_gave(
            steps[j],
            net,
        )->0 <= firewall_gave(steps[i], net)->0
}

proof fn lemma_prefix(at: Seq<PolicyRuntime>, steps: Seq<Step>)
    requires
        run(at, steps),
        steps.len() > 0,
    ensures
        run(at.drop_last(), steps.drop_last()),
        takes(at[steps.len() - 1], steps.last(), at.last()),
        at.drop_last().last() == at[steps.len() - 1],
{
    let (a, s) = (at.drop_last(), steps.drop_last());
    assert forall|i: int| 0 <= i < s.len() implies takes(a[i], #[trigger] s[i], a[i + 1]) by {
        assert(takes(at[i], steps[i], at[i + 1]));
    }
    assert(takes(at[steps.len() - 1], steps[steps.len() - 1], at[steps.len() as int]));
}

/// Generations never go back, and every publication has a later one than all before it.
proof fn lemma_generations(at: Seq<PolicyRuntime>, steps: Seq<Step>, i: int)
    requires
        run(at, steps),
        0 <= i <= steps.len(),
    ensures
        at[i].generation <= at.last().generation,
        i < steps.len() && !(steps.last() is Use) ==> at[i].generation < at.last().generation,
    decreases steps.len(),
{
    if i < steps.len() {
        lemma_prefix(at, steps);
        lemma_generations(at.drop_last(), steps.drop_last(), i);
    }
}

/// Every publication has a generation of its own: after any run of calls with `n`
/// publications the generation is `1 + n`, and they gave back `2` to `1 + n` in order.
pub proof fn law_generations_count_publications(at: Seq<PolicyRuntime>, steps: Seq<Step>)
    requires
        run(at, steps),
    ensures
        at.last().generation == 1 + given(steps).len(),
        forall|j: int| 0 <= j < given(steps).len() ==> #[trigger] given(steps)[j] == 2 + j,
    decreases steps.len(),
{
    if steps.len() > 0 {
        lemma_prefix(at, steps);
        law_generations_count_publications(at.drop_last(), steps.drop_last());
    }
}

/// No publication is lost: the access-control list in force is that of the publication
/// which gave back the largest generation, with what came with it; before the first one
/// it is the one that the runtime started with.
pub proof fn law_latest_acl_in_force(at: Seq<PolicyRuntime>, steps: Seq<Step>)
    requires
        run(at, steps),
    ensures
        forall|i: int| #[trigger]
            latest_acl(steps, i) ==> (steps[i] matches Step::Acl {
                bundle,
                local,
                posture_ok,
                stale,
                gave: _,
            } && at.last().acl_source == bundle && at.last().acl.stands_for(bundle)
                && at.last().local == local && at.last().src_posture_ok == posture_ok
                && at.last().stale == stale),
        (forall|i: int| 0 <= i < steps.len() ==> acl_gave(#[trigger] steps[i]) is None)
            ==> at.last().acl_source == at[0].acl_source && at.last().local == at[0].local
            && at.last().src_posture_ok == at[0].src_posture_ok && at.last().stale == at[0].stale,
    decreases steps.len(),
{
    if steps.len() > 0 {
        let n = steps.len() - 1;
        let (b, s) = (at.drop_last(), steps.drop_last());
        lemma_prefix(at, steps);
        law_latest_acl_in_force(b, s);
        assert forall|i: int| #[trigger] latest_acl(steps, i) implies (steps[i] matches Step::Acl {
            bundle,
            local,
            posture_ok,
            stale,
            gave: _,
        } && at.last().acl_source == bundle && at.last().acl.stands_for(bundle) && at.last().local
            == local && at.last().src_posture_ok == posture_ok && at.last().stale == stale) by {
            if i < n {
                assert(takes(at[i], steps[i], at[i + 1]));
                lemma_generations(at, steps, i + 1);
                if acl_gave(steps[n]) is Some {
                    assert(acl_gave(steps[n])->0 <= acl_gave(steps[i])->0);
                }
                assert(s[i] == steps[i]);
                assert(latest_acl(s, i)) by {
                    assert forall|j: int|
                        0 <= j < s.len() && acl_gave(#[trigger] s[j]) is Some implies acl_gave(
                        s[j],
                    )->0 <= acl_gave(s[i])->0 by {
                        assert(s[j] == steps[j]);
                    }
                }
            }
        }
        if forall|i: int| 0 <= i < steps.len() ==> acl_gave(#[trigger] steps[i]) is None {
            assert forall|i: int| 0 <= i < s.len() implies acl_gave(#[trigger] s[i]) is None by {
                assert(s[i] == steps[i]);
            }
            assert(acl_gave(steps[n]) is None);
        }
    }
}

/// The firewall of a network is that of `source`, and its slot enforces it.
pub open spec fn enforces(rt: PolicyRuntime, net: u128, source: FwSource) -> bool {
    &&& rt.fw_source@.dom().contains(net)
    &&& rt.fw_source@[net] == source
    &&& has_slot(rt.slots.all@, net)
    &&& forall|k: int|
        0 <= k < rt.slots.all@.len() && (#[trigger] rt.slots.all@[k]).network == net
            ==> rt.slots.all@[k].carries(source, rt.generation)
}

proof fn lemma_enforced(rt: PolicyRuntime, net: u128)
    requires
        rt.wf(),
        rt.fw_source@.dom().contains(net),
    ensures
        enforces(rt, net, rt.fw_source@[net]),
{
}

/// The same of the firewall of each network: what every slot of the network enforces is
/// what the publication with the largest generation for it brought.
pub proof fn law_latest_firewall_in_force(at: Seq<PolicyRuntime>, steps: Seq<Step>, net: u128)
    requires
        run(at, steps),
    ensures
        forall|i: int| #[trigger]
            latest_firewall(steps, net, i) ==> (steps[i] matches Step::Firewall {
                network: _,
                source,
                gave: _,
            } && enforces(at.last(), net, source)),
        (forall|i: int| 0 <= i < steps.len() ==> firewall_gave(#[trigger] steps[i], net) is None)
            ==> at.last().fw_source@.dom().contains(net) == at[0].fw_source@.dom().contains(net)
            && (at[0].fw_source@.dom().contains(net) ==> enforces(
            at.last(),
            net,
            at[0].fw_source@[net],
        )),
    decreases steps.len(),
{
    if steps.len() > 0 {
        let n = steps.len() - 1;
        let (b, s) = (at.drop_last(), steps.drop_last());
        lemma_prefix(at, steps);
        law_latest_firewall_in_force(b, s, net);
        assert forall|i: int| #[trigger] latest_firewall(steps, net, i) implies (
        steps[i] matches Step::Firewall { network: _, source, gave: _ } && enforces(
            at.last(),
            net,
            source,
        )) by {
            if i < n {
                assert(takes(at[i], steps[i], at[i + 1]));
                lemma_generations(at, steps, i + 1);
                if firewall_gave(steps[n], net) is Some {
                    assert(firewall_gave(steps[n], net)->0 <= firewall_gave(steps[i], net)->0);
                }
                assert(s[i] == steps[i]);
                assert(latest_firewall(s, net, i)) by {
                    assert forall|j: int|
                        0 <= j < s.len() && firewall_gave(
                            #[trigger] s[j],
                            net,
                        ) is Some implies firewall_gave(s[j], net)->0 <= firewall_gave(
                        s[i],
                        net,
                    )->0 by {
                        assert(s[j] == steps[j]);
                    }
                }
            }
            lemma_enforced(at.last(), net);
        }
        if forall|i: int| 0 <= i < steps.len() ==> firewall_gave(#[trigger] steps[i], net) is None {
            assert forall|i: int| 0 <= i < s.len() implies firewall_gave(
                #[trigger] s[i],
                net,
            ) is None by {
                assert(s[i] == steps[i]);
            }
            assert(firewall_gave(steps[n], net) is None);
            if at[0].fw_source@.dom().contains(net) {
                lemma_enforced(at.last(), net);
            }
        }
    } else if at[0].fw_source@.dom().contains(net) {
        lemma_enforced(at[0], net);
    }
}

} // verus!
