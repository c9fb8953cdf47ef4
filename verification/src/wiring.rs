//! What the wiring primitive keeps and what it changes.

use vstd::prelude::*;
use crate::model::{Agent, NetModel};
use crate::net::{NodeId, Port, Redex};

verus! {

/// The wiring invariant speaks of the agents alone.
pub proof fn lemma_wired_agents(n: NetModel, m: NetModel)
    requires
        n.wired(),
        m.agents == n.agents,
    ensures
        m.wired(),
{
    assert forall|a: NodeId, s: usize|
        #![trigger m.port(a, s)]
        m.has_port(a, s) && !m.port(a, s).is_null() implies m.paired(a, s) by {
        assert(n.port(a, s) == m.port(a, s));
        assert(n.paired(a, s));
        let p = n.port(a, s);
        assert(n.port(p.node, p.slot) == m.port(p.node, p.slot));
    }
}

/// Overwriting a port changes that port and nothing else.
pub proof fn lemma_set_port(n: NetModel, a: NodeId, s: usize, p: Port)
    requires
        n.shaped(),
        n.has_port(a, s),
    ensures
        n.set_port(a, s, p).shaped(),
        n.set_port(a, s, p).agents.len() == n.agents.len(),
        n.set_port(a, s, p).pending == n.pending,
        n.set_port(a, s, p).bindings == n.bindings,
        forall|x: NodeId|
            x < n.agents.len() ==> #[trigger] n.set_port(a, s, p).kind(x) == n.kind(x),
        forall|x: NodeId, t: usize|
            #![trigger n.set_port(a, s, p).has_port(x, t)]
            n.set_port(a, s, p).has_port(x, t) == n.has_port(x, t),
        forall|x: NodeId, t: usize|
            #![trigger n.set_port(a, s, p).port(x, t)]
            x < n.agents.len() && t < 3 ==> n.set_port(a, s, p).port(x, t) == if x == a && t == s {
                p
            } else {
                n.port(x, t)
            },
{
    let m = n.set_port(a, s, p);
    assert(n.agents[a as int].ports.len() == 3);
    assert forall|i: int| 0 <= i < m.agents.len() implies (#[trigger] m.agents[i]).ports.len()
        == 3 by {
        assert(n.agents[i].ports.len() == 3);
    }
}

/// Cutting a port's partner loose unwires the partner and changes nothing
/// else.
pub proof fn lemma_detach(n: NetModel, a: NodeId, s: usize)
    requires
        n.shaped(),
        n.has_port(a, s),
    ensures
        n.detach(a, s).shaped(),
        n.detach(a, s).agents.len() == n.agents.len(),
        n.detach(a, s).pending == n.pending,
        n.detach(a, s).bindings == n.bindings,
        forall|x: NodeId| x < n.agents.len() ==> #[trigger] n.detach(a, s).kind(x) == n.kind(x),
        forall|x: NodeId, t: usize|
            #![trigger n.detach(a, s).has_port(x, t)]
            n.detach(a, s).has_port(x, t) == n.has_port(x, t),
        forall|x: NodeId, t: usize|
            #![trigger n.detach(a, s).port(x, t)]
            x < n.agents.len() && t < 3 ==> n.detach(a, s).port(x, t) == if !n.port(
                a,
                s,
            ).is_null() && n.has_port(n.port(a, s).node, n.port(a, s).slot) && n.port(a, s) == (Port {
                node: x,
                slot: t,
            }) {
                Port::null()
            } else {
                n.port(x, t)
            },
{
    let p = n.port(a, s);
    if !p.is_null() && n.has_port(p.node, p.slot) {
        lemma_set_port(n, p.node, p.slot, Port::null());
    }
}

/// A new agent changes no port of the agents that were there, and is itself
/// unwired.
pub proof fn lemma_create(n: NetModel, agent: Agent)
    requires
        n.shaped(),
        n.agents.len() < usize::MAX,
    ensures
        n.create(agent).shaped(),
        n.wired() ==> n.create(agent).wired(),
        n.create(agent).agents.len() == n.agents.len() + 1,
        n.create(agent).kind(n.agents.len() as NodeId) == agent.kind,
        forall|t: usize|
            t < 3 ==> (#[trigger] n.create(agent).port(n.agents.len() as NodeId, t)).is_null(),
        forall|x: NodeId| x < n.agents.len() ==> #[trigger] n.create(agent).kind(x) == n.kind(x),
        forall|x: NodeId, t: usize|
            #![trigger n.create(agent).port(x, t)]
            x < n.agents.len() ==> n.create(agent).port(x, t) == n.port(x, t),
        forall|x: NodeId, t: usize|
            #![trigger n.create(agent).has_port(x, t)]
            x < n.agents.len() ==> n.create(agent).has_port(x, t) == n.has_port(x, t),
{
    let m = n.create(agent);
    assert forall|i: int| 0 <= i < m.agents.len() implies (#[trigger] m.agents[i]).ports.len()
        == 3 by {
        if i < n.agents.len() {
            assert(n.agents[i].ports.len() == 3);
        }
    }
    if n.wired() {
        assert forall|a: NodeId, s: usize|
            #![trigger m.port(a, s)]
            m.has_port(a, s) && !m.port(a, s).is_null() implies m.paired(a, s) by {
            if a < n.agents.len() {
                assert(m.port(a, s) == n.port(a, s));
                assert(n.paired(a, s));
                let p = n.port(a, s);
                assert(m.port(p.node, p.slot) == n.port(p.node, p.slot));
            }
        }
    }
}

/// The wiring primitive creates and removes no agent.
pub proof fn lemma_connect_len(n: NetModel, a: NodeId, sa: usize, b: NodeId, sb: usize)
    ensures
        n.connect(a, sa, b, sb).agents.len() == n.agents.len(),
{
    reveal(NetModel::connect);
    if n.can_connect(a, sa, b, sb) {
        let n1 = n.detach(a, sa);
        assert(n1.agents.len() == n.agents.len());
        let n2 = n1.detach(b, sb);
        assert(n2.agents.len() == n.agents.len());
    }
}

/// The wiring primitive creates and removes no agent, changes no kind and
/// no binding, and adds at most one pending pair, made of the two agents it
/// was given.
pub proof fn lemma_connect_frame(n: NetModel, a: NodeId, sa: usize, b: NodeId, sb: usize)
    requires
        n.shaped(),
    ensures
        n.connect(a, sa, b, sb).shaped(),
        n.connect(a, sa, b, sb).agents.len() == n.agents.len(),
        n.connect(a, sa, b, sb).bindings == n.bindings,
        n.connect(a, sa, b, sb).pending == n.pending || (n.can_connect(a, sa, b, sb)
            && n.connect(a, sa, b, sb).pending == n.pending.push(Redex { a, b })),
        forall|x: NodeId|
            x < n.agents.len() ==> #[trigger] n.connect(a, sa, b, sb).kind(x) == n.kind(x),
        forall|x: NodeId, t: usize|
            #![trigger n.connect(a, sa, b, sb).has_port(x, t)]
            n.connect(a, sa, b, sb).has_port(x, t) == n.has_port(x, t),
{
    reveal(NetModel::connect);
    if n.can_connect(a, sa, b, sb) {
        let n1 = n.detach(a, sa);
        let n2 = n1.detach(b, sb);
        let n3 = n2.set_port(a, sa, Port { node: b, slot: sb });
        let n4 = n3.set_port(b, sb, Port { node: a, slot: sa });
        lemma_detach(n, a, sa);
        assert(n1.has_port(b, sb));
        lemma_detach(n1, b, sb);
        assert(n2.has_port(a, sa));
        lemma_set_port(n2, a, sa, Port { node: b, slot: sb });
        assert(n3.has_port(b, sb));
        lemma_set_port(n3, b, sb, Port { node: a, slot: sa });
        let n5 = n.connect(a, sa, b, sb);
        assert(n5.agents == n4.agents);
        assert forall|x: NodeId| x < n.agents.len() implies #[trigger] n5.kind(x) == n.kind(x) by {
            assert(n4.kind(x) == n3.kind(x));
            assert(n3.kind(x) == n2.kind(x));
            assert(n2.kind(x) == n1.kind(x));
            assert(n1.kind(x) == n.kind(x));
        }
        assert forall|x: NodeId, t: usize| #![trigger n5.has_port(x, t)]
            n5.has_port(x, t) == n.has_port(x, t) by {
            assert(n4.has_port(x, t) == n3.has_port(x, t));
            assert(n3.has_port(x, t) == n2.has_port(x, t));
            assert(n2.has_port(x, t) == n1.has_port(x, t));
            assert(n1.has_port(x, t) == n.has_port(x, t));
        }
    }
}

/// What every port holds after `connect` in a net that keeps the wiring
/// invariant: the two ports named hold each other, the ports they were wired
/// to are unwired, and every other port holds what it held.
pub proof fn lemma_connect_ports(n: NetModel, a: NodeId, sa: usize, b: NodeId, sb: usize)
    requires
        n.wired(),
        n.can_connect(a, sa, b, sb),
    ensures
        forall|x: NodeId, t: usize|
            #![trigger n.connect(a, sa, b, sb).port(x, t)]
            x < n.agents.len() && t < 3 ==> n.connect(a, sa, b, sb).port(x, t) == if x == a && t
                == sa {
                Port { node: b, slot: sb }
            } else if x == b && t == sb {
                Port { node: a, slot: sa }
            } else if n.has_port(x, t) && (n.port(x, t) == (Port { node: a, slot: sa }) || n.port(
                x,
                t,
            ) == (Port { node: b, slot: sb })) {
                Port::null()
            } else {
                n.port(x, t)
            },
{
    reveal(NetModel::connect);
    let n1 = n.detach(a, sa);
    let n2 = n1.detach(b, sb);
    let n3 = n2.set_port(a, sa, Port { node: b, slot: sb });
    let n4 = n3.set_port(b, sb, Port { node: a, slot: sa });
    lemma_detach(n, a, sa);
    assert(n1.has_port(b, sb));
    lemma_detach(n1, b, sb);
    assert(n2.has_port(a, sa));
    lemma_set_port(n2, a, sa, Port { node: b, slot: sb });
    assert(n3.has_port(b, sb));
    lemma_set_port(n3, b, sb, Port { node: a, slot: sa });
    let n5 = n.connect(a, sa, b, sb);
    assert(n5.agents == n4.agents);
    assert forall|x: NodeId, t: usize| #![trigger n5.port(x, t)] x < n.agents.len() && t
        < 3 implies n5.port(x, t) == if x == a && t == sa {
        Port { node: b, slot: sb }
    } else if x == b && t == sb {
        Port { node: a, slot: sa }
    } else if n.has_port(x, t) && (n.port(x, t) == (Port { node: a, slot: sa }) || n.port(x, t)
        == (Port { node: b, slot: sb })) {
        Port::null()
    } else {
        n.port(x, t)
    } by {
        assert(n5.port(x, t) == n4.port(x, t));
        if n.has_port(x, t) && !n.port(x, t).is_null() {
            assert(n.paired(x, t));
        }
        if !n.port(a, sa).is_null() {
            assert(n.paired(a, sa));
        }
        if !n.port(b, sb).is_null() {
            assert(n.paired(b, sb));
        }
    }
}

/// The wiring primitive keeps the wiring invariant: after `connect`, every
/// wired port of the net still points at a port that points back.
pub proof fn lemma_connect_wired(n: NetModel, a: NodeId, sa: usize, b: NodeId, sb: usize)
    requires
        n.wired(),
    ensures
        n.connect(a, sa, b, sb).wired(),
{
    let m = n.connect(a, sa, b, sb);
    if n.can_connect(a, sa, b, sb) {
        lemma_connect_frame(n, a, sa, b, sb);
        lemma_connect_ports(n, a, sa, b, sb);
        assert forall|x: NodeId, s: usize|
            #![trigger m.port(x, s)]
            m.has_port(x, s) && !m.port(x, s).is_null() implies m.paired(x, s) by {
            assert(n.has_port(x, s));
            if (x == a && s == sa) || (x == b && s == sb) {
                assert(m.port(a, sa) == Port { node: b, slot: sb });
                assert(m.port(b, sb) == Port { node: a, slot: sa });
            } else {
                assert(m.port(x, s) == n.port(x, s));
                assert(n.paired(x, s));
                let y = n.port(x, s).node;
                let t = n.port(x, s).slot;
                assert(m.has_port(y, t));
                assert(m.port(y, t) == n.port(y, t));
            }
        }
    } else {
        reveal(NetModel::connect);
    }
}

/// A wire between two unwired ports of a net that keeps the wiring invariant
/// changes those two ports and nothing else.
pub proof fn lemma_connect_unwired(n: NetModel, a: NodeId, sa: usize, b: NodeId, sb: usize)
    requires
        n.wired(),
        n.can_connect(a, sa, b, sb),
        n.port(a, sa).is_null(),
        n.port(b, sb).is_null(),
    ensures
        forall|x: NodeId, t: usize|
            #![trigger n.connect(a, sa, b, sb).port(x, t)]
            x < n.agents.len() && t < 3 ==> n.connect(a, sa, b, sb).port(x, t) == if x == a && t
                == sa {
                Port { node: b, slot: sb }
            } else if x == b && t == sb {
                Port { node: a, slot: sa }
            } else {
                n.port(x, t)
            },
        forall|x: int|
            0 <= x < n.agents.len() && x != a && x != b ==> #[trigger] n.connect(
                a,
                sa,
                b,
                sb,
            ).agents[x] == n.agents[x],
{
    let m = n.connect(a, sa, b, sb);
    lemma_connect_ports(n, a, sa, b, sb);
    lemma_connect_frame(n, a, sa, b, sb);
    assert forall|x: NodeId, t: usize| #![trigger m.port(x, t)] x < n.agents.len() && t
        < 3 implies m.port(x, t) == if x == a && t == sa {
        Port { node: b, slot: sb }
    } else if x == b && t == sb {
        Port { node: a, slot: sa }
    } else {
        n.port(x, t)
    } by {
        if n.has_port(x, t) && !n.port(x, t).is_null() {
            assert(n.paired(x, t));
        }
    }
    assert forall|x: int| 0 <= x < n.agents.len() && x != a && x != b implies #[trigger] m.agents[x]
        == n.agents[x] by {
        let y = x as NodeId;
        assert(m.kind(y) == n.kind(y));
        assert(m.port(y, 0) == n.port(y, 0));
        assert(m.port(y, 1) == n.port(y, 1));
        assert(m.port(y, 2) == n.port(y, 2));
        assert(m.agents[x].ports.len() == 3);
        assert(n.agents[x].ports.len() == 3);
        assert(m.agents[x].ports =~= n.agents[x].ports);
    }
}

/// A wire touches four agents at most: in a net that keeps the wiring
/// invariant, `connect` leaves every agent as it was but the two it is
/// given and the two that their ports were wired to.
pub proof fn law_connect_touches(
    n: NetModel,
    a: NodeId,
    sa: usize,
    b: NodeId,
    sb: usize,
    x: NodeId,
)
    requires
        n.wired(),
        x < n.agents.len(),
        x != a,
        x != b,
        n.has_port(a, sa) ==> n.port(a, sa).is_null() || n.port(a, sa).node != x,
        n.has_port(b, sb) ==> n.port(b, sb).is_null() || n.port(b, sb).node != x,
    ensures
        n.connect(a, sa, b, sb).agents[x as int] == n.agents[x as int],
{
    let m = n.connect(a, sa, b, sb);
    if n.can_connect(a, sa, b, sb) {
        lemma_connect_frame(n, a, sa, b, sb);
        lemma_connect_ports(n, a, sa, b, sb);
        assert forall|t: usize| t < 3 implies #[trigger] m.port(x, t) == n.port(x, t) by {
            if n.has_port(x, t) && !n.port(x, t).is_null() {
                assert(n.paired(x, t));
            }
        }
        assert(m.kind(x) == n.kind(x));
        assert(m.port(x, 0) == n.port(x, 0));
        assert(m.port(x, 1) == n.port(x, 1));
        assert(m.port(x, 2) == n.port(x, 2));
        assert(m.agents[x as int].ports.len() == 3);
        assert(n.agents[x as int].ports.len() == 3);
        assert(m.agents[x as int].ports =~= n.agents[x as int].ports);
    } else {
        reveal(NetModel::connect);
    }
}

/// What has come out of a net that has come out of another has come out of
/// that other.
pub proof fn lemma_extends_twice(first: NetModel, second: NetModel, third: NetModel)
    requires
        second.extends(first),
        third.extends(second),
    ensures
        third.extends(first),
{
    assert forall|x: NodeId| x < first.agents.len() implies #[trigger] third.kind(x) == first.kind(
        x,
    ) by {
        assert(second.kind(x) == first.kind(x));
    }
}

/// The creation of an agent loses nothing.
pub proof fn lemma_create_extends(n: NetModel, agent: Agent)
    ensures
        n.create(agent).extends(n),
{
    assert forall|x: NodeId| x < n.agents.len() implies #[trigger] n.create(agent).kind(x)
        == n.kind(x) by {}
}

/// The wiring primitive loses nothing.
pub proof fn lemma_connect_extends(n: NetModel, a: NodeId, sa: usize, b: NodeId, sb: usize)
    requires
        n.shaped(),
    ensures
        n.connect(a, sa, b, sb).extends(n),
{
    lemma_connect_frame(n, a, sa, b, sb);
}

} // verus!
