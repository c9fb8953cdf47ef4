//! What holds of the rewrite rules, proved from their definitions.

use vstd::prelude::*;
use crate::model::{Kind, NetModel};
use crate::copy_laws::{copied, law_clone, law_clone_extends, law_copy_closed, lemma_clone_shaped};
use crate::net::{NodeId, Port, Redex, PRINCIPAL};
use crate::rules::{fresh, undefined_fault, unsupported_fault, Outcome, Progress};
use crate::runtime::RuntimeModel;
use crate::wiring::{
    law_connect_touches,
    lemma_connect_frame,
    lemma_connect_len,
    lemma_connect_ports,
    lemma_connect_unwired,
    lemma_connect_wired,
    lemma_connect_extends,
    lemma_create,
    lemma_create_extends,
    lemma_extends_twice,
};

verus! {

/// In a table in which no name is bound twice, the binding at a position is
/// the one that its name is looked up to.
pub proof fn lemma_position(n: NetModel, name: Seq<char>, i: int)
    requires
        n.named_once(),
        0 <= i < n.bindings.len(),
        n.bindings[i].name == name,
    ensures
        n.defines(name),
        n.position(name) == i,
        n.lookup(name) == Some(n.bindings[i].root),
{
    let j = n.position(name);
    assert(n.bindings[j].name == name);
    if j < i {
        assert(n.bindings[j].name != n.bindings[i].name);
    }
    if i < j {
        assert(n.bindings[i].name != n.bindings[j].name);
    }
}

/// What is bound is what is looked up. In a table in which no name is bound
/// twice, after `name` has been bound to `root` the name is looked up to
/// `root`, whether it was bound before or not, and every other name is
/// looked up to what it was before. No name is bound twice afterwards
/// either; the agents and the pending pairs are as they were; and a sound
/// net is sound again where `root` is an agent.
pub proof fn law_define_lookup(n: NetModel, name: Seq<char>, root: NodeId, other: Seq<char>)
    requires
        n.named_once(),
    ensures
        n.define(name, root).lookup(name) == Some(root),
        other != name ==> n.define(name, root).lookup(other) == n.lookup(other),
        n.define(name, root).named_once(),
        n.define(name, root).agents == n.agents,
        n.define(name, root).pending == n.pending,
        n.sound() && root < n.agents.len() ==> n.define(name, root).sound(),
{
    let m = n.define(name, root);
    let at = if n.defines(name) {
        n.position(name)
    } else {
        n.bindings.len() as int
    };
    assert(m.bindings[at].name == name && m.bindings[at].root == root);
    assert forall|k: int| 0 <= k < m.bindings.len() && k != at implies #[trigger] m.bindings[k]
        == n.bindings[k] && n.bindings[k].name != name by {
        if n.defines(name) {
            if k < at {
                assert(n.bindings[k].name != n.bindings[at].name);
            } else {
                assert(n.bindings[at].name != n.bindings[k].name);
            }
        }
    }
    assert forall|i: int, j: int| 0 <= i < j < m.bindings.len() implies (
    #[trigger] m.bindings[i]).name != (#[trigger] m.bindings[j]).name by {
        if i != at && j != at {
            assert(n.bindings[i].name != n.bindings[j].name);
        }
    }
    lemma_position(m, name, at);
    if other != name {
        if n.defines(other) {
            let k = n.position(other);
            assert(m.bindings[k] == n.bindings[k]);
            lemma_position(m, other, k);
        }
        if m.defines(other) {
            let k = m.position(other);
            assert(m.bindings[k] == n.bindings[k]);
            lemma_position(n, other, k);
        }
    }
    if n.sound() && root < n.agents.len() {
        assert forall|i: int| 0 <= i < m.bindings.len() implies (#[trigger] m.bindings[i]).root
            < m.agents.len() by {
            if i != at {
                assert(m.bindings[i] == n.bindings[i]);
            }
        }
    }
}

/// One call that builds a net: a new agent, or a wire.
pub enum Change {
    /// A call of `create_node` with an agent of this kind.
    Create(Kind),
    /// A call of `connect` with these four arguments.
    Connect(NodeId, usize, NodeId, usize),
}

impl NetModel {
    /// The net after one building call. A wiring request that is refused
    /// changes nothing.
    pub open spec fn changed(self, change: Change) -> NetModel {
        match change {
            Change::Create(kind) => self.create(fresh(kind)),
            Change::Connect(a, sa, b, sb) => self.connect(a, sa, b, sb),
        }
    }

    /// The net after a sequence of building calls, made in order.
    pub open spec fn built(self, changes: Seq<Change>) -> NetModel
        decreases changes.len(),
    {
        if changes.len() == 0 {
            self
        } else {
            self.built(changes.drop_last()).changed(changes.last())
        }
    }
}

/// The wiring invariant holds after any sequence of `create_node` and
/// `connect` calls on a net in which it held, and so in every net built from
/// the empty one: wherever a port points at a port, that port points back.
pub proof fn law_wiring_symmetric(n: NetModel, changes: Seq<Change>)
    requires
        n.wired(),
        n.agents.len() + changes.len() <= usize::MAX,
    ensures
        n.built(changes).wired(),
        n.built(changes).agents.len() <= n.agents.len() + changes.len(),
    decreases changes.len(),
{
    if changes.len() > 0 {
        let before = n.built(changes.drop_last());
        law_wiring_symmetric(n, changes.drop_last());
        match changes.last() {
            Change::Create(kind) => {
                lemma_create(before, fresh(kind));
            },
            Change::Connect(a, sa, b, sb) => {
                lemma_connect_wired(before, a, sa, b, sb);
                lemma_connect_frame(before, a, sa, b, sb);
            },
        }
    }
}

/// The empty net keeps the wiring invariant.
pub proof fn law_empty_wired()
    ensures
        NetModel::empty().wired(),
{
}

/// One wiring request of a rule that began in the net `origin`: it creates
/// and removes no agent and changes no kind, whether it is accepted or not,
/// so whatever has come out of `origin` still has; and it keeps the wiring
/// invariant.
pub proof fn lemma_link(origin: NetModel, p: Progress, q: Port, b: NodeId, slot: usize)
    requires
        p.net.shaped(),
        p.net.extends(origin),
        origin.wired() ==> p.net.wired(),
    ensures
        p.link(q, b, slot).net.shaped(),
        p.link(q, b, slot).net.extends(origin),
        origin.wired() ==> p.link(q, b, slot).net.wired(),
        p.link(q, b, slot).net.agents.len() == p.net.agents.len(),
        forall|x: NodeId|
            x < p.net.agents.len() ==> #[trigger] p.link(q, b, slot).net.kind(x) == p.net.kind(x),
        forall|x: NodeId, t: usize|
            #![trigger p.link(q, b, slot).net.has_port(x, t)]
            p.link(q, b, slot).net.has_port(x, t) == p.net.has_port(x, t),
{
    if p.ok {
        lemma_connect_frame(p.net, q.node, q.slot, b, slot);
        lemma_connect_extends(p.net, q.node, q.slot, b, slot);
        lemma_extends_twice(origin, p.net, p.link(q, b, slot).net);
        if p.net.wired() {
            lemma_connect_wired(p.net, q.node, q.slot, b, slot);
        }
    }
}

/// A wiring request of a rule creates and removes no agent, even in a net
/// that is out of shape.
pub proof fn lemma_link_len(p: Progress, q: Port, b: NodeId, slot: usize)
    ensures
        p.link(q, b, slot).net.agents.len() == p.net.agents.len(),
{
    if p.ok {
        lemma_connect_len(p.net, q.node, q.slot, b, slot);
    }
}

/// One agent created by a rule that began in the net `origin`: whatever has
/// come out of `origin` still has, and the wiring invariant is kept.
pub proof fn lemma_grow(origin: NetModel, n: NetModel, kind: Kind)
    requires
        n.shaped(),
        n.agents.len() < usize::MAX,
        n.extends(origin),
        origin.wired() ==> n.wired(),
    ensures
        n.create(fresh(kind)).shaped(),
        n.create(fresh(kind)).extends(origin),
        origin.wired() ==> n.create(fresh(kind)).wired(),
        n.create(fresh(kind)).agents.len() == n.agents.len() + 1,
        n.create(fresh(kind)).kind(n.agents.len() as NodeId) == kind,
        forall|x: NodeId|
            x < n.agents.len() ==> #[trigger] n.create(fresh(kind)).kind(x) == n.kind(x),
        forall|x: NodeId, t: usize|
            #![trigger n.create(fresh(kind)).has_port(x, t)]
            x < n.agents.len() ==> n.create(fresh(kind)).has_port(x, t) == n.has_port(x, t),
{
    lemma_create(n, fresh(kind));
    lemma_create_extends(n, fresh(kind));
    lemma_extends_twice(origin, n, n.create(fresh(kind)));
}

/// Annihilation loses nothing and keeps the wiring invariant.
proof fn lemma_annihilate_frame(n: NetModel, a: NodeId, b: NodeId)
    requires
        n.shaped(),
    ensures
        n.annihilate(a, b).net.shaped(),
        n.annihilate(a, b).net.extends(n),
        n.wired() ==> n.annihilate(a, b).net.wired(),
{
    let a0 = n.port(a, 0);
    let a1 = n.port(a, 1);
    let b0 = n.port(b, 0);
    let b1 = n.port(b, 1);
    let w0 = Progress::start(n);
    lemma_link(n, w0, a0, b0.node, b0.slot);
    lemma_link(n, w0.link(a0, b0.node, b0.slot), a1, b1.node, b1.slot);
}

/// Commutation creates four agents.
proof fn lemma_commute_len(n: NetModel, con: NodeId, dup: NodeId)
    ensures
        n.commute(con, dup).net.agents.len() == n.agents.len() + 4,
{
    let c0 = n.port(con, 0);
    let c1 = n.port(con, 1);
    let d0 = n.port(dup, 0);
    let d1 = n.port(dup, 1);
    let k = n.agents.len() as NodeId;
    let dl = k;
    let dr = (k + 1) as NodeId;
    let cl = (k + 2) as NodeId;
    let cr = (k + 3) as NodeId;
    let made = n.create(fresh(Kind::Dup)).create(fresh(Kind::Dup)).create(fresh(n.kind(con))).create(
        fresh(n.kind(con)),
    );
    let w0 = Progress::start(made);
    let w1 = w0.link(c0, dl, PRINCIPAL);
    let w2 = w1.link(c1, dr, PRINCIPAL);
    let w3 = w2.link(d0, cl, PRINCIPAL);
    let w4 = w3.link(d1, cr, PRINCIPAL);
    let w5 = w4.link(Port { node: dl, slot: 0 }, cl, 0);
    let w6 = w5.link(Port { node: dl, slot: 1 }, cr, 0);
    let w7 = w6.link(Port { node: dr, slot: 0 }, cl, 1);
    lemma_link_len(w0, c0, dl, PRINCIPAL);
    lemma_link_len(w1, c1, dr, PRINCIPAL);
    lemma_link_len(w2, d0, cl, PRINCIPAL);
    lemma_link_len(w3, d1, cr, PRINCIPAL);
    lemma_link_len(w4, Port { node: dl, slot: 0 }, cl, 0);
    lemma_link_len(w5, Port { node: dl, slot: 1 }, cr, 0);
    lemma_link_len(w6, Port { node: dr, slot: 0 }, cl, 1);
    lemma_link_len(w7, Port { node: dr, slot: 1 }, cr, 1);
}

/// Commutation loses nothing, keeps the wiring invariant, and adds two
/// duplicators and two constructors of the kind of the constructor it met.
proof fn lemma_commute_frame(n: NetModel, con: NodeId, dup: NodeId)
    requires
        n.shaped(),
        n.agents.len() + 4 <= usize::MAX,
    ensures
        n.commute(con, dup).net.shaped(),
        n.commute(con, dup).net.extends(n),
        n.wired() ==> n.commute(con, dup).net.wired(),
        ({
            let m = n.commute(con, dup).net;
            let k = n.agents.len() as NodeId;
            &&& m.kind(k) == Kind::Dup
            &&& m.kind((k + 1) as NodeId) == Kind::Dup
            &&& m.kind((k + 2) as NodeId) == n.kind(con)
            &&& m.kind((k + 3) as NodeId) == n.kind(con)
        }),
{
    let c0 = n.port(con, 0);
    let c1 = n.port(con, 1);
    let d0 = n.port(dup, 0);
    let d1 = n.port(dup, 1);
    let k = n.agents.len() as NodeId;
    let dl = k;
    let dr = (k + 1) as NodeId;
    let cl = (k + 2) as NodeId;
    let cr = (k + 3) as NodeId;
    let m1 = n.create(fresh(Kind::Dup));
    let m2 = m1.create(fresh(Kind::Dup));
    let m3 = m2.create(fresh(n.kind(con)));
    let m4 = m3.create(fresh(n.kind(con)));
    lemma_grow(n, n, Kind::Dup);
    lemma_grow(n, m1, Kind::Dup);
    lemma_grow(n, m2, n.kind(con));
    lemma_grow(n, m3, n.kind(con));
    let w0 = Progress::start(m4);
    let w1 = w0.link(c0, dl, PRINCIPAL);
    let w2 = w1.link(c1, dr, PRINCIPAL);
    let w3 = w2.link(d0, cl, PRINCIPAL);
    let w4 = w3.link(d1, cr, PRINCIPAL);
    let w5 = w4.link(Port { node: dl, slot: 0 }, cl, 0);
    let w6 = w5.link(Port { node: dl, slot: 1 }, cr, 0);
    let w7 = w6.link(Port { node: dr, slot: 0 }, cl, 1);
    let w8 = w7.link(Port { node: dr, slot: 1 }, cr, 1);
    lemma_link(n, w0, c0, dl, PRINCIPAL);
    lemma_link(n, w1, c1, dr, PRINCIPAL);
    lemma_link(n, w2, d0, cl, PRINCIPAL);
    lemma_link(n, w3, d1, cr, PRINCIPAL);
    lemma_link(n, w4, Port { node: dl, slot: 0 }, cl, 0);
    lemma_link(n, w5, Port { node: dl, slot: 1 }, cr, 0);
    lemma_link(n, w6, Port { node: dr, slot: 0 }, cl, 1);
    lemma_link(n, w7, Port { node: dr, slot: 1 }, cr, 1);
    assert(n.commute(con, dup) == w8);
    assert forall|x: NodeId| x < m4.agents.len() implies #[trigger] w8.net.kind(x) == m4.kind(
        x,
    ) by {
        assert(w8.net.kind(x) == w7.net.kind(x));
        assert(w7.net.kind(x) == w6.net.kind(x));
        assert(w6.net.kind(x) == w5.net.kind(x));
        assert(w5.net.kind(x) == w4.net.kind(x));
        assert(w4.net.kind(x) == w3.net.kind(x));
        assert(w3.net.kind(x) == w2.net.kind(x));
        assert(w2.net.kind(x) == w1.net.kind(x));
        assert(w1.net.kind(x) == w0.net.kind(x));
    }
    assert(w8.net.kind(dl) == m4.kind(dl));
    assert(m4.kind(dl) == m3.kind(dl) && m3.kind(dl) == m2.kind(dl) && m2.kind(dl) == m1.kind(dl));
    assert(w8.net.kind(dr) == m4.kind(dr));
    assert(m4.kind(dr) == m3.kind(dr) && m3.kind(dr) == m2.kind(dr));
    assert(w8.net.kind(cl) == m4.kind(cl));
    assert(m4.kind(cl) == m3.kind(cl));
    assert(w8.net.kind(cr) == m4.kind(cr));
}

/// Duplication creates four agents.
proof fn lemma_duplicate_len(n: NetModel, a: NodeId, b: NodeId)
    ensures
        n.duplicate(a, b).net.agents.len() == n.agents.len() + 4,
{
    let a0 = n.port(a, 0);
    let a1 = n.port(a, 1);
    let b0 = n.port(b, 0);
    let b1 = n.port(b, 1);
    let k = n.agents.len() as NodeId;
    let d0 = k;
    let d1 = (k + 1) as NodeId;
    let d2 = (k + 2) as NodeId;
    let d3 = (k + 3) as NodeId;
    let made = n.create(fresh(Kind::Dup)).create(fresh(Kind::Dup)).create(fresh(Kind::Dup)).create(
        fresh(Kind::Dup),
    );
    let w0 = Progress::start(made);
    let w1 = w0.link(a0, d0, PRINCIPAL);
    let w2 = w1.link(a1, d1, PRINCIPAL);
    let w3 = w2.link(b0, d2, PRINCIPAL);
    let w4 = w3.link(b1, d3, PRINCIPAL);
    let w5 = w4.link(Port { node: d0, slot: 1 }, d2, 1);
    lemma_link_len(w0, a0, d0, PRINCIPAL);
    lemma_link_len(w1, a1, d1, PRINCIPAL);
    lemma_link_len(w2, b0, d2, PRINCIPAL);
    lemma_link_len(w3, b1, d3, PRINCIPAL);
    lemma_link_len(w4, Port { node: d0, slot: 1 }, d2, 1);
    lemma_link_len(w5, Port { node: d1, slot: 1 }, d3, 1);
}

/// Duplication loses nothing, keeps the wiring invariant, and adds four
/// duplicators.
proof fn lemma_duplicate_frame(n: NetModel, a: NodeId, b: NodeId)
    requires
        n.shaped(),
        n.agents.len() + 4 <= usize::MAX,
    ensures
        n.duplicate(a, b).net.shaped(),
        n.duplicate(a, b).net.extends(n),
        n.wired() ==> n.duplicate(a, b).net.wired(),
        forall|x: NodeId|
            n.agents.len() <= x < n.agents.len() + 4 ==> #[trigger] n.duplicate(a, b).net.kind(x)
                == Kind::Dup,
{
    let a0 = n.port(a, 0);
    let a1 = n.port(a, 1);
    let b0 = n.port(b, 0);
    let b1 = n.port(b, 1);
    let k = n.agents.len() as NodeId;
    let d0 = k;
    let d1 = (k + 1) as NodeId;
    let d2 = (k + 2) as NodeId;
    let d3 = (k + 3) as NodeId;
    let m1 = n.create(fresh(Kind::Dup));
    let m2 = m1.create(fresh(Kind::Dup));
    let m3 = m2.create(fresh(Kind::Dup));
    let m4 = m3.create(fresh(Kind::Dup));
    lemma_grow(n, n, Kind::Dup);
    lemma_grow(n, m1, Kind::Dup);
    lemma_grow(n, m2, Kind::Dup);
    lemma_grow(n, m3, Kind::Dup);
    let w0 = Progress::start(m4);
    let w1 = w0.link(a0, d0, PRINCIPAL);
    let w2 = w1.link(a1, d1, PRINCIPAL);
    let w3 = w2.link(b0, d2, PRINCIPAL);
    let w4 = w3.link(b1, d3, PRINCIPAL);
    let w5 = w4.link(Port { node: d0, slot: 1 }, d2, 1);
    let w6 = w5.link(Port { node: d1, slot: 1 }, d3, 1);
    lemma_link(n, w0, a0, d0, PRINCIPAL);
    lemma_link(n, w1, a1, d1, PRINCIPAL);
    lemma_link(n, w2, b0, d2, PRINCIPAL);
    lemma_link(n, w3, b1, d3, PRINCIPAL);
    lemma_link(n, w4, Port { node: d0, slot: 1 }, d2, 1);
    lemma_link(n, w5, Port { node: d1, slot: 1 }, d3, 1);
    assert(n.duplicate(a, b) == w6);
    assert forall|x: NodeId| n.agents.len() <= x < n.agents.len() + 4 implies #[trigger] w6.net.kind(
        x,
    ) == Kind::Dup by {
        assert(w6.net.kind(x) == w5.net.kind(x));
        assert(w5.net.kind(x) == w4.net.kind(x));
        assert(w4.net.kind(x) == w3.net.kind(x));
        assert(w3.net.kind(x) == w2.net.kind(x));
        assert(w2.net.kind(x) == w1.net.kind(x));
        assert(w1.net.kind(x) == w0.net.kind(x));
        assert(m4.kind(d3) == Kind::Dup);
        assert(m4.kind(d2) == m3.kind(d2));
        assert(m4.kind(d1) == m3.kind(d1) && m3.kind(d1) == m2.kind(d1));
        assert(m4.kind(d0) == m3.kind(d0) && m3.kind(d0) == m2.kind(d0) && m2.kind(d0)
            == m1.kind(d0));
    }
}

/// Erasure creates two agents.
proof fn lemma_erase_len(n: NetModel, x: NodeId)
    ensures
        n.erase(x).net.agents.len() == n.agents.len() + 2,
{
    let x0 = n.port(x, 0);
    let x1 = n.port(x, 1);
    let k = n.agents.len() as NodeId;
    let made = n.create(fresh(Kind::Era)).create(fresh(Kind::Era));
    let w0 = Progress::start(made);
    lemma_link_len(w0, x0, k, PRINCIPAL);
    lemma_link_len(w0.link(x0, k, PRINCIPAL), x1, (k + 1) as NodeId, PRINCIPAL);
}

/// Erasure loses nothing, keeps the wiring invariant, and adds two erasers.
proof fn lemma_erase_frame(n: NetModel, x: NodeId)
    requires
        n.shaped(),
        n.agents.len() + 2 <= usize::MAX,
    ensures
        n.erase(x).net.shaped(),
        n.erase(x).net.extends(n),
        n.wired() ==> n.erase(x).net.wired(),
        n.erase(x).net.kind(n.agents.len() as NodeId) == Kind::Era,
        n.erase(x).net.kind((n.agents.len() + 1) as NodeId) == Kind::Era,
{
    let x0 = n.port(x, 0);
    let x1 = n.port(x, 1);
    let k = n.agents.len() as NodeId;
    let l = (k + 1) as NodeId;
    let m1 = n.create(fresh(Kind::Era));
    let m2 = m1.create(fresh(Kind::Era));
    lemma_grow(n, n, Kind::Era);
    lemma_grow(n, m1, Kind::Era);
    let w0 = Progress::start(m2);
    let w1 = w0.link(x0, k, PRINCIPAL);
    let w2 = w1.link(x1, l, PRINCIPAL);
    lemma_link(n, w0, x0, k, PRINCIPAL);
    lemma_link(n, w1, x1, l, PRINCIPAL);
    assert(n.erase(x) == w2);
    assert(w2.net.kind(k) == w1.net.kind(k) && w1.net.kind(k) == m2.kind(k) && m2.kind(k)
        == m1.kind(k));
    assert(w2.net.kind(l) == w1.net.kind(l) && w1.net.kind(l) == m2.kind(l));
}

/// The rule for a reference loses nothing and keeps the wiring invariant.
proof fn lemma_call_frame(n: NetModel, name: Seq<char>, other: NodeId)
    requires
        n.shaped(),
        n.sound(),
        n.call(name, other).0.agents.len() <= usize::MAX,
    ensures
        n.call(name, other).0.extends(n),
        n.wired() ==> n.call(name, other).0.wired(),
{
    match n.lookup(name) {
        Some(root) => {
            let copy = n.agents.len() as NodeId;
            let grown = n.clone_subgraph(root);
            let w0 = Progress::start(grown);
            lemma_link_len(w0, Port { node: copy, slot: PRINCIPAL }, other, PRINCIPAL);
            assert(n.bindings[n.position(name)].root < n.agents.len());
            law_clone_extends(n, root);
            lemma_clone_shaped(n, root);
            if n.wired() {
                law_clone(n, root);
            }
            lemma_link(n, w0, Port { node: copy, slot: PRINCIPAL }, other, PRINCIPAL);
        },
        None => {},
    }
}

/// No rule loses anything, and every rule keeps the wiring invariant,
/// whether it runs to its end or not: every agent that was there is there
/// afterwards with its kind and payload, the definitions are as they were,
/// and where every wired port pointed at a port that pointed back, every
/// wired port still does.
pub proof fn law_rules_keep(n: NetModel, redex: Redex)
    requires
        n.shaped(),
        n.sound(),
        redex.a < n.agents.len(),
        redex.b < n.agents.len(),
        n.interact(redex).0.agents.len() <= usize::MAX,
    ensures
        n.interact(redex).0.extends(n),
        n.wired() ==> n.interact(redex).0.wired(),
{
    let a = redex.a;
    let b = redex.b;
    match (n.kind(a), n.kind(b)) {
        (Kind::Con(x), Kind::Con(y)) => {
            if x == y {
                lemma_annihilate_frame(n, a, b);
            }
        },
        (Kind::Con(_), Kind::Dup) => {
            lemma_commute_len(n, a, b);
            lemma_commute_frame(n, a, b);
        },
        (Kind::Dup, Kind::Con(_)) => {
            lemma_commute_len(n, b, a);
            lemma_commute_frame(n, b, a);
        },
        (Kind::Dup, Kind::Dup) => {
            lemma_duplicate_len(n, a, b);
            lemma_duplicate_frame(n, a, b);
        },
        (Kind::Con(_), Kind::Era) | (Kind::Dup, Kind::Era) => {
            lemma_erase_len(n, a);
            lemma_erase_frame(n, a);
        },
        (Kind::Era, Kind::Con(_)) | (Kind::Era, Kind::Dup) => {
            lemma_erase_len(n, b);
            lemma_erase_frame(n, b);
        },
        (Kind::Era, Kind::Era) => {},
        (Kind::Ref(name), _) => {
            lemma_call_frame(n, name, b);
        },
        (_, Kind::Ref(name)) => {
            lemma_call_frame(n, name, a);
        },
    }
}

/// A wiring request of a rule between two ports of a net that keeps the
/// wiring invariant is accepted, and afterwards the two ports hold each
/// other, the ports they were wired to are unwired, and every other port
/// holds what it held.
proof fn lemma_link_ports(w: Progress, q: Port, b: NodeId, slot: usize)
    requires
        w.ok,
        w.net.wired(),
        w.net.has_port(q.node, q.slot),
        w.net.has_port(b, slot),
    ensures
        w.link(q, b, slot).ok,
        w.link(q, b, slot).net.wired(),
        w.link(q, b, slot).net.agents.len() == w.net.agents.len(),
        forall|x: NodeId, t: usize|
            #![trigger w.link(q, b, slot).net.has_port(x, t)]
            w.link(q, b, slot).net.has_port(x, t) == w.net.has_port(x, t),
        forall|x: NodeId, t: usize|
            #![trigger w.link(q, b, slot).net.port(x, t)]
            x < w.net.agents.len() && t < 3 ==> w.link(q, b, slot).net.port(x, t) == if x == q.node
                && t == q.slot {
                Port { node: b, slot }
            } else if x == b && t == slot {
                q
            } else if w.net.has_port(x, t) && (w.net.port(x, t) == q || w.net.port(x, t) == (Port {
                node: b,
                slot,
            })) {
                Port::null()
            } else {
                w.net.port(x, t)
            },
{
    lemma_connect_frame(w.net, q.node, q.slot, b, slot);
    lemma_connect_wired(w.net, q.node, q.slot, b, slot);
    lemma_connect_ports(w.net, q.node, q.slot, b, slot);
}

/// Four agents created in a net that keeps the wiring invariant are
/// unwired, and every port that was there holds what it held.
proof fn lemma_grow_four(n: NetModel, k1: Kind, k2: Kind, k3: Kind, k4: Kind)
    requires
        n.wired(),
        n.agents.len() + 4 <= usize::MAX,
    ensures
        ({
            let m = n.create(fresh(k1)).create(fresh(k2)).create(fresh(k3)).create(fresh(k4));
            &&& m.wired()
            &&& m.agents.len() == n.agents.len() + 4
            &&& forall|x: NodeId, t: usize|
                #![trigger m.port(x, t)]
                x < n.agents.len() ==> m.port(x, t) == n.port(x, t)
            &&& forall|x: NodeId, t: usize|
                #![trigger m.has_port(x, t)]
                x < n.agents.len() ==> m.has_port(x, t) == n.has_port(x, t)
            &&& forall|x: NodeId, t: usize|
                #![trigger m.port(x, t)]
                n.agents.len() <= x < n.agents.len() + 4 && t < 3 ==> m.port(x, t).is_null()
            &&& m.kind(n.agents.len() as NodeId) == k1
            &&& m.kind((n.agents.len() + 1) as NodeId) == k2
            &&& m.kind((n.agents.len() + 2) as NodeId) == k3
            &&& m.kind((n.agents.len() + 3) as NodeId) == k4
        }),
{
    let m1 = n.create(fresh(k1));
    let m2 = m1.create(fresh(k2));
    let m3 = m2.create(fresh(k3));
    let m4 = m3.create(fresh(k4));
    lemma_create(n, fresh(k1));
    lemma_create(m1, fresh(k2));
    lemma_create(m2, fresh(k3));
    lemma_create(m3, fresh(k4));
    let k = n.agents.len() as NodeId;
    assert forall|x: NodeId, t: usize| #![trigger m4.port(x, t)] x < n.agents.len() implies m4.port(
        x,
        t,
    ) == n.port(x, t) by {
        assert(m4.port(x, t) == m3.port(x, t));
        assert(m3.port(x, t) == m2.port(x, t));
        assert(m2.port(x, t) == m1.port(x, t));
        assert(m1.port(x, t) == n.port(x, t));
    }
    assert forall|x: NodeId, t: usize|
        #![trigger m4.has_port(x, t)]
        x < n.agents.len() implies m4.has_port(x, t) == n.has_port(x, t) by {
        assert(m4.has_port(x, t) == m3.has_port(x, t));
        assert(m3.has_port(x, t) == m2.has_port(x, t));
        assert(m2.has_port(x, t) == m1.has_port(x, t));
        assert(m1.has_port(x, t) == n.has_port(x, t));
    }
    assert forall|x: NodeId, t: usize|
        #![trigger m4.port(x, t)]
        n.agents.len() <= x < n.agents.len() + 4 && t < 3 implies m4.port(x, t).is_null() by {
        if x == k {
            assert(m4.port(x, t) == m3.port(x, t));
            assert(m3.port(x, t) == m2.port(x, t));
            assert(m2.port(x, t) == m1.port(x, t));
        } else if x == k + 1 {
            assert(m4.port(x, t) == m3.port(x, t));
            assert(m3.port(x, t) == m2.port(x, t));
        } else if x == k + 2 {
            assert(m4.port(x, t) == m3.port(x, t));
        }
    }
    assert(m4.kind(k) == m3.kind(k) && m3.kind(k) == m2.kind(k) && m2.kind(k) == m1.kind(k));
    assert(m4.kind((k + 1) as NodeId) == m3.kind((k + 1) as NodeId) && m3.kind((k + 1) as NodeId)
        == m2.kind((k + 1) as NodeId));
    assert(m4.kind((k + 2) as NodeId) == m3.kind((k + 2) as NodeId));
}

/// Commutation in a net that keeps the wiring invariant, on agents whose
/// four auxiliary ports are wired: the first four wiring requests are
/// accepted, and each fresh agent faces what one auxiliary port was wired
/// to.
proof fn lemma_commute_outer(n: NetModel, con: NodeId, dup: NodeId)
    requires
        n.wired(),
        n.agents.len() + 4 <= usize::MAX,
        con < n.agents.len(),
        dup < n.agents.len(),
        n.kind(con) is Con,
        n.kind(dup) is Dup,
        !n.port(con, 0).is_null(),
        !n.port(con, 1).is_null(),
        !n.port(dup, 0).is_null(),
        !n.port(dup, 1).is_null(),
    ensures
        ({
            let c0 = n.port(con, 0);
            let c1 = n.port(con, 1);
            let d0 = n.port(dup, 0);
            let d1 = n.port(dup, 1);
            let k = n.agents.len() as NodeId;
            let dl = k;
            let dr = (k + 1) as NodeId;
            let cl = (k + 2) as NodeId;
            let cr = (k + 3) as NodeId;
            let made = n.create(fresh(Kind::Dup)).create(fresh(Kind::Dup)).create(
                fresh(n.kind(con)),
            ).create(fresh(n.kind(con)));
            let w = Progress::start(made).link(c0, dl, PRINCIPAL).link(c1, dr, PRINCIPAL).link(
                d0,
                cl,
                PRINCIPAL,
            ).link(d1, cr, PRINCIPAL);
            &&& w.ok
            &&& w.net.wired()
            &&& w.net.agents.len() == n.agents.len() + 4
            &&& w.net.kind(dl) == Kind::Dup
            &&& w.net.kind(dr) == Kind::Dup
            &&& w.net.kind(cl) == n.kind(con)
            &&& w.net.kind(cr) == n.kind(con)
            &&& w.net.joins(c0, Port { node: dl, slot: PRINCIPAL })
            &&& w.net.joins(c1, Port { node: dr, slot: PRINCIPAL })
            &&& w.net.joins(d0, Port { node: cl, slot: PRINCIPAL })
            &&& w.net.joins(d1, Port { node: cr, slot: PRINCIPAL })
            &&& forall|x: NodeId, t: usize|
                #![trigger w.net.port(x, t)]
                n.agents.len() <= x < n.agents.len() + 4 && t < 2 ==> w.net.port(x, t).is_null()
            &&& c0.node < n.agents.len() && c1.node < n.agents.len() && d0.node < n.agents.len()
                && d1.node < n.agents.len()
        }),
{
    let c0 = n.port(con, 0);
    let c1 = n.port(con, 1);
    let d0 = n.port(dup, 0);
    let d1 = n.port(dup, 1);
    let k = n.agents.len() as NodeId;
    let dl = k;
    let dr = (k + 1) as NodeId;
    let cl = (k + 2) as NodeId;
    let cr = (k + 3) as NodeId;
    assert(n.paired(con, 0));
    assert(n.paired(con, 1));
    assert(n.paired(dup, 0));
    assert(n.paired(dup, 1));
    let made = n.create(fresh(Kind::Dup)).create(fresh(Kind::Dup)).create(fresh(n.kind(con))).create(
        fresh(n.kind(con)),
    );
    lemma_grow_four(n, Kind::Dup, Kind::Dup, n.kind(con), n.kind(con));
    lemma_outer(n, made, c0, c1, d0, d1);
}

/// The four wiring requests that make four fresh agents face four ports of
/// the net that were wired to four different ports.
proof fn lemma_outer(n: NetModel, made: NetModel, t0: Port, t1: Port, t2: Port, t3: Port)
    requires
        n.wired(),
        n.agents.len() + 4 <= usize::MAX,
        made.wired(),
        made.agents.len() == n.agents.len() + 4,
        forall|x: NodeId, t: usize|
            #![trigger made.port(x, t)]
            x < n.agents.len() ==> made.port(x, t) == n.port(x, t),
        forall|x: NodeId, t: usize|
            #![trigger made.has_port(x, t)]
            x < n.agents.len() ==> made.has_port(x, t) == n.has_port(x, t),
        forall|x: NodeId, t: usize|
            #![trigger made.port(x, t)]
            n.agents.len() <= x < n.agents.len() + 4 && t < 3 ==> made.port(x, t).is_null(),
        forall|x: NodeId|
            n.agents.len() <= x < n.agents.len() + 4 ==> #[trigger] made.has_port(x, PRINCIPAL),
        n.has_port(t0.node, t0.slot),
        n.has_port(t1.node, t1.slot),
        n.has_port(t2.node, t2.slot),
        n.has_port(t3.node, t3.slot),
        !n.port(t0.node, t0.slot).is_null(),
        !n.port(t1.node, t1.slot).is_null(),
        !n.port(t2.node, t2.slot).is_null(),
        !n.port(t3.node, t3.slot).is_null(),
        t0 != t1 && t0 != t2 && t0 != t3 && t1 != t2 && t1 != t3 && t2 != t3,
    ensures
        ({
            let k = n.agents.len() as NodeId;
            let f0 = k;
            let f1 = (k + 1) as NodeId;
            let f2 = (k + 2) as NodeId;
            let f3 = (k + 3) as NodeId;
            let w = Progress::start(made).link(t0, f0, PRINCIPAL).link(t1, f1, PRINCIPAL).link(
                t2,
                f2,
                PRINCIPAL,
            ).link(t3, f3, PRINCIPAL);
            &&& w.ok
            &&& w.net.wired()
            &&& w.net.agents.len() == made.agents.len()
            &&& w.net.joins(t0, Port { node: f0, slot: PRINCIPAL })
            &&& w.net.joins(t1, Port { node: f1, slot: PRINCIPAL })
            &&& w.net.joins(t2, Port { node: f2, slot: PRINCIPAL })
            &&& w.net.joins(t3, Port { node: f3, slot: PRINCIPAL })
            &&& forall|x: NodeId, t: usize|
                #![trigger w.net.port(x, t)]
                n.agents.len() <= x < n.agents.len() + 4 && t < 2 ==> w.net.port(x, t).is_null()
            &&& forall|x: NodeId, t: usize|
                #![trigger w.net.has_port(x, t)]
                w.net.has_port(x, t) == made.has_port(x, t)
            &&& forall|x: NodeId| x < made.agents.len() ==> #[trigger] w.net.kind(x) == made.kind(x)
        }),
{
    let k = n.agents.len() as NodeId;
    let f0 = k;
    let f1 = (k + 1) as NodeId;
    let f2 = (k + 2) as NodeId;
    let f3 = (k + 3) as NodeId;
    assert(n.paired(t0.node, t0.slot));
    assert(n.paired(t1.node, t1.slot));
    assert(n.paired(t2.node, t2.slot));
    assert(n.paired(t3.node, t3.slot));
    let w0 = Progress::start(made);
    assert(made.has_port(f0, PRINCIPAL) && made.has_port(f1, PRINCIPAL) && made.has_port(
        f2,
        PRINCIPAL,
    ) && made.has_port(f3, PRINCIPAL));
    assert(made.has_port(t0.node, t0.slot) && made.has_port(t1.node, t1.slot) && made.has_port(
        t2.node,
        t2.slot,
    ) && made.has_port(t3.node, t3.slot));
    let w1 = w0.link(t0, f0, PRINCIPAL);
    lemma_link_ports(w0, t0, f0, PRINCIPAL);
    lemma_link(made, w0, t0, f0, PRINCIPAL);
    assert(w1.net.has_port(t1.node, t1.slot) && w1.net.has_port(f1, PRINCIPAL));
    let w2 = w1.link(t1, f1, PRINCIPAL);
    lemma_link_ports(w1, t1, f1, PRINCIPAL);
    lemma_link(made, w1, t1, f1, PRINCIPAL);
    assert(w2.net.has_port(t2.node, t2.slot) && w2.net.has_port(f2, PRINCIPAL));
    let w3 = w2.link(t2, f2, PRINCIPAL);
    lemma_link_ports(w2, t2, f2, PRINCIPAL);
    lemma_link(made, w2, t2, f2, PRINCIPAL);
    assert(w3.net.has_port(t3.node, t3.slot) && w3.net.has_port(f3, PRINCIPAL));
    let w4 = w3.link(t3, f3, PRINCIPAL);
    lemma_link_ports(w3, t3, f3, PRINCIPAL);
    lemma_link(made, w3, t3, f3, PRINCIPAL);
    // The ports that face each other after each request.
    assert(w1.net.port(t0.node, t0.slot) == Port { node: f0, slot: PRINCIPAL });
    assert(w1.net.port(f0, PRINCIPAL) == t0);
    assert(w2.net.port(t0.node, t0.slot) == Port { node: f0, slot: PRINCIPAL });
    assert(w2.net.port(f0, PRINCIPAL) == t0);
    assert(w2.net.port(t1.node, t1.slot) == Port { node: f1, slot: PRINCIPAL });
    assert(w2.net.port(f1, PRINCIPAL) == t1);
    assert(w3.net.port(t0.node, t0.slot) == Port { node: f0, slot: PRINCIPAL });
    assert(w3.net.port(f0, PRINCIPAL) == t0);
    assert(w3.net.port(t1.node, t1.slot) == Port { node: f1, slot: PRINCIPAL });
    assert(w3.net.port(f1, PRINCIPAL) == t1);
    assert(w3.net.port(t2.node, t2.slot) == Port { node: f2, slot: PRINCIPAL });
    assert(w3.net.port(f2, PRINCIPAL) == t2);
    assert(w4.net.port(t0.node, t0.slot) == Port { node: f0, slot: PRINCIPAL });
    assert(w4.net.port(f0, PRINCIPAL) == t0);
    assert(w4.net.port(t1.node, t1.slot) == Port { node: f1, slot: PRINCIPAL });
    assert(w4.net.port(f1, PRINCIPAL) == t1);
    assert(w4.net.port(t2.node, t2.slot) == Port { node: f2, slot: PRINCIPAL });
    assert(w4.net.port(f2, PRINCIPAL) == t2);
    assert(w4.net.port(t3.node, t3.slot) == Port { node: f3, slot: PRINCIPAL });
    assert(w4.net.port(f3, PRINCIPAL) == t3);
    assert forall|x: NodeId, t: usize|
        #![trigger w4.net.port(x, t)]
        n.agents.len() <= x < n.agents.len() + 4 && t < 2 implies w4.net.port(x, t).is_null() by {
        assert(made.port(x, t).is_null());
        assert(w1.net.port(x, t).is_null());
        assert(w2.net.port(x, t).is_null());
        assert(w3.net.port(x, t).is_null());
    }
    assert forall|x: NodeId, t: usize| #![trigger w4.net.has_port(x, t)] w4.net.has_port(x, t)
        == made.has_port(x, t) by {
        assert(w4.net.has_port(x, t) == w3.net.has_port(x, t));
        assert(w3.net.has_port(x, t) == w2.net.has_port(x, t));
        assert(w2.net.has_port(x, t) == w1.net.has_port(x, t));
        assert(w1.net.has_port(x, t) == made.has_port(x, t));
    }
    assert forall|x: NodeId| x < made.agents.len() implies #[trigger] w4.net.kind(x) == made.kind(
        x,
    ) by {
        assert(w4.net.kind(x) == w3.net.kind(x));
        assert(w3.net.kind(x) == w2.net.kind(x));
        assert(w2.net.kind(x) == w1.net.kind(x));
        assert(w1.net.kind(x) == made.kind(x));
    }
}

/// Wiring requests between unwired auxiliary ports of fresh agents are
/// accepted and leave every other port as it was.
proof fn lemma_link_fresh(w: Progress, a: NodeId, sa: usize, b: NodeId, sb: usize)
    requires
        w.ok,
        w.net.wired(),
        w.net.has_port(a, sa),
        w.net.has_port(b, sb),
        w.net.port(a, sa).is_null(),
        w.net.port(b, sb).is_null(),
    ensures
        w.link(Port { node: a, slot: sa }, b, sb).ok,
        w.link(Port { node: a, slot: sa }, b, sb).net.wired(),
        w.link(Port { node: a, slot: sa }, b, sb).net.agents.len() == w.net.agents.len(),
        forall|x: NodeId, t: usize|
            #![trigger w.link(Port { node: a, slot: sa }, b, sb).net.has_port(x, t)]
            w.link(Port { node: a, slot: sa }, b, sb).net.has_port(x, t) == w.net.has_port(x, t),
        forall|x: NodeId| x < w.net.agents.len() ==> #[trigger] w.link(
            Port { node: a, slot: sa },
            b,
            sb,
        ).net.kind(x) == w.net.kind(x),
        forall|x: NodeId, t: usize|
            #![trigger w.link(Port { node: a, slot: sa }, b, sb).net.port(x, t)]
            x < w.net.agents.len() && t < 3 ==> w.link(Port { node: a, slot: sa }, b, sb).net.port(
                x,
                t,
            ) == if x == a && t == sa {
                Port { node: b, slot: sb }
            } else if x == b && t == sb {
                Port { node: a, slot: sa }
            } else {
                w.net.port(x, t)
            },
{
    lemma_connect_frame(w.net, a, sa, b, sb);
    lemma_connect_wired(w.net, a, sa, b, sb);
    lemma_connect_unwired(w.net, a, sa, b, sb);
}

/// Commutation in a net that keeps the wiring invariant, on agents whose
/// four auxiliary ports are wired: the rule runs to its end, each fresh
/// agent faces what one auxiliary port was wired to, and each fresh
/// duplicator is wired to both fresh constructors.
proof fn lemma_commute_wiring(n: NetModel, con: NodeId, dup: NodeId)
    requires
        n.wired(),
        n.agents.len() + 4 <= usize::MAX,
        con < n.agents.len(),
        dup < n.agents.len(),
        n.kind(con) is Con,
        n.kind(dup) is Dup,
        !n.port(con, 0).is_null(),
        !n.port(con, 1).is_null(),
        !n.port(dup, 0).is_null(),
        !n.port(dup, 1).is_null(),
    ensures
        n.commute(con, dup).ok,
        n.commute(con, dup).net.wired(),
        commuted(n, n.commute(con, dup).net, con, dup),
{
    let c0 = n.port(con, 0);
    let c1 = n.port(con, 1);
    let d0 = n.port(dup, 0);
    let d1 = n.port(dup, 1);
    let k = n.agents.len() as NodeId;
    let dl = k;
    let dr = (k + 1) as NodeId;
    let cl = (k + 2) as NodeId;
    let cr = (k + 3) as NodeId;
    let made = n.create(fresh(Kind::Dup)).create(fresh(Kind::Dup)).create(fresh(n.kind(con))).create(
        fresh(n.kind(con)),
    );
    lemma_commute_outer(n, con, dup);
    let w4 = Progress::start(made).link(c0, dl, PRINCIPAL).link(c1, dr, PRINCIPAL).link(
        d0,
        cl,
        PRINCIPAL,
    ).link(d1, cr, PRINCIPAL);
    assert(w4.net.has_port(dl, 0) && w4.net.has_port(dl, 1) && w4.net.has_port(dr, 0)
        && w4.net.has_port(dr, 1));
    assert(w4.net.has_port(cl, 0) && w4.net.has_port(cl, 1) && w4.net.has_port(cr, 0)
        && w4.net.has_port(cr, 1));
    assert(w4.net.port(dl, 0).is_null() && w4.net.port(cl, 0).is_null());
    let w5 = w4.link(Port { node: dl, slot: 0 }, cl, 0);
    lemma_link_fresh(w4, dl, 0, cl, 0);
    assert(w5.net.port(dl, 1) == w4.net.port(dl, 1) && w5.net.port(cr, 0) == w4.net.port(cr, 0));
    let w6 = w5.link(Port { node: dl, slot: 1 }, cr, 0);
    lemma_link_fresh(w5, dl, 1, cr, 0);
    assert(w5.net.port(dr, 0) == w4.net.port(dr, 0) && w5.net.port(cl, 1) == w4.net.port(cl, 1));
    assert(w6.net.port(dr, 0) == w5.net.port(dr, 0) && w6.net.port(cl, 1) == w5.net.port(cl, 1));
    let w7 = w6.link(Port { node: dr, slot: 0 }, cl, 1);
    lemma_link_fresh(w6, dr, 0, cl, 1);
    assert(w5.net.port(dr, 1) == w4.net.port(dr, 1) && w5.net.port(cr, 1) == w4.net.port(cr, 1));
    assert(w6.net.port(dr, 1) == w5.net.port(dr, 1) && w6.net.port(cr, 1) == w5.net.port(cr, 1));
    assert(w7.net.port(dr, 1) == w6.net.port(dr, 1) && w7.net.port(cr, 1) == w6.net.port(cr, 1));
    let w8 = w7.link(Port { node: dr, slot: 1 }, cr, 1);
    lemma_link_fresh(w7, dr, 1, cr, 1);
    assert(n.commute(con, dup) == w8);
    let m = w8.net;
    assert forall|x: NodeId, t: usize|
        #![trigger m.port(x, t)]
        x < m.agents.len() && t < 3 && !(x >= k && t < 2) implies m.port(x, t) == w4.net.port(
        x,
        t,
    ) by {
        assert(m.port(x, t) == w7.net.port(x, t));
        assert(w7.net.port(x, t) == w6.net.port(x, t));
        assert(w6.net.port(x, t) == w5.net.port(x, t));
        assert(w5.net.port(x, t) == w4.net.port(x, t));
    }
    assert(m.port(dl, 0) == Port { node: cl, slot: 0 }) by {
        assert(w5.net.port(dl, 0) == Port { node: cl, slot: 0 });
        assert(w6.net.port(dl, 0) == w5.net.port(dl, 0));
        assert(w7.net.port(dl, 0) == w6.net.port(dl, 0));
    }
    assert(m.port(cl, 0) == Port { node: dl, slot: 0 }) by {
        assert(w5.net.port(cl, 0) == Port { node: dl, slot: 0 });
        assert(w6.net.port(cl, 0) == w5.net.port(cl, 0));
        assert(w7.net.port(cl, 0) == w6.net.port(cl, 0));
    }
    assert(m.port(dl, 1) == Port { node: cr, slot: 0 }) by {
        assert(w6.net.port(dl, 1) == Port { node: cr, slot: 0 });
        assert(w7.net.port(dl, 1) == w6.net.port(dl, 1));
    }
    assert(m.port(cr, 0) == Port { node: dl, slot: 1 }) by {
        assert(w6.net.port(cr, 0) == Port { node: dl, slot: 1 });
        assert(w7.net.port(cr, 0) == w6.net.port(cr, 0));
    }
    assert(m.port(dr, 0) == Port { node: cl, slot: 1 }) by {
        assert(w7.net.port(dr, 0) == Port { node: cl, slot: 1 });
    }
    assert(m.port(cl, 1) == Port { node: dr, slot: 0 }) by {
        assert(w7.net.port(cl, 1) == Port { node: dr, slot: 0 });
    }
    assert(m.port(dr, 1) == Port { node: cr, slot: 1 });
    assert(m.port(cr, 1) == Port { node: dr, slot: 1 });
    assert(m.port(c0.node, c0.slot) == w4.net.port(c0.node, c0.slot));
    assert(m.port(c1.node, c1.slot) == w4.net.port(c1.node, c1.slot));
    assert(m.port(d0.node, d0.slot) == w4.net.port(d0.node, d0.slot));
    assert(m.port(d1.node, d1.slot) == w4.net.port(d1.node, d1.slot));
    assert(m.port(dl, PRINCIPAL) == w4.net.port(dl, PRINCIPAL));
    assert(m.port(dr, PRINCIPAL) == w4.net.port(dr, PRINCIPAL));
    assert(m.port(cl, PRINCIPAL) == w4.net.port(cl, PRINCIPAL));
    assert(m.port(cr, PRINCIPAL) == w4.net.port(cr, PRINCIPAL));
}

/// What commutation of the constructor `con` with the duplicator `dup` of
/// the net `n` leaves in the net `m` where it runs to its end: a fresh
/// duplicator faces what each auxiliary port of the constructor was wired
/// to, a fresh constructor faces what each auxiliary port of the duplicator
/// was wired to, and each fresh duplicator is wired to both fresh
/// constructors.
pub open spec fn commuted(n: NetModel, m: NetModel, con: NodeId, dup: NodeId) -> bool {
    let k = n.agents.len() as NodeId;
    let dl = k;
    let dr = (k + 1) as NodeId;
    let cl = (k + 2) as NodeId;
    let cr = (k + 3) as NodeId;
    &&& m.joins(n.port(con, 0), Port { node: dl, slot: PRINCIPAL })
    &&& m.joins(n.port(con, 1), Port { node: dr, slot: PRINCIPAL })
    &&& m.joins(n.port(dup, 0), Port { node: cl, slot: PRINCIPAL })
    &&& m.joins(n.port(dup, 1), Port { node: cr, slot: PRINCIPAL })
    &&& m.joins(Port { node: dl, slot: 0 }, Port { node: cl, slot: 0 })
    &&& m.joins(Port { node: dl, slot: 1 }, Port { node: cr, slot: 0 })
    &&& m.joins(Port { node: dr, slot: 0 }, Port { node: cl, slot: 1 })
    &&& m.joins(Port { node: dr, slot: 1 }, Port { node: cr, slot: 1 })
}

/// What duplication of the duplicators `a` and `b` of the net `n` leaves in
/// the net `m` where it runs to its end: a fresh duplicator faces what each
/// of the four auxiliary ports was wired to, and the second auxiliary ports
/// of the fresh duplicators are wired in pairs, the first of `a` with the
/// first of `b`, the second with the second.
pub open spec fn duplicated(n: NetModel, m: NetModel, a: NodeId, b: NodeId) -> bool {
    let k = n.agents.len() as NodeId;
    let d0 = k;
    let d1 = (k + 1) as NodeId;
    let d2 = (k + 2) as NodeId;
    let d3 = (k + 3) as NodeId;
    &&& m.joins(n.port(a, 0), Port { node: d0, slot: PRINCIPAL })
    &&& m.joins(n.port(a, 1), Port { node: d1, slot: PRINCIPAL })
    &&& m.joins(n.port(b, 0), Port { node: d2, slot: PRINCIPAL })
    &&& m.joins(n.port(b, 1), Port { node: d3, slot: PRINCIPAL })
    &&& m.joins(Port { node: d0, slot: 1 }, Port { node: d2, slot: 1 })
    &&& m.joins(Port { node: d1, slot: 1 }, Port { node: d3, slot: 1 })
    &&& m.port(d0, 0).is_null()
    &&& m.port(d1, 0).is_null()
    &&& m.port(d2, 0).is_null()
    &&& m.port(d3, 0).is_null()
}

/// Duplication in a net that keeps the wiring invariant, on two different
/// agents whose four auxiliary ports are wired: the rule runs to its end
/// and leaves what `duplicated` says.
proof fn lemma_duplicate_wiring(n: NetModel, a: NodeId, b: NodeId)
    requires
        n.wired(),
        n.agents.len() + 4 <= usize::MAX,
        a < n.agents.len(),
        b < n.agents.len(),
        a != b,
        n.kind(a) is Dup,
        n.kind(b) is Dup,
        !n.port(a, 0).is_null(),
        !n.port(a, 1).is_null(),
        !n.port(b, 0).is_null(),
        !n.port(b, 1).is_null(),
    ensures
        n.duplicate(a, b).ok,
        n.duplicate(a, b).net.wired(),
        duplicated(n, n.duplicate(a, b).net, a, b),
{
    let a0 = n.port(a, 0);
    let a1 = n.port(a, 1);
    let b0 = n.port(b, 0);
    let b1 = n.port(b, 1);
    let k = n.agents.len() as NodeId;
    let d0 = k;
    let d1 = (k + 1) as NodeId;
    let d2 = (k + 2) as NodeId;
    let d3 = (k + 3) as NodeId;
    assert(n.paired(a, 0));
    assert(n.paired(a, 1));
    assert(n.paired(b, 0));
    assert(n.paired(b, 1));
    let made = n.create(fresh(Kind::Dup)).create(fresh(Kind::Dup)).create(fresh(Kind::Dup)).create(
        fresh(Kind::Dup),
    );
    lemma_grow_four(n, Kind::Dup, Kind::Dup, Kind::Dup, Kind::Dup);
    lemma_outer(n, made, a0, a1, b0, b1);
    let w4 = Progress::start(made).link(a0, d0, PRINCIPAL).link(a1, d1, PRINCIPAL).link(
        b0,
        d2,
        PRINCIPAL,
    ).link(b1, d3, PRINCIPAL);
    assert(w4.net.kind(d0) == Kind::Dup && w4.net.kind(d1) == Kind::Dup && w4.net.kind(d2)
        == Kind::Dup && w4.net.kind(d3) == Kind::Dup);
    assert(w4.net.has_port(d0, 1) && w4.net.has_port(d1, 1) && w4.net.has_port(d2, 1)
        && w4.net.has_port(d3, 1));
    assert(w4.net.port(d0, 1).is_null() && w4.net.port(d2, 1).is_null());
    let w5 = w4.link(Port { node: d0, slot: 1 }, d2, 1);
    lemma_link_fresh(w4, d0, 1, d2, 1);
    assert(w5.net.port(d1, 1) == w4.net.port(d1, 1) && w5.net.port(d3, 1) == w4.net.port(d3, 1));
    let w6 = w5.link(Port { node: d1, slot: 1 }, d3, 1);
    lemma_link_fresh(w5, d1, 1, d3, 1);
    assert(n.duplicate(a, b) == w6);
    let m = w6.net;
    assert forall|x: NodeId, t: usize|
        #![trigger m.port(x, t)]
        x < m.agents.len() && t < 3 && !(x >= k && t == 1) implies m.port(x, t) == w4.net.port(
        x,
        t,
    ) by {
        assert(m.port(x, t) == w5.net.port(x, t));
        assert(w5.net.port(x, t) == w4.net.port(x, t));
    }
    assert(m.port(d0, 1) == Port { node: d2, slot: 1 }) by {
        assert(w5.net.port(d0, 1) == Port { node: d2, slot: 1 });
    }
    assert(m.port(d2, 1) == Port { node: d0, slot: 1 }) by {
        assert(w5.net.port(d2, 1) == Port { node: d0, slot: 1 });
    }
    assert(m.port(d1, 1) == Port { node: d3, slot: 1 });
    assert(m.port(d3, 1) == Port { node: d1, slot: 1 });
    assert(m.port(a0.node, a0.slot) == w4.net.port(a0.node, a0.slot));
    assert(m.port(a1.node, a1.slot) == w4.net.port(a1.node, a1.slot));
    assert(m.port(b0.node, b0.slot) == w4.net.port(b0.node, b0.slot));
    assert(m.port(b1.node, b1.slot) == w4.net.port(b1.node, b1.slot));
    assert(m.port(d0, PRINCIPAL) == w4.net.port(d0, PRINCIPAL));
    assert(m.port(d1, PRINCIPAL) == w4.net.port(d1, PRINCIPAL));
    assert(m.port(d2, PRINCIPAL) == w4.net.port(d2, PRINCIPAL));
    assert(m.port(d3, PRINCIPAL) == w4.net.port(d3, PRINCIPAL));
    assert(m.port(d0, 0) == w4.net.port(d0, 0));
    assert(m.port(d1, 0) == w4.net.port(d1, 0));
    assert(m.port(d2, 0) == w4.net.port(d2, 0));
    assert(m.port(d3, 0) == w4.net.port(d3, 0));
}

/// Commutation adds exactly four agents, whether it runs to its end or
/// not: two duplicators and two constructors of the tag of the constructor
/// it met. It changes the kind and tag of no agent that was there. Where the
/// net keeps the wiring invariant and the four auxiliary ports of the two
/// agents are wired, the rule runs to its end and keeps the invariant;
/// afterwards a fresh duplicator faces what each auxiliary port of the
/// constructor was wired to, a fresh constructor faces what each auxiliary
/// port of the duplicator was wired to, and each fresh duplicator is wired
/// to both fresh constructors.
pub proof fn law_commutation(n: NetModel, con: NodeId, dup: NodeId, redex: Redex)
    requires
        n.shaped(),
        n.agents.len() + 4 <= usize::MAX,
        con < n.agents.len(),
        dup < n.agents.len(),
        n.kind(con) is Con,
        n.kind(dup) is Dup,
        redex == (Redex { a: con, b: dup }) || redex == (Redex { a: dup, b: con }),
    ensures
        n.interact(redex).0.agents.len() == n.agents.len() + 4,
        forall|x: NodeId| x < n.agents.len() ==> #[trigger] n.interact(redex).0.kind(x) == n.kind(x),
        ({
            let m = n.interact(redex).0;
            let k = n.agents.len() as NodeId;
            &&& m.kind(k) == Kind::Dup
            &&& m.kind((k + 1) as NodeId) == Kind::Dup
            &&& m.kind((k + 2) as NodeId) == n.kind(con)
            &&& m.kind((k + 3) as NodeId) == n.kind(con)
        }),
        n.wired() && !n.port(con, 0).is_null() && !n.port(con, 1).is_null() && !n.port(
            dup,
            0,
        ).is_null() && !n.port(dup, 1).is_null() ==> {
            &&& n.interact(redex).1 == Outcome::Reduced
            &&& n.interact(redex).0.wired()
            &&& commuted(n, n.interact(redex).0, con, dup)
        },
{
    lemma_commute_len(n, con, dup);
    lemma_commute_frame(n, con, dup);
    if n.wired() && !n.port(con, 0).is_null() && !n.port(con, 1).is_null() && !n.port(
        dup,
        0,
    ).is_null() && !n.port(dup, 1).is_null() {
        lemma_commute_wiring(n, con, dup);
    }
}

/// Duplication adds exactly four agents, whether it runs to its end or not,
/// all of them duplicators. It changes the kind and tag of no agent that was
/// there. Where the net keeps the wiring invariant, the two agents differ
/// and their four auxiliary ports are wired, the rule runs to its end and
/// keeps the invariant; afterwards a fresh duplicator faces what each of
/// the four auxiliary ports was wired to, and the fresh duplicators are
/// wired in pairs.
pub proof fn law_duplication(n: NetModel, a: NodeId, b: NodeId)
    requires
        n.shaped(),
        n.agents.len() + 4 <= usize::MAX,
        a < n.agents.len(),
        b < n.agents.len(),
        n.kind(a) is Dup,
        n.kind(b) is Dup,
    ensures
        n.interact(Redex { a, b }).0.agents.len() == n.agents.len() + 4,
        forall|x: NodeId|
            x < n.agents.len() ==> #[trigger] n.interact(Redex { a, b }).0.kind(x) == n.kind(x),
        forall|x: NodeId|
            n.agents.len() <= x < n.agents.len() + 4 ==> #[trigger] n.interact(
                Redex { a, b },
            ).0.kind(x) == Kind::Dup,
        n.wired() && a != b && !n.port(a, 0).is_null() && !n.port(a, 1).is_null() && !n.port(
            b,
            0,
        ).is_null() && !n.port(b, 1).is_null() ==> {
            &&& n.interact(Redex { a, b }).1 == Outcome::Reduced
            &&& n.interact(Redex { a, b }).0.wired()
            &&& duplicated(n, n.interact(Redex { a, b }).0, a, b)
        },
{
    lemma_duplicate_len(n, a, b);
    lemma_duplicate_frame(n, a, b);
    if n.wired() && a != b && !n.port(a, 0).is_null() && !n.port(a, 1).is_null() && !n.port(
        b,
        0,
    ).is_null() && !n.port(b, 1).is_null() {
        lemma_duplicate_wiring(n, a, b);
    }
}

/// Annihilation is size-preserving: the rule for two constructors of one tag
/// creates no agent and changes no kind. Where the net keeps the wiring
/// invariant and the four auxiliary ports of the two agents are wired, the
/// rule runs to its end, and afterwards what each auxiliary port
/// of the one was wired to is wired directly to what the matching port of
/// the other was wired to.
pub proof fn law_annihilation(n: NetModel, a: NodeId, b: NodeId)
    requires
        n.wired(),
        a < n.agents.len(),
        b < n.agents.len(),
        n.kind(a) is Con,
        n.kind(a) == n.kind(b),
        !n.port(a, 0).is_null(),
        !n.port(a, 1).is_null(),
        !n.port(b, 0).is_null(),
        !n.port(b, 1).is_null(),
    ensures
        n.interact(Redex { a, b }).1 == Outcome::Reduced,
        n.interact(Redex { a, b }).0.agents.len() == n.agents.len(),
        forall|x: NodeId|
            x < n.agents.len() ==> #[trigger] n.interact(Redex { a, b }).0.kind(x) == n.kind(x),
        n.interact(Redex { a, b }).0.wired(),
        ({
            let m = n.interact(Redex { a, b }).0;
            let a0 = n.port(a, 0);
            let a1 = n.port(a, 1);
            let b0 = n.port(b, 0);
            let b1 = n.port(b, 1);
            &&& m.port(a0.node, a0.slot) == b0
            &&& m.port(b0.node, b0.slot) == a0
            &&& m.port(a1.node, a1.slot) == b1
            &&& m.port(b1.node, b1.slot) == a1
        }),
{
    let a0 = n.port(a, 0);
    let a1 = n.port(a, 1);
    let b0 = n.port(b, 0);
    let b1 = n.port(b, 1);
    assert(n.paired(a, 0));
    assert(n.paired(a, 1));
    assert(n.paired(b, 0));
    assert(n.paired(b, 1));
    let w0 = Progress::start(n);
    let w1 = w0.link(a0, b0.node, b0.slot);
    lemma_link(n, w0, a0, b0.node, b0.slot);
    lemma_connect_ports(n, a0.node, a0.slot, b0.node, b0.slot);
    let w2 = w1.link(a1, b1.node, b1.slot);
    lemma_link(n, w1, a1, b1.node, b1.slot);
    assert(w1.net.has_port(a1.node, a1.slot));
    assert(w1.net.has_port(b1.node, b1.slot));
    lemma_connect_ports(w1.net, a1.node, a1.slot, b1.node, b1.slot);
    let m = w2.net;
    assert(n.interact(Redex { a, b }).0 == m);
    assert(w1.net.port(a0.node, a0.slot) == b0);
    assert(w1.net.port(b0.node, b0.slot) == a0);
    assert(w1.net.has_port(a0.node, a0.slot));
    assert(w1.net.has_port(b0.node, b0.slot));
    assert(m.port(a1.node, a1.slot) == b1);
    assert(m.port(b1.node, b1.slot) == a1);
    assert(m.port(a0.node, a0.slot) == b0);
    assert(m.port(b0.node, b0.slot) == a0);
}

/// Erasure adds exactly two agents, both erasers, and changes the kind of
/// no agent that was there. Where the net keeps the wiring invariant and the
/// two auxiliary ports of the agent erased are wired, neither of them to an
/// auxiliary port of the agent itself, the rule runs to its end; afterwards each eraser faces what one of the
/// auxiliary ports was wired to, and no port of the net points at an
/// auxiliary port of the agent erased.
pub proof fn law_erasure(n: NetModel, x: NodeId, e: NodeId, redex: Redex)
    requires
        n.wired(),
        n.agents.len() + 2 <= usize::MAX,
        x < n.agents.len(),
        e < n.agents.len(),
        n.kind(x) is Con || n.kind(x) is Dup,
        n.kind(e) is Era,
        redex == (Redex { a: x, b: e }) || redex == (Redex { a: e, b: x }),
        !n.port(x, 0).is_null(),
        !n.port(x, 1).is_null(),
        n.port(x, 0).node != x || n.port(x, 0).slot == PRINCIPAL,
        n.port(x, 1).node != x || n.port(x, 1).slot == PRINCIPAL,
    ensures
        n.interact(redex).1 == Outcome::Reduced,
        n.interact(redex).0.agents.len() == n.agents.len() + 2,
        forall|y: NodeId| y < n.agents.len() ==> #[trigger] n.interact(redex).0.kind(y) == n.kind(y),
        n.interact(redex).0.wired(),
        ({
            let m = n.interact(redex).0;
            let k = n.agents.len() as NodeId;
            let l = (k + 1) as NodeId;
            let x0 = n.port(x, 0);
            let x1 = n.port(x, 1);
            &&& m.kind(k) == Kind::Era
            &&& m.kind(l) == Kind::Era
            &&& m.port(k, PRINCIPAL) == x0
            &&& m.port(x0.node, x0.slot) == Port { node: k, slot: PRINCIPAL }
            &&& m.port(l, PRINCIPAL) == x1
            &&& m.port(x1.node, x1.slot) == Port { node: l, slot: PRINCIPAL }
        }),
        forall|y: NodeId, t: usize|
            #![trigger n.interact(redex).0.port(y, t)]
            n.interact(redex).0.has_port(y, t) ==> n.interact(redex).0.port(y, t) != (Port {
                node: x,
                slot: 0,
            }) && n.interact(redex).0.port(y, t) != (Port { node: x, slot: 1 }),
{
    let x0 = n.port(x, 0);
    let x1 = n.port(x, 1);
    let k = n.agents.len() as NodeId;
    let l = (k + 1) as NodeId;
    assert(n.paired(x, 0));
    assert(n.paired(x, 1));
    let m1 = n.create(fresh(Kind::Era));
    lemma_create(n, fresh(Kind::Era));
    let m2 = m1.create(fresh(Kind::Era));
    lemma_create(m1, fresh(Kind::Era));
    let w0 = Progress::start(m2);
    let w1 = w0.link(x0, k, PRINCIPAL);
    lemma_link(m2, w0, x0, k, PRINCIPAL);
    assert(m1.has_port(x0.node, x0.slot));
    assert(m2.has_port(x0.node, x0.slot));
    assert(m2.has_port(k, PRINCIPAL));
    lemma_connect_ports(m2, x0.node, x0.slot, k, PRINCIPAL);
    let w2 = w1.link(x1, l, PRINCIPAL);
    lemma_link(m2, w1, x1, l, PRINCIPAL);
    assert(m1.has_port(x1.node, x1.slot));
    assert(m2.has_port(x1.node, x1.slot));
    assert(w1.net.has_port(x1.node, x1.slot));
    assert(m2.has_port(l, PRINCIPAL));
    assert(w1.net.has_port(l, PRINCIPAL));
    lemma_connect_ports(w1.net, x1.node, x1.slot, l, PRINCIPAL);
    let m = w2.net;
    assert(n.erase(x) == w2);
    assert(n.interact(redex).0 == m);
    assert forall|y: NodeId| y < n.agents.len() implies #[trigger] m.kind(y) == n.kind(y) by {
        assert(m.kind(y) == w1.net.kind(y));
        assert(w1.net.kind(y) == m2.kind(y));
        assert(m2.kind(y) == m1.kind(y));
        assert(m1.kind(y) == n.kind(y));
    }
    assert(m.kind(k) == w1.net.kind(k) && w1.net.kind(k) == m2.kind(k) && m2.kind(k) == m1.kind(k));
    assert(m.kind(l) == w1.net.kind(l) && w1.net.kind(l) == m2.kind(l));
    assert forall|y: NodeId, t: usize| #![trigger m.port(y, t)] m.has_port(y, t) implies m.port(
        y,
        t,
    ) != (Port { node: x, slot: 0 }) && m.port(y, t) != (Port { node: x, slot: 1 }) by {
        assert(w1.net.has_port(y, t));
        assert(m2.has_port(y, t));
        let q1 = w1.net.port(y, t);
        let q2 = m2.port(y, t);
        if y < n.agents.len() {
            assert(m1.has_port(y, t));
            assert(n.has_port(y, t));
            assert(m2.port(y, t) == m1.port(y, t));
            assert(m1.port(y, t) == n.port(y, t));
            if !n.port(y, t).is_null() {
                assert(n.paired(y, t));
            }
        } else if y == k {
            assert(m2.port(k, t) == m1.port(k, t));
            assert(m1.port(k, t).is_null());
        } else {
            assert(m2.port(l, t).is_null());
        }
    }
    assert(w1.net.port(x0.node, x0.slot) == Port { node: k, slot: PRINCIPAL });
    assert(w1.net.port(k, PRINCIPAL) == x0);
    assert(m.port(l, PRINCIPAL) == x1);
    assert(m.port(x1.node, x1.slot) == Port { node: l, slot: PRINCIPAL });
    assert(w1.net.has_port(k, PRINCIPAL));
    assert(w1.net.has_port(x0.node, x0.slot));
    assert(m.port(k, PRINCIPAL) == x0);
    assert(m.port(x0.node, x0.slot) == Port { node: k, slot: PRINCIPAL });
}

/// A reference whose name has no definition is not consumed: the rule fails
/// with the message that carries the name, and the net is as it was.
pub proof fn law_undefined_reference(n: NetModel, redex: Redex, name: Seq<char>)
    requires
        !n.defines(name),
        n.kind(redex.a) == Kind::Ref(name) || (!(n.kind(redex.a) is Ref) && n.kind(redex.b)
            == Kind::Ref(name)),
    ensures
        n.interact(redex) == (n, Outcome::Failed(undefined_fault(name))),
{
}

/// Two constructors of different tags have no rule: the pair is reported,
/// and the net is as it was.
pub proof fn law_unsupported_pair(n: NetModel, redex: Redex)
    requires
        n.kind(redex.a) is Con,
        n.kind(redex.b) is Con,
        n.kind(redex.a) != n.kind(redex.b),
    ensures
        n.interact(redex) == (n, Outcome::Failed(unsupported_fault())),
{
}

/// Expansion replaces the reference by a copy of its definition. In a net
/// that keeps the wiring invariant, the rule for a reference whose name is
/// bound to `root` runs to its end; the net it leaves is the net with a copy
/// of the template, as `copied` says, in which the principal port of the
/// copy of `root` and the principal port of the agent that met the
/// reference are wired to each other.
pub proof fn law_expansion(n: NetModel, redex: Redex, name: Seq<char>, root: NodeId)
    requires
        n.wired(),
        redex.a < n.agents.len(),
        redex.b < n.agents.len(),
        n.lookup(name) == Some(root),
        root < n.agents.len(),
        n.kind(redex.a) == Kind::Ref(name) || (!(n.kind(redex.a) is Ref) && n.kind(redex.b)
            == Kind::Ref(name)),
        n.clone_subgraph(root).agents.len() <= usize::MAX,
    ensures
        n.interact(redex).1 == Outcome::Reduced,
        n.interact(redex).0.wired(),
        ({
            let other = if n.kind(redex.a) is Ref {
                redex.b
            } else {
                redex.a
            };
            let copy = n.agents.len() as NodeId;
            let grown = n.clone_subgraph(root);
            let m = n.interact(redex).0;
            &&& copied(n, root, grown, n.clone_map(root))
            &&& m == grown.connect(copy, PRINCIPAL, other, PRINCIPAL)
            &&& m.port(copy, PRINCIPAL) == Port { node: other, slot: PRINCIPAL }
            &&& m.port(other, PRINCIPAL) == Port { node: copy, slot: PRINCIPAL }
        }),
{
    let other = if n.kind(redex.a) is Ref {
        redex.b
    } else {
        redex.a
    };
    let copy = n.agents.len() as NodeId;
    let grown = n.clone_subgraph(root);
    let map = n.clone_map(root);
    law_clone(n, root);
    assert(map.contains_key(root));
    assert(grown.kind(map[root]) == n.kind(root));
    assert(grown.agents[other as int] == n.agents[other as int]);
    assert(grown.has_port(copy, PRINCIPAL));
    assert(grown.has_port(other, PRINCIPAL));
    let p = Progress::start(grown).link(Port { node: copy, slot: PRINCIPAL }, other, PRINCIPAL);
    lemma_link(
        grown,
        Progress::start(grown),
        Port { node: copy, slot: PRINCIPAL },
        other,
        PRINCIPAL,
    );
    lemma_connect_ports(grown, copy, PRINCIPAL, other, PRINCIPAL);
    assert(n.expand(root, other) == p);
    assert(n.call(name, other) == (p.net, p.outcome()));
}

/// Expansion leaves the rest alone. Of the agents that were there, the rule
/// for a reference touches none but the agent that met the reference and
/// the agent that its principal port was wired to, which is the reference
/// where the pair was an active pair. So a template, and every copy made
/// before, is after an expansion what it was before, unless the agent that
/// met the reference or the agent wired to it lies in it.
pub proof fn law_expansion_touches(
    n: NetModel,
    redex: Redex,
    name: Seq<char>,
    root: NodeId,
    x: NodeId,
)
    requires
        n.wired(),
        redex.a < n.agents.len(),
        redex.b < n.agents.len(),
        n.lookup(name) == Some(root),
        root < n.agents.len(),
        n.kind(redex.a) == Kind::Ref(name) || (!(n.kind(redex.a) is Ref) && n.kind(redex.b)
            == Kind::Ref(name)),
        n.clone_subgraph(root).agents.len() <= usize::MAX,
        x < n.agents.len(),
        ({
            let other = if n.kind(redex.a) is Ref {
                redex.b
            } else {
                redex.a
            };
            x != other && (n.port(other, PRINCIPAL).is_null() || n.port(other, PRINCIPAL).node
                != x)
        }),
    ensures
        n.interact(redex).0.agents[x as int] == n.agents[x as int],
{
    let other = if n.kind(redex.a) is Ref {
        redex.b
    } else {
        redex.a
    };
    let copy = n.agents.len() as NodeId;
    let grown = n.clone_subgraph(root);
    law_expansion(n, redex, name, root);
    assert(grown.agents[x as int] == n.agents[x as int]);
    assert(grown.agents[other as int] == n.agents[other as int]);
    assert(grown.port(other, PRINCIPAL) == n.port(other, PRINCIPAL));
    if grown.has_port(copy, PRINCIPAL) {
        law_copy_closed(n, root, copy, PRINCIPAL);
    }
    law_connect_touches(grown, copy, PRINCIPAL, other, PRINCIPAL, x);
}

/// Draining the queue, where it ends well, ends with nothing pending.
pub proof fn law_drain_ends_empty(rt: RuntimeModel)
    ensures
        rt.drain().1 is Ok ==> rt.drain().0.net.pending.len() == 0,
    decreases usize::MAX - rt.steps,
{
    if rt.ready() {
        if rt.verdict() is Reduced {
            law_drain_ends_empty(rt.advanced());
        }
    }
}

/// A run that ends well ends with nothing pending.
pub proof fn law_run_ends_empty(rt: RuntimeModel)
    ensures
        rt.run().1 is Ok ==> rt.run().0.net.pending.len() == 0,
{
    law_drain_ends_empty(RuntimeModel { net: rt.net, steps: 0, max_nodes: rt.net.agents.len() });
}

} // verus!
