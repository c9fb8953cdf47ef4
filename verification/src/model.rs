//! The mathematical model of a net: agents as values, wiring as a function
//! from (agent, slot) to port, and the wiring primitive as a function on nets.

use vstd::prelude::*;
use crate::net::{NodeId, Port, Redex, PRINCIPAL};

verus! {

/// What an agent is apart from its wiring: its kind and payload.
pub enum Kind {
    /// A constructor with its tag.
    Con(i32),
    /// A duplicator.
    Dup,
    /// A reference to the definition of the given name.
    Ref(Seq<char>),
    /// An eraser.
    Era,
}

/// An agent as a value: its kind and what each of its three slots holds.
///
/// Slots 0 and 1 are the auxiliary ports, slot [`PRINCIPAL`] is the principal
/// port. Erasers and references have no auxiliary ports: their slots 0 and 1
/// are never wired.
pub struct Agent {
    pub kind: Kind,
    pub ports: Seq<Port>,
}

/// One entry of the definition table.
pub struct Binding {
    pub name: Seq<char>,
    pub root: NodeId,
}

/// A net as a value.
pub struct NetModel {
    /// The arena: the agent with handle `i` is `agents[i]`.
    pub agents: Seq<Agent>,
    /// The active pairs found and not yet taken, oldest first.
    pub pending: Seq<Redex>,
    /// The definition table, in order of first definition.
    pub bindings: Seq<Binding>,
}

/// Whether a pair of kinds has a rewrite rule. Two constructors interact only
/// when their tags agree; every other pair has a rule.
pub open spec fn reducible(a: Kind, b: Kind) -> bool {
    match (a, b) {
        (Kind::Con(x), Kind::Con(y)) => x == y,
        _ => true,
    }
}

/// The message of a refused wiring request.
pub open spec fn wiring_fault() -> Seq<char> {
    "Invalid port slot for node"@
}

/// Three unwired slots.
pub open spec fn unwired() -> Seq<Port> {
    seq![Port::null(), Port::null(), Port::null()]
}

impl Agent {
    /// Whether the agent has the slot: all three for constructors and
    /// duplicators, the principal one alone for erasers and references.
    pub open spec fn has_slot(self, slot: usize) -> bool {
        match self.kind {
            Kind::Con(_) | Kind::Dup => slot <= PRINCIPAL,
            Kind::Ref(_) | Kind::Era => slot == PRINCIPAL,
        }
    }

    /// What the slot holds.
    pub open spec fn port(self, slot: usize) -> Port {
        self.ports[slot as int]
    }

    /// The agent with one slot overwritten.
    pub open spec fn with_port(self, slot: usize, p: Port) -> Agent {
        Agent { kind: self.kind, ports: self.ports.update(slot as int, p) }
    }

    /// The agent with every slot unwired.
    pub open spec fn cleared(self) -> Agent {
        Agent { kind: self.kind, ports: unwired() }
    }

}

impl NetModel {
    /// The net with no agents.
    pub open spec fn empty() -> NetModel {
        NetModel { agents: Seq::empty(), pending: Seq::empty(), bindings: Seq::empty() }
    }

    /// Whether `(a, slot)` addresses a port of this net.
    pub open spec fn has_port(self, a: NodeId, slot: usize) -> bool {
        a < self.agents.len() && self.agents[a as int].has_slot(slot)
    }

    /// What the port `(a, slot)` holds.
    pub open spec fn port(self, a: NodeId, slot: usize) -> Port {
        self.agents[a as int].port(slot)
    }

    /// The kind of agent `a`.
    pub open spec fn kind(self, a: NodeId) -> Kind {
        self.agents[a as int].kind
    }

    /// The net with a new agent of the given kind appended, all its slots
    /// unwired. Its handle is the old agent count.
    pub open spec fn create(self, agent: Agent) -> NetModel {
        NetModel { agents: self.agents.push(agent.cleared()), ..self }
    }

    /// The net with one port overwritten.
    pub open spec fn set_port(self, a: NodeId, slot: usize, p: Port) -> NetModel {
        NetModel {
            agents: self.agents.update(a as int, self.agents[a as int].with_port(slot, p)),
            ..self
        }
    }

    /// The net in which the port that `(a, slot)` points at, if any, has been
    /// unwired.
    pub open spec fn detach(self, a: NodeId, slot: usize) -> NetModel {
        let p = self.port(a, slot);
        if !p.is_null() && self.has_port(p.node, p.slot) {
            self.set_port(p.node, p.slot, Port::null())
        } else {
            self
        }
    }

    /// The net with one more pending active pair.
    pub open spec fn enqueue(self, redex: Redex) -> NetModel {
        NetModel { pending: self.pending.push(redex), ..self }
    }

    /// The net without its oldest pending active pair.
    pub open spec fn dequeue(self) -> NetModel {
        NetModel { pending: self.pending.drop_first(), ..self }
    }

    /// Whether a wire between the two ports can be made: both must exist.
    pub open spec fn can_connect(self, a: NodeId, sa: usize, b: NodeId, sb: usize) -> bool {
        self.has_port(a, sa) && self.has_port(b, sb)
    }

    /// The wiring primitive. Where the wire can be made, the two ports are
    /// first cut loose from whatever they were wired to, then made to point
    /// at each other; a wire between two principal ports whose kinds have a
    /// rule is queued as an active pair. Where it cannot be made, nothing
    /// changes.
    #[verifier::opaque]
    pub open spec fn connect(self, a: NodeId, sa: usize, b: NodeId, sb: usize) -> NetModel {
        if self.can_connect(a, sa, b, sb) {
            let joined = self.detach(a, sa).detach(b, sb).set_port(
                a,
                sa,
                Port { node: b, slot: sb },
            ).set_port(b, sb, Port { node: a, slot: sa });
            if sa == PRINCIPAL && sb == PRINCIPAL && reducible(self.kind(a), self.kind(b)) {
                joined.enqueue(Redex { a, b })
            } else {
                joined
            }
        } else {
            self
        }
    }

    /// Whether some binding has the name.
    pub open spec fn defines(self, name: Seq<char>) -> bool {
        exists|i: int| 0 <= i < self.bindings.len() && (#[trigger] self.bindings[i]).name == name
    }

    /// The position of the binding with the name, where there is one.
    pub open spec fn position(self, name: Seq<char>) -> int {
        choose|i: int| 0 <= i < self.bindings.len() && (#[trigger] self.bindings[i]).name == name
    }

    /// The root bound to the name, if any.
    pub open spec fn lookup(self, name: Seq<char>) -> Option<NodeId> {
        if self.defines(name) {
            Some(self.bindings[self.position(name)].root)
        } else {
            None
        }
    }

    /// The net with the name bound to the root: a name already bound is
    /// rebound in place, a new one goes to the end of the table.
    pub open spec fn define(self, name: Seq<char>, root: NodeId) -> NetModel {
        let b = Binding { name, root };
        if self.defines(name) {
            NetModel { bindings: self.bindings.update(self.position(name), b), ..self }
        } else {
            NetModel { bindings: self.bindings.push(b), ..self }
        }
    }

    /// No name is bound twice.
    pub open spec fn named_once(self) -> bool {
        forall|i: int, j: int|
            0 <= i < j < self.bindings.len() ==> (#[trigger] self.bindings[i]).name != (
            #[trigger] self.bindings[j]).name
    }

    /// Every queued pair and every bound root names agents of the arena, and
    /// no name is bound twice. The store keeps this of itself at all times.
    pub open spec fn sound(self) -> bool {
        &&& forall|i: int|
            0 <= i < self.pending.len() ==> (#[trigger] self.pending[i]).a < self.agents.len()
                && self.pending[i].b < self.agents.len()
        &&& forall|i: int|
            0 <= i < self.bindings.len() ==> (#[trigger] self.bindings[i]).root < self.agents.len()
        &&& self.named_once()
    }

    /// Every agent has its three slots, and no handle is the one that marks
    /// an unwired port.
    pub open spec fn shaped(self) -> bool {
        &&& self.agents.len() <= usize::MAX
        &&& forall|i: int|
            0 <= i < self.agents.len() ==> (#[trigger] self.agents[i]).ports.len() == 3
    }

    /// Whether the net has come out of `before` without losing anything:
    /// every agent of `before` is there with its kind and payload, and the
    /// bindings are the same.
    pub open spec fn extends(self, before: NetModel) -> bool {
        &&& before.agents.len() <= self.agents.len()
        &&& forall|x: NodeId| x < before.agents.len() ==> #[trigger] self.kind(x) == before.kind(x)
        &&& self.bindings == before.bindings
    }

    /// Whether the port `(a, s)` is wired to a port of the net that points
    /// back at it.
    pub open spec fn paired(self, a: NodeId, s: usize) -> bool {
        let p = self.port(a, s);
        &&& self.has_port(p.node, p.slot)
        &&& self.port(p.node, p.slot) == Port { node: a, slot: s }
    }

    /// Whether the two ports are wired to each other.
    pub open spec fn joins(self, p: Port, q: Port) -> bool {
        self.port(p.node, p.slot) == q && self.port(q.node, q.slot) == p
    }

    /// The wiring invariant: every wired port points at a port of the net,
    /// and that port points back.
    pub open spec fn wired(self) -> bool {
        &&& self.shaped()
        &&& forall|a: NodeId, s: usize|
            #![trigger self.port(a, s)]
            self.has_port(a, s) && !self.port(a, s).is_null() ==> self.paired(a, s)
    }
}

} // verus!
