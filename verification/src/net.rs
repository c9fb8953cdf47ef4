//! The graph store: agents in an append-only arena, the table of named
//! definitions, and the queue of pending active pairs.

use vstd::prelude::*;
use std::collections::VecDeque;
use crate::model::{reducible, unwired, wiring_fault, Agent, Binding, Kind, NetModel};
use crate::wiring::{
    lemma_connect_extends,
    lemma_connect_wired,
    lemma_create,
    lemma_create_extends,
    lemma_wired_agents,
};

verus! {

/// The handle of an agent: its index in the arena. Handles are never reused.
pub type NodeId = usize;

/// The slot of an agent's principal port. Slots 0 and 1 are the auxiliary
/// ports of constructors and duplicators.
pub const PRINCIPAL: usize = 2;

/// One end of a wire: a slot of an agent.
#[derive(Debug, Clone, Copy, PartialEq, Eq, Hash, Structural)]
pub struct Port {
    pub node: NodeId,
    pub slot: usize,
}

impl Port {
    /// The port at the given slot of the given agent.
    pub fn new(node: NodeId, slot: usize) -> (p: Self)
        ensures
            p == (Port { node, slot }),
    {
        Self { node, slot }
    }

    /// The port that stands for "not wired", as a value.
    pub open spec fn spec_null() -> Port {
        Port { node: usize::MAX, slot: 0 }
    }

    /// The port that stands for "not wired".
    #[verifier::when_used_as_spec(spec_null)]
    pub fn null() -> (p: Self)
        ensures
            p == Port::spec_null(),
    {
        Self { node: usize::MAX, slot: 0 }
    }

    /// Whether the port names no agent. The slot does not matter.
    pub open spec fn spec_is_null(&self) -> bool {
        self.node == usize::MAX
    }

    /// Whether the port stands for "not wired".
    #[verifier::when_used_as_spec(spec_is_null)]
    pub fn is_null(&self) -> (r: bool)
        ensures
            r == self.spec_is_null(),
    {
        self.node == usize::MAX
    }
}

/// An agent: its kind, its payload and what its slots are wired to.
///
/// Constructors and duplicators hold three ports: the two auxiliary ones at
/// slots 0 and 1, the principal one at slot [`PRINCIPAL`]. References and
/// erasers hold their principal port alone.
#[derive(Debug)]
pub enum Node {
    Con { tag: i32, ports: [Port; 3] },
    Dup { ports: [Port; 3] },
    Ref { name: String, port: Port },
    Era { port: Port },
}

impl View for Node {
    type V = Agent;

    open spec fn view(&self) -> Agent {
        match *self {
            Node::Con { tag, ports } => Agent { kind: Kind::Con(tag), ports: ports@ },
            Node::Dup { ports } => Agent { kind: Kind::Dup, ports: ports@ },
            Node::Ref { name, port } => Agent {
                kind: Kind::Ref(name@),
                ports: seq![Port::null(), Port::null(), port],
            },
            Node::Era { port } => Agent {
                kind: Kind::Era,
                ports: seq![Port::null(), Port::null(), port],
            },
        }
    }
}

impl Clone for Node {
    fn clone(&self) -> (r: Self)
        ensures
            r == *self,
    {
        match self {
            Node::Con { tag, ports } => Node::Con { tag: *tag, ports: *ports },
            Node::Dup { ports } => Node::Dup { ports: *ports },
            Node::Ref { name, port } => Node::Ref { name: name.clone(), port: *port },
            Node::Era { port } => Node::Era { port: *port },
        }
    }
}

impl Node {
    /// Whether the agent has the slot.
    pub fn has_slot(&self, slot: usize) -> (r: bool)
        ensures
            r == self@.has_slot(slot),
    {
        match self {
            Node::Con { .. } => slot <= PRINCIPAL,
            Node::Dup { .. } => slot <= PRINCIPAL,
            Node::Ref { .. } => slot == PRINCIPAL,
            Node::Era { .. } => slot == PRINCIPAL,
        }
    }

    /// What the slot holds.
    pub fn port(&self, slot: usize) -> (p: Port)
        requires
            self@.has_slot(slot),
        ensures
            p == self@.port(slot),
    {
        match self {
            Node::Con { ports, .. } => ports[slot],
            Node::Dup { ports } => ports[slot],
            Node::Ref { port, .. } => *port,
            Node::Era { port } => *port,
        }
    }

    /// Overwrites what the slot holds.
    pub fn set_port(&mut self, slot: usize, p: Port)
        requires
            old(self)@.has_slot(slot),
        ensures
            final(self)@ == old(self)@.with_port(slot, p),
    {
        match self {
            Node::Con { ports, .. } => {
                ports[slot] = p;
            },
            Node::Dup { ports } => {
                ports[slot] = p;
            },
            Node::Ref { port, .. } => {
                *port = p;
            },
            Node::Era { port } => {
                *port = p;
            },
        }
        assert(final(self)@.ports =~= old(self)@.with_port(slot, p).ports);
    }

    /// The same agent with every slot unwired.
    pub fn unwire(self) -> (r: Node)
        ensures
            r@ == self@.cleared(),
    {
        let r = match self {
            Node::Con { tag, .. } => Node::Con {
                tag,
                ports: [Port::null(), Port::null(), Port::null()],
            },
            Node::Dup { .. } => Node::Dup { ports: [Port::null(), Port::null(), Port::null()] },
            Node::Ref { name, .. } => Node::Ref { name, port: Port::null() },
            Node::Era { .. } => Node::Era { port: Port::null() },
        };
        assert(r@.ports =~= unwired());
        r
    }
}

/// An active pair: two agents whose principal ports were wired together and
/// whose kinds have a rewrite rule.
#[derive(Debug, Clone, Copy)]
pub struct Redex {
    pub a: NodeId,
    pub b: NodeId,
}

struct Definition {
    name: String,
    root: NodeId,
}

/// The graph store.
pub struct Net {
    nodes: Vec<Node>,
    active_pairs: VecDeque<Redex>,
    definitions: Vec<Definition>,
}

impl View for Net {
    type V = NetModel;

    closed spec fn view(&self) -> NetModel {
        NetModel {
            agents: self.nodes@.map_values(|n: Node| n@),
            pending: self.active_pairs@,
            bindings: self.definitions@.map_values(
                |d: Definition| Binding { name: d.name@, root: d.root },
            ),
        }
    }
}

impl Net {
    #[verifier::type_invariant]
    spec fn inv(self) -> bool {
        &&& forall|i: int|
            0 <= i < self.active_pairs@.len() ==> (#[trigger] self.active_pairs@[i]).a
                < self.nodes@.len() && self.active_pairs@[i].b < self.nodes@.len()
        &&& forall|i: int|
            0 <= i < self.definitions@.len() ==> (#[trigger] self.definitions@[i]).root
                < self.nodes@.len()
        &&& forall|i: int, j: int|
            0 <= i < j < self.definitions@.len() ==> (#[trigger] self.definitions@[i]).name@ != (
            #[trigger] self.definitions@[j]).name@
    }

    /// What the invariant says of the model.
    proof fn lemma_sound(self)
        requires
            self.inv(),
        ensures
            self@.sound(),
    {
        let m = self@;
        assert forall|i: int| 0 <= i < m.bindings.len() implies (#[trigger] m.bindings[i]).root
            < m.agents.len() by {
            assert(self.definitions@[i].root < self.nodes@.len());
        }
        assert forall|i: int, j: int| 0 <= i < j < m.bindings.len() implies (
        #[trigger] m.bindings[i]).name != (#[trigger] m.bindings[j]).name by {
            assert(self.definitions@[i].name@ != self.definitions@[j].name@);
        }
    }

    /// Tells a caller that the net is sound: every queued pair and every
    /// bound root names an agent, and no name is bound twice. Nothing is done
    /// at run time.
    pub fn attest(&self)
        ensures
            self@.sound(),
    {
        proof {
            use_type_invariant(self);
            self.lemma_sound();
        }
    }

    /// The model of a net has an agent of three slots for every handle.
    pub proof fn lemma_shaped(self)
        ensures
            self@.shaped(),
    {
        assert(self.nodes.len() == self.nodes@.len());
        assert forall|i: int| 0 <= i < self@.agents.len() implies (
        #[trigger] self@.agents[i]).ports.len() == 3 by {
            assert(self@.agents[i] == self.nodes@[i]@);
        }
    }

    /// The net with no agents, no definitions and nothing pending.
    pub fn new() -> (net: Self)
        ensures
            net@ == NetModel::empty(),
            net@.wired(),
            net@.sound(),
    {
        let net = Self { nodes: Vec::new(), active_pairs: VecDeque::new(), definitions: Vec::new() };
        assert(net@.agents =~= Seq::empty());
        assert(net@.bindings =~= Seq::empty());
        net
    }

    /// Appends a new agent of the kind and payload of `node`, with every slot
    /// unwired, and returns its handle.
    pub fn create_node(&mut self, node: Node) -> (id: NodeId)
        ensures
            id == old(self)@.agents.len(),
            final(self)@ == old(self)@.create(node@),
            final(self)@.extends(old(self)@),
            final(self)@.sound(),
            old(self)@.wired() ==> final(self)@.wired(),
    {
        // The parts are taken out, changed and put back whole, so that the
        // net is in order wherever a call could unwind.
        let mut taken = Net::new();
        core::mem::swap(self, &mut taken);
        proof {
            use_type_invariant(&taken);
        }
        let Net { mut nodes, active_pairs, definitions } = taken;
        let id = nodes.len();
        nodes.push(node.unwire());
        *self = Net { nodes, active_pairs, definitions };
        assert(self@.agents =~= old(self)@.create(node@).agents);
        proof {
            old(self).lemma_shaped();
            self.lemma_shaped();
            lemma_create(old(self)@, node@);
            lemma_create_extends(old(self)@, node@);
        }
        self.attest();
        id
    }

    /// The agent with the given handle.
    pub fn get_node(&self, id: NodeId) -> (node: &Node)
        requires
            id < self@.agents.len(),
        ensures
            node@ == self@.agents[id as int],
            self@.sound(),
    {
        self.attest();
        &self.nodes[id]
    }

    /// The agent with the given handle, for the caller to change. Whatever the
    /// caller writes replaces the agent; nothing else changes. The wiring
    /// invariant is then the caller's to keep.
    pub fn get_node_mut(&mut self, id: NodeId) -> (node: &mut Node)
        requires
            id < old(self)@.agents.len(),
        ensures
            node@ == old(self)@.agents[id as int],
            final(self)@.agents == old(self)@.agents.update(id as int, final(node)@),
            final(self)@.pending == old(self)@.pending,
            final(self)@.bindings == old(self)@.bindings,
            old(self)@.sound(),
            final(self)@.sound(),
    {
        self.attest();
        proof {
            use_type_invariant(&*self);
        }
        &mut self.nodes[id]
    }

    /// The number of agents ever created.
    pub fn node_count(&self) -> (n: usize)
        ensures
            n == self@.agents.len(),
            self@.sound(),
    {
        self.attest();
        self.nodes.len()
    }

    /// The number of pending active pairs.
    pub fn redex_count(&self) -> (n: usize)
        ensures
            n == self@.pending.len(),
            self@.sound(),
    {
        self.attest();
        self.active_pairs.len()
    }

    /// Takes the oldest pending active pair, if there is one.
    pub fn next_redex(&mut self) -> (r: Option<Redex>)
        ensures
            old(self)@.pending.len() == 0 ==> r is None && final(self)@ == old(self)@,
            old(self)@.pending.len() > 0 ==> r == Some(old(self)@.pending[0]) && final(self)@
                == old(self)@.dequeue(),
            r matches Some(x) ==> x.a < old(self)@.agents.len() && x.b < old(self)@.agents.len(),
            final(self)@.extends(old(self)@),
            final(self)@.sound(),
            old(self)@.wired() ==> final(self)@.wired(),
    {
        let mut taken = Net::new();
        core::mem::swap(self, &mut taken);
        proof {
            use_type_invariant(&taken);
        }
        let Net { nodes, mut active_pairs, definitions } = taken;
        let r = active_pairs.pop_front();
        assert(r matches Some(x) ==> x == old(self).active_pairs@[0]);
        *self = Net { nodes, active_pairs, definitions };
        proof {
            if old(self)@.wired() {
                lemma_wired_agents(old(self)@, self@);
            }
        }
        self.attest();
        r
    }

    /// Wires port `a_slot` of agent `a` to port `b_slot` of agent `b`, in both
    /// directions at once. Whatever the two ports were wired to before is cut
    /// loose. A wire between two principal ports whose kinds have a rewrite
    /// rule is queued as an active pair.
    ///
    /// The request is refused, and nothing changes, unless both agents exist
    /// and each has the slot named for it.
    pub fn connect(&mut self, a: NodeId, a_slot: usize, b: NodeId, b_slot: usize) -> (r: Result<
        (),
        String,
    >)
        ensures
            r is Ok <==> old(self)@.can_connect(a, a_slot, b, b_slot),
            r matches Err(e) ==> e@ == wiring_fault(),
            final(self)@ == old(self)@.connect(a, a_slot, b, b_slot),
            final(self)@.extends(old(self)@),
            final(self)@.sound(),
            old(self)@.wired() ==> final(self)@.wired(),
    {
        self.attest();
        proof {
            self.lemma_shaped();
            lemma_connect_extends(self@, a, a_slot, b, b_slot);
            reveal(NetModel::connect);
            if self@.wired() {
                lemma_connect_wired(self@, a, a_slot, b, b_slot);
            }
        }
        if !self.has_port(a, a_slot) || !self.has_port(b, b_slot) {
            return Err(String::from_str("Invalid port slot for node"));
        }
        let active = a_slot == PRINCIPAL && b_slot == PRINCIPAL && self.is_redex(a, b);
        self.detach(a, a_slot);
        self.detach(b, b_slot);
        self.write_port(a, a_slot, Port::new(b, b_slot));
        self.write_port(b, b_slot, Port::new(a, a_slot));
        if active {
            self.enqueue(Redex { a, b });
        }
        self.attest();
        Ok(())
    }

    /// The number of definitions.
    pub(crate) fn definition_count(&self) -> (n: usize)
        ensures
            n == self@.bindings.len(),
    {
        self.definitions.len()
    }

    /// The name of the definition at position `i` of the table.
    pub(crate) fn definition_name(&self, i: usize) -> (name: &String)
        requires
            i < self@.bindings.len(),
        ensures
            name@ == self@.bindings[i as int].name,
    {
        &self.definitions[i].name
    }

    /// The root of the definition at position `i` of the table.
    pub(crate) fn definition_root(&self, i: usize) -> (root: NodeId)
        requires
            i < self@.bindings.len(),
        ensures
            root == self@.bindings[i as int].root,
    {
        self.definitions[i].root
    }

    /// The pending pair at position `i` of the queue.
    pub(crate) fn pending_at(&self, i: usize) -> (redex: Redex)
        requires
            i < self@.pending.len(),
        ensures
            redex == self@.pending[i as int],
    {
        self.active_pairs[i]
    }

    /// Whether the kinds of the two agents have a rewrite rule.
    fn is_redex(&self, a: NodeId, b: NodeId) -> (r: bool)
        requires
            a < self@.agents.len(),
            b < self@.agents.len(),
        ensures
            r == reducible(self@.kind(a), self@.kind(b)),
    {
        match (&self.nodes[a], &self.nodes[b]) {
            (Node::Con { tag: tag_a, .. }, Node::Con { tag: tag_b, .. }) => *tag_a == *tag_b,
            (Node::Con { .. }, Node::Dup { .. }) | (Node::Dup { .. }, Node::Con { .. }) => true,
            (Node::Con { .. }, Node::Era { .. }) | (Node::Era { .. }, Node::Con { .. }) => true,
            (Node::Dup { .. }, Node::Dup { .. }) => true,
            (Node::Dup { .. }, Node::Era { .. }) | (Node::Era { .. }, Node::Dup { .. }) => true,
            (Node::Era { .. }, Node::Era { .. }) => true,
            (Node::Ref { .. }, _) | (_, Node::Ref { .. }) => true,
        }
    }

    /// Whether `(a, slot)` addresses a port of this net.
    fn has_port(&self, a: NodeId, slot: usize) -> (r: bool)
        ensures
            r == self@.has_port(a, slot),
    {
        a < self.nodes.len() && self.nodes[a].has_slot(slot)
    }

    /// What the port `(a, slot)` holds.
    pub(crate) fn port_at(&self, a: NodeId, slot: usize) -> (p: Port)
        requires
            self@.has_port(a, slot),
        ensures
            p == self@.port(a, slot),
    {
        self.nodes[a].port(slot)
    }

    /// Overwrites what the port `(a, slot)` holds.
    fn write_port(&mut self, a: NodeId, slot: usize, p: Port)
        requires
            old(self)@.has_port(a, slot),
        ensures
            final(self)@ == old(self)@.set_port(a, slot, p),
    {
        proof {
            use_type_invariant(&*self);
        }
        self.nodes[a].set_port(slot, p);
        assert(self@.agents =~= old(self)@.set_port(a, slot, p).agents);
    }

    /// Unwires the port that `(a, slot)` points at, if any.
    fn detach(&mut self, a: NodeId, slot: usize)
        requires
            old(self)@.has_port(a, slot),
        ensures
            final(self)@ == old(self)@.detach(a, slot),
    {
        let p = self.port_at(a, slot);
        if !p.is_null() && self.has_port(p.node, p.slot) {
            self.write_port(p.node, p.slot, Port::null());
        }
    }

    /// Adds a pending active pair at the end of the queue.
    fn enqueue(&mut self, redex: Redex)
        requires
            redex.a < old(self)@.agents.len(),
            redex.b < old(self)@.agents.len(),
        ensures
            final(self)@ == old(self)@.enqueue(redex),
    {
        let mut taken = Net::new();
        core::mem::swap(self, &mut taken);
        proof {
            use_type_invariant(&taken);
        }
        let Net { nodes, mut active_pairs, definitions } = taken;
        active_pairs.push_back(redex);
        *self = Net { nodes, active_pairs, definitions };
    }

    /// The position of the binding of `name` in the table, if there is one.
    fn find(&self, name: &String) -> (r: Option<usize>)
        ensures
            r is Some <==> self@.defines(name@),
            r matches Some(i) ==> i == self@.position(name@) && i < self@.bindings.len(),
    {
        proof {
            use_type_invariant(self);
            self.lemma_sound();
        }
        let mut i: usize = 0;
        while i < self.definitions.len()
            invariant
                i <= self.definitions@.len(),
                self@.sound(),
                forall|j: int| 0 <= j < i ==> (#[trigger] self@.bindings[j]).name != name@,
            decreases self.definitions@.len() - i,
        {
            if self.definitions[i].name == *name {
                assert(self@.bindings[i as int].name == name@);
                return Some(i);
            }
            i += 1;
        }
        None
    }

    /// Binds `name` to the template rooted at `root`. A name bound before is
    /// bound anew.
    pub fn add_definition(&mut self, name: &str, root: NodeId)
        requires
            root < old(self)@.agents.len(),
        ensures
            final(self)@ == old(self)@.define(name@, root),
            final(self)@.sound(),
            old(self)@.wired() ==> final(self)@.wired(),
    {
        let key = String::from_str(name);
        let found = self.find(&key);
        let mut taken = Net::new();
        core::mem::swap(self, &mut taken);
        proof {
            use_type_invariant(&taken);
            taken.lemma_sound();
        }
        let Net { nodes, active_pairs, mut definitions } = taken;
        match found {
            Some(i) => {
                definitions[i].root = root;
                assert forall|j: int| 0 <= j < definitions@.len() implies (
                #[trigger] definitions@[j]).name@ == old(self).definitions@[j].name@ by {}
            },
            None => {
                assert forall|j: int| 0 <= j < definitions@.len() implies (
                #[trigger] definitions@[j]).name@ != key@ by {
                    assert(old(self)@.bindings[j].name != name@);
                }
                definitions.push(Definition { name: key, root });
            },
        }
        *self = Net { nodes, active_pairs, definitions };
        assert(self@.bindings =~= old(self)@.define(name@, root).bindings);
        proof {
            if old(self)@.wired() {
                lemma_wired_agents(old(self)@, self@);
            }
        }
        self.attest();
    }

    /// The root bound to `name`, if any.
    pub fn get_definition(&self, name: &str) -> (r: Option<NodeId>)
        ensures
            r == self@.lookup(name@),
            r matches Some(root) ==> root < self@.agents.len(),
            self@.sound(),
    {
        self.attest();
        let key = String::from_str(name);
        match self.find(&key) {
            Some(i) => Some(self.definitions[i].root),
            None => None,
        }
    }
}

} // verus!
