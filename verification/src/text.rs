//! Renderings of agents and nets as text, for diagnostics.

use vstd::prelude::*;
use crate::interaction::InteractionResult;
use crate::model::{Agent, Binding, Kind, NetModel};
use crate::net::{Net, Node, NodeId, Port, Redex};
use crate::rules::Outcome;

verus! {

/// The decimal digit for `d`.
pub open spec fn digit(d: nat) -> char {
    if d == 0 {
        '0'
    } else if d == 1 {
        '1'
    } else if d == 2 {
        '2'
    } else if d == 3 {
        '3'
    } else if d == 4 {
        '4'
    } else if d == 5 {
        '5'
    } else if d == 6 {
        '6'
    } else if d == 7 {
        '7'
    } else if d == 8 {
        '8'
    } else {
        '9'
    }
}

/// The decimal numeral of `n`, without leading zeros.
pub open spec fn decimal(n: nat) -> Seq<char>
    decreases n,
{
    if n < 10 {
        seq![digit(n)]
    } else {
        decimal(n / 10).push(digit(n % 10))
    }
}

/// The decimal numeral of `i`, with a minus sign where it is negative.
pub open spec fn signed(i: int) -> Seq<char> {
    if i < 0 {
        seq!['-'] + decimal((-i) as nat)
    } else {
        decimal(i as nat)
    }
}

/// A port as text: `NULL` where it is unwired, else agent and slot with a
/// colon between them.
pub open spec fn port_text(p: Port) -> Seq<char> {
    if p.is_null() {
        "NULL"@
    } else {
        decimal(p.node as nat) + ":"@ + decimal(p.slot as nat)
    }
}

/// An agent as text. A constructor is `CON(`, its tag, `)[`, its two
/// auxiliary ports with `, ` between them, and `]`; a duplicator is `DUP[`,
/// its two auxiliary ports with `, ` between them, and `]`; a reference is
/// `REF(`, its name, `):` and its port; an eraser is `ERA:` and its port.
pub open spec fn agent_text(a: Agent) -> Seq<char> {
    match a.kind {
        Kind::Con(tag) => "CON("@ + signed(tag as int) + ")["@ + port_text(a.ports[0]) + ", "@
            + port_text(a.ports[1]) + "]"@,
        Kind::Dup => "DUP["@ + port_text(a.ports[0]) + ", "@ + port_text(a.ports[1]) + "]"@,
        Kind::Ref(name) => "REF("@ + name + "):"@ + port_text(a.ports[2]),
        Kind::Era => "ERA:"@ + port_text(a.ports[2]),
    }
}

/// An agent as text with all its wiring: the text of the agent, followed for
/// a constructor or a duplicator by a colon and its principal port.
pub open spec fn wiring_text(a: Agent) -> Seq<char> {
    match a.kind {
        Kind::Con(_) | Kind::Dup => agent_text(a) + ":"@ + port_text(a.ports[2]),
        Kind::Ref(_) | Kind::Era => agent_text(a),
    }
}

/// The first `k` agents with all their wiring, one to a line, each after its
/// handle.
pub open spec fn agent_lines(agents: Seq<Agent>, k: nat) -> Seq<char>
    decreases k,
{
    if k == 0 {
        Seq::empty()
    } else {
        agent_lines(agents, (k - 1) as nat) + "  "@ + decimal((k - 1) as nat) + ": "@ + wiring_text(
            agents[k - 1],
        ) + "\n"@
    }
}

/// The first `k` bindings, one to a line: the name, an arrow, the root.
pub open spec fn binding_lines(bindings: Seq<Binding>, k: nat) -> Seq<char>
    decreases k,
{
    if k == 0 {
        Seq::empty()
    } else {
        binding_lines(bindings, (k - 1) as nat) + "  "@ + bindings[k - 1].name + " -> "@ + decimal(
            bindings[k - 1].root as nat,
        ) + "\n"@
    }
}

/// The first `k` pending pairs, with a comma between one and the next: the
/// two handles of a pair with a hyphen between them.
pub open spec fn pair_list(pending: Seq<Redex>, k: nat) -> Seq<char>
    decreases k,
{
    if k == 0 {
        Seq::empty()
    } else {
        pair_list(pending, (k - 1) as nat) + (if k > 1 {
            ", "@
        } else {
            Seq::empty()
        }) + decimal(pending[k - 1].a as nat) + "-"@ + decimal(pending[k - 1].b as nat)
    }
}

/// A net as text: the number of agents, the agents, the definitions and the
/// pending pairs.
pub open spec fn net_text(n: NetModel) -> Seq<char> {
    "Net with "@ + decimal(n.agents.len()) + " nodes:\n"@ + agent_lines(n.agents, n.agents.len())
        + "Definitions:\n"@ + binding_lines(n.bindings, n.bindings.len()) + "Active pairs: ["@
        + pair_list(n.pending, n.pending.len()) + "]\n"@
}

/// The outcome of a rule as text.
pub open spec fn outcome_text(o: Outcome) -> Seq<char> {
    match o {
        Outcome::Reduced => "Success"@,
        Outcome::Failed(reason) => "Error: "@ + reason,
    }
}

/// The numeral of one digit.
fn digit_str(d: usize) -> (r: &'static str)
    requires
        d < 10,
    ensures
        r@ == seq![digit(d as nat)],
{
    proof {
        reveal_strlit("0");
        reveal_strlit("1");
        reveal_strlit("2");
        reveal_strlit("3");
        reveal_strlit("4");
        reveal_strlit("5");
        reveal_strlit("6");
        reveal_strlit("7");
        reveal_strlit("8");
        reveal_strlit("9");
    }
    let r = if d == 0 {
        "0"
    } else if d == 1 {
        "1"
    } else if d == 2 {
        "2"
    } else if d == 3 {
        "3"
    } else if d == 4 {
        "4"
    } else if d == 5 {
        "5"
    } else if d == 6 {
        "6"
    } else if d == 7 {
        "7"
    } else if d == 8 {
        "8"
    } else {
        "9"
    };
    assert(r@ =~= seq![digit(d as nat)]);
    r
}

/// Appends the decimal numeral of `n`.
fn push_decimal(s: &mut String, n: usize)
    ensures
        final(s)@ == old(s)@ + decimal(n as nat),
    decreases n,
{
    if n < 10 {
        s.append(digit_str(n));
    } else {
        push_decimal(s, n / 10);
        s.append(digit_str(n % 10));
        assert(s@ =~= old(s)@ + decimal(n as nat));
    }
}

/// Appends the decimal numeral of `i`.
fn push_signed(s: &mut String, i: i32)
    ensures
        final(s)@ == old(s)@ + signed(i as int),
{
    if i < 0 {
        proof {
            reveal_strlit("-");
        }
        s.append("-");
        let magnitude = (-(i as i64)) as usize;
        push_decimal(s, magnitude);
        assert(s@ =~= old(s)@ + signed(i as int));
    } else {
        push_decimal(s, i as usize);
    }
}

/// Appends a port.
fn push_port(s: &mut String, p: Port)
    ensures
        final(s)@ == old(s)@ + port_text(p),
{
    if p.is_null() {
        s.append("NULL");
    } else {
        push_decimal(s, p.node);
        s.append(":");
        push_decimal(s, p.slot);
        assert(s@ =~= old(s)@ + port_text(p));
    }
}

/// Appends an agent.
fn push_node(s: &mut String, node: &Node)
    ensures
        final(s)@ == old(s)@ + agent_text(node@),
{
    match node {
        Node::Con { tag, ports } => {
            s.append("CON(");
            push_signed(s, *tag);
            s.append(")[");
            push_port(s, ports[0]);
            s.append(", ");
            push_port(s, ports[1]);
            s.append("]");
        },
        Node::Dup { ports } => {
            s.append("DUP[");
            push_port(s, ports[0]);
            s.append(", ");
            push_port(s, ports[1]);
            s.append("]");
        },
        Node::Ref { name, port } => {
            s.append("REF(");
            s.append(name.as_str());
            s.append("):");
            push_port(s, *port);
        },
        Node::Era { port } => {
            s.append("ERA:");
            push_port(s, *port);
        },
    }
    assert(s@ =~= old(s)@ + agent_text(node@));
}

/// Appends an agent with all its wiring.
fn push_wiring(s: &mut String, node: &Node)
    ensures
        final(s)@ == old(s)@ + wiring_text(node@),
{
    push_node(s, node);
    match node {
        Node::Con { ports, .. } => {
            s.append(":");
            push_port(s, ports[2]);
        },
        Node::Dup { ports } => {
            s.append(":");
            push_port(s, ports[2]);
        },
        Node::Ref { .. } => {},
        Node::Era { .. } => {},
    }
    assert(s@ =~= old(s)@ + wiring_text(node@));
}

impl Net {
    /// The agent with the given handle as text, such as `CON(7)[1:2, NULL]`
    /// for a constructor of tag 7 whose first auxiliary port is wired to the
    /// principal port of agent 1 and whose second is unwired, or `REF(f):3:0`
    /// for a reference to `f` wired to the first auxiliary port of agent 3.
    /// The principal port of a constructor or a duplicator is not shown:
    /// `wiring_str` shows it.
    pub fn node_str(&self, id: NodeId) -> (r: String)
        requires
            id < self@.agents.len(),
        ensures
            r@ == agent_text(self@.agents[id as int]),
            self@.sound(),
    {
        self.attest();
        let mut s = String::new();
        push_node(&mut s, self.get_node(id));
        assert(s@ =~= agent_text(self@.agents[id as int]));
        s
    }

    /// The agent with the given handle as text with all its wiring: the text
    /// that `node_str` gives, followed for a constructor or a duplicator by
    /// a colon and its principal port, as in `CON(7)[1:2, NULL]:3:0`.
    pub fn wiring_str(&self, id: NodeId) -> (r: String)
        requires
            id < self@.agents.len(),
        ensures
            r@ == wiring_text(self@.agents[id as int]),
            self@.sound(),
    {
        self.attest();
        let mut s = String::new();
        push_wiring(&mut s, self.get_node(id));
        assert(s@ =~= wiring_text(self@.agents[id as int]));
        s
    }

    /// The whole net as text: a line with the number of agents, a line for
    /// each agent with all its wiring, a line for each definition in the
    /// order in which the names were first bound, and a line with the
    /// pending pairs, oldest first.
    pub fn render(&self) -> (r: String)
        ensures
            r@ == net_text(self@),
            self@.sound(),
    {
        self.attest();
        let mut s = String::from_str("Net with ");
        push_decimal(&mut s, self.node_count());
        s.append(" nodes:\n");
        let ghost head = s@;
        let mut i: usize = 0;
        while i < self.node_count()
            invariant
                i <= self@.agents.len(),
                s@ == head + agent_lines(self@.agents, i as nat),
            decreases self@.agents.len() - i,
        {
            s.append("  ");
            push_decimal(&mut s, i);
            s.append(": ");
            push_wiring(&mut s, self.get_node(i));
            s.append("\n");
            i += 1;
            assert(s@ =~= head + agent_lines(self@.agents, i as nat));
        }
        s.append("Definitions:\n");
        let ghost head = s@;
        let mut j: usize = 0;
        while j < self.definition_count()
            invariant
                j <= self@.bindings.len(),
                s@ == head + binding_lines(self@.bindings, j as nat),
            decreases self@.bindings.len() - j,
        {
            s.append("  ");
            s.append(self.definition_name(j).as_str());
            s.append(" -> ");
            push_decimal(&mut s, self.definition_root(j));
            s.append("\n");
            j += 1;
            assert(s@ =~= head + binding_lines(self@.bindings, j as nat));
        }
        s.append("Active pairs: [");
        let ghost head = s@;
        let mut k: usize = 0;
        while k < self.redex_count()
            invariant
                k <= self@.pending.len(),
                s@ == head + pair_list(self@.pending, k as nat),
            decreases self@.pending.len() - k,
        {
            let ghost before = s@;
            if k > 0 {
                s.append(", ");
            }
            assert(s@ =~= before + (if k + 1 > 1 {
                ", "@
            } else {
                Seq::empty()
            }));
            let redex = self.pending_at(k);
            push_decimal(&mut s, redex.a);
            s.append("-");
            push_decimal(&mut s, redex.b);
            k += 1;
            assert(s@ =~= head + pair_list(self@.pending, k as nat));
        }
        s.append("]\n");
        assert(s@ =~= net_text(self@));
        s
    }
}

impl InteractionResult {
    /// The outcome as text: `Success`, or `Error: ` and the reason.
    pub fn describe(&self) -> (r: String)
        ensures
            r@ == outcome_text(self@),
    {
        match self {
            InteractionResult::Success => String::from_str("Success"),
            InteractionResult::Error(msg) => {
                let mut s = String::from_str("Error: ");
                s.append(msg.as_str());
                s
            },
        }
    }
}

} // verus!
