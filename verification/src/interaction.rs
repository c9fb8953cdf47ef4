//! The rule engine: one rewrite rule for each pair of kinds.
//!
//! A rule reads the two agents of the pair by value before it changes
//! anything, so what it wires is what the agents were wired to when the rule
//! began. A rule that has a wiring request refused stops there and leaves the
//! net as it then is.

use vstd::prelude::*;
use crate::net::{Net, Node, NodeId, Port, Redex, PRINCIPAL};
use crate::laws::law_rules_keep;
use crate::model::Kind;
use crate::rules::{fresh, settled, Outcome, Progress};

verus! {

/// How the rule for a pair ended.
#[derive(Debug)]
pub enum InteractionResult {
    /// The rule ran to its end.
    Success,
    /// The rule gave up, with the reason.
    Error(String),
}

impl View for InteractionResult {
    type V = Outcome;

    open spec fn view(&self) -> Outcome {
        match self {
            InteractionResult::Success => Outcome::Reduced,
            InteractionResult::Error(msg) => Outcome::Failed(msg@),
        }
    }
}

/// Applies to the net the rewrite rule for the pair `redex`, chosen by the
/// kinds of its two agents:
///
/// * two constructors of one tag annihilate;
/// * a constructor and a duplicator commute;
/// * two duplicators duplicate each other;
/// * an eraser erases a constructor or a duplicator, and meets another
///   eraser with no effect;
/// * a reference is replaced by a fresh copy of its definition, and fails
///   where its name has none;
/// * two constructors of different tags have no rule, which is reported.
pub fn apply_interaction(net: &mut Net, redex: Redex) -> (r: InteractionResult)
    requires
        redex.a < old(net)@.agents.len(),
        redex.b < old(net)@.agents.len(),
    ensures
        final(net)@ == old(net)@.interact(redex).0,
        r@ == old(net)@.interact(redex).1,
        final(net)@.extends(old(net)@),
        final(net)@.sound(),
        old(net)@.wired() ==> final(net)@.wired(),
{
    let a = redex.a;
    let b = redex.b;
    net.attest();
    let node_a = net.get_node(a).clone();
    let node_b = net.get_node(b).clone();
    let r = match (node_a, node_b) {
        (Node::Con { tag: tag_a, ports: ports_a }, Node::Con { tag: tag_b, ports: ports_b }) => {
            if tag_a == tag_b {
                annihilate(net, ports_a[0], ports_a[1], ports_b[0], ports_b[1])
            } else {
                InteractionResult::Error(String::from_str("Unsupported interaction"))
            }
        },
        (Node::Con { tag, ports: con }, Node::Dup { ports: dup }) => {
            commute(net, tag, con[0], con[1], dup[0], dup[1])
        },
        (Node::Dup { ports: dup }, Node::Con { tag, ports: con }) => {
            commute(net, tag, con[0], con[1], dup[0], dup[1])
        },
        (Node::Dup { ports: ports_a }, Node::Dup { ports: ports_b }) => {
            duplicate(net, ports_a[0], ports_a[1], ports_b[0], ports_b[1])
        },
        (Node::Con { ports, .. }, Node::Era { .. }) => erase(net, ports[0], ports[1]),
        (Node::Dup { ports }, Node::Era { .. }) => erase(net, ports[0], ports[1]),
        (Node::Era { .. }, Node::Con { ports, .. }) => erase(net, ports[0], ports[1]),
        (Node::Era { .. }, Node::Dup { ports }) => erase(net, ports[0], ports[1]),
        (Node::Era { .. }, Node::Era { .. }) => InteractionResult::Success,
        (Node::Ref { name, .. }, _) => expand(net, &name, b),
        (_, Node::Ref { name, .. }) => expand(net, &name, a),
    };
    proof {
        old(net).lemma_shaped();
        net.lemma_shaped();
        law_rules_keep(old(net)@, redex);
    }
    net.attest();
    r
}

/// Replaces a reference named `name`, met by `other`, by a copy of its
/// definition.
fn expand(net: &mut Net, name: &String, other: NodeId) -> (r: InteractionResult)
    ensures
        final(net)@ == old(net)@.call(name@, other).0,
        r@ == old(net)@.call(name@, other).1,
        old(net)@.wired() ==> final(net)@.wired(),
{
    match net.get_definition(name.as_str()) {
        Some(root) => {
            let copy = net.clone_subgraph(root);
            let ok = link(net, true, Port::new(copy, PRINCIPAL), other, PRINCIPAL);
            finish(ok)
        },
        None => {
            let mut msg = String::from_str("Undefined function: ");
            msg.append(name.as_str());
            InteractionResult::Error(msg)
        },
    }
}

/// Wires the port that `p` names to port `slot` of agent `b`, unless an
/// earlier request of the rule was refused.
fn link(net: &mut Net, ok: bool, p: Port, b: NodeId, slot: usize) -> (r: bool)
    ensures
        (Progress { net: final(net)@, ok: r }) == (Progress { net: old(net)@, ok }).link(p, b, slot),
        old(net)@.wired() ==> final(net)@.wired(),
{
    if ok {
        net.connect(p.node, p.slot, b, slot).is_ok()
    } else {
        false
    }
}

/// The result of a rule all of whose wiring requests were made.
fn finish(ok: bool) -> (r: InteractionResult)
    ensures
        r@ == settled(ok),
{
    if ok {
        InteractionResult::Success
    } else {
        InteractionResult::Error(String::from_str("Invalid port slot for node"))
    }
}

fn annihilate(net: &mut Net, a0: Port, a1: Port, b0: Port, b1: Port) -> (r: InteractionResult)
    ensures
        (Progress { net: final(net)@, ok: r is Success }) == Progress::start(old(net)@).link(
            a0,
            b0.node,
            b0.slot,
        ).link(a1, b1.node, b1.slot),
        r@ == (Progress { net: final(net)@, ok: r is Success }).outcome(),
        old(net)@.wired() ==> final(net)@.wired(),
{
    let ok = link(net, true, a0, b0.node, b0.slot);
    let ok = link(net, ok, a1, b1.node, b1.slot);
    finish(ok)
}

fn commute(net: &mut Net, tag: i32, c0: Port, c1: Port, d0: Port, d1: Port) -> (r:
    InteractionResult)
    ensures
        ({
            let k = old(net)@.agents.len() as NodeId;
            let dl = k;
            let dr = (k + 1) as NodeId;
            let cl = (k + 2) as NodeId;
            let cr = (k + 3) as NodeId;
            let made = old(net)@.create(fresh(Kind::Dup)).create(fresh(Kind::Dup)).create(
                fresh(Kind::Con(tag)),
            ).create(fresh(Kind::Con(tag)));
            (Progress { net: final(net)@, ok: r is Success }) == Progress::start(made).link(
                c0,
                dl,
                PRINCIPAL,
            ).link(c1, dr, PRINCIPAL).link(d0, cl, PRINCIPAL).link(d1, cr, PRINCIPAL).link(
                Port { node: dl, slot: 0 },
                cl,
                0,
            ).link(Port { node: dl, slot: 1 }, cr, 0).link(Port { node: dr, slot: 0 }, cl, 1).link(
                Port { node: dr, slot: 1 },
                cr,
                1,
            )
        }),
        r@ == (Progress { net: final(net)@, ok: r is Success }).outcome(),
        old(net)@.wired() ==> final(net)@.wired(),
{
    let dup_l = net.create_node(new_dup());
    let dup_r = net.create_node(new_dup());
    let con_l = net.create_node(new_con(tag));
    let con_r = net.create_node(new_con(tag));
    let ok = link(net, true, c0, dup_l, PRINCIPAL);
    let ok = link(net, ok, c1, dup_r, PRINCIPAL);
    let ok = link(net, ok, d0, con_l, PRINCIPAL);
    let ok = link(net, ok, d1, con_r, PRINCIPAL);
    let ok = link(net, ok, Port::new(dup_l, 0), con_l, 0);
    let ok = link(net, ok, Port::new(dup_l, 1), con_r, 0);
    let ok = link(net, ok, Port::new(dup_r, 0), con_l, 1);
    let ok = link(net, ok, Port::new(dup_r, 1), con_r, 1);
    finish(ok)
}

fn duplicate(net: &mut Net, a0: Port, a1: Port, b0: Port, b1: Port) -> (r: InteractionResult)
    ensures
        ({
            let k = old(net)@.agents.len() as NodeId;
            let d0 = k;
            let d1 = (k + 1) as NodeId;
            let d2 = (k + 2) as NodeId;
            let d3 = (k + 3) as NodeId;
            let made = old(net)@.create(fresh(Kind::Dup)).create(fresh(Kind::Dup)).create(
                fresh(Kind::Dup),
            ).create(fresh(Kind::Dup));
            (Progress { net: final(net)@, ok: r is Success }) == Progress::start(made).link(
                a0,
                d0,
                PRINCIPAL,
            ).link(a1, d1, PRINCIPAL).link(b0, d2, PRINCIPAL).link(b1, d3, PRINCIPAL).link(
                Port { node: d0, slot: 1 },
                d2,
                1,
            ).link(Port { node: d1, slot: 1 }, d3, 1)
        }),
        r@ == (Progress { net: final(net)@, ok: r is Success }).outcome(),
        old(net)@.wired() ==> final(net)@.wired(),
{
    let d0 = net.create_node(new_dup());
    let d1 = net.create_node(new_dup());
    let d2 = net.create_node(new_dup());
    let d3 = net.create_node(new_dup());
    let ok = link(net, true, a0, d0, PRINCIPAL);
    let ok = link(net, ok, a1, d1, PRINCIPAL);
    let ok = link(net, ok, b0, d2, PRINCIPAL);
    let ok = link(net, ok, b1, d3, PRINCIPAL);
    let ok = link(net, ok, Port::new(d0, 1), d2, 1);
    let ok = link(net, ok, Port::new(d1, 1), d3, 1);
    finish(ok)
}

fn erase(net: &mut Net, x0: Port, x1: Port) -> (r: InteractionResult)
    ensures
        ({
            let k = old(net)@.agents.len() as NodeId;
            let made = old(net)@.create(fresh(Kind::Era)).create(fresh(Kind::Era));
            (Progress { net: final(net)@, ok: r is Success }) == Progress::start(made).link(
                x0,
                k,
                PRINCIPAL,
            ).link(x1, (k + 1) as NodeId, PRINCIPAL)
        }),
        r@ == (Progress { net: final(net)@, ok: r is Success }).outcome(),
        old(net)@.wired() ==> final(net)@.wired(),
{
    let era_l = net.create_node(new_era());
    let era_r = net.create_node(new_era());
    let ok = link(net, true, x0, era_l, PRINCIPAL);
    let ok = link(net, ok, x1, era_r, PRINCIPAL);
    finish(ok)
}

fn new_dup() -> (n: Node)
    ensures
        n@ == fresh(Kind::Dup),
{
    let n = Node::Dup { ports: [Port::null(), Port::null(), Port::null()] };
    assert(n@.ports =~= fresh(Kind::Dup).ports);
    n
}

fn new_con(tag: i32) -> (n: Node)
    ensures
        n@ == fresh(Kind::Con(tag)),
{
    let n = Node::Con { tag, ports: [Port::null(), Port::null(), Port::null()] };
    assert(n@.ports =~= fresh(Kind::Con(tag)).ports);
    n
}

fn new_era() -> (n: Node)
    ensures
        n@ == fresh(Kind::Era),
{
    let n = Node::Era { port: Port::null() };
    assert(n@.ports =~= fresh(Kind::Era).ports);
    n
}

} // verus!
