//! The rewrite rules, as functions on the model of a net.

use vstd::prelude::*;
use crate::model::{unwired, wiring_fault, Agent, Kind, NetModel};
use crate::net::{NodeId, Port, Redex, PRINCIPAL};

verus! {

/// How a rule ended.
pub enum Outcome {
    /// The rule ran to its end.
    Reduced,
    /// The rule gave up, with the reason.
    Failed(Seq<char>),
}

/// The message for a pair of kinds that has no rule.
pub open spec fn unsupported_fault() -> Seq<char> {
    "Unsupported interaction"@
}

/// The message for a reference whose name has no definition.
pub open spec fn undefined_fault(name: Seq<char>) -> Seq<char> {
    "Undefined function: "@ + name
}

/// A fresh, unwired agent of the given kind.
pub open spec fn fresh(kind: Kind) -> Agent {
    Agent { kind, ports: unwired() }
}

/// A rule under way: the net so far, and whether every wiring request so far
/// was accepted.
pub struct Progress {
    pub net: NetModel,
    pub ok: bool,
}

impl Progress {
    /// The start of a rule.
    pub open spec fn start(net: NetModel) -> Progress {
        Progress { net, ok: true }
    }

    /// Wires the port that `p` names to port `slot` of agent `b`. Once a
    /// request has been refused, nothing more is done.
    pub open spec fn link(self, p: Port, b: NodeId, slot: usize) -> Progress {
        if self.ok {
            Progress {
                net: self.net.connect(p.node, p.slot, b, slot),
                ok: self.net.can_connect(p.node, p.slot, b, slot),
            }
        } else {
            self
        }
    }

    /// The outcome of the rule.
    pub open spec fn outcome(self) -> Outcome {
        settled(self.ok)
    }
}

/// The outcome of a rule whose wiring requests have all been made: it ran to
/// its end if none was refused.
pub open spec fn settled(ok: bool) -> Outcome {
    if ok {
        Outcome::Reduced
    } else {
        Outcome::Failed(wiring_fault())
    }
}

impl NetModel {
    /// Annihilation: what the first auxiliary port of `a` was wired to is
    /// wired to what the first auxiliary port of `b` was wired to, and
    /// likewise for the second. No agent is created.
    pub open spec fn annihilate(self, a: NodeId, b: NodeId) -> Progress {
        let a0 = self.port(a, 0);
        let a1 = self.port(a, 1);
        let b0 = self.port(b, 0);
        let b1 = self.port(b, 1);
        Progress::start(self).link(a0, b0.node, b0.slot).link(a1, b1.node, b1.slot)
    }

    /// Commutation of the constructor `con` with the duplicator `dup`: two
    /// fresh duplicators face what the constructor's auxiliary ports were
    /// wired to, two fresh constructors of the same tag face what the
    /// duplicator's were wired to, and each fresh duplicator is wired to
    /// both fresh constructors.
    pub open spec fn commute(self, con: NodeId, dup: NodeId) -> Progress {
        let c0 = self.port(con, 0);
        let c1 = self.port(con, 1);
        let d0 = self.port(dup, 0);
        let d1 = self.port(dup, 1);
        let k = self.agents.len() as NodeId;
        let dl = k;
        let dr = (k + 1) as NodeId;
        let cl = (k + 2) as NodeId;
        let cr = (k + 3) as NodeId;
        let made = self.create(fresh(Kind::Dup)).create(fresh(Kind::Dup)).create(
            fresh(self.kind(con)),
        ).create(fresh(self.kind(con)));
        Progress::start(made).link(c0, dl, PRINCIPAL).link(c1, dr, PRINCIPAL).link(
            d0,
            cl,
            PRINCIPAL,
        ).link(d1, cr, PRINCIPAL).link(Port { node: dl, slot: 0 }, cl, 0).link(
            Port { node: dl, slot: 1 },
            cr,
            0,
        ).link(Port { node: dr, slot: 0 }, cl, 1).link(Port { node: dr, slot: 1 }, cr, 1)
    }

    /// Duplication: four fresh duplicators face what the four auxiliary
    /// ports of `a` and `b` were wired to, and are wired in pairs, the first
    /// of `a` with the first of `b`, the second with the second.
    pub open spec fn duplicate(self, a: NodeId, b: NodeId) -> Progress {
        let a0 = self.port(a, 0);
        let a1 = self.port(a, 1);
        let b0 = self.port(b, 0);
        let b1 = self.port(b, 1);
        let k = self.agents.len() as NodeId;
        let d0 = k;
        let d1 = (k + 1) as NodeId;
        let d2 = (k + 2) as NodeId;
        let d3 = (k + 3) as NodeId;
        let made = self.create(fresh(Kind::Dup)).create(fresh(Kind::Dup)).create(
            fresh(Kind::Dup),
        ).create(fresh(Kind::Dup));
        Progress::start(made).link(a0, d0, PRINCIPAL).link(a1, d1, PRINCIPAL).link(
            b0,
            d2,
            PRINCIPAL,
        ).link(b1, d3, PRINCIPAL).link(Port { node: d0, slot: 1 }, d2, 1).link(
            Port { node: d1, slot: 1 },
            d3,
            1,
        )
    }

    /// Erasure of the constructor or duplicator `x`: two fresh erasers face
    /// what its auxiliary ports were wired to.
    pub open spec fn erase(self, x: NodeId) -> Progress {
        let x0 = self.port(x, 0);
        let x1 = self.port(x, 1);
        let k = self.agents.len() as NodeId;
        let made = self.create(fresh(Kind::Era)).create(fresh(Kind::Era));
        Progress::start(made).link(x0, k, PRINCIPAL).link(x1, (k + 1) as NodeId, PRINCIPAL)
    }

    /// Expansion of a reference to the definition rooted at `root`: the
    /// template is copied, and the principal port of the copy of its root is
    /// wired to the principal port of `other`.
    pub open spec fn expand(self, root: NodeId, other: NodeId) -> Progress {
        let copy = self.agents.len() as NodeId;
        Progress::start(self.clone_subgraph(root)).link(
            Port { node: copy, slot: PRINCIPAL },
            other,
            PRINCIPAL,
        )
    }

    /// The rule for a reference named `name` that meets `other`.
    pub open spec fn call(self, name: Seq<char>, other: NodeId) -> (NetModel, Outcome) {
        match self.lookup(name) {
            Some(root) => (self.expand(root, other).net, self.expand(root, other).outcome()),
            None => (self, Outcome::Failed(undefined_fault(name))),
        }
    }

    /// The rule engine: the net after the rule for the pair has run, and how
    /// the rule ended. The rule is chosen by the kinds of the two agents.
    pub open spec fn interact(self, redex: Redex) -> (NetModel, Outcome) {
        let a = redex.a;
        let b = redex.b;
        match (self.kind(a), self.kind(b)) {
            (Kind::Con(x), Kind::Con(y)) => if x == y {
                (self.annihilate(a, b).net, self.annihilate(a, b).outcome())
            } else {
                (self, Outcome::Failed(unsupported_fault()))
            },
            (Kind::Con(_), Kind::Dup) => (self.commute(a, b).net, self.commute(a, b).outcome()),
            (Kind::Dup, Kind::Con(_)) => (self.commute(b, a).net, self.commute(b, a).outcome()),
            (Kind::Dup, Kind::Dup) => (self.duplicate(a, b).net, self.duplicate(a, b).outcome()),
            (Kind::Con(_), Kind::Era) | (Kind::Dup, Kind::Era) => (
                self.erase(a).net,
                self.erase(a).outcome(),
            ),
            (Kind::Era, Kind::Con(_)) | (Kind::Era, Kind::Dup) => (
                self.erase(b).net,
                self.erase(b).outcome(),
            ),
            (Kind::Era, Kind::Era) => (self, Outcome::Reduced),
            (Kind::Ref(name), _) => self.call(name, b),
            (_, Kind::Ref(name)) => self.call(name, a),
        }
    }
}

} // verus!
