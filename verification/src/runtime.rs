//! The scheduler: it takes pending active pairs in the order in which they
//! were found, hands each to the rule engine, and keeps statistics.

use vstd::prelude::*;
use crate::interaction::{apply_interaction, InteractionResult};
use crate::model::NetModel;
use crate::net::Net;
use crate::rules::Outcome;
use crate::wiring::lemma_extends_twice;

verus! {

/// What a runtime is: its net and its statistics.
pub struct RuntimeModel {
    pub net: NetModel,
    /// How many rules have run to their end.
    pub steps: nat,
    /// The largest number of agents seen.
    pub max_nodes: nat,
}

/// The message of `run` for a rule that failed with `reason`.
pub open spec fn run_fault(reason: Seq<char>) -> Seq<char> {
    "Error during evaluation: "@ + reason
}

/// The message of `step` for a rule that failed with `reason`.
pub open spec fn step_fault(reason: Seq<char>) -> Seq<char> {
    "Error during step: "@ + reason
}

/// The reason given when the step counter can count no further.
pub open spec fn exhausted_fault() -> Seq<char> {
    "Step counter exhausted"@
}

/// A result with its message taken as text.
pub open spec fn text_of<T>(r: Result<T, String>) -> Result<T, Seq<char>> {
    match r {
        Ok(v) => Ok(v),
        Err(e) => Err(e@),
    }
}

impl RuntimeModel {
    /// Whether a pair is pending and the counter can count it.
    pub open spec fn ready(self) -> bool {
        self.net.pending.len() > 0 && self.steps < usize::MAX
    }

    /// The net after the rule for the oldest pending pair, taken from the
    /// queue, has run.
    pub open spec fn fired(self) -> NetModel {
        self.net.dequeue().interact(self.net.pending[0]).0
    }

    /// How that rule ended.
    pub open spec fn verdict(self) -> Outcome {
        self.net.dequeue().interact(self.net.pending[0]).1
    }

    /// The runtime after that rule has run to its end: one more step is
    /// counted, and the agent count is held against the largest seen.
    pub open spec fn advanced(self) -> RuntimeModel {
        let net = self.fired();
        RuntimeModel {
            net,
            steps: self.steps + 1,
            max_nodes: if net.agents.len() > self.max_nodes {
                net.agents.len()
            } else {
                self.max_nodes
            },
        }
    }

    /// The runtime after that rule has failed: the pair is gone from the
    /// queue, the net is as the rule left it, the statistics are unchanged.
    pub open spec fn stalled(self) -> RuntimeModel {
        RuntimeModel { net: self.fired(), ..self }
    }

    /// Why nothing more can be done, as far as the runtime can tell before
    /// it takes a pair: nothing, where no pair is pending.
    pub open spec fn blocked(self) -> Option<Seq<char>> {
        if self.net.pending.len() > 0 && self.steps >= usize::MAX {
            Some(exhausted_fault())
        } else {
            None
        }
    }

    /// One step: the runtime after it, and whether work is left or why the
    /// step failed.
    pub open spec fn step(self) -> (RuntimeModel, Result<bool, Seq<char>>) {
        if self.ready() {
            match self.verdict() {
                Outcome::Reduced => (self.advanced(), Ok(self.fired().pending.len() > 0)),
                Outcome::Failed(reason) => (self.stalled(), Err(step_fault(reason))),
            }
        } else {
            match self.blocked() {
                Some(reason) => (self, Err(step_fault(reason))),
                None => (self, Ok(false)),
            }
        }
    }

    /// Steps until no pair is pending or a step fails.
    pub open spec fn drain(self) -> (RuntimeModel, Result<(), Seq<char>>)
        decreases usize::MAX - self.steps,
    {
        if self.ready() {
            match self.verdict() {
                Outcome::Reduced => self.advanced().drain(),
                Outcome::Failed(reason) => (self.stalled(), Err(run_fault(reason))),
            }
        } else {
            match self.blocked() {
                Some(reason) => (self, Err(run_fault(reason))),
                None => (self, Ok(())),
            }
        }
    }

    /// A run: the statistics start afresh, then the queue is drained.
    pub open spec fn run(self) -> (RuntimeModel, Result<(), Seq<char>>) {
        (RuntimeModel { net: self.net, steps: 0, max_nodes: self.net.agents.len() }).drain()
    }
}

/// What a runtime has counted.
#[derive(Debug, Clone, Copy)]
pub struct RuntimeStats {
    /// How many rules have run to their end.
    pub steps: usize,
    /// The largest number of agents seen.
    pub max_nodes: usize,
}

impl Default for RuntimeStats {
    fn default() -> (stats: Self)
        ensures
            stats.steps == 0,
            stats.max_nodes == 0,
    {
        RuntimeStats { steps: 0, max_nodes: 0 }
    }
}

/// A net under reduction.
pub struct Runtime {
    net: Net,
    stats: RuntimeStats,
}

impl View for Runtime {
    type V = RuntimeModel;

    closed spec fn view(&self) -> RuntimeModel {
        RuntimeModel {
            net: self.net@,
            steps: self.stats.steps as nat,
            max_nodes: self.stats.max_nodes as nat,
        }
    }
}

impl Runtime {
    /// A runtime for the net, with nothing counted yet.
    pub fn new(net: Net) -> (rt: Self)
        ensures
            rt@ == (RuntimeModel { net: net@, steps: 0, max_nodes: 0 }),
            rt@.net.sound(),
    {
        net.attest();
        Self { net, stats: RuntimeStats::default() }
    }

    /// Reduces the net until no active pair is pending. The statistics start
    /// afresh. The first rule that fails ends the run: its message is
    /// returned, and the net is left as that rule left it. A run also ends,
    /// with a message, before a step that the step counter could not count.
    pub fn run(&mut self) -> (r: Result<(), String>)
        ensures
            final(self)@ == old(self)@.run().0,
            text_of(r) == old(self)@.run().1,
            r is Ok ==> final(self)@.net.pending.len() == 0,
            final(self)@.net.extends(old(self)@.net),
            final(self)@.net.sound(),
            old(self)@.net.wired() ==> final(self)@.net.wired(),
    {
        self.net.attest();
        self.stats = RuntimeStats::default();
        self.stats.max_nodes = self.net.node_count();
        loop
            invariant
                self@.drain() == old(self)@.run(),
                self@.net.extends(old(self)@.net),
                self@.net.sound(),
                old(self)@.net.wired() ==> self@.net.wired(),
            decreases usize::MAX - self.stats.steps,
        {
            if self.net.redex_count() == 0 {
                return Ok(());
            }
            if self.stats.steps == usize::MAX {
                return Err(prefixed("Error during evaluation: ", "Step counter exhausted"));
            }
            let ghost before = self@;
            match self.net.next_redex() {
                Some(redex) => {
                    let outcome = apply_interaction(&mut self.net, redex);
                    proof {
                        lemma_extends_twice(before.net, before.net.dequeue(), self@.net);
                        lemma_extends_twice(old(self)@.net, before.net, self@.net);
                    }
                    match outcome {
                        InteractionResult::Success => {
                            self.count();
                            assert(self@ == before.advanced());
                        },
                        InteractionResult::Error(msg) => {
                            assert(self@ == before.stalled());
                            return Err(prefixed("Error during evaluation: ", msg.as_str()));
                        },
                    }
                },
                None => {
                    return Ok(());
                },
            }
        }
    }

    /// Applies the rule for the oldest pending active pair, if there is one,
    /// and says whether any pair is pending afterwards. A rule that fails
    /// has its message returned; the pair is gone from the queue all the
    /// same. Nothing is done, and a message is returned, where a pair is
    /// pending and the step counter could not count the step.
    pub fn step(&mut self) -> (r: Result<bool, String>)
        ensures
            final(self)@ == old(self)@.step().0,
            text_of(r) == old(self)@.step().1,
            final(self)@.net.extends(old(self)@.net),
            final(self)@.net.sound(),
            old(self)@.net.wired() ==> final(self)@.net.wired(),
    {
        if self.net.redex_count() == 0 {
            return Ok(false);
        }
        if self.stats.steps == usize::MAX {
            return Err(prefixed("Error during step: ", "Step counter exhausted"));
        }
        match self.net.next_redex() {
            Some(redex) => {
                let outcome = apply_interaction(&mut self.net, redex);
                proof {
                    lemma_extends_twice(old(self)@.net, old(self)@.net.dequeue(), self@.net);
                }
                match outcome {
                    InteractionResult::Success => {
                        self.count();
                        Ok(self.net.redex_count() > 0)
                    },
                    InteractionResult::Error(msg) => Err(
                        prefixed("Error during step: ", msg.as_str()),
                    ),
                }
            },
            None => Ok(false),
        }
    }

    /// Counts one step and holds the agent count against the largest seen.
    fn count(&mut self)
        requires
            old(self).stats.steps < usize::MAX,
        ensures
            final(self).net == old(self).net,
            final(self).stats.steps == old(self).stats.steps + 1,
            final(self).stats.max_nodes as nat == if old(self)@.net.agents.len() > old(
                self,
            ).stats.max_nodes {
                old(self)@.net.agents.len()
            } else {
                old(self).stats.max_nodes as nat
            },
    {
        self.stats.steps += 1;
        let n = self.net.node_count();
        if n > self.stats.max_nodes {
            self.stats.max_nodes = n;
        }
    }

    /// The net.
    pub fn get_net(&self) -> (net: &Net)
        ensures
            net@ == self@.net,
            net@.sound(),
    {
        self.net.attest();
        &self.net
    }

    /// The net, for the caller to build on. The statistics stay as they
    /// are.
    pub fn get_net_mut(&mut self) -> (net: &mut Net)
        ensures
            net@ == old(self)@.net,
            net@.sound(),
            final(self)@ == (RuntimeModel { net: final(net)@, ..old(self)@ }),
    {
        self.net.attest();
        &mut self.net
    }

    /// The statistics.
    pub fn get_stats(&self) -> (stats: &RuntimeStats)
        ensures
            stats.steps == self@.steps,
            stats.max_nodes == self@.max_nodes,
    {
        &self.stats
    }
}

/// The text `head` followed by the text `tail`.
fn prefixed(head: &str, tail: &str) -> (s: String)
    ensures
        s@ == head@ + tail@,
{
    let mut s = String::from_str(head);
    s.append(tail);
    s
}

} // verus!
