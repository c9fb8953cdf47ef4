//! Duplication of the part of a net that hangs off one agent.
//!
//! The copy is made with a work list, so that a template of any depth, with
//! any sharing and any cycle, is copied without recursion: an agent is
//! copied when it is first met, and each of its wired slots leaves a task
//! that wires the copy once the agent at the other end has a copy too.

use vstd::prelude::*;
use std::collections::HashMap;
use crate::copy_laws::{copied, law_clone, law_clone_extends};
use crate::model::{Agent, NetModel};
use crate::net::{Net, Node, NodeId, Port};
use crate::wiring::{lemma_connect_frame, lemma_connect_len, lemma_create};

verus! {

/// A wire still to be made in the copy: slot `slot` of the fresh agent
/// `copy` is to be wired as that slot of the agent `source` it copies is,
/// which is to `target`.
#[derive(Debug, Clone, Copy)]
pub struct Task {
    pub source: NodeId,
    pub copy: NodeId,
    pub slot: usize,
    pub target: Port,
}

/// The state of a copy under way.
pub struct CopyState {
    /// The net, with the copies made so far.
    pub net: NetModel,
    /// How many agents the net had before the copy began. Only these are
    /// copied.
    pub base: NodeId,
    /// The copy of every agent copied so far.
    pub seen: Map<NodeId, NodeId>,
    /// The wires still to be made, the next one last.
    pub tasks: Seq<Task>,
}

/// How many of the first `base` agents have no copy yet.
pub open spec fn unseen(seen: Map<NodeId, NodeId>, base: nat) -> nat
    decreases base,
{
    if base == 0 {
        0
    } else {
        unseen(seen, (base - 1) as nat) + if seen.contains_key((base - 1) as NodeId) {
            0nat
        } else {
            1nat
        }
    }
}

/// The task that slot `slot` of `agent` leaves for its copy, if it is wired.
pub open spec fn slot_task(agent: Agent, source: NodeId, copy: NodeId, slot: usize) -> Seq<
    Task,
> {
    if agent.has_slot(slot) && !agent.port(slot).is_null() {
        seq![Task { source, copy, slot, target: agent.port(slot) }]
    } else {
        Seq::empty()
    }
}

/// The tasks that `agent` leaves for its copy: one for each wired slot, the
/// one of slot 0 last.
pub open spec fn agent_tasks(agent: Agent, source: NodeId, copy: NodeId) -> Seq<Task> {
    slot_task(agent, source, copy, 2) + slot_task(agent, source, copy, 1) + slot_task(
        agent,
        source,
        copy,
        0,
    )
}

impl CopyState {
    /// Copies agent `id`: a fresh agent of the same kind joins the net,
    /// unwired, and its wires are left as tasks.
    pub open spec fn visit(self, id: NodeId) -> CopyState {
        let copy = self.net.agents.len() as NodeId;
        let agent = self.net.agents[id as int];
        CopyState {
            net: self.net.create(agent),
            base: self.base,
            seen: self.seen.insert(id, copy),
            tasks: self.tasks + agent_tasks(agent, id, copy),
        }
    }

    /// Carries out the last task: the agent it leads to is copied if it has
    /// no copy yet, and the wire is made unless the other end has made it
    /// already. A task that leads outside the first `base` agents is
    /// dropped.
    pub open spec fn step(self) -> CopyState {
        let task = self.tasks.last();
        let rest = CopyState { tasks: self.tasks.drop_last(), ..self };
        let y = task.target.node;
        if y < self.base {
            let st = if rest.seen.contains_key(y) {
                rest
            } else {
                rest.visit(y)
            };
            let end = Port { node: st.seen[y], slot: task.target.slot };
            if st.net.port(task.copy, task.slot) == end {
                st
            } else {
                CopyState { net: st.net.connect(task.copy, task.slot, end.node, end.slot), ..st }
            }
        } else {
            rest
        }
    }

    /// Carries out tasks until none is left.
    pub open spec fn run(self) -> CopyState
        decreases unseen(self.seen, self.base as nat), self.tasks.len(),
    {
        if self.tasks.len() == 0 {
            self
        } else {
            proof {
                lemma_step_decreases(self);
            }
            self.step().run()
        }
    }

    /// Every task names a port of the net.
    pub open spec fn addressed(self) -> bool {
        &&& self.net.shaped()
        &&& self.base <= self.net.agents.len()
        &&& forall|i: int|
            0 <= i < self.tasks.len() ==> self.net.has_port(
                (#[trigger] self.tasks[i]).copy,
                self.tasks[i].slot,
            )
    }
}

/// Giving a copy to an agent that had none leaves one agent fewer without.
pub proof fn lemma_unseen_insert(seen: Map<NodeId, NodeId>, base: nat, id: NodeId, copy: NodeId)
    requires
        base <= usize::MAX,
    ensures
        unseen(seen.insert(id, copy), base) == unseen(seen, base) - if id < base
            && !seen.contains_key(id) {
            1int
        } else {
            0int
        },
    decreases base,
{
    if base > 0 {
        lemma_unseen_insert(seen, (base - 1) as nat, id, copy);
    }
}

/// A step either copies an agent or uses up a task.
pub proof fn lemma_step_decreases(st: CopyState)
    requires
        st.tasks.len() > 0,
    ensures
        st.step().base == st.base,
        unseen(st.step().seen, st.base as nat) < unseen(st.seen, st.base as nat) || (unseen(
            st.step().seen,
            st.base as nat,
        ) == unseen(st.seen, st.base as nat) && st.step().tasks.len() < st.tasks.len()),
{
    let task = st.tasks.last();
    let y = task.target.node;
    if y < st.base && !st.seen.contains_key(y) {
        lemma_unseen_insert(st.seen, st.base as nat, y, st.net.agents.len() as NodeId);
    }
}

/// Copying an agent keeps every task addressed.
pub proof fn lemma_visit_addressed(st: CopyState, id: NodeId)
    requires
        st.addressed(),
        id < st.net.agents.len(),
        st.visit(id).net.agents.len() <= usize::MAX,
    ensures
        st.visit(id).addressed(),
{
    let next = st.visit(id);
    let agent = st.net.agents[id as int];
    let copy = st.net.agents.len() as NodeId;
    lemma_create(st.net, agent);
    assert forall|i: int| 0 <= i < next.tasks.len() implies next.net.has_port(
        (#[trigger] next.tasks[i]).copy,
        next.tasks[i].slot,
    ) by {
        if i < st.tasks.len() {
            assert(next.tasks[i] == st.tasks[i]);
            assert(st.net.has_port(st.tasks[i].copy, st.tasks[i].slot));
            assert(next.net.agents[st.tasks[i].copy as int] == st.net.agents[st.tasks[i].copy as int]);
        } else {
            assert(next.net.agents[copy as int] == agent.cleared());
            assert(next.tasks[i].copy == copy);
            assert(agent.has_slot(next.tasks[i].slot));
        }
    }
}

/// A step keeps every task addressed.
pub proof fn lemma_step_addressed(st: CopyState)
    requires
        st.addressed(),
        st.tasks.len() > 0,
        st.step().net.agents.len() <= usize::MAX,
    ensures
        st.step().addressed(),
{
    let task = st.tasks.last();
    let rest = CopyState { tasks: st.tasks.drop_last(), ..st };
    let y = task.target.node;
    assert(st.net.has_port(task.copy, task.slot));
    assert forall|i: int| 0 <= i < rest.tasks.len() implies rest.net.has_port(
        (#[trigger] rest.tasks[i]).copy,
        rest.tasks[i].slot,
    ) by {
        assert(rest.tasks[i] == st.tasks[i]);
    }
    if y < st.base {
        let mid = if rest.seen.contains_key(y) {
            rest
        } else {
            rest.visit(y)
        };
        let end = Port { node: mid.seen[y], slot: task.target.slot };
        lemma_connect_len(mid.net, task.copy, task.slot, end.node, end.slot);
        if !rest.seen.contains_key(y) {
            lemma_visit_addressed(rest, y);
        }
        lemma_connect_frame(mid.net, task.copy, task.slot, end.node, end.slot);
        let next = st.step();
        assert forall|i: int| 0 <= i < next.tasks.len() implies next.net.has_port(
            (#[trigger] next.tasks[i]).copy,
            next.tasks[i].slot,
        ) by {
            assert(mid.net.has_port(mid.tasks[i].copy, mid.tasks[i].slot));
        }
    }
}

impl NetModel {
    /// The state in which the copy of the part that hangs off `root` begins:
    /// `root` has its copy, and nothing else has.
    pub open spec fn copy_start(self, root: NodeId) -> CopyState {
        (CopyState {
            net: self,
            base: self.agents.len() as NodeId,
            seen: Map::empty(),
            tasks: Seq::empty(),
        }).visit(root)
    }

    /// The net with a copy of the part that hangs off `root` added to it.
    pub open spec fn clone_subgraph(self, root: NodeId) -> NetModel {
        self.copy_start(root).run().net
    }

    /// Which agent was copied to which.
    pub open spec fn clone_map(self, root: NodeId) -> Map<NodeId, NodeId> {
        self.copy_start(root).run().seen
    }
}

impl Net {
    /// Adds to the net a copy of everything that can be reached from `root`
    /// along wires, and returns the handle of the copy of `root`, which is the
    /// first agent added.
    ///
    /// In a net that keeps the wiring invariant the result is a copy as
    /// `copied` says: every agent reached is copied once, however many wires
    /// lead to it and whatever cycles they form; the copies are wired to each
    /// other as the agents they copy are; and nothing that was there is
    /// touched. In any net the result is the one that the work list arrives
    /// at, and no agent that was there is lost.
    pub fn clone_subgraph(&mut self, root: NodeId) -> (copy: NodeId)
        requires
            root < old(self)@.agents.len(),
        ensures
            copy == old(self)@.agents.len(),
            old(self)@.wired() ==> copied(
                old(self)@,
                root,
                final(self)@,
                old(self)@.clone_map(root),
            ),
            final(self)@ == old(self)@.clone_subgraph(root),
            final(self)@.extends(old(self)@),
            final(self)@.sound(),
    {
        let base = self.node_count();
        let mut seen: HashMap<NodeId, NodeId> = HashMap::new();
        let mut tasks: Vec<Task> = Vec::new();
        let copy = self.clone_node(root, &mut seen, &mut tasks);
        proof {
            old(self).lemma_shaped();
            self.lemma_shaped();
            lemma_visit_addressed(
                CopyState { net: old(self)@, base, seen: Map::empty(), tasks: Seq::empty() },
                root,
            );
        }
        assert(seen@ =~= old(self)@.copy_start(root).seen);
        assert(tasks@ =~= old(self)@.copy_start(root).tasks);
        while tasks.len() > 0
            invariant
                (CopyState { net: self@, base, seen: seen@, tasks: tasks@ }).addressed(),
                (CopyState { net: self@, base, seen: seen@, tasks: tasks@ }).run() == old(
                    self,
                )@.copy_start(root).run(),
            decreases unseen(seen@, base as nat), tasks.len(),
        {
            let ghost before = CopyState { net: self@, base, seen: seen@, tasks: tasks@ };
            proof {
                self.lemma_shaped();
            }
            let task = tasks.pop().unwrap();
            let target = task.target.node;
            if target < base {
                let found = match seen.get(&target) {
                    Some(c) => *c,
                    None => self.clone_node(target, &mut seen, &mut tasks),
                };
                let end = Port::new(found, task.target.slot);
                if self.port_at(task.copy, task.slot) != end {
                    let _ = self.connect(task.copy, task.slot, end.node, end.slot);
                }
            }
            proof {
                self.lemma_shaped();
                lemma_step_decreases(before);
                lemma_step_addressed(before);
                assert(seen@ =~= before.step().seen);
                assert(tasks@ =~= before.step().tasks);
                assert((CopyState { net: self@, base, seen: seen@, tasks: tasks@ })
                    == before.step());
            }
        }
        proof {
            old(self).lemma_shaped();
            self.lemma_shaped();
            law_clone_extends(old(self)@, root);
            if old(self)@.wired() {
                law_clone(old(self)@, root);
            }
        }
        self.attest();
        copy
    }

    /// Gives agent `id` a copy: a fresh agent of the same kind, unwired, whose
    /// wires are left as tasks.
    fn clone_node(
        &mut self,
        id: NodeId,
        seen: &mut HashMap<NodeId, NodeId>,
        tasks: &mut Vec<Task>,
    ) -> (copy: NodeId)
        requires
            id < old(self)@.agents.len(),
        ensures
            copy == old(self)@.agents.len(),
            final(self)@ == old(self)@.create(old(self)@.agents[id as int]),
            final(seen)@ == old(seen)@.insert(id, copy),
            final(tasks)@ == old(tasks)@ + agent_tasks(old(self)@.agents[id as int], id, copy),
    {
        let copy = self.node_count();
        let node = self.get_node(id).clone();
        push_task(tasks, &node, id, copy, 2);
        push_task(tasks, &node, id, copy, 1);
        push_task(tasks, &node, id, copy, 0);
        assert(tasks@ =~= old(tasks)@ + agent_tasks(node@, id, copy));
        self.create_node(node);
        seen.insert(id, copy);
        copy
    }
}

/// Leaves the task of one slot of `node`, if the slot is wired.
fn push_task(tasks: &mut Vec<Task>, node: &Node, source: NodeId, copy: NodeId, slot: usize)
    ensures
        final(tasks)@ == old(tasks)@ + slot_task(node@, source, copy, slot),
{
    if node.has_slot(slot) {
        let target = node.port(slot);
        if !target.is_null() {
            tasks.push(Task { source, copy, slot, target });
        }
    }
}

} // verus!
