//! What holds of the copy that `clone_subgraph` makes, proved from the
//! definition of the copy.

use vstd::prelude::*;
use crate::copy::{
    agent_tasks,
    lemma_step_addressed,
    lemma_step_decreases,
    lemma_visit_addressed,
    slot_task,
    unseen,
    CopyState,
    Task,
};
use crate::model::{reducible, Agent, NetModel};
use crate::net::{NodeId, Port, Redex, PRINCIPAL};
use crate::wiring::{
    law_connect_touches,
    lemma_connect_frame,
    lemma_connect_len,
    lemma_connect_unwired,
    lemma_connect_wired,
    lemma_connect_extends,
    lemma_create,
    lemma_create_extends,
    lemma_extends_twice,
};

verus! {

/// Whether some wired slot of agent `x` leads to agent `y`.
pub open spec fn wire(n: NetModel, x: NodeId, y: NodeId) -> bool {
    exists|s: usize|
        n.has_port(x, s) && !(#[trigger] n.port(x, s)).is_null() && n.port(x, s).node == y
}

/// Whether each agent of the sequence has a wire to the next.
pub open spec fn path(n: NetModel, p: Seq<NodeId>) -> bool {
    &&& p.len() > 0
    &&& forall|i: int| 0 <= i < p.len() - 1 ==> wire(n, #[trigger] p[i], p[i + 1])
}

/// Whether agent `x` can be reached from `root` along wires.
pub open spec fn reaches(n: NetModel, root: NodeId, x: NodeId) -> bool {
    exists|p: Seq<NodeId>| #[trigger] path(n, p) && p[0] == root && p.last() == x
}

/// Every agent reaches itself.
pub proof fn lemma_reaches_self(n: NetModel, root: NodeId)
    ensures
        reaches(n, root, root),
{
    let p = seq![root];
    assert(path(n, p));
    assert(p[0] == root && p.last() == root);
}

/// What is wired to an agent that can be reached can be reached.
pub proof fn lemma_reaches_step(n: NetModel, root: NodeId, x: NodeId, s: usize)
    requires
        reaches(n, root, x),
        n.has_port(x, s),
        !n.port(x, s).is_null(),
    ensures
        reaches(n, root, n.port(x, s).node),
{
    let p = choose|p: Seq<NodeId>| #[trigger] path(n, p) && p[0] == root && p.last() == x;
    let y = n.port(x, s).node;
    let q = p.push(y);
    assert(wire(n, x, y));
    assert forall|i: int| 0 <= i < q.len() - 1 implies wire(n, #[trigger] q[i], q[i + 1]) by {
        if i < p.len() - 1 {
            assert(q[i] == p[i]);
            assert(q[i + 1] == p[i + 1]);
            assert(wire(n, p[i], p[i + 1]));
        } else {
            assert(q[i] == x);
            assert(q[i + 1] == y);
        }
    }
    assert(path(n, q));
    assert(q[0] == root && q.last() == y);
}

/// A task is in order: it stands for a wired slot of an agent that has its
/// copy.
pub open spec fn task_ok(n: NetModel, seen: Map<NodeId, NodeId>, t: Task) -> bool {
    &&& seen.contains_key(t.source)
    &&& t.copy == seen[t.source]
    &&& n.has_port(t.source, t.slot)
    &&& t.target == n.port(t.source, t.slot)
    &&& !t.target.is_null()
}

/// Every task is in order.
pub open spec fn tasked(n: NetModel, seen: Map<NodeId, NodeId>, all: Seq<Task>) -> bool {
    forall|i: int| 0 <= i < all.len() ==> task_ok(n, seen, #[trigger] all[i])
}

/// Some task stands for slot `s` of agent `x`.
pub open spec fn awaited(all: Seq<Task>, x: NodeId, s: usize) -> bool {
    exists|i: int| 0 <= i < all.len() && (#[trigger] all[i]).source == x && all[i].slot == s
}

/// Slot `s` of the copy of `x` is as far as it should be: unwired where the
/// slot of `x` is; else wired to the copy of what the slot of `x` is wired
/// to, or still unwired with a task that stands for it.
pub open spec fn slot_ok(
    n: NetModel,
    net: NetModel,
    seen: Map<NodeId, NodeId>,
    all: Seq<Task>,
    x: NodeId,
    s: usize,
) -> bool {
    let p = n.port(x, s);
    let q = net.port(seen[x], s);
    if p.is_null() {
        q.is_null()
    } else {
        ||| (seen.contains_key(p.node) && q == Port { node: seen[p.node], slot: p.slot })
        ||| (q.is_null() && awaited(all, x, s))
    }
}

/// Every slot of every copy is as far as it should be.
pub open spec fn slotted(
    n: NetModel,
    net: NetModel,
    seen: Map<NodeId, NodeId>,
    all: Seq<Task>,
) -> bool {
    forall|x: NodeId, s: usize|
        #![trigger slot_ok(n, net, seen, all, x, s)]
        seen.contains_key(x) && n.has_port(x, s) ==> slot_ok(n, net, seen, all, x, s)
}

/// Whether the pair is an active pair of agents added to `n`: two added
/// agents whose principal ports are wired to each other and whose kinds
/// have a rule.
pub open spec fn added_pair(n: NetModel, net: NetModel, pair: Redex) -> bool {
    &&& n.agents.len() <= pair.a < net.agents.len()
    &&& n.agents.len() <= pair.b < net.agents.len()
    &&& net.port(pair.a, PRINCIPAL) == Port { node: pair.b, slot: PRINCIPAL }
    &&& net.port(pair.b, PRINCIPAL) == Port { node: pair.a, slot: PRINCIPAL }
    &&& reducible(net.kind(pair.a), net.kind(pair.b))
}

/// The net `net` has grown out of `n`: the agents of `n` are there
/// untouched, so are its bindings and its pending pairs, and every pending
/// pair that was added is an active pair of added agents.
pub open spec fn grown(n: NetModel, net: NetModel) -> bool {
    &&& net.wired()
    &&& n.agents.len() <= net.agents.len()
    &&& net.bindings == n.bindings
    &&& forall|x: int| 0 <= x < n.agents.len() ==> #[trigger] net.agents[x] == n.agents[x]
    &&& n.pending.len() <= net.pending.len()
    &&& forall|i: int| 0 <= i < n.pending.len() ==> #[trigger] net.pending[i] == n.pending[i]
    &&& forall|i: int|
        n.pending.len() <= i < net.pending.len() ==> added_pair(n, net, #[trigger] net.pending[i])
}

/// Whether the pair has `c` for one of its agents.
pub open spec fn involves(pair: Redex, c: NodeId) -> bool {
    pair.a == c || pair.b == c
}

/// Whether the principal port of `c` is wired to a principal port, and the
/// kinds of the two agents have a rule.
pub open spec fn active(net: NetModel, c: NodeId) -> bool {
    let q = net.port(c, PRINCIPAL);
    !q.is_null() && q.slot == PRINCIPAL && reducible(net.kind(c), net.kind(q.node))
}

/// Whether some pending pair added to those of `n` has `c` for one of its
/// agents.
pub open spec fn queued_with(n: NetModel, net: NetModel, c: NodeId) -> bool {
    exists|i: int|
        n.pending.len() <= i < net.pending.len() && involves(#[trigger] net.pending[i], c)
}

/// The active pairs among the agents added to `n` are pending, each of them
/// once: every added agent whose principal port makes an active pair is in
/// an added pending pair, and no two added pending pairs have an agent in
/// common.
pub open spec fn queued(n: NetModel, net: NetModel) -> bool {
    &&& forall|c: NodeId|
        n.agents.len() <= c < net.agents.len() && #[trigger] active(net, c) ==> queued_with(
            n,
            net,
            c,
        )
    &&& forall|i: int, j: int|
        n.pending.len() <= i < j < net.pending.len() ==> !involves(
            #[trigger] net.pending[i],
            (#[trigger] net.pending[j]).a,
        ) && !involves(net.pending[i], net.pending[j].b)
}

/// Some agent has `c` for its copy.
pub open spec fn has_origin(seen: Map<NodeId, NodeId>, c: NodeId) -> bool {
    exists|x: NodeId| seen.contains_key(x) && #[trigger] seen[x] == c
}

/// The agents copied so far are agents of `n` that can be reached from
/// `root`; their copies are added agents of the same kind, one for each; and
/// every added agent is a copy.
pub open spec fn mapped(n: NetModel, root: NodeId, net: NetModel, seen: Map<NodeId, NodeId>) -> bool {
    &&& forall|x: NodeId| #[trigger]
        seen.contains_key(x) ==> x < n.agents.len() && n.agents.len() <= seen[x] < net.agents.len()
            && net.kind(seen[x]) == n.kind(x) && reaches(n, root, x)
    &&& forall|x: NodeId, y: NodeId|
        #![trigger seen[x], seen[y]]
        seen.contains_key(x) && seen.contains_key(y) && seen[x] == seen[y] ==> x == y
    &&& forall|c: NodeId| n.agents.len() <= c < net.agents.len() ==> #[trigger] has_origin(seen, c)
}

/// What holds all through the copy of the part of `n` that hangs off
/// `root`. The tasks are those of the work list together with `hole`, the
/// task being carried out, if any.
pub open spec fn copying(n: NetModel, root: NodeId, st: CopyState, hole: Seq<Task>) -> bool {
    &&& n.wired()
    &&& root < n.agents.len()
    &&& st.base == n.agents.len()
    &&& grown(n, st.net)
    &&& queued(n, st.net)
    &&& mapped(n, root, st.net, st.seen)
    &&& tasked(n, st.seen, hole + st.tasks)
    &&& slotted(n, st.net, st.seen, hole + st.tasks)
}

/// The tasks that an agent leaves stand for its wired slots, each of them.
proof fn lemma_agent_tasks(agent: Agent, source: NodeId, copy: NodeId)
    ensures
        forall|j: int|
            0 <= j < agent_tasks(agent, source, copy).len() ==> {
                let t = #[trigger] agent_tasks(agent, source, copy)[j];
                &&& t.source == source
                &&& t.copy == copy
                &&& agent.has_slot(t.slot)
                &&& t.target == agent.port(t.slot)
                &&& !t.target.is_null()
            },
        forall|s: usize|
            agent.has_slot(s) && !agent.port(s).is_null() ==> #[trigger] awaited(
                agent_tasks(agent, source, copy),
                source,
                s,
            ),
{
    let a = slot_task(agent, source, copy, 2);
    let b = slot_task(agent, source, copy, 1);
    let c = slot_task(agent, source, copy, 0);
    let all = agent_tasks(agent, source, copy);
    assert(all == a + b + c);
    assert forall|s: usize| agent.has_slot(s) && !agent.port(s).is_null() implies #[trigger] awaited(
        all,
        source,
        s,
    ) by {
        if s == 2 {
            assert(all[0].source == source && all[0].slot == s);
        } else if s == 1 {
            assert(all[a.len() as int].source == source && all[a.len() as int].slot == s);
        } else {
            assert(s == 0);
            let k = (a.len() + b.len()) as int;
            assert(all[k].source == source && all[k].slot == s);
        }
    }
}

/// Taking the next task off the work list to carry it out keeps what holds.
proof fn lemma_pop(n: NetModel, root: NodeId, st: CopyState)
    requires
        copying(n, root, st, Seq::empty()),
        st.tasks.len() > 0,
    ensures
        copying(
            n,
            root,
            CopyState { tasks: st.tasks.drop_last(), ..st },
            seq![st.tasks.last()],
        ),
{
    let rest = CopyState { tasks: st.tasks.drop_last(), ..st };
    let all0 = Seq::<Task>::empty() + st.tasks;
    let all1 = seq![st.tasks.last()] + rest.tasks;
    assert(all0 =~= st.tasks);
    assert forall|i: int| 0 <= i < all1.len() implies task_ok(n, st.seen, #[trigger] all1[i]) by {
        if i == 0 {
            assert(all1[0] == all0[st.tasks.len() - 1]);
        } else {
            assert(all1[i] == all0[i - 1]);
        }
    }
    assert forall|x: NodeId, s: usize|
        #![trigger slot_ok(n, st.net, st.seen, all1, x, s)]
        st.seen.contains_key(x) && n.has_port(x, s) implies slot_ok(
        n,
        st.net,
        st.seen,
        all1,
        x,
        s,
    ) by {
        assert(slot_ok(n, st.net, st.seen, all0, x, s));
        if awaited(all0, x, s) {
            let i = choose|i: int|
                0 <= i < all0.len() && (#[trigger] all0[i]).source == x && all0[i].slot == s;
            if i == all0.len() - 1 {
                assert(all1[0].source == x && all1[0].slot == s);
            } else {
                assert(all1[i + 1] == all0[i]);
                assert(all1[i + 1].source == x && all1[i + 1].slot == s);
            }
            assert(awaited(all1, x, s));
        }
    }
}

/// Copying an agent that can be reached and has no copy yet keeps what
/// holds.
proof fn lemma_visit(n: NetModel, root: NodeId, st: CopyState, hole: Seq<Task>, y: NodeId)
    requires
        copying(n, root, st, hole),
        y < n.agents.len(),
        !st.seen.contains_key(y),
        reaches(n, root, y),
        st.net.agents.len() < usize::MAX,
    ensures
        copying(n, root, st.visit(y), hole),
{
    let agent = st.net.agents[y as int];
    assert(agent == n.agents[y as int]);
    let copy = st.net.agents.len() as NodeId;
    let next = st.visit(y);
    lemma_create(st.net, agent);
    lemma_agent_tasks(agent, y, copy);
    let fresh = agent_tasks(agent, y, copy);
    let all0 = hole + st.tasks;
    let all1 = hole + next.tasks;
    assert(all1 =~= all0 + fresh);
    assert(grown(n, next.net)) by {
        assert forall|x: int| 0 <= x < n.agents.len() implies #[trigger] next.net.agents[x]
            == n.agents[x] by {
            assert(st.net.agents[x] == n.agents[x]);
        }
        assert forall|i: int| n.pending.len() <= i < next.net.pending.len() implies added_pair(
            n,
            next.net,
            #[trigger] next.net.pending[i],
        ) by {
            let pair = st.net.pending[i];
            assert(next.net.pending[i] == pair);
            assert(added_pair(n, st.net, pair));
            assert(next.net.port(pair.a, PRINCIPAL) == st.net.port(pair.a, PRINCIPAL));
            assert(next.net.port(pair.b, PRINCIPAL) == st.net.port(pair.b, PRINCIPAL));
            assert(next.net.kind(pair.a) == st.net.kind(pair.a));
            assert(next.net.kind(pair.b) == st.net.kind(pair.b));
        }
    }
    assert(queued(n, next.net)) by {
        assert forall|c: NodeId|
            n.agents.len() <= c < next.net.agents.len() && #[trigger] active(
                next.net,
                c,
            ) implies queued_with(n, next.net, c) by {
            if c == copy {
                assert(next.net.port(copy, PRINCIPAL).is_null());
            } else {
                let q = st.net.port(c, PRINCIPAL);
                assert(next.net.port(c, PRINCIPAL) == q);
                assert(next.net.kind(c) == st.net.kind(c));
                assert(st.net.has_port(c, PRINCIPAL));
                assert(st.net.paired(c, PRINCIPAL));
                assert(next.net.kind(q.node) == st.net.kind(q.node));
                assert(active(st.net, c));
                assert(queued_with(n, st.net, c));
                let i = choose|i: int|
                    n.pending.len() <= i < st.net.pending.len() && involves(
                        #[trigger] st.net.pending[i],
                        c,
                    );
                assert(involves(next.net.pending[i], c));
            }
        }
    }
    assert(mapped(n, root, next.net, next.seen)) by {
        assert forall|x: NodeId| #[trigger] next.seen.contains_key(x) implies x < n.agents.len()
            && n.agents.len() <= next.seen[x] < next.net.agents.len() && next.net.kind(next.seen[x])
            == n.kind(x) && reaches(n, root, x) by {
            if x != y {
                assert(st.seen.contains_key(x));
                assert(next.net.kind(st.seen[x]) == st.net.kind(st.seen[x]));
            }
        }
        assert forall|x: NodeId, z: NodeId|
            #![trigger next.seen[x], next.seen[z]]
            next.seen.contains_key(x) && next.seen.contains_key(z) && next.seen[x]
                == next.seen[z] implies x == z by {
            if x != y {
                assert(st.seen.contains_key(x));
            }
            if z != y {
                assert(st.seen.contains_key(z));
            }
        }
        assert forall|c: NodeId| n.agents.len() <= c < next.net.agents.len() implies #[trigger] has_origin(
            next.seen,
            c,
        ) by {
            if c == copy {
                assert(next.seen.contains_key(y) && next.seen[y] == c);
            } else {
                assert(has_origin(st.seen, c));
                let x = choose|x: NodeId| st.seen.contains_key(x) && #[trigger] st.seen[x] == c;
                assert(next.seen.contains_key(x) && next.seen[x] == c);
            }
        }
    }
    assert(tasked(n, next.seen, all1)) by {
        assert forall|i: int| 0 <= i < all1.len() implies task_ok(
            n,
            next.seen,
            #[trigger] all1[i],
        ) by {
            if i < all0.len() {
                assert(all1[i] == all0[i]);
                assert(task_ok(n, st.seen, all0[i]));
            } else {
                assert(all1[i] == fresh[i - all0.len()]);
            }
        }
    }
    assert(slotted(n, next.net, next.seen, all1)) by {
        assert forall|x: NodeId, s: usize|
            #![trigger slot_ok(n, next.net, next.seen, all1, x, s)]
            next.seen.contains_key(x) && n.has_port(x, s) implies slot_ok(
            n,
            next.net,
            next.seen,
            all1,
            x,
            s,
        ) by {
            let p = n.port(x, s);
            if x == y {
                assert(next.net.port(copy, s).is_null());
                if !p.is_null() {
                    assert(awaited(fresh, y, s));
                    let j = choose|j: int|
                        0 <= j < fresh.len() && (#[trigger] fresh[j]).source == y && fresh[j].slot
                            == s;
                    assert(all1[all0.len() + j] == fresh[j]);
                    assert(awaited(all1, x, s));
                }
            } else {
                assert(st.seen.contains_key(x));
                assert(slot_ok(n, st.net, st.seen, all0, x, s));
                assert(next.net.port(st.seen[x], s) == st.net.port(st.seen[x], s));
                if !p.is_null() && awaited(all0, x, s) {
                    let i = choose|i: int|
                        0 <= i < all0.len() && (#[trigger] all0[i]).source == x && all0[i].slot
                            == s;
                    assert(all1[i] == all0[i]);
                    assert(awaited(all1, x, s));
                }
            }
        }
    }
}

/// The state after the wire of `task` has been made, unless it was there.
pub open spec fn joined(st: CopyState, task: Task) -> CopyState {
    let end = Port { node: st.seen[task.target.node], slot: task.target.slot };
    if st.net.port(task.copy, task.slot) == end {
        st
    } else {
        CopyState { net: st.net.connect(task.copy, task.slot, end.node, end.slot), ..st }
    }
}

/// Making the wire of the task being carried out keeps what holds, and
/// leaves no task being carried out.
proof fn lemma_join(n: NetModel, root: NodeId, st: CopyState, task: Task)
    requires
        copying(n, root, st, seq![task]),
        st.seen.contains_key(task.target.node),
    ensures
        copying(n, root, joined(st, task), Seq::empty()),
{
    let hole = seq![task];
    let all0 = hole + st.tasks;
    let all1 = Seq::<Task>::empty() + st.tasks;
    assert(all1 =~= st.tasks);
    assert(all0[0] == task);
    assert(task_ok(n, st.seen, all0[0]));
    let x = task.source;
    let s = task.slot;
    let y = task.target.node;
    let t = task.target.slot;
    let from = st.seen[x];
    let to = st.seen[y];
    let end = Port { node: to, slot: t };
    assert(n.paired(x, s));
    assert(n.has_port(y, t));
    assert(n.port(y, t) == Port { node: x, slot: s });
    assert(slot_ok(n, st.net, st.seen, all0, x, s));
    assert(slot_ok(n, st.net, st.seen, all0, y, t));
    let next = joined(st, task);
    assert(st.net.agents[from as int].kind == n.agents[x as int].kind) by {
        assert(st.net.kind(from) == n.kind(x));
    }
    assert(st.net.agents[to as int].kind == n.agents[y as int].kind) by {
        assert(st.net.kind(to) == n.kind(y));
    }
    assert(st.net.has_port(from, s));
    assert(st.net.has_port(to, t));
    assert(tasked(n, next.seen, all1)) by {
        assert forall|i: int| 0 <= i < all1.len() implies task_ok(
            n,
            next.seen,
            #[trigger] all1[i],
        ) by {
            assert(all1[i] == all0[i + 1]);
        }
    }
    if st.net.port(from, s) == end {
        assert(slotted(n, next.net, next.seen, all1)) by {
            assert forall|x1: NodeId, s1: usize|
                #![trigger slot_ok(n, next.net, next.seen, all1, x1, s1)]
                next.seen.contains_key(x1) && n.has_port(x1, s1) implies slot_ok(
                n,
                next.net,
                next.seen,
                all1,
                x1,
                s1,
            ) by {
                assert(slot_ok(n, st.net, st.seen, all0, x1, s1));
                if !n.port(x1, s1).is_null() && awaited(all0, x1, s1) && st.net.port(
                    st.seen[x1],
                    s1,
                ).is_null() {
                    let i = choose|i: int|
                        0 <= i < all0.len() && (#[trigger] all0[i]).source == x1 && all0[i].slot
                            == s1;
                    assert(i > 0);
                    assert(all1[i - 1] == all0[i]);
                    assert(all1[i - 1].source == x1 && all1[i - 1].slot == s1);
                    assert(awaited(all1, x1, s1));
                }
            }
        }
    } else {
        assert(st.net.port(from, s).is_null());
        if !st.net.port(to, t).is_null() {
            assert(st.net.paired(to, t));
            assert(false);
        }
        lemma_connect_unwired(st.net, from, s, to, t);
        lemma_connect_frame(st.net, from, s, to, t);
        lemma_connect_wired(st.net, from, s, to, t);
        assert(grown(n, next.net)) by {
            assert forall|z: int| 0 <= z < n.agents.len() implies #[trigger] next.net.agents[z]
                == n.agents[z] by {
                assert(st.net.agents[z] == n.agents[z]);
                assert(next.net.agents[z] == st.net.agents[z]);
            }
            assert forall|i: int| 0 <= i < n.pending.len() implies #[trigger] next.net.pending[i]
                == n.pending[i] by {
                assert(st.net.pending[i] == n.pending[i]);
            }
            assert forall|i: int|
                n.pending.len() <= i < next.net.pending.len() implies added_pair(
                n,
                next.net,
                #[trigger] next.net.pending[i],
            ) by {
                let pair = next.net.pending[i];
                assert(next.net.kind(from) == st.net.kind(from));
                assert(next.net.kind(to) == st.net.kind(to));
                assert(next.net.port(from, s) == end);
                assert(next.net.port(to, t) == Port { node: from, slot: s });
                if i < st.net.pending.len() {
                    assert(pair == st.net.pending[i]);
                    assert(added_pair(n, st.net, pair));
                    assert(next.net.kind(pair.a) == st.net.kind(pair.a));
                    assert(next.net.kind(pair.b) == st.net.kind(pair.b));
                    assert(next.net.port(pair.a, PRINCIPAL) == st.net.port(pair.a, PRINCIPAL));
                    assert(next.net.port(pair.b, PRINCIPAL) == st.net.port(pair.b, PRINCIPAL));
                } else {
                    reveal(NetModel::connect);
                    assert(pair == Redex { a: from, b: to });
                }
            }
        }
        assert(queued(n, next.net)) by {
            reveal(NetModel::connect);
            let pushed = s == PRINCIPAL && t == PRINCIPAL && reducible(
                st.net.kind(from),
                st.net.kind(to),
            );
            assert(next.net.pending == if pushed {
                st.net.pending.push(Redex { a: from, b: to })
            } else {
                st.net.pending
            });
            assert(next.net.kind(from) == st.net.kind(from));
            assert(next.net.kind(to) == st.net.kind(to));
            assert(next.net.port(from, s) == end);
            assert(next.net.port(to, t) == Port { node: from, slot: s });
            assert forall|c: NodeId|
                n.agents.len() <= c < next.net.agents.len() && #[trigger] active(
                    next.net,
                    c,
                ) implies queued_with(n, next.net, c) by {
                let q = next.net.port(c, PRINCIPAL);
                assert(next.net.kind(c) == st.net.kind(c));
                assert(st.net.has_port(c, PRINCIPAL));
                assert(next.net.has_port(c, PRINCIPAL));
                assert(next.net.paired(c, PRINCIPAL));
                assert(next.net.kind(q.node) == st.net.kind(q.node));
                if (c == from && s == PRINCIPAL) || (c == to && t == PRINCIPAL) {
                    assert(pushed);
                    let i = st.net.pending.len() as int;
                    assert(involves(next.net.pending[i], c));
                } else {
                    assert(q == st.net.port(c, PRINCIPAL));
                    assert(active(st.net, c));
                    assert(queued_with(n, st.net, c));
                    let i = choose|i: int|
                        n.pending.len() <= i < st.net.pending.len() && involves(
                            #[trigger] st.net.pending[i],
                            c,
                        );
                    assert(next.net.pending[i] == st.net.pending[i]);
                    assert(involves(next.net.pending[i], c));
                }
            }
            assert forall|i: int, j: int|
                n.pending.len() <= i < j < next.net.pending.len() implies !involves(
                #[trigger] next.net.pending[i],
                (#[trigger] next.net.pending[j]).a,
            ) && !involves(next.net.pending[i], next.net.pending[j].b) by {
                assert(next.net.pending[i] == st.net.pending[i]);
                assert(added_pair(n, st.net, st.net.pending[i]));
                if j < st.net.pending.len() {
                    assert(next.net.pending[j] == st.net.pending[j]);
                }
            }
        }
        assert(mapped(n, root, next.net, next.seen)) by {
            assert forall|z: NodeId| #[trigger] next.seen.contains_key(z) implies z
                < n.agents.len() && n.agents.len() <= next.seen[z] < next.net.agents.len()
                && next.net.kind(next.seen[z]) == n.kind(z) && reaches(n, root, z) by {
                assert(next.net.kind(st.seen[z]) == st.net.kind(st.seen[z]));
            }
            assert forall|c: NodeId|
                n.agents.len() <= c < next.net.agents.len() implies #[trigger] has_origin(
                next.seen,
                c,
            ) by {
                assert(has_origin(st.seen, c));
            }
        }
        assert(slotted(n, next.net, next.seen, all1)) by {
            assert forall|x1: NodeId, s1: usize|
                #![trigger slot_ok(n, next.net, next.seen, all1, x1, s1)]
                next.seen.contains_key(x1) && n.has_port(x1, s1) implies slot_ok(
                n,
                next.net,
                next.seen,
                all1,
                x1,
                s1,
            ) by {
                assert(slot_ok(n, st.net, st.seen, all0, x1, s1));
                let c1 = st.seen[x1];
                assert(s1 < 3);
                assert(next.net.port(c1, s1) == if c1 == from && s1 == s {
                    Port { node: to, slot: t }
                } else if c1 == to && s1 == t {
                    Port { node: from, slot: s }
                } else {
                    st.net.port(c1, s1)
                });
                if c1 == from && s1 == s {
                    assert(x1 == x);
                } else if c1 == to && s1 == t {
                    assert(x1 == y);
                } else if !n.port(x1, s1).is_null() && awaited(all0, x1, s1) && st.net.port(
                    c1,
                    s1,
                ).is_null() {
                    let i = choose|i: int|
                        0 <= i < all0.len() && (#[trigger] all0[i]).source == x1 && all0[i].slot
                            == s1;
                    assert(i > 0);
                    assert(all1[i - 1] == all0[i]);
                    assert(all1[i - 1].source == x1 && all1[i - 1].slot == s1);
                    assert(awaited(all1, x1, s1));
                }
            }
        }
    }
}

/// A step keeps what holds.
proof fn lemma_step(n: NetModel, root: NodeId, st: CopyState)
    requires
        copying(n, root, st, Seq::empty()),
        st.tasks.len() > 0,
        st.step().net.agents.len() <= usize::MAX,
    ensures
        copying(n, root, st.step(), Seq::empty()),
{
    let task = st.tasks.last();
    let rest = CopyState { tasks: st.tasks.drop_last(), ..st };
    let hole = seq![task];
    lemma_pop(n, root, st);
    let all = hole + rest.tasks;
    assert(all[0] == task);
    assert(task_ok(n, rest.seen, all[0]));
    let y = task.target.node;
    assert(n.paired(task.source, task.slot));
    assert(y < st.base);
    assert(rest.seen.contains_key(task.source));
    lemma_reaches_step(n, root, task.source, task.slot);
    let mid = if rest.seen.contains_key(y) {
        rest
    } else {
        rest.visit(y)
    };
    let end = Port { node: mid.seen[y], slot: task.target.slot };
    lemma_connect_len(mid.net, task.copy, task.slot, end.node, end.slot);
    if !rest.seen.contains_key(y) {
        lemma_visit(n, root, rest, hole, y);
    }
    lemma_join(n, root, mid, task);
    assert(st.step() == joined(mid, task));
}

/// The copy leaves no task, and what holds all through it holds at its end.
proof fn lemma_run(n: NetModel, root: NodeId, st: CopyState)
    requires
        copying(n, root, st, Seq::empty()),
        st.run().net.agents.len() <= usize::MAX,
    ensures
        copying(n, root, st.run(), Seq::empty()),
        st.run().tasks.len() == 0,
    decreases unseen(st.seen, st.base as nat), st.tasks.len(),
{
    if st.tasks.len() > 0 {
        lemma_step_decreases(st);
        lemma_run_grows(st.step());
        lemma_step(n, root, st);
        lemma_run(n, root, st.step());
    }
}

/// The copy removes no agent.
pub proof fn lemma_run_grows(st: CopyState)
    ensures
        st.run().net.agents.len() >= st.net.agents.len(),
    decreases unseen(st.seen, st.base as nat), st.tasks.len(),
{
    if st.tasks.len() > 0 {
        lemma_step_decreases(st);
        lemma_run_grows(st.step());
        let task = st.tasks.last();
        let rest = CopyState { tasks: st.tasks.drop_last(), ..st };
        let y = task.target.node;
        if y < st.base {
            let mid = if rest.seen.contains_key(y) {
                rest
            } else {
                rest.visit(y)
            };
            let end = Port { node: mid.seen[y], slot: task.target.slot };
            lemma_connect_len(mid.net, task.copy, task.slot, end.node, end.slot);
        }
    }
}

/// The copy gives no agent another copy than it has.
pub proof fn lemma_run_keeps(st: CopyState)
    ensures
        forall|x: NodeId| #[trigger]
            st.seen.contains_key(x) ==> st.run().seen.contains_key(x) && st.run().seen[x]
                == st.seen[x],
    decreases unseen(st.seen, st.base as nat), st.tasks.len(),
{
    if st.tasks.len() > 0 {
        lemma_step_decreases(st);
        lemma_run_keeps(st.step());
        assert forall|x: NodeId| #[trigger] st.seen.contains_key(x) implies st.run().seen.contains_key(
            x,
        ) && st.run().seen[x] == st.seen[x] by {
            assert(st.step().seen.contains_key(x));
        }
    }
}

/// Slot `s` of the copy of `x` mirrors slot `s` of `x`: it is unwired where
/// that is, and else wired to the same slot of the copy of the agent that
/// that is wired to.
pub open spec fn mirrored(
    n: NetModel,
    r: NetModel,
    m: Map<NodeId, NodeId>,
    x: NodeId,
    s: usize,
) -> bool {
    let p = n.port(x, s);
    if p.is_null() {
        r.port(m[x], s).is_null()
    } else {
        m.contains_key(p.node) && r.port(m[x], s) == Port { node: m[p.node], slot: p.slot }
    }
}

/// The net `r` is the net `n` with a copy of the part that hangs off `root`
/// added to it, and `m` says which agent has which copy:
///
/// * the agents, bindings and pending pairs of `n` are in `r` untouched, and
///   `r` keeps the wiring invariant; the pending pairs that were added are
///   the active pairs of the copy, each of them once;
/// * the copy of `root` is the first agent added;
/// * the agents copied can be reached from `root`, their copies are added
///   agents of the same kind and payload, one for each, and nothing else was
///   added;
/// * a slot of a copy is unwired where the slot it copies is, and is else
///   wired to the same slot of the copy of the agent that the slot it copies
///   is wired to.
pub open spec fn copied(n: NetModel, root: NodeId, r: NetModel, m: Map<NodeId, NodeId>) -> bool {
    &&& grown(n, r)
    &&& queued(n, r)
    &&& m.contains_key(root)
    &&& m[root] == n.agents.len()
    &&& mapped(n, root, r, m)
    &&& forall|x: NodeId, s: usize|
        #![trigger mirrored(n, r, m, x, s)]
        m.contains_key(x) && n.has_port(x, s) ==> mirrored(n, r, m, x, s)
}

/// What `clone_subgraph` makes is a copy: in a net that keeps the wiring
/// invariant, the result is the net with a copy of the part that hangs off
/// `root` added, as `copied` says.
pub proof fn law_clone(n: NetModel, root: NodeId)
    requires
        n.wired(),
        root < n.agents.len(),
        n.clone_subgraph(root).agents.len() <= usize::MAX,
    ensures
        copied(n, root, n.clone_subgraph(root), n.clone_map(root)),
{
    let blank = CopyState {
        net: n,
        base: n.agents.len() as NodeId,
        seen: Map::empty(),
        tasks: Seq::empty(),
    };
    let start = n.copy_start(root);
    let end = start.run();
    let none = Seq::<Task>::empty();
    assert(none + blank.tasks =~= none);
    assert(copying(n, root, blank, none));
    lemma_reaches_self(n, root);
    lemma_run_grows(start);
    lemma_visit(n, root, blank, none, root);
    lemma_run(n, root, start);
    lemma_run_keeps(start);
    assert(start.seen.contains_key(root));
    let r = end.net;
    let m = end.seen;
    assert(none + end.tasks =~= none);
    assert forall|x: NodeId, s: usize|
        #![trigger mirrored(n, r, m, x, s)]
        m.contains_key(x) && n.has_port(x, s) implies mirrored(n, r, m, x, s) by {
        assert(slot_ok(n, r, m, none + end.tasks, x, s));
        assert(!awaited(none + end.tasks, x, s));
    }
}

/// The copy leaves out nothing: every agent that can be reached from `root`
/// has its copy.
pub proof fn law_clone_complete(
    n: NetModel,
    root: NodeId,
    r: NetModel,
    m: Map<NodeId, NodeId>,
    x: NodeId,
)
    requires
        copied(n, root, r, m),
        reaches(n, root, x),
    ensures
        m.contains_key(x),
{
    let p = choose|p: Seq<NodeId>| #[trigger] path(n, p) && p[0] == root && p.last() == x;
    lemma_path_copied(n, root, r, m, p, p.len() - 1);
}

/// Every agent on a path from `root` has its copy.
proof fn lemma_path_copied(
    n: NetModel,
    root: NodeId,
    r: NetModel,
    m: Map<NodeId, NodeId>,
    p: Seq<NodeId>,
    i: int,
)
    requires
        copied(n, root, r, m),
        path(n, p),
        p[0] == root,
        0 <= i < p.len(),
    ensures
        m.contains_key(p[i]),
    decreases i,
{
    if i > 0 {
        lemma_path_copied(n, root, r, m, p, i - 1);
        assert(wire(n, p[i - 1], p[i - 1 + 1]));
        let s = choose|s: usize|
            n.has_port(p[i - 1], s) && !(#[trigger] n.port(p[i - 1], s)).is_null() && n.port(
                p[i - 1],
                s,
            ).node == p[i];
        assert(mirrored(n, r, m, p[i - 1], s));
    }
}

/// Whether the part of `n` that hangs off `root` is in `n2` as it is in
/// `n`: every agent that can be reached is the same in both.
pub open spec fn same_template(n: NetModel, n2: NetModel, root: NodeId) -> bool {
    &&& n.agents.len() <= n2.agents.len()
    &&& forall|x: NodeId| #[trigger]
        reaches(n, root, x) ==> x < n.agents.len() && n2.agents[x as int] == n.agents[x as int]
}

/// Along a path of `n2` from `root`, every agent can be reached in `n` too,
/// where the part that hangs off `root` is the same in both.
proof fn lemma_path_back(n: NetModel, n2: NetModel, root: NodeId, p: Seq<NodeId>, i: int)
    requires
        same_template(n, n2, root),
        path(n2, p),
        p[0] == root,
        0 <= i < p.len(),
    ensures
        reaches(n, root, p[i]),
    decreases i,
{
    if i == 0 {
        lemma_reaches_self(n, root);
    } else {
        lemma_path_back(n, n2, root, p, i - 1);
        let x = p[i - 1];
        assert(wire(n2, p[i - 1], p[i - 1 + 1]));
        let s = choose|s: usize|
            n2.has_port(x, s) && !(#[trigger] n2.port(x, s)).is_null() && n2.port(x, s).node
                == p[i];
        assert(n2.agents[x as int] == n.agents[x as int]);
        assert(n.port(x, s) == n2.port(x, s));
        lemma_reaches_step(n, root, x, s);
    }
}

/// Along a path of `n` from `root`, every agent can be reached in `n2` too,
/// where the part that hangs off `root` is the same in both.
proof fn lemma_path_forth(n: NetModel, n2: NetModel, root: NodeId, p: Seq<NodeId>, i: int)
    requires
        same_template(n, n2, root),
        path(n, p),
        p[0] == root,
        0 <= i < p.len(),
    ensures
        reaches(n, root, p[i]),
        reaches(n2, root, p[i]),
    decreases i,
{
    if i == 0 {
        lemma_reaches_self(n, root);
        lemma_reaches_self(n2, root);
    } else {
        lemma_path_forth(n, n2, root, p, i - 1);
        let x = p[i - 1];
        assert(wire(n, p[i - 1], p[i - 1 + 1]));
        let s = choose|s: usize|
            n.has_port(x, s) && !(#[trigger] n.port(x, s)).is_null() && n.port(x, s).node == p[i];
        assert(n2.agents[x as int] == n.agents[x as int]);
        assert(n.port(x, s) == n2.port(x, s));
        lemma_reaches_step(n, root, x, s);
        lemma_reaches_step(n2, root, x, s);
    }
}

/// Where the part that hangs off `root` is the same in two nets, the same
/// agents can be reached from `root` in both.
pub proof fn lemma_same_reach(n: NetModel, n2: NetModel, root: NodeId, x: NodeId)
    requires
        same_template(n, n2, root),
    ensures
        reaches(n, root, x) <==> reaches(n2, root, x),
{
    if reaches(n, root, x) {
        let p = choose|p: Seq<NodeId>| #[trigger] path(n, p) && p[0] == root && p.last() == x;
        lemma_path_forth(n, n2, root, p, p.len() - 1);
    }
    if reaches(n2, root, x) {
        let p = choose|p: Seq<NodeId>| #[trigger] path(n2, p) && p[0] == root && p.last() == x;
        lemma_path_back(n, n2, root, p, p.len() - 1);
    }
}

/// Expansion is copy-isolated. Let one template be copied twice: first in
/// the net `n`, then in a later net `n2` that holds the first copy and in
/// which the template is as it was. Then
///
/// * both copies are copies of the same agents;
/// * no agent belongs to both copies;
/// * the two copies of an agent have its kind and payload, and each slot of
///   either mirrors the slot of the agent copied: the copies have the same
///   shape;
/// * every wired slot of either copy is wired to an agent of the same copy,
///   so that neither copy has a wire into the other;
/// * the second copy touches nothing that was there: the template and the
///   first copy are after it what they were before it.
pub proof fn law_copies_apart(n: NetModel, n2: NetModel, root: NodeId)
    requires
        n.wired(),
        n2.wired(),
        root < n.agents.len(),
        same_template(n, n2, root),
        n.clone_subgraph(root).agents.len() <= n2.agents.len(),
        n2.clone_subgraph(root).agents.len() <= usize::MAX,
    ensures
        copied(n, root, n.clone_subgraph(root), n.clone_map(root)),
        copied(n2, root, n2.clone_subgraph(root), n2.clone_map(root)),
        forall|x: NodeId|
            n.clone_map(root).contains_key(x) <==> #[trigger] n2.clone_map(root).contains_key(x),
        forall|x: NodeId, y: NodeId|
            #![trigger n.clone_map(root)[x], n2.clone_map(root)[y]]
            n.clone_map(root).contains_key(x) && n2.clone_map(root).contains_key(y) ==> n.clone_map(
                root,
            )[x] != n2.clone_map(root)[y],
        forall|x: NodeId| #[trigger]
            n.clone_map(root).contains_key(x) ==> n.clone_subgraph(root).kind(n.clone_map(root)[x])
                == n.kind(x) && n2.clone_subgraph(root).kind(n2.clone_map(root)[x]) == n.kind(x),
        forall|x: NodeId, s: usize|
            #![trigger mirrored(n, n2.clone_subgraph(root), n2.clone_map(root), x, s)]
            n.clone_map(root).contains_key(x) && n.has_port(x, s) ==> mirrored(
                n,
                n.clone_subgraph(root),
                n.clone_map(root),
                x,
                s,
            ) && mirrored(n, n2.clone_subgraph(root), n2.clone_map(root), x, s),
        forall|x: NodeId| #[trigger]
            n.clone_map(root).contains_key(x) ==> n2.clone_subgraph(root).agents[x as int]
                == n.agents[x as int] && n2.clone_subgraph(root).agents[n.clone_map(root)[x] as int]
                == n2.agents[n.clone_map(root)[x] as int],
        forall|x: int|
            0 <= x < n2.agents.len() ==> #[trigger] n2.clone_subgraph(root).agents[x]
                == n2.agents[x],
{
    let r1 = n.clone_subgraph(root);
    let m1 = n.clone_map(root);
    let r2 = n2.clone_subgraph(root);
    let m2 = n2.clone_map(root);
    law_clone(n, root);
    law_clone(n2, root);
    assert forall|x: NodeId| m1.contains_key(x) <==> #[trigger] m2.contains_key(x) by {
        lemma_same_reach(n, n2, root, x);
        if m1.contains_key(x) {
            law_clone_complete(n2, root, r2, m2, x);
        }
        if m2.contains_key(x) {
            law_clone_complete(n, root, r1, m1, x);
        }
    }
    assert forall|x: NodeId| #[trigger] m1.contains_key(x) implies r1.kind(m1[x]) == n.kind(x)
        && r2.kind(m2[x]) == n.kind(x) by {
        assert(m2.contains_key(x));
        assert(reaches(n, root, x));
    }
    assert forall|x: NodeId, s: usize|
        #![trigger mirrored(n, r2, m2, x, s)]
        m1.contains_key(x) && n.has_port(x, s) implies mirrored(n, r1, m1, x, s) && mirrored(
        n,
        r2,
        m2,
        x,
        s,
    ) by {
        assert(m2.contains_key(x));
        assert(reaches(n, root, x));
        assert(n2.has_port(x, s));
        assert(mirrored(n, r1, m1, x, s));
        assert(mirrored(n2, r2, m2, x, s));
        assert(n2.port(x, s) == n.port(x, s));
    }
    assert forall|x: NodeId| #[trigger] m1.contains_key(x) implies r2.agents[x as int]
        == n.agents[x as int] && r2.agents[m1[x] as int] == n2.agents[m1[x] as int] by {
        assert(reaches(n, root, x));
        assert(r2.agents[x as int] == n2.agents[x as int]);
        assert(r2.agents[m1[x] as int] == n2.agents[m1[x] as int]);
    }
}

/// Every wired slot of a copy is wired to a slot of the copy: in the net
/// with the copy added, no port of an added agent points at an agent that
/// was there before.
pub proof fn law_copy_closed(n: NetModel, root: NodeId, c: NodeId, s: usize)
    requires
        n.wired(),
        root < n.agents.len(),
        n.clone_subgraph(root).agents.len() <= usize::MAX,
        n.agents.len() <= c,
        n.clone_subgraph(root).has_port(c, s),
    ensures
        n.clone_subgraph(root).port(c, s).is_null() || n.agents.len() <= n.clone_subgraph(
            root,
        ).port(c, s).node,
{
    let r = n.clone_subgraph(root);
    let m = n.clone_map(root);
    law_clone(n, root);
    assert(has_origin(m, c));
    let z = choose|z: NodeId| m.contains_key(z) && #[trigger] m[z] == c;
    assert(r.kind(m[z]) == n.kind(z));
    assert(n.has_port(z, s));
    assert(mirrored(n, r, m, z, s));
    if !n.port(z, s).is_null() {
        assert(m.contains_key(n.port(z, s).node));
    }
}

/// A wire into a copy leaves the rest alone. A wire between two ports of the
/// copy that `clone_subgraph` has just made touches nothing that was there
/// before the copy: the template and every other copy are as they were.
pub proof fn law_wire_in_copy(
    n: NetModel,
    root: NodeId,
    a: NodeId,
    sa: usize,
    b: NodeId,
    sb: usize,
    x: NodeId,
)
    requires
        n.wired(),
        root < n.agents.len(),
        n.clone_subgraph(root).agents.len() <= usize::MAX,
        n.agents.len() <= a,
        n.agents.len() <= b,
        x < n.agents.len(),
    ensures
        n.clone_subgraph(root).connect(a, sa, b, sb).agents[x as int] == n.agents[x as int],
{
    let r = n.clone_subgraph(root);
    law_clone(n, root);
    if r.has_port(a, sa) {
        law_copy_closed(n, root, a, sa);
    }
    if r.has_port(b, sb) {
        law_copy_closed(n, root, b, sb);
    }
    law_connect_touches(r, a, sa, b, sb, x);
    assert(r.agents[x as int] == n.agents[x as int]);
}

/// A step of the copy loses nothing.
proof fn lemma_step_extends(st: CopyState)
    requires
        st.addressed(),
        st.tasks.len() > 0,
        st.step().net.agents.len() <= usize::MAX,
    ensures
        st.step().net.extends(st.net),
{
    let task = st.tasks.last();
    let rest = CopyState { tasks: st.tasks.drop_last(), ..st };
    let y = task.target.node;
    if y < st.base {
        let mid = if rest.seen.contains_key(y) {
            rest
        } else {
            rest.visit(y)
        };
        let end = Port { node: mid.seen[y], slot: task.target.slot };
        lemma_connect_len(mid.net, task.copy, task.slot, end.node, end.slot);
        let agent = st.net.agents[y as int];
        lemma_create_extends(st.net, agent);
        if !rest.seen.contains_key(y) {
            lemma_create(st.net, agent);
        }
        lemma_connect_extends(mid.net, task.copy, task.slot, end.node, end.slot);
        lemma_extends_twice(st.net, mid.net, st.step().net);
    }
}

/// The copy loses nothing, in whatever net it is made: every agent that was
/// there is there with its kind and payload, and the bindings are the same.
pub proof fn lemma_run_extends(st: CopyState)
    requires
        st.addressed(),
        st.run().net.agents.len() <= usize::MAX,
    ensures
        st.run().net.extends(st.net),
    decreases unseen(st.seen, st.base as nat), st.tasks.len(),
{
    if st.tasks.len() > 0 {
        lemma_step_decreases(st);
        lemma_run_grows(st.step());
        lemma_step_addressed(st);
        lemma_step_extends(st);
        lemma_run_extends(st.step());
        lemma_extends_twice(st.net, st.step().net, st.run().net);
    }
}

/// What `clone_subgraph` makes loses nothing, in whatever net it is made.
pub proof fn law_clone_extends(n: NetModel, root: NodeId)
    requires
        n.shaped(),
        root < n.agents.len(),
        n.clone_subgraph(root).agents.len() <= usize::MAX,
    ensures
        n.clone_subgraph(root).extends(n),
{
    let blank = CopyState {
        net: n,
        base: n.agents.len() as NodeId,
        seen: Map::empty(),
        tasks: Seq::empty(),
    };
    let start = n.copy_start(root);
    lemma_run_grows(start);
    lemma_visit_addressed(blank, root);
    lemma_create_extends(n, n.agents[root as int]);
    lemma_run_extends(start);
    lemma_extends_twice(n, start.net, start.run().net);
}

/// What `clone_subgraph` makes is in shape, in whatever net that is in shape
/// it is made.
pub proof fn lemma_clone_shaped(n: NetModel, root: NodeId)
    requires
        n.shaped(),
        root < n.agents.len(),
        n.clone_subgraph(root).agents.len() <= usize::MAX,
    ensures
        n.clone_subgraph(root).shaped(),
{
    let blank = CopyState {
        net: n,
        base: n.agents.len() as NodeId,
        seen: Map::empty(),
        tasks: Seq::empty(),
    };
    let start = n.copy_start(root);
    lemma_run_grows(start);
    lemma_visit_addressed(blank, root);
    lemma_run_addressed(start);
}

/// The copy keeps every task addressed.
proof fn lemma_run_addressed(st: CopyState)
    requires
        st.addressed(),
        st.run().net.agents.len() <= usize::MAX,
    ensures
        st.run().addressed(),
    decreases unseen(st.seen, st.base as nat), st.tasks.len(),
{
    if st.tasks.len() > 0 {
        lemma_step_decreases(st);
        lemma_run_grows(st.step());
        lemma_step_addressed(st);
        lemma_run_addressed(st.step());
    }
}

} // verus!
