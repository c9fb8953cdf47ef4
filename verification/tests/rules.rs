use vice::interaction::{apply_interaction, InteractionResult};
use vice::net::{Net, Node, NodeId, Port, Redex, PRINCIPAL};

fn con(net: &mut Net, tag: i32) -> NodeId {
    net.create_node(Node::Con { tag, ports: [Port::null(); 3] })
}

fn dup(net: &mut Net) -> NodeId {
    net.create_node(Node::Dup { ports: [Port::null(); 3] })
}

fn era(net: &mut Net) -> NodeId {
    net.create_node(Node::Era { port: Port::null() })
}

fn reference(net: &mut Net, name: &str) -> NodeId {
    net.create_node(Node::Ref { name: name.to_string(), port: Port::null() })
}

/// Two agents of the given kinds, principal to principal, each auxiliary
/// port wired to slot 0 of a leaf of its own. The leaves are agents 2 to 5.
fn pair_with_leaves(a: Node, b: Node) -> Net {
    let mut net = Net::new();
    let a = net.create_node(a);
    let b = net.create_node(b);
    for (agent, slot) in [(a, 0), (a, 1), (b, 0), (b, 1)] {
        let leaf = con(&mut net, 9);
        assert_eq!(net.connect(agent, slot, leaf, 0), Ok(()));
    }
    assert_eq!(net.connect(a, PRINCIPAL, b, PRINCIPAL), Ok(()));
    net
}

fn symmetric(net: &Net) -> bool {
    for a in 0..net.node_count() {
        for s in 0..3 {
            let node = net.get_node(a);
            if !node.has_slot(s) || node.port(s).is_null() {
                continue;
            }
            let p = node.port(s);
            if p.node >= net.node_count() || !net.get_node(p.node).has_slot(p.slot) {
                return false;
            }
            if net.get_node(p.node).port(p.slot) != Port::new(a, s) {
                return false;
            }
        }
    }
    true
}

#[test]
fn annihilation_joins_the_leaves_and_adds_nothing() {
    let mut net = pair_with_leaves(
        Node::Con { tag: 1, ports: [Port::null(); 3] },
        Node::Con { tag: 1, ports: [Port::null(); 3] },
    );
    let redex = net.next_redex().unwrap();
    assert_eq!((redex.a, redex.b), (0, 1));
    assert!(matches!(apply_interaction(&mut net, redex), InteractionResult::Success));
    assert_eq!(net.node_count(), 6);
    assert_eq!(net.redex_count(), 0);
    assert_eq!(net.wiring_str(2), "CON(9)[4:0, NULL]:NULL");
    assert_eq!(net.wiring_str(4), "CON(9)[2:0, NULL]:NULL");
    assert_eq!(net.wiring_str(3), "CON(9)[5:0, NULL]:NULL");
    assert_eq!(net.wiring_str(5), "CON(9)[3:0, NULL]:NULL");
    assert_eq!(net.wiring_str(0), "CON(1)[NULL, NULL]:1:2");
    assert_eq!(net.wiring_str(1), "CON(1)[NULL, NULL]:0:2");
    assert!(symmetric(&net));
}

#[test]
fn annihilation_finds_the_pairs_it_makes() {
    let mut net = Net::new();
    let a = con(&mut net, 1);
    let b = con(&mut net, 1);
    let left = [dup(&mut net), era(&mut net)];
    let right = [era(&mut net), con(&mut net, 3)];
    for s in 0..2 {
        assert_eq!(net.connect(a, s, left[s], PRINCIPAL), Ok(()));
        assert_eq!(net.connect(b, s, right[s], PRINCIPAL), Ok(()));
    }
    let redex = Redex { a, b };
    assert!(matches!(apply_interaction(&mut net, redex), InteractionResult::Success));
    assert_eq!(net.node_count(), 6);
    assert_eq!(net.redex_count(), 2);
    let first = net.next_redex().unwrap();
    assert_eq!((first.a, first.b), (left[0], right[0]));
    let second = net.next_redex().unwrap();
    assert_eq!((second.a, second.b), (left[1], right[1]));
    assert_eq!(net.get_node(left[0]).port(PRINCIPAL), Port::new(right[0], PRINCIPAL));
    assert_eq!(net.get_node(right[1]).port(PRINCIPAL), Port::new(left[1], PRINCIPAL));
}

#[test]
fn constructors_of_different_tags_have_no_rule() {
    let mut net = pair_with_leaves(
        Node::Con { tag: 1, ports: [Port::null(); 3] },
        Node::Con { tag: 2, ports: [Port::null(); 3] },
    );
    assert_eq!(net.redex_count(), 0);
    let before = net.render();
    let outcome = apply_interaction(&mut net, Redex { a: 0, b: 1 });
    match outcome {
        InteractionResult::Error(msg) => assert_eq!(msg, "Unsupported interaction"),
        InteractionResult::Success => panic!("a rule ran"),
    }
    assert_eq!(net.render(), before);
}

fn check_commutation(mut net: Net, con_leaves: [NodeId; 2], dup_leaves: [NodeId; 2]) {
    let redex = net.next_redex().unwrap();
    assert!(matches!(apply_interaction(&mut net, redex), InteractionResult::Success));
    assert_eq!(net.node_count(), 10);
    assert_eq!(net.redex_count(), 0);
    assert_eq!(net.wiring_str(6), format!("DUP[8:0, 9:0]:{}:0", con_leaves[0]));
    assert_eq!(net.wiring_str(7), format!("DUP[8:1, 9:1]:{}:0", con_leaves[1]));
    assert_eq!(net.wiring_str(8), format!("CON(7)[6:0, 7:0]:{}:0", dup_leaves[0]));
    assert_eq!(net.wiring_str(9), format!("CON(7)[6:1, 7:1]:{}:0", dup_leaves[1]));
    assert_eq!(net.get_node(con_leaves[0]).port(0), Port::new(6, PRINCIPAL));
    assert_eq!(net.get_node(con_leaves[1]).port(0), Port::new(7, PRINCIPAL));
    assert_eq!(net.get_node(dup_leaves[0]).port(0), Port::new(8, PRINCIPAL));
    assert_eq!(net.get_node(dup_leaves[1]).port(0), Port::new(9, PRINCIPAL));
    for leaf in 2..6 {
        assert!(matches!(net.get_node(leaf), Node::Con { tag: 9, .. }));
    }
    assert!(symmetric(&net));
}

#[test]
fn commutation_adds_two_of_each_kind() {
    let net = pair_with_leaves(
        Node::Con { tag: 7, ports: [Port::null(); 3] },
        Node::Dup { ports: [Port::null(); 3] },
    );
    check_commutation(net, [2, 3], [4, 5]);
}

#[test]
fn commutation_in_the_other_order() {
    let net = pair_with_leaves(
        Node::Dup { ports: [Port::null(); 3] },
        Node::Con { tag: 7, ports: [Port::null(); 3] },
    );
    check_commutation(net, [4, 5], [2, 3]);
}

#[test]
fn commutation_keeps_the_tags_it_passes() {
    let mut net = Net::new();
    let c = con(&mut net, 7);
    let d = dup(&mut net);
    let leaves = [con(&mut net, 11), con(&mut net, 12), con(&mut net, 13), con(&mut net, 14)];
    assert_eq!(net.connect(c, 0, leaves[0], PRINCIPAL), Ok(()));
    assert_eq!(net.connect(c, 1, leaves[1], PRINCIPAL), Ok(()));
    assert_eq!(net.connect(d, 0, leaves[2], PRINCIPAL), Ok(()));
    assert_eq!(net.connect(d, 1, leaves[3], PRINCIPAL), Ok(()));
    let outcome = apply_interaction(&mut net, Redex { a: c, b: d });
    assert!(matches!(outcome, InteractionResult::Success));
    assert_eq!(net.node_count(), 10);
    assert!(matches!(net.get_node(c), Node::Con { tag: 7, .. }));
    for (i, leaf) in leaves.iter().enumerate() {
        assert!(matches!(net.get_node(*leaf), Node::Con { tag, .. } if *tag == 11 + i as i32));
    }
    assert_eq!(net.redex_count(), 2);
    let found: Vec<(NodeId, NodeId)> =
        (0..2).map(|_| net.next_redex().unwrap()).map(|r| (r.a, r.b)).collect();
    assert_eq!(found, vec![(leaves[0], 6), (leaves[1], 7)]);
    assert_eq!(net.get_node(leaves[2]).port(PRINCIPAL), Port::new(8, PRINCIPAL));
    assert_eq!(net.get_node(leaves[3]).port(PRINCIPAL), Port::new(9, PRINCIPAL));
}

#[test]
fn duplication_adds_four_duplicators() {
    let mut net = pair_with_leaves(
        Node::Dup { ports: [Port::null(); 3] },
        Node::Dup { ports: [Port::null(); 3] },
    );
    let redex = net.next_redex().unwrap();
    assert!(matches!(apply_interaction(&mut net, redex), InteractionResult::Success));
    assert_eq!(net.node_count(), 10);
    assert_eq!(net.redex_count(), 0);
    assert_eq!(net.wiring_str(6), "DUP[NULL, 8:1]:2:0");
    assert_eq!(net.wiring_str(7), "DUP[NULL, 9:1]:3:0");
    assert_eq!(net.wiring_str(8), "DUP[NULL, 6:1]:4:0");
    assert_eq!(net.wiring_str(9), "DUP[NULL, 7:1]:5:0");
    for leaf in 2..6 {
        assert_eq!(net.get_node(leaf).port(0), Port::new(leaf + 4, PRINCIPAL));
    }
    assert!(symmetric(&net));
}

fn check_erasure(mut net: Net, erased: NodeId, leaves: [NodeId; 2]) {
    let redex = net.next_redex().unwrap();
    assert!(matches!(apply_interaction(&mut net, redex), InteractionResult::Success));
    let n = net.node_count();
    assert!(matches!(net.get_node(n - 2), Node::Era { .. }));
    assert!(matches!(net.get_node(n - 1), Node::Era { .. }));
    assert_eq!(net.get_node(n - 2).port(PRINCIPAL), Port::new(leaves[0], 0));
    assert_eq!(net.get_node(n - 1).port(PRINCIPAL), Port::new(leaves[1], 0));
    assert_eq!(net.get_node(leaves[0]).port(0), Port::new(n - 2, PRINCIPAL));
    assert_eq!(net.get_node(leaves[1]).port(0), Port::new(n - 1, PRINCIPAL));
    for a in 0..n {
        for s in 0..3 {
            if net.get_node(a).has_slot(s) {
                let p = net.get_node(a).port(s);
                assert!(p.is_null() || p.node != erased || p.slot == PRINCIPAL);
            }
        }
    }
    assert_eq!(net.redex_count(), 0);
    assert!(symmetric(&net));
}

fn eraser_pair(other: Node, eraser_first: bool) -> (Net, NodeId, [NodeId; 2]) {
    let mut net = Net::new();
    let (x, e) = if eraser_first {
        let e = era(&mut net);
        (net.create_node(other), e)
    } else {
        let x = net.create_node(other);
        (x, era(&mut net))
    };
    let leaves = [con(&mut net, 9), con(&mut net, 9)];
    assert_eq!(net.connect(x, 0, leaves[0], 0), Ok(()));
    assert_eq!(net.connect(x, 1, leaves[1], 0), Ok(()));
    if eraser_first {
        assert_eq!(net.connect(e, PRINCIPAL, x, PRINCIPAL), Ok(()));
    } else {
        assert_eq!(net.connect(x, PRINCIPAL, e, PRINCIPAL), Ok(()));
    }
    (net, x, leaves)
}

#[test]
fn erasure_of_a_constructor() {
    let (net, x, leaves) = eraser_pair(Node::Con { tag: 3, ports: [Port::null(); 3] }, false);
    assert_eq!(net.node_count(), 4);
    check_erasure(net, x, leaves);
}

#[test]
fn erasure_of_a_duplicator() {
    let (net, x, leaves) = eraser_pair(Node::Dup { ports: [Port::null(); 3] }, false);
    check_erasure(net, x, leaves);
}

#[test]
fn erasure_by_an_eraser_named_first() {
    let (net, x, leaves) = eraser_pair(Node::Con { tag: 3, ports: [Port::null(); 3] }, true);
    check_erasure(net, x, leaves);
    let (net, x, leaves) = eraser_pair(Node::Dup { ports: [Port::null(); 3] }, true);
    check_erasure(net, x, leaves);
}

#[test]
fn erasure_adds_exactly_two_erasers() {
    let (mut net, _, _) = eraser_pair(Node::Con { tag: 3, ports: [Port::null(); 3] }, false);
    let redex = net.next_redex().unwrap();
    let _ = apply_interaction(&mut net, redex);
    assert_eq!(net.node_count(), 6);
    assert_eq!(net.wiring_str(4), "ERA:2:0");
    assert_eq!(net.wiring_str(5), "ERA:3:0");
    assert_eq!(net.wiring_str(0), "CON(3)[NULL, NULL]:1:2");
}

#[test]
fn two_erasers_are_discarded() {
    let mut net = Net::new();
    let a = era(&mut net);
    let b = era(&mut net);
    assert_eq!(net.connect(a, PRINCIPAL, b, PRINCIPAL), Ok(()));
    let redex = net.next_redex().unwrap();
    let before = net.render();
    assert!(matches!(apply_interaction(&mut net, redex), InteractionResult::Success));
    assert_eq!(net.render(), before);
    assert_eq!(net.node_count(), 2);
}

#[test]
fn a_rule_stops_at_the_first_refused_wire() {
    let mut net = Net::new();
    let a = con(&mut net, 1);
    let b = con(&mut net, 1);
    let leaf_a = con(&mut net, 9);
    let leaf_b = con(&mut net, 9);
    assert_eq!(net.connect(a, 0, leaf_a, 0), Ok(()));
    assert_eq!(net.connect(b, 0, leaf_b, 0), Ok(()));
    assert_eq!(net.connect(a, PRINCIPAL, b, PRINCIPAL), Ok(()));
    let redex = net.next_redex().unwrap();
    match apply_interaction(&mut net, redex) {
        InteractionResult::Error(msg) => assert_eq!(msg, "Invalid port slot for node"),
        InteractionResult::Success => panic!("the rule ran to its end"),
    }
    assert_eq!(net.wiring_str(leaf_a), "CON(9)[3:0, NULL]:NULL");
    assert_eq!(net.wiring_str(leaf_b), "CON(9)[2:0, NULL]:NULL");
    assert_eq!(net.node_count(), 4);
}

#[test]
fn erasure_of_an_unwired_agent_fails_after_it_made_its_erasers() {
    let mut net = Net::new();
    let x = dup(&mut net);
    let e = era(&mut net);
    assert_eq!(net.connect(x, PRINCIPAL, e, PRINCIPAL), Ok(()));
    let redex = net.next_redex().unwrap();
    match apply_interaction(&mut net, redex) {
        InteractionResult::Error(msg) => assert_eq!(msg, "Invalid port slot for node"),
        InteractionResult::Success => panic!("the rule ran to its end"),
    }
    assert_eq!(net.node_count(), 4);
    assert_eq!(net.wiring_str(2), "ERA:NULL");
    assert_eq!(net.wiring_str(3), "ERA:NULL");
}

/// A template of two agents: a constructor of tag 3 whose first auxiliary
/// port is wired to the principal port of a duplicator whose auxiliary ports
/// are wired to each other.
fn template(net: &mut Net) -> NodeId {
    let root = con(net, 3);
    let inner = dup(net);
    assert_eq!(net.connect(root, 0, inner, PRINCIPAL), Ok(()));
    assert_eq!(net.connect(inner, 0, inner, 1), Ok(()));
    root
}

#[test]
fn expansion_wires_a_copy_to_the_other_agent() {
    let mut net = Net::new();
    let root = template(&mut net);
    net.add_definition("f", root);
    let caller = con(&mut net, 8);
    let call = reference(&mut net, "f");
    assert_eq!(net.connect(call, PRINCIPAL, caller, PRINCIPAL), Ok(()));
    let redex = net.next_redex().unwrap();
    assert_eq!((redex.a, redex.b), (call, caller));
    assert!(matches!(apply_interaction(&mut net, redex), InteractionResult::Success));
    assert_eq!(net.node_count(), 6);
    assert_eq!(net.wiring_str(0), "CON(3)[1:2, NULL]:NULL");
    assert_eq!(net.wiring_str(1), "DUP[1:1, 1:0]:0:0");
    assert_eq!(net.wiring_str(4), "CON(3)[5:2, NULL]:2:2");
    assert_eq!(net.wiring_str(5), "DUP[5:1, 5:0]:4:0");
    assert_eq!(net.wiring_str(caller), "CON(8)[NULL, NULL]:4:2");
    assert_eq!(net.wiring_str(call), "REF(f):NULL");
    assert_eq!(net.redex_count(), 0);
    assert!(symmetric(&net));
}

#[test]
fn expansion_with_the_reference_named_second() {
    let mut net = Net::new();
    let root = template(&mut net);
    net.add_definition("f", root);
    let caller = era(&mut net);
    let call = reference(&mut net, "f");
    assert_eq!(net.connect(caller, PRINCIPAL, call, PRINCIPAL), Ok(()));
    let redex = net.next_redex().unwrap();
    assert_eq!((redex.a, redex.b), (caller, call));
    assert!(matches!(apply_interaction(&mut net, redex), InteractionResult::Success));
    assert_eq!(net.wiring_str(4), "CON(3)[5:2, NULL]:2:2");
    assert_eq!(net.wiring_str(caller), "ERA:4:2");
    assert_eq!(net.redex_count(), 1);
    let next = net.next_redex().unwrap();
    assert_eq!((next.a, next.b), (4, caller));
}

#[test]
fn expansion_of_two_references_that_meet() {
    let mut net = Net::new();
    let f = con(&mut net, 1);
    let g = con(&mut net, 1);
    net.add_definition("f", f);
    net.add_definition("g", g);
    let rf = reference(&mut net, "f");
    let rg = reference(&mut net, "g");
    assert_eq!(net.connect(rf, PRINCIPAL, rg, PRINCIPAL), Ok(()));
    let redex = net.next_redex().unwrap();
    assert!(matches!(apply_interaction(&mut net, redex), InteractionResult::Success));
    assert_eq!(net.wiring_str(4), "CON(1)[NULL, NULL]:3:2");
    assert_eq!(net.wiring_str(rg), "REF(g):4:2");
    let redex = net.next_redex().unwrap();
    assert_eq!((redex.a, redex.b), (4, rg));
    assert!(matches!(apply_interaction(&mut net, redex), InteractionResult::Success));
    assert_eq!(net.wiring_str(5), "CON(1)[NULL, NULL]:4:2");
    assert_eq!(net.wiring_str(4), "CON(1)[NULL, NULL]:5:2");
    let redex = net.next_redex().unwrap();
    assert_eq!((redex.a, redex.b), (5, 4));
}

#[test]
fn expansion_twice_makes_two_copies_apart() {
    let mut net = Net::new();
    let root = template(&mut net);
    net.add_definition("f", root);
    let mut callers = Vec::new();
    for _ in 0..2 {
        let caller = con(&mut net, 8);
        let call = reference(&mut net, "f");
        assert_eq!(net.connect(call, PRINCIPAL, caller, PRINCIPAL), Ok(()));
        callers.push(caller);
    }
    for _ in 0..2 {
        let redex = net.next_redex().unwrap();
        assert!(matches!(apply_interaction(&mut net, redex), InteractionResult::Success));
    }
    assert_eq!(net.node_count(), 10);
    assert_eq!(net.wiring_str(0), "CON(3)[1:2, NULL]:NULL");
    assert_eq!(net.wiring_str(1), "DUP[1:1, 1:0]:0:0");
    assert_eq!(net.wiring_str(6), "CON(3)[7:2, NULL]:2:2");
    assert_eq!(net.wiring_str(7), "DUP[7:1, 7:0]:6:0");
    assert_eq!(net.wiring_str(8), "CON(3)[9:2, NULL]:4:2");
    assert_eq!(net.wiring_str(9), "DUP[9:1, 9:0]:8:0");
    assert_eq!(net.connect(6, 1, 7, 0), Ok(()));
    assert_eq!(net.wiring_str(6), "CON(3)[7:2, 7:0]:2:2");
    assert_eq!(net.wiring_str(7), "DUP[6:1, NULL]:6:0");
    assert_eq!(net.wiring_str(8), "CON(3)[9:2, NULL]:4:2");
    assert_eq!(net.wiring_str(9), "DUP[9:1, 9:0]:8:0");
    assert_eq!(net.wiring_str(0), "CON(3)[1:2, NULL]:NULL");
    assert_eq!(net.wiring_str(1), "DUP[1:1, 1:0]:0:0");
    assert!(symmetric(&net));
}

#[test]
fn expansion_of_an_unbound_name_fails_and_changes_nothing() {
    let mut net = Net::new();
    let call = reference(&mut net, "unbound");
    let other = dup(&mut net);
    assert_eq!(net.connect(call, PRINCIPAL, other, PRINCIPAL), Ok(()));
    let redex = net.next_redex().unwrap();
    let before = net.render();
    match apply_interaction(&mut net, redex) {
        InteractionResult::Error(msg) => assert_eq!(msg, "Undefined function: unbound"),
        InteractionResult::Success => panic!("the reference was expanded"),
    }
    assert_eq!(net.render(), before);
    assert_eq!(net.wiring_str(call), "REF(unbound):1:2");
}

#[test]
fn erasure_of_an_agent_wired_to_itself_leaves_erasers_on_it() {
    let mut net = Net::new();
    let x = con(&mut net, 1);
    let e = era(&mut net);
    assert_eq!(net.connect(x, 0, x, 1), Ok(()));
    assert_eq!(net.connect(x, PRINCIPAL, e, PRINCIPAL), Ok(()));
    let redex = net.next_redex().unwrap();
    assert!(matches!(apply_interaction(&mut net, redex), InteractionResult::Success));
    assert_eq!(net.node_count(), 4);
    assert_eq!(net.wiring_str(x), "CON(1)[3:2, 2:2]:1:2");
    assert_eq!(net.wiring_str(2), "ERA:0:1");
    assert_eq!(net.wiring_str(3), "ERA:0:0");
    assert!(symmetric(&net));
}

#[test]
fn annihilation_of_agents_wired_to_each_other() {
    let mut net = Net::new();
    let a = con(&mut net, 1);
    let b = con(&mut net, 1);
    assert_eq!(net.connect(a, 0, b, 0), Ok(()));
    assert_eq!(net.connect(a, 1, b, 1), Ok(()));
    assert_eq!(net.connect(a, PRINCIPAL, b, PRINCIPAL), Ok(()));
    let redex = net.next_redex().unwrap();
    assert!(matches!(apply_interaction(&mut net, redex), InteractionResult::Success));
    assert_eq!(net.node_count(), 2);
    assert_eq!(net.wiring_str(a), "CON(1)[1:0, 1:1]:1:2");
    assert_eq!(net.wiring_str(b), "CON(1)[0:0, 0:1]:0:2");
    assert!(symmetric(&net));
}

#[test]
fn a_pair_of_one_agent_with_itself() {
    let mut net = Net::new();
    let a = dup(&mut net);
    let l = con(&mut net, 1);
    let r = con(&mut net, 2);
    assert_eq!(net.connect(a, 0, l, 0), Ok(()));
    assert_eq!(net.connect(a, 1, r, 0), Ok(()));
    assert_eq!(net.connect(a, PRINCIPAL, a, PRINCIPAL), Ok(()));
    let redex = net.next_redex().unwrap();
    assert_eq!((redex.a, redex.b), (a, a));
    assert!(matches!(apply_interaction(&mut net, redex), InteractionResult::Success));
    assert_eq!(net.node_count(), 7);
    assert_eq!(net.wiring_str(l), "CON(1)[5:2, NULL]:NULL");
    assert_eq!(net.wiring_str(r), "CON(2)[6:2, NULL]:NULL");
    assert_eq!(net.wiring_str(3), "DUP[NULL, 5:1]:NULL");
    assert_eq!(net.wiring_str(5), "DUP[NULL, 3:1]:1:0");
    assert!(symmetric(&net));
}
