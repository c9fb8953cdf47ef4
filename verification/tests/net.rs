use vice::net::{Net, Node, NodeId, Port, Redex, PRINCIPAL};

fn con(tag: i32) -> Node {
    Node::Con { tag, ports: [Port::null(); 3] }
}

fn dup() -> Node {
    Node::Dup { ports: [Port::null(); 3] }
}

fn era() -> Node {
    Node::Era { port: Port::null() }
}

fn reference(name: &str) -> Node {
    Node::Ref { name: name.to_string(), port: Port::null() }
}

/// Whether every wired port of the net points at a port that points back.
fn symmetric(net: &Net) -> bool {
    for a in 0..net.node_count() {
        for s in 0..3 {
            let node = net.get_node(a);
            if !node.has_slot(s) {
                continue;
            }
            let p = node.port(s);
            if p.is_null() {
                continue;
            }
            if p.node >= net.node_count() || !net.get_node(p.node).has_slot(p.slot) {
                return false;
            }
            if net.get_node(p.node).port(p.slot) != Port::new(a, s) {
                return false;
            }
        }
    }
    true
}

#[test]
fn port_new_holds_its_parts() {
    let p = Port::new(4, 1);
    assert_eq!(p.node, 4);
    assert_eq!(p.slot, 1);
    assert!(!p.is_null());
}

#[test]
fn null_port_is_the_sentinel() {
    let p = Port::null();
    assert_eq!(p.node, usize::MAX);
    assert_eq!(p.slot, 0);
    assert!(p.is_null());
    assert!(Port::new(usize::MAX, 1).is_null());
    assert!(!Port::new(0, 0).is_null());
}

#[test]
fn principal_slot_is_reserved() {
    assert_eq!(PRINCIPAL, 2);
    assert!(con(1).has_slot(0));
    assert!(con(1).has_slot(1));
    assert!(con(1).has_slot(PRINCIPAL));
    assert!(!con(1).has_slot(3));
    assert!(dup().has_slot(0));
    assert!(dup().has_slot(PRINCIPAL));
    assert!(!era().has_slot(0));
    assert!(!era().has_slot(1));
    assert!(era().has_slot(PRINCIPAL));
    assert!(!reference("f").has_slot(0));
    assert!(reference("f").has_slot(PRINCIPAL));
}

#[test]
fn new_net_is_empty() {
    let mut net = Net::new();
    assert_eq!(net.node_count(), 0);
    assert_eq!(net.redex_count(), 0);
    assert!(net.next_redex().is_none());
    assert_eq!(net.get_definition("f"), None);
}

#[test]
fn create_node_appends_and_numbers_from_zero() {
    let mut net = Net::new();
    assert_eq!(net.create_node(con(7)), 0);
    assert_eq!(net.create_node(dup()), 1);
    assert_eq!(net.create_node(era()), 2);
    assert_eq!(net.create_node(reference("f")), 3);
    assert_eq!(net.node_count(), 4);
    assert_eq!(net.node_str(0), "CON(7)[NULL, NULL]");
    assert_eq!(net.node_str(1), "DUP[NULL, NULL]");
    assert_eq!(net.node_str(2), "ERA:NULL");
    assert_eq!(net.node_str(3), "REF(f):NULL");
    assert_eq!(net.wiring_str(0), "CON(7)[NULL, NULL]:NULL");
    assert_eq!(net.wiring_str(1), "DUP[NULL, NULL]:NULL");
    assert_eq!(net.wiring_str(2), "ERA:NULL");
    assert_eq!(net.wiring_str(3), "REF(f):NULL");
}

#[test]
fn create_node_unwires_every_slot() {
    let mut net = Net::new();
    let a = net.create_node(Node::Con {
        tag: 1,
        ports: [Port::new(5, 0), Port::new(6, 1), Port::new(7, 2)],
    });
    let e = net.create_node(Node::Era { port: Port::new(0, 0) });
    for s in 0..3 {
        assert!(net.get_node(a).port(s).is_null());
    }
    assert!(net.get_node(e).port(PRINCIPAL).is_null());
    assert!(symmetric(&net));
}

#[test]
fn connect_writes_both_ends() {
    let mut net = Net::new();
    let a = net.create_node(con(1));
    let b = net.create_node(dup());
    assert_eq!(net.connect(a, 0, b, 1), Ok(()));
    assert_eq!(net.get_node(a).port(0), Port::new(b, 1));
    assert_eq!(net.get_node(b).port(1), Port::new(a, 0));
    assert!(net.get_node(a).port(1).is_null());
    assert!(net.get_node(a).port(PRINCIPAL).is_null());
    assert_eq!(net.redex_count(), 0);
    assert!(symmetric(&net));
}

#[test]
fn connect_cuts_the_old_partners_loose() {
    let mut net = Net::new();
    let a = net.create_node(con(1));
    let b = net.create_node(con(2));
    let c = net.create_node(con(3));
    let d = net.create_node(con(4));
    assert_eq!(net.connect(a, 0, b, 0), Ok(()));
    assert_eq!(net.connect(c, 1, d, 1), Ok(()));
    assert_eq!(net.connect(a, 0, c, 1), Ok(()));
    assert_eq!(net.get_node(a).port(0), Port::new(c, 1));
    assert_eq!(net.get_node(c).port(1), Port::new(a, 0));
    assert!(net.get_node(b).port(0).is_null());
    assert!(net.get_node(d).port(1).is_null());
    assert!(symmetric(&net));
}

#[test]
fn connect_a_port_to_itself() {
    let mut net = Net::new();
    let a = net.create_node(con(1));
    let b = net.create_node(con(2));
    assert_eq!(net.connect(a, 1, b, 0), Ok(()));
    assert_eq!(net.connect(a, 1, a, 1), Ok(()));
    assert_eq!(net.get_node(a).port(1), Port::new(a, 1));
    assert!(net.get_node(b).port(0).is_null());
    assert!(symmetric(&net));
}

#[test]
fn connect_two_slots_of_one_agent() {
    let mut net = Net::new();
    let a = net.create_node(dup());
    assert_eq!(net.connect(a, 0, a, 1), Ok(()));
    assert_eq!(net.get_node(a).port(0), Port::new(a, 1));
    assert_eq!(net.get_node(a).port(1), Port::new(a, 0));
    assert!(symmetric(&net));
}

#[test]
fn connect_again_keeps_the_wire() {
    let mut net = Net::new();
    let a = net.create_node(con(1));
    let b = net.create_node(con(2));
    assert_eq!(net.connect(a, 0, b, 1), Ok(()));
    assert_eq!(net.connect(b, 1, a, 0), Ok(()));
    assert_eq!(net.get_node(a).port(0), Port::new(b, 1));
    assert_eq!(net.get_node(b).port(1), Port::new(a, 0));
    assert!(symmetric(&net));
}

#[test]
fn connect_refuses_a_slot_the_kind_lacks() {
    let mut net = Net::new();
    let a = net.create_node(con(1));
    let e = net.create_node(era());
    let r = net.create_node(reference("f"));
    let refused = Err("Invalid port slot for node".to_string());
    assert_eq!(net.connect(a, 0, e, 0), refused);
    assert_eq!(net.connect(e, 1, a, 0), refused);
    assert_eq!(net.connect(a, 3, a, 0), refused);
    assert_eq!(net.connect(r, 0, a, 0), refused);
    assert_eq!(net.connect(a, 0, r, 1), refused);
    assert_eq!(net.wiring_str(a), "CON(1)[NULL, NULL]:NULL");
    assert_eq!(net.wiring_str(e), "ERA:NULL");
    assert_eq!(net.wiring_str(r), "REF(f):NULL");
    assert_eq!(net.redex_count(), 0);
}

#[test]
fn connect_refuses_an_agent_that_is_not_there() {
    let mut net = Net::new();
    let a = net.create_node(con(1));
    let refused = Err("Invalid port slot for node".to_string());
    assert_eq!(net.connect(a, 0, 1, 0), refused);
    assert_eq!(net.connect(7, PRINCIPAL, a, 0), refused);
    assert_eq!(net.connect(usize::MAX, 0, a, 0), refused);
    assert_eq!(net.wiring_str(a), "CON(1)[NULL, NULL]:NULL");
}

#[test]
fn connect_refused_leaves_earlier_wires() {
    let mut net = Net::new();
    let a = net.create_node(con(1));
    let b = net.create_node(con(2));
    assert_eq!(net.connect(a, 0, b, 0), Ok(()));
    assert!(net.connect(a, 0, b, 5).is_err());
    assert_eq!(net.get_node(a).port(0), Port::new(b, 0));
    assert_eq!(net.get_node(b).port(0), Port::new(a, 0));
}

fn pairs(kind_a: Node, kind_b: Node) -> usize {
    let mut net = Net::new();
    let a = net.create_node(kind_a);
    let b = net.create_node(kind_b);
    assert_eq!(net.connect(a, PRINCIPAL, b, PRINCIPAL), Ok(()));
    net.redex_count()
}

#[test]
fn principal_wires_of_kinds_with_a_rule_are_queued() {
    assert_eq!(pairs(con(4), con(4)), 1);
    assert_eq!(pairs(con(4), dup()), 1);
    assert_eq!(pairs(dup(), con(4)), 1);
    assert_eq!(pairs(dup(), dup()), 1);
    assert_eq!(pairs(con(4), era()), 1);
    assert_eq!(pairs(era(), con(4)), 1);
    assert_eq!(pairs(dup(), era()), 1);
    assert_eq!(pairs(era(), dup()), 1);
    assert_eq!(pairs(era(), era()), 1);
    assert_eq!(pairs(reference("f"), con(4)), 1);
    assert_eq!(pairs(dup(), reference("f")), 1);
    assert_eq!(pairs(era(), reference("f")), 1);
    assert_eq!(pairs(reference("f"), reference("g")), 1);
}

#[test]
fn constructors_of_different_tags_are_not_queued() {
    assert_eq!(pairs(con(4), con(5)), 0);
    assert_eq!(pairs(con(-1), con(1)), 0);
}

#[test]
fn wires_that_touch_an_auxiliary_port_are_not_queued() {
    let mut net = Net::new();
    let a = net.create_node(con(4));
    let b = net.create_node(dup());
    assert_eq!(net.connect(a, 0, b, 0), Ok(()));
    assert_eq!(net.connect(a, 1, b, PRINCIPAL), Ok(()));
    assert_eq!(net.connect(a, PRINCIPAL, b, 1), Ok(()));
    assert_eq!(net.redex_count(), 0);
}

#[test]
fn next_redex_is_first_in_first_out() {
    let mut net = Net::new();
    let a = net.create_node(dup());
    let b = net.create_node(dup());
    let c = net.create_node(era());
    let d = net.create_node(era());
    assert_eq!(net.connect(c, PRINCIPAL, d, PRINCIPAL), Ok(()));
    assert_eq!(net.connect(b, PRINCIPAL, a, PRINCIPAL), Ok(()));
    assert_eq!(net.redex_count(), 2);
    let first: Redex = net.next_redex().unwrap();
    assert_eq!((first.a, first.b), (c, d));
    assert_eq!(net.redex_count(), 1);
    let second = net.next_redex().unwrap();
    assert_eq!((second.a, second.b), (b, a));
    assert_eq!(net.redex_count(), 0);
    assert!(net.next_redex().is_none());
    assert_eq!(net.redex_count(), 0);
}

#[test]
fn definitions_are_looked_up_by_name() {
    let mut net = Net::new();
    let a = net.create_node(con(1));
    let b = net.create_node(con(2));
    net.add_definition("first", a);
    net.add_definition("second", b);
    assert_eq!(net.get_definition("first"), Some(a));
    assert_eq!(net.get_definition("second"), Some(b));
    assert_eq!(net.get_definition("third"), None);
    assert_eq!(net.get_definition(""), None);
    assert_eq!(net.get_definition("firs"), None);
}

#[test]
fn a_name_bound_again_is_rebound() {
    let mut net = Net::new();
    let a = net.create_node(con(1));
    let b = net.create_node(con(2));
    net.add_definition("f", a);
    net.add_definition("g", a);
    net.add_definition("f", b);
    assert_eq!(net.get_definition("f"), Some(b));
    assert_eq!(net.get_definition("g"), Some(a));
    assert_eq!(
        net.render(),
        "Net with 2 nodes:\n  0: CON(1)[NULL, NULL]:NULL\n  1: CON(2)[NULL, NULL]:NULL\nDefinitions:\n  f -> 1\n  g -> 0\nActive pairs: []\n"
    );
}

#[test]
fn get_node_mut_replaces_the_agent() {
    let mut net = Net::new();
    let a = net.create_node(con(1));
    let b = net.create_node(con(2));
    *net.get_node_mut(a) = Node::Dup { ports: [Port::new(b, 0), Port::null(), Port::null()] };
    assert_eq!(net.wiring_str(a), "DUP[1:0, NULL]:NULL");
    assert_eq!(net.wiring_str(b), "CON(2)[NULL, NULL]:NULL");
    assert_eq!(net.node_count(), 2);
    net.get_node_mut(b).set_port(0, Port::new(a, 0));
    assert_eq!(net.wiring_str(b), "CON(2)[0:0, NULL]:NULL");
    assert!(symmetric(&net));
}

#[test]
fn node_clone_is_the_same_agent() {
    let source = Node::Ref { name: "twice".to_string(), port: Port::new(3, 1) };
    let copy = source.clone();
    match (source, copy) {
        (Node::Ref { name: first, port: here }, Node::Ref { name: second, port: there }) => {
            assert_eq!(first, second);
            assert_eq!(here, there);
        }
        _ => panic!("the clone is of another kind"),
    }
}

#[test]
fn set_port_overwrites_one_slot() {
    let mut node = con(9);
    node.set_port(1, Port::new(4, 2));
    assert!(node.port(0).is_null());
    assert_eq!(node.port(1), Port::new(4, 2));
    assert!(node.port(PRINCIPAL).is_null());
    let mut e = era();
    e.set_port(PRINCIPAL, Port::new(1, 0));
    assert_eq!(e.port(PRINCIPAL), Port::new(1, 0));
    let cleared = node.unwire();
    assert!(cleared.port(1).is_null());
}

#[test]
fn clone_subgraph_of_a_lone_agent() {
    let mut net = Net::new();
    let a = net.create_node(con(5));
    let copy = net.clone_subgraph(a);
    assert_eq!(copy, 1);
    assert_eq!(net.node_count(), 2);
    assert_eq!(net.wiring_str(0), "CON(5)[NULL, NULL]:NULL");
    assert_eq!(net.wiring_str(1), "CON(5)[NULL, NULL]:NULL");
    assert_eq!(net.redex_count(), 0);
}

#[test]
fn clone_subgraph_keeps_the_shape() {
    let mut net = Net::new();
    let outside = net.create_node(con(0));
    let root = net.create_node(con(5));
    let left = net.create_node(dup());
    let right = net.create_node(reference("leaf"));
    assert_eq!(net.connect(root, 0, left, PRINCIPAL), Ok(()));
    assert_eq!(net.connect(root, 1, right, PRINCIPAL), Ok(()));
    assert_eq!(net.connect(left, 0, left, 1), Ok(()));
    let before: Vec<String> = (0..4).map(|i| net.wiring_str(i)).collect();
    let copy = net.clone_subgraph(root);
    assert_eq!(copy, 4);
    assert_eq!(net.node_count(), 7);
    for i in 0..4 {
        assert_eq!(net.wiring_str(i), before[i]);
    }
    assert_eq!(net.wiring_str(outside), "CON(0)[NULL, NULL]:NULL");
    assert_eq!(net.wiring_str(4), "CON(5)[5:2, 6:2]:NULL");
    assert_eq!(net.wiring_str(5), "DUP[5:1, 5:0]:4:0");
    assert_eq!(net.wiring_str(6), "REF(leaf):4:1");
    assert_eq!(net.redex_count(), 0);
    assert!(symmetric(&net));
}

#[test]
fn clone_subgraph_copies_a_shared_agent_once() {
    let mut net = Net::new();
    let root = net.create_node(con(1));
    let shared = net.create_node(dup());
    assert_eq!(net.connect(root, 0, shared, 0), Ok(()));
    assert_eq!(net.connect(root, 1, shared, 1), Ok(()));
    let copy = net.clone_subgraph(root);
    assert_eq!(copy, 2);
    assert_eq!(net.node_count(), 4);
    assert_eq!(net.wiring_str(2), "CON(1)[3:0, 3:1]:NULL");
    assert_eq!(net.wiring_str(3), "DUP[2:0, 2:1]:NULL");
    assert!(symmetric(&net));
}

#[test]
fn clone_subgraph_ends_on_a_cycle() {
    let mut net = Net::new();
    let a = net.create_node(con(1));
    let b = net.create_node(con(2));
    let c = net.create_node(con(3));
    assert_eq!(net.connect(a, 0, b, 1), Ok(()));
    assert_eq!(net.connect(b, 0, c, 1), Ok(()));
    assert_eq!(net.connect(c, 0, a, 1), Ok(()));
    assert_eq!(net.connect(a, PRINCIPAL, a, PRINCIPAL), Ok(()));
    assert_eq!(net.redex_count(), 1);
    let copy = net.clone_subgraph(b);
    assert_eq!(copy, 3);
    assert_eq!(net.node_count(), 6);
    let of_a: NodeId = net.get_node(copy).port(1).node;
    let of_c: NodeId = net.get_node(copy).port(0).node;
    assert_ne!(of_a, of_c);
    assert!(of_a > copy && of_c > copy);
    assert_eq!(net.wiring_str(copy), format!("CON(2)[{}:1, {}:0]:NULL", of_c, of_a));
    assert_eq!(net.wiring_str(of_c), format!("CON(3)[{}:1, {}:0]:NULL", of_a, copy));
    assert_eq!(net.wiring_str(of_a), format!("CON(1)[{}:1, {}:0]:{}:2", copy, of_c, of_a));
    assert_eq!(net.redex_count(), 2);
    let _ = net.next_redex();
    let found = net.next_redex().unwrap();
    assert_eq!((found.a, found.b), (of_a, of_a));
    assert!(symmetric(&net));
}

#[test]
fn clone_subgraph_queues_each_active_pair_of_the_copy_once() {
    let mut net = Net::new();
    let a = net.create_node(dup());
    let b = net.create_node(era());
    assert_eq!(net.connect(a, PRINCIPAL, b, PRINCIPAL), Ok(()));
    assert_eq!(net.redex_count(), 1);
    let copy = net.clone_subgraph(a);
    assert_eq!(copy, 2);
    assert_eq!(net.node_count(), 4);
    assert_eq!(net.redex_count(), 2);
    assert_eq!(net.wiring_str(2), "DUP[NULL, NULL]:3:2");
    assert_eq!(net.wiring_str(3), "ERA:2:2");
}

#[test]
fn wiring_stays_symmetric_through_many_connects() {
    let mut net = Net::new();
    let n = 6;
    for i in 0..n {
        if i % 2 == 0 {
            net.create_node(con(i as i32));
        } else {
            net.create_node(dup());
        }
    }
    let mut seed: usize = 12345;
    for _ in 0..200 {
        seed = seed.wrapping_mul(1103515245).wrapping_add(12345) % 2147483648;
        let a = seed % n;
        let sa = (seed / 7) % 3;
        let b = (seed / 31) % n;
        let sb = (seed / 211) % 3;
        assert_eq!(net.connect(a, sa, b, sb), Ok(()));
        assert_eq!(net.get_node(a).port(sa), Port::new(b, sb));
        assert_eq!(net.get_node(b).port(sb), Port::new(a, sa));
        assert!(symmetric(&net));
    }
}
