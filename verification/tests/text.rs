use vice::interaction::InteractionResult;
use vice::net::{Net, Node, Port, PRINCIPAL};

#[test]
fn node_str_of_each_kind() {
    let mut net = Net::new();
    let c = net.create_node(Node::Con { tag: 7, ports: [Port::null(); 3] });
    let d = net.create_node(Node::Dup { ports: [Port::null(); 3] });
    let r = net.create_node(Node::Ref { name: "main".to_string(), port: Port::null() });
    let e = net.create_node(Node::Era { port: Port::null() });
    assert_eq!(net.connect(c, 0, d, PRINCIPAL), Ok(()));
    assert_eq!(net.connect(c, PRINCIPAL, e, PRINCIPAL), Ok(()));
    assert_eq!(net.connect(d, 1, r, PRINCIPAL), Ok(()));
    assert_eq!(net.node_str(c), "CON(7)[1:2, NULL]");
    assert_eq!(net.node_str(d), "DUP[NULL, 2:2]");
    assert_eq!(net.node_str(r), "REF(main):1:1");
    assert_eq!(net.node_str(e), "ERA:0:2");
}

#[test]
fn wiring_str_of_each_kind() {
    let mut net = Net::new();
    let c = net.create_node(Node::Con { tag: 7, ports: [Port::null(); 3] });
    let d = net.create_node(Node::Dup { ports: [Port::null(); 3] });
    let r = net.create_node(Node::Ref { name: "main".to_string(), port: Port::null() });
    let e = net.create_node(Node::Era { port: Port::null() });
    assert_eq!(net.connect(c, 0, d, PRINCIPAL), Ok(()));
    assert_eq!(net.connect(c, PRINCIPAL, e, PRINCIPAL), Ok(()));
    assert_eq!(net.connect(d, 1, r, PRINCIPAL), Ok(()));
    assert_eq!(net.wiring_str(c), "CON(7)[1:2, NULL]:3:2");
    assert_eq!(net.wiring_str(d), "DUP[NULL, 2:2]:0:0");
    assert_eq!(net.wiring_str(r), "REF(main):1:1");
    assert_eq!(net.wiring_str(e), "ERA:0:2");
}

#[test]
fn node_str_of_unwired_agents() {
    let mut net = Net::new();
    net.create_node(Node::Con { tag: 7, ports: [Port::null(); 3] });
    net.create_node(Node::Dup { ports: [Port::null(); 3] });
    net.create_node(Node::Ref { name: "f".to_string(), port: Port::null() });
    let before = net.render();
    assert_eq!(net.node_str(0), "CON(7)[NULL, NULL]");
    assert_eq!(net.node_str(1), "DUP[NULL, NULL]");
    assert_eq!(net.node_str(2), "REF(f):NULL");
    assert_eq!(net.render(), before);
}

#[test]
fn node_str_of_a_sum() {
    let mut net = Net::new();
    let two = net.create_node(Node::Con { tag: 2, ports: [Port::null(); 3] });
    let three = net.create_node(Node::Con { tag: 3, ports: [Port::null(); 3] });
    let add = net.create_node(Node::Con { tag: 100, ports: [Port::null(); 3] });
    assert_eq!(net.connect(add, 0, two, 0), Ok(()));
    assert_eq!(net.connect(add, 1, three, 0), Ok(()));
    assert_eq!(net.node_str(add), "CON(100)[0:0, 1:0]");
    assert_eq!(net.node_str(add), net.node_str(add));
    assert_eq!(net.node_str(two), "CON(2)[2:0, NULL]");
    assert_eq!(net.wiring_str(add), "CON(100)[0:0, 1:0]:NULL");
}

#[test]
fn node_str_of_tags_of_every_sign() {
    let mut net = Net::new();
    let tags = [0, 9, 10, 100, -1, -10, 2147483647, -2147483648];
    for tag in tags {
        let id = net.create_node(Node::Con { tag, ports: [Port::null(); 3] });
        assert_eq!(net.node_str(id), format!("CON({})[NULL, NULL]", tag));
        assert_eq!(net.wiring_str(id), format!("CON({})[NULL, NULL]:NULL", tag));
    }
}

#[test]
fn node_str_of_handles_of_several_digits() {
    let mut net = Net::new();
    for _ in 0..121 {
        net.create_node(Node::Era { port: Port::null() });
    }
    let c = net.create_node(Node::Con { tag: 1, ports: [Port::null(); 3] });
    assert_eq!(net.connect(c, 0, 120, PRINCIPAL), Ok(()));
    assert_eq!(net.connect(c, 1, 99, PRINCIPAL), Ok(()));
    assert_eq!(net.connect(c, PRINCIPAL, 7, PRINCIPAL), Ok(()));
    assert_eq!(net.node_str(c), "CON(1)[120:2, 99:2]");
    assert_eq!(net.wiring_str(c), "CON(1)[120:2, 99:2]:7:2");
    assert_eq!(net.node_str(120), "ERA:121:0");
}

#[test]
fn node_str_of_an_empty_name() {
    let mut net = Net::new();
    let r = net.create_node(Node::Ref { name: String::new(), port: Port::null() });
    assert_eq!(net.node_str(r), "REF():NULL");
}

#[test]
fn render_of_the_empty_net() {
    let net = Net::new();
    assert_eq!(net.render(), "Net with 0 nodes:\nDefinitions:\nActive pairs: []\n");
}

#[test]
fn render_lists_agents_definitions_and_pairs() {
    let mut net = Net::new();
    let a = net.create_node(Node::Con { tag: 2, ports: [Port::null(); 3] });
    let b = net.create_node(Node::Con { tag: 2, ports: [Port::null(); 3] });
    let c = net.create_node(Node::Era { port: Port::null() });
    let d = net.create_node(Node::Dup { ports: [Port::null(); 3] });
    net.add_definition("f", a);
    net.add_definition("second one", d);
    assert_eq!(net.connect(a, PRINCIPAL, b, PRINCIPAL), Ok(()));
    assert_eq!(net.connect(d, PRINCIPAL, c, PRINCIPAL), Ok(()));
    assert_eq!(
        net.render(),
        "Net with 4 nodes:\n  0: CON(2)[NULL, NULL]:1:2\n  1: CON(2)[NULL, NULL]:0:2\n  2: ERA:3:2\n  3: DUP[NULL, NULL]:2:2\nDefinitions:\n  f -> 0\n  second one -> 3\nActive pairs: [0-1, 3-2]\n"
    );
}

#[test]
fn render_is_the_same_each_time() {
    let mut net = Net::new();
    for i in 0..5 {
        let id = net.create_node(Node::Con { tag: i, ports: [Port::null(); 3] });
        net.add_definition(&format!("d{}", 4 - i), id);
    }
    let first = net.render();
    assert_eq!(net.render(), first);
    assert!(first.contains("Definitions:\n  d4 -> 0\n  d3 -> 1\n  d2 -> 2\n  d1 -> 3\n  d0 -> 4\n"));
}

#[test]
fn describe_an_outcome() {
    assert_eq!(InteractionResult::Success.describe(), "Success");
    assert_eq!(
        InteractionResult::Error("Unsupported interaction".to_string()).describe(),
        "Error: Unsupported interaction"
    );
    assert_eq!(InteractionResult::Error(String::new()).describe(), "Error: ");
}
