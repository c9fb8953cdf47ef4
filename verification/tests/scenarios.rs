use vice::net::{Net, Node, Port, PRINCIPAL};
use vice::runtime::Runtime;

fn con(tag: i32) -> Node {
    Node::Con { tag, ports: [Port::null(); 3] }
}

#[test]
fn sum_net_is_irreducible() {
    let mut net = Net::new();
    let two = net.create_node(con(2));
    let three = net.create_node(con(3));
    let add = net.create_node(con(100));
    assert!(net.connect(add, 0, two, PRINCIPAL).is_ok());
    assert!(net.connect(add, 1, three, PRINCIPAL).is_ok());
    assert_eq!(net.redex_count(), 0);
    let mut runtime = Runtime::new(net);
    assert_eq!(runtime.run(), Ok(()));
    assert_eq!(runtime.get_stats().steps, 0);
    assert_eq!(runtime.get_stats().max_nodes, 3);
    let net = runtime.get_net();
    assert_eq!(net.node_count(), 3);
    assert_eq!(net.get_node(add).port(0), Port::new(two, PRINCIPAL));
    assert_eq!(net.get_node(add).port(1), Port::new(three, PRINCIPAL));
    assert_eq!(net.get_node(two).port(PRINCIPAL), Port::new(add, 0));
    assert_eq!(net.get_node(three).port(PRINCIPAL), Port::new(add, 1));
}
