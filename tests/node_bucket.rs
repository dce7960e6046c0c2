use comm::address::Address;
use comm::node::{Node, Transport, UdpEndpoint};
use comm::node_bucket::NodeBucket;

fn node(s: &str) -> Node {
    let ip = [0u8; 16];
    Node::new(Address::from_str(s).unwrap(), vec![Transport::Udp(UdpEndpoint { ip, port: 7 })], 0)
}

#[test]
fn new_bucket_covers_everything() {
    let b = NodeBucket::new(3);
    assert!(b.covers(&Address::null()));
    assert!(b.covers(&Address::from_str("ffffffffffffffffffffffffffffffffffffffff").unwrap()));
    assert_eq!(b.len(), 0);
    assert!(!b.is_full());
}

#[test]
fn split_halves_the_range_at_its_midpoint() {
    let nodes = vec![
        node("0000000000000000000000000000000000000001"),
        node("8000000000000000000000000000000000000000"),
        node("7fffffffffffffffffffffffffffffffffffffff"),
    ];
    let mut b = NodeBucket::new(3);
    b.add(0);
    b.add(1);
    b.add(2);
    assert!(b.is_full());
    let (lo, hi) = b.split(&nodes);
    assert_eq!(lo.depth, 1);
    assert_eq!(hi.depth, 1);
    assert_eq!(lo.handles, vec![0, 2]);
    assert_eq!(hi.handles, vec![1]);
    assert!(lo.covers(&Address::from_str("7fffffffffffffffffffffffffffffffffffffff").unwrap()));
    assert!(!lo.covers(&Address::from_str("8000000000000000000000000000000000000000").unwrap()));
    assert!(hi.covers(&Address::from_str("8000000000000000000000000000000000000000").unwrap()));
    assert!(!hi.covers(&Address::null()));
    assert_eq!(lo.find(&nodes, &Address::from_str("7fffffffffffffffffffffffffffffffffffffff").unwrap()), Some(2));
    assert_eq!(hi.find(&nodes, &Address::null()), None);
    let (lolo, lohi) = lo.split(&nodes);
    assert!(lolo.covers(&Address::from_str("3fffffffffffffffffffffffffffffffffffffff").unwrap()));
    assert!(lohi.covers(&Address::from_str("4000000000000000000000000000000000000000").unwrap()));
    assert_eq!(lolo.handles, vec![0]);
    assert_eq!(lohi.handles, vec![2]);
}
