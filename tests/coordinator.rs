use comm::address::Address;
use comm::coordinator::Coordinator;
use comm::node::{Node, Transport, UdpEndpoint};
use comm::routing_table::RoutingTable;

fn addr(s: &str) -> Address {
    Address::from_str(s).unwrap()
}

fn node(s: &str) -> Node {
    let ip = [0u8; 16];
    Node::new(addr(s), vec![Transport::Udp(UdpEndpoint { ip, port: 9 })], 0)
}

fn table() -> RoutingTable {
    let mut table = RoutingTable::new(4, Address::null(), vec![]);
    table.insert(node("00000000000000000000000000000000000000f0")).unwrap();
    table.insert(node("000000000000000000000000000000000000f000")).unwrap();
    table
}

#[test]
fn responses_feed_the_table_and_the_lookup() {
    let target = addr("0000000000000000000000000000000000000001");
    let mut c = Coordinator::new(table(), target, 2, 4, 30);
    let queries = c.start_round(100);
    assert_eq!(queries.len(), 2);
    assert_ne!(queries[0].transaction_id, queries[1].transaction_id);
    let first = queries[0].transaction_id;
    let answered = c.on_response(first, vec![node("0000000000000000000000000000000000000003")], 105);
    assert!(answered);
    assert!(!c.on_response(first, vec![], 106));
    assert!(c.table().find_node(&addr("0000000000000000000000000000000000000003")).is_some());
    assert!(!c.is_finished());
    let result = c.result();
    assert_eq!(result.len(), 1);
    assert_eq!(result[0].get_address(), queries[0].destination.get_address());
    assert_eq!(queries[0].destination.get_address(), addr("00000000000000000000000000000000000000f0"));
    let responder = c.table().find_node(&addr("00000000000000000000000000000000000000f0")).unwrap();
    assert_eq!(responder.last_seen, 105);
}

#[test]
fn timeouts_fail_peers_and_end_transactions() {
    let target = addr("0000000000000000000000000000000000000001");
    let mut c = Coordinator::new(table(), target, 2, 4, 30);
    let queries = c.start_round(100);
    assert_eq!(c.on_tick(130).len(), 0);
    let expired = c.on_tick(131);
    assert_eq!(expired.len(), 2);
    for q in queries.iter() {
        assert!(!c.on_response(q.transaction_id, vec![], 140));
    }
    assert_eq!(c.result().len(), 0);
    let failed = c.table().find_node(&addr("00000000000000000000000000000000000000f0")).unwrap();
    assert_eq!(failed.failures, 1);
    assert!(c.is_finished());
    assert_eq!(c.start_round(150).len(), 0);
}
