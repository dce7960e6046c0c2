use comm::address::Address;
use comm::node::{Node, Transport, UdpEndpoint};
use comm::routing_table::{InsertOutcome, RoutingTable};

fn addr(s: &str) -> Address {
    Address::from_str(s).unwrap()
}

fn endpoint(port: u16) -> Vec<Transport> {
    let mut ip = [0u8; 16];
    ip[10] = 0xff;
    ip[11] = 0xff;
    ip[12] = 127;
    ip[15] = 1;
    vec![Transport::Udp(UdpEndpoint { ip, port })]
}

fn test_node(address: Address) -> Node {
    Node::new(address, endpoint(6667), 0)
}

fn table_k2() -> RoutingTable {
    let self_node = addr("0000000000000000000000000000000000000000");
    let router = test_node(Address::null());
    RoutingTable::new(2, self_node, vec![router])
}

#[test]
fn test_insert() {
    let self_node = Address::from_str("0000000000000000000000000000000000000000").unwrap();
    let router = test_node(Address::null());
    let mut table: RoutingTable = RoutingTable::new(2, self_node, vec![router]);
    table.insert(test_node(addr("0000000000000000000000000000000000000001"))).unwrap();
    table.insert(test_node(addr("ffffffffffffffffffffffffffffffffffffffff"))).unwrap();
    assert_eq!(table.bucket_count(), 1);

    // Splits buckets upon adding a k+1th node in the same space as self node
    table.insert(test_node(addr("fffffffffffffffffffffffffffffffffffffffe"))).unwrap();
    assert_eq!(table.bucket_count(), 2);
    table.insert(test_node(addr("7fffffffffffffffffffffffffffffffffffffff"))).unwrap();
    table.insert(test_node(addr("7ffffffffffffffffffffffffffffffffffffffe"))).unwrap();
    assert_eq!(table.bucket_count(), 3);

    // Replaces instead of duplicates existing nodes
    table.insert(test_node(addr("0000000000000000000000000000000000000001"))).unwrap();
    table.insert(test_node(addr("0000000000000000000000000000000000000001"))).unwrap();
    table.insert(test_node(addr("0000000000000000000000000000000000000001"))).unwrap();
    assert_eq!(table.bucket_count(), 3);

    // Disregards new nodes for full, non-self space buckets
    table.insert(test_node(addr("fffffffffffffffffffffffffffffffffffffffd"))).unwrap();
    table.insert(test_node(addr("fffffffffffffffffffffffffffffffffffffffc"))).unwrap();
    table.insert(test_node(addr("fffffffffffffffffffffffffffffffffffffffb"))).unwrap();
    assert_eq!(table.bucket_count(), 3);

    // Ignores self-node
    assert_eq!(table.insert(test_node(self_node)).unwrap(), InsertOutcome::Ignored);
    assert_eq!(table.bucket_count(), 3);
}

#[test]
fn test_nearest_to() {
    let self_node = Address::from_str("0000000000000000000000000000000000000000").unwrap();
    let router = test_node(Address::null());
    let mut table: RoutingTable = RoutingTable::new(2, self_node, vec![router]);
    let addr_1 = addr("0000000000000000000000000000000000000001");
    let addr_2 = addr("7ffffffffffffffffffffffffffffffffffffffe");
    let addr_3 = addr("ffffffffffffffffffffffffffffffffffffffff");
    table.insert(test_node(addr_1)).unwrap();
    table.insert(test_node(addr_2)).unwrap();
    table.insert(test_node(addr_3)).unwrap();

    {
        let nearest = table.nearest_to(&addr("fffffffffffffffffffffffffffffffffffffffd"), false);
        assert_eq!(nearest[0].get_address(), addr_3);
        assert_eq!(nearest[1].get_address(), addr_2);
    }
    {
        let nearest = table.nearest_to(&addr("0000000000000000000000000000000000000002"), false);
        assert_eq!(nearest[0].get_address(), addr_1);
        assert_eq!(nearest[1].get_address(), addr_2);
    }
}

#[test]
fn concrete_split_scenario() {
    let mut table = table_k2();
    let one = addr("0000000000000000000000000000000000000001");
    let ones = addr("ffffffffffffffffffffffffffffffffffffffff");
    let fe = addr("fffffffffffffffffffffffffffffffffffffffe");
    assert_eq!(table.insert(test_node(one)).unwrap(), InsertOutcome::Inserted);
    assert_eq!(table.insert(test_node(ones)).unwrap(), InsertOutcome::Inserted);
    assert_eq!(table.bucket_count(), 1);
    assert_eq!(table.len(), 2);
    assert_eq!(table.insert(test_node(fe)).unwrap(), InsertOutcome::Inserted);
    assert_eq!(table.bucket_count(), 2);
    assert_eq!(table.len(), 3);
    assert!(table.find_node(&fe).is_some());
    assert_eq!(table.insert(test_node(one)).unwrap(), InsertOutcome::Updated);
    assert_eq!(table.bucket_count(), 2);
    assert_eq!(table.len(), 3);
}

#[test]
fn full_bucket_away_from_self_discards_without_split() {
    let mut table = table_k2();
    table.insert(test_node(addr("0000000000000000000000000000000000000001"))).unwrap();
    table.insert(test_node(addr("ffffffffffffffffffffffffffffffffffffffff"))).unwrap();
    table.insert(test_node(addr("fffffffffffffffffffffffffffffffffffffffe"))).unwrap();
    assert_eq!(table.bucket_count(), 2);
    let outcome = table.insert(test_node(addr("fffffffffffffffffffffffffffffffffffffffd"))).unwrap();
    assert_eq!(outcome, InsertOutcome::Discarded);
    assert_eq!(table.bucket_count(), 2);
    assert_eq!(table.len(), 3);
    assert!(table.find_node(&addr("fffffffffffffffffffffffffffffffffffffffd")).is_none());
}

#[test]
fn self_insertion_is_ignored() {
    let mut table = table_k2();
    table.insert(test_node(addr("0000000000000000000000000000000000000001"))).unwrap();
    let outcome = table.insert(test_node(table.self_address())).unwrap();
    assert_eq!(outcome, InsertOutcome::Ignored);
    assert_eq!(table.len(), 1);
    assert_eq!(table.bucket_count(), 1);
}

#[test]
fn reinsertion_updates_the_record() {
    let mut table = table_k2();
    let one = addr("0000000000000000000000000000000000000001");
    table.insert(Node::new(one, endpoint(1), 5)).unwrap();
    let outcome = table.insert(Node::new(one, endpoint(2), 9)).unwrap();
    assert_eq!(outcome, InsertOutcome::Updated);
    assert_eq!(table.len(), 1);
    let found = table.find_node(&one).unwrap();
    assert_eq!(found.last_seen, 9);
    assert_eq!(found.transports, endpoint(2));
}

#[test]
fn splits_repeat_while_peers_share_a_half() {
    let mut table = table_k2();
    table.insert(test_node(addr("0000000000000000000000000000000000000001"))).unwrap();
    table.insert(test_node(addr("0000000000000000000000000000000000000002"))).unwrap();
    let outcome = table.insert(test_node(addr("0000000000000000000000000000000000000003"))).unwrap();
    // The three share their first 158 bits with the table's own identifier:
    // the table splits until the new peer's half has room.
    assert_eq!(outcome, InsertOutcome::Inserted);
    assert_eq!(table.bucket_count(), 160);
    assert_eq!(table.len(), 3);
}

#[test]
fn bucket_count_never_exceeds_the_identifier_length() {
    let mut table = table_k2();
    let ids = [
        "0000000000000000000000000000000000000001",
        "0000000000000000000000000000000000000002",
        "0000000000000000000000000000000000000003",
        "8000000000000000000000000000000000000000",
        "4000000000000000000000000000000000000000",
    ];
    for id in ids.iter() {
        table.insert(test_node(addr(id))).unwrap();
    }
    assert_eq!(table.bucket_count(), 160);
    assert_eq!(table.len(), 5);
}

#[test]
fn nearest_to_orders_by_distance_and_appends_routers() {
    let mut table = table_k2();
    table.insert(test_node(addr("0000000000000000000000000000000000000001"))).unwrap();
    let only = table.nearest_to(&addr("0000000000000000000000000000000000000000"), true);
    assert_eq!(only.len(), 2);
    assert_eq!(only[0].get_address(), addr("0000000000000000000000000000000000000001"));
    assert_eq!(only[1].get_address(), Address::null());
    let genuine = table.nearest_to(&addr("0000000000000000000000000000000000000000"), false);
    assert_eq!(genuine.len(), 1);
}

#[test]
fn nearest_to_is_non_decreasing_in_distance() {
    let mut table = RoutingTable::new(20, Address::null(), vec![]);
    let ids = [
        "00000000000000000000000000000000000000f0",
        "000000000000000000000000000000000000000f",
        "0000000000000000000000000000000000000100",
        "8000000000000000000000000000000000000000",
        "0000000000000000000000000000000000000001",
    ];
    for id in ids.iter() {
        table.insert(test_node(addr(id))).unwrap();
    }
    let target = addr("00000000000000000000000000000000000000ff");
    let nearest = table.nearest_to(&target, false);
    assert_eq!(nearest.len(), 5);
    for w in nearest.windows(2) {
        let a = w[0].get_address().distance_from(&target);
        let b = w[1].get_address().distance_from(&target);
        assert!(a < b);
    }
    assert_eq!(nearest[0].get_address(), addr("00000000000000000000000000000000000000f0"));
    let me = table.nearest();
    assert_eq!(me[0].get_address(), addr("0000000000000000000000000000000000000001"));
}

#[test]
fn questionable_nodes_follow_failures_and_silence() {
    let mut table = RoutingTable::new(8, Address::null(), vec![]);
    let a = addr("0000000000000000000000000000000000000001");
    let b = addr("0000000000000000000000000000000000000002");
    table.insert(Node::new(a, endpoint(1), 1000)).unwrap();
    table.insert(Node::new(b, endpoint(2), 1000)).unwrap();
    assert_eq!(table.questionable_nodes(1000).len(), 0);
    for _ in 0..4 {
        assert!(table.record_failure(&a));
    }
    let q = table.questionable_nodes(1000);
    assert_eq!(q.len(), 1);
    assert_eq!(q[0].get_address(), a);
    assert!(table.record_success(&a, 1000));
    assert_eq!(table.questionable_nodes(1000).len(), 0);
    assert_eq!(table.questionable_nodes(1000 + 901).len(), 2);
    assert!(!table.record_failure(&addr("0000000000000000000000000000000000000003")));
}

#[test]
fn empty_table_offers_only_routers() {
    let table = table_k2();
    let nearest = table.nearest_to(&addr("1234567890123456789012345678901234567890"), true);
    assert_eq!(nearest.len(), 1);
    assert_eq!(nearest[0].get_address(), Address::null());
    assert_eq!(table.nearest_to(&Address::null(), false).len(), 0);
    assert!(table.find_node(&Address::null()).is_none());
}
