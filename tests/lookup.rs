use comm::address::Address;
use comm::lookup::Lookup;
use comm::node::{Node, Transport, UdpEndpoint};

fn addr(s: &str) -> Address {
    Address::from_str(s).unwrap()
}

fn node(s: &str) -> Node {
    let ip = [0u8; 16];
    Node::new(addr(s), vec![Transport::Udp(UdpEndpoint { ip, port: 1 })], 0)
}

fn target() -> Address {
    addr("0000000000000000000000000000000000000000")
}

#[test]
fn first_round_queries_the_nearest_seeds() {
    let seeds = vec![
        node("00000000000000000000000000000000000000f0"),
        node("0000000000000000000000000000000000000001"),
        node("000000000000000000000000000000000000000f"),
    ];
    let mut lookup = Lookup::new(target(), 2, 2, 5, seeds);
    assert!(!lookup.is_finished());
    let round = lookup.next_round();
    assert_eq!(round.len(), 2);
    assert_eq!(round[0].get_address(), addr("0000000000000000000000000000000000000001"));
    assert_eq!(round[1].get_address(), addr("000000000000000000000000000000000000000f"));
    let next = lookup.next_round();
    assert_eq!(next.len(), 0);
    assert!(lookup.is_finished());
}

#[test]
fn closer_answers_keep_the_search_going() {
    let seeds = vec![node("00000000000000000000000000000000000000f0")];
    let mut lookup = Lookup::new(target(), 2, 1, 5, seeds);
    let round = lookup.next_round();
    assert_eq!(round.len(), 1);
    assert!(lookup.on_answer(&addr("00000000000000000000000000000000000000f0")));
    lookup.add_all(vec![node("0000000000000000000000000000000000000002"), node("00000000000000000000000000000000000000f0")]);
    assert!(!lookup.is_finished());
    let round = lookup.next_round();
    assert_eq!(round.len(), 1);
    assert_eq!(round[0].get_address(), addr("0000000000000000000000000000000000000002"));
    assert!(lookup.on_answer(&addr("0000000000000000000000000000000000000002")));
    let result = lookup.result();
    assert_eq!(result.len(), 2);
    assert_eq!(result[0].get_address(), addr("0000000000000000000000000000000000000002"));
}

#[test]
fn timeouts_drop_candidates_from_the_result() {
    let seeds = vec![
        node("0000000000000000000000000000000000000001"),
        node("0000000000000000000000000000000000000002"),
        node("0000000000000000000000000000000000000003"),
    ];
    let mut lookup = Lookup::new(target(), 2, 3, 5, seeds);
    lookup.next_round();
    assert!(lookup.on_answer(&addr("0000000000000000000000000000000000000002")));
    assert!(lookup.on_answer(&addr("0000000000000000000000000000000000000003")));
    assert!(lookup.on_timeout(&addr("0000000000000000000000000000000000000001")));
    assert!(!lookup.on_timeout(&addr("0000000000000000000000000000000000000009")));
    let result = lookup.result();
    assert_eq!(result.len(), 2);
    assert_eq!(result[0].get_address(), addr("0000000000000000000000000000000000000002"));
    assert_eq!(result[1].get_address(), addr("0000000000000000000000000000000000000003"));
}

#[test]
fn round_budget_bounds_the_search() {
    let seeds = vec![node("0000000000000000000000000000000000000100")];
    let mut lookup = Lookup::new(target(), 4, 1, 1, seeds);
    assert_eq!(lookup.next_round().len(), 1);
    lookup.add_all(vec![node("0000000000000000000000000000000000000001")]);
    assert!(lookup.is_finished());
    assert_eq!(lookup.next_round().len(), 0);
}

#[test]
fn duplicate_candidates_are_added_once() {
    let mut lookup = Lookup::new(target(), 4, 1, 3, vec![]);
    assert!(lookup.is_finished());
    assert!(lookup.add_candidate(node("0000000000000000000000000000000000000005")));
    assert!(!lookup.add_candidate(node("0000000000000000000000000000000000000005")));
    assert_eq!(lookup.result().len(), 0);
    assert!(lookup.on_answer(&addr("0000000000000000000000000000000000000005")));
    assert_eq!(lookup.result().len(), 1);
}

#[test]
fn only_answering_candidates_make_the_result() {
    let seeds = vec![
        node("0000000000000000000000000000000000000001"),
        node("0000000000000000000000000000000000000002"),
    ];
    let mut lookup = Lookup::new(target(), 2, 2, 3, seeds);
    lookup.next_round();
    assert!(!lookup.on_answer(&addr("0000000000000000000000000000000000000007")));
    assert!(lookup.on_answer(&addr("0000000000000000000000000000000000000002")));
    let result = lookup.result();
    assert_eq!(result.len(), 1);
    assert_eq!(result[0].get_address(), addr("0000000000000000000000000000000000000002"));
}
