use comm::messages::{Envelope, Envelope_Type, FindNodeQuery, Node, PacketQuery, Transport, Transport_Type, UdpTransport};

#[test]
fn scalar_fields_default_and_clear() {
    let mut u = UdpTransport::new();
    assert!(!u.has_port());
    assert_eq!(u.get_port(), 0);
    u.set_port(6667);
    assert!(u.has_port());
    assert_eq!(u.get_port(), 6667);
    u.clear_port();
    assert!(!u.has_port());
    assert_eq!(u.get_port(), 0);
}

#[test]
fn bytes_fields_take_and_mutate() {
    let mut u = UdpTransport::new();
    u.set_ip_address(vec![10, 0, 1, 13]);
    assert_eq!(u.get_ip_address(), &[10, 0, 1, 13]);
    u.mut_ip_address().push(7);
    assert_eq!(u.get_ip_address(), &[10, 0, 1, 13, 7]);
    let taken = u.take_ip_address();
    assert_eq!(taken, vec![10, 0, 1, 13, 7]);
    assert!(!u.has_ip_address());
    assert_eq!(u.get_ip_address().len(), 0);
}

#[test]
fn nested_and_repeated_fields() {
    let mut t = Transport::new();
    assert_eq!(t.get_transport_type(), Transport_Type::UDP);
    let mut u = UdpTransport::new();
    u.set_port(1);
    t.set_udp_transport(u);
    t.set_transport_type(Transport_Type::UDP);
    let mut n = Node::new();
    n.set_id("8b45e4bd1c6acb88bebf6407d16205f567e62a3e".to_string());
    n.mut_transports().push(t);
    assert_eq!(n.get_transports().len(), 1);
    assert_eq!(n.get_transports()[0].get_udp_transport().get_port(), 1);
    let mut q = FindNodeQuery::new();
    q.set_origin(n);
    q.set_target("00".to_string());
    assert_eq!(q.get_origin().get_id(), "8b45e4bd1c6acb88bebf6407d16205f567e62a3e");
    let origin = q.take_origin();
    assert!(!q.has_origin());
    assert_eq!(origin.get_transports().len(), 1);
    assert_eq!(q.get_target(), "00");
}

#[test]
fn envelope_carries_type_and_transaction_id() {
    let mut e = Envelope::new();
    assert_eq!(e.get_message_type(), Envelope_Type::FIND_NODE_QUERY);
    e.set_message_type(Envelope_Type::PACKET_QUERY);
    e.set_transaction_id(42);
    let mut p = PacketQuery::new();
    p.set_payload(b"hello".to_vec());
    e.set_packet_query(p);
    assert!(e.has_packet_query());
    assert!(!e.has_ping_query());
    assert_eq!(e.get_packet_query().get_payload(), b"hello");
    assert_eq!(e.get_transaction_id(), 42);
    assert_eq!(e.get_message_type().value(), 5);
}

#[test]
fn enum_numbers_round_trip() {
    assert_eq!(Envelope_Type::from_i32(3), Some(Envelope_Type::PING_QUERY));
    assert_eq!(Envelope_Type::from_i32(0), None);
    assert_eq!(Envelope_Type::from_i32(7), None);
    assert_eq!(Transport_Type::from_i32(1), Some(Transport_Type::UDP));
    assert_eq!(Transport_Type::from_i32(2), None);
    assert_eq!(Transport_Type::UDP.value(), 1);
}

#[test]
fn required_fields_decide_initialization() {
    let mut u = UdpTransport::new();
    assert!(!u.is_initialized());
    u.set_ip_address(vec![127, 0, 0, 1]);
    assert!(!u.is_initialized());
    u.set_port(1);
    assert!(u.is_initialized());
    u.clear();
    assert!(!u.has_ip_address());
    assert!(!u.has_port());
    let mut e = Envelope::new();
    e.set_message_type(Envelope_Type::PING_QUERY);
    assert!(!e.is_initialized());
    e.set_transaction_id(0);
    assert!(e.is_initialized());
}

#[test]
fn enum_values_in_wire_order() {
    let values = Envelope_Type::values();
    assert_eq!(values.len(), 6);
    for (i, v) in values.iter().enumerate() {
        assert_eq!(v.value(), i as i32 + 1);
    }
    assert_eq!(Transport_Type::values(), vec![Transport_Type::UDP]);
}
