//! The messages nodes exchange, as plain data. Each field holds a value and
//! a flag telling whether it was set; an unset field reads as its default.
use vstd::prelude::*;

verus! {

/// The kinds of transport a node may offer.
#[allow(non_camel_case_types)]
#[derive(Clone, Copy, Debug, PartialEq, Eq, Hash, Structural)]
pub enum Transport_Type {
    UDP,
}

impl Transport_Type {
    /// The number that stands for the kind on the wire.
    pub fn value(&self) -> (r: i32)
        ensures
            r == 1,
    {
        match self {
            Transport_Type::UDP => 1,
        }
    }

    /// Every kind, in wire-number order.
    pub fn values() -> (r: Vec<Transport_Type>)
        ensures
            r@ == seq![Transport_Type::UDP],
    {
        let mut r: Vec<Transport_Type> = Vec::new();
        r.push(Transport_Type::UDP);
        proof {
            assert(r@ =~= seq![Transport_Type::UDP]);
        }
        r
    }

    /// The kind a wire number stands for, if any.
    pub fn from_i32(value: i32) -> (r: Option<Transport_Type>)
        ensures
            r == if value == 1 {
                Some(Transport_Type::UDP)
            } else {
                None
            },
    {
        if value == 1 {
            Some(Transport_Type::UDP)
        } else {
            None
        }
    }
}

/// The kinds of message an envelope may carry.
#[allow(non_camel_case_types)]
#[derive(Clone, Copy, Debug, PartialEq, Eq, Hash, Structural)]
pub enum Envelope_Type {
    FIND_NODE_QUERY,
    FIND_NODE_RESPONSE,
    PING_QUERY,
    PING_RESPONSE,
    PACKET_QUERY,
    PACKET_RESPONSE,
}

/// The number that stands for a message kind on the wire.
pub open spec fn envelope_type_number(t: Envelope_Type) -> i32 {
    match t {
        Envelope_Type::FIND_NODE_QUERY => 1,
        Envelope_Type::FIND_NODE_RESPONSE => 2,
        Envelope_Type::PING_QUERY => 3,
        Envelope_Type::PING_RESPONSE => 4,
        Envelope_Type::PACKET_QUERY => 5,
        Envelope_Type::PACKET_RESPONSE => 6,
    }
}

impl Envelope_Type {
    /// The number that stands for the kind on the wire.
    pub fn value(&self) -> (r: i32)
        ensures
            r == envelope_type_number(*self),
    {
        match self {
            Envelope_Type::FIND_NODE_QUERY => 1,
            Envelope_Type::FIND_NODE_RESPONSE => 2,
            Envelope_Type::PING_QUERY => 3,
            Envelope_Type::PING_RESPONSE => 4,
            Envelope_Type::PACKET_QUERY => 5,
            Envelope_Type::PACKET_RESPONSE => 6,
        }
    }

    /// Every kind, in wire-number order.
    pub fn values() -> (r: Vec<Envelope_Type>)
        ensures
            r@.len() == 6,
            forall|i: int| 0 <= i < 6 ==> envelope_type_number(#[trigger] r@[i]) == i + 1,
    {
        let r: Vec<Envelope_Type> = vec![
            Envelope_Type::FIND_NODE_QUERY,
            Envelope_Type::FIND_NODE_RESPONSE,
            Envelope_Type::PING_QUERY,
            Envelope_Type::PING_RESPONSE,
            Envelope_Type::PACKET_QUERY,
            Envelope_Type::PACKET_RESPONSE,
        ];
        r
    }

    /// The kind a wire number stands for, if any.
    pub fn from_i32(value: i32) -> (r: Option<Envelope_Type>)
        ensures
            r matches Some(t) ==> envelope_type_number(t) == value,
            r is None <==> !(1 <= value <= 6),
    {
        match value {
            1 => Some(Envelope_Type::FIND_NODE_QUERY),
            2 => Some(Envelope_Type::FIND_NODE_RESPONSE),
            3 => Some(Envelope_Type::PING_QUERY),
            4 => Some(Envelope_Type::PING_RESPONSE),
            5 => Some(Envelope_Type::PACKET_QUERY),
            6 => Some(Envelope_Type::PACKET_RESPONSE),
            _ => None,
        }
    }
}

/// Wire message: a UDP endpoint: raw IP address bytes and a port.
#[derive(Clone, Debug, PartialEq)]
pub struct UdpTransport {
    ip_address: Vec<u8>,
    has_ip_address: bool,
    port: u32,
    has_port: bool,
}

/// What a `UdpTransport` holds: each field's value, and whether it was set.
pub struct UdpTransportView {
    pub ip_address: Seq<u8>,
    pub has_ip_address: bool,
    pub port: u32,
    pub has_port: bool,
}

impl View for UdpTransport {
    type V = UdpTransportView;

    closed spec fn view(&self) -> UdpTransportView {
        UdpTransportView {
            ip_address: self.ip_address@,
            has_ip_address: self.has_ip_address,
            port: self.port,
            has_port: self.has_port,
        }
    }
}

/// A `UdpTransport` with no field set.
pub open spec fn default_udp_transport() -> UdpTransportView {
    UdpTransportView {
        ip_address: Seq::<u8>::empty(),
        has_ip_address: false,
        port: 0,
        has_port: false,
    }
}

impl UdpTransport {
    /// An unset field holds its default.
    pub closed spec fn wf(&self) -> bool {
        &&& !self.has_ip_address ==> self.ip_address@ == Seq::<u8>::empty()
        &&& !self.has_port ==> self.port == 0
    }

    /// A message with no field set.
    pub fn new() -> (r: UdpTransport)
        ensures
            r@ == default_udp_transport(),
            r.wf(),
    {
        let ip_address = Vec::new();
        let r = UdpTransport {
            ip_address,
            has_ip_address: false,
            port: 0,
            has_port: false,
        };
        r
    }

    /// Whether every required field is set.
    pub fn is_initialized(&self) -> (r: bool)
        ensures
            r == (self@.has_ip_address && self@.has_port),
    {
        self.has_ip_address && self.has_port
    }

    /// Unsets every field.
    pub fn clear(&mut self)
        ensures
            final(self)@ == default_udp_transport(),
            final(self).wf(),
    {
        *self = UdpTransport::new();
    }

    pub fn clear_ip_address(&mut self)
        requires
            old(self).wf(),
        ensures
            final(self).wf(),
            final(self)@ == (UdpTransportView { ip_address: Seq::<u8>::empty(), has_ip_address: false, ..old(self)@ }),
    {
        self.ip_address = Vec::new();
        self.has_ip_address = false;
    }

    pub fn has_ip_address(&self) -> (r: bool)
        ensures
            r == self@.has_ip_address,
    {
        self.has_ip_address
    }

    pub fn set_ip_address(&mut self, v: Vec<u8>)
        requires
            old(self).wf(),
        ensures
            final(self).wf(),
            final(self)@ == (UdpTransportView { ip_address: v@, has_ip_address: true, ..old(self)@ }),
    {
        self.ip_address = v;
        self.has_ip_address = true;
    }

    pub fn mut_ip_address(&mut self) -> (r: &mut Vec<u8>)
        requires
            old(self).wf(),
        ensures
            final(self).wf(),
            (*r)@ == old(self)@.ip_address,
            !old(self)@.has_ip_address ==> (*r)@ == Seq::<u8>::empty(),
            final(self)@ == (UdpTransportView { ip_address: (*final(r))@, has_ip_address: true, ..old(self)@ }),
    {
        self.has_ip_address = true;
        &mut self.ip_address
    }

    pub fn take_ip_address(&mut self) -> (r: Vec<u8>)
        requires
            old(self).wf(),
        ensures
            final(self).wf(),
            r@ == old(self)@.ip_address,
            !old(self)@.has_ip_address ==> r@ == Seq::<u8>::empty(),
            final(self)@ == (UdpTransportView { ip_address: Seq::<u8>::empty(), has_ip_address: false, ..old(self)@ }),
    {
        let mut v = Vec::new();
        std::mem::swap(&mut v, &mut self.ip_address);
        self.has_ip_address = false;
        v
    }

    pub fn get_ip_address(&self) -> (r: &[u8])
        requires
            self.wf(),
        ensures
            r@ == self@.ip_address,
            !self@.has_ip_address ==> r@ == Seq::<u8>::empty(),
    {
        self.ip_address.as_slice()
    }

    pub fn clear_port(&mut self)
        requires
            old(self).wf(),
        ensures
            final(self).wf(),
            final(self)@ == (UdpTransportView { port: 0, has_port: false, ..old(self)@ }),
    {
        self.port = 0;
        self.has_port = false;
    }

    pub fn has_port(&self) -> (r: bool)
        ensures
            r == self@.has_port,
    {
        self.has_port
    }

    pub fn set_port(&mut self, v: u32)
        requires
            old(self).wf(),
        ensures
            final(self).wf(),
            final(self)@ == (UdpTransportView { port: v, has_port: true, ..old(self)@ }),
    {
        self.port = v;
        self.has_port = true;
    }

    pub fn get_port(&self) -> (r: u32)
        requires
            self.wf(),
        ensures
            r == self@.port,
            !self@.has_port ==> r == 0,
    {
        self.port
    }
}

/// Wire message: a way to reach a node.
#[derive(Clone, Debug, PartialEq)]
pub struct Transport {
    transport_type: Transport_Type,
    has_transport_type: bool,
    udp_transport: UdpTransport,
    has_udp_transport: bool,
}

/// What a `Transport` holds: each field's value, and whether it was set.
pub struct TransportView {
    pub transport_type: Transport_Type,
    pub has_transport_type: bool,
    pub udp_transport: UdpTransportView,
    pub has_udp_transport: bool,
}

impl View for Transport {
    type V = TransportView;

    closed spec fn view(&self) -> TransportView {
        TransportView {
            transport_type: self.transport_type,
            has_transport_type: self.has_transport_type,
            udp_transport: self.udp_transport@,
            has_udp_transport: self.has_udp_transport,
        }
    }
}

/// A `Transport` with no field set.
pub open spec fn default_transport() -> TransportView {
    TransportView {
        transport_type: Transport_Type::UDP,
        has_transport_type: false,
        udp_transport: default_udp_transport(),
        has_udp_transport: false,
    }
}

impl Transport {
    /// An unset field holds its default.
    pub closed spec fn wf(&self) -> bool {
        &&& !self.has_transport_type ==> self.transport_type == Transport_Type::UDP
        &&& !self.has_udp_transport ==> self.udp_transport@ == default_udp_transport()
    }

    /// A message with no field set.
    pub fn new() -> (r: Transport)
        ensures
            r@ == default_transport(),
            r.wf(),
    {
        let udp_transport = UdpTransport::new();
        let r = Transport {
            transport_type: Transport_Type::UDP,
            has_transport_type: false,
            udp_transport,
            has_udp_transport: false,
        };
        r
    }

    /// Whether every required field is set.
    pub fn is_initialized(&self) -> (r: bool)
        ensures
            r == (self@.has_transport_type),
    {
        self.has_transport_type
    }

    /// Unsets every field.
    pub fn clear(&mut self)
        ensures
            final(self)@ == default_transport(),
            final(self).wf(),
    {
        *self = Transport::new();
    }

    pub fn clear_transport_type(&mut self)
        requires
            old(self).wf(),
        ensures
            final(self).wf(),
            final(self)@ == (TransportView { transport_type: Transport_Type::UDP, has_transport_type: false, ..old(self)@ }),
    {
        self.transport_type = Transport_Type::UDP;
        self.has_transport_type = false;
    }

    pub fn has_transport_type(&self) -> (r: bool)
        ensures
            r == self@.has_transport_type,
    {
        self.has_transport_type
    }

    pub fn set_transport_type(&mut self, v: Transport_Type)
        requires
            old(self).wf(),
        ensures
            final(self).wf(),
            final(self)@ == (TransportView { transport_type: v, has_transport_type: true, ..old(self)@ }),
    {
        self.transport_type = v;
        self.has_transport_type = true;
    }

    pub fn get_transport_type(&self) -> (r: Transport_Type)
        requires
            self.wf(),
        ensures
            r == self@.transport_type,
            !self@.has_transport_type ==> r == Transport_Type::UDP,
    {
        self.transport_type
    }

    pub fn clear_udp_transport(&mut self)
        requires
            old(self).wf(),
        ensures
            final(self).wf(),
            final(self)@ == (TransportView { udp_transport: default_udp_transport(), has_udp_transport: false, ..old(self)@ }),
    {
        self.udp_transport = UdpTransport::new();
        self.has_udp_transport = false;
    }

    pub fn has_udp_transport(&self) -> (r: bool)
        ensures
            r == self@.has_udp_transport,
    {
        self.has_udp_transport
    }

    pub fn set_udp_transport(&mut self, v: UdpTransport)
        requires
            old(self).wf(),
        ensures
            final(self).wf(),
            final(self)@ == (TransportView { udp_transport: v@, has_udp_transport: true, ..old(self)@ }),
    {
        self.udp_transport = v;
        self.has_udp_transport = true;
    }

    pub fn mut_udp_transport(&mut self) -> (r: &mut UdpTransport)
        requires
            old(self).wf(),
        ensures
            final(self).wf(),
            (*r)@ == old(self)@.udp_transport,
            !old(self)@.has_udp_transport ==> (*r)@ == default_udp_transport(),
            final(self)@ == (TransportView { udp_transport: (*final(r))@, has_udp_transport: true, ..old(self)@ }),
    {
        self.has_udp_transport = true;
        &mut self.udp_transport
    }

    pub fn take_udp_transport(&mut self) -> (r: UdpTransport)
        requires
            old(self).wf(),
        ensures
            final(self).wf(),
            r@ == old(self)@.udp_transport,
            !old(self)@.has_udp_transport ==> r@ == default_udp_transport(),
            final(self)@ == (TransportView { udp_transport: default_udp_transport(), has_udp_transport: false, ..old(self)@ }),
    {
        let mut v = UdpTransport::new();
        std::mem::swap(&mut v, &mut self.udp_transport);
        self.has_udp_transport = false;
        v
    }

    pub fn get_udp_transport(&self) -> (r: &UdpTransport)
        requires
            self.wf(),
        ensures
            r@ == self@.udp_transport,
            !self@.has_udp_transport ==> r@ == default_udp_transport(),
    {
        &self.udp_transport
    }
}

/// Wire message: a node as carried on the wire: its hexadecimal identifier and transports.
#[derive(Clone, Debug, PartialEq)]
pub struct Node {
    id: String,
    has_id: bool,
    transports: Vec<Transport>,
}

/// What a `Node` holds: each field's value, and whether it was set.
pub struct NodeView {
    pub id: Seq<char>,
    pub has_id: bool,
    pub transports: Seq<TransportView>,
}

impl View for Node {
    type V = NodeView;

    closed spec fn view(&self) -> NodeView {
        NodeView {
            id: self.id@,
            has_id: self.has_id,
            transports: self.transports@.map_values(|x: Transport| x@),
        }
    }
}

/// A `Node` with no field set.
pub open spec fn default_node() -> NodeView {
    NodeView {
        id: Seq::<char>::empty(),
        has_id: false,
        transports: Seq::empty(),
    }
}

impl Node {
    /// An unset field holds its default.
    pub closed spec fn wf(&self) -> bool {
        &&& !self.has_id ==> self.id@ == Seq::<char>::empty()
    }

    /// A message with no field set.
    pub fn new() -> (r: Node)
        ensures
            r@ == default_node(),
            r.wf(),
    {
        let id = String::new();
        let transports = Vec::new();
        let r = Node {
            id,
            has_id: false,
            transports,
        };
        proof {
            assert(r@.transports =~= Seq::<TransportView>::empty());
        }
        r
    }

    /// Whether every required field is set.
    pub fn is_initialized(&self) -> (r: bool)
        ensures
            r == (self@.has_id),
    {
        self.has_id
    }

    /// Unsets every field.
    pub fn clear(&mut self)
        ensures
            final(self)@ == default_node(),
            final(self).wf(),
    {
        *self = Node::new();
    }

    pub fn clear_id(&mut self)
        requires
            old(self).wf(),
        ensures
            final(self).wf(),
            final(self)@ == (NodeView { id: Seq::<char>::empty(), has_id: false, ..old(self)@ }),
    {
        self.id = String::new();
        self.has_id = false;
    }

    pub fn has_id(&self) -> (r: bool)
        ensures
            r == self@.has_id,
    {
        self.has_id
    }

    pub fn set_id(&mut self, v: String)
        requires
            old(self).wf(),
        ensures
            final(self).wf(),
            final(self)@ == (NodeView { id: v@, has_id: true, ..old(self)@ }),
    {
        self.id = v;
        self.has_id = true;
    }

    pub fn mut_id(&mut self) -> (r: &mut String)
        requires
            old(self).wf(),
        ensures
            final(self).wf(),
            (*r)@ == old(self)@.id,
            !old(self)@.has_id ==> (*r)@ == Seq::<char>::empty(),
            final(self)@ == (NodeView { id: (*final(r))@, has_id: true, ..old(self)@ }),
    {
        self.has_id = true;
        &mut self.id
    }

    pub fn take_id(&mut self) -> (r: String)
        requires
            old(self).wf(),
        ensures
            final(self).wf(),
            r@ == old(self)@.id,
            !old(self)@.has_id ==> r@ == Seq::<char>::empty(),
            final(self)@ == (NodeView { id: Seq::<char>::empty(), has_id: false, ..old(self)@ }),
    {
        let mut v = String::new();
        std::mem::swap(&mut v, &mut self.id);
        self.has_id = false;
        v
    }

    pub fn get_id(&self) -> (r: &str)
        requires
            self.wf(),
        ensures
            r@ == self@.id,
            !self@.has_id ==> r@ == Seq::<char>::empty(),
    {
        self.id.as_str()
    }

    pub fn clear_transports(&mut self)
        requires
            old(self).wf(),
        ensures
            final(self).wf(),
            final(self)@ == (NodeView { transports: Seq::empty(), ..old(self)@ }),
    {
        self.transports = Vec::new();
        proof {
            assert(self@.transports =~= Seq::<TransportView>::empty());
        }
    }

    pub fn set_transports(&mut self, v: Vec<Transport>)
        requires
            old(self).wf(),
        ensures
            final(self).wf(),
            final(self)@ == (NodeView { transports: v@.map_values(|x: Transport| x@), ..old(self)@ }),
    {
        self.transports = v;
    }

    pub fn mut_transports(&mut self) -> (r: &mut Vec<Transport>)
        requires
            old(self).wf(),
        ensures
            final(self).wf(),
            (*r)@.map_values(|x: Transport| x@) == old(self)@.transports,
            final(self)@ == (NodeView { transports: (*final(r))@.map_values(|x: Transport| x@), ..old(self)@ }),
    {
        &mut self.transports
    }

    pub fn take_transports(&mut self) -> (r: Vec<Transport>)
        requires
            old(self).wf(),
        ensures
            final(self).wf(),
            r@.map_values(|x: Transport| x@) == old(self)@.transports,
            final(self)@ == (NodeView { transports: Seq::empty(), ..old(self)@ }),
    {
        let mut v = Vec::new();
        std::mem::swap(&mut v, &mut self.transports);
        proof {
            assert(self@.transports =~= Seq::<TransportView>::empty());
        }
        v
    }

    pub fn get_transports(&self) -> (r: &[Transport])
        ensures
            r@.map_values(|x: Transport| x@) == self@.transports,
    {
        self.transports.as_slice()
    }
}

/// Wire message: a query for the nodes nearest to a target.
#[derive(Clone, Debug, PartialEq)]
pub struct FindNodeQuery {
    origin: Node,
    has_origin: bool,
    target: String,
    has_target: bool,
}

/// What a `FindNodeQuery` holds: each field's value, and whether it was set.
pub struct FindNodeQueryView {
    pub origin: NodeView,
    pub has_origin: bool,
    pub target: Seq<char>,
    pub has_target: bool,
}

impl View for FindNodeQuery {
    type V = FindNodeQueryView;

    closed spec fn view(&self) -> FindNodeQueryView {
        FindNodeQueryView {
            origin: self.origin@,
            has_origin: self.has_origin,
            target: self.target@,
            has_target: self.has_target,
        }
    }
}

/// A `FindNodeQuery` with no field set.
pub open spec fn default_find_node_query() -> FindNodeQueryView {
    FindNodeQueryView {
        origin: default_node(),
        has_origin: false,
        target: Seq::<char>::empty(),
        has_target: false,
    }
}

impl FindNodeQuery {
    /// An unset field holds its default.
    pub closed spec fn wf(&self) -> bool {
        &&& !self.has_origin ==> self.origin@ == default_node()
        &&& !self.has_target ==> self.target@ == Seq::<char>::empty()
    }

    /// A message with no field set.
    pub fn new() -> (r: FindNodeQuery)
        ensures
            r@ == default_find_node_query(),
            r.wf(),
    {
        let origin = Node::new();
        let target = String::new();
        let r = FindNodeQuery {
            origin,
            has_origin: false,
            target,
            has_target: false,
        };
        r
    }

    /// Whether every required field is set.
    pub fn is_initialized(&self) -> (r: bool)
        ensures
            r == (self@.has_origin && self@.has_target),
    {
        self.has_origin && self.has_target
    }

    /// Unsets every field.
    pub fn clear(&mut self)
        ensures
            final(self)@ == default_find_node_query(),
            final(self).wf(),
    {
        *self = FindNodeQuery::new();
    }

    pub fn clear_origin(&mut self)
        requires
            old(self).wf(),
        ensures
            final(self).wf(),
            final(self)@ == (FindNodeQueryView { origin: default_node(), has_origin: false, ..old(self)@ }),
    {
        self.origin = Node::new();
        self.has_origin = false;
    }

    pub fn has_origin(&self) -> (r: bool)
        ensures
            r == self@.has_origin,
    {
        self.has_origin
    }

    pub fn set_origin(&mut self, v: Node)
        requires
            old(self).wf(),
        ensures
            final(self).wf(),
            final(self)@ == (FindNodeQueryView { origin: v@, has_origin: true, ..old(self)@ }),
    {
        self.origin = v;
        self.has_origin = true;
    }

    pub fn mut_origin(&mut self) -> (r: &mut Node)
        requires
            old(self).wf(),
        ensures
            final(self).wf(),
            (*r)@ == old(self)@.origin,
            !old(self)@.has_origin ==> (*r)@ == default_node(),
            final(self)@ == (FindNodeQueryView { origin: (*final(r))@, has_origin: true, ..old(self)@ }),
    {
        self.has_origin = true;
        &mut self.origin
    }

    pub fn take_origin(&mut self) -> (r: Node)
        requires
            old(self).wf(),
        ensures
            final(self).wf(),
            r@ == old(self)@.origin,
            !old(self)@.has_origin ==> r@ == default_node(),
            final(self)@ == (FindNodeQueryView { origin: default_node(), has_origin: false, ..old(self)@ }),
    {
        let mut v = Node::new();
        std::mem::swap(&mut v, &mut self.origin);
        self.has_origin = false;
        v
    }

    pub fn get_origin(&self) -> (r: &Node)
        requires
            self.wf(),
        ensures
            r@ == self@.origin,
            !self@.has_origin ==> r@ == default_node(),
    {
        &self.origin
    }

    pub fn clear_target(&mut self)
        requires
            old(self).wf(),
        ensures
            final(self).wf(),
            final(self)@ == (FindNodeQueryView { target: Seq::<char>::empty(), has_target: false, ..old(self)@ }),
    {
        self.target = String::new();
        self.has_target = false;
    }

    pub fn has_target(&self) -> (r: bool)
        ensures
            r == self@.has_target,
    {
        self.has_target
    }

    pub fn set_target(&mut self, v: String)
        requires
            old(self).wf(),
        ensures
            final(self).wf(),
            final(self)@ == (FindNodeQueryView { target: v@, has_target: true, ..old(self)@ }),
    {
        self.target = v;
        self.has_target = true;
    }

    pub fn mut_target(&mut self) -> (r: &mut String)
        requires
            old(self).wf(),
        ensures
            final(self).wf(),
            (*r)@ == old(self)@.target,
            !old(self)@.has_target ==> (*r)@ == Seq::<char>::empty(),
            final(self)@ == (FindNodeQueryView { target: (*final(r))@, has_target: true, ..old(self)@ }),
    {
        self.has_target = true;
        &mut self.target
    }

    pub fn take_target(&mut self) -> (r: String)
        requires
            old(self).wf(),
        ensures
            final(self).wf(),
            r@ == old(self)@.target,
            !old(self)@.has_target ==> r@ == Seq::<char>::empty(),
            final(self)@ == (FindNodeQueryView { target: Seq::<char>::empty(), has_target: false, ..old(self)@ }),
    {
        let mut v = String::new();
        std::mem::swap(&mut v, &mut self.target);
        self.has_target = false;
        v
    }

    pub fn get_target(&self) -> (r: &str)
        requires
            self.wf(),
        ensures
            r@ == self@.target,
            !self@.has_target ==> r@ == Seq::<char>::empty(),
    {
        self.target.as_str()
    }
}

/// Wire message: the answer to a find-node query.
#[derive(Clone, Debug, PartialEq)]
pub struct FindNodeResponse {
    origin: Node,
    has_origin: bool,
    nodes: Vec<Node>,
}

/// What a `FindNodeResponse` holds: each field's value, and whether it was set.
pub struct FindNodeResponseView {
    pub origin: NodeView,
    pub has_origin: bool,
    pub nodes: Seq<NodeView>,
}

impl View for FindNodeResponse {
    type V = FindNodeResponseView;

    closed spec fn view(&self) -> FindNodeResponseView {
        FindNodeResponseView {
            origin: self.origin@,
            has_origin: self.has_origin,
            nodes: self.nodes@.map_values(|x: Node| x@),
        }
    }
}

/// A `FindNodeResponse` with no field set.
pub open spec fn default_find_node_response() -> FindNodeResponseView {
    FindNodeResponseView {
        origin: default_node(),
        has_origin: false,
        nodes: Seq::empty(),
    }
}

impl FindNodeResponse {
    /// An unset field holds its default.
    pub closed spec fn wf(&self) -> bool {
        &&& !self.has_origin ==> self.origin@ == default_node()
    }

    /// A message with no field set.
    pub fn new() -> (r: FindNodeResponse)
        ensures
            r@ == default_find_node_response(),
            r.wf(),
    {
        let origin = Node::new();
        let nodes = Vec::new();
        let r = FindNodeResponse {
            origin,
            has_origin: false,
            nodes,
        };
        proof {
            assert(r@.nodes =~= Seq::<NodeView>::empty());
        }
        r
    }

    /// Whether every required field is set.
    pub fn is_initialized(&self) -> (r: bool)
        ensures
            r == (self@.has_origin),
    {
        self.has_origin
    }

    /// Unsets every field.
    pub fn clear(&mut self)
        ensures
            final(self)@ == default_find_node_response(),
            final(self).wf(),
    {
        *self = FindNodeResponse::new();
    }

    pub fn clear_origin(&mut self)
        requires
            old(self).wf(),
        ensures
            final(self).wf(),
            final(self)@ == (FindNodeResponseView { origin: default_node(), has_origin: false, ..old(self)@ }),
    {
        self.origin = Node::new();
        self.has_origin = false;
    }

    pub fn has_origin(&self) -> (r: bool)
        ensures
            r == self@.has_origin,
    {
        self.has_origin
    }

    pub fn set_origin(&mut self, v: Node)
        requires
            old(self).wf(),
        ensures
            final(self).wf(),
            final(self)@ == (FindNodeResponseView { origin: v@, has_origin: true, ..old(self)@ }),
    {
        self.origin = v;
        self.has_origin = true;
    }

    pub fn mut_origin(&mut self) -> (r: &mut Node)
        requires
            old(self).wf(),
        ensures
            final(self).wf(),
            (*r)@ == old(self)@.origin,
            !old(self)@.has_origin ==> (*r)@ == default_node(),
            final(self)@ == (FindNodeResponseView { origin: (*final(r))@, has_origin: true, ..old(self)@ }),
    {
        self.has_origin = true;
        &mut self.origin
    }

    pub fn take_origin(&mut self) -> (r: Node)
        requires
            old(self).wf(),
        ensures
            final(self).wf(),
            r@ == old(self)@.origin,
            !old(self)@.has_origin ==> r@ == default_node(),
            final(self)@ == (FindNodeResponseView { origin: default_node(), has_origin: false, ..old(self)@ }),
    {
        let mut v = Node::new();
        std::mem::swap(&mut v, &mut self.origin);
        self.has_origin = false;
        v
    }

    pub fn get_origin(&self) -> (r: &Node)
        requires
            self.wf(),
        ensures
            r@ == self@.origin,
            !self@.has_origin ==> r@ == default_node(),
    {
        &self.origin
    }

    pub fn clear_nodes(&mut self)
        requires
            old(self).wf(),
        ensures
            final(self).wf(),
            final(self)@ == (FindNodeResponseView { nodes: Seq::empty(), ..old(self)@ }),
    {
        self.nodes = Vec::new();
        proof {
            assert(self@.nodes =~= Seq::<NodeView>::empty());
        }
    }

    pub fn set_nodes(&mut self, v: Vec<Node>)
        requires
            old(self).wf(),
        ensures
            final(self).wf(),
            final(self)@ == (FindNodeResponseView { nodes: v@.map_values(|x: Node| x@), ..old(self)@ }),
    {
        self.nodes = v;
    }

    pub fn mut_nodes(&mut self) -> (r: &mut Vec<Node>)
        requires
            old(self).wf(),
        ensures
            final(self).wf(),
            (*r)@.map_values(|x: Node| x@) == old(self)@.nodes,
            final(self)@ == (FindNodeResponseView { nodes: (*final(r))@.map_values(|x: Node| x@), ..old(self)@ }),
    {
        &mut self.nodes
    }

    pub fn take_nodes(&mut self) -> (r: Vec<Node>)
        requires
            old(self).wf(),
        ensures
            final(self).wf(),
            r@.map_values(|x: Node| x@) == old(self)@.nodes,
            final(self)@ == (FindNodeResponseView { nodes: Seq::empty(), ..old(self)@ }),
    {
        let mut v = Vec::new();
        std::mem::swap(&mut v, &mut self.nodes);
        proof {
            assert(self@.nodes =~= Seq::<NodeView>::empty());
        }
        v
    }

    pub fn get_nodes(&self) -> (r: &[Node])
        ensures
            r@.map_values(|x: Node| x@) == self@.nodes,
    {
        self.nodes.as_slice()
    }
}

/// Wire message: a liveness probe.
#[derive(Clone, Debug, PartialEq)]
pub struct PingQuery {
    origin: Node,
    has_origin: bool,
}

/// What a `PingQuery` holds: each field's value, and whether it was set.
pub struct PingQueryView {
    pub origin: NodeView,
    pub has_origin: bool,
}

impl View for PingQuery {
    type V = PingQueryView;

    closed spec fn view(&self) -> PingQueryView {
        PingQueryView {
            origin: self.origin@,
            has_origin: self.has_origin,
        }
    }
}

/// A `PingQuery` with no field set.
pub open spec fn default_ping_query() -> PingQueryView {
    PingQueryView {
        origin: default_node(),
        has_origin: false,
    }
}

impl PingQuery {
    /// An unset field holds its default.
    pub closed spec fn wf(&self) -> bool {
        &&& !self.has_origin ==> self.origin@ == default_node()
    }

    /// A message with no field set.
    pub fn new() -> (r: PingQuery)
        ensures
            r@ == default_ping_query(),
            r.wf(),
    {
        let origin = Node::new();
        let r = PingQuery {
            origin,
            has_origin: false,
        };
        r
    }

    /// Whether every required field is set.
    pub fn is_initialized(&self) -> (r: bool)
        ensures
            r == (self@.has_origin),
    {
        self.has_origin
    }

    /// Unsets every field.
    pub fn clear(&mut self)
        ensures
            final(self)@ == default_ping_query(),
            final(self).wf(),
    {
        *self = PingQuery::new();
    }

    pub fn clear_origin(&mut self)
        requires
            old(self).wf(),
        ensures
            final(self).wf(),
            final(self)@ == (PingQueryView { origin: default_node(), has_origin: false, ..old(self)@ }),
    {
        self.origin = Node::new();
        self.has_origin = false;
    }

    pub fn has_origin(&self) -> (r: bool)
        ensures
            r == self@.has_origin,
    {
        self.has_origin
    }

    pub fn set_origin(&mut self, v: Node)
        requires
            old(self).wf(),
        ensures
            final(self).wf(),
            final(self)@ == (PingQueryView { origin: v@, has_origin: true, ..old(self)@ }),
    {
        self.origin = v;
        self.has_origin = true;
    }

    pub fn mut_origin(&mut self) -> (r: &mut Node)
        requires
            old(self).wf(),
        ensures
            final(self).wf(),
            (*r)@ == old(self)@.origin,
            !old(self)@.has_origin ==> (*r)@ == default_node(),
            final(self)@ == (PingQueryView { origin: (*final(r))@, has_origin: true, ..old(self)@ }),
    {
        self.has_origin = true;
        &mut self.origin
    }

    pub fn take_origin(&mut self) -> (r: Node)
        requires
            old(self).wf(),
        ensures
            final(self).wf(),
            r@ == old(self)@.origin,
            !old(self)@.has_origin ==> r@ == default_node(),
            final(self)@ == (PingQueryView { origin: default_node(), has_origin: false, ..old(self)@ }),
    {
        let mut v = Node::new();
        std::mem::swap(&mut v, &mut self.origin);
        self.has_origin = false;
        v
    }

    pub fn get_origin(&self) -> (r: &Node)
        requires
            self.wf(),
        ensures
            r@ == self@.origin,
            !self@.has_origin ==> r@ == default_node(),
    {
        &self.origin
    }
}

/// Wire message: the answer to a liveness probe.
#[derive(Clone, Debug, PartialEq)]
pub struct PingResponse {
    origin: Node,
    has_origin: bool,
}

/// What a `PingResponse` holds: each field's value, and whether it was set.
pub struct PingResponseView {
    pub origin: NodeView,
    pub has_origin: bool,
}

impl View for PingResponse {
    type V = PingResponseView;

    closed spec fn view(&self) -> PingResponseView {
        PingResponseView {
            origin: self.origin@,
            has_origin: self.has_origin,
        }
    }
}

/// A `PingResponse` with no field set.
pub open spec fn default_ping_response() -> PingResponseView {
    PingResponseView {
        origin: default_node(),
        has_origin: false,
    }
}

impl PingResponse {
    /// An unset field holds its default.
    pub closed spec fn wf(&self) -> bool {
        &&& !self.has_origin ==> self.origin@ == default_node()
    }

    /// A message with no field set.
    pub fn new() -> (r: PingResponse)
        ensures
            r@ == default_ping_response(),
            r.wf(),
    {
        let origin = Node::new();
        let r = PingResponse {
            origin,
            has_origin: false,
        };
        r
    }

    /// Whether every required field is set.
    pub fn is_initialized(&self) -> (r: bool)
        ensures
            r == (self@.has_origin),
    {
        self.has_origin
    }

    /// Unsets every field.
    pub fn clear(&mut self)
        ensures
            final(self)@ == default_ping_response(),
            final(self).wf(),
    {
        *self = PingResponse::new();
    }

    pub fn clear_origin(&mut self)
        requires
            old(self).wf(),
        ensures
            final(self).wf(),
            final(self)@ == (PingResponseView { origin: default_node(), has_origin: false, ..old(self)@ }),
    {
        self.origin = Node::new();
        self.has_origin = false;
    }

    pub fn has_origin(&self) -> (r: bool)
        ensures
            r == self@.has_origin,
    {
        self.has_origin
    }

    pub fn set_origin(&mut self, v: Node)
        requires
            old(self).wf(),
        ensures
            final(self).wf(),
            final(self)@ == (PingResponseView { origin: v@, has_origin: true, ..old(self)@ }),
    {
        self.origin = v;
        self.has_origin = true;
    }

    pub fn mut_origin(&mut self) -> (r: &mut Node)
        requires
            old(self).wf(),
        ensures
            final(self).wf(),
            (*r)@ == old(self)@.origin,
            !old(self)@.has_origin ==> (*r)@ == default_node(),
            final(self)@ == (PingResponseView { origin: (*final(r))@, has_origin: true, ..old(self)@ }),
    {
        self.has_origin = true;
        &mut self.origin
    }

    pub fn take_origin(&mut self) -> (r: Node)
        requires
            old(self).wf(),
        ensures
            final(self).wf(),
            r@ == old(self)@.origin,
            !old(self)@.has_origin ==> r@ == default_node(),
            final(self)@ == (PingResponseView { origin: default_node(), has_origin: false, ..old(self)@ }),
    {
        let mut v = Node::new();
        std::mem::swap(&mut v, &mut self.origin);
        self.has_origin = false;
        v
    }

    pub fn get_origin(&self) -> (r: &Node)
        requires
            self.wf(),
        ensures
            r@ == self@.origin,
            !self@.has_origin ==> r@ == default_node(),
    {
        &self.origin
    }
}

/// Wire message: an application payload for the receiving node.
#[derive(Clone, Debug, PartialEq)]
pub struct PacketQuery {
    origin: Node,
    has_origin: bool,
    payload: Vec<u8>,
    has_payload: bool,
}

/// What a `PacketQuery` holds: each field's value, and whether it was set.
pub struct PacketQueryView {
    pub origin: NodeView,
    pub has_origin: bool,
    pub payload: Seq<u8>,
    pub has_payload: bool,
}

impl View for PacketQuery {
    type V = PacketQueryView;

    closed spec fn view(&self) -> PacketQueryView {
        PacketQueryView {
            origin: self.origin@,
            has_origin: self.has_origin,
            payload: self.payload@,
            has_payload: self.has_payload,
        }
    }
}

/// A `PacketQuery` with no field set.
pub open spec fn default_packet_query() -> PacketQueryView {
    PacketQueryView {
        origin: default_node(),
        has_origin: false,
        payload: Seq::<u8>::empty(),
        has_payload: false,
    }
}

impl PacketQuery {
    /// An unset field holds its default.
    pub closed spec fn wf(&self) -> bool {
        &&& !self.has_origin ==> self.origin@ == default_node()
        &&& !self.has_payload ==> self.payload@ == Seq::<u8>::empty()
    }

    /// A message with no field set.
    pub fn new() -> (r: PacketQuery)
        ensures
            r@ == default_packet_query(),
            r.wf(),
    {
        let origin = Node::new();
        let payload = Vec::new();
        let r = PacketQuery {
            origin,
            has_origin: false,
            payload,
            has_payload: false,
        };
        r
    }

    /// Whether every required field is set.
    pub fn is_initialized(&self) -> (r: bool)
        ensures
            r == (self@.has_origin && self@.has_payload),
    {
        self.has_origin && self.has_payload
    }

    /// Unsets every field.
    pub fn clear(&mut self)
        ensures
            final(self)@ == default_packet_query(),
            final(self).wf(),
    {
        *self = PacketQuery::new();
    }

    pub fn clear_origin(&mut self)
        requires
            old(self).wf(),
        ensures
            final(self).wf(),
            final(self)@ == (PacketQueryView { origin: default_node(), has_origin: false, ..old(self)@ }),
    {
        self.origin = Node::new();
        self.has_origin = false;
    }

    pub fn has_origin(&self) -> (r: bool)
        ensures
            r == self@.has_origin,
    {
        self.has_origin
    }

    pub fn set_origin(&mut self, v: Node)
        requires
            old(self).wf(),
        ensures
            final(self).wf(),
            final(self)@ == (PacketQueryView { origin: v@, has_origin: true, ..old(self)@ }),
    {
        self.origin = v;
        self.has_origin = true;
    }

    pub fn mut_origin(&mut self) -> (r: &mut Node)
        requires
            old(self).wf(),
        ensures
            final(self).wf(),
            (*r)@ == old(self)@.origin,
            !old(self)@.has_origin ==> (*r)@ == default_node(),
            final(self)@ == (PacketQueryView { origin: (*final(r))@, has_origin: true, ..old(self)@ }),
    {
        self.has_origin = true;
        &mut self.origin
    }

    pub fn take_origin(&mut self) -> (r: Node)
        requires
            old(self).wf(),
        ensures
            final(self).wf(),
            r@ == old(self)@.origin,
            !old(self)@.has_origin ==> r@ == default_node(),
            final(self)@ == (PacketQueryView { origin: default_node(), has_origin: false, ..old(self)@ }),
    {
        let mut v = Node::new();
        std::mem::swap(&mut v, &mut self.origin);
        self.has_origin = false;
        v
    }

    pub fn get_origin(&self) -> (r: &Node)
        requires
            self.wf(),
        ensures
            r@ == self@.origin,
            !self@.has_origin ==> r@ == default_node(),
    {
        &self.origin
    }

    pub fn clear_payload(&mut self)
        requires
            old(self).wf(),
        ensures
            final(self).wf(),
            final(self)@ == (PacketQueryView { payload: Seq::<u8>::empty(), has_payload: false, ..old(self)@ }),
    {
        self.payload = Vec::new();
        self.has_payload = false;
    }

    pub fn has_payload(&self) -> (r: bool)
        ensures
            r == self@.has_payload,
    {
        self.has_payload
    }

    pub fn set_payload(&mut self, v: Vec<u8>)
        requires
            old(self).wf(),
        ensures
            final(self).wf(),
            final(self)@ == (PacketQueryView { payload: v@, has_payload: true, ..old(self)@ }),
    {
        self.payload = v;
        self.has_payload = true;
    }

    pub fn mut_payload(&mut self) -> (r: &mut Vec<u8>)
        requires
            old(self).wf(),
        ensures
            final(self).wf(),
            (*r)@ == old(self)@.payload,
            !old(self)@.has_payload ==> (*r)@ == Seq::<u8>::empty(),
            final(self)@ == (PacketQueryView { payload: (*final(r))@, has_payload: true, ..old(self)@ }),
    {
        self.has_payload = true;
        &mut self.payload
    }

    pub fn take_payload(&mut self) -> (r: Vec<u8>)
        requires
            old(self).wf(),
        ensures
            final(self).wf(),
            r@ == old(self)@.payload,
            !old(self)@.has_payload ==> r@ == Seq::<u8>::empty(),
            final(self)@ == (PacketQueryView { payload: Seq::<u8>::empty(), has_payload: false, ..old(self)@ }),
    {
        let mut v = Vec::new();
        std::mem::swap(&mut v, &mut self.payload);
        self.has_payload = false;
        v
    }

    pub fn get_payload(&self) -> (r: &[u8])
        requires
            self.wf(),
        ensures
            r@ == self@.payload,
            !self@.has_payload ==> r@ == Seq::<u8>::empty(),
    {
        self.payload.as_slice()
    }
}

/// Wire message: the acknowledgement of a packet.
#[derive(Clone, Debug, PartialEq)]
pub struct PacketResponse {
    origin: Node,
    has_origin: bool,
}

/// What a `PacketResponse` holds: each field's value, and whether it was set.
pub struct PacketResponseView {
    pub origin: NodeView,
    pub has_origin: bool,
}

impl View for PacketResponse {
    type V = PacketResponseView;

    closed spec fn view(&self) -> PacketResponseView {
        PacketResponseView {
            origin: self.origin@,
            has_origin: self.has_origin,
        }
    }
}

/// A `PacketResponse` with no field set.
pub open spec fn default_packet_response() -> PacketResponseView {
    PacketResponseView {
        origin: default_node(),
        has_origin: false,
    }
}

impl PacketResponse {
    /// An unset field holds its default.
    pub closed spec fn wf(&self) -> bool {
        &&& !self.has_origin ==> self.origin@ == default_node()
    }

    /// A message with no field set.
    pub fn new() -> (r: PacketResponse)
        ensures
            r@ == default_packet_response(),
            r.wf(),
    {
        let origin = Node::new();
        let r = PacketResponse {
            origin,
            has_origin: false,
        };
        r
    }

    /// Whether every required field is set.
    pub fn is_initialized(&self) -> (r: bool)
        ensures
            r == (self@.has_origin),
    {
        self.has_origin
    }

    /// Unsets every field.
    pub fn clear(&mut self)
        ensures
            final(self)@ == default_packet_response(),
            final(self).wf(),
    {
        *self = PacketResponse::new();
    }

    pub fn clear_origin(&mut self)
        requires
            old(self).wf(),
        ensures
            final(self).wf(),
            final(self)@ == (PacketResponseView { origin: default_node(), has_origin: false, ..old(self)@ }),
    {
        self.origin = Node::new();
        self.has_origin = false;
    }

    pub fn has_origin(&self) -> (r: bool)
        ensures
            r == self@.has_origin,
    {
        self.has_origin
    }

    pub fn set_origin(&mut self, v: Node)
        requires
            old(self).wf(),
        ensures
            final(self).wf(),
            final(self)@ == (PacketResponseView { origin: v@, has_origin: true, ..old(self)@ }),
    {
        self.origin = v;
        self.has_origin = true;
    }

    pub fn mut_origin(&mut self) -> (r: &mut Node)
        requires
            old(self).wf(),
        ensures
            final(self).wf(),
            (*r)@ == old(self)@.origin,
            !old(self)@.has_origin ==> (*r)@ == default_node(),
            final(self)@ == (PacketResponseView { origin: (*final(r))@, has_origin: true, ..old(self)@ }),
    {
        self.has_origin = true;
        &mut self.origin
    }

    pub fn take_origin(&mut self) -> (r: Node)
        requires
            old(self).wf(),
        ensures
            final(self).wf(),
            r@ == old(self)@.origin,
            !old(self)@.has_origin ==> r@ == default_node(),
            final(self)@ == (PacketResponseView { origin: default_node(), has_origin: false, ..old(self)@ }),
    {
        let mut v = Node::new();
        std::mem::swap(&mut v, &mut self.origin);
        self.has_origin = false;
        v
    }

    pub fn get_origin(&self) -> (r: &Node)
        requires
            self.wf(),
        ensures
            r@ == self@.origin,
            !self@.has_origin ==> r@ == default_node(),
    {
        &self.origin
    }
}

/// Wire message: the outer message: its type, transaction id and body.
#[derive(Clone, Debug, PartialEq)]
pub struct Envelope {
    message_type: Envelope_Type,
    has_message_type: bool,
    transaction_id: u32,
    has_transaction_id: bool,
    find_node_query: FindNodeQuery,
    has_find_node_query: bool,
    find_node_response: FindNodeResponse,
    has_find_node_response: bool,
    ping_query: PingQuery,
    has_ping_query: bool,
    ping_response: PingResponse,
    has_ping_response: bool,
    packet_query: PacketQuery,
    has_packet_query: bool,
    packet_response: PacketResponse,
    has_packet_response: bool,
}

/// What a `Envelope` holds: each field's value, and whether it was set.
pub struct EnvelopeView {
    pub message_type: Envelope_Type,
    pub has_message_type: bool,
    pub transaction_id: u32,
    pub has_transaction_id: bool,
    pub find_node_query: FindNodeQueryView,
    pub has_find_node_query: bool,
    pub find_node_response: FindNodeResponseView,
    pub has_find_node_response: bool,
    pub ping_query: PingQueryView,
    pub has_ping_query: bool,
    pub ping_response: PingResponseView,
    pub has_ping_response: bool,
    pub packet_query: PacketQueryView,
    pub has_packet_query: bool,
    pub packet_response: PacketResponseView,
    pub has_packet_response: bool,
}

impl View for Envelope {
    type V = EnvelopeView;

    closed spec fn view(&self) -> EnvelopeView {
        EnvelopeView {
            message_type: self.message_type,
            has_message_type: self.has_message_type,
            transaction_id: self.transaction_id,
            has_transaction_id: self.has_transaction_id,
            find_node_query: self.find_node_query@,
            has_find_node_query: self.has_find_node_query,
            find_node_response: self.find_node_response@,
            has_find_node_response: self.has_find_node_response,
            ping_query: self.ping_query@,
            has_ping_query: self.has_ping_query,
            ping_response: self.ping_response@,
            has_ping_response: self.has_ping_response,
            packet_query: self.packet_query@,
            has_packet_query: self.has_packet_query,
            packet_response: self.packet_response@,
            has_packet_response: self.has_packet_response,
        }
    }
}

/// A `Envelope` with no field set.
pub open spec fn default_envelope() -> EnvelopeView {
    EnvelopeView {
        message_type: Envelope_Type::FIND_NODE_QUERY,
        has_message_type: false,
        transaction_id: 0,
        has_transaction_id: false,
        find_node_query: default_find_node_query(),
        has_find_node_query: false,
        find_node_response: default_find_node_response(),
        has_find_node_response: false,
        ping_query: default_ping_query(),
        has_ping_query: false,
        ping_response: default_ping_response(),
        has_ping_response: false,
        packet_query: default_packet_query(),
        has_packet_query: false,
        packet_response: default_packet_response(),
        has_packet_response: false,
    }
}

impl Envelope {
    /// An unset field holds its default.
    pub closed spec fn wf(&self) -> bool {
        &&& !self.has_message_type ==> self.message_type == Envelope_Type::FIND_NODE_QUERY
        &&& !self.has_transaction_id ==> self.transaction_id == 0
        &&& !self.has_find_node_query ==> self.find_node_query@ == default_find_node_query()
        &&& !self.has_find_node_response ==> self.find_node_response@ == default_find_node_response()
        &&& !self.has_ping_query ==> self.ping_query@ == default_ping_query()
        &&& !self.has_ping_response ==> self.ping_response@ == default_ping_response()
        &&& !self.has_packet_query ==> self.packet_query@ == default_packet_query()
        &&& !self.has_packet_response ==> self.packet_response@ == default_packet_response()
    }

    /// A message with no field set.
    pub fn new() -> (r: Envelope)
        ensures
            r@ == default_envelope(),
            r.wf(),
    {
        let find_node_query = FindNodeQuery::new();
        let find_node_response = FindNodeResponse::new();
        let ping_query = PingQuery::new();
        let ping_response = PingResponse::new();
        let packet_query = PacketQuery::new();
        let packet_response = PacketResponse::new();
        let r = Envelope {
            message_type: Envelope_Type::FIND_NODE_QUERY,
            has_message_type: false,
            transaction_id: 0,
            has_transaction_id: false,
            find_node_query,
            has_find_node_query: false,
            find_node_response,
            has_find_node_response: false,
            ping_query,
            has_ping_query: false,
            ping_response,
            has_ping_response: false,
            packet_query,
            has_packet_query: false,
            packet_response,
            has_packet_response: false,
        };
        r
    }

    /// Whether every required field is set.
    pub fn is_initialized(&self) -> (r: bool)
        ensures
            r == (self@.has_message_type && self@.has_transaction_id),
    {
        self.has_message_type && self.has_transaction_id
    }

    /// Unsets every field.
    pub fn clear(&mut self)
        ensures
            final(self)@ == default_envelope(),
            final(self).wf(),
    {
        *self = Envelope::new();
    }

    pub fn clear_message_type(&mut self)
        requires
            old(self).wf(),
        ensures
            final(self).wf(),
            final(self)@ == (EnvelopeView { message_type: Envelope_Type::FIND_NODE_QUERY, has_message_type: false, ..old(self)@ }),
    {
        self.message_type = Envelope_Type::FIND_NODE_QUERY;
        self.has_message_type = false;
    }

    pub fn has_message_type(&self) -> (r: bool)
        ensures
            r == self@.has_message_type,
    {
        self.has_message_type
    }

    pub fn set_message_type(&mut self, v: Envelope_Type)
        requires
            old(self).wf(),
        ensures
            final(self).wf(),
            final(self)@ == (EnvelopeView { message_type: v, has_message_type: true, ..old(self)@ }),
    {
        self.message_type = v;
        self.has_message_type = true;
    }

    pub fn get_message_type(&self) -> (r: Envelope_Type)
        requires
            self.wf(),
        ensures
            r == self@.message_type,
            !self@.has_message_type ==> r == Envelope_Type::FIND_NODE_QUERY,
    {
        self.message_type
    }

    pub fn clear_transaction_id(&mut self)
        requires
            old(self).wf(),
        ensures
            final(self).wf(),
            final(self)@ == (EnvelopeView { transaction_id: 0, has_transaction_id: false, ..old(self)@ }),
    {
        self.transaction_id = 0;
        self.has_transaction_id = false;
    }

    pub fn has_transaction_id(&self) -> (r: bool)
        ensures
            r == self@.has_transaction_id,
    {
        self.has_transaction_id
    }

    pub fn set_transaction_id(&mut self, v: u32)
        requires
            old(self).wf(),
        ensures
            final(self).wf(),
            final(self)@ == (EnvelopeView { transaction_id: v, has_transaction_id: true, ..old(self)@ }),
    {
        self.transaction_id = v;
        self.has_transaction_id = true;
    }

    pub fn get_transaction_id(&self) -> (r: u32)
        requires
            self.wf(),
        ensures
            r == self@.transaction_id,
            !self@.has_transaction_id ==> r == 0,
    {
        self.transaction_id
    }

    pub fn clear_find_node_query(&mut self)
        requires
            old(self).wf(),
        ensures
            final(self).wf(),
            final(self)@ == (EnvelopeView { find_node_query: default_find_node_query(), has_find_node_query: false, ..old(self)@ }),
    {
        self.find_node_query = FindNodeQuery::new();
        self.has_find_node_query = false;
    }

    pub fn has_find_node_query(&self) -> (r: bool)
        ensures
            r == self@.has_find_node_query,
    {
        self.has_find_node_query
    }

    pub fn set_find_node_query(&mut self, v: FindNodeQuery)
        requires
            old(self).wf(),
        ensures
            final(self).wf(),
            final(self)@ == (EnvelopeView { find_node_query: v@, has_find_node_query: true, ..old(self)@ }),
    {
        self.find_node_query = v;
        self.has_find_node_query = true;
    }

    pub fn mut_find_node_query(&mut self) -> (r: &mut FindNodeQuery)
        requires
            old(self).wf(),
        ensures
            final(self).wf(),
            (*r)@ == old(self)@.find_node_query,
            !old(self)@.has_find_node_query ==> (*r)@ == default_find_node_query(),
            final(self)@ == (EnvelopeView { find_node_query: (*final(r))@, has_find_node_query: true, ..old(self)@ }),
    {
        self.has_find_node_query = true;
        &mut self.find_node_query
    }

    pub fn take_find_node_query(&mut self) -> (r: FindNodeQuery)
        requires
            old(self).wf(),
        ensures
            final(self).wf(),
            r@ == old(self)@.find_node_query,
            !old(self)@.has_find_node_query ==> r@ == default_find_node_query(),
            final(self)@ == (EnvelopeView { find_node_query: default_find_node_query(), has_find_node_query: false, ..old(self)@ }),
    {
        let mut v = FindNodeQuery::new();
        std::mem::swap(&mut v, &mut self.find_node_query);
        self.has_find_node_query = false;
        v
    }

    pub fn get_find_node_query(&self) -> (r: &FindNodeQuery)
        requires
            self.wf(),
        ensures
            r@ == self@.find_node_query,
            !self@.has_find_node_query ==> r@ == default_find_node_query(),
    {
        &self.find_node_query
    }

    pub fn clear_find_node_response(&mut self)
        requires
            old(self).wf(),
        ensures
            final(self).wf(),
            final(self)@ == (EnvelopeView { find_node_response: default_find_node_response(), has_find_node_response: false, ..old(self)@ }),
    {
        self.find_node_response = FindNodeResponse::new();
        self.has_find_node_response = false;
    }

    pub fn has_find_node_response(&self) -> (r: bool)
        ensures
            r == self@.has_find_node_response,
    {
        self.has_find_node_response
    }

    pub fn set_find_node_response(&mut self, v: FindNodeResponse)
        requires
            old(self).wf(),
        ensures
            final(self).wf(),
            final(self)@ == (EnvelopeView { find_node_response: v@, has_find_node_response: true, ..old(self)@ }),
    {
        self.find_node_response = v;
        self.has_find_node_response = true;
    }

    pub fn mut_find_node_response(&mut self) -> (r: &mut FindNodeResponse)
        requires
            old(self).wf(),
        ensures
            final(self).wf(),
            (*r)@ == old(self)@.find_node_response,
            !old(self)@.has_find_node_response ==> (*r)@ == default_find_node_response(),
            final(self)@ == (EnvelopeView { find_node_response: (*final(r))@, has_find_node_response: true, ..old(self)@ }),
    {
        self.has_find_node_response = true;
        &mut self.find_node_response
    }

    pub fn take_find_node_response(&mut self) -> (r: FindNodeResponse)
        requires
            old(self).wf(),
        ensures
            final(self).wf(),
            r@ == old(self)@.find_node_response,
            !old(self)@.has_find_node_response ==> r@ == default_find_node_response(),
            final(self)@ == (EnvelopeView { find_node_response: default_find_node_response(), has_find_node_response: false, ..old(self)@ }),
    {
        let mut v = FindNodeResponse::new();
        std::mem::swap(&mut v, &mut self.find_node_response);
        self.has_find_node_response = false;
        v
    }

    pub fn get_find_node_response(&self) -> (r: &FindNodeResponse)
        requires
            self.wf(),
        ensures
            r@ == self@.find_node_response,
            !self@.has_find_node_response ==> r@ == default_find_node_response(),
    {
        &self.find_node_response
    }

    pub fn clear_ping_query(&mut self)
        requires
            old(self).wf(),
        ensures
            final(self).wf(),
            final(self)@ == (EnvelopeView { ping_query: default_ping_query(), has_ping_query: false, ..old(self)@ }),
    {
        self.ping_query = PingQuery::new();
        self.has_ping_query = false;
    }

    pub fn has_ping_query(&self) -> (r: bool)
        ensures
            r == self@.has_ping_query,
    {
        self.has_ping_query
    }

    pub fn set_ping_query(&mut self, v: PingQuery)
        requires
            old(self).wf(),
        ensures
            final(self).wf(),
            final(self)@ == (EnvelopeView { ping_query: v@, has_ping_query: true, ..old(self)@ }),
    {
        self.ping_query = v;
        self.has_ping_query = true;
    }

    pub fn mut_ping_query(&mut self) -> (r: &mut PingQuery)
        requires
            old(self).wf(),
        ensures
            final(self).wf(),
            (*r)@ == old(self)@.ping_query,
            !old(self)@.has_ping_query ==> (*r)@ == default_ping_query(),
            final(self)@ == (EnvelopeView { ping_query: (*final(r))@, has_ping_query: true, ..old(self)@ }),
    {
        self.has_ping_query = true;
        &mut self.ping_query
    }

    pub fn take_ping_query(&mut self) -> (r: PingQuery)
        requires
            old(self).wf(),
        ensures
            final(self).wf(),
            r@ == old(self)@.ping_query,
            !old(self)@.has_ping_query ==> r@ == default_ping_query(),
            final(self)@ == (EnvelopeView { ping_query: default_ping_query(), has_ping_query: false, ..old(self)@ }),
    {
        let mut v = PingQuery::new();
        std::mem::swap(&mut v, &mut self.ping_query);
        self.has_ping_query = false;
        v
    }

    pub fn get_ping_query(&self) -> (r: &PingQuery)
        requires
            self.wf(),
        ensures
            r@ == self@.ping_query,
            !self@.has_ping_query ==> r@ == default_ping_query(),
    {
        &self.ping_query
    }

    pub fn clear_ping_response(&mut self)
        requires
            old(self).wf(),
        ensures
            final(self).wf(),
            final(self)@ == (EnvelopeView { ping_response: default_ping_response(), has_ping_response: false, ..old(self)@ }),
    {
        self.ping_response = PingResponse::new();
        self.has_ping_response = false;
    }

    pub fn has_ping_response(&self) -> (r: bool)
        ensures
            r == self@.has_ping_response,
    {
        self.has_ping_response
    }

    pub fn set_ping_response(&mut self, v: PingResponse)
        requires
            old(self).wf(),
        ensures
            final(self).wf(),
            final(self)@ == (EnvelopeView { ping_response: v@, has_ping_response: true, ..old(self)@ }),
    {
        self.ping_response = v;
        self.has_ping_response = true;
    }

    pub fn mut_ping_response(&mut self) -> (r: &mut PingResponse)
        requires
            old(self).wf(),
        ensures
            final(self).wf(),
            (*r)@ == old(self)@.ping_response,
            !old(self)@.has_ping_response ==> (*r)@ == default_ping_response(),
            final(self)@ == (EnvelopeView { ping_response: (*final(r))@, has_ping_response: true, ..old(self)@ }),
    {
        self.has_ping_response = true;
        &mut self.ping_response
    }

    pub fn take_ping_response(&mut self) -> (r: PingResponse)
        requires
            old(self).wf(),
        ensures
            final(self).wf(),
            r@ == old(self)@.ping_response,
            !old(self)@.has_ping_response ==> r@ == default_ping_response(),
            final(self)@ == (EnvelopeView { ping_response: default_ping_response(), has_ping_response: false, ..old(self)@ }),
    {
        let mut v = PingResponse::new();
        std::mem::swap(&mut v, &mut self.ping_response);
        self.has_ping_response = false;
        v
    }

    pub fn get_ping_response(&self) -> (r: &PingResponse)
        requires
            self.wf(),
        ensures
            r@ == self@.ping_response,
            !self@.has_ping_response ==> r@ == default_ping_response(),
    {
        &self.ping_response
    }

    pub fn clear_packet_query(&mut self)
        requires
            old(self).wf(),
        ensures
            final(self).wf(),
            final(self)@ == (EnvelopeView { packet_query: default_packet_query(), has_packet_query: false, ..old(self)@ }),
    {
        self.packet_query = PacketQuery::new();
        self.has_packet_query = false;
    }

    pub fn has_packet_query(&self) -> (r: bool)
        ensures
            r == self@.has_packet_query,
    {
        self.has_packet_query
    }

    pub fn set_packet_query(&mut self, v: PacketQuery)
        requires
            old(self).wf(),
        ensures
            final(self).wf(),
            final(self)@ == (EnvelopeView { packet_query: v@, has_packet_query: true, ..old(self)@ }),
    {
        self.packet_query = v;
        self.has_packet_query = true;
    }

    pub fn mut_packet_query(&mut self) -> (r: &mut PacketQuery)
        requires
            old(self).wf(),
        ensures
            final(self).wf(),
            (*r)@ == old(self)@.packet_query,
            !old(self)@.has_packet_query ==> (*r)@ == default_packet_query(),
            final(self)@ == (EnvelopeView { packet_query: (*final(r))@, has_packet_query: true, ..old(self)@ }),
    {
        self.has_packet_query = true;
        &mut self.packet_query
    }

    pub fn take_packet_query(&mut self) -> (r: PacketQuery)
        requires
            old(self).wf(),
        ensures
            final(self).wf(),
            r@ == old(self)@.packet_query,
            !old(self)@.has_packet_query ==> r@ == default_packet_query(),
            final(self)@ == (EnvelopeView { packet_query: default_packet_query(), has_packet_query: false, ..old(self)@ }),
    {
        let mut v = PacketQuery::new();
        std::mem::swap(&mut v, &mut self.packet_query);
        self.has_packet_query = false;
        v
    }

    pub fn get_packet_query(&self) -> (r: &PacketQuery)
        requires
            self.wf(),
        ensures
            r@ == self@.packet_query,
            !self@.has_packet_query ==> r@ == default_packet_query(),
    {
        &self.packet_query
    }

    pub fn clear_packet_response(&mut self)
        requires
            old(self).wf(),
        ensures
            final(self).wf(),
            final(self)@ == (EnvelopeView { packet_response: default_packet_response(), has_packet_response: false, ..old(self)@ }),
    {
        self.packet_response = PacketResponse::new();
        self.has_packet_response = false;
    }

    pub fn has_packet_response(&self) -> (r: bool)
        ensures
            r == self@.has_packet_response,
    {
        self.has_packet_response
    }

    pub fn set_packet_response(&mut self, v: PacketResponse)
        requires
            old(self).wf(),
        ensures
            final(self).wf(),
            final(self)@ == (EnvelopeView { packet_response: v@, has_packet_response: true, ..old(self)@ }),
    {
        self.packet_response = v;
        self.has_packet_response = true;
    }

    pub fn mut_packet_response(&mut self) -> (r: &mut PacketResponse)
        requires
            old(self).wf(),
        ensures
            final(self).wf(),
            (*r)@ == old(self)@.packet_response,
            !old(self)@.has_packet_response ==> (*r)@ == default_packet_response(),
            final(self)@ == (EnvelopeView { packet_response: (*final(r))@, has_packet_response: true, ..old(self)@ }),
    {
        self.has_packet_response = true;
        &mut self.packet_response
    }

    pub fn take_packet_response(&mut self) -> (r: PacketResponse)
        requires
            old(self).wf(),
        ensures
            final(self).wf(),
            r@ == old(self)@.packet_response,
            !old(self)@.has_packet_response ==> r@ == default_packet_response(),
            final(self)@ == (EnvelopeView { packet_response: default_packet_response(), has_packet_response: false, ..old(self)@ }),
    {
        let mut v = PacketResponse::new();
        std::mem::swap(&mut v, &mut self.packet_response);
        self.has_packet_response = false;
        v
    }

    pub fn get_packet_response(&self) -> (r: &PacketResponse)
        requires
            self.wf(),
        ensures
            r@ == self@.packet_response,
            !self@.has_packet_response ==> r@ == default_packet_response(),
    {
        &self.packet_response
    }
}

} // verus!
