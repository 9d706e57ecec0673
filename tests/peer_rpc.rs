use peer_rpc::endpoint::EndpointBridge;
use peer_rpc::manager::{Dispatch, PeerRpcManager, RpcError};
use peer_rpc::packet::{parse_rpc_packet, Packet, PacketBody, PacketError};

const PEER_A: u128 = 0x0123_4567_89ab_cdef_0011_2233_4455_6677;
const PEER_B: u128 = 0xfedc_ba98_7654_3210_8899_aabb_ccdd_eeff;
const PEER_C: u128 = 0x5555_0000_1111_2222_3333_4444_6666_7777;

/// A server side: routing state, its endpoints, and a handler per service
/// that answers `s` with `"{prefix} {s}"`.
struct Server {
    mgr: PeerRpcManager,
    endpoints: Vec<EndpointBridge>,
    prefixes: Vec<(u32, String)>,
}

impl Server {
    fn new(id: u128) -> Server {
        Server { mgr: PeerRpcManager::new(id), endpoints: Vec::new(), prefixes: Vec::new() }
    }

    fn run_service(&mut self, service_id: u32, prefix: &str) -> Result<(), RpcError> {
        self.mgr.run_service(service_id)?;
        self.prefixes.push((service_id, prefix.to_owned()));
        Ok(())
    }

    fn handle(&self, service_id: u32, req: Vec<u8>) -> Vec<u8> {
        let prefix = &self.prefixes.iter().find(|(s, _)| *s == service_id).unwrap().1;
        format!("{} {}", prefix, String::from_utf8(req).unwrap()).into_bytes()
    }

    /// Feeds one frame in; returns the response frame and its destination.
    fn serve(&mut self, frame: &[u8]) -> Result<(Vec<u8>, u128), RpcError> {
        match self.mgr.dispatch(frame) {
            Dispatch::ToEndpoint { endpoint, created, remote, service_id, packet } => {
                if created {
                    assert_eq!(endpoint, self.endpoints.len());
                    self.endpoints.push(EndpointBridge::new(self.mgr.my_peer_id(), remote, service_id));
                }
                let req = self.endpoints[endpoint].on_request(packet)?.unwrap();
                let resp = self.handle(service_id, req);
                let reply = self.endpoints[endpoint].on_response(resp)?;
                Ok((reply.frame, reply.dst))
            }
            Dispatch::ToClient { .. } => panic!("a server got a response"),
            Dispatch::Dropped(e) => Err(e),
        }
    }
}

/// Runs one client conversation from `client` to `server` and returns the
/// response payload.
fn call(client: &mut PeerRpcManager, server: &mut Server, service_id: u32, msg: &str) -> Result<String, RpcError> {
    let dst = server.mgr.my_peer_id();
    client.open_client_scope(dst, service_id, 11);
    let frame = client.request_frame(dst, service_id, msg.as_bytes().to_vec());
    let result = server.serve(&frame).and_then(|(resp, to)| {
        assert_eq!(to, client.my_peer_id());
        match client.dispatch(&resp) {
            Dispatch::ToClient { scope, packet } => {
                assert_eq!(scope, 11);
                let info = parse_rpc_packet(&packet).unwrap();
                Ok(String::from_utf8(info.content).unwrap())
            }
            Dispatch::Dropped(e) => Err(e),
            Dispatch::ToEndpoint { .. } => panic!("a response reached an endpoint"),
        }
    });
    client.close_client_scope(dst, service_id, 11);
    result
}

#[test]
fn encode_exact_bytes() {
    let p = Packet::new_tarpc_packet(1, 2, 0x0403_0201, true, vec![0xaa, 0xbb]);
    let mut want = vec![1u8];
    want.extend_from_slice(&[0u8; 15]);
    want.push(1);
    want.push(2);
    want.extend_from_slice(&[0u8; 15]);
    want.extend_from_slice(&[0, 1, 2, 3, 4, 1, 0xaa, 0xbb]);
    assert_eq!(p.encode(), want);
}

#[test]
fn packet_round_trip() {
    let packets = vec![
        Packet::new_tarpc_packet(PEER_A, PEER_B, 7, false, vec![]),
        Packet::new_tarpc_packet(PEER_B, PEER_A, u32::MAX, true, (0..=255u8).collect()),
        Packet { from_peer: PEER_C, to_peer: None, body: PacketBody::Ctrl { kind: 9, data: vec![1, 2, 3] } },
        Packet {
            from_peer: 0,
            to_peer: None,
            body: PacketBody::TaRpc { service_id: 0, is_request: true, payload: vec![0] },
        },
    ];
    for p in packets {
        let frame = p.encode();
        assert_eq!(Packet::decode(&frame), Ok(p));
    }
}

#[test]
fn decode_malformed_frames() {
    let good = Packet::new_tarpc_packet(PEER_A, PEER_B, 3, true, vec![5]).encode();
    assert_eq!(Packet::decode(&[]), Err(PacketError::MalformedPacket));
    assert_eq!(Packet::decode(&good[..16]), Err(PacketError::MalformedPacket));
    assert_eq!(Packet::decode(&good[..20]), Err(PacketError::MalformedPacket));
    assert_eq!(Packet::decode(&good[..37]), Err(PacketError::MalformedPacket));
    let mut bad_flag = good.clone();
    bad_flag[16] = 2;
    assert_eq!(Packet::decode(&bad_flag), Err(PacketError::MalformedPacket));
    let mut bad_tag = good.clone();
    bad_tag[33] = 7;
    assert_eq!(Packet::decode(&bad_tag), Err(PacketError::MalformedPacket));
    let mut bad_dir = good.clone();
    bad_dir[38] = 2;
    assert_eq!(Packet::decode(&bad_dir), Err(PacketError::MalformedPacket));
    assert!(Packet::decode(&good[..39]).is_ok());
}

#[test]
fn parse_rpc_packet_refuses_other_packets() {
    let ctrl = Packet { from_peer: PEER_A, to_peer: Some(PEER_B), body: PacketBody::Ctrl { kind: 1, data: vec![] } };
    assert_eq!(parse_rpc_packet(&ctrl), Err(PacketError::InvalidPacket));
    let no_dst = Packet {
        from_peer: PEER_A,
        to_peer: None,
        body: PacketBody::TaRpc { service_id: 1, is_request: true, payload: vec![] },
    };
    assert_eq!(parse_rpc_packet(&no_dst), Err(PacketError::InvalidPacket));
    let info = parse_rpc_packet(&Packet::new_tarpc_packet(PEER_A, PEER_B, 4, true, vec![9, 8])).unwrap();
    assert_eq!((info.from_peer, info.to_peer, info.service_id, info.is_req), (PEER_A, PEER_B, 4, true));
    assert_eq!(info.content, vec![9, 8]);
}

#[test]
fn duplicate_registration_fails() {
    let mut b = PeerRpcManager::new(PEER_B);
    assert_eq!(b.run_service(1), Ok(()));
    assert_eq!(b.run_service(1), Err(RpcError::DuplicateServiceRegistration));
    assert_eq!(b.run_service(2), Ok(()));
    assert_eq!(b.run_service(2), Err(RpcError::DuplicateServiceRegistration));
    assert!(b.is_registered(1) && b.is_registered(2) && !b.is_registered(3));
}

#[test]
fn endpoint_created_once_and_reused() {
    let mut b = PeerRpcManager::new(PEER_B);
    b.run_service(1).unwrap();
    let a = PeerRpcManager::new(PEER_A);
    let c = PeerRpcManager::new(PEER_C);
    let from_a = a.request_frame(PEER_B, 1, b"x".to_vec());
    let from_c = c.request_frame(PEER_B, 1, b"y".to_vec());
    let mut seen = Vec::new();
    for frame in [&from_a, &from_a, &from_c, &from_a, &from_c] {
        match b.dispatch(frame) {
            Dispatch::ToEndpoint { endpoint, created, remote, service_id, .. } => {
                assert_eq!(service_id, 1);
                seen.push((endpoint, created, remote));
            }
            other => panic!("unexpected {:?}", other),
        }
    }
    assert_eq!(
        seen,
        vec![(0, true, PEER_A), (0, false, PEER_A), (1, true, PEER_C), (0, false, PEER_A), (1, false, PEER_C)]
    );
    assert_eq!(b.find_endpoint(PEER_A, 1), Some(0));
    assert_eq!(b.find_endpoint(PEER_C, 1), Some(1));
    assert_eq!(b.find_endpoint(PEER_A, 2), None);
}

#[test]
fn dispatch_drops_bad_frames() {
    let mut b = PeerRpcManager::new(PEER_B);
    b.run_service(1).unwrap();
    assert!(matches!(b.dispatch(&[1, 2, 3]), Dispatch::Dropped(RpcError::PacketDecode)));
    let ctrl = Packet { from_peer: PEER_A, to_peer: Some(PEER_B), body: PacketBody::Ctrl { kind: 3, data: vec![1] } };
    assert!(matches!(b.dispatch(&ctrl.encode()), Dispatch::Dropped(RpcError::InvalidPacket)));
    let ok = PeerRpcManager::new(PEER_A).request_frame(PEER_B, 1, vec![]);
    assert!(matches!(b.dispatch(&ok), Dispatch::ToEndpoint { created: true, .. }));
}

#[test]
fn response_routing_follows_scopes() {
    let mut a = PeerRpcManager::new(PEER_A);
    let resp = Packet::new_tarpc_packet(PEER_B, PEER_A, 7, false, b"r".to_vec()).encode();
    assert!(matches!(a.dispatch(&resp), Dispatch::Dropped(RpcError::MissingResponseSink)));
    a.open_client_scope(PEER_B, 7, 1);
    assert!(matches!(a.dispatch(&resp), Dispatch::ToClient { scope: 1, .. }));
    a.open_client_scope(PEER_B, 7, 2);
    assert_eq!(a.find_sink(PEER_B, 7), Some(2));
    match a.dispatch(&resp) {
        Dispatch::ToClient { scope, packet } => {
            assert_eq!(scope, 2);
            assert_eq!(parse_rpc_packet(&packet).unwrap().content, b"r".to_vec());
        }
        other => panic!("unexpected {:?}", other),
    }
    // Closing a replaced scope leaves the newer one in place.
    a.close_client_scope(PEER_B, 7, 1);
    assert_eq!(a.find_sink(PEER_B, 7), Some(2));
    a.open_client_scope(PEER_C, 7, 3);
    a.close_client_scope(PEER_B, 7, 2);
    assert_eq!(a.find_sink(PEER_B, 7), None);
    assert_eq!(a.find_sink(PEER_C, 7), Some(3));
    assert!(matches!(a.dispatch(&resp), Dispatch::Dropped(RpcError::MissingResponseSink)));
}

#[test]
fn response_without_sink_then_service_continues() {
    let mut a = Server::new(PEER_A);
    a.run_service(1, "hello").unwrap();
    let stray = Packet::new_tarpc_packet(PEER_B, PEER_A, 7, false, vec![1]).encode();
    assert_eq!(a.serve(&stray), Err(RpcError::MissingResponseSink));
    let mut b = PeerRpcManager::new(PEER_B);
    assert_eq!(call(&mut b, &mut a, 1, "abc"), Ok("hello abc".to_owned()));
}

#[test]
fn bridge_refuses_response_without_request() {
    let mut e = EndpointBridge::new(PEER_B, PEER_A, 1);
    assert!(matches!(e.on_response(vec![1]), Err(RpcError::MissingRequestContext)));
}

#[test]
fn bridge_answers_each_request_once_in_order() {
    let mut e = EndpointBridge::new(PEER_B, PEER_A, 1);
    let req = |p: u8| Packet::new_tarpc_packet(PEER_A, PEER_B, 1, true, vec![p]);
    assert_eq!(e.on_request(req(1)), Ok(Some(vec![1])));
    assert_eq!(e.on_request(req(2)), Ok(None));
    assert_eq!(e.on_request(req(3)), Ok(None));
    let r1 = e.on_response(vec![10]).unwrap();
    assert_eq!(r1.dst, PEER_A);
    assert_eq!(r1.next, Some(vec![2]));
    assert_eq!(Packet::decode(&r1.frame), Ok(Packet::new_tarpc_packet(PEER_B, PEER_A, 1, false, vec![10])));
    let r2 = e.on_response(vec![20]).unwrap();
    assert_eq!(r2.next, Some(vec![3]));
    let r3 = e.on_response(vec![30]).unwrap();
    assert_eq!(r3.next, None);
    assert_eq!(Packet::decode(&r3.frame), Ok(Packet::new_tarpc_packet(PEER_B, PEER_A, 1, false, vec![30])));
    assert!(matches!(e.on_response(vec![40]), Err(RpcError::MissingRequestContext)));
}

#[test]
fn bridge_refuses_other_services_and_responses() {
    let mut e = EndpointBridge::new(PEER_B, PEER_A, 1);
    assert_eq!(e.on_request(Packet::new_tarpc_packet(PEER_A, PEER_B, 2, true, vec![1])), Err(RpcError::InvalidPacket));
    assert_eq!(e.on_request(Packet::new_tarpc_packet(PEER_A, PEER_B, 1, false, vec![1])), Err(RpcError::InvalidPacket));
    assert!(matches!(e.on_response(vec![1]), Err(RpcError::MissingRequestContext)));
}

#[test]
fn payload_bytes_cross_unchanged() {
    let payload: Vec<u8> = (0..=255u8).rev().collect();
    let a = PeerRpcManager::new(PEER_A);
    let mut b = PeerRpcManager::new(PEER_B);
    b.run_service(5).unwrap();
    match b.dispatch(&a.request_frame(PEER_B, 5, payload.clone())) {
        Dispatch::ToEndpoint { packet, .. } => {
            let mut e = EndpointBridge::new(PEER_B, PEER_A, 5);
            assert_eq!(e.on_request(packet), Ok(Some(payload.clone())));
        }
        other => panic!("unexpected {:?}", other),
    }
}

#[test]
fn peer_rpc_basic_test() {
    let mut server = Server::new(PEER_B);
    server.run_service(1, "hello").unwrap();
    let mut client = PeerRpcManager::new(PEER_A);
    let ret = call(&mut client, &mut server, 1, "abc");
    assert_eq!(ret.unwrap(), "hello abc");
}

#[test]
fn test_multi_service_with_peer_manager() {
    let mut server = Server::new(PEER_B);
    server.run_service(1, "hello_a").unwrap();
    server.run_service(2, "hello_b").unwrap();
    let mut client = PeerRpcManager::new(PEER_A);
    assert_eq!(call(&mut client, &mut server, 1, "abc").as_ref().unwrap(), "hello_a abc");
    assert_eq!(call(&mut client, &mut server, 2, "abc").as_ref().unwrap(), "hello_b abc");
}

#[test]
fn unknown_service_is_dropped() {
    let mut server = Server::new(PEER_B);
    server.run_service(1, "hello").unwrap();
    let mut client = PeerRpcManager::new(PEER_A);
    assert_eq!(call(&mut client, &mut server, 99, "abc"), Err(RpcError::UnknownService));
    assert_eq!(call(&mut client, &mut server, 1, "abc").unwrap(), "hello abc");
}

#[test]
fn test_rpc_with_peer_manager() {
    // A reaches B through a relay that forwards frames it does not own.
    let mut server = Server::new(PEER_B);
    server.run_service(1, "hello").unwrap();
    let mut client = PeerRpcManager::new(PEER_A);
    let relay = |frame: Vec<u8>| -> Vec<u8> {
        let p = Packet::decode(&frame).unwrap();
        assert_ne!(p.to_peer, Some(PEER_C));
        p.encode()
    };
    client.open_client_scope(PEER_B, 1, 5);
    let req = relay(client.request_frame(PEER_B, 1, b"abc".to_vec()));
    let (resp, to) = server.serve(&req).unwrap();
    assert_eq!(to, PEER_A);
    match client.dispatch(&relay(resp)) {
        Dispatch::ToClient { scope, packet } => {
            assert_eq!(scope, 5);
            assert_eq!(parse_rpc_packet(&packet).unwrap().content, b"hello abc".to_vec());
        }
        other => panic!("unexpected {:?}", other),
    }
}
