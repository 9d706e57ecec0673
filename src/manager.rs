//! The multiplexer's routing state: the service registry, the endpoint table
//! and the client response sinks, and the dispatcher's decision for each
//! frame that arrives.
//!
//! Endpoints are keyed by the remote peer that sent the request (its
//! `from_peer`) and the service id, so that two remote peers of one service
//! get two endpoints.
use crate::packet::{
    decode_packet, encode_packet, parse_rpc_packet, rpc_info, BodyView, Packet, PacketView, PeerId,
    ServiceId,
};
use vstd::prelude::*;

verus! {

/// The errors the multiplexer observes. None of them stops it.
#[derive(Debug, Clone, Copy, PartialEq, Eq, Structural)]
pub enum RpcError {
    /// The frame does not follow the wire format.
    PacketDecode,
    /// The packet is not an RPC carrier addressed to a peer.
    InvalidPacket,
    /// A request names a service that is not registered.
    UnknownService,
    /// A response came in with no client scope waiting for it.
    MissingResponseSink,
    /// The handler answered while no request was outstanding.
    MissingRequestContext,
    /// A service id was registered a second time.
    DuplicateServiceRegistration,
}

/// A client scope waiting for responses from `peer` on `service_id`.
#[derive(Debug, Clone, Copy, PartialEq, Eq, Structural)]
pub struct ClientSink {
    pub peer: PeerId,
    pub service_id: ServiceId,
    pub scope: u64,
}

/// The routing state of one multiplexer.
pub struct PeerRpcManager {
    my_peer_id: PeerId,
    services: Vec<ServiceId>,
    endpoints: Vec<(PeerId, ServiceId)>,
    sinks: Vec<ClientSink>,
}

/// Where the dispatcher sends one frame.
#[derive(Debug)]
pub enum Dispatch {
    /// A request for endpoint number `endpoint`, bound to `remote` and
    /// `service_id`. When `created`, the endpoint is new and must be started
    /// before the packet is handed to it.
    ToEndpoint { endpoint: usize, created: bool, remote: PeerId, service_id: ServiceId, packet: Packet },
    /// A response for the client scope `scope`.
    ToClient { scope: u64, packet: Packet },
    /// The frame is dropped, for the reason given.
    Dropped(RpcError),
}

/// The scope registered for responses from `peer` on `sid`, if any: the
/// latest entry for that key.
pub open spec fn sink_lookup(s: Seq<ClientSink>, peer: u128, sid: u32) -> Option<u64>
    decreases s.len(),
{
    if s.len() == 0 {
        None
    } else if s.last().peer == peer && s.last().service_id == sid {
        Some(s.last().scope)
    } else {
        sink_lookup(s.drop_last(), peer, sid)
    }
}

/// `s` without the entries for `peer` and `sid`.
pub open spec fn sinks_without(s: Seq<ClientSink>, peer: u128, sid: u32) -> Seq<ClientSink>
    decreases s.len(),
{
    if s.len() == 0 {
        s
    } else if s.last().peer == peer && s.last().service_id == sid {
        sinks_without(s.drop_last(), peer, sid)
    } else {
        sinks_without(s.drop_last(), peer, sid).push(s.last())
    }
}

proof fn lemma_sinks_without(s: Seq<ClientSink>, peer: u128, sid: u32, p: u128, q: u32)
    ensures
        sink_lookup(sinks_without(s, peer, sid), p, q) == if p == peer && q == sid {
            None
        } else {
            sink_lookup(s, p, q)
        },
    decreases s.len(),
{
    if s.len() > 0 {
        lemma_sinks_without(s.drop_last(), peer, sid, p, q);
        let w = sinks_without(s.drop_last(), peer, sid);
        if !(s.last().peer == peer && s.last().service_id == sid) {
            assert(w.push(s.last()).drop_last() =~= w);
        }
    }
}

pub open spec fn no_dup_endpoints(e: Seq<(u128, u32)>) -> bool {
    forall|i: int, j: int| 0 <= i < j < e.len() ==> e[i] != e[j]
}

/// The endpoint table after a request keyed `key` is routed: the key is
/// added when it is new.
pub open spec fn endpoints_after(e: Seq<(u128, u32)>, key: (u128, u32)) -> Seq<(u128, u32)> {
    if e.contains(key) {
        e
    } else {
        e.push(key)
    }
}

/// The endpoint table after requests keyed `keys` are routed, in order.
pub open spec fn endpoints_after_all(e: Seq<(u128, u32)>, keys: Seq<(u128, u32)>) -> Seq<
    (u128, u32),
>
    decreases keys.len(),
{
    if keys.len() == 0 {
        e
    } else {
        endpoints_after(endpoints_after_all(e, keys.drop_last()), keys.last())
    }
}

/// For any sequence of routed requests, each key `(remote peer, service)`
/// gets exactly one endpoint: it exists afterwards if some request carried
/// it, it appears once, and an endpoint, once created, keeps its number and
/// is reused by every later request with its key.
pub proof fn lemma_endpoint_created_once(
    e: Seq<(u128, u32)>,
    keys: Seq<(u128, u32)>,
    key: (u128, u32),
)
    requires
        no_dup_endpoints(e),
    ensures
        no_dup_endpoints(endpoints_after_all(e, keys)),
        endpoints_after_all(e, keys).subrange(0, e.len() as int) == e,
        e.len() <= endpoints_after_all(e, keys).len(),
        keys.contains(key) ==> endpoints_after_all(e, keys).contains(key),
    decreases keys.len(),
{
    if keys.len() > 0 {
        let prev = endpoints_after_all(e, keys.drop_last());
        lemma_endpoint_created_once(e, keys.drop_last(), key);
        let next = endpoints_after(prev, keys.last());
        if !prev.contains(keys.last()) {
            assert(next.subrange(0, e.len() as int) =~= prev.subrange(0, e.len() as int));
            assert(next[prev.len() as int] == keys.last());
        }
        if keys.contains(key) {
            let i = choose|i: int| 0 <= i < keys.len() && keys[i] == key;
            if i < keys.len() - 1 {
                assert(keys.drop_last()[i] == key);
                let j = choose|j: int| 0 <= j < prev.len() && prev[j] == key;
                assert(next[j] == key);
            } else if prev.contains(key) {
            } else {
                assert(next[prev.len() as int] == key);
            }
        }
    } else {
        assert(e.subrange(0, e.len() as int) =~= e);
    }
}

impl PeerRpcManager {
    pub closed spec fn spec_my_peer_id(&self) -> u128 {
        self.my_peer_id
    }

    /// The registered service ids, in order of registration.
    pub closed spec fn services(&self) -> Seq<u32> {
        self.services@
    }

    /// The endpoint keys `(remote peer, service id)`; an endpoint's number is
    /// its index here.
    pub closed spec fn endpoints(&self) -> Seq<(u128, u32)> {
        self.endpoints@
    }

    /// The client sink table.
    pub closed spec fn sinks(&self) -> Seq<ClientSink> {
        self.sinks@
    }

    pub open spec fn registered(&self, sid: u32) -> bool {
        self.services().contains(sid)
    }

    pub open spec fn sink_of(&self, peer: u128, sid: u32) -> Option<u64> {
        sink_lookup(self.sinks(), peer, sid)
    }

    /// Each service is registered once, each endpoint key appears once, and
    /// each endpoint belongs to a registered service.
    pub open spec fn wf(&self) -> bool {
        &&& self.services().no_duplicates()
        &&& no_dup_endpoints(self.endpoints())
        &&& forall|i: int|
            0 <= i < self.endpoints().len() ==> #[trigger] self.registered(
                self.endpoints()[i].1,
            )
    }

    proof fn lemma_same_tables_wf(&self, other: &Self)
        requires
            other.wf(),
            self.services@ == other.services@,
            self.endpoints@ == other.endpoints@,
        ensures
            self.wf(),
    {
        assert forall|i: int| 0 <= i < self.endpoints().len() implies #[trigger] self.registered(
            self.endpoints()[i].1,
        ) by {
            assert(other.registered(other.endpoints()[i].1));
        }
    }

    /// A multiplexer for peer `my_peer_id`, with nothing registered.
    pub fn new(my_peer_id: PeerId) -> (r: PeerRpcManager)
        ensures
            r.wf(),
            r.spec_my_peer_id() == my_peer_id,
            r.services() == Seq::<u32>::empty(),
            r.endpoints() == Seq::<(u128, u32)>::empty(),
            r.sinks() == Seq::<ClientSink>::empty(),
    {
        PeerRpcManager { my_peer_id, services: Vec::new(), endpoints: Vec::new(), sinks: Vec::new() }
    }

    pub fn my_peer_id(&self) -> (r: PeerId)
        ensures
            r == self.spec_my_peer_id(),
    {
        self.my_peer_id
    }

    pub fn is_registered(&self, service_id: ServiceId) -> (r: bool)
        ensures
            r == self.registered(service_id),
    {
        let mut i: usize = 0;
        while i < self.services.len()
            invariant
                0 <= i <= self.services@.len(),
                forall|j: int| 0 <= j < i ==> self.services@[j] != service_id,
            decreases self.services@.len() - i,
        {
            if self.services[i] == service_id {
                return true;
            }
            i = i + 1;
        }
        false
    }

    /// Registers `service_id`. A second registration of one id fails with
    /// `DuplicateServiceRegistration` and changes nothing.
    pub fn run_service(&mut self, service_id: ServiceId) -> (r: Result<(), RpcError>)
        requires
            old(self).wf(),
        ensures
            final(self).wf(),
            final(self).spec_my_peer_id() == old(self).spec_my_peer_id(),
            final(self).endpoints() == old(self).endpoints(),
            final(self).sinks() == old(self).sinks(),
            old(self).registered(service_id) ==> r == Err::<(), RpcError>(
                RpcError::DuplicateServiceRegistration,
            ) && final(self).services() == old(self).services(),
            !old(self).registered(service_id) ==> r is Ok && final(self).services()
                == old(self).services().push(service_id),
            final(self).registered(service_id),
    {
        if self.is_registered(service_id) {
            return Err(RpcError::DuplicateServiceRegistration);
        }
        self.services.push(service_id);
        proof {
            assert(self.services@[self.services@.len() - 1] == service_id);
            assert forall|i: int|
                0 <= i < self.endpoints@.len() implies #[trigger] self.registered(
                self.endpoints@[i].1,
            ) by {
                assert(old(self).registered(self.endpoints@[i].1));
                let k = choose|k: int|
                    0 <= k < old(self).services@.len() && old(self).services@[k]
                        == self.endpoints@[i].1;
                assert(self.services@[k] == self.endpoints@[i].1);
            }
        }
        Ok(())
    }

    /// The number of the endpoint keyed `(peer, service_id)`, if it exists.
    pub fn find_endpoint(&self, peer: PeerId, service_id: ServiceId) -> (r: Option<usize>)
        ensures
            match r {
                Some(i) => i < self.endpoints().len() && self.endpoints()[i as int] == (
                    peer,
                    service_id,
                ),
                None => !self.endpoints().contains((peer, service_id)),
            },
    {
        let mut i: usize = 0;
        while i < self.endpoints.len()
            invariant
                0 <= i <= self.endpoints@.len(),
                forall|j: int| 0 <= j < i ==> self.endpoints@[j] != (peer, service_id),
            decreases self.endpoints@.len() - i,
        {
            let (p, s) = self.endpoints[i];
            if p == peer && s == service_id {
                return Some(i);
            }
            i = i + 1;
        }
        None
    }

    /// The client scope that receives responses from `peer` on `service_id`.
    pub fn find_sink(&self, peer: PeerId, service_id: ServiceId) -> (r: Option<u64>)
        ensures
            r == self.sink_of(peer, service_id),
    {
        let mut i: usize = self.sinks.len();
        assert(self.sinks@.subrange(0, i as int) =~= self.sinks@);
        while i > 0
            invariant
                0 <= i <= self.sinks@.len(),
                sink_lookup(self.sinks@.subrange(0, i as int), peer, service_id)
                    == sink_lookup(self.sinks@, peer, service_id),
            decreases i,
        {
            let e = self.sinks[i - 1];
            assert(self.sinks@.subrange(0, i as int).drop_last() =~= self.sinks@.subrange(
                0,
                i - 1,
            ));
            if e.peer == peer && e.service_id == service_id {
                return Some(e.scope);
            }
            i = i - 1;
        }
        assert(self.sinks@.subrange(0, 0) =~= Seq::<ClientSink>::empty());
        None
    }

    fn remove_sink(&mut self, peer: PeerId, service_id: ServiceId)
        ensures
            final(self).my_peer_id == old(self).my_peer_id,
            final(self).services@ == old(self).services@,
            final(self).endpoints@ == old(self).endpoints@,
            final(self).sinks@ == sinks_without(old(self).sinks@, peer, service_id),
    {
        let mut kept: Vec<ClientSink> = Vec::new();
        let mut i: usize = 0;
        while i < self.sinks.len()
            invariant
                0 <= i <= self.sinks@.len(),
                kept@ == sinks_without(self.sinks@.subrange(0, i as int), peer, service_id),
            decreases self.sinks@.len() - i,
        {
            let e = self.sinks[i];
            assert(self.sinks@.subrange(0, i + 1).drop_last() =~= self.sinks@.subrange(
                0,
                i as int,
            ));
            if !(e.peer == peer && e.service_id == service_id) {
                kept.push(e);
            }
            i = i + 1;
        }
        assert(self.sinks@.subrange(0, self.sinks@.len() as int) =~= self.sinks@);
        self.sinks = kept;
    }

    /// Registers client scope `scope` for responses from `peer` on
    /// `service_id`, replacing any scope registered there before.
    pub fn open_client_scope(&mut self, peer: PeerId, service_id: ServiceId, scope: u64)
        requires
            old(self).wf(),
        ensures
            final(self).wf(),
            final(self).spec_my_peer_id() == old(self).spec_my_peer_id(),
            final(self).services() == old(self).services(),
            final(self).endpoints() == old(self).endpoints(),
            forall|p: u128, q: u32|
                #[trigger] final(self).sink_of(p, q) == if p == peer && q == service_id {
                    Some(scope)
                } else {
                    old(self).sink_of(p, q)
                },
    {
        self.remove_sink(peer, service_id);
        self.sinks.push(ClientSink { peer, service_id, scope });
        proof {
            self.lemma_same_tables_wf(old(self));
            assert forall|p: u128, q: u32|
                #[trigger] self.sink_of(p, q) == if p == peer && q == service_id {
                    Some(scope)
                } else {
                    old(self).sink_of(p, q)
                } by {
                lemma_sinks_without(old(self).sinks@, peer, service_id, p, q);
                assert(self.sinks@.drop_last() =~= sinks_without(
                    old(self).sinks@,
                    peer,
                    service_id,
                ));
            }
        }
    }

    /// Ends client scope `scope` on `peer` and `service_id`: its sink is
    /// removed, unless a later scope has replaced it.
    pub fn close_client_scope(&mut self, peer: PeerId, service_id: ServiceId, scope: u64)
        requires
            old(self).wf(),
        ensures
            final(self).wf(),
            final(self).spec_my_peer_id() == old(self).spec_my_peer_id(),
            final(self).services() == old(self).services(),
            final(self).endpoints() == old(self).endpoints(),
            forall|p: u128, q: u32|
                #[trigger] final(self).sink_of(p, q) == if p == peer && q == service_id
                    && old(self).sink_of(p, q) == Some(scope) {
                    None
                } else {
                    old(self).sink_of(p, q)
                },
    {
        if self.find_sink(peer, service_id) == Some(scope) {
            self.remove_sink(peer, service_id);
            proof {
                self.lemma_same_tables_wf(old(self));
                assert forall|p: u128, q: u32|
                    #[trigger] self.sink_of(p, q) == if p == peer && q == service_id {
                        None
                    } else {
                        old(self).sink_of(p, q)
                    } by {
                    lemma_sinks_without(old(self).sinks@, peer, service_id, p, q);
                }
            }
        }
    }

    /// The frame that carries a client request from this peer to `dst` on
    /// `service_id`.
    pub fn request_frame(&self, dst: PeerId, service_id: ServiceId, payload: Vec<u8>) -> (r: Vec<
        u8,
    >)
        ensures
            r@ == encode_packet(
                PacketView {
                    from_peer: self.spec_my_peer_id(),
                    to_peer: Some(dst),
                    body: BodyView::TaRpc { service_id, is_request: true, payload: payload@ },
                },
            ),
    {
        Packet::new_tarpc_packet(self.my_peer_id, dst, service_id, true, payload).encode()
    }

    /// Routes one frame that arrived from the transport.
    ///
    /// A request from `P` for a registered service `S` goes to the endpoint
    /// keyed `(P, S)`, which is created the first time and reused after
    /// that. A response from `P` on `S` goes to the client scope registered
    /// under `(P, S)`. Everything else is dropped, with the reason; nothing
    /// but the endpoint table changes, and it only grows by the new endpoint.
    pub fn dispatch(&mut self, frame: &[u8]) -> (r: Dispatch)
        requires
            old(self).wf(),
        ensures
            final(self).wf(),
            final(self).spec_my_peer_id() == old(self).spec_my_peer_id(),
            final(self).services() == old(self).services(),
            final(self).sinks() == old(self).sinks(),
            match decode_packet(frame@) {
                None => r matches Dispatch::Dropped(e) && e == RpcError::PacketDecode
                    && final(self).endpoints() == old(self).endpoints(),
                Some(p) => match rpc_info(p) {
                    None => r matches Dispatch::Dropped(e) && e == RpcError::InvalidPacket
                        && final(self).endpoints() == old(self).endpoints(),
                    Some((from, _to, sid, is_req, _payload)) => if !is_req {
                        &&& final(self).endpoints() == old(self).endpoints()
                        &&& match old(self).sink_of(from, sid) {
                            Some(sc) => r matches Dispatch::ToClient { scope, packet } && scope
                                == sc && packet@ == p,
                            None => r matches Dispatch::Dropped(e) && e
                                == RpcError::MissingResponseSink,
                        }
                    } else if !old(self).registered(sid) {
                        r matches Dispatch::Dropped(e) && e == RpcError::UnknownService
                            && final(self).endpoints() == old(self).endpoints()
                    } else {
                        r matches Dispatch::ToEndpoint {
                            endpoint,
                            created,
                            remote,
                            service_id,
                            packet,
                        } && {
                            let key = (from, sid);
                            &&& remote == from && service_id == sid && packet@ == p
                            &&& created == !old(self).endpoints().contains(key)
                            &&& final(self).endpoints() == endpoints_after(
                                old(self).endpoints(),
                                key,
                            )
                            &&& endpoint < final(self).endpoints().len()
                            &&& final(self).endpoints()[endpoint as int] == key
                        }
                    },
                },
            },
    {
        let packet = match Packet::decode(frame) {
            Ok(p) => p,
            Err(_) => {
                return Dispatch::Dropped(RpcError::PacketDecode);
            },
        };
        let info = match parse_rpc_packet(&packet) {
            Ok(i) => i,
            Err(_) => {
                return Dispatch::Dropped(RpcError::InvalidPacket);
            },
        };
        let from = info.from_peer;
        let sid = info.service_id;
        if !info.is_req {
            return match self.find_sink(from, sid) {
                Some(scope) => Dispatch::ToClient { scope, packet },
                None => Dispatch::Dropped(RpcError::MissingResponseSink),
            };
        }
        if !self.is_registered(sid) {
            return Dispatch::Dropped(RpcError::UnknownService);
        }
        match self.find_endpoint(from, sid) {
            Some(i) => {
                proof {
                    assert(self.endpoints@.contains((from, sid)));
                }
                Dispatch::ToEndpoint { endpoint: i, created: false, remote: from, service_id: sid, packet }
            },
            None => {
                let n = self.endpoints.len();
                self.endpoints.push((from, sid));
                proof {
                    assert forall|i: int, j: int|
                        0 <= i < j < self.endpoints@.len() implies self.endpoints@[i]
                        != self.endpoints@[j] by {
                        if j == n {
                            assert(old(self).endpoints@[i] == self.endpoints@[i]);
                        }
                    }
                    assert forall|i: int|
                        0 <= i < self.endpoints().len() implies #[trigger] self.registered(
                        self.endpoints()[i].1,
                    ) by {
                        if i < n {
                            assert(old(self).registered(old(self).endpoints()[i].1));
                        }
                    }
                }
                Dispatch::ToEndpoint { endpoint: n, created: true, remote: from, service_id: sid, packet }
            },
        }
    }
}

/// After any sequence of operations, the endpoint table holds at most one
/// endpoint for each pair of remote peer and service.
pub proof fn lemma_endpoint_unique(m: &PeerRpcManager, i: int, j: int)
    requires
        m.wf(),
        0 <= i < m.endpoints().len(),
        0 <= j < m.endpoints().len(),
        m.endpoints()[i] == m.endpoints()[j],
    ensures
        i == j,
{
}

} // verus!
