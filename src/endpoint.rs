//! The bridge of one server-side endpoint, bound to a remote peer and a
//! service.
//!
//! Requests are handed to the service handler one at a time, in the order in
//! which they arrived: while one is outstanding, later ones wait in a queue.
//! Each response the handler produces answers the outstanding request and is
//! addressed to the peer that sent it; a response with no outstanding request
//! is refused.
use crate::manager::RpcError;
use crate::packet::{
    encode_packet, parse_rpc_packet, rpc_info, BodyView, Packet, PacketView, PeerId, ServiceId,
};
use vstd::prelude::*;

verus! {

/// A request that waits for the handler to become free.
#[derive(Debug)]
pub struct QueuedRequest {
    pub origin: PeerId,
    pub payload: Vec<u8>,
}

/// What the bridge does with one response of the handler.
#[derive(Debug)]
pub struct Reply {
    /// The frame to send.
    pub frame: Vec<u8>,
    /// The peer to send it to.
    pub dst: PeerId,
    /// The next request to hand to the handler, if one was waiting.
    pub next: Option<Vec<u8>>,
}

pub struct EndpointBridge {
    my_peer_id: PeerId,
    remote: PeerId,
    service_id: ServiceId,
    current: Option<PeerId>,
    waiting: Vec<QueuedRequest>,
    injected: Ghost<nat>,
    answered: Ghost<nat>,
}

/// The response packet for a request from `to`, carrying `payload`.
pub open spec fn response_packet(from: u128, to: u128, sid: u32, payload: Seq<u8>) -> PacketView {
    PacketView {
        from_peer: from,
        to_peer: Some(to),
        body: BodyView::TaRpc { service_id: sid, is_request: false, payload },
    }
}

impl EndpointBridge {
    pub closed spec fn spec_my_peer_id(&self) -> u128 {
        self.my_peer_id
    }

    pub closed spec fn spec_remote(&self) -> u128 {
        self.remote
    }

    pub closed spec fn spec_service_id(&self) -> u32 {
        self.service_id
    }

    /// The peer whose request the handler is serving, if any.
    pub closed spec fn origin(&self) -> Option<u128> {
        self.current
    }

    /// The waiting requests, oldest first: origin and payload.
    pub closed spec fn queue(&self) -> Seq<(u128, Seq<u8>)> {
        self.waiting@.map_values(|q: QueuedRequest| (q.origin, q.payload@))
    }

    /// How many requests were handed to the handler so far.
    pub closed spec fn injected(&self) -> nat {
        self.injected@
    }

    /// How many responses were sent so far.
    pub closed spec fn answered(&self) -> nat {
        self.answered@
    }

    /// Every handed-over request is answered once or is the outstanding
    /// one, and requests wait only while one is outstanding.
    pub open spec fn wf(&self) -> bool {
        &&& self.answered() + (if self.origin() is Some {
            1int
        } else {
            0int
        }) == self.injected()
        &&& self.origin() is None ==> self.queue().len() == 0
    }

    pub open spec fn same_binding(&self, other: &Self) -> bool {
        &&& self.spec_my_peer_id() == other.spec_my_peer_id()
        &&& self.spec_remote() == other.spec_remote()
        &&& self.spec_service_id() == other.spec_service_id()
    }

    /// An idle bridge of peer `my_peer_id` for `remote` on `service_id`.
    pub fn new(my_peer_id: PeerId, remote: PeerId, service_id: ServiceId) -> (r: EndpointBridge)
        ensures
            r.wf(),
            r.spec_my_peer_id() == my_peer_id,
            r.spec_remote() == remote,
            r.spec_service_id() == service_id,
            r.origin() is None,
            r.queue().len() == 0,
            r.injected() == 0,
            r.answered() == 0,
    {
        let r = EndpointBridge {
            my_peer_id,
            remote,
            service_id,
            current: None,
            waiting: Vec::new(),
            injected: Ghost(0),
            answered: Ghost(0),
        };
        assert(r.queue() =~= Seq::<(u128, Seq<u8>)>::empty());
        r
    }

    pub fn remote(&self) -> (r: PeerId)
        ensures
            r == self.spec_remote(),
    {
        self.remote
    }

    pub fn service_id(&self) -> (r: ServiceId)
        ensures
            r == self.spec_service_id(),
    {
        self.service_id
    }

    /// Takes one request packet routed to this endpoint. When the handler is
    /// free, the request's payload is returned to be handed to it now;
    /// otherwise the request waits. A packet that is no request of this
    /// service is refused with `InvalidPacket`.
    pub fn on_request(&mut self, packet: Packet) -> (r: Result<Option<Vec<u8>>, RpcError>)
        requires
            old(self).wf(),
        ensures
            final(self).wf(),
            final(self).same_binding(old(self)),
            final(self).answered() == old(self).answered(),
            match rpc_info(packet@) {
                Some((from, _to, sid, true, payload)) if sid == old(self).spec_service_id() => {
                    if old(self).origin() is None {
                        &&& r matches Ok(Some(v)) && v@ == payload
                        &&& final(self).origin() == Some(from)
                        &&& final(self).queue() == old(self).queue()
                        &&& final(self).injected() == old(self).injected() + 1
                    } else {
                        &&& r matches Ok(None)
                        &&& final(self).origin() == old(self).origin()
                        &&& final(self).queue() == old(self).queue().push((from, payload))
                        &&& final(self).injected() == old(self).injected()
                    }
                },
                _ => {
                    &&& r matches Err(e) && e == RpcError::InvalidPacket
                    &&& final(self).origin() == old(self).origin()
                    &&& final(self).queue() == old(self).queue()
                    &&& final(self).injected() == old(self).injected()
                },
            },
    {
        let info = match parse_rpc_packet(&packet) {
            Ok(i) => i,
            Err(_) => {
                return Err(RpcError::InvalidPacket);
            },
        };
        if !info.is_req || info.service_id != self.service_id {
            return Err(RpcError::InvalidPacket);
        }
        if self.current.is_none() {
            self.current = Some(info.from_peer);
            self.injected = Ghost(self.injected@ + 1);
            Ok(Some(info.content))
        } else {
            self.waiting.push(QueuedRequest { origin: info.from_peer, payload: info.content });
            assert(self.queue() =~= old(self).queue().push((info.from_peer, info.content@)));
            Ok(None)
        }
    }

    /// Takes one response of the handler. It answers the outstanding
    /// request: the returned frame carries it from this peer to the request's
    /// origin, and the next waiting request, if any, becomes outstanding.
    /// With no outstanding request it is refused with `MissingRequestContext`.
    pub fn on_response(&mut self, payload: Vec<u8>) -> (r: Result<Reply, RpcError>)
        requires
            old(self).wf(),
        ensures
            final(self).wf(),
            final(self).same_binding(old(self)),
            match old(self).origin() {
                None => {
                    &&& r matches Err(e) && e == RpcError::MissingRequestContext
                    &&& final(self).origin() == old(self).origin()
                    &&& final(self).queue() == old(self).queue()
                    &&& final(self).injected() == old(self).injected()
                    &&& final(self).answered() == old(self).answered()
                },
                Some(o) => r matches Ok(reply) && {
                    &&& reply.frame@ == encode_packet(
                        response_packet(
                            old(self).spec_my_peer_id(),
                            o,
                            old(self).spec_service_id(),
                            payload@,
                        ),
                    )
                    &&& reply.dst == old(self).spec_remote()
                    &&& final(self).answered() == old(self).answered() + 1
                    &&& if old(self).queue().len() == 0 {
                        &&& reply.next is None
                        &&& final(self).origin() is None
                        &&& final(self).queue() == old(self).queue()
                        &&& final(self).injected() == old(self).injected()
                    } else {
                        &&& reply.next matches Some(v) && v@ == old(self).queue()[0].1
                        &&& final(self).origin() == Some(old(self).queue()[0].0)
                        &&& final(self).queue() == old(self).queue().drop_first()
                        &&& final(self).injected() == old(self).injected() + 1
                    }
                },
            },
    {
        let origin = match self.current {
            Some(o) => o,
            None => {
                return Err(RpcError::MissingRequestContext);
            },
        };
        let packet = Packet::new_tarpc_packet(
            self.my_peer_id,
            origin,
            self.service_id,
            false,
            payload,
        );
        let frame = packet.encode();
        self.answered = Ghost(self.answered@ + 1);
        if self.waiting.len() == 0 {
            self.current = None;
            Ok(Reply { frame, dst: self.remote, next: None })
        } else {
            let q = self.waiting.remove(0);
            self.current = Some(q.origin);
            self.injected = Ghost(self.injected@ + 1);
            assert(self.queue() =~= old(self).queue().drop_first());
            Ok(Reply { frame, dst: self.remote, next: Some(q.payload) })
        }
    }
}

/// However requests and responses interleave, the bridge sends no more
/// responses than it handed requests to the handler: each request is
/// answered at most once.
pub proof fn lemma_responses_bounded(e: &EndpointBridge)
    requires
        e.wf(),
    ensures
        e.answered() <= e.injected(),
{
}

} // verus!
