//! The packet envelope and its wire format.
//!
//! A frame holds exactly one packet. All integers are little-endian.
//!
//! ```text
//! frame   := from_peer[16] to_flag[1] to_peer[16 if to_flag == 1] body
//! body    := 0 service_id[4] is_request[1] payload[..]     (an RPC carrier)
//!          | 1 kind[1] data[..]                             (another control packet)
//! ```
//!
//! `to_flag` and `is_request` are 0 or 1; any other value, an unknown body
//! tag or a frame that ends early is malformed. The payload (or data) runs to
//! the end of the frame, so every packet has exactly one encoding.
use vstd::bytes::*;
use vstd::prelude::*;
use vstd::slice::*;

verus! {

/// A peer identifier: the 128 bits of the peer's UUID.
pub type PeerId = u128;

/// A service identifier, chosen by the application.
pub type ServiceId = u32;

/// The body of a packet.
#[derive(Debug, Clone, PartialEq, Eq)]
pub enum PacketBody {
    /// The RPC carrier: one opaque, already serialized RPC message.
    TaRpc { service_id: ServiceId, is_request: bool, payload: Vec<u8> },
    /// Any other control packet; the multiplexer does not handle these.
    Ctrl { kind: u8, data: Vec<u8> },
}

/// A packet envelope. It is built once and not changed afterwards.
#[derive(Debug, Clone, PartialEq, Eq)]
pub struct Packet {
    pub from_peer: PeerId,
    pub to_peer: Option<PeerId>,
    pub body: PacketBody,
}

pub enum BodyView {
    TaRpc { service_id: u32, is_request: bool, payload: Seq<u8> },
    Ctrl { kind: u8, data: Seq<u8> },
}

pub struct PacketView {
    pub from_peer: u128,
    pub to_peer: Option<u128>,
    pub body: BodyView,
}

impl View for PacketBody {
    type V = BodyView;

    open spec fn view(&self) -> BodyView {
        match self {
            PacketBody::TaRpc { service_id, is_request, payload } => BodyView::TaRpc {
                service_id: *service_id,
                is_request: *is_request,
                payload: payload@,
            },
            PacketBody::Ctrl { kind, data } => BodyView::Ctrl { kind: *kind, data: data@ },
        }
    }
}

impl View for Packet {
    type V = PacketView;

    open spec fn view(&self) -> PacketView {
        PacketView { from_peer: self.from_peer, to_peer: self.to_peer, body: self.body@ }
    }
}

/// Why a frame or a packet was refused.
#[derive(Debug, Clone, Copy, PartialEq, Eq, Structural)]
pub enum PacketError {
    /// The frame is truncated or does not follow the wire format.
    MalformedPacket,
    /// The packet is not an RPC carrier addressed to a peer.
    InvalidPacket,
}

pub const BODY_TARPC: u8 = 0;

pub const BODY_CTRL: u8 = 1;

pub open spec fn bool_byte(b: bool) -> u8 {
    if b {
        1
    } else {
        0
    }
}

pub open spec fn encode_body(b: BodyView) -> Seq<u8> {
    match b {
        BodyView::TaRpc { service_id, is_request, payload } => seq![BODY_TARPC]
            + spec_u32_to_le_bytes(service_id) + seq![bool_byte(is_request)] + payload,
        BodyView::Ctrl { kind, data } => seq![BODY_CTRL, kind] + data,
    }
}

pub open spec fn encode_to_peer(to: Option<u128>) -> Seq<u8> {
    match to {
        None => seq![0u8],
        Some(p) => seq![1u8] + spec_u128_to_le_bytes(p),
    }
}

/// The frame that carries packet `p`.
pub open spec fn encode_packet(p: PacketView) -> Seq<u8> {
    spec_u128_to_le_bytes(p.from_peer) + encode_to_peer(p.to_peer) + encode_body(p.body)
}

pub open spec fn decode_body(s: Seq<u8>) -> Option<BodyView> {
    if s.len() >= 6 && s[0] == BODY_TARPC && s[5] <= 1 {
        Some(
            BodyView::TaRpc {
                service_id: spec_u32_from_le_bytes(s.subrange(1, 5)),
                is_request: s[5] == 1,
                payload: s.subrange(6, s.len() as int),
            },
        )
    } else if s.len() >= 2 && s[0] == BODY_CTRL {
        Some(BodyView::Ctrl { kind: s[1], data: s.subrange(2, s.len() as int) })
    } else {
        None
    }
}

/// The packet that frame `s` carries, if `s` is well formed.
pub open spec fn decode_packet(s: Seq<u8>) -> Option<PacketView> {
    if s.len() < 17 {
        None
    } else {
        let from_peer = spec_u128_from_le_bytes(s.subrange(0, 16));
        if s[16] == 0 {
            match decode_body(s.subrange(17, s.len() as int)) {
                Some(body) => Some(PacketView { from_peer, to_peer: None, body }),
                None => None,
            }
        } else if s[16] == 1 && s.len() >= 33 {
            let to = spec_u128_from_le_bytes(s.subrange(17, 33));
            match decode_body(s.subrange(33, s.len() as int)) {
                Some(body) => Some(PacketView { from_peer, to_peer: Some(to), body }),
                None => None,
            }
        } else {
            None
        }
    }
}

proof fn lemma_body_round_trip(b: BodyView)
    ensures
        decode_body(encode_body(b)) == Some(b),
{
    lemma_auto_spec_u32_to_from_le_bytes();
    let s = encode_body(b);
    match b {
        BodyView::TaRpc { service_id, is_request, payload } => {
            assert(s.subrange(1, 5) =~= spec_u32_to_le_bytes(service_id));
            assert(s.subrange(6, s.len() as int) =~= payload);
        },
        BodyView::Ctrl { kind, data } => {
            assert(s.subrange(2, s.len() as int) =~= data);
        },
    }
}

proof fn lemma_body_canonical(s: Seq<u8>)
    requires
        decode_body(s) is Some,
    ensures
        encode_body(decode_body(s).unwrap()) == s,
{
    lemma_auto_spec_u32_to_from_le_bytes();
    if s[0] == BODY_TARPC {
        assert(s =~= seq![BODY_TARPC] + s.subrange(1, 5) + seq![s[5]] + s.subrange(
            6,
            s.len() as int,
        ));
        assert(encode_body(decode_body(s).unwrap()) =~= s);
    } else {
        assert(encode_body(decode_body(s).unwrap()) =~= s);
    }
}

/// Decoding the frame of a packet gives that packet back, and a frame that
/// decodes is the frame of what it decodes to: the format is a bijection
/// between packets and well-formed frames, and a payload crosses it unchanged.
pub proof fn lemma_packet_round_trip(p: PacketView, s: Seq<u8>)
    ensures
        decode_packet(encode_packet(p)) == Some(p),
        decode_packet(s) is Some ==> encode_packet(decode_packet(s).unwrap()) == s,
{
    lemma_auto_spec_u128_to_from_le_bytes();
    let e = encode_packet(p);
    let from = spec_u128_to_le_bytes(p.from_peer);
    lemma_body_round_trip(p.body);
    assert(e.subrange(0, 16) =~= from);
    match p.to_peer {
        None => {
            assert(e.subrange(17, e.len() as int) =~= encode_body(p.body));
        },
        Some(t) => {
            assert(e.subrange(17, 33) =~= spec_u128_to_le_bytes(t));
            assert(e.subrange(33, e.len() as int) =~= encode_body(p.body));
        },
    }
    if decode_packet(s) is Some {
        assert(s =~= s.subrange(0, 16) + s.subrange(16, s.len() as int));
        if s[16] == 0 {
            let rest = s.subrange(17, s.len() as int);
            lemma_body_canonical(rest);
            assert(s =~= s.subrange(0, 16) + seq![0u8] + rest);
        } else {
            let rest = s.subrange(33, s.len() as int);
            lemma_body_canonical(rest);
            assert(s =~= s.subrange(0, 16) + (seq![1u8] + s.subrange(17, 33)) + rest);
        }
    }
}

/// The payload of an RPC carrier crosses the wire bit for bit: the frame of
/// the packet decodes to an RPC carrier with the same peers, service id,
/// direction and payload.
pub proof fn lemma_payload_opaque(
    from: u128,
    to: u128,
    service_id: u32,
    is_request: bool,
    payload: Seq<u8>,
)
    ensures
        ({
            let p = PacketView {
                from_peer: from,
                to_peer: Some(to),
                body: BodyView::TaRpc { service_id, is_request, payload },
            };
            &&& decode_packet(encode_packet(p)) == Some(p)
            &&& rpc_info(p) == Some((from, to, service_id, is_request, payload))
        }),
{
    let p = PacketView {
        from_peer: from,
        to_peer: Some(to),
        body: BodyView::TaRpc { service_id, is_request, payload },
    };
    lemma_packet_round_trip(p, encode_packet(p));
}

/// What the multiplexer reads out of an RPC carrier packet.
#[derive(Debug, Clone, PartialEq, Eq)]
pub struct TaRpcPacketInfo {
    pub from_peer: PeerId,
    pub to_peer: PeerId,
    pub service_id: ServiceId,
    pub is_req: bool,
    pub content: Vec<u8>,
}

/// The RPC fields of `p`, if it is an RPC carrier addressed to a peer.
pub open spec fn rpc_info(p: PacketView) -> Option<(u128, u128, u32, bool, Seq<u8>)> {
    match p.body {
        BodyView::TaRpc { service_id, is_request, payload } => match p.to_peer {
            Some(to) => Some((p.from_peer, to, service_id, is_request, payload)),
            None => None,
        },
        BodyView::Ctrl { .. } => None,
    }
}

fn decode_body_bytes(s: &[u8]) -> (r: Option<PacketBody>)
    ensures
        match r {
            Some(b) => decode_body(s@) == Some(b@),
            None => decode_body(s@) is None,
        },
{
    let n = s.len();
    if n >= 6 && s[0] == BODY_TARPC && s[5] <= 1 {
        let service_id = u32_from_le_bytes(slice_subrange(s, 1, 5));
        let payload = slice_to_vec(slice_subrange(s, 6, n));
        Some(PacketBody::TaRpc { service_id, is_request: s[5] == 1, payload })
    } else if n >= 2 && s[0] == BODY_CTRL {
        let data = slice_to_vec(slice_subrange(s, 2, n));
        Some(PacketBody::Ctrl { kind: s[1], data })
    } else {
        None
    }
}

impl Packet {
    /// Builds an RPC carrier packet from `from` to `to`.
    pub fn new_tarpc_packet(
        from: PeerId,
        to: PeerId,
        service_id: ServiceId,
        is_request: bool,
        payload: Vec<u8>,
    ) -> (r: Packet)
        ensures
            r@ == (PacketView {
                from_peer: from,
                to_peer: Some(to),
                body: BodyView::TaRpc { service_id, is_request, payload: payload@ },
            }),
    {
        Packet {
            from_peer: from,
            to_peer: Some(to),
            body: PacketBody::TaRpc { service_id, is_request, payload },
        }
    }

    /// The frame that carries this packet.
    pub fn encode(&self) -> (r: Vec<u8>)
        ensures
            r@ == encode_packet(self@),
    {
        let mut out = u128_to_le_bytes(self.from_peer);
        match self.to_peer {
            None => {
                out.push(0u8);
            },
            Some(to) => {
                out.push(1u8);
                let mut t = u128_to_le_bytes(to);
                out.append(&mut t);
            },
        }
        match &self.body {
            PacketBody::TaRpc { service_id, is_request, payload } => {
                out.push(BODY_TARPC);
                let mut sid = u32_to_le_bytes(*service_id);
                out.append(&mut sid);
                out.push(if *is_request { 1u8 } else { 0u8 });
                let mut pl = slice_to_vec(payload.as_slice());
                out.append(&mut pl);
            },
            PacketBody::Ctrl { kind, data } => {
                out.push(BODY_CTRL);
                out.push(*kind);
                let mut d = slice_to_vec(data.as_slice());
                out.append(&mut d);
            },
        }
        assert(out@ =~= encode_packet(self@));
        out
    }

    /// The packet that `frame` carries; `MalformedPacket` exactly when the
    /// frame does not follow the wire format.
    pub fn decode(frame: &[u8]) -> (r: Result<Packet, PacketError>)
        ensures
            match r {
                Ok(p) => decode_packet(frame@) == Some(p@),
                Err(e) => decode_packet(frame@) is None && e == PacketError::MalformedPacket,
            },
    {
        let n = frame.len();
        if n < 17 {
            return Err(PacketError::MalformedPacket);
        }
        let from_peer = u128_from_le_bytes(slice_subrange(frame, 0, 16));
        let (to_peer, start) = if frame[16] == 0 {
            (None, 17usize)
        } else if frame[16] == 1 && n >= 33 {
            (Some(u128_from_le_bytes(slice_subrange(frame, 17, 33))), 33usize)
        } else {
            return Err(PacketError::MalformedPacket);
        };
        match decode_body_bytes(slice_subrange(frame, start, n)) {
            Some(body) => Ok(Packet { from_peer, to_peer, body }),
            None => Err(PacketError::MalformedPacket),
        }
    }
}

/// Reads the RPC fields out of `packet`; `InvalidPacket` exactly when it is
/// not an RPC carrier or names no recipient.
pub fn parse_rpc_packet(packet: &Packet) -> (r: Result<TaRpcPacketInfo, PacketError>)
    ensures
        match r {
            Ok(i) => rpc_info(packet@) == Some(
                (i.from_peer, i.to_peer, i.service_id, i.is_req, i.content@),
            ),
            Err(e) => rpc_info(packet@) is None && e == PacketError::InvalidPacket,
        },
{
    match &packet.body {
        PacketBody::TaRpc { service_id, is_request, payload } => match packet.to_peer {
            Some(to) => Ok(
                TaRpcPacketInfo {
                    from_peer: packet.from_peer,
                    to_peer: to,
                    service_id: *service_id,
                    is_req: *is_request,
                    content: slice_to_vec(payload.as_slice()),
                },
            ),
            None => Err(PacketError::InvalidPacket),
        },
        PacketBody::Ctrl { .. } => Err(PacketError::InvalidPacket),
    }
}

} // verus!
