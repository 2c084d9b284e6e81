//! The on-wire message and its binary codec.
//!
//! A frame starts with a flags byte — secure bit, route kind, and a
//! bit saying whether a sender follows — then the service identifier,
//! a big-endian stream identifier, the route payload, the optional
//! sender, a meta block behind its varint length, and the payload as
//! the remainder.  The codec carries meta blocks shorter than 128
//! bytes, the domain on which the varint is its one-byte form; a
//! length byte with the continuation bit set is rejected, as are all
//! other malformed frames, each with a typed error, so decoding is
//! total over any byte slice, and decoding an encoded message gives
//! the message back.

use vstd::prelude::*;

use crate::router::RouteRule;

verus! {

/// Why a frame failed to decode.
#[derive(Debug, Clone, Copy, PartialEq, Eq, Structural)]
pub enum MsgDecodeError {
    /// The frame ends before a field it promises.
    TooShort,
    /// The route kind bits name no route.
    InvalidRouteType,
    /// The meta length overruns the frame, or its varint has the
    /// continuation bit set and needs more bytes than this codec
    /// carries.
    InvalidMeta,
}

/// The header of an on-wire message.
#[derive(Debug, PartialEq, Eq)]
#[verifier::ext_equal]
pub struct MsgHeader {
    pub service_id: u8,
    pub route: RouteRule,
    pub from_node: Option<u32>,
    pub stream_id: u32,
    pub secure: bool,
    pub meta: Vec<u8>,
}

/// An on-wire message: a header and its payload.
#[derive(Debug, PartialEq, Eq)]
#[verifier::ext_equal]
pub struct TransportMsg {
    pub header: MsgHeader,
    pub payload: Vec<u8>,
}

/// The three route kind bits of a rule.
pub open spec fn route_type_of(r: RouteRule) -> u8 {
    match r {
        RouteRule::Direct => 0,
        RouteRule::ToNode(_) => 1,
        RouteRule::ToKey(_) => 2,
        RouteRule::ToService(_) => 3,
    }
}

/// The four big-endian bytes of a 32-bit value.
pub open spec fn be_bytes_of(v: u32) -> Seq<u8> {
    seq![
        (v / 0x100_0000) as u8,
        ((v / 0x1_0000) % 0x100) as u8,
        ((v / 0x100) % 0x100) as u8,
        (v % 0x100) as u8,
    ]
}

/// The 32-bit value of four big-endian bytes.
pub open spec fn be_value_of(b: Seq<u8>) -> u32
    recommends
        b.len() == 4,
{
    (b[0] * 0x100_0000 + b[1] * 0x1_0000 + b[2] * 0x100 + b[3]) as u32
}

/// The bytes a route rule adds after the fixed header fields.
pub open spec fn route_bytes_of(r: RouteRule) -> Seq<u8> {
    match r {
        RouteRule::Direct => Seq::empty(),
        RouteRule::ToNode(n) => be_bytes_of(n),
        RouteRule::ToKey(k) => be_bytes_of(k),
        RouteRule::ToService(s) => seq![s],
    }
}

/// The flags byte: secure bit on top, three route kind bits, one bit
/// saying whether a sender follows.
pub open spec fn flags_of(secure: bool, route: RouteRule, has_from: bool) -> u8 {
    ((if secure {
        128int
    } else {
        0int
    }) + route_type_of(route) * 16 + (if has_from {
        8int
    } else {
        0int
    })) as u8
}

/// The full encoding of a header: flags, service, stream, route
/// payload, optional sender, meta length and meta bytes.
pub open spec fn header_bytes_of(h: MsgHeader) -> Seq<u8> {
    seq![flags_of(h.secure, h.route, h.from_node is Some), h.service_id] + be_bytes_of(h.stream_id)
        + route_bytes_of(h.route) + (match h.from_node {
        Some(n) => be_bytes_of(n),
        None => Seq::empty(),
    }) + seq![h.meta@.len() as u8] + h.meta@
}

/// The full encoding of a message: its header, then its payload.
pub open spec fn msg_bytes_of(m: TransportMsg) -> Seq<u8> {
    header_bytes_of(m.header) + m.payload@
}

/// Two messages that carry the same frame: every header field and
/// both byte blocks agree.
pub open spec fn msg_equiv(a: TransportMsg, b: TransportMsg) -> bool {
    &&& a.header.service_id == b.header.service_id
    &&& a.header.route == b.header.route
    &&& a.header.from_node == b.header.from_node
    &&& a.header.stream_id == b.header.stream_id
    &&& a.header.secure == b.header.secure
    &&& a.header.meta@ == b.header.meta@
    &&& a.payload@ == b.payload@
}

/// A header the codec can carry: the meta block is short enough that
/// its varint length prefix is a single byte.
pub open spec fn header_wf(h: MsgHeader) -> bool {
    h.meta@.len() < 128
}

impl MsgHeader {
    /// Whether a sender is recorded.
    pub fn has_from_node(&self) -> (r: bool)
        ensures
            r == (self.from_node is Some),
    {
        self.from_node.is_some()
    }
}

/// Append the four big-endian bytes of `v` to `out`.
pub(crate) fn push_be_u32(out: &mut Vec<u8>, v: u32)
    ensures
        final(out)@ == old(out)@ + be_bytes_of(v),
{
    let b0 = (v >> 24u32) as u8;
    let b1 = ((v >> 16u32) & 0xff) as u8;
    let b2 = ((v >> 8u32) & 0xff) as u8;
    let b3 = (v & 0xff) as u8;
    proof {
        assert((v >> 24u32) as u8 == v / 0x100_0000 && ((v >> 16u32) & 0xff) as u8 == (v
            / 0x1_0000) % 0x100 && ((v >> 8u32) & 0xff) as u8 == (v / 0x100) % 0x100 && (v
            & 0xff) as u8 == v % 0x100) by (bit_vector);
    }
    out.push(b0);
    out.push(b1);
    out.push(b2);
    out.push(b3);
    proof {
        assert(final(out)@ =~= old(out)@ + be_bytes_of(v));
    }
}

/// Read the four big-endian bytes at `at` as a 32-bit value.
pub(crate) fn read_be_u32(b: &Vec<u8>, at: usize) -> (r: u32)
    requires
        at + 4 <= b@.len(),
    ensures
        r == be_value_of(b@.subrange(at as int, at as int + 4)),
{
    let n = b.len();
    let r = ((b[at] as u32) << 24u32) | ((b[at + 1] as u32) << 16u32) | ((b[at + 2] as u32)
        << 8u32) | (b[at + 3] as u32);
    proof {
        let x0 = b@[at as int];
        let x1 = b@[at as int + 1];
        let x2 = b@[at as int + 2];
        let x3 = b@[at as int + 3];
        assert(((x0 as u32) << 24u32) | ((x1 as u32) << 16u32) | ((x2 as u32) << 8u32) | (
        x3 as u32) == (x0 * 0x100_0000 + x1 * 0x1_0000 + x2 * 0x100 + x3) as u32) by (bit_vector);
        assert(b@.subrange(at as int, at as int + 4) =~= seq![x0, x1, x2, x3]);
    }
    r
}

impl TransportMsg {
    /// Whether a frame's first byte carries the secure bit.
    pub fn is_secure_header(first: u8) -> (r: bool)
        ensures
            r == (first >= 128),
    {
        first >= 128
    }

    /// Build a message from its parts.  The route kind, the sender
    /// and the secure bit all end up in the flags byte; the payload is
    /// carried as the frame's remainder.
    pub fn build(
        service_id: u8,
        route: RouteRule,
        stream_id: u32,
        secure: bool,
        from_node: Option<u32>,
        meta: Vec<u8>,
        payload: Vec<u8>,
    ) -> (r: TransportMsg)
        requires
            meta@.len() < 128,
        ensures
            r.header == (MsgHeader { service_id, route, from_node, stream_id, secure, meta }),
            r.payload == payload,
            header_wf(r.header),
    {
        TransportMsg {
            header: MsgHeader { service_id, route, from_node, stream_id, secure, meta },
            payload,
        }
    }

    /// Encode the message into its canonical frame.
    pub fn to_vec(&self) -> (r: Vec<u8>)
        requires
            header_wf(self.header),
        ensures
            r@ == msg_bytes_of(*self),
    {
        let mut out: Vec<u8> = Vec::new();
        let route_type: u8 = match &self.header.route {
            RouteRule::Direct => 0,
            RouteRule::ToNode(_) => 1,
            RouteRule::ToKey(_) => 2,
            RouteRule::ToService(_) => 3,
        };
        let flags: u8 = (if self.header.secure {
            128u8
        } else {
            0u8
        }) + route_type * 16 + (if self.header.from_node.is_some() {
            8u8
        } else {
            0u8
        });
        out.push(flags);
        out.push(self.header.service_id);
        push_be_u32(&mut out, self.header.stream_id);
        match &self.header.route {
            RouteRule::Direct => {},
            RouteRule::ToNode(n) => {
                push_be_u32(&mut out, *n);
            },
            RouteRule::ToKey(k) => {
                push_be_u32(&mut out, *k);
            },
            RouteRule::ToService(s) => {
                out.push(*s);
            },
        }
        match &self.header.from_node {
            Some(n) => {
                push_be_u32(&mut out, *n);
            },
            None => {},
        }
        out.push(self.header.meta.len() as u8);
        let mut i: usize = 0;
        let ghost pre = out@;
        while i < self.header.meta.len()
            invariant
                i <= self.header.meta@.len(),
                out@ == pre + self.header.meta@.take(i as int),
            decreases self.header.meta@.len() - i,
        {
            out.push(self.header.meta[i]);
            proof {
                assert(out@ =~= pre + self.header.meta@.take(i + 1));
            }
            i += 1;
        }
        proof {
            assert(self.header.meta@.take(self.header.meta@.len() as int) =~= self.header.meta@);
        }
        let mut j: usize = 0;
        let ghost pre2 = out@;
        while j < self.payload.len()
            invariant
                j <= self.payload@.len(),
                out@ == pre2 + self.payload@.take(j as int),
            decreases self.payload@.len() - j,
        {
            out.push(self.payload[j]);
            proof {
                assert(out@ =~= pre2 + self.payload@.take(j + 1));
            }
            j += 1;
        }
        proof {
            assert(self.payload@.take(self.payload@.len() as int) =~= self.payload@);
            assert(out@ =~= msg_bytes_of(*self));
        }
        out
    }

    /// Decode a frame.  Total over any byte vector: a frame that ends
    /// early, names no route, or promises more meta than it holds is
    /// rejected with the matching error, and a frame that came from
    /// `to_vec` decodes to the message it encoded.
    #[verifier::rlimit(100)]
    pub fn from_vec(b: Vec<u8>) -> (r: Result<TransportMsg, MsgDecodeError>)
        ensures
            forall|m: TransportMsg|
                header_wf(m.header) && b@ == #[trigger] msg_bytes_of(m) ==> (r matches Ok(got)
                    && msg_equiv(got, m)),
            b@.len() < 7 ==> r is Err,
    {
        if b.len() < 7 {
            return Err(MsgDecodeError::TooShort);
        }
        let flags = b[0];
        let secure = flags >= 128;
        let route_type = (flags / 16) % 8;
        let has_from = (flags / 8) % 2 == 1;
        let service_id = b[1];
        let stream_id = read_be_u32(&b, 2);
        let mut at: usize = 6;
        let route: RouteRule = if route_type == 0 {
            RouteRule::Direct
        } else if route_type == 1 {
            if at + 4 > b.len() {
                return Err(MsgDecodeError::TooShort);
            }
            let n = read_be_u32(&b, at);
            at += 4;
            RouteRule::ToNode(n)
        } else if route_type == 2 {
            if at + 4 > b.len() {
                return Err(MsgDecodeError::TooShort);
            }
            let k = read_be_u32(&b, at);
            at += 4;
            RouteRule::ToKey(k)
        } else if route_type == 3 {
            if at + 1 > b.len() {
                return Err(MsgDecodeError::TooShort);
            }
            let s = b[at];
            at += 1;
            RouteRule::ToService(s)
        } else {
            return Err(MsgDecodeError::InvalidRouteType);
        };
        let from_node: Option<u32> = if has_from {
            if at + 4 > b.len() {
                return Err(MsgDecodeError::TooShort);
            }
            let n = read_be_u32(&b, at);
            at += 4;
            Some(n)
        } else {
            None
        };
        if at + 1 > b.len() {
            return Err(MsgDecodeError::TooShort);
        }
        if b[at] >= 128 {
            return Err(MsgDecodeError::InvalidMeta);
        }
        let meta_len = b[at] as usize;
        at += 1;
        if at + meta_len > b.len() {
            return Err(MsgDecodeError::InvalidMeta);
        }
        let mut meta: Vec<u8> = Vec::new();
        let meta_start = at;
        let mut i: usize = 0;
        while i < meta_len
            invariant
                i <= meta_len,
                meta_start + meta_len <= b@.len(),
                b@.len() <= usize::MAX,
                meta@ == b@.subrange(meta_start as int, meta_start as int + i),
            decreases meta_len - i,
        {
            meta.push(b[meta_start + i]);
            proof {
                assert(meta@ =~= b@.subrange(meta_start as int, meta_start as int + i + 1));
            }
            i += 1;
        }
        at += meta_len;
        let mut payload: Vec<u8> = Vec::new();
        let payload_start = at;
        let mut j: usize = 0;
        let payload_len = b.len() - payload_start;
        while j < payload_len
            invariant
                j <= payload_len,
                payload_start + payload_len == b@.len(),
                b@.len() <= usize::MAX,
                payload@ == b@.subrange(payload_start as int, payload_start as int + j),
            decreases payload_len - j,
        {
            payload.push(b[payload_start + j]);
            proof {
                assert(payload@ =~= b@.subrange(
                    payload_start as int,
                    payload_start as int + j + 1,
                ));
            }
            j += 1;
        }
        let msg = TransportMsg {
            header: MsgHeader { service_id, route, from_node, stream_id, secure, meta },
            payload,
        };
        proof {
            assert forall|m: TransportMsg|
                header_wf(m.header) && b@ == msg_bytes_of(m) implies msg_equiv(msg, m) by {
                lemma_decode_encode(m, b@, msg);
            }
        }
        Ok(msg)
    }
}

/// Decoding the encoding of a well-formed message reconstructs every
/// field of the message.
proof fn lemma_decode_encode(m: TransportMsg, b: Seq<u8>, got: TransportMsg)
    requires
        header_wf(m.header),
        b == msg_bytes_of(m),
        b.len() >= 7,
        got.header.secure == (b[0] >= 128),
        got.header.service_id == b[1],
        got.header.stream_id == be_value_of(b.subrange(2, 6)),
        ({
            let flags = b[0];
            let route_type = (flags / 16) % 8;
            let has_from = (flags / 8) % 2 == 1;
            let route_len: int = if route_type == 0 {
                0
            } else if route_type == 3 {
                1
            } else {
                4
            };
            let from_len: int = if has_from {
                4
            } else {
                0
            };
            let meta_start = 7 + route_len + from_len;
            &&& (route_type == 0 ==> got.header.route is Direct)
            &&& (route_type == 1 ==> got.header.route == RouteRule::ToNode(
                be_value_of(b.subrange(6, 10)),
            ))
            &&& (route_type == 2 ==> got.header.route == RouteRule::ToKey(
                be_value_of(b.subrange(6, 10)),
            ))
            &&& (route_type == 3 ==> b.len() > 6 && got.header.route == RouteRule::ToService(b[6]))
            &&& (has_from ==> 6 + route_len + 4 <= b.len() && got.header.from_node == Some(
                be_value_of(b.subrange(6 + route_len, 6 + route_len + 4)),
            ))
            &&& (!has_from ==> got.header.from_node is None)
            &&& meta_start - 1 < b.len()
            &&& meta_start + b[meta_start - 1] <= b.len()
            &&& got.header.meta@ == b.subrange(meta_start, meta_start + b[meta_start - 1])
            &&& got.payload@ == b.subrange(meta_start + b[meta_start - 1], b.len() as int)
        }),
    ensures
        msg_equiv(got, m),
{
    let flags = flags_of(m.header.secure, m.header.route, m.header.from_node is Some);
    let rt = route_type_of(m.header.route);
    assert(b[0] == flags);
    assert(rt <= 3);
    assert((m.header.secure ==> flags >= 128) && (!m.header.secure ==> flags < 128) && (flags / 16)
        % 8 == rt && ((flags / 8) % 2 == 1) == (m.header.from_node is Some)) by (nonlinear_arith)
        requires
            rt <= 3,
            flags == ((if m.header.secure {
                128int
            } else {
                0int
            }) + rt * 16 + (if m.header.from_node is Some {
                8int
            } else {
                0int
            })) as u8,
    ;
    let hb = header_bytes_of(m.header);
    let route_len: int = route_bytes_of(m.header.route).len() as int;
    let from_len: int = if m.header.from_node is Some {
        4
    } else {
        0
    };
    assert(b[1] == m.header.service_id);
    assert(b.subrange(2, 6) =~= be_bytes_of(m.header.stream_id));
    lemma_be_roundtrip(m.header.stream_id);
    match m.header.route {
        RouteRule::Direct => {},
        RouteRule::ToNode(n) => {
            assert(b.subrange(6, 10) =~= be_bytes_of(n));
            lemma_be_roundtrip(n);
        },
        RouteRule::ToKey(k) => {
            assert(b.subrange(6, 10) =~= be_bytes_of(k));
            lemma_be_roundtrip(k);
        },
        RouteRule::ToService(s) => {
            assert(b[6] == s);
        },
    }
    match m.header.from_node {
        Some(n) => {
            assert(b.subrange(6 + route_len, 6 + route_len + 4) =~= be_bytes_of(n));
            lemma_be_roundtrip(n);
        },
        None => {},
    }
    let meta_start = 7 + route_len + from_len;
    assert(b[meta_start - 1] == m.header.meta@.len() as u8);
    assert(m.header.meta@.len() as u8 == m.header.meta@.len());
    assert(got.header.meta@ =~= m.header.meta@);
    assert(got.payload@ =~= m.payload@);
}

/// Reading back the four big-endian bytes of a value gives the value.
pub proof fn lemma_be_roundtrip(v: u32)
    ensures
        be_value_of(be_bytes_of(v)) == v,
{
    assert(((v / 0x100_0000) as u8) * 0x100_0000 + (((v / 0x1_0000) % 0x100) as u8) * 0x1_0000 + ((
    (v / 0x100) % 0x100) as u8) * 0x100 + ((v % 0x100) as u8) == v) by (bit_vector);
}

} // verus!
