//! Identity of nodes and connections in the overlay.

use vstd::prelude::*;

verus! {

/// The tag byte that announces a UDP endpoint in a serialized
/// address.
pub const UDP_PROTOCOL_TAG: u8 = 1;

/// The tag byte that announces a TCP endpoint in a serialized
/// address.
pub const TCP_PROTOCOL_TAG: u8 = 2;

/// Why a serialized address failed to decode.
#[derive(Debug, Clone, Copy, PartialEq, Eq, Structural)]
pub enum AddrDecodeError {
    /// The bytes end before a field they promise.
    TooShort,
    /// A tag byte names no known protocol.
    UnknownProtocol,
}

/// One transport endpoint of a node: a protocol tag with its address.
#[derive(Debug, Clone, Copy, PartialEq, Eq, Structural)]
pub enum Protocol {
    /// UDP endpoint: packed IPv4 address and port.
    Udp(u32, u16),
    /// TCP endpoint: packed IPv4 address and port.
    Tcp(u32, u16),
}

/// The address of a node: its identifier and the ordered transport
/// endpoints it can be reached at.
#[derive(Debug, Clone, PartialEq, Eq)]
#[verifier::ext_equal]
pub struct NodeAddr {
    pub node_id: u32,
    pub parts: Vec<Protocol>,
}

/// The two big-endian bytes of a 16-bit value.
pub open spec fn be2_bytes_of(v: u16) -> Seq<u8> {
    seq![(v / 0x100) as u8, (v % 0x100) as u8]
}

/// The serialized form of one endpoint: its tag, then the packed
/// address and port, big-endian.
pub open spec fn part_bytes_of(p: Protocol) -> Seq<u8> {
    match p {
        Protocol::Udp(ip, port) => seq![UDP_PROTOCOL_TAG] + crate::msg::be_bytes_of(ip)
            + be2_bytes_of(port),
        Protocol::Tcp(ip, port) => seq![TCP_PROTOCOL_TAG] + crate::msg::be_bytes_of(ip)
            + be2_bytes_of(port),
    }
}

/// The serialized endpoints of an address, in order.
pub open spec fn parts_bytes_of(ps: Seq<Protocol>) -> Seq<u8>
    decreases ps.len(),
{
    if ps.len() == 0 {
        Seq::empty()
    } else {
        parts_bytes_of(ps.drop_last()) + part_bytes_of(ps.last())
    }
}

/// The serialized form of a whole address: the node identifier in
/// big-endian, then each endpoint.
pub open spec fn addr_bytes_of(a: NodeAddr) -> Seq<u8> {
    crate::msg::be_bytes_of(a.node_id) + parts_bytes_of(a.parts@)
}

/// Every serialized endpoint takes exactly seven bytes.
proof fn lemma_parts_bytes_len(ps: Seq<Protocol>)
    ensures
        parts_bytes_of(ps).len() == 7 * ps.len(),
    decreases ps.len(),
{
    if ps.len() > 0 {
        lemma_parts_bytes_len(ps.drop_last());
        match ps.last() {
            Protocol::Udp(ip, port) => {},
            Protocol::Tcp(ip, port) => {},
        }
    }
}

/// Four big-endian bytes read back as a value re-encode to the same
/// bytes.
proof fn lemma_be_bytes_canonical(b0: u8, b1: u8, b2: u8, b3: u8)
    ensures
        crate::msg::be_bytes_of(crate::msg::be_value_of(seq![b0, b1, b2, b3])) == seq![
            b0,
            b1,
            b2,
            b3,
        ],
{
    let v = crate::msg::be_value_of(seq![b0, b1, b2, b3]);
    assert(v == (b0 * 0x100_0000 + b1 * 0x1_0000 + b2 * 0x100 + b3) as u32);
    assert({
        let w = (b0 * 0x100_0000 + b1 * 0x1_0000 + b2 * 0x100 + b3) as u32;
        w / 0x100_0000 == b0 && (w / 0x1_0000) % 0x100 == b1 && (w / 0x100) % 0x100 == b2 && w
            % 0x100 == b3
    }) by (bit_vector);
    assert(crate::msg::be_bytes_of(v) =~= seq![b0, b1, b2, b3]);
}

/// The big-endian encoding of a 32-bit value is injective.
proof fn lemma_be_bytes_injective(x: u32, y: u32)
    requires
        crate::msg::be_bytes_of(x) == crate::msg::be_bytes_of(y),
    ensures
        x == y,
{
    crate::msg::lemma_be_roundtrip(x);
    crate::msg::lemma_be_roundtrip(y);
}

/// The two-byte big-endian encoding of a 16-bit value is injective.
proof fn lemma_be2_bytes_injective(x: u16, y: u16)
    requires
        be2_bytes_of(x) == be2_bytes_of(y),
    ensures
        x == y,
{
    assert(be2_bytes_of(x)[0] == be2_bytes_of(y)[0]);
    assert(be2_bytes_of(x)[1] == be2_bytes_of(y)[1]);
    assert((x / 0x100) as u8 == (y / 0x100) as u8 && (x % 0x100) as u8 == (y % 0x100) as u8
        ==> x == y) by (bit_vector);
}

/// The address codec is canonical: two addresses with the same
/// serialized bytes are the same address.
pub proof fn lemma_addr_codec_canonical(a: NodeAddr, b: NodeAddr)
    requires
        addr_bytes_of(a) == addr_bytes_of(b),
    ensures
        a.node_id == b.node_id,
        a.parts@ == b.parts@,
{
    lemma_parts_bytes_len(a.parts@);
    lemma_parts_bytes_len(b.parts@);
    assert(crate::msg::be_bytes_of(a.node_id) =~= addr_bytes_of(a).subrange(0, 4));
    assert(crate::msg::be_bytes_of(b.node_id) =~= addr_bytes_of(b).subrange(0, 4));
    lemma_be_bytes_injective(a.node_id, b.node_id);
    assert(parts_bytes_of(a.parts@) =~= addr_bytes_of(a).subrange(4, addr_bytes_of(a).len() as int));
    assert(parts_bytes_of(b.parts@) =~= addr_bytes_of(b).subrange(4, addr_bytes_of(b).len() as int));
    lemma_parts_bytes_injective(a.parts@, b.parts@);
}

/// The endpoint list codec is canonical.
proof fn lemma_parts_bytes_injective(x: Seq<Protocol>, y: Seq<Protocol>)
    requires
        parts_bytes_of(x) == parts_bytes_of(y),
    ensures
        x == y,
    decreases x.len(),
{
    lemma_parts_bytes_len(x);
    lemma_parts_bytes_len(y);
    assert(x.len() == y.len());
    if x.len() > 0 {
        lemma_parts_bytes_len(x.drop_last());
        lemma_parts_bytes_len(y.drop_last());
        let n = parts_bytes_of(x).len() as int;
        assert(part_bytes_of(x.last()) =~= parts_bytes_of(x).subrange(n - 7, n));
        assert(part_bytes_of(y.last()) =~= parts_bytes_of(y).subrange(n - 7, n));
        lemma_part_bytes_injective(x.last(), y.last());
        assert(parts_bytes_of(x.drop_last()) =~= parts_bytes_of(x).subrange(0, n - 7));
        assert(parts_bytes_of(y.drop_last()) =~= parts_bytes_of(y).subrange(0, n - 7));
        lemma_parts_bytes_injective(x.drop_last(), y.drop_last());
        assert(x =~= x.drop_last().push(x.last()));
        assert(y =~= y.drop_last().push(y.last()));
    } else {
        assert(x =~= y);
    }
}

/// A tagged endpoint encoding determines its tag, address and port.
proof fn lemma_fields_injective(t1: u8, ip1: u32, po1: u16, t2: u8, ip2: u32, po2: u16)
    requires
        seq![t1] + crate::msg::be_bytes_of(ip1) + be2_bytes_of(po1) == seq![t2]
            + crate::msg::be_bytes_of(ip2) + be2_bytes_of(po2),
    ensures
        t1 == t2,
        ip1 == ip2,
        po1 == po2,
{
    let x = seq![t1] + crate::msg::be_bytes_of(ip1) + be2_bytes_of(po1);
    let y = seq![t2] + crate::msg::be_bytes_of(ip2) + be2_bytes_of(po2);
    assert(x[0] == t1 && y[0] == t2);
    assert(crate::msg::be_bytes_of(ip1) =~= x.subrange(1, 5));
    assert(crate::msg::be_bytes_of(ip2) =~= y.subrange(1, 5));
    lemma_be_bytes_injective(ip1, ip2);
    assert(be2_bytes_of(po1) =~= x.subrange(5, 7));
    assert(be2_bytes_of(po2) =~= y.subrange(5, 7));
    lemma_be2_bytes_injective(po1, po2);
}

/// The endpoint codec is canonical.
proof fn lemma_part_bytes_injective(p: Protocol, q: Protocol)
    requires
        part_bytes_of(p) == part_bytes_of(q),
    ensures
        p == q,
{
    match (p, q) {
        (Protocol::Udp(ip1, po1), Protocol::Udp(ip2, po2)) => {
            lemma_fields_injective(
                UDP_PROTOCOL_TAG,
                ip1,
                po1,
                UDP_PROTOCOL_TAG,
                ip2,
                po2,
            );
        },
        (Protocol::Tcp(ip1, po1), Protocol::Tcp(ip2, po2)) => {
            lemma_fields_injective(
                TCP_PROTOCOL_TAG,
                ip1,
                po1,
                TCP_PROTOCOL_TAG,
                ip2,
                po2,
            );
        },
        (Protocol::Udp(ip1, po1), Protocol::Tcp(ip2, po2)) => {
            lemma_fields_injective(
                UDP_PROTOCOL_TAG,
                ip1,
                po1,
                TCP_PROTOCOL_TAG,
                ip2,
                po2,
            );
        },
        (Protocol::Tcp(ip1, po1), Protocol::Udp(ip2, po2)) => {
            lemma_fields_injective(
                TCP_PROTOCOL_TAG,
                ip1,
                po1,
                UDP_PROTOCOL_TAG,
                ip2,
                po2,
            );
        },
    }
}

/// The byte strings the address decoder accepts: at least the
/// four-byte node identifier, then endpoints in whole seven-byte
/// chunks, each chunk opened by a known protocol tag.
pub open spec fn addr_bytes_wf(b: Seq<u8>) -> bool {
    &&& b.len() >= 4
    &&& (b.len() - 4) % 7 == 0
    &&& forall|k: int|
        0 <= k < (b.len() - 4) / 7 ==> (#[trigger] b[4 + 7 * k]) == UDP_PROTOCOL_TAG || b[4 + 7
            * k] == TCP_PROTOCOL_TAG
}

/// Every chunk of a serialized endpoint list opens with a known tag.
proof fn lemma_parts_tags(ps: Seq<Protocol>)
    ensures
        forall|k: int|
            0 <= k < ps.len() ==> (#[trigger] parts_bytes_of(ps)[7 * k]) == UDP_PROTOCOL_TAG
                || parts_bytes_of(ps)[7 * k] == TCP_PROTOCOL_TAG,
    decreases ps.len(),
{
    lemma_parts_bytes_len(ps);
    if ps.len() > 0 {
        lemma_parts_tags(ps.drop_last());
        lemma_parts_bytes_len(ps.drop_last());
        assert forall|k: int|
            0 <= k < ps.len() implies (#[trigger] parts_bytes_of(ps)[7 * k]) == UDP_PROTOCOL_TAG
            || parts_bytes_of(ps)[7 * k] == TCP_PROTOCOL_TAG by {
            if k < ps.len() - 1 {
                assert(parts_bytes_of(ps)[7 * k] == parts_bytes_of(ps.drop_last())[7 * k]);
            } else {
                assert(parts_bytes_of(ps)[7 * k] == part_bytes_of(ps.last())[0]);
                match ps.last() {
                    Protocol::Udp(ip, port) => {},
                    Protocol::Tcp(ip, port) => {},
                }
            }
        }
    }
}

/// Every serialized address is a byte string the decoder accepts.
pub proof fn lemma_addr_bytes_wf(a: NodeAddr)
    ensures
        addr_bytes_wf(addr_bytes_of(a)),
{
    let b = addr_bytes_of(a);
    lemma_parts_bytes_len(a.parts@);
    lemma_parts_tags(a.parts@);
    assert(b.len() - 4 == 7 * a.parts@.len());
    assert((7 * a.parts@.len()) % 7 == 0 && (7 * a.parts@.len()) / 7 == a.parts@.len())
        by (nonlinear_arith);
    assert forall|k: int|
        0 <= k < (b.len() - 4) / 7 implies (#[trigger] b[4 + 7 * k]) == UDP_PROTOCOL_TAG || b[4 + 7
        * k] == TCP_PROTOCOL_TAG by {
        assert(0 <= 7 * k < 7 * a.parts@.len()) by (nonlinear_arith)
            requires
                0 <= k < a.parts@.len(),
        ;
        assert(b[4 + 7 * k] == parts_bytes_of(a.parts@)[7 * k]);
    }
}

/// One decoded endpoint re-serializes to exactly the seven bytes it
/// was read from.
proof fn lemma_part_reencode(b: Seq<u8>, at: int, ip: u32, port: u16, part: Protocol)
    requires
        0 <= at,
        at + 7 <= b.len(),
        ip == crate::msg::be_value_of(b.subrange(at + 1, at + 5)),
        port == b[at + 5] * 0x100 + b[at + 6],
        (part == Protocol::Udp(ip, port) && b[at] == UDP_PROTOCOL_TAG) || (part == Protocol::Tcp(
            ip,
            port,
        ) && b[at] == TCP_PROTOCOL_TAG),
    ensures
        part_bytes_of(part) == b.subrange(at, at + 7),
{
    lemma_be_bytes_canonical(b[at + 1], b[at + 2], b[at + 3], b[at + 4]);
    assert(b.subrange(at + 1, at + 5) =~= seq![b[at + 1], b[at + 2], b[at + 3], b[at + 4]]);
    let hi = b[at + 5];
    let lo = b[at + 6];
    assert(port / 0x100 == hi && port % 0x100 == lo) by (nonlinear_arith)
        requires
            port == hi * 0x100 + lo,
            hi < 0x100,
            lo < 0x100,
    ;
    assert(be2_bytes_of(port) =~= seq![b[at + 5], b[at + 6]]);
    assert(part_bytes_of(part) =~= b.subrange(at, at + 7));
}

/// One decoding step extends the re-serialized prefix by one
/// endpoint.
proof fn lemma_decode_step(
    b: Seq<u8>,
    at: int,
    node_id: u32,
    pre: Seq<Protocol>,
    cur: Seq<Protocol>,
    part: Protocol,
)
    requires
        4 <= at,
        at + 7 <= b.len(),
        crate::msg::be_bytes_of(node_id) + parts_bytes_of(pre) == b.subrange(0, at),
        cur == pre.push(part),
        part_bytes_of(part) == b.subrange(at, at + 7),
    ensures
        crate::msg::be_bytes_of(node_id) + parts_bytes_of(cur) == b.subrange(0, at + 7),
{
    assert(cur.drop_last() =~= pre);
    assert(cur.last() == part);
    assert(parts_bytes_of(cur) == parts_bytes_of(pre) + part_bytes_of(part));
    assert(b.subrange(0, at + 7) =~= b.subrange(0, at) + b.subrange(at, at + 7));
    assert(crate::msg::be_bytes_of(node_id) + parts_bytes_of(cur) =~= b.subrange(0, at + 7));
}

/// A byte string that stops inside an endpoint chunk is not
/// well formed.
proof fn lemma_no_partial_chunk(b: Seq<u8>, chunks: int)
    requires
        chunks >= 0,
        4 + 7 * chunks < b.len(),
        b.len() - (4 + 7 * chunks) < 7,
    ensures
        !addr_bytes_wf(b),
{
    if addr_bytes_wf(b) {
        let total = (b.len() - 4) / 7;
        assert(b.len() - 4 == 7 * total) by (nonlinear_arith)
            requires
                (b.len() - 4) % 7 == 0,
                total == (b.len() - 4) / 7,
                b.len() >= 4,
        ;
        assert(false) by (nonlinear_arith)
            requires
                b.len() - 4 == 7 * total,
                0 < b.len() - (4 + 7 * chunks) < 7,
                chunks >= 0,
        ;
    }
}

/// A byte string whose next chunk opens with an unknown tag is not
/// well formed.
proof fn lemma_bad_tag(b: Seq<u8>, chunks: int)
    requires
        chunks >= 0,
        4 + 7 * chunks < b.len(),
        4 + 7 * chunks + 7 <= b.len(),
        b[4 + 7 * chunks] != UDP_PROTOCOL_TAG,
        b[4 + 7 * chunks] != TCP_PROTOCOL_TAG,
    ensures
        !addr_bytes_wf(b),
{
    if addr_bytes_wf(b) {
        let total = (b.len() - 4) / 7;
        assert(b.len() - 4 == 7 * total) by (nonlinear_arith)
            requires
                (b.len() - 4) % 7 == 0,
                total == (b.len() - 4) / 7,
                b.len() >= 4,
        ;
        assert(chunks < total) by (nonlinear_arith)
            requires
                b.len() - 4 == 7 * total,
                4 + 7 * chunks + 7 <= b.len(),
        ;
        assert(b[4 + 7 * chunks] == UDP_PROTOCOL_TAG || b[4 + 7 * chunks] == TCP_PROTOCOL_TAG);
        assert(false);
    }
}

impl NodeAddr {
    /// An address with no transport endpoints.
    pub fn empty(node_id: u32) -> (r: Self)
        ensures
            r.node_id == node_id,
            r.parts@ == Seq::<Protocol>::empty(),
    {
        NodeAddr { node_id, parts: Vec::new() }
    }

    /// The node this address belongs to.
    pub fn node_id(&self) -> (r: u32)
        ensures
            r == self.node_id,
    {
        self.node_id
    }

    /// Serialize the address into its canonical bytes.
    pub fn to_vec(&self) -> (r: Vec<u8>)
        ensures
            r@ == addr_bytes_of(*self),
    {
        let mut out: Vec<u8> = Vec::new();
        crate::msg::push_be_u32(&mut out, self.node_id);
        let mut i: usize = 0;
        while i < self.parts.len()
            invariant
                i <= self.parts@.len(),
                out@ == crate::msg::be_bytes_of(self.node_id) + parts_bytes_of(
                    self.parts@.take(i as int),
                ),
            decreases self.parts@.len() - i,
        {
            proof {
                assert(self.parts@.take(i + 1).drop_last() =~= self.parts@.take(i as int));
                assert(self.parts@.take(i + 1).last() == self.parts@[i as int]);
            }
            match self.parts[i] {
                Protocol::Udp(ip, port) => {
                    out.push(UDP_PROTOCOL_TAG);
                    crate::msg::push_be_u32(&mut out, ip);
                    out.push((port / 0x100) as u8);
                    out.push((port % 0x100) as u8);
                },
                Protocol::Tcp(ip, port) => {
                    out.push(TCP_PROTOCOL_TAG);
                    crate::msg::push_be_u32(&mut out, ip);
                    out.push((port / 0x100) as u8);
                    out.push((port % 0x100) as u8);
                },
            }
            proof {
                assert(out@ =~= crate::msg::be_bytes_of(self.node_id) + parts_bytes_of(
                    self.parts@.take(i + 1),
                ));
            }
            i += 1;
        }
        proof {
            assert(self.parts@.take(self.parts@.len() as int) =~= self.parts@);
        }
        out
    }

    /// Decode an address.  Total over any byte vector, and exact
    /// both ways: decoding succeeds on precisely the well-formed byte
    /// strings (`addr_bytes_wf` — every serialized address is one, by
    /// `lemma_addr_bytes_wf`), truncated bytes or an unknown endpoint
    /// tag are rejected with the matching error, and an accepted
    /// address re-serializes to exactly the bytes it was decoded from
    /// — with `lemma_addr_codec_canonical`, decoding a serialized
    /// address gives that address back.
    #[verifier::rlimit(100)]
    pub fn from_vec(b: Vec<u8>) -> (r: Result<NodeAddr, AddrDecodeError>)
        ensures
            r matches Ok(got) ==> addr_bytes_of(got) == b@,
            (r is Ok) == addr_bytes_wf(b@),
            b@.len() < 4 ==> r is Err,
    {
        if b.len() < 4 {
            return Err(AddrDecodeError::TooShort);
        }
        let node_id = crate::msg::read_be_u32(&b, 0);
        proof {
            lemma_be_bytes_canonical(b@[0], b@[1], b@[2], b@[3]);
            assert(b@.subrange(0, 4) =~= seq![b@[0], b@[1], b@[2], b@[3]]);
        }
        let mut parts: Vec<Protocol> = Vec::new();
        let mut at: usize = 4;
        let ghost mut chunks: int = 0;
        while at < b.len()
            invariant
                4 <= at <= b@.len(),
                b@.len() <= usize::MAX,
                crate::msg::be_bytes_of(node_id) + parts_bytes_of(parts@) == b@.subrange(
                    0,
                    at as int,
                ),
                chunks >= 0,
                at == 4 + 7 * chunks,
                forall|k: int|
                    0 <= k < chunks ==> (#[trigger] b@[4 + 7 * k]) == UDP_PROTOCOL_TAG || b@[4 + 7
                        * k] == TCP_PROTOCOL_TAG,
            decreases b@.len() - at,
        {
            if b.len() - at < 7 {
                proof {
                    lemma_no_partial_chunk(b@, chunks);
                }
                return Err(AddrDecodeError::TooShort);
            }
            let tag = b[at];
            let ip = crate::msg::read_be_u32(&b, at + 1);
            let hi = b[at + 5];
            let lo = b[at + 6];
            let port: u16 = (hi as u16) * 0x100 + (lo as u16);
            let part: Protocol = if tag == UDP_PROTOCOL_TAG {
                Protocol::Udp(ip, port)
            } else if tag == TCP_PROTOCOL_TAG {
                Protocol::Tcp(ip, port)
            } else {
                proof {
                    lemma_bad_tag(b@, chunks);
                }
                return Err(AddrDecodeError::UnknownProtocol);
            };
            let ghost pre = parts@;
            parts.push(part);
            proof {
                lemma_part_reencode(b@, at as int, ip, port, part);
                lemma_decode_step(b@, at as int, node_id, pre, parts@, part);
                chunks = chunks + 1;
            }
            at += 7;
        }
        proof {
            assert(b@.subrange(0, b@.len() as int) =~= b@);
            assert((b@.len() - 4) % 7 == 0 && (b@.len() - 4) / 7 == chunks) by (nonlinear_arith)
                requires
                    b@.len() == 4 + 7 * chunks,
                    chunks >= 0,
            ;
            assert(addr_bytes_wf(b@));
        }
        Ok(NodeAddr { node_id, parts })
    }
}

/// Which side opened a connection.
#[derive(Debug, Clone, Copy, PartialEq, Eq, Structural)]
pub enum ConnDirection {
    Incoming,
    Outgoing,
}

/// Identifier of one live connection: the direction it was opened in
/// and a locally minted identifier.
#[derive(Debug, Clone, Copy, PartialEq, Eq, Structural)]
pub struct ConnId {
    pub direction: ConnDirection,
    pub uuid: u64,
}

impl ConnId {
    /// The identifier of a connection a peer opened to this node.
    pub fn from_incoming(uuid: u64) -> (r: Self)
        ensures
            r == (ConnId { direction: ConnDirection::Incoming, uuid }),
    {
        ConnId { direction: ConnDirection::Incoming, uuid }
    }

    /// The identifier of a connection this node opened.
    pub fn from_outgoing(uuid: u64) -> (r: Self)
        ensures
            r == (ConnId { direction: ConnDirection::Outgoing, uuid }),
    {
        ConnId { direction: ConnDirection::Outgoing, uuid }
    }

    /// Which side opened the connection.
    pub fn direction(&self) -> (r: ConnDirection)
        ensures
            r == self.direction,
    {
        self.direction
    }

    /// The locally minted identifier.
    pub fn uuid(&self) -> (r: u64)
        ensures
            r == self.uuid,
    {
        self.uuid
    }
}

} // verus!
