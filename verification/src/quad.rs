//! The flow key: the two endpoints of a connection.

use crate::wire::SegmentHeader;
use vstd::prelude::*;

verus! {

/// The four-tuple that names a connection: address and port of the peer
/// (`src`) and of the local end (`dst`), as they stand in the segments
/// that the peer sends.
#[derive(Clone, Copy, Debug, PartialEq, Eq, Hash)]
pub struct Quad {
    pub src: ([u8; 4], u16),
    pub dst: ([u8; 4], u16),
}

/// An endpoint as one number: the address in the upper 32 bits, the port
/// in the lower 16.
pub open spec fn endpoint_number(addr: [u8; 4], port: u16) -> int {
    (((addr[0] * 256 + addr[1]) * 256 + addr[2]) * 256 + addr[3]) * 0x1_0000 + port
}

impl Quad {
    /// The quad as one number of 96 bits, `src` above `dst`. The table of
    /// connections is keyed by it.
    pub open spec fn spec_key(self) -> u128 {
        (endpoint_number(self.src.0, self.src.1) * 0x1_0000_0000_0000 + endpoint_number(
            self.dst.0,
            self.dst.1,
        )) as u128
    }

    /// The quad of the connection that an inbound segment belongs to.
    pub open spec fn spec_of_segment(seg: SegmentHeader) -> Quad {
        Quad { src: (seg.source, seg.source_port), dst: (seg.destination, seg.destination_port) }
    }

    /// The quad of the connection that an inbound segment belongs to.
    pub fn of_segment(seg: &SegmentHeader) -> (q: Quad)
        ensures
            q == Quad::spec_of_segment(*seg),
    {
        Quad { src: (seg.source, seg.source_port), dst: (seg.destination, seg.destination_port) }
    }

    /// The key of the quad in the table of connections.
    #[verifier::when_used_as_spec(spec_key)]
    pub fn key(self) -> (k: u128)
        ensures
            k == self.spec_key(),
    {
        let src: u128 = endpoint(&self.src.0, self.src.1);
        let dst: u128 = endpoint(&self.dst.0, self.dst.1);
        src * 0x1_0000_0000_0000 + dst
    }
}

fn endpoint(addr: &[u8; 4], port: u16) -> (n: u128)
    ensures
        n == endpoint_number(*addr, port),
        n < 0x1_0000_0000_0000,
{
    let a: u128 = ((addr[0] as u128 * 256 + addr[1] as u128) * 256 + addr[2] as u128) * 256
        + addr[3] as u128;
    a * 0x1_0000 + port as u128
}

/// An endpoint number is below 2^48 and names one endpoint.
pub(crate) proof fn lemma_endpoint_number(a: [u8; 4], p: u16, b: [u8; 4], q: u16)
    ensures
        0 <= endpoint_number(a, p) < 0x1_0000_0000_0000,
        endpoint_number(a, p) == endpoint_number(b, q) ==> a == b && p == q,
{
    if endpoint_number(a, p) == endpoint_number(b, q) {
        assert(a =~= b);
    }
}

/// Two quads with one key are one quad.
pub proof fn law_key_injective(a: Quad, b: Quad)
    ensures
        a.spec_key() == b.spec_key() ==> a == b,
        a.spec_key() < 0x1_0000_0000_0000_0000_0000_0000,
{
    lemma_endpoint_number(a.src.0, a.src.1, b.src.0, b.src.1);
    lemma_endpoint_number(a.dst.0, a.dst.1, b.dst.0, b.dst.1);
}

} // verus!
