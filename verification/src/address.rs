//! Socket addresses as plain values, and their bytes.

use crate::wire::Wire;
use vstd::prelude::*;

verus! {

/// The address of a remote endpoint, held as plain values: the octets of the
/// IP address in network order, the port, and for IPv6 the flow information
/// and scope identifier.
#[derive(Clone, Copy, Debug, PartialEq, Eq)]
#[allow(inconsistent_fields)]
pub enum SocketAddress {
    V4 { octets: [u8; 4], port: u16 },
    V6 { octets: [u8; 16], port: u16, flowinfo: u32, scope_id: u32 },
}

impl SocketAddress {
    /// The octets of the IP address: four for IPv4, sixteen for IPv6.
    pub open spec fn octets(self) -> Seq<u8> {
        match self {
            SocketAddress::V4 { octets, .. } => octets@,
            SocketAddress::V6 { octets, .. } => octets@,
        }
    }

    /// The port.
    pub open spec fn port(self) -> u16 {
        match self {
            SocketAddress::V4 { port, .. } => port,
            SocketAddress::V6 { port, .. } => port,
        }
    }

    /// What the stored form keeps of an address: the IP address and the
    /// port. Flow information and scope identifier of an IPv6 address are
    /// not stored, and read back as zero.
    pub open spec fn stored(self) -> SocketAddress {
        match self {
            SocketAddress::V4 { .. } => self,
            SocketAddress::V6 { octets, port, .. } => SocketAddress::V6 {
                octets,
                port,
                flowinfo: 0,
                scope_id: 0,
            },
        }
    }

    /// True when the stored form keeps the whole address.
    pub open spec fn storable(self) -> bool {
        self.stored() == self
    }
}

impl DeepView for SocketAddress {
    type V = SocketAddress;

    open spec fn deep_view(&self) -> SocketAddress {
        *self
    }
}

/// The four bytes at the front as the octets of an IPv4 address.
pub open spec fn octets4(bytes: Seq<u8>) -> [u8; 4] {
    [bytes[0], bytes[1], bytes[2], bytes[3]]
}

/// The sixteen bytes at the front as the octets of an IPv6 address.
pub open spec fn octets16(bytes: Seq<u8>) -> [u8; 16] {
    [
        bytes[0],
        bytes[1],
        bytes[2],
        bytes[3],
        bytes[4],
        bytes[5],
        bytes[6],
        bytes[7],
        bytes[8],
        bytes[9],
        bytes[10],
        bytes[11],
        bytes[12],
        bytes[13],
        bytes[14],
        bytes[15],
    ]
}

fn push_octets(octets: &[u8], out: &mut Vec<u8>)
    ensures
        final(out)@ == old(out)@ + octets@,
{
    let mut i: usize = 0;
    while i < octets.len()
        invariant
            i <= octets@.len(),
            out@ == old(out)@ + octets@.take(i as int),
        decreases octets@.len() - i,
    {
        out.push(octets[i]);
        assert(octets@.take(i + 1) =~= octets@.take(i as int).push(octets@[i as int]));
        i = i + 1;
    }
    assert(octets@.take(i as int) =~= octets@);
}

fn read_octets4(bytes: &[u8], start: usize) -> (octets: [u8; 4])
    requires
        start + 4 <= bytes@.len(),
    ensures
        octets == octets4(bytes@.skip(start as int)),
{
    let total: usize = bytes.len();
    let mut octets: [u8; 4] = [0u8; 4];
    let mut i: usize = 0;
    while i < 4
        invariant
            i <= 4,
            start + 4 <= bytes@.len() == total,
            forall|j: int| 0 <= j < i ==> octets@[j] == bytes@[start + j],
        decreases 4 - i,
    {
        octets[i] = bytes[start + i];
        i = i + 1;
    }
    assert(octets@ =~= octets4(bytes@.skip(start as int))@);
    assert(octets =~= octets4(bytes@.skip(start as int)));
    octets
}

fn read_octets16(bytes: &[u8], start: usize) -> (octets: [u8; 16])
    requires
        start + 16 <= bytes@.len(),
    ensures
        octets == octets16(bytes@.skip(start as int)),
{
    let total: usize = bytes.len();
    let mut octets: [u8; 16] = [0u8; 16];
    let mut i: usize = 0;
    while i < 16
        invariant
            i <= 16,
            start + 16 <= bytes@.len() == total,
            forall|j: int| 0 <= j < i ==> octets@[j] == bytes@[start + j],
        decreases 16 - i,
    {
        octets[i] = bytes[start + i];
        i = i + 1;
    }
    assert(octets@ =~= octets16(bytes@.skip(start as int))@);
    assert(octets =~= octets16(bytes@.skip(start as int)));
    octets
}

/// An address is read back from its bytes as what the stored form keeps of
/// it, whatever follows the bytes.
pub proof fn lemma_address_reads_back_stored(address: SocketAddress, rest: Seq<u8>)
    ensures
        <SocketAddress as Wire>::parse(<SocketAddress as Wire>::wire(address) + rest) == Some(
            (address.stored(), rest),
        ),
{
    let tag: u32 = match address {
        SocketAddress::V4 { .. } => 0,
        SocketAddress::V6 { .. } => 1,
    };
    let octets = address.octets();
    let port = address.port();
    let tail = octets + (<u16 as Wire>::wire(port) + rest);
    <u32 as Wire>::lemma_reads_back(tag, tail);
    <u16 as Wire>::lemma_reads_back(port, rest);
    assert(<u32 as Wire>::wire(tag) + tail =~= <SocketAddress as Wire>::wire(address) + rest);
    assert(tail.skip(octets.len() as int) =~= <u16 as Wire>::wire(port) + rest);
    match address {
        SocketAddress::V4 { octets: held, .. } => {
            assert(octets4(tail)@ =~= held@);
            assert(octets4(tail) =~= held);
        },
        SocketAddress::V6 { octets: held, .. } => {
            assert(octets16(tail)@ =~= held@);
            assert(octets16(tail) =~= held);
        },
    }
}

impl Wire for SocketAddress {
    /// The kind of address as a `u32`, 0 for IPv4 and 1 for IPv6, then the
    /// octets and the port.
    open spec fn wire(value: SocketAddress) -> Seq<u8> {
        match value {
            SocketAddress::V4 { octets, port } => <u32 as Wire>::wire(0) + octets@
                + <u16 as Wire>::wire(port),
            SocketAddress::V6 { octets, port, .. } => <u32 as Wire>::wire(1) + octets@
                + <u16 as Wire>::wire(port),
        }
    }

    open spec fn parse(bytes: Seq<u8>) -> Option<(SocketAddress, Seq<u8>)> {
        match <u32 as Wire>::parse(bytes) {
            Some((kind, rest)) => if kind == 0 && rest.len() >= 4 {
                match <u16 as Wire>::parse(rest.skip(4)) {
                    Some((port, end)) => Some(
                        (SocketAddress::V4 { octets: octets4(rest), port }, end),
                    ),
                    None => None,
                }
            } else if kind == 1 && rest.len() >= 16 {
                match <u16 as Wire>::parse(rest.skip(16)) {
                    Some((port, end)) => Some(
                        (
                            SocketAddress::V6 {
                                octets: octets16(rest),
                                port,
                                flowinfo: 0,
                                scope_id: 0,
                            },
                            end,
                        ),
                    ),
                    None => None,
                }
            } else {
                None
            },
            None => None,
        }
    }

    open spec fn kept(value: SocketAddress) -> bool {
        value.storable()
    }

    open spec fn stable(value: SocketAddress) -> bool {
        value.storable()
    }

    proof fn lemma_reads_back(value: SocketAddress, rest: Seq<u8>) {
        lemma_address_reads_back_stored(value, rest);
    }

    fn encode(&self, out: &mut Vec<u8>) {
        match self {
            SocketAddress::V4 { octets, port } => {
                let kind: u32 = 0;
                kind.encode(out);
                push_octets(octets.as_slice(), out);
                port.encode(out);
            },
            SocketAddress::V6 { octets, port, .. } => {
                let kind: u32 = 1;
                kind.encode(out);
                push_octets(octets.as_slice(), out);
                port.encode(out);
            },
        }
    }

    fn decode(bytes: &[u8], start: usize) -> (read: Option<(Self, usize)>) {
        match u32::decode(bytes, start) {
            Some((kind, at)) => {
                if kind == 0 && bytes.len() - at >= 4 {
                    assert(bytes@.skip(at as int).skip(4) =~= bytes@.skip(at + 4));
                    let octets = read_octets4(bytes, at);
                    match u16::decode(bytes, at + 4) {
                        Some((port, end)) => Some((SocketAddress::V4 { octets, port }, end)),
                        None => None,
                    }
                } else if kind == 1 && bytes.len() - at >= 16 {
                    assert(bytes@.skip(at as int).skip(16) =~= bytes@.skip(at + 16));
                    let octets = read_octets16(bytes, at);
                    match u16::decode(bytes, at + 16) {
                        Some((port, end)) => Some(
                            (SocketAddress::V6 { octets, port, flowinfo: 0, scope_id: 0 }, end),
                        ),
                        None => None,
                    }
                } else {
                    None
                }
            },
            None => None,
        }
    }
}

} // verus!
