//! The PROXY protocol preamble, version 2, that tells a backend the
//! address of the client behind the proxy.

use crate::error::ProxyError;
use proxy_protocol::version2::{ProxyAddresses, ProxyCommand, ProxyTransportProtocol};
use proxy_protocol::ProxyHeader;
use vstd::prelude::*;

verus! {

/// The address of one end of a TCP connection.
#[allow(inconsistent_fields)]
#[derive(Clone, Copy, Debug, PartialEq, Eq)]
pub enum SocketAddr {
    /// An IPv4 address, in network order, and a port.
    V4 { ip: [u8; 4], port: u16 },
    /// An IPv6 address, in network order, a port, flow information and scope.
    V6 { ip: [u8; 16], port: u16, flowinfo: u32, scope_id: u32 },
}

/// The twelve bytes that open a version 2 preamble.
pub open spec fn signature() -> Seq<u8> {
    seq![0x0Du8, 0x0A, 0x0D, 0x0A, 0x00, 0x0D, 0x0A, 0x51, 0x55, 0x49, 0x54, 0x0A]
}

/// A 16-bit number, high byte first.
pub open spec fn be16(value: u16) -> Seq<u8> {
    seq![(value / 256) as u8, (value % 256) as u8]
}

/// The preamble for a proxied TCP connection: the signature, version 2
/// with the command PROXY, the address family with the transport STREAM,
/// the length of what follows, both addresses, both ports.
pub open spec fn preamble(
    family: u8,
    source: Seq<u8>,
    source_port: u16,
    destination: Seq<u8>,
    destination_port: u16,
) -> Seq<u8> {
    signature() + seq![0x21u8, family] + be16((source.len() + destination.len() + 4) as u16)
        + source + destination + be16(source_port) + be16(destination_port)
}

/// The preamble for a client at `client` and a backend at `backend`; there
/// is none where the two are of different address families.
pub open spec fn proxy_header(client: SocketAddr, backend: SocketAddr) -> Option<Seq<u8>> {
    match (client, backend) {
        (
            SocketAddr::V4 { ip: source, port: source_port },
            SocketAddr::V4 { ip: destination, port: destination_port },
        ) => Some(preamble(0x11, source@, source_port, destination@, destination_port)),
        (
            SocketAddr::V6 { ip: source, port: source_port, .. },
            SocketAddr::V6 { ip: destination, port: destination_port, .. },
        ) => Some(preamble(0x21, source@, source_port, destination@, destination_port)),
        _ => None,
    }
}

/// Two ends have a preamble exactly when they are of one address family;
/// an IPv4 client in front of an IPv6 backend has none.
pub proof fn lemma_mixed_families(client: SocketAddr, backend: SocketAddr)
    ensures
        proxy_header(client, backend) is Some <==> (client is V4 <==> backend is V4),
        client is V4 && backend is V6 ==> proxy_header(client, backend) is None,
{
}

/// The preamble between two IPv4 ends has 28 bytes: the signature, `0x21`,
/// `0x11`, the length 12 in two bytes, the address of the client, the
/// address of the backend, the port of the client and the port of the
/// backend, each number with its high byte first.
pub proof fn lemma_header_v4_layout(
    source: [u8; 4],
    source_port: u16,
    destination: [u8; 4],
    destination_port: u16,
)
    ensures
        proxy_header(
            SocketAddr::V4 { ip: source, port: source_port },
            SocketAddr::V4 { ip: destination, port: destination_port },
        ) matches Some(header) && {
            &&& header.len() == 28
            &&& header.subrange(0, 12) == signature()
            &&& header[12] == 0x21
            &&& header[13] == 0x11
            &&& header[14] == 0x00
            &&& header[15] == 0x0C
            &&& header.subrange(16, 20) == source@
            &&& header.subrange(20, 24) == destination@
            &&& header[24] == source_port / 256
            &&& header[25] == source_port % 256
            &&& header[26] == destination_port / 256
            &&& header[27] == destination_port % 256
        },
{
    let header = preamble(0x11, source@, source_port, destination@, destination_port);
    assert(header.subrange(0, 12) =~= signature());
    assert(header.subrange(16, 20) =~= source@);
    assert(header.subrange(20, 24) =~= destination@);
}

/// The preamble between two IPv6 ends has 52 bytes, laid out as between
/// IPv4 ends, with `0x21` for the family, the length 36 and addresses of
/// sixteen bytes. Flow information and scope have no part in it.
pub proof fn lemma_header_v6_layout(client: SocketAddr, backend: SocketAddr)
    requires
        client is V6,
        backend is V6,
    ensures
        proxy_header(client, backend) matches Some(header) && {
            &&& header.len() == 52
            &&& header.subrange(0, 12) == signature()
            &&& header[12] == 0x21
            &&& header[13] == 0x21
            &&& header[14] == 0x00
            &&& header[15] == 0x24
            &&& header.subrange(16, 32) == client->V6_ip@
            &&& header.subrange(32, 48) == backend->V6_ip@
            &&& header[48] == client->V6_port / 256
            &&& header[49] == client->V6_port % 256
            &&& header[50] == backend->V6_port / 256
            &&& header[51] == backend->V6_port % 256
        },
{
    let header = proxy_header(client, backend).unwrap();
    assert(header.subrange(0, 12) =~= signature());
    assert(header.subrange(16, 32) =~= client->V6_ip@);
    assert(header.subrange(32, 48) =~= backend->V6_ip@);
}

/// `proxy_protocol::encode` for a version 2 header with the command PROXY
/// and the transport STREAM over IPv4: it always succeeds and writes the
/// signature, `0x21`, `0x11`, the length 12, the two addresses and the two
/// ports, numbers high byte first.
#[verifier::external_body]
fn encode_stream_v4(
    source: [u8; 4],
    source_port: u16,
    destination: [u8; 4],
    destination_port: u16,
) -> (header: Option<Vec<u8>>)
    ensures
        header is Some,
        header.unwrap()@ == preamble(0x11, source@, source_port, destination@, destination_port),
{
    let source = core::net::SocketAddrV4::new(source.into(), source_port);
    let destination = core::net::SocketAddrV4::new(destination.into(), destination_port);
    let header = ProxyHeader::Version2 {
        command: ProxyCommand::Proxy,
        transport_protocol: ProxyTransportProtocol::Stream,
        addresses: ProxyAddresses::Ipv4 { source, destination },
    };
    proxy_protocol::encode(header).ok().map(|bytes| bytes.to_vec())
}

/// `proxy_protocol::encode` for a version 2 header with the command PROXY
/// and the transport STREAM over IPv6: it always succeeds and writes the
/// signature, `0x21`, `0x21`, the length 36, the two addresses and the two
/// ports, numbers high byte first. Flow information and scope are not
/// written.
#[verifier::external_body]
fn encode_stream_v6(
    source: [u8; 16],
    source_port: u16,
    source_flow: u32,
    source_scope: u32,
    destination: [u8; 16],
    destination_port: u16,
    destination_flow: u32,
    destination_scope: u32,
) -> (header: Option<Vec<u8>>)
    ensures
        header is Some,
        header.unwrap()@ == preamble(0x21, source@, source_port, destination@, destination_port),
{
    let source = core::net::SocketAddrV6::new(source.into(), source_port, source_flow, source_scope);
    let destination = core::net::SocketAddrV6::new(
        destination.into(),
        destination_port,
        destination_flow,
        destination_scope,
    );
    let header = ProxyHeader::Version2 {
        command: ProxyCommand::Proxy,
        transport_protocol: ProxyTransportProtocol::Stream,
        addresses: ProxyAddresses::Ipv6 { source, destination },
    };
    proxy_protocol::encode(header).ok().map(|bytes| bytes.to_vec())
}

/// The two ends that a preamble names: the client of the proxy and the
/// backend that the proxy connected to.
#[derive(Clone, Copy, Debug)]
pub struct ProxyProtocol {
    client_addr: SocketAddr,
    dest_addr: SocketAddr,
}

impl ProxyProtocol {
    /// The end that the client is at.
    pub closed spec fn client(&self) -> SocketAddr {
        self.client_addr
    }

    /// The end that the backend is at.
    pub closed spec fn destination(&self) -> SocketAddr {
        self.dest_addr
    }

    /// The two ends of a proxied connection.
    pub fn new(client_addr: SocketAddr, dest_addr: SocketAddr) -> (proxy: Self)
        ensures
            proxy.client() == client_addr,
            proxy.destination() == dest_addr,
    {
        Self { client_addr, dest_addr }
    }

    /// The preamble to send to the backend before anything else. Two ends
    /// of different address families have none.
    pub fn generate_header(&self) -> (res: Result<Vec<u8>, ProxyError>)
        ensures
            match res {
                Ok(header) => proxy_header(self.client(), self.destination()) == Some(header@)
                    && header.len() == if self.client() is V4 {
                    28int
                } else {
                    52int
                },
                Err(e) => e == ProxyError::MixedFamilies && proxy_header(
                    self.client(),
                    self.destination(),
                ) is None,
            },
    {
        match (&self.client_addr, &self.dest_addr) {
            (
                SocketAddr::V4 { ip: source, port: source_port },
                SocketAddr::V4 { ip: destination, port: destination_port },
            ) => {
                let header = encode_stream_v4(*source, *source_port, *destination, *destination_port);
                Ok(header.unwrap())
            },
            (
                SocketAddr::V6 { ip: source, port: source_port, flowinfo: source_flow, scope_id: source_scope },
                SocketAddr::V6 {
                    ip: destination,
                    port: destination_port,
                    flowinfo: destination_flow,
                    scope_id: destination_scope,
                },
            ) => {
                let header = encode_stream_v6(
                    *source,
                    *source_port,
                    *source_flow,
                    *source_scope,
                    *destination,
                    *destination_port,
                    *destination_flow,
                    *destination_scope,
                );
                Ok(header.unwrap())
            },
            _ => Err(ProxyError::MixedFamilies),
        }
    }
}

} // verus!
