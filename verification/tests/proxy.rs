use madproxy::error::ProxyError;
use madproxy::proxy::{ProxyProtocol, SocketAddr};

fn v4(a: u8, b: u8, c: u8, d: u8, port: u16) -> SocketAddr {
    SocketAddr::V4 { ip: [a, b, c, d], port }
}

#[test]
fn header_for_ipv4_is_byte_exact() {
    let proxy = ProxyProtocol::new(v4(10, 1, 1, 1, 40000), v4(10, 2, 2, 2, 25565));
    let header = proxy.generate_header().unwrap();
    assert_eq!(
        header,
        vec![
            0x0D, 0x0A, 0x0D, 0x0A, 0x00, 0x0D, 0x0A, 0x51, 0x55, 0x49, 0x54, 0x0A, 0x21, 0x11,
            0x00, 0x0C, 0x0A, 0x01, 0x01, 0x01, 0x0A, 0x02, 0x02, 0x02, 0x9C, 0x40, 0x63, 0xDD,
        ]
    );
    assert_eq!(header.len(), 28);
}

#[test]
fn header_for_ipv4_edge_values() {
    let header = ProxyProtocol::new(v4(0, 0, 0, 0, 0), v4(255, 255, 255, 255, 65535))
        .generate_header()
        .unwrap();
    assert_eq!(&header[12..16], &[0x21, 0x11, 0x00, 0x0C]);
    assert_eq!(&header[16..], &[0, 0, 0, 0, 255, 255, 255, 255, 0, 0, 255, 255]);
    let header = ProxyProtocol::new(v4(192, 168, 0, 1, 256), v4(127, 0, 0, 1, 255))
        .generate_header()
        .unwrap();
    assert_eq!(&header[16..], &[192, 168, 0, 1, 127, 0, 0, 1, 1, 0, 0, 255]);
}

#[test]
fn header_for_ipv6() {
    let mut source = [0u8; 16];
    source[0] = 0x20;
    source[1] = 0x01;
    source[2] = 0x0d;
    source[3] = 0xb8;
    source[15] = 0x01;
    let mut destination = [0u8; 16];
    destination[15] = 0x01;
    let client = SocketAddr::V6 { ip: source, port: 40000, flowinfo: 7, scope_id: 3 };
    let backend = SocketAddr::V6 { ip: destination, port: 25565, flowinfo: 0, scope_id: 0 };
    let header = ProxyProtocol::new(client, backend).generate_header().unwrap();
    assert_eq!(header.len(), 52);
    assert_eq!(
        &header[..16],
        &[
            0x0D, 0x0A, 0x0D, 0x0A, 0x00, 0x0D, 0x0A, 0x51, 0x55, 0x49, 0x54, 0x0A, 0x21, 0x21,
            0x00, 0x24,
        ]
    );
    assert_eq!(&header[16..32], &source[..]);
    assert_eq!(&header[32..48], &destination[..]);
    assert_eq!(&header[48..], &[0x9C, 0x40, 0x63, 0xDD]);
    let plain = SocketAddr::V6 { ip: source, port: 40000, flowinfo: 0, scope_id: 0 };
    assert_eq!(ProxyProtocol::new(plain, backend).generate_header().unwrap(), header);
}

#[test]
fn mixed_families_have_no_header() {
    let four = v4(10, 1, 1, 1, 40000);
    let six = SocketAddr::V6 { ip: [0; 16], port: 25565, flowinfo: 0, scope_id: 0 };
    assert_eq!(ProxyProtocol::new(four, six).generate_header(), Err(ProxyError::MixedFamilies));
    assert_eq!(ProxyProtocol::new(six, four).generate_header(), Err(ProxyError::MixedFamilies));
}

#[test]
fn header_is_read_back_by_the_protocol_crate() {
    let header = ProxyProtocol::new(v4(10, 1, 1, 1, 40000), v4(10, 2, 2, 2, 25565))
        .generate_header()
        .unwrap();
    let mut buf: &[u8] = &header;
    let parsed = proxy_protocol::parse(&mut buf).unwrap();
    let again = proxy_protocol::encode(parsed).unwrap();
    assert_eq!(&again[..], &header[..]);
    assert!(buf.is_empty());
}

#[test]
fn error_messages() {
    assert_eq!(ProxyError::Malformed.message(), "malformed packet");
    assert_eq!(ProxyError::UnknownHost.message(), "unknown host");
    assert_eq!(ProxyError::BackendUnreachable.message(), "backend unreachable");
    assert_eq!(
        ProxyError::MixedFamilies.message(),
        "client and backend address families differ"
    );
    assert_eq!(ProxyError::Io.message(), "connection closed while relaying");
    assert_eq!(ProxyError::StartupFailure.message(), "startup failed");
    assert!(ProxyError::UnknownHost.is_recoverable());
    assert!(ProxyError::BackendUnreachable.is_recoverable());
    assert!(!ProxyError::Malformed.is_recoverable());
    assert!(!ProxyError::MixedFamilies.is_recoverable());
    assert!(!ProxyError::Io.is_recoverable());
    assert!(!ProxyError::StartupFailure.is_recoverable());
}
