use matrix_directory::address::{
    parse_ip_literal, parse_socket_literal, IpAddress, Ipv4Address, Ipv6Address, SocketAddress,
};

fn v4(o0: u8, o1: u8, o2: u8, o3: u8) -> IpAddress {
    IpAddress::V4(Ipv4Address { o0, o1, o2, o3 })
}

fn v6(g: [u16; 8]) -> IpAddress {
    IpAddress::V6(Ipv6Address {
        g0: g[0],
        g1: g[1],
        g2: g[2],
        g3: g[3],
        g4: g[4],
        g5: g[5],
        g6: g[6],
        g7: g[7],
    })
}

#[test]
fn ipv4_literals_parse() {
    assert_eq!(parse_ip_literal("0.0.0.0"), Some(v4(0, 0, 0, 0)));
    assert_eq!(parse_ip_literal("203.0.113.5"), Some(v4(203, 0, 113, 5)));
    assert_eq!(parse_ip_literal("255.255.255.255"), Some(v4(255, 255, 255, 255)));
}

#[test]
fn malformed_ipv4_literals_do_not_parse() {
    assert_eq!(parse_ip_literal(""), None);
    assert_eq!(parse_ip_literal("1.2.3"), None);
    assert_eq!(parse_ip_literal("1.2.3.4.5"), None);
    assert_eq!(parse_ip_literal("256.0.0.1"), None);
    assert_eq!(parse_ip_literal("01.2.3.4"), None);
    assert_eq!(parse_ip_literal("1.2.3.4 "), None);
    assert_eq!(parse_ip_literal("example.org"), None);
}

#[test]
fn ipv6_literals_parse() {
    assert_eq!(parse_ip_literal("::"), Some(v6([0, 0, 0, 0, 0, 0, 0, 0])));
    assert_eq!(parse_ip_literal("::1"), Some(v6([0, 0, 0, 0, 0, 0, 0, 1])));
    assert_eq!(parse_ip_literal("1::"), Some(v6([1, 0, 0, 0, 0, 0, 0, 0])));
    assert_eq!(
        parse_ip_literal("1:2:3:4:5:6:7:8"),
        Some(v6([1, 2, 3, 4, 5, 6, 7, 8]))
    );
    assert_eq!(
        parse_ip_literal("2001:db8::ff00:42:8329"),
        Some(v6([0x2001, 0xdb8, 0, 0, 0, 0xff00, 0x42, 0x8329]))
    );
    assert_eq!(
        parse_ip_literal("fe80::1"),
        Some(v6([0xfe80, 0, 0, 0, 0, 0, 0, 1]))
    );
    assert_eq!(
        parse_ip_literal("FE80::A"),
        Some(v6([0xfe80, 0, 0, 0, 0, 0, 0, 0xa]))
    );
    assert_eq!(
        parse_ip_literal("0:0:0:0:0:0:0:1"),
        Some(v6([0, 0, 0, 0, 0, 0, 0, 1]))
    );
}

#[test]
fn embedded_ipv4_tail_parses() {
    assert_eq!(
        parse_ip_literal("::ffff:192.0.2.128"),
        Some(v6([0, 0, 0, 0, 0, 0xffff, 0xc000, 0x0280]))
    );
    assert_eq!(
        parse_ip_literal("64:ff9b::203.0.113.5"),
        Some(v6([0x64, 0xff9b, 0, 0, 0, 0, 0xcb00, 0x7105]))
    );
}

#[test]
fn malformed_ipv6_literals_do_not_parse() {
    assert_eq!(parse_ip_literal(":"), None);
    assert_eq!(parse_ip_literal(":::"), None);
    assert_eq!(parse_ip_literal("1::2::3"), None);
    assert_eq!(parse_ip_literal("1:2:3:4:5:6:7"), None);
    assert_eq!(parse_ip_literal("1:2:3:4:5:6:7:8:9"), None);
    assert_eq!(parse_ip_literal("12345::"), None);
    assert_eq!(parse_ip_literal("1:2:3:4:5:6:7:8::"), None);
    assert_eq!(parse_ip_literal("::1:2:3:4:5:6:7:8"), None);
    assert_eq!(parse_ip_literal("g::1"), None);
    assert_eq!(parse_ip_literal("1.2.3.4::1"), None);
}

#[test]
fn socket_literals_parse() {
    assert_eq!(
        parse_socket_literal("203.0.113.5:8443"),
        Some(SocketAddress { ip: v4(203, 0, 113, 5), port: 8443 })
    );
    assert_eq!(
        parse_socket_literal("1.2.3.4:65535"),
        Some(SocketAddress { ip: v4(1, 2, 3, 4), port: 65535 })
    );
    assert_eq!(
        parse_socket_literal("[::1]:8080"),
        Some(SocketAddress { ip: v6([0, 0, 0, 0, 0, 0, 0, 1]), port: 8080 })
    );
    assert_eq!(
        parse_socket_literal("[2001:db8::1]:443"),
        Some(SocketAddress {
            ip: v6([0x2001, 0xdb8, 0, 0, 0, 0, 0, 1]),
            port: 443,
        })
    );
}

#[test]
fn malformed_socket_literals_do_not_parse() {
    assert_eq!(parse_socket_literal("203.0.113.5"), None);
    assert_eq!(parse_socket_literal("1.2.3.4:65536"), None);
    assert_eq!(parse_socket_literal("1.2.3.4:"), None);
    assert_eq!(parse_socket_literal("[::1]8080"), None);
    assert_eq!(parse_socket_literal("[::1]:"), None);
    assert_eq!(parse_socket_literal("::1:8080"), None);
    assert_eq!(parse_socket_literal("example.org:80"), None);
    assert_eq!(parse_socket_literal("1.2.3.4:80:81"), None);
}
