use matrix_directory::address::{IpAddress, Ipv4Address, SocketAddress};
use matrix_directory::errors::ServerError;
use matrix_directory::resolver::{
    classify, resolve_after_delegation, resolve_after_srv, resolve_after_target_lookup,
    resolve_start, split_host_port, srv_lookup_name, strip_trailing_dots_str, well_known_url,
    AddressForm, DelegationDocument, MatrixSSServername, ResolveStep, ServiceRecord,
    SrvTargetPolicy, DEFAULT_PORT,
};
use matrix_directory::session::check_logged_in;

#[test]
fn ip_literal_with_port_resolves_directly() {
    match resolve_start("203.0.113.5:8443") {
        ResolveStep::Resolved(MatrixSSServername::DirectAddress {
            socket_address,
            host_header_override,
        }) => {
            assert_eq!(
                socket_address,
                SocketAddress {
                    ip: IpAddress::V4(Ipv4Address { o0: 203, o1: 0, o2: 113, o3: 5 }),
                    port: 8443,
                }
            );
            assert_eq!(host_header_override, "203.0.113.5:8443");
        }
        _ => panic!("an ip:port literal must resolve to a direct address"),
    }
}

#[test]
fn bare_ip_literal_gets_default_port() {
    match resolve_start("203.0.113.5") {
        ResolveStep::Resolved(MatrixSSServername::DirectAddress {
            socket_address,
            host_header_override,
        }) => {
            assert_eq!(
                socket_address,
                SocketAddress {
                    ip: IpAddress::V4(Ipv4Address { o0: 203, o1: 0, o2: 113, o3: 5 }),
                    port: 8448,
                }
            );
            assert_eq!(host_header_override, "203.0.113.5");
        }
        _ => panic!("a bare ip literal must resolve to a direct address"),
    }
}

#[test]
fn explicit_host_port_resolves_without_discovery() {
    match resolve_start("example.org:9000") {
        ResolveStep::Resolved(MatrixSSServername::NamedEndpoint { host, port }) => {
            assert_eq!(host, "example.org");
            assert_eq!(port, 9000);
        }
        _ => panic!("hostname:port must resolve at once, asking for no discovery"),
    }
}

#[test]
fn bare_hostname_asks_for_delegation_first() {
    match resolve_start("example.org") {
        ResolveStep::NeedDelegation { hostname } => assert_eq!(hostname, "example.org"),
        _ => panic!("a bare hostname must go to well-known delegation"),
    }
}

#[test]
fn delegation_without_port_uses_default_port() {
    let doc = DelegationDocument {
        server: String::from("fed.example.org"),
    };
    match resolve_after_delegation("example.org", Some(&doc)) {
        ResolveStep::Resolved(MatrixSSServername::NamedEndpoint { host, port }) => {
            assert_eq!(host, "fed.example.org");
            assert_eq!(port, 8448);
        }
        _ => panic!("a delegated name must become a named endpoint"),
    }
}

#[test]
fn delegation_with_port_keeps_that_port() {
    let doc = DelegationDocument {
        server: String::from("fed.example.org:9443"),
    };
    match resolve_after_delegation("example.org", Some(&doc)) {
        ResolveStep::Resolved(MatrixSSServername::NamedEndpoint { host, port }) => {
            assert_eq!(host, "fed.example.org");
            assert_eq!(port, 9443);
        }
        _ => panic!("a delegated name with a port must become a named endpoint"),
    }
}

#[test]
fn missing_delegation_asks_for_srv() {
    match resolve_after_delegation("example.org", None) {
        ResolveStep::NeedSrv { hostname } => assert_eq!(hostname, "example.org"),
        _ => panic!("without a delegation document discovery must try srv"),
    }
}

#[test]
fn srv_record_gives_direct_address_with_original_name() {
    let rec = ServiceRecord {
        target: String::from("198.51.100.7"),
        port: 8449,
    };
    match resolve_after_srv("example.org", SrvTargetPolicy::IpLiteralOnly, Some(&rec)) {
        Ok(ResolveStep::Resolved(MatrixSSServername::DirectAddress {
            socket_address,
            host_header_override,
        })) => {
            assert_eq!(
                socket_address,
                SocketAddress {
                    ip: IpAddress::V4(Ipv4Address { o0: 198, o1: 51, o2: 100, o3: 7 }),
                    port: 8449,
                }
            );
            assert_eq!(host_header_override, "example.org");
        }
        _ => panic!("an srv record with an ip target must give a direct address"),
    }
}

#[test]
fn srv_target_trailing_dot_is_stripped() {
    let rec = ServiceRecord {
        target: String::from("198.51.100.7."),
        port: 8449,
    };
    match resolve_after_srv("example.org", SrvTargetPolicy::IpLiteralOnly, Some(&rec)) {
        Ok(ResolveStep::Resolved(MatrixSSServername::DirectAddress { socket_address, .. })) => {
            assert_eq!(
                socket_address.ip,
                IpAddress::V4(Ipv4Address { o0: 198, o1: 51, o2: 100, o3: 7 })
            );
        }
        _ => panic!("a root-anchored srv target must still parse"),
    }
}

#[test]
fn no_srv_record_falls_back_to_default_endpoint() {
    match resolve_after_srv("example.org", SrvTargetPolicy::IpLiteralOnly, None) {
        Ok(ResolveStep::Resolved(MatrixSSServername::NamedEndpoint { host, port })) => {
            assert_eq!(host, "example.org");
            assert_eq!(port, 8448);
        }
        _ => panic!("without any srv record the default endpoint must be used"),
    }
}

#[test]
fn hostname_srv_target_is_an_error_under_the_strict_policy() {
    let rec = ServiceRecord {
        target: String::from("fed.example.org."),
        port: 8449,
    };
    match resolve_after_srv("example.org", SrvTargetPolicy::IpLiteralOnly, Some(&rec)) {
        Err(e) => assert_eq!(e, ServerError::MatrixFederationWronglyConfigured),
        _ => panic!("a hostname target must be refused under the strict policy"),
    }
}

#[test]
fn hostname_srv_target_asks_for_lookup_under_the_lenient_policy() {
    let rec = ServiceRecord {
        target: String::from("fed.example.org."),
        port: 8449,
    };
    match resolve_after_srv("example.org", SrvTargetPolicy::ResolveTarget, Some(&rec)) {
        Ok(ResolveStep::NeedTargetLookup { hostname, port }) => {
            assert_eq!(hostname, "fed.example.org");
            assert_eq!(port, 8449);
        }
        _ => panic!("a hostname target must be handed back for an address lookup"),
    }
}

#[test]
fn target_lookup_result_keeps_original_name_as_header() {
    let ip = IpAddress::V4(Ipv4Address { o0: 198, o1: 51, o2: 100, o3: 9 });
    match resolve_after_target_lookup("example.org", 8450, Some(ip)) {
        MatrixSSServername::DirectAddress { socket_address, host_header_override } => {
            assert_eq!(socket_address, SocketAddress { ip, port: 8450 });
            assert_eq!(host_header_override, "example.org");
        }
        _ => panic!("a found address must give a direct endpoint"),
    }
}

#[test]
fn failed_target_lookup_falls_back_to_default_endpoint() {
    match resolve_after_target_lookup("example.org", 8450, None) {
        MatrixSSServername::NamedEndpoint { host, port } => {
            assert_eq!(host, "example.org");
            assert_eq!(port, 8448);
        }
        _ => panic!("without an address the default endpoint must be used"),
    }
}

#[test]
fn literal_resolution_is_idempotent() {
    let first = resolve_start("203.0.113.5:8443");
    let second = resolve_start("203.0.113.5:8443");
    match (first, second) {
        (
            ResolveStep::Resolved(MatrixSSServername::DirectAddress {
                socket_address: a1,
                host_header_override: h1,
            }),
            ResolveStep::Resolved(MatrixSSServername::DirectAddress {
                socket_address: a2,
                host_header_override: h2,
            }),
        ) => {
            assert_eq!(a1, a2);
            assert_eq!(h1, h2);
        }
        _ => panic!("both resolutions must finish in the first step"),
    }
}

#[test]
fn literal_host_header_is_verbatim() {
    match resolve_start("[2001:db8::1]:443") {
        ResolveStep::Resolved(MatrixSSServername::DirectAddress {
            host_header_override, ..
        }) => {
            assert_eq!(host_header_override, "[2001:db8::1]:443");
        }
        _ => panic!("a bracketed ipv6 literal with port must resolve directly"),
    }
}

#[test]
fn unbracketed_ipv6_literal_resolves_directly() {
    match resolve_start("2001:db8::1") {
        ResolveStep::Resolved(MatrixSSServername::DirectAddress {
            socket_address,
            host_header_override,
        }) => {
            assert_eq!(socket_address.port, DEFAULT_PORT);
            assert_eq!(host_header_override, "2001:db8::1");
        }
        _ => panic!("an unbracketed ipv6 literal must count as a literal address"),
    }
}

#[test]
fn classification_tries_literal_addresses_first() {
    assert!(matches!(
        classify("203.0.113.5:8443"),
        AddressForm::IpWithPort(_)
    ));
    assert!(matches!(classify("203.0.113.5"), AddressForm::BareIp(_)));
    assert!(matches!(
        classify("example.org:9000"),
        AddressForm::HostWithPort { .. }
    ));
    assert!(matches!(classify("example.org"), AddressForm::BareHostname));
    // an unbracketed ipv6 literal ends in colon-and-digits, yet the literal
    // reading wins over the hostname:port reading
    assert!(matches!(classify("2001:db8::1"), AddressForm::BareIp(_)));
    // colons that make no ipv6 literal read as hostname:port
    assert!(matches!(classify("a:1"), AddressForm::HostWithPort { .. }));
}

#[test]
fn empty_input_falls_through_to_discovery() {
    match resolve_start("") {
        ResolveStep::NeedDelegation { hostname } => assert_eq!(hostname, ""),
        _ => panic!("an empty identifier must fall through to discovery"),
    }
}

#[test]
fn oversized_port_is_not_an_explicit_port() {
    match resolve_start("example.org:99999") {
        ResolveStep::NeedDelegation { hostname } => assert_eq!(hostname, "example.org:99999"),
        _ => panic!("a port above 65535 must fall through to discovery"),
    }
}

#[test]
fn split_host_port_takes_the_trailing_digits() {
    assert_eq!(
        split_host_port("example.org:9000"),
        Some((String::from("example.org"), 9000))
    );
    assert_eq!(split_host_port("a:1:2"), Some((String::from("a:1"), 2)));
    assert_eq!(
        split_host_port("example.org:0080"),
        Some((String::from("example.org"), 80))
    );
    assert_eq!(split_host_port(":123"), Some((String::from(""), 123)));
    assert_eq!(split_host_port("example.org"), None);
    assert_eq!(split_host_port("example.org:"), None);
    assert_eq!(split_host_port("example.org:12b3"), None);
    assert_eq!(split_host_port("example.org:99999"), None);
}

#[test]
fn strip_trailing_dots_removes_only_trailing_dots() {
    assert_eq!(strip_trailing_dots_str("host."), "host");
    assert_eq!(strip_trailing_dots_str("host..."), "host");
    assert_eq!(strip_trailing_dots_str("host"), "host");
    assert_eq!(strip_trailing_dots_str("ho.st."), "ho.st");
    assert_eq!(strip_trailing_dots_str("."), "");
}

#[test]
fn well_known_url_is_built_from_the_hostname() {
    assert_eq!(
        well_known_url("example.org"),
        "https://example.org/.well-known/matrix/server"
    );
}

#[test]
fn srv_lookup_name_is_built_from_the_hostname() {
    assert_eq!(srv_lookup_name("example.org"), "_matrix._tcp.example.org");
}

#[test]
fn misconfiguration_message_names_the_federation_setup() {
    assert_eq!(
        ServerError::MatrixFederationWronglyConfigured.message(),
        "You Matrix Server is not configured correctly"
    );
    assert_eq!(ServerError::PathTraversal.message(), "Possible Directory/Path Traversal Attack detected");
}

#[test]
fn check_logged_in_needs_both_session_values() {
    let user = String::from("@user:example.org");
    let server = String::from("example.org");
    assert!(check_logged_in(Some(&user), Some(&server)));
    assert!(!check_logged_in(Some(&user), None));
    assert!(!check_logged_in(None, Some(&server)));
    assert!(!check_logged_in(None, None));
}
