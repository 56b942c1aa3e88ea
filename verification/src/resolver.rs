//! The ordered federation discovery algorithm.
//!
//! A server identifier resolves through five states, strictly in order, the
//! first success terminal: a literal IP address (with or without port), an
//! explicit `hostname:port`, a well-known delegation document, an SRV record,
//! and finally the hostname itself with the protocol-default port. The two
//! middle states need the network; the functions here perform no request
//! themselves but say, step by step, what to fetch next and what the answer
//! means, so that a driver can run the chain with any transport.

use vstd::prelude::*;
use vstd::string::*;
use crate::address::{
    parse_ip_chars, parse_socket_chars, spec_ip, spec_socket, IpAddress, SocketAddress,
};
use crate::errors::ServerError;
use crate::text::{all_digit_chars, char_vec, dec_val, dec_value_capped, is_digit_char};

verus! {

/// The protocol-default federation port, used whenever discovery ends without
/// an explicit port.
pub const DEFAULT_PORT: u16 = 8448;

/// The parsed well-known delegation payload, `{ "server": ... }`.
pub struct DelegationDocument {
    pub server: String,
}

/// One SRV answer: the advertised target host and port.
pub struct ServiceRecord {
    pub target: String,
    pub port: u16,
}

/// What to make of an SRV target that is not an IP literal: refuse it (the
/// strict reading, which treats such an answer as a misconfigured server), or
/// hand it back for an ordinary address lookup.
#[derive(Clone, Copy, PartialEq, Eq, Structural, Debug)]
pub enum SrvTargetPolicy {
    IpLiteralOnly,
    ResolveTarget,
}

/// A resolved federation endpoint.
pub enum MatrixSSServername {
    /// Connect to this address directly, but present `host_header_override`
    /// — the original server identifier, verbatim — as the virtual-host
    /// identity, so that name-based routing on the remote side still works.
    DirectAddress { socket_address: SocketAddress, host_header_override: String },
    /// Connect using ordinary name resolution of `host`; the host is its own
    /// virtual-host identity, so nothing needs overriding.
    NamedEndpoint { host: String, port: u16 },
}

/// The mathematical shape of a resolved endpoint.
pub enum EndpointModel {
    DirectAddress { socket_address: SocketAddress, host_header_override: Seq<char> },
    NamedEndpoint { host: Seq<char>, port: u16 },
}

impl View for MatrixSSServername {
    type V = EndpointModel;

    open spec fn view(&self) -> EndpointModel {
        match self {
            MatrixSSServername::DirectAddress { socket_address, host_header_override } => {
                EndpointModel::DirectAddress {
                    socket_address: *socket_address,
                    host_header_override: host_header_override@,
                }
            },
            MatrixSSServername::NamedEndpoint { host, port } => {
                EndpointModel::NamedEndpoint { host: host@, port: *port }
            },
        }
    }
}

/// One step of the discovery chain: either a terminal endpoint, or the next
/// network question the driver must answer before resolution can go on.
pub enum ResolveStep {
    /// Resolution is finished; no further request may be made.
    Resolved(MatrixSSServername),
    /// Fetch the well-known delegation document of `hostname` and resolve on
    /// with the answer, or with nothing if the fetch fails in any way.
    NeedDelegation { hostname: String },
    /// Look up the federation SRV record of `hostname` and resolve on with
    /// the first answer, or with nothing on any failure.
    NeedSrv { hostname: String },
    /// Look up the address of `hostname` and finish with the result.
    NeedTargetLookup { hostname: String, port: u16 },
}

/// The mathematical shape of a discovery step.
pub enum StepModel {
    Resolved(EndpointModel),
    NeedDelegation { hostname: Seq<char> },
    NeedSrv { hostname: Seq<char> },
    NeedTargetLookup { hostname: Seq<char>, port: u16 },
}

impl View for ResolveStep {
    type V = StepModel;

    open spec fn view(&self) -> StepModel {
        match self {
            ResolveStep::Resolved(e) => StepModel::Resolved(e@),
            ResolveStep::NeedDelegation { hostname } => {
                StepModel::NeedDelegation { hostname: hostname@ }
            },
            ResolveStep::NeedSrv { hostname } => StepModel::NeedSrv { hostname: hostname@ },
            ResolveStep::NeedTargetLookup { hostname, port } => {
                StepModel::NeedTargetLookup { hostname: hostname@, port: *port }
            },
        }
    }
}

/// The number of decimal digits at the end of `s`.
pub open spec fn trailing_digit_count(s: Seq<char>) -> int
    decreases s.len(),
{
    if s.len() == 0 {
        0
    } else if is_digit_char(s.last()) {
        1 + trailing_digit_count(s.drop_last())
    } else {
        0
    }
}

/// The trailing run of `s` consists of digits and the character just before
/// it, if any, is not a digit.
pub proof fn lemma_trailing_digits(s: Seq<char>)
    ensures
        0 <= trailing_digit_count(s) <= s.len(),
        forall|i: int|
            s.len() - trailing_digit_count(s) <= i < s.len() ==> is_digit_char(#[trigger] s[i]),
        trailing_digit_count(s) < s.len() ==> !is_digit_char(
            s[s.len() - trailing_digit_count(s) - 1],
        ),
    decreases s.len(),
{
    if s.len() > 0 && is_digit_char(s.last()) {
        lemma_trailing_digits(s.drop_last());
        assert(forall|i: int|
            0 <= i < s.len() - 1 ==> s.drop_last()[i] == #[trigger] s[i]);
    }
}

/// An explicit port split off the end of a server name: the name ends in
/// `:<digits>`, and the digits read as at most 65535. The host is everything
/// before the colon, kept verbatim.
pub open spec fn spec_split_host_port(s: Seq<char>) -> Option<(Seq<char>, u16)> {
    let t = trailing_digit_count(s);
    if 1 <= t && t < s.len() && s[s.len() - t - 1] == ':' && dec_val(s.skip(s.len() - t))
        <= 65535 {
        Some((s.take(s.len() - t - 1), dec_val(s.skip(s.len() - t)) as u16))
    } else {
        None
    }
}

/// `s` without its trailing dots, as an SRV target is written without its
/// root-anchoring final dot.
pub open spec fn strip_trailing_dots(s: Seq<char>) -> Seq<char>
    decreases s.len(),
{
    if s.len() > 0 && s.last() == '.' {
        strip_trailing_dots(s.drop_last())
    } else {
        s
    }
}

/// Splits a trailing `:<digits>` port off a server name, as
/// `spec_split_host_port` describes.
pub fn split_host_port(s: &str) -> (r: Option<(String, u16)>)
    ensures
        match r {
            Some(hp) => spec_split_host_port(s@) == Some((hp.0@, hp.1)),
            None => spec_split_host_port(s@) is None,
        },
{
    let v = char_vec(s);
    let n = v.len();
    let mut i = n;
    proof {
        assert(v@.take(n as int) =~= v@);
    }
    while i > 0 && v[i - 1] >= '0' && v[i - 1] <= '9'
        invariant
            0 <= i <= n,
            n == v@.len(),
            trailing_digit_count(v@) == (n - i) + trailing_digit_count(v@.take(i as int)),
        decreases i,
    {
        proof {
            assert(v@.take(i as int).last() == v@[i - 1]);
            assert(v@.take(i as int).drop_last() =~= v@.take(i - 1));
        }
        i = i - 1;
    }
    proof {
        if i > 0 {
            assert(v@.take(i as int).last() == v@[i - 1]);
        }
        assert(trailing_digit_count(v@.take(i as int)) == 0);
        assert(trailing_digit_count(v@) == n - i);
    }
    let t = n - i;
    if t >= 1 && t < n && v[n - t - 1] == ':' {
        let port_part = crate::text::vec_skip(&v, n - t);
        proof {
            lemma_trailing_digits(v@);
            assert(forall|j: int|
                0 <= j < t ==> is_digit_char(#[trigger] v@.skip(i as int)[j]));
        }
        match dec_value_capped(&port_part, 65535) {
            Some(p) => {
                proof {
                    crate::text::lemma_dec_val_nonneg(v@.skip(i as int));
                }
                let host = s.substring_char(0, n - t - 1).to_owned();
                Some((host, p as u16))
            },
            None => None,
        }
    } else {
        None
    }
}

/// Removes the trailing dots of `s`, as `strip_trailing_dots` describes.
pub fn strip_trailing_dots_str(s: &str) -> (r: String)
    ensures
        r@ == strip_trailing_dots(s@),
{
    let v = char_vec(s);
    let n = v.len();
    let mut i = n;
    proof {
        assert(v@.take(n as int) =~= v@);
    }
    while i > 0 && v[i - 1] == '.'
        invariant
            0 <= i <= n,
            n == v@.len(),
            strip_trailing_dots(v@) == strip_trailing_dots(v@.take(i as int)),
        decreases i,
    {
        proof {
            assert(v@.take(i as int).last() == v@[i - 1]);
            assert(v@.take(i as int).drop_last() =~= v@.take(i - 1));
        }
        i = i - 1;
    }
    proof {
        if i > 0 {
            assert(v@.take(i as int).last() == v@[i - 1]);
        }
        assert(strip_trailing_dots(v@.take(i as int)) == v@.take(i as int));
    }
    s.substring_char(0, i).to_owned()
}

/// The syntactic form of a server identifier, recognized in priority order:
/// a literal IP with an explicit port, a bare literal IP, a hostname with
/// an explicit trailing port, and — everything else — a bare hostname that
/// must go through discovery.
pub enum AddressForm {
    IpWithPort(SocketAddress),
    BareIp(IpAddress),
    HostWithPort { host: String, port: u16 },
    BareHostname,
}

/// The mathematical shape of a classified server identifier.
pub enum AddressFormModel {
    IpWithPort(SocketAddress),
    BareIp(IpAddress),
    HostWithPort { host: Seq<char>, port: u16 },
    BareHostname,
}

impl View for AddressForm {
    type V = AddressFormModel;

    open spec fn view(&self) -> AddressFormModel {
        match self {
            AddressForm::IpWithPort(sa) => AddressFormModel::IpWithPort(*sa),
            AddressForm::BareIp(ip) => AddressFormModel::BareIp(*ip),
            AddressForm::HostWithPort { host, port } => {
                AddressFormModel::HostWithPort { host: host@, port: *port }
            },
            AddressForm::BareHostname => AddressFormModel::BareHostname,
        }
    }
}

/// Classification, which always comes first and cannot fail: the literal-IP
/// readings are tried before the `hostname:port` reading, so that an
/// `ip:port` literal is never mistaken for a hostname with a port.
pub open spec fn spec_classify(s: Seq<char>) -> AddressFormModel {
    match spec_socket(s) {
        Some(sa) => AddressFormModel::IpWithPort(sa),
        None => match spec_ip(s) {
            Some(ip) => AddressFormModel::BareIp(ip),
            None => match spec_split_host_port(s) {
                Some(hp) => AddressFormModel::HostWithPort { host: hp.0, port: hp.1 },
                None => AddressFormModel::BareHostname,
            },
        },
    }
}

/// Classifies a raw server identifier, as `spec_classify` describes. Pure:
/// no request is made and no input is rejected.
pub fn classify(server_name: &str) -> (r: AddressForm)
    ensures
        r@ == spec_classify(server_name@),
{
    let v = char_vec(server_name);
    match parse_socket_chars(&v) {
        Some(sa) => AddressForm::IpWithPort(sa),
        None => match parse_ip_chars(&v) {
            Some(ip) => AddressForm::BareIp(ip),
            None => match split_host_port(server_name) {
                Some(hp) => AddressForm::HostWithPort { host: hp.0, port: hp.1 },
                None => AddressForm::BareHostname,
            },
        },
    }
}

/// The first state of resolution, from the classified identifier alone: the
/// literal forms and the explicit `hostname:port` form are terminal;
/// a bare hostname must go on to well-known delegation.
pub open spec fn spec_resolve_start(s: Seq<char>) -> StepModel {
    match spec_classify(s) {
        AddressFormModel::IpWithPort(sa) => StepModel::Resolved(
            EndpointModel::DirectAddress { socket_address: sa, host_header_override: s },
        ),
        AddressFormModel::BareIp(ip) => StepModel::Resolved(
            EndpointModel::DirectAddress {
                socket_address: SocketAddress { ip, port: DEFAULT_PORT },
                host_header_override: s,
            },
        ),
        AddressFormModel::HostWithPort { host, port } => StepModel::Resolved(
            EndpointModel::NamedEndpoint { host, port },
        ),
        AddressFormModel::BareHostname => StepModel::NeedDelegation { hostname: s },
    }
}

/// What a delegation answer means: a delegated name with its own explicit
/// port, or with the default port; no answer sends discovery on to the SRV
/// lookup. A present-but-malformed document counts as no answer and must be
/// passed here as such.
pub open spec fn spec_resolve_after_delegation(s: Seq<char>, doc: Option<Seq<char>>) -> StepModel {
    match doc {
        Some(d) => match spec_split_host_port(d) {
            Some(hp) => StepModel::Resolved(
                EndpointModel::NamedEndpoint { host: hp.0, port: hp.1 },
            ),
            None => StepModel::Resolved(
                EndpointModel::NamedEndpoint { host: d, port: DEFAULT_PORT },
            ),
        },
        None => StepModel::NeedSrv { hostname: s },
    }
}

/// What an SRV answer means: a record whose dot-stripped target is an IP
/// literal gives a direct endpoint carrying the original server name; a
/// target that is a hostname follows `policy`; no record falls through to
/// the default endpoint.
pub open spec fn spec_resolve_after_srv(
    s: Seq<char>,
    policy: SrvTargetPolicy,
    rec: Option<(Seq<char>, u16)>,
) -> Result<StepModel, ServerError> {
    match rec {
        None => Ok(
            StepModel::Resolved(EndpointModel::NamedEndpoint { host: s, port: DEFAULT_PORT }),
        ),
        Some(tp) => {
            let host = strip_trailing_dots(tp.0);
            match spec_ip(host) {
                Some(ip) => Ok(
                    StepModel::Resolved(
                        EndpointModel::DirectAddress {
                            socket_address: SocketAddress { ip, port: tp.1 },
                            host_header_override: s,
                        },
                    ),
                ),
                None => match policy {
                    SrvTargetPolicy::IpLiteralOnly => Err(
                        ServerError::MatrixFederationWronglyConfigured,
                    ),
                    SrvTargetPolicy::ResolveTarget => Ok(
                        StepModel::NeedTargetLookup { hostname: host, port: tp.1 },
                    ),
                },
            }
        },
    }
}

/// What the final address lookup means: an address gives a direct endpoint
/// carrying the original server name; none falls through to the default
/// endpoint.
pub open spec fn spec_resolve_after_target_lookup(
    s: Seq<char>,
    port: u16,
    ip: Option<IpAddress>,
) -> EndpointModel {
    match ip {
        Some(a) => EndpointModel::DirectAddress {
            socket_address: SocketAddress { ip: a, port },
            host_header_override: s,
        },
        None => EndpointModel::NamedEndpoint { host: s, port: DEFAULT_PORT },
    }
}

/// The delegation answer a driver hands back, seen mathematically.
pub open spec fn doc_model(doc: Option<&DelegationDocument>) -> Option<Seq<char>> {
    match doc {
        Some(d) => Some(d.server@),
        None => None,
    }
}

/// The SRV answer a driver hands back, seen mathematically.
pub open spec fn record_model(record: Option<&ServiceRecord>) -> Option<(Seq<char>, u16)> {
    match record {
        Some(rec) => Some((rec.target@, rec.port)),
        None => None,
    }
}

/// Classifies `server_name` and takes the first resolution step. A literal
/// address or an explicit `host:port` resolves at once, without any network;
/// a bare hostname asks for its delegation document.
pub fn resolve_start(server_name: &str) -> (r: ResolveStep)
    ensures
        r@ == spec_resolve_start(server_name@),
{
    match classify(server_name) {
        AddressForm::IpWithPort(sa) => ResolveStep::Resolved(
            MatrixSSServername::DirectAddress {
                socket_address: sa,
                host_header_override: server_name.to_owned(),
            },
        ),
        AddressForm::BareIp(ip) => ResolveStep::Resolved(
            MatrixSSServername::DirectAddress {
                socket_address: SocketAddress { ip, port: DEFAULT_PORT },
                host_header_override: server_name.to_owned(),
            },
        ),
        AddressForm::HostWithPort { host, port } => ResolveStep::Resolved(
            MatrixSSServername::NamedEndpoint { host, port },
        ),
        AddressForm::BareHostname => ResolveStep::NeedDelegation {
            hostname: server_name.to_owned(),
        },
    }
}

/// Resolves on after the well-known delegation fetch, whose outcome — the
/// document, or nothing on any connection, status or parse failure — the
/// driver hands in.
pub fn resolve_after_delegation(server_name: &str, doc: Option<&DelegationDocument>) -> (r:
    ResolveStep)
    ensures
        r@ == spec_resolve_after_delegation(server_name@, doc_model(doc)),
{
    match doc {
        Some(d) => match split_host_port(d.server.as_str()) {
            Some(hp) => ResolveStep::Resolved(
                MatrixSSServername::NamedEndpoint { host: hp.0, port: hp.1 },
            ),
            None => ResolveStep::Resolved(
                MatrixSSServername::NamedEndpoint {
                    host: d.server.as_str().to_owned(),
                    port: DEFAULT_PORT,
                },
            ),
        },
        None => ResolveStep::NeedSrv { hostname: server_name.to_owned() },
    }
}

/// Resolves on after the SRV lookup, whose outcome — the first record, or
/// nothing on any lookup failure or empty answer — the driver hands in.
pub fn resolve_after_srv(
    server_name: &str,
    policy: SrvTargetPolicy,
    record: Option<&ServiceRecord>,
) -> (r: Result<ResolveStep, ServerError>)
    ensures
        match r {
            Ok(step) => spec_resolve_after_srv(server_name@, policy, record_model(record)) == Ok::<
                StepModel,
                ServerError,
            >(step@),
            Err(e) => spec_resolve_after_srv(server_name@, policy, record_model(record)) == Err::<
                StepModel,
                ServerError,
            >(e),
        },
{
    match record {
        None => Ok(
            ResolveStep::Resolved(
                MatrixSSServername::NamedEndpoint {
                    host: server_name.to_owned(),
                    port: DEFAULT_PORT,
                },
            ),
        ),
        Some(rec) => {
            let host = strip_trailing_dots_str(rec.target.as_str());
            let hv = char_vec(host.as_str());
            match parse_ip_chars(&hv) {
                Some(ip) => Ok(
                    ResolveStep::Resolved(
                        MatrixSSServername::DirectAddress {
                            socket_address: SocketAddress { ip, port: rec.port },
                            host_header_override: server_name.to_owned(),
                        },
                    ),
                ),
                None => match policy {
                    SrvTargetPolicy::IpLiteralOnly => Err(
                        ServerError::MatrixFederationWronglyConfigured,
                    ),
                    SrvTargetPolicy::ResolveTarget => Ok(
                        ResolveStep::NeedTargetLookup { hostname: host, port: rec.port },
                    ),
                },
            }
        },
    }
}

/// Finishes resolution after the driver's address lookup of an SRV target
/// hostname.
pub fn resolve_after_target_lookup(server_name: &str, port: u16, ip: Option<IpAddress>) -> (r:
    MatrixSSServername)
    ensures
        r@ == spec_resolve_after_target_lookup(server_name@, port, ip),
{
    match ip {
        Some(a) => MatrixSSServername::DirectAddress {
            socket_address: SocketAddress { ip: a, port },
            host_header_override: server_name.to_owned(),
        },
        None => MatrixSSServername::NamedEndpoint {
            host: server_name.to_owned(),
            port: DEFAULT_PORT,
        },
    }
}

/// The URL of the well-known delegation document of `hostname`.
pub fn well_known_url(hostname: &str) -> (r: String)
    ensures
        r@ == "https://"@ + hostname@ + "/.well-known/matrix/server"@,
{
    let mut r = String::from_str("https://");
    r.append(hostname);
    r.append("/.well-known/matrix/server");
    r
}

/// The name whose SRV record advertises the federation endpoint of
/// `hostname`.
pub fn srv_lookup_name(hostname: &str) -> (r: String)
    ensures
        r@ == "_matrix._tcp."@ + hostname@,
{
    let mut r = String::from_str("_matrix._tcp.");
    r.append(hostname);
    r
}

/// The split is faithful: a name that splits into a host and a port is
/// exactly that host, a colon, and a nonempty digit run reading as that
/// port — nothing is rewritten or lost.
pub proof fn lemma_split_host_port_faithful(s: Seq<char>)
    requires
        spec_split_host_port(s) is Some,
    ensures
        ({
            let hp = spec_split_host_port(s)->Some_0;
            exists|digits: Seq<char>|
                {
                    &&& s == hp.0 + seq![':'] + digits
                    &&& all_digit_chars(digits)
                    &&& digits.len() >= 1
                    &&& dec_val(digits) == hp.1 as int
                }
        }),
{
    let t = trailing_digit_count(s);
    let hp = spec_split_host_port(s)->Some_0;
    let digits = s.skip(s.len() - t);
    lemma_trailing_digits(s);
    assert(s =~= hp.0 + seq![':'] + digits);
    assert(all_digit_chars(digits)) by {
        assert(forall|j: int|
            0 <= j < t ==> is_digit_char(#[trigger] digits[j]));
    }
    crate::text::lemma_dec_val_nonneg(digits);
    assert({
        &&& s == hp.0 + seq![':'] + digits
        &&& all_digit_chars(digits)
        &&& digits.len() >= 1
        &&& dec_val(digits) == hp.1 as int
    });
}

/// The fallback order is fixed and never revisits a state: classification
/// asks at most for delegation; a delegation answer leads at most to the SRV
/// question, and only when there was no document; an SRV answer leads at
/// most to the final address lookup; and under the lenient target policy the
/// chain never fails at all.
pub proof fn lemma_ordered_fallback(
    s: Seq<char>,
    doc: Option<Seq<char>>,
    policy: SrvTargetPolicy,
    rec: Option<(Seq<char>, u16)>,
)
    ensures
        match spec_resolve_start(s) {
            StepModel::Resolved(_) => true,
            StepModel::NeedDelegation { hostname } => hostname == s,
            _ => false,
        },
        match spec_resolve_after_delegation(s, doc) {
            StepModel::Resolved(e) => e matches EndpointModel::NamedEndpoint { host, port },
            StepModel::NeedSrv { hostname } => doc is None && hostname == s,
            _ => false,
        },
        match spec_resolve_after_srv(s, policy, rec) {
            Ok(step) => match step {
                StepModel::Resolved(_) => true,
                StepModel::NeedTargetLookup { hostname, port } => policy
                    == SrvTargetPolicy::ResolveTarget,
                _ => false,
            },
            Err(e) => policy == SrvTargetPolicy::IpLiteralOnly && e
                == ServerError::MatrixFederationWronglyConfigured,
        },
        policy == SrvTargetPolicy::ResolveTarget ==> (spec_resolve_after_srv(s, policy, rec)
            matches Ok(_)),
{
}

/// A server name recognized as a literal address or as an explicit
/// `host:port` resolves in its very first step: no discovery request is ever
/// made for it.
pub proof fn lemma_literal_short_circuit(s: Seq<char>)
    requires
        spec_socket(s) is Some || spec_ip(s) is Some || spec_split_host_port(s) is Some,
    ensures
        spec_resolve_start(s) matches StepModel::Resolved(_),
{
}

/// The first resolution step is a pure function of the server name, so
/// resolving the same name again takes the same step and yields the same
/// endpoint.
pub proof fn lemma_resolve_start_deterministic(s1: Seq<char>, s2: Seq<char>)
    requires
        s1 == s2,
    ensures
        spec_resolve_start(s1) == spec_resolve_start(s2),
{
}

/// A server name classified as a literal address resolves to a direct
/// endpoint that carries the original name, verbatim, as its host-header
/// override — never the re-rendered address.
pub proof fn lemma_literal_keeps_host_header(s: Seq<char>)
    requires
        spec_socket(s) is Some || spec_ip(s) is Some,
    ensures
        spec_resolve_start(s) matches StepModel::Resolved(EndpointModel::DirectAddress {
            socket_address,
            host_header_override,
        }) && host_header_override == s,
{
}

/// A direct endpoint produced by the SRV state carries the original server
/// name as its host-header override.
pub proof fn lemma_srv_keeps_host_header(
    s: Seq<char>,
    policy: SrvTargetPolicy,
    rec: Option<(Seq<char>, u16)>,
)
    ensures
        match spec_resolve_after_srv(s, policy, rec) {
            Ok(step) => match step {
                StepModel::Resolved(e) => match e {
                    EndpointModel::DirectAddress { socket_address, host_header_override } => {
                        host_header_override == s
                    },
                    _ => true,
                },
                _ => true,
            },
            Err(_) => true,
        },
{
}

/// A direct endpoint produced by the final address lookup carries the
/// original server name as its host-header override.
pub proof fn lemma_target_lookup_keeps_host_header(s: Seq<char>, port: u16, ip: Option<IpAddress>)
    ensures
        spec_resolve_after_target_lookup(s, port, ip) matches EndpointModel::DirectAddress {
            socket_address,
            host_header_override,
        } ==> host_header_override == s,
{
}

} // verus!
