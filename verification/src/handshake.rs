//! Where the tunnel connects to, and the request that opens it.
use crate::config::{destination_of, remote_url, Config, ConfigError, ConfigView};
use crate::net::{IpAddr, Ipv4Addr, SocketAddr};
use crate::numbers::{decimal, push_decimal};
use crate::outside::{
    base64_bytes, base64_url, ders, encode_base64_url, json_string, parse_certificates,
    pem_certificates, quote_json, url_of, websocket_key, UrlParts, UrlView,
};
use crate::pieces::{drop_leading, drop_trailing, without_leading, without_trailing};
use crate::text::{chars_of, same, text_of, text_view};
use vstd::prelude::*;

verus! {

/// The bytes that may wait in the sending socket before the system reports it as full, where small
/// packets go first: Linux limits those that are not sent yet.
pub const UNSENT_LIMIT: u32 = 16384;

/// The sending buffer where small packets go first and only its whole size can be limited.
pub const SEND_BUFFER: u32 = 131072;

// ---------------------------------------------------------------- addresses

/// Where to connect to.
#[derive(Debug)]
pub enum Endpoint {
    /// An address that needs no lookup.
    Fixed(SocketAddr),
    /// A host to look up, and the port.
    Lookup(String, u16),
}

#[verifier::ext_equal]
pub enum EndpointView {
    Fixed(SocketAddr),
    Lookup(Seq<char>, u16),
}

impl View for Endpoint {
    type V = EndpointView;

    open spec fn view(&self) -> EndpointView {
        match *self {
            Endpoint::Fixed(a) => EndpointView::Fixed(a),
            Endpoint::Lookup(host, port) => EndpointView::Lookup(host@, port),
        }
    }
}

/// Why there is nowhere to connect to.
#[derive(Clone, Copy, PartialEq, Eq, Structural, Debug)]
pub enum ResolveError {
    Config(ConfigError),
    NoPort,
    NoIpv4,
}

pub open spec fn refusal(e: ResolveError) -> Seq<char> {
    match e {
        ResolveError::Config(e) => crate::config::refusal(e),
        ResolveError::NoPort => "missing server port"@,
        ResolveError::NoIpv4 => "server has no IPv4 address; set server_ip"@,
    }
}

impl ResolveError {
    /// The reason in words.
    pub fn message(&self) -> (r: String)
        ensures
            r@ == refusal(*self),
    {
        match self {
            ResolveError::Config(e) => e.message(),
            ResolveError::NoPort => "missing server port".to_owned(),
            ResolveError::NoIpv4 => "server has no IPv4 address; set server_ip".to_owned(),
        }
    }
}

/// Where to connect to for a URL, given the address that stands in for its host.
pub open spec fn endpoint_of(url: UrlView, server_ip: Option<Ipv4Addr>) -> Result<
    EndpointView,
    ResolveError,
> {
    match (url.known_port, server_ip) {
        (None, _) => Err(ResolveError::NoPort),
        (Some(port), Some(ip)) => Ok(
            EndpointView::Fixed(SocketAddr { ip: IpAddr::V4(ip), scope: 0, port }),
        ),
        (Some(port), None) => Ok(EndpointView::Lookup(url.host->0, port)),
    }
}

/// Where a configuration connects to.
pub open spec fn resolved(c: ConfigView) -> Result<EndpointView, ResolveError> {
    match url_of(c.server) {
        Err(_) => Err(ResolveError::Config(ConfigError::ServerUrl)),
        Ok(url) => endpoint_of(url, c.server_ip),
    }
}

/// Whether a URL has a host where one has to be looked up.
pub open spec fn reachable(url: UrlView, server_ip: Option<Ipv4Addr>) -> bool {
    url.known_port is Some && server_ip is None ==> url.host is Some
}

/// Whether the URL of the server has a host where one has to be looked up.
pub open spec fn resolvable(c: ConfigView) -> bool {
    url_of(c.server) matches Ok(u) ==> reachable(u, c.server_ip)
}

/// Whether two outcomes are the same.
pub open spec fn is_endpoint(
    r: Result<Endpoint, ResolveError>,
    expected: Result<EndpointView, ResolveError>,
) -> bool {
    match r {
        Ok(e) => expected == Ok::<_, ResolveError>(e@),
        Err(e) => expected == Err::<EndpointView, _>(e),
    }
}

/// Where to connect to for a URL.
pub fn endpoint(url: &UrlParts, server_ip: Option<Ipv4Addr>) -> (r: Result<Endpoint, ResolveError>)
    requires
        reachable(url@, server_ip),
    ensures
        is_endpoint(r, endpoint_of(url@, server_ip)),
{
    match (url.known_port, server_ip) {
        (None, _) => Err(ResolveError::NoPort),
        (Some(port), Some(ip)) => Ok(Endpoint::Fixed(SocketAddr::v4(ip, port))),
        (Some(port), None) => match &url.host {
            Some(host) => Ok(Endpoint::Lookup(host.as_str().to_owned(), port)),
            None => Err(ResolveError::NoPort),
        },
    }
}

/// Where a configuration connects to.
pub fn resolve(cfg: &Config) -> (r: Result<Endpoint, ResolveError>)
    requires
        resolvable(cfg@),
    ensures
        is_endpoint(r, resolved(cfg@)),
{
    match cfg.url() {
        Err(e) => Err(ResolveError::Config(e)),
        Ok(url) => endpoint(&url, cfg.server_ip),
    }
}

/// Where a configuration connects to; none where the URL of its server has no host to look up.
pub fn try_resolve(cfg: &Config) -> (r: Option<Result<Endpoint, ResolveError>>)
    ensures
        match r {
            Some(outcome) => resolvable(cfg@) && is_endpoint(outcome, resolved(cfg@)),
            None => !resolvable(cfg@),
        },
{
    match cfg.url() {
        Ok(url) => {
            if url.known_port.is_some() && cfg.server_ip.is_none() && url.host.is_none() {
                return None;
            }
        },
        Err(_) => {},
    }
    Some(resolve(cfg))
}

/// The first IPv4 address of those that a host has.
pub open spec fn first_ipv4_of(all: Seq<SocketAddr>) -> Option<SocketAddr>
    decreases all.len(),
{
    if all.len() == 0 {
        None
    } else if all[0].ip is V4 {
        Some(all[0])
    } else {
        first_ipv4_of(all.skip(1))
    }
}

/// Chooses the address to connect to from those that a host has.
pub fn first_ipv4(all: &Vec<SocketAddr>) -> (r: Result<SocketAddr, ResolveError>)
    ensures
        match r {
            Ok(a) => first_ipv4_of(all@) == Some(a),
            Err(e) => first_ipv4_of(all@) is None && e == ResolveError::NoIpv4,
        },
{
    assert(all@.skip(0) =~= all@);
    for i in 0..all.len()
        invariant
            first_ipv4_of(all@.skip(i as int)) == first_ipv4_of(all@),
    {
        assert(all@.skip(i as int)[0] == all@[i as int]);
        assert(all@.skip(i as int).skip(1) =~= all@.skip(i + 1));
        if let IpAddr::V4(_) = all[i].ip {
            return Ok(all[i]);
        }
    }
    assert(all@.skip(all@.len() as int) =~= Seq::empty());
    Err(ResolveError::NoIpv4)
}

/// The address that is chosen is an IPv4 address of the host.
pub proof fn chosen_address_is_ipv4(all: Seq<SocketAddr>)
    ensures
        first_ipv4_of(all) matches Some(a) ==> a.ip is V4 && all.contains(a),
        first_ipv4_of(all) is None ==> forall|i: int| 0 <= i < all.len() ==> !((#[trigger] all[i]).ip is V4),
    decreases all.len(),
{
    if all.len() > 0 && !(all[0].ip is V4) {
        let rest = all.skip(1);
        chosen_address_is_ipv4(rest);
        if let Some(a) = first_ipv4_of(rest) {
            let i = choose|i: int| 0 <= i < rest.len() && rest[i] == a;
            assert(all[i + 1] == a);
        } else {
            assert forall|i: int| 0 <= i < all.len() implies !((#[trigger] all[i]).ip is V4) by {
                if i > 0 {
                    assert(rest[i - 1] == all[i]);
                }
            }
        }
    } else if all.len() > 0 {
        assert(all[0] == first_ipv4_of(all)->0);
    }
}

// ---------------------------------------------------------------- requests

/// The request that opens a tunnel.
#[derive(Debug)]
pub struct Request {
    pub path: String,
    pub headers: Vec<(String, String)>,
}

#[verifier::ext_equal]
pub struct RequestView {
    pub path: Seq<char>,
    pub headers: Seq<(Seq<char>, Seq<char>)>,
}

impl View for Request {
    type V = RequestView;

    open spec fn view(&self) -> RequestView {
        RequestView {
            path: self.path@,
            headers: self.headers@.map_values(|h: (String, String)| (h.0@, h.1@)),
        }
    }
}

/// What the server is told of the destination: UDP without a timeout of its own.
pub open spec fn metadata(host: Seq<char>, port: u16) -> Seq<char> {
    "{\"id\":\"00000000-0000-4000-8000-000000000001\",\"p\":{\"Udp\":{\"timeout\":null}},\"r\":"@
        + json_string(host) + ",\"rp\":"@ + decimal(port as nat) + "}"@
}

/// So many zero characters, whose bytes are as many zero bytes.
pub open spec fn zero_chars(n: nat) -> Seq<char> {
    Seq::new(n, |i: int| '\0')
}

/// The token that carries the metadata. The server does not verify its signature; access is
/// controlled by TLS and the secret path.
pub open spec fn token(host: Seq<char>, port: u16) -> Seq<char> {
    base64_url("{\"alg\":\"HS256\",\"typ\":\"JWT\"}"@) + "."@ + base64_url(metadata(host, port))
        + "."@ + base64_url(zero_chars(32))
}

/// The path of the request.
pub open spec fn request_path(prefix: Seq<char>) -> Seq<char> {
    "/"@ + without_trailing(without_leading(prefix, '/'), '/') + "/events"@
}

/// The host that the request names, with the port where it is not the usual one.
pub open spec fn authority(url: UrlView) -> Seq<char> {
    match url.port {
        Some(port) => url.host->0 + ":"@ + decimal(port as nat),
        None => url.host->0,
    }
}

/// The request for a server, a path prefix, a destination and a key.
pub open spec fn request_for(
    url: UrlView,
    prefix: Seq<char>,
    host: Seq<char>,
    port: u16,
    key: Seq<char>,
) -> RequestView {
    RequestView {
        path: request_path(prefix),
        headers: seq![
            ("Host"@, authority(url)),
            ("Upgrade"@, "websocket"@),
            ("Connection"@, "Upgrade"@),
            ("Sec-WebSocket-Key"@, key),
            ("Sec-WebSocket-Version"@, "13"@),
            ("Sec-WebSocket-Protocol"@, "v1, authorization.bearer."@ + token(host, port)),
        ],
    }
}

fn metadata_text(host: &str, port: u16) -> (r: String)
    ensures
        r@ == metadata(host@, port),
{
    let mut out = String::new();
    out.append(
        "{\"id\":\"00000000-0000-4000-8000-000000000001\",\"p\":{\"Udp\":{\"timeout\":null}},\"r\":",
    );
    out.append(quote_json(host).as_str());
    out.append(",\"rp\":");
    push_decimal(&mut out, port as u64);
    out.append("}");
    assert(out@ =~= metadata(host@, port));
    out
}

fn zero_text() -> (r: String)
    ensures
        r@ == zero_chars(32),
{
    let mut out = String::new();
    for i in 0..32usize
        invariant
            out@ == zero_chars(i as nat),
    {
        out.push('\0');
        assert(out@ =~= zero_chars((i + 1) as nat));
    }
    out
}

fn protocol_text(host: &str, port: u16) -> (r: String)
    ensures
        r@ == "v1, authorization.bearer."@ + token(host@, port),
{
    let mut out = String::new();
    out.append("v1, authorization.bearer.");
    out.append(encode_base64_url("{\"alg\":\"HS256\",\"typ\":\"JWT\"}").as_str());
    out.append(".");
    out.append(encode_base64_url(metadata_text(host, port).as_str()).as_str());
    out.append(".");
    out.append(encode_base64_url(zero_text().as_str()).as_str());
    assert(out@ =~= "v1, authorization.bearer."@ + token(host@, port));
    out
}

fn path_text(prefix: &str) -> (r: String)
    ensures
        r@ == request_path(prefix@),
{
    let chars = chars_of(prefix);
    let inner = text_of(drop_trailing(drop_leading(&chars, '/'), '/'));
    let mut out = String::new();
    out.append("/");
    out.append(inner.as_str());
    out.append("/events");
    assert(out@ =~= request_path(prefix@));
    out
}

fn header(name: &str, value: String) -> (r: (String, String))
    ensures
        (r.0@, r.1@) == (name@, value@),
{
    (name.to_owned(), value)
}

/// Builds the request for a server, a path prefix, a destination and a key.
pub fn build_request(url: &UrlParts, prefix: &str, host: &str, port: u16, key: String) -> (r:
    Request)
    requires
        url@.host is Some,
    ensures
        r@ == request_for(url@, prefix@, host@, port, key@),
{
    let mut named = String::new();
    match &url.host {
        Some(own) => named.append(own.as_str()),
        None => {},
    }
    if let Some(own) = url.port {
        named.append(":");
        push_decimal(&mut named, own as u64);
    }
    assert(named@ =~= authority(url@));
    let mut headers: Vec<(String, String)> = Vec::new();
    headers.push(header("Host", named));
    headers.push(header("Upgrade", "websocket".to_owned()));
    headers.push(header("Connection", "Upgrade".to_owned()));
    headers.push(header("Sec-WebSocket-Key", key));
    headers.push(header("Sec-WebSocket-Version", "13".to_owned()));
    headers.push(header("Sec-WebSocket-Protocol", protocol_text(host, port)));
    let r = Request { path: path_text(prefix), headers };
    assert(r@.headers =~= request_for(url@, prefix@, host@, port, key@).headers);
    r
}

/// Whether a request is that of a configuration, with some key of 16 bytes.
pub open spec fn opens(r: Result<Request, ConfigError>, c: ConfigView) -> bool {
    match url_of(c.server) {
        Err(_) => r matches Err(e) && e == ConfigError::ServerUrl,
        Ok(url) => match destination_of(url_of(remote_url(c.remote))) {
            Err(e) => r matches Err(own) && own == e,
            Ok((host, port)) => r matches Ok(request) && exists|key: Seq<char>|
                (#[trigger] base64_bytes(key) matches Some(bytes) && bytes.len() == 16)
                    && request@ == request_for(url, c.path_prefix, host, port, key),
        },
    }
}

/// Whether the URL of the server has a host where the destination is good, so that there is a
/// request to be made.
pub open spec fn requestable(c: ConfigView) -> bool {
    match url_of(c.server) {
        Ok(u) => destination_of(url_of(remote_url(c.remote))) is Ok ==> u.host is Some,
        Err(_) => true,
    }
}

/// The request that opens the tunnel of a configuration, with a key of its own each time.
pub fn request(cfg: &Config) -> (r: Result<Request, ConfigError>)
    requires
        requestable(cfg@),
    ensures
        opens(r, cfg@),
{
    match (cfg.url(), cfg.destination()) {
        (Err(e), _) => Err(e),
        (Ok(_), Err(e)) => Err(e),
        (Ok(url), Ok((host, port))) => {
            let key = websocket_key();
            let ghost k = key@;
            let built = build_request(&url, cfg.path_prefix.as_str(), host.as_str(), port, key);
            assert(base64_bytes(k) is Some);
            Ok(built)
        },
    }
}

/// The request that opens the tunnel of a configuration; none where the destination is good and the
/// URL of its server has no host.
pub fn try_request(cfg: &Config) -> (r: Option<Result<Request, ConfigError>>)
    ensures
        match r {
            Some(outcome) => requestable(cfg@) && opens(outcome, cfg@),
            None => !requestable(cfg@),
        },
{
    match (cfg.url(), cfg.destination()) {
        (Ok(url), Ok(_)) => {
            if url.host.is_none() {
                return None;
            }
        },
        _ => {},
    }
    Some(request(cfg))
}

// ---------------------------------------------------------------- certificates

/// The certificate authorities in the bytes of a file, in their order, each in DER: at least one.
pub fn accept_certificates(bytes: &[u8]) -> (r: Result<Vec<Vec<u8>>, String>)
    ensures
        match pem_certificates(bytes@) {
            Ok(certs) => if certs.len() == 0 {
                r matches Err(e) && e@ == "ca_file has no PEM certificates"@
            } else {
                r matches Ok(v) && ders(v@) == certs
            },
            Err(words) => r matches Err(e) && e@ == words,
        },
{
    match parse_certificates(bytes) {
        Err(words) => Err(words),
        Ok(certs) => if certs.len() == 0 {
            Err("ca_file has no PEM certificates".to_owned())
        } else {
            Ok(certs)
        },
    }
}

// ---------------------------------------------------------------- what is told


/// The name that the certificate of the server has to be for; none where the tunnel is not
/// encrypted.
pub fn server_name(url: &UrlParts) -> (r: Option<String>)
    ensures
        text_view(r) == if url@.scheme == "wss"@ {
            url@.host
        } else {
            None
        },
{
    if same(url.scheme.as_str(), "wss") {
        match &url.host {
            Some(host) => Some(host.as_str().to_owned()),
            None => None,
        }
    } else {
        None
    }
}

/// Why the tunnel was not opened, given the status that the server answered with.
pub fn upgrade_refusal(status: Option<u16>) -> (r: String)
    ensures
        r@ == match status {
            Some(code) => "WebSocket upgrade rejected: HTTP "@ + decimal(code as nat),
            None => "WebSocket handshake failed (network or protocol error)"@,
        },
{
    let mut out = String::new();
    match status {
        Some(code) => {
            out.append("WebSocket upgrade rejected: HTTP ");
            push_decimal(&mut out, code as u64);
        },
        None => out.append("WebSocket handshake failed (network or protocol error)"),
    }
    assert(out@ =~= match status {
        Some(code) => "WebSocket upgrade rejected: HTTP "@ + decimal(code as nat),
        None => "WebSocket handshake failed (network or protocol error)"@,
    });
    out
}

/// The line that tells that a tunnel is up.
pub open spec fn ready_text(
    listen: SocketAddr,
    address: SocketAddr,
    remote: Seq<char>,
    scheme: Seq<char>,
) -> Seq<char> {
    "tunnel ready: "@ + crate::net::socket_string(listen) + " -> "@ + crate::net::socket_string(
        address,
    ) + "; UDP remote "@ + remote + "; transport "@ + scheme
}

pub fn ready_line(listen: &SocketAddr, address: &SocketAddr, remote: &str, scheme: &str) -> (r: String)
    ensures
        r@ == ready_text(*listen, *address, remote@, scheme@),
{
    let mut out = String::new();
    out.append("tunnel ready: ");
    out.append(crate::net::socket_to_text(listen).as_str());
    out.append(" -> ");
    out.append(crate::net::socket_to_text(address).as_str());
    out.append("; UDP remote ");
    out.append(remote);
    out.append("; transport ");
    out.append(scheme);
    assert(out@ =~= ready_text(*listen, *address, remote@, scheme@));
    out
}

// ---------------------------------------------------------------- laws

/// The port that is connected to.
pub open spec fn port_of(e: EndpointView) -> u16 {
    match e {
        EndpointView::Fixed(a) => a.port,
        EndpointView::Lookup(_, port) => port,
    }
}

/// Whatever stands in for the host of the server, the port that is connected to is that of its URL:
/// the one written there, else the usual one of its scheme. There is nowhere to connect to where
/// the URL has none, and only then.
pub proof fn server_address_keeps_the_port(url: UrlView, a: Option<Ipv4Addr>, b: Option<Ipv4Addr>)
    ensures
        endpoint_of(url, a) is Ok <==> url.known_port is Some,
        endpoint_of(url, a) is Ok <==> endpoint_of(url, b) is Ok,
        endpoint_of(url, a) matches Ok(x) ==> Some(port_of(x)) == url.known_port,
        endpoint_of(url, a) is Ok ==> port_of(endpoint_of(url, a)->Ok_0) == port_of(
            endpoint_of(url, b)->Ok_0,
        ),
        endpoint_of(url, a) matches Err(e) ==> e == ResolveError::NoPort,
{
}

/// The address that is given for the server is the one that is connected to; without one the host
/// of the URL is looked up.
pub proof fn given_addresses_are_used(url: UrlView, ip: Ipv4Addr)
    requires
        url.known_port is Some,
    ensures
        endpoint_of(url, Some(ip)) matches Ok(EndpointView::Fixed(a)) && a.ip == IpAddr::V4(ip),
        url.host matches Some(host) ==> (endpoint_of(url, None) matches Ok(EndpointView::Lookup(h, _))
            && h == host),
{
}

/// A configuration connects to the port of the URL of its server, with the address of the server
/// given or not.
pub proof fn configurations_connect_to_their_server(c: ConfigView, d: ConfigView)
    requires
        c.server == d.server,
    ensures
        resolved(c) is Ok <==> resolved(d) is Ok,
        resolved(c) matches Ok(e) ==> (url_of(c.server) matches Ok(url) && url.known_port == Some(
            port_of(e),
        )),
        resolved(c) is Ok ==> port_of(resolved(c)->Ok_0) == port_of(resolved(d)->Ok_0),
        url_of(c.server) is Err ==> resolved(c) == Err::<EndpointView, _>(
            ResolveError::Config(ConfigError::ServerUrl),
        ),
        resolved(c) is Ok && c.server_ip is Some ==> (resolved(c)->Ok_0 matches EndpointView::Fixed(a)
            && a.ip == IpAddr::V4(c.server_ip->0)),
{
}

/// Of the addresses of a host the first IPv4 address is chosen.
pub proof fn first_of_the_ipv4_addresses_is_chosen(all: Seq<SocketAddr>, i: int)
    requires
        0 <= i < all.len(),
        all[i].ip is V4,
        forall|j: int| 0 <= j < i ==> !((#[trigger] all[j]).ip is V4),
    ensures
        first_ipv4_of(all) == Some(all[i]),
    decreases all.len(),
{
    if i > 0 {
        assert(!(all[0].ip is V4));
        let rest = all.skip(1);
        assert forall|j: int| 0 <= j < i - 1 implies !((#[trigger] rest[j]).ip is V4) by {
            assert(rest[j] == all[j + 1]);
        }
        first_of_the_ipv4_addresses_is_chosen(rest, i - 1);
    }
}

/// Slashes around a prefix make no difference to the path of a request, which ends in `/events`.
pub proof fn slashes_around_a_prefix_do_not_matter(inner: Seq<char>, before: nat, behind: nat)
    requires
        inner.len() > 0,
        inner[0] != '/',
        inner.last() != '/',
    ensures
        request_path(Seq::new(before, |i: int| '/') + inner + Seq::new(behind, |i: int| '/'))
            == "/"@ + inner + "/events"@,
    decreases before + behind,
{
    let s = Seq::new(before, |i: int| '/') + inner + Seq::new(behind, |i: int| '/');
    crate::pieces::dropped_runs_are_whole(s, '/');
    let t = without_leading(s, '/');
    let k = s.len() - t.len();
    assert(k == before) by {
        if k > before {
            assert(s[before as int] == inner[0]);
        } else if k < before {
            assert(t[0] == s[k]);
        }
    }
    crate::pieces::dropped_runs_are_whole(t, '/');
    let u = without_trailing(t, '/');
    assert forall|i: int| 0 <= i < inner.len() implies t[i] == inner[i] by {
        assert(t[i] == s[before + i]);
    }
    assert(u.len() == inner.len()) by {
        if u.len() < inner.len() {
            assert(t[inner.len() - 1] == '/');
        } else if u.len() > inner.len() {
            assert(u.last() == t[u.len() - 1]);
            assert(t[u.len() - 1] == s[before + u.len() - 1]);
        }
    }
    assert(u =~= inner);
}

/// Whether a request has a header once, with a value.
pub open spec fn has_header(r: RequestView, name: Seq<char>, value: Seq<char>) -> bool {
    exists|i: int|
        0 <= i < r.headers.len() && (#[trigger] r.headers[i]) == (name, value) && forall|j: int|
            0 <= j < r.headers.len() && (#[trigger] r.headers[j]).0 == name ==> j == i
}

/// What a request asks for: an upgrade to WebSocket in version 13 with its key, from the host of
/// the URL, with a port exactly where the URL has one of its own. The token names the destination
/// and that it is reached by UDP.
pub proof fn requests_ask_for_the_tunnel(
    url: UrlView,
    prefix: Seq<char>,
    host: Seq<char>,
    port: u16,
    key: Seq<char>,
)
    requires
        url.host is Some,
    ensures
        ({
            let r = request_for(url, prefix, host, port, key);
            &&& r.headers.len() == 6
            &&& has_header(
                r,
                "Host"@,
                url.host->0 + match url.port {
                    Some(own) => ":"@ + decimal(own as nat),
                    None => ""@,
                },
            )
            &&& has_header(r, "Upgrade"@, "websocket"@)
            &&& has_header(r, "Connection"@, "Upgrade"@)
            &&& has_header(r, "Sec-WebSocket-Key"@, key)
            &&& has_header(r, "Sec-WebSocket-Version"@, "13"@)
            &&& has_header(
                r,
                "Sec-WebSocket-Protocol"@,
                "v1, authorization.bearer."@ + base64_url("{\"alg\":\"HS256\",\"typ\":\"JWT\"}"@)
                    + "."@ + base64_url(
                    "{\"id\":\"00000000-0000-4000-8000-000000000001\",\"p\":{\"Udp\":{\"timeout\":null}},\"r\":"@
                        + json_string(host) + ",\"rp\":"@ + decimal(port as nat) + "}"@,
                ) + "."@ + base64_url(Seq::new(32, |i: int| '\0')),
            )
        }),
{
    let r = request_for(url, prefix, host, port, key);
    reveal_strlit("");
    reveal_strlit("Host");
    reveal_strlit("Upgrade");
    reveal_strlit("Connection");
    reveal_strlit("Sec-WebSocket-Key");
    reveal_strlit("Sec-WebSocket-Version");
    reveal_strlit("Sec-WebSocket-Protocol");
    assert("Host"@.len() == 4 && "Upgrade"@.len() == 7 && "Connection"@.len() == 10);
    assert("Sec-WebSocket-Key"@.len() == 17 && "Sec-WebSocket-Version"@.len() == 21
        && "Sec-WebSocket-Protocol"@.len() == 22);
    assert(authority(url) =~= url.host->0 + match url.port {
        Some(own) => ":"@ + decimal(own as nat),
        None => ""@,
    });
    assert(r.headers[0] == ("Host"@, authority(url)));
    assert(r.headers[1] == ("Upgrade"@, "websocket"@));
    assert(r.headers[2] == ("Connection"@, "Upgrade"@));
    assert(r.headers[3] == ("Sec-WebSocket-Key"@, key));
    assert(r.headers[4] == ("Sec-WebSocket-Version"@, "13"@));
    let told = "v1, authorization.bearer."@ + base64_url("{\"alg\":\"HS256\",\"typ\":\"JWT\"}"@)
        + "."@ + base64_url(
        "{\"id\":\"00000000-0000-4000-8000-000000000001\",\"p\":{\"Udp\":{\"timeout\":null}},\"r\":"@
            + json_string(host) + ",\"rp\":"@ + decimal(port as nat) + "}"@,
    ) + "."@ + base64_url(Seq::new(32, |i: int| '\0'));
    assert(zero_chars(32) =~= Seq::new(32, |i: int| '\0'));
    assert(r.headers[5].1 =~= told);
    assert(r.headers[5] == ("Sec-WebSocket-Protocol"@, told));
}

/// The bounds of what waits to be sent where small packets go first.
pub proof fn bounds_of_sending()
    ensures
        UNSENT_LIMIT == 16_384,
        SEND_BUFFER == 131_072,
{
}

/// There is nothing to connect to only where a host has to be looked up and there is none, and no
/// request to be made only where the destination is good and the server has no host.
pub proof fn hosts_are_needed(c: ConfigView)
    ensures
        resolvable(c) <==> match url_of(c.server) {
            Ok(u) => u.known_port is None || c.server_ip is Some || u.host is Some,
            Err(_) => true,
        },
        requestable(c) <==> match url_of(c.server) {
            Ok(u) => destination_of(url_of("udp://"@ + c.remote)) is Err || u.host is Some,
            Err(_) => true,
        },
{
}

/// A request that is made names the server, the prefix and the destination of the configuration, and
/// has a key of 16 bytes.
pub proof fn requests_are_those_of_the_configuration(r: Result<Request, ConfigError>, c: ConfigView)
    requires
        opens(r, c),
    ensures
        match r {
            Ok(request) => url_of(c.server) matches Ok(url) && (destination_of(
                url_of("udp://"@ + c.remote),
            ) matches Ok(to) && exists|key: Seq<char>|
                (#[trigger] base64_bytes(key) matches Some(bytes) && bytes.len() == 16)
                    && request@ == request_for(url, c.path_prefix, to.0, to.1, key)),
            Err(e) => (url_of(c.server) is Err && e == ConfigError::ServerUrl) || (url_of(c.server)
                is Ok && destination_of(url_of("udp://"@ + c.remote)) == Err::<(Seq<char>, u16), _>(
                e,
            )),
        },
{
}

/// The line that tells that a tunnel is up names where it listens, where it goes, and how.
pub proof fn ready_lines_name_the_tunnel(
    listen: SocketAddr,
    address: SocketAddr,
    remote: Seq<char>,
    scheme: Seq<char>,
)
    ensures
        ready_text(listen, address, remote, scheme) == "tunnel ready: "@
            + crate::net::socket_string(listen) + " -> "@ + crate::net::socket_string(address)
            + "; UDP remote "@ + remote + "; transport "@ + scheme,
{
}

} // verus!
