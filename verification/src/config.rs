//! The configuration of the tunnel: its fields, their defaults, and which values are accepted.
use crate::net::{
    ipv4, localhost_addr, parse_ipv4, parse_socket, socket, IpAddr, Ipv4Addr, SocketAddr,
};
use crate::outside::{
    document_of, join_path, parent_of, parse_document, path_join, path_parent, url_of, value_at,
    value_count, value_integer, value_item, value_keys, value_text, value_tree, TomlView, UrlParts,
    UrlView,
};
use crate::pieces::texts;
use crate::text::{chars_of, digit, is_digit, is_letter, joined, letter, same, text_view};
use crate::urls::{read_url, url_refusal, url_view, UrlFault};
use toml::de::DeValue;
use vstd::prelude::*;

verus! {

/// Which packets leave the queue first.
#[derive(Clone, Copy, PartialEq, Eq, Structural, Debug)]
pub enum LatencyMode {
    /// In the order of arrival.
    Balanced,
    /// Small packets first, within bounds.
    Interactive,
}

impl Default for LatencyMode {
    fn default() -> (r: Self)
        ensures
            r == LatencyMode::Balanced,
    {
        LatencyMode::Balanced
    }
}

/// How the relay moves packets.
#[derive(Clone, Copy, PartialEq, Eq, Structural, Debug)]
pub struct Transport {
    pub latency_mode: LatencyMode,
    /// The seconds between two reports of the counters; zero for none.
    pub diagnostics_interval_secs: u64,
}

pub open spec fn default_transport() -> Transport {
    Transport { latency_mode: LatencyMode::Balanced, diagnostics_interval_secs: 15 }
}

impl Default for Transport {
    fn default() -> (r: Self)
        ensures
            r == default_transport(),
    {
        Transport { latency_mode: LatencyMode::Balanced, diagnostics_interval_secs: 15 }
    }
}

/// The WireGuard interface that the tunnel manages.
#[derive(Debug)]
pub struct WireGuard {
    /// The path of the WireGuard configuration.
    pub config: String,
    pub name: String,
    /// The path of the WireGuard program, where it is not the usual one.
    pub executable: Option<String>,
    pub mtu: u16,
}

#[verifier::ext_equal]
pub struct WireGuardView {
    pub config: Seq<char>,
    pub name: Seq<char>,
    pub executable: Option<Seq<char>>,
    pub mtu: u16,
}

impl View for WireGuard {
    type V = WireGuardView;

    open spec fn view(&self) -> WireGuardView {
        WireGuardView {
            config: self.config@,
            name: self.name@,
            executable: text_view(self.executable),
            mtu: self.mtu,
        }
    }
}

/// The configuration of the tunnel.
#[derive(Debug)]
pub struct Config {
    /// The URL of the server, `ws://host:port` or `wss://host:port`.
    pub server: String,
    /// The address to connect to in place of what the name resolves to.
    pub server_ip: Option<Ipv4Addr>,
    pub path_prefix: String,
    /// The `host:port` behind the server that packets are sent to.
    pub remote: String,
    /// The address that WireGuard sends to.
    pub listen: SocketAddr,
    /// The path of additional certificate authorities.
    pub ca_file: Option<String>,
    pub wireguard: Option<WireGuard>,
    pub transport: Transport,
}

#[verifier::ext_equal]
pub struct ConfigView {
    pub server: Seq<char>,
    pub server_ip: Option<Ipv4Addr>,
    pub path_prefix: Seq<char>,
    pub remote: Seq<char>,
    pub listen: SocketAddr,
    pub ca_file: Option<Seq<char>>,
    pub wireguard: Option<WireGuardView>,
    pub transport: Transport,
}

pub open spec fn wireguard_view(w: Option<WireGuard>) -> Option<WireGuardView> {
    match w {
        Some(x) => Some(x@),
        None => None,
    }
}

impl View for Config {
    type V = ConfigView;

    open spec fn view(&self) -> ConfigView {
        ConfigView {
            server: self.server@,
            server_ip: self.server_ip,
            path_prefix: self.path_prefix@,
            remote: self.remote@,
            listen: self.listen,
            ca_file: text_view(self.ca_file),
            wireguard: wireguard_view(self.wireguard),
            transport: self.transport,
        }
    }
}

/// Why a configuration is refused. No refusal carries text of the configuration, which may hold
/// secrets.
#[derive(Clone, Copy, PartialEq, Eq, Structural, Debug)]
pub enum ConfigError {
    Toml,
    Diagnostics,
    ServerUrl,
    Scheme,
    Credentials,
    ServerPort,
    Listen,
    Prefix,
    RemoteUrl(UrlFault),
    RemoteParts,
    RemoteHost,
    RemotePort,
    RemotePortZero,
    Name,
    Mtu,
    Ipv6Server,
}

/// The words in which a refusal is told.
pub open spec fn refusal(e: ConfigError) -> Seq<char> {
    match e {
        ConfigError::Toml => "invalid xxtab TOML; check field names and value types"@,
        ConfigError::Diagnostics => "diagnostics_interval_secs must be 0 (disabled) or 5..3600"@,
        ConfigError::ServerUrl => "invalid server URL"@,
        ConfigError::Scheme => "server must be ws://host:port or wss://host:port"@,
        ConfigError::Credentials =>
            "use path_prefix for paths; URL credentials/query are unsupported"@,
        ConfigError::ServerPort => "invalid server port"@,
        ConfigError::Listen => "listen must be 127.0.0.1 with nonzero port"@,
        ConfigError::Prefix => "path_prefix must contain only ASCII letters, digits, -, _"@,
        ConfigError::RemoteUrl(fault) => "invalid remote host:port: "@ + url_refusal(fault),
        ConfigError::RemoteParts => "remote must be host:port"@,
        ConfigError::RemoteHost => "remote host missing"@,
        ConfigError::RemotePort => "remote port missing"@,
        ConfigError::RemotePortZero => "remote port must be nonzero"@,
        ConfigError::Name => "WireGuard name must be 1..15 ASCII letters/digits/underscores"@,
        ConfigError::Mtu => "mtu must be 1280..1420"@,
        ConfigError::Ipv6Server =>
            "this version requires an IPv4 outer server; WireGuard inner IPv6 is supported"@,
    }
}

impl ConfigError {
    /// The refusal in words.
    pub fn message(&self) -> (r: String)
        ensures
            r@ == refusal(*self),
    {
        let words = match self {
            ConfigError::Toml => "invalid xxtab TOML; check field names and value types",
            ConfigError::Diagnostics => "diagnostics_interval_secs must be 0 (disabled) or 5..3600",
            ConfigError::ServerUrl => "invalid server URL",
            ConfigError::Scheme => "server must be ws://host:port or wss://host:port",
            ConfigError::Credentials =>
                "use path_prefix for paths; URL credentials/query are unsupported",
            ConfigError::ServerPort => "invalid server port",
            ConfigError::Listen => "listen must be 127.0.0.1 with nonzero port",
            ConfigError::Prefix => "path_prefix must contain only ASCII letters, digits, -, _",
            ConfigError::RemoteUrl(fault) => {
                return joined("invalid remote host:port: ", fault.message());
            },
            ConfigError::RemoteParts => "remote must be host:port",
            ConfigError::RemoteHost => "remote host missing",
            ConfigError::RemotePort => "remote port missing",
            ConfigError::RemotePortZero => "remote port must be nonzero",
            ConfigError::Name => "WireGuard name must be 1..15 ASCII letters/digits/underscores",
            ConfigError::Mtu => "mtu must be 1280..1420",
            ConfigError::Ipv6Server =>
                "this version requires an IPv4 outer server; WireGuard inner IPv6 is supported",
        };
        words.to_owned()
    }
}

// ---------------------------------------------------------------- defaults

pub fn prefix() -> (r: String)
    ensures
        r@ == "v1"@,
{
    "v1".to_owned()
}

pub fn remote() -> (r: String)
    ensures
        r@ == "127.0.0.1:7007"@,
{
    "127.0.0.1:7007".to_owned()
}

pub open spec fn default_listen() -> SocketAddr {
    SocketAddr { ip: IpAddr::V4(localhost_addr()), scope: 0, port: 51820 }
}

pub fn listen() -> (r: SocketAddr)
    ensures
        r == default_listen(),
{
    SocketAddr::v4(Ipv4Addr::localhost(), 51820)
}

pub fn name() -> (r: String)
    ensures
        r@ == "xxtab0"@,
{
    "xxtab0".to_owned()
}

pub fn mtu() -> (r: u16)
    ensures
        r == 1280,
{
    1280
}

// ---------------------------------------------------------------- fields

/// The parts of a configuration that have fields.
#[derive(Clone, Copy, PartialEq, Eq, Structural, Debug)]
pub enum Group {
    Tunnel,
    WireGuard,
    Transport,
}

/// Whether a group has a field of a name.
pub open spec fn has_field(group: Group, key: Seq<char>) -> bool {
    match group {
        Group::Tunnel => {
            ||| key == "server"@ || key == "server_ip"@ || key == "path_prefix"@
            ||| key == "remote"@ || key == "listen"@ || key == "ca_file"@
            ||| key == "wireguard"@ || key == "transport"@
        },
        Group::WireGuard => key == "config"@ || key == "name"@ || key == "executable"@ || key
            == "mtu"@,
        Group::Transport => key == "latency_mode"@ || key == "diagnostics_interval_secs"@,
    }
}

fn knows_field(group: Group, key: &str) -> (r: bool)
    ensures
        r == has_field(group, key@),
{
    match group {
        Group::Tunnel => same(key, "server") || same(key, "server_ip") || same(key, "path_prefix")
            || same(key, "remote") || same(key, "listen") || same(key, "ca_file") || same(
            key,
            "wireguard",
        ) || same(key, "transport"),
        Group::WireGuard => same(key, "config") || same(key, "name") || same(key, "executable")
            || same(key, "mtu"),
        Group::Transport => same(key, "latency_mode") || same(key, "diagnostics_interval_secs"),
    }
}

/// Whether a value can stand for a group: a table of known fields, or the fields in their order.
pub open spec fn grouped(t: TomlView, group: Group) -> bool {
    match t {
        TomlView::Table(m) => forall|k: Seq<char>| m.dom().contains(k) ==> has_field(group, k),
        TomlView::List(_) => true,
        _ => false,
    }
}

/// The value of a field of a group, by its name in a table and by its place in a list.
pub open spec fn slot(t: TomlView, key: Seq<char>, place: int) -> Option<TomlView> {
    match t {
        TomlView::Table(m) => if m.dom().contains(key) {
            Some(m[key])
        } else {
            None
        },
        TomlView::List(v) => if 0 <= place < v.len() {
            Some(v[place])
        } else {
            None
        },
        _ => None,
    }
}

/// A text field with a default.
pub open spec fn text_field(e: Option<TomlView>, default: Option<Seq<char>>) -> Option<Seq<char>> {
    match e {
        None => default,
        Some(TomlView::Text(s)) => Some(s),
        Some(_) => None,
    }
}

/// A text field that may be absent.
pub open spec fn optional_field(e: Option<TomlView>) -> Option<Option<Seq<char>>> {
    match e {
        None => Some(None),
        Some(TomlView::Text(s)) => Some(Some(s)),
        Some(_) => None,
    }
}

/// A number field with a default and a largest value.
pub open spec fn number_field(e: Option<TomlView>, default: int, limit: int) -> Option<int> {
    match e {
        None => Some(default),
        Some(TomlView::Integer(n)) => if 0 <= n <= limit {
            Some(n)
        } else {
            None
        },
        Some(_) => None,
    }
}

/// Whether a value is an empty table or list.
pub open spec fn hollow(t: TomlView) -> bool {
    match t {
        TomlView::Table(m) => m.dom() =~= Set::<Seq<char>>::empty(),
        TomlView::List(v) => v.len() == 0,
        _ => false,
    }
}

/// Whether a value names a mode: its text, or a table of that one key with nothing in it.
pub open spec fn names(t: TomlView, mode: Seq<char>) -> bool {
    match t {
        TomlView::Text(s) => s == mode,
        TomlView::Table(m) => m.dom() =~= set![mode] && hollow(m[mode]),
        _ => false,
    }
}

/// The latency mode, which is balanced unless it is given.
pub open spec fn mode_field(e: Option<TomlView>) -> Option<LatencyMode> {
    match e {
        None => Some(LatencyMode::Balanced),
        Some(t) => if names(t, "balanced"@) {
            Some(LatencyMode::Balanced)
        } else if names(t, "interactive"@) {
            Some(LatencyMode::Interactive)
        } else {
            None
        },
    }
}

/// The transport that a value describes.
pub open spec fn transport_field(e: Option<TomlView>) -> Option<Transport> {
    match e {
        None => Some(default_transport()),
        Some(t) => {
            let mode = mode_field(slot(t, "latency_mode"@, 0));
            let secs = number_field(
                slot(t, "diagnostics_interval_secs"@, 1),
                15,
                u64::MAX as int,
            );
            if grouped(t, Group::Transport) && mode is Some && secs is Some {
                Some(
                    Transport {
                        latency_mode: mode->0,
                        diagnostics_interval_secs: secs->0 as u64,
                    },
                )
            } else {
                None
            }
        },
    }
}

/// The WireGuard interface that a value describes. A list has to reach the program's path.
pub open spec fn wireguard_field(e: Option<TomlView>) -> Option<Option<WireGuardView>> {
    match e {
        None => Some(None),
        Some(t) => {
            let config = text_field(slot(t, "config"@, 0), None);
            let name = text_field(slot(t, "name"@, 1), Some("xxtab0"@));
            let executable = optional_field(slot(t, "executable"@, 2));
            let mtu = number_field(slot(t, "mtu"@, 3), 1280, 0xffff);
            if grouped(t, Group::WireGuard) && (t matches TomlView::List(v) ==> v.len() >= 3)
                && config is Some && name is Some && executable is Some && mtu is Some {
                Some(
                    Some(
                        WireGuardView {
                            config: config->0,
                            name: name->0,
                            executable: executable->0,
                            mtu: mtu->0 as u16,
                        },
                    ),
                )
            } else {
                None
            }
        },
    }
}

/// The address that a value gives in place of the server's name.
pub open spec fn address_field(e: Option<TomlView>) -> Option<Option<Ipv4Addr>> {
    match e {
        None => Some(None),
        Some(TomlView::Text(s)) => match ipv4(s) {
            Some(ip) => Some(Some(ip)),
            None => None,
        },
        Some(_) => None,
    }
}

/// The address to listen on.
pub open spec fn listen_field(e: Option<TomlView>) -> Option<SocketAddr> {
    match e {
        None => Some(default_listen()),
        Some(TomlView::Text(s)) => socket(s),
        Some(_) => None,
    }
}

/// The configuration that a document describes: every field known and of its type, a default in
/// place of each that is missing and has one.
pub open spec fn decoded(t: TomlView) -> Option<ConfigView> {
    let server = text_field(slot(t, "server"@, 0), None);
    let server_ip = address_field(slot(t, "server_ip"@, 1));
    let path_prefix = text_field(slot(t, "path_prefix"@, 2), Some("v1"@));
    let remote = text_field(slot(t, "remote"@, 3), Some("127.0.0.1:7007"@));
    let listen = listen_field(slot(t, "listen"@, 4));
    let ca_file = optional_field(slot(t, "ca_file"@, 5));
    let wireguard = wireguard_field(slot(t, "wireguard"@, 6));
    let transport = transport_field(slot(t, "transport"@, 7));
    if t is Table && grouped(t, Group::Tunnel) && server is Some && server_ip is Some
        && path_prefix is Some && remote is Some && listen is Some && ca_file is Some
        && wireguard is Some && transport is Some {
        Some(
            ConfigView {
                server: server->0,
                server_ip: server_ip->0,
                path_prefix: path_prefix->0,
                remote: remote->0,
                listen: listen->0,
                ca_file: ca_file->0,
                wireguard: wireguard->0,
                transport: transport->0,
            },
        )
    } else {
        None
    }
}

/// What a value of a document holds, where there is one.
pub open spec fn entry_view(e: Option<&DeValue<'_>>) -> Option<TomlView> {
    match e {
        Some(v) => Some(value_tree(*v)),
        None => None,
    }
}

fn is_grouped(v: &DeValue<'_>, group: Group) -> (r: bool)
    ensures
        r == grouped(value_tree(*v), group),
{
    match value_keys(v) {
        Some(keys) => {
            for i in 0..keys.len()
                invariant
                    value_tree(*v) is Table,
                    value_tree(*v)->Table_0.dom() == texts(keys@).to_set(),
                    forall|j: int| 0 <= j < i ==> has_field(group, #[trigger] texts(keys@)[j]),
            {
                if !knows_field(group, keys[i].as_str()) {
                    assert(texts(keys@)[i as int] == keys@[i as int]@);
                    assert(texts(keys@).to_set().contains(keys@[i as int]@));
                    return false;
                }
                assert(texts(keys@)[i as int] == keys@[i as int]@);
            }
            true
        },
        None => value_count(v).is_some(),
    }
}

fn find_slot<'a, 'i>(v: &'a DeValue<'i>, key: &str, place: usize) -> (r: Option<&'a DeValue<'i>>)
    ensures
        entry_view(r) == slot(value_tree(*v), key@, place as int),
{
    match value_count(v) {
        Some(_) => value_item(v, place),
        None => value_at(v, key),
    }
}

fn read_text_field(e: Option<&DeValue<'_>>, default: Option<String>) -> (r: Option<String>)
    ensures
        text_view(r) == text_field(entry_view(e), text_view(default)),
{
    match e {
        None => default,
        Some(v) => match value_text(v) {
            Some(s) => Some(s.to_owned()),
            None => None,
        },
    }
}

fn read_optional_field(e: Option<&DeValue<'_>>) -> (r: Option<Option<String>>)
    ensures
        match r {
            Some(t) => optional_field(entry_view(e)) == Some(text_view(t)),
            None => optional_field(entry_view(e)) is None,
        },
{
    match e {
        None => Some(None),
        Some(v) => match value_text(v) {
            Some(s) => Some(Some(s.to_owned())),
            None => None,
        },
    }
}

fn read_number_field(e: Option<&DeValue<'_>>, default: u64, limit: u64) -> (r: Option<u64>)
    ensures
        match r {
            Some(n) => number_field(entry_view(e), default as int, limit as int) == Some(n as int),
            None => number_field(entry_view(e), default as int, limit as int) is None,
        },
{
    match e {
        None => Some(default),
        Some(v) => match value_integer(v) {
            Some(n) => if 0 <= n && n <= limit as i128 {
                Some(n as u64)
            } else {
                None
            },
            None => None,
        },
    }
}

fn is_hollow(v: &DeValue<'_>) -> (r: bool)
    ensures
        r == hollow(value_tree(*v)),
{
    match value_keys(v) {
        Some(keys) => {
            proof {
                if keys@.len() > 0 {
                    assert(texts(keys@)[0] == keys@[0]@);
                    assert(texts(keys@).to_set().contains(keys@[0]@));
                } else {
                    assert(texts(keys@).to_set() =~= Set::<Seq<char>>::empty());
                }
            }
            keys.len() == 0
        },
        None => match value_count(v) {
            Some(n) => n == 0,
            None => false,
        },
    }
}

fn is_named(v: &DeValue<'_>, mode: &str) -> (r: bool)
    ensures
        r == names(value_tree(*v), mode@),
{
    match value_text(v) {
        Some(s) => same(s, mode),
        None => match (value_keys(v), value_at(v, mode)) {
            (Some(keys), Some(x)) => {
                for i in 0..keys.len()
                    invariant
                        value_tree(*v) is Table,
                        value_tree(*v)->Table_0.dom() == texts(keys@).to_set(),
                        forall|j: int| 0 <= j < i ==> #[trigger] texts(keys@)[j] == mode@,
                {
                    if !same(keys[i].as_str(), mode) {
                        assert(texts(keys@)[i as int] == keys@[i as int]@);
                        assert(texts(keys@).to_set().contains(keys@[i as int]@));
                        assert(!set![mode@].contains(keys@[i as int]@));
                        return false;
                    }
                    assert(texts(keys@)[i as int] == keys@[i as int]@);
                }
                assert(texts(keys@).to_set() =~= set![mode@]);
                is_hollow(x)
            },
            _ => {
                assert(set![mode@].contains(mode@));
                false
            },
        },
    }
}

fn read_transport(e: Option<&DeValue<'_>>) -> (r: Option<Transport>)
    ensures
        r == transport_field(entry_view(e)),
{
    match e {
        None => Some(Transport::default()),
        Some(v) => {
            if !is_grouped(v, Group::Transport) {
                return None;
            }
            let latency_mode = match find_slot(v, "latency_mode", 0) {
                None => LatencyMode::default(),
                Some(x) => if is_named(x, "balanced") {
                    LatencyMode::Balanced
                } else if is_named(x, "interactive") {
                    LatencyMode::Interactive
                } else {
                    return None;
                },
            };
            match read_number_field(find_slot(v, "diagnostics_interval_secs", 1), 15, u64::MAX) {
                Some(diagnostics_interval_secs) => Some(
                    Transport { latency_mode, diagnostics_interval_secs },
                ),
                None => None,
            }
        },
    }
}

fn read_wireguard(e: Option<&DeValue<'_>>) -> (r: Option<Option<WireGuard>>)
    ensures
        match r {
            Some(w) => wireguard_field(entry_view(e)) == Some(wireguard_view(w)),
            None => wireguard_field(entry_view(e)) is None,
        },
{
    match e {
        None => Some(None),
        Some(v) => {
            if !is_grouped(v, Group::WireGuard) {
                return None;
            }
            if let Some(n) = value_count(v) {
                if n < 3 {
                    return None;
                }
            }
            let config = read_text_field(find_slot(v, "config", 0), None);
            let own_name = read_text_field(find_slot(v, "name", 1), Some(name()));
            let executable = read_optional_field(find_slot(v, "executable", 2));
            let own_mtu = read_number_field(find_slot(v, "mtu", 3), mtu() as u64, 0xffff);
            match (config, own_name, executable, own_mtu) {
                (Some(config), Some(name), Some(executable), Some(mtu)) => Some(
                    Some(WireGuard { config, name, executable, mtu: mtu as u16 }),
                ),
                _ => None,
            }
        },
    }
}

fn read_address(e: Option<&DeValue<'_>>) -> (r: Option<Option<Ipv4Addr>>)
    ensures
        r == address_field(entry_view(e)),
{
    match e {
        None => Some(None),
        Some(v) => match value_text(v) {
            Some(s) => match parse_ipv4(&chars_of(s)) {
                Some(ip) => Some(Some(ip)),
                None => None,
            },
            None => None,
        },
    }
}

fn read_listen(e: Option<&DeValue<'_>>) -> (r: Option<SocketAddr>)
    ensures
        r == listen_field(entry_view(e)),
{
    match e {
        None => Some(listen()),
        Some(v) => match value_text(v) {
            Some(s) => parse_socket(&chars_of(s)),
            None => None,
        },
    }
}

fn decode(v: &DeValue<'_>) -> (r: Option<Config>)
    ensures
        match r {
            Some(c) => decoded(value_tree(*v)) == Some(c@),
            None => decoded(value_tree(*v)) is None,
        },
{
    if value_keys(v).is_none() || !is_grouped(v, Group::Tunnel) {
        return None;
    }
    let server = read_text_field(find_slot(v, "server", 0), None);
    let server_ip = read_address(find_slot(v, "server_ip", 1));
    let path_prefix = read_text_field(find_slot(v, "path_prefix", 2), Some(prefix()));
    let own_remote = read_text_field(find_slot(v, "remote", 3), Some(remote()));
    let own_listen = read_listen(find_slot(v, "listen", 4));
    let ca_file = read_optional_field(find_slot(v, "ca_file", 5));
    let wireguard = read_wireguard(find_slot(v, "wireguard", 6));
    let transport = read_transport(find_slot(v, "transport", 7));
    match (server, server_ip, path_prefix, own_remote, own_listen, ca_file, wireguard, transport) {
        (
            Some(server),
            Some(server_ip),
            Some(path_prefix),
            Some(remote),
            Some(listen),
            Some(ca_file),
            Some(wireguard),
            Some(transport),
        ) => Some(
            Config { server, server_ip, path_prefix, remote, listen, ca_file, wireguard, transport },
        ),
        _ => None,
    }
}

// ---------------------------------------------------------------- acceptance

/// The characters of a path prefix.
pub open spec fn prefix_char(c: char) -> bool {
    letter(c) || digit(c) || c == '-' || c == '_'
}

/// Whether a path prefix is accepted.
pub open spec fn prefix_ok(s: Seq<char>) -> bool {
    0 < s.len() <= 256 && forall|i: int| 0 <= i < s.len() ==> prefix_char(#[trigger] s[i])
}

/// The characters of the name of an interface.
pub open spec fn name_char(c: char) -> bool {
    letter(c) || digit(c) || c == '_'
}

/// Whether the name of an interface is accepted.
pub open spec fn name_ok(s: Seq<char>) -> bool {
    0 < s.len() <= 15 && forall|i: int| 0 <= i < s.len() ==> name_char(#[trigger] s[i])
}

/// The host and port that the URL made of `remote` gives.
pub open spec fn destination_of(remote: Result<UrlView, UrlFault>) -> Result<
    (Seq<char>, u16),
    ConfigError,
> {
    match remote {
        Err(e) => Err(ConfigError::RemoteUrl(e)),
        Ok(u) => if u.username.len() > 0 || u.password is Some || u.path.len() > 0
            || u.query is Some || u.fragment is Some {
            Err(ConfigError::RemoteParts)
        } else if u.host is None {
            Err(ConfigError::RemoteHost)
        } else if u.port is None {
            Err(ConfigError::RemotePort)
        } else if u.port->0 == 0 {
            Err(ConfigError::RemotePortZero)
        } else {
            Ok((u.host->0, u.port->0))
        },
    }
}

/// Why the URL of the server is refused, but for an IPv6 host.
pub open spec fn server_fault(server: Result<UrlView, UrlFault>) -> Option<ConfigError> {
    match server {
        Err(_) => Some(ConfigError::ServerUrl),
        Ok(u) => if !(u.scheme == "ws"@ || u.scheme == "wss"@) || u.host is None {
            Some(ConfigError::Scheme)
        } else if u.username.len() > 0 || u.password is Some || u.query is Some || u.fragment is Some
            || !(u.path == ""@ || u.path == "/"@) {
            Some(ConfigError::Credentials)
        } else if u.known_port is None || u.known_port->0 == 0 {
            Some(ConfigError::ServerPort)
        } else {
            None
        },
    }
}

/// Why the WireGuard section is refused.
pub open spec fn wireguard_fault(w: Option<WireGuardView>) -> Option<ConfigError> {
    match w {
        None => None,
        Some(w) => if !name_ok(w.name) {
            Some(ConfigError::Name)
        } else if !(1280 <= w.mtu <= 1420) {
            Some(ConfigError::Mtu)
        } else {
            None
        },
    }
}

/// Why a configuration is refused, given what its server and its remote are as URLs.
pub open spec fn fault(
    c: ConfigView,
    server: Result<UrlView, UrlFault>,
    remote: Result<UrlView, UrlFault>,
) -> Option<ConfigError> {
    let secs = c.transport.diagnostics_interval_secs;
    if secs != 0 && !(5 <= secs <= 3600) {
        Some(ConfigError::Diagnostics)
    } else if server_fault(server) is Some {
        server_fault(server)
    } else if c.listen.ip != IpAddr::V4(localhost_addr()) || c.listen.port == 0 {
        Some(ConfigError::Listen)
    } else if !prefix_ok(c.path_prefix) {
        Some(ConfigError::Prefix)
    } else if destination_of(remote) is Err {
        Some(destination_of(remote)->Err_0)
    } else if wireguard_fault(c.wireguard) is Some {
        wireguard_fault(c.wireguard)
    } else if server->Ok_0.ipv6 {
        Some(ConfigError::Ipv6Server)
    } else {
        None
    }
}

/// The URL that stands for `remote`.
pub open spec fn remote_url(remote: Seq<char>) -> Seq<char> {
    "udp://"@ + remote
}

/// Why a configuration is refused.
pub open spec fn config_fault(c: ConfigView) -> Option<ConfigError> {
    fault(c, url_of(c.server), url_of(remote_url(c.remote)))
}

/// The directory that relative paths of a configuration file are taken from.
pub open spec fn base_of(path: Seq<char>) -> Seq<char> {
    match path_parent(path) {
        Some(d) => d,
        None => "."@,
    }
}

/// A configuration with its paths taken from a directory.
pub open spec fn placed(c: ConfigView, base: Seq<char>) -> ConfigView {
    ConfigView {
        ca_file: match c.ca_file {
            Some(p) => Some(path_join(base, p)),
            None => None,
        },
        wireguard: match c.wireguard {
            Some(w) => Some(WireGuardView { config: path_join(base, w.config), ..w }),
            None => None,
        },
        ..c
    }
}

/// The configuration that a document gives in the file of a path, given what its text holds.
pub open spec fn taken(document: Option<TomlView>, path: Seq<char>) -> Result<
    ConfigView,
    ConfigError,
> {
    match document {
        None => Err(ConfigError::Toml),
        Some(t) => match decoded(t) {
            None => Err(ConfigError::Toml),
            Some(c) => {
                let own = placed(c, base_of(path));
                match config_fault(own) {
                    Some(e) => Err(e),
                    None => Ok(own),
                }
            },
        },
    }
}

/// The configuration that the content of the file of a path gives.
pub open spec fn parsed(content: Seq<char>, path: Seq<char>) -> Result<ConfigView, ConfigError> {
    taken(document_of(content), path)
}

fn is_prefix(s: &str) -> (r: bool)
    ensures
        r == prefix_ok(s@),
{
    let chars = chars_of(s);
    if chars.len() == 0 || chars.len() > 256 {
        return false;
    }
    for i in 0..chars.len()
        invariant
            chars@ == s@,
            forall|j: int| 0 <= j < i ==> prefix_char(#[trigger] s@[j]),
    {
        let c = chars[i];
        if !(is_letter(c) || is_digit(c) || c == '-' || c == '_') {
            assert(!prefix_char(s@[i as int]));
            return false;
        }
    }
    true
}

fn is_name(s: &str) -> (r: bool)
    ensures
        r == name_ok(s@),
{
    let chars = chars_of(s);
    if chars.len() == 0 || chars.len() > 15 {
        return false;
    }
    for i in 0..chars.len()
        invariant
            chars@ == s@,
            forall|j: int| 0 <= j < i ==> name_char(#[trigger] s@[j]),
    {
        let c = chars[i];
        if !(is_letter(c) || is_digit(c) || c == '_') {
            assert(!name_char(s@[i as int]));
            return false;
        }
    }
    true
}

/// Whether a text has no characters.
fn is_blank(s: &str) -> (r: bool)
    ensures
        r == (s@.len() == 0),
{
    chars_of(s).len() == 0
}

/// The host and port that packets are sent to, given what `udp://` and `remote` are as a URL.
pub fn read_destination(remote: &Result<UrlParts, UrlFault>) -> (r: Result<(String, u16), ConfigError>)
    ensures
        match r {
            Ok((host, port)) => destination_of(url_view(*remote)) == Ok::<_, ConfigError>(
                (host@, port),
            ),
            Err(e) => destination_of(url_view(*remote)) == Err::<(Seq<char>, u16), _>(e),
        },
{
    match remote {
        Err(e) => Err(ConfigError::RemoteUrl(*e)),
        Ok(u) => {
            if !is_blank(u.username.as_str()) || u.password.is_some() || !is_blank(u.path.as_str())
                || u.query.is_some() || u.fragment.is_some() {
                return Err(ConfigError::RemoteParts);
            }
            match (&u.host, u.port) {
                (None, _) => Err(ConfigError::RemoteHost),
                (_, None) => Err(ConfigError::RemotePort),
                (Some(host), Some(port)) => if port == 0 {
                    Err(ConfigError::RemotePortZero)
                } else {
                    Ok((host.as_str().to_owned(), port))
                },
            }
        },
    }
}

fn check_server(server: &Result<UrlParts, UrlFault>) -> (r: Option<ConfigError>)
    ensures
        r == server_fault(url_view(*server)),
{
    match server {
        Err(_) => Some(ConfigError::ServerUrl),
        Ok(u) => {
            let scheme = u.scheme.as_str();
            let path = u.path.as_str();
            if !(same(scheme, "ws") || same(scheme, "wss")) || u.host.is_none() {
                Some(ConfigError::Scheme)
            } else if !is_blank(u.username.as_str()) || u.password.is_some() || u.query.is_some()
                || u.fragment.is_some() || !(same(path, "") || same(path, "/")) {
                Some(ConfigError::Credentials)
            } else {
                match u.known_port {
                    Some(port) if port > 0 => None,
                    _ => Some(ConfigError::ServerPort),
                }
            }
        },
    }
}

fn check_wireguard(w: &Option<WireGuard>) -> (r: Option<ConfigError>)
    ensures
        r == wireguard_fault(wireguard_view(*w)),
{
    match w {
        None => None,
        Some(w) => if !is_name(w.name.as_str()) {
            Some(ConfigError::Name)
        } else if !(1280 <= w.mtu && w.mtu <= 1420) {
            Some(ConfigError::Mtu)
        } else {
            None
        },
    }
}

impl Config {
    /// Reads a configuration from the content of the file of a path. Relative paths in it are
    /// taken from the directory of the file.
    pub fn parse(content: &str, path: &str) -> (r: Result<Self, ConfigError>)
        ensures
            match r {
                Ok(c) => parsed(content@, path@) == Ok::<_, ConfigError>(c@),
                Err(e) => parsed(content@, path@) == Err::<ConfigView, _>(e),
            },
    {
        match parse_document(content) {
            None => Err(ConfigError::Toml),
            Some(v) => Self::take(&v, path),
        }
    }

    /// Reads a configuration from a document in the file of a path.
    pub fn take(document: &DeValue<'_>, path: &str) -> (r: Result<Self, ConfigError>)
        ensures
            match r {
                Ok(c) => taken(Some(value_tree(*document)), path@) == Ok::<_, ConfigError>(c@),
                Err(e) => taken(Some(value_tree(*document)), path@) == Err::<ConfigView, _>(e),
            },
    {
        let mut own = match decode(document) {
            None => return Err(ConfigError::Toml),
            Some(c) => c,
        };
        let ghost c = own@;
        let base = match parent_of(path) {
            Some(d) => d,
            None => ".".to_owned(),
        };
        own.ca_file = match own.ca_file {
            Some(p) => Some(join_path(base.as_str(), p.as_str())),
            None => None,
        };
        own.wireguard = match own.wireguard {
            Some(w) => Some(
                WireGuard {
                    config: join_path(base.as_str(), w.config.as_str()),
                    name: w.name,
                    executable: w.executable,
                    mtu: w.mtu,
                },
            ),
            None => None,
        };
        assert(own@ == placed(c, base@));
        match own.validate() {
            Ok(()) => Ok(own),
            Err(e) => Err(e),
        }
    }

    /// The parts of the URL of the server.
    pub fn url(&self) -> (r: Result<UrlParts, ConfigError>)
        ensures
            match r {
                Ok(u) => url_of(self@.server) == Ok::<_, UrlFault>(u@),
                Err(e) => url_of(self@.server) is Err && e == ConfigError::ServerUrl,
            },
    {
        match read_url(self.server.as_str()) {
            Ok(u) => Ok(u),
            Err(_) => Err(ConfigError::ServerUrl),
        }
    }

    /// The host and port behind the server that packets are sent to.
    pub fn destination(&self) -> (r: Result<(String, u16), ConfigError>)
        ensures
            match r {
                Ok((host, port)) => destination_of(url_of(remote_url(self@.remote))) == Ok::<
                    _,
                    ConfigError,
                >((host@, port)),
                Err(e) => destination_of(url_of(remote_url(self@.remote))) == Err::<
                    (Seq<char>, u16),
                    _,
                >(e),
            },
    {
        read_destination(&read_url(joined("udp://", self.remote.as_str()).as_str()))
    }

    /// Whether the configuration is accepted, given what `server`, and `udp://` and `remote`, are
    /// as URLs.
    pub fn check(&self, server: &Result<UrlParts, UrlFault>, remote: &Result<UrlParts, UrlFault>) -> (r: Result<
        (),
        ConfigError,
    >)
        ensures
            match r {
                Ok(()) => fault(self@, url_view(*server), url_view(*remote)) is None,
                Err(e) => fault(self@, url_view(*server), url_view(*remote)) == Some(e),
            },
    {
        let secs: u64 = self.transport.diagnostics_interval_secs;
        if secs != 0 && !(5 <= secs && secs <= 3600) {
            return Err(ConfigError::Diagnostics);
        }
        if let Some(e) = check_server(server) {
            return Err(e);
        }
        if !self.listen.has_ip(Ipv4Addr::localhost()) || self.listen.port == 0 {
            return Err(ConfigError::Listen);
        }
        if !is_prefix(self.path_prefix.as_str()) {
            return Err(ConfigError::Prefix);
        }
        if let Err(e) = read_destination(remote) {
            return Err(e);
        }
        if let Some(e) = check_wireguard(&self.wireguard) {
            return Err(e);
        }
        match server {
            Ok(u) if u.ipv6 => Err(ConfigError::Ipv6Server),
            _ => Ok(()),
        }
    }

    /// Whether the configuration is accepted.
    pub fn validate(&self) -> (r: Result<(), ConfigError>)
        ensures
            match r {
                Ok(()) => config_fault(self@) is None,
                Err(e) => config_fault(self@) == Some(e),
            },
    {
        let server = read_url(self.server.as_str());
        let remote = read_url(joined("udp://", self.remote.as_str()).as_str());
        self.check(&server, &remote)
    }
}

// ---------------------------------------------------------------- laws

/// What the tunnel relies on in a configuration.
pub open spec fn usable(c: ConfigView) -> bool {
    &&& c.listen.ip == IpAddr::V4(localhost_addr())
    &&& c.listen.port != 0
    &&& url_of(c.server) matches Ok(u) && u.host is Some && !u.ipv6 && (u.scheme == "ws"@
        || u.scheme == "wss"@) && u.known_port is Some && u.known_port->0 != 0
    &&& destination_of(url_of(remote_url(c.remote))) is Ok
    &&& prefix_ok(c.path_prefix)
    &&& (c.wireguard matches Some(w) ==> name_ok(w.name) && 1280 <= w.mtu <= 1420)
    &&& (c.transport.diagnostics_interval_secs == 0 || 5 <= c.transport.diagnostics_interval_secs
        <= 3600)
}

/// An accepted configuration is one that the tunnel can use.
pub proof fn accepted_config_is_usable(content: Seq<char>, path: Seq<char>)
    requires
        parsed(content, path) is Ok,
    ensures
        usable(parsed(content, path)->Ok_0),
{
}

/// A document with a field that is not known is refused, whatever else it holds.
pub proof fn unknown_fields_are_refused(content: Seq<char>, path: Seq<char>, key: Seq<char>)
    requires
        document_of(content) matches Some(TomlView::Table(m)) && m.dom().contains(key)
            && !has_field(Group::Tunnel, key),
    ensures
        parsed(content, path) == Err::<ConfigView, _>(ConfigError::Toml),
{
}

/// A document that names the server alone gives the defaults everywhere else.
pub proof fn missing_fields_have_defaults(t: TomlView, server: Seq<char>)
    requires
        t matches TomlView::Table(m) && m =~= map!["server"@ => TomlView::Text(server)],
    ensures
        decoded(t) == Some(
            ConfigView {
                server,
                server_ip: None,
                path_prefix: "v1"@,
                remote: "127.0.0.1:7007"@,
                listen: default_listen(),
                ca_file: None,
                wireguard: None,
                transport: default_transport(),
            },
        ),
{
    reveal_strlit("server");
    reveal_strlit("server_ip");
    reveal_strlit("path_prefix");
    reveal_strlit("remote");
    reveal_strlit("listen");
    reveal_strlit("ca_file");
    reveal_strlit("wireguard");
    reveal_strlit("transport");
    assert("server"@.len() != "server_ip"@.len());
    assert("server"@.len() != "path_prefix"@.len());
    assert("server"@[0] != "remote"@[0]);
    assert("server"@[0] != "listen"@[0]);
    assert("server"@.len() != "ca_file"@.len());
    assert("server"@.len() != "wireguard"@.len());
    assert("server"@.len() != "transport"@.len());
}

/// Whether a URL is one that a tunnel can be opened to: `ws` or `wss`, a host that is no IPv6 address,
/// a port that is not zero, and nothing else.
pub open spec fn is_server(u: UrlView) -> bool {
    &&& u.scheme == "ws"@ || u.scheme == "wss"@
    &&& u.host is Some && !u.ipv6
    &&& u.known_port is Some && u.known_port != Some(0u16)
    &&& u.username == Seq::<char>::empty() && u.password is None
    &&& u.query is None && u.fragment is None
    &&& u.path == ""@ || u.path == "/"@
}

/// Whether a URL is made of a host and a port that is not zero alone.
pub open spec fn is_destination(u: UrlView) -> bool {
    &&& u.host is Some
    &&& u.port is Some && u.port != Some(0u16)
    &&& u.username == Seq::<char>::empty() && u.password is None
    &&& u.path == Seq::<char>::empty() && u.query is None && u.fragment is None
}

/// Whether a text is made of ASCII letters, digits and underscores, and of hyphens where they are
/// allowed.
pub open spec fn is_word(s: Seq<char>, hyphens: bool) -> bool {
    forall|i: int|
        0 <= i < s.len() ==> {
            ||| 'a' <= #[trigger] s[i] <= 'z'
            ||| 'A' <= s[i] <= 'Z'
            ||| '0' <= s[i] <= '9'
            ||| s[i] == '_'
            ||| hyphens && s[i] == '-'
        }
}

/// Which configurations are accepted: exactly those with a server that a tunnel can be opened to, a
/// destination of host and port, a port of this machine to listen on, a prefix of 1 to 256 letters,
/// digits, hyphens and underscores, reports that are off or come every 5 to 3600 seconds, and, where
/// WireGuard is managed, a name of 1 to 15 letters, digits and underscores and an MTU between 1280
/// and 1420.
pub proof fn accepted_configurations(
    c: ConfigView,
    server: Result<UrlView, UrlFault>,
    remote: Result<UrlView, UrlFault>,
)
    ensures
        fault(c, server, remote) is None <==> {
            &&& server matches Ok(u) && is_server(u)
            &&& remote matches Ok(u) && is_destination(u)
            &&& c.listen.ip == IpAddr::V4(Ipv4Addr { a: 127, b: 0, c: 0, d: 1 })
            &&& c.listen.port != 0
            &&& 1 <= c.path_prefix.len() <= 256 && is_word(c.path_prefix, true)
            &&& c.transport.diagnostics_interval_secs == 0 || (5
                <= c.transport.diagnostics_interval_secs <= 3600)
            &&& c.wireguard matches Some(w) ==> 1 <= w.name.len() <= 15 && is_word(w.name, false)
                && 1280 <= w.mtu <= 1420
        },
{
    assert(is_word(c.path_prefix, true) <==> forall|i: int|
        0 <= i < c.path_prefix.len() ==> prefix_char(#[trigger] c.path_prefix[i]));
    if let Some(w) = c.wireguard {
        assert(is_word(w.name, false) <==> forall|i: int|
            0 <= i < w.name.len() ==> name_char(#[trigger] w.name[i]));
    }
    if let Ok(u) = server {
        assert(u.username.len() == 0 ==> u.username =~= Seq::<char>::empty());
    }
    if let Ok(u) = remote {
        assert(u.username.len() == 0 ==> u.username =~= Seq::<char>::empty());
        assert(u.path.len() == 0 ==> u.path =~= Seq::<char>::empty());
    }
}

/// A reason that is told for a refusal is one that holds.
pub proof fn refusals_have_their_reason(
    c: ConfigView,
    server: Result<UrlView, UrlFault>,
    remote: Result<UrlView, UrlFault>,
)
    ensures
        match fault(c, server, remote) {
            Some(ConfigError::Diagnostics) => {
                let secs = c.transport.diagnostics_interval_secs;
                1 <= secs < 5 || secs > 3600
            },
            Some(ConfigError::ServerUrl) => server is Err,
            Some(ConfigError::Scheme) => server matches Ok(u) && (u.host is None || (u.scheme
                != "ws"@ && u.scheme != "wss"@)),
            Some(ConfigError::ServerPort) => server matches Ok(u) && (u.known_port is None
                || u.known_port == Some(0u16)),
            Some(ConfigError::Ipv6Server) => server matches Ok(u) && u.ipv6,
            Some(ConfigError::Listen) => c.listen.port == 0 || c.listen.ip != IpAddr::V4(
                Ipv4Addr { a: 127, b: 0, c: 0, d: 1 },
            ),
            Some(ConfigError::RemoteUrl(e)) => remote == Err::<UrlView, _>(e),
            Some(ConfigError::RemoteHost) => remote matches Ok(u) && u.host is None,
            Some(ConfigError::RemotePort) => remote matches Ok(u) && u.port is None,
            Some(ConfigError::RemotePortZero) => remote matches Ok(u) && u.port == Some(0u16),
            Some(ConfigError::Mtu) => c.wireguard matches Some(w) && (w.mtu < 1280 || w.mtu > 1420),
            Some(ConfigError::Name) => c.wireguard is Some,
            Some(ConfigError::Toml) => false,
            _ => true,
        },
{
}

/// The destination is the host and the port that are written.
pub proof fn destinations_are_what_is_written(u: UrlView)
    ensures
        destination_of(Ok(u)) is Ok <==> is_destination(u),
        destination_of(Ok(u)) matches Ok((host, port)) ==> u.host == Some(host) && u.port == Some(
            port,
        ),
        forall|e: UrlFault| #[trigger]
            destination_of(Err(e)) == Err::<(Seq<char>, u16), _>(ConfigError::RemoteUrl(e)),
{
    assert(u.username.len() == 0 ==> u.username =~= Seq::<char>::empty());
    assert(u.path.len() == 0 ==> u.path =~= Seq::<char>::empty());
}

/// What a table holds at a key.
pub open spec fn entry(m: Map<Seq<char>, TomlView>, key: Seq<char>) -> Option<TomlView> {
    if m.dom().contains(key) {
        Some(m[key])
    } else {
        None
    }
}

/// Whether a text is what a table holds at a key, or a default where it holds nothing there.
pub open spec fn gives_text(
    m: Map<Seq<char>, TomlView>,
    key: Seq<char>,
    default: Seq<char>,
    text: Seq<char>,
) -> bool {
    match entry(m, key) {
        Some(t) => t == TomlView::Text(text),
        None => text == default,
    }
}

/// Whether a text that may be absent is what a table holds at a key.
pub open spec fn gives_optional(
    m: Map<Seq<char>, TomlView>,
    key: Seq<char>,
    text: Option<Seq<char>>,
) -> bool {
    match entry(m, key) {
        Some(t) => text is Some && t == TomlView::Text(text->0),
        None => text is None,
    }
}

/// Whether a number is what a table holds at a key, or a default where it holds nothing there.
pub open spec fn gives_number(
    m: Map<Seq<char>, TomlView>,
    key: Seq<char>,
    default: int,
    n: int,
) -> bool {
    match entry(m, key) {
        Some(t) => t == TomlView::Integer(n),
        None => n == default,
    }
}

/// Whether a WireGuard interface is what a table holds: nothing else stands in it, and the path of
/// the configuration has to.
pub open spec fn gives_wireguard(m: Map<Seq<char>, TomlView>, w: WireGuardView) -> bool {
    &&& forall|k: Seq<char>| #[trigger]
        m.dom().contains(k) ==> k == "config"@ || k == "name"@ || k == "executable"@ || k == "mtu"@
    &&& entry(m, "config"@) == Some(TomlView::Text(w.config))
    &&& gives_text(m, "name"@, "xxtab0"@, w.name)
    &&& gives_optional(m, "executable"@, w.executable)
    &&& gives_number(m, "mtu"@, 1280, w.mtu as int)
}

/// Whether a mode is what a table holds in words.
pub open spec fn gives_mode(m: Map<Seq<char>, TomlView>, mode: LatencyMode) -> bool {
    match entry(m, "latency_mode"@) {
        Some(t) => names(
            t,
            match mode {
                LatencyMode::Balanced => "balanced"@,
                LatencyMode::Interactive => "interactive"@,
            },
        ),
        None => mode == LatencyMode::Balanced,
    }
}

/// Whether a transport is what a table holds: nothing else stands in it.
pub open spec fn gives_transport(m: Map<Seq<char>, TomlView>, x: Transport) -> bool {
    &&& forall|k: Seq<char>| #[trigger]
        m.dom().contains(k) ==> k == "latency_mode"@ || k == "diagnostics_interval_secs"@
    &&& gives_mode(m, x.latency_mode)
    &&& gives_number(m, "diagnostics_interval_secs"@, 15, x.diagnostics_interval_secs as int)
}

/// Whether a configuration is what a table holds, with its groups as tables: nothing else stands in
/// it, the server has to, and every other field has its default where it does not.
pub open spec fn gives(m: Map<Seq<char>, TomlView>, c: ConfigView) -> bool {
    &&& forall|k: Seq<char>| #[trigger]
        m.dom().contains(k) ==> k == "server"@ || k == "server_ip"@ || k == "path_prefix"@ || k
            == "remote"@ || k == "listen"@ || k == "ca_file"@ || k == "wireguard"@ || k
            == "transport"@
    &&& entry(m, "server"@) == Some(TomlView::Text(c.server))
    &&& gives_text(m, "path_prefix"@, "v1"@, c.path_prefix)
    &&& gives_text(m, "remote"@, "127.0.0.1:7007"@, c.remote)
    &&& gives_optional(m, "ca_file"@, c.ca_file)
    &&& match entry(m, "server_ip"@) {
        Some(TomlView::Text(s)) => c.server_ip is Some && ipv4(s) == c.server_ip,
        Some(_) => false,
        None => c.server_ip is None,
    }
    &&& match entry(m, "listen"@) {
        Some(TomlView::Text(s)) => socket(s) == Some(c.listen),
        Some(_) => false,
        None => c.listen == (SocketAddr {
            ip: IpAddr::V4(Ipv4Addr { a: 127, b: 0, c: 0, d: 1 }),
            scope: 0,
            port: 51820,
        }),
    }
    &&& match entry(m, "wireguard"@) {
        Some(TomlView::Table(w)) => c.wireguard is Some && gives_wireguard(w, c.wireguard->0),
        Some(_) => false,
        None => c.wireguard is None,
    }
    &&& match entry(m, "transport"@) {
        Some(TomlView::Table(x)) => gives_transport(x, c.transport),
        Some(_) => false,
        None => c.transport == (Transport {
            latency_mode: LatencyMode::Balanced,
            diagnostics_interval_secs: 15,
        }),
    }
}

/// A document with its groups as tables is read as just the configuration that it holds, and where
/// it holds none it is refused.
pub proof fn documents_are_read_as_they_hold(m: Map<Seq<char>, TomlView>, c: ConfigView)
    requires
        !(entry(m, "wireguard"@) matches Some(TomlView::List(_))),
        !(entry(m, "transport"@) matches Some(TomlView::List(_))),
    ensures
        decoded(TomlView::Table(m)) == Some(c) <==> gives(m, c),
{
    reveal_strlit("balanced");
    reveal_strlit("interactive");
    assert("balanced"@.len() != "interactive"@.len());
    let t = TomlView::Table(m);
    lemma_known_fields(m, Group::Tunnel);
    if entry(m, "wireguard"@) is Some {
        lemma_wireguard_is_read(m["wireguard"@], c.wireguard);
    }
    if entry(m, "transport"@) is Some {
        lemma_transport_is_read(m["transport"@], c.transport);
    }
    if gives(m, c) {
        assert(decoded(t) =~= Some(c));
    }
}

proof fn lemma_known_fields(m: Map<Seq<char>, TomlView>, group: Group)
    ensures
        grouped(TomlView::Table(m), group) <==> forall|k: Seq<char>| #[trigger]
            m.dom().contains(k) ==> has_field(group, k),
{
    if grouped(TomlView::Table(m), group) {
        assert forall|k: Seq<char>| #[trigger] m.dom().contains(k) implies has_field(group, k) by {}
    }
}

proof fn lemma_wireguard_is_read(t: TomlView, w: Option<WireGuardView>)
    requires
        !(t is List),
    ensures
        wireguard_field(Some(t)) == Some(w) <==> (t matches TomlView::Table(m) && w is Some
            && gives_wireguard(m, w->0)),
{
    if let TomlView::Table(m) = t {
        lemma_known_fields(m, Group::WireGuard);
        if w is Some && gives_wireguard(m, w->0) {
            assert(wireguard_field(Some(t)) =~= Some(w));
        }
        if wireguard_field(Some(t)) is Some {
            let own = wireguard_field(Some(t))->0->0;
            assert(gives_wireguard(m, own));
        }
    }
}

proof fn lemma_transport_is_read(t: TomlView, x: Transport)
    requires
        !(t is List),
    ensures
        transport_field(Some(t)) == Some(x) <==> (t matches TomlView::Table(m) && gives_transport(
            m,
            x,
        )),
{
    reveal_strlit("balanced");
    reveal_strlit("interactive");
    assert("balanced"@.len() != "interactive"@.len());
    if let TomlView::Table(m) = t {
        lemma_known_fields(m, Group::Transport);
        if entry(m, "latency_mode"@) is Some {
            let y = m["latency_mode"@];
            if let TomlView::Table(n) = y {
                assert(names(y, "balanced"@) && names(y, "interactive"@) ==> false) by {
                    if names(y, "balanced"@) && names(y, "interactive"@) {
                        assert(set!["balanced"@].contains("balanced"@));
                        assert(n.dom().contains("balanced"@));
                        assert(set!["interactive"@].contains("balanced"@));
                    }
                }
            }
        }
    }
}

/// In a list the fields of a group stand in the order of their declaration.
pub proof fn lists_give_the_fields_in_order(v: Seq<TomlView>, w: Seq<TomlView>)
    ensures
        transport_field(Some(TomlView::List(v))) matches Some(x) ==> {
            &&& v.len() > 0 ==> names(
                v[0],
                match x.latency_mode {
                    LatencyMode::Balanced => "balanced"@,
                    LatencyMode::Interactive => "interactive"@,
                },
            )
            &&& v.len() > 1 ==> v[1] == TomlView::Integer(x.diagnostics_interval_secs as int)
            &&& v.len() == 0 ==> x.latency_mode == LatencyMode::Balanced
            &&& v.len() <= 1 ==> x.diagnostics_interval_secs == 15
        },
        wireguard_field(Some(TomlView::List(w))) matches Some(own) ==> {
            &&& w.len() >= 3 && own is Some
            &&& w[0] == TomlView::Text(own->0.config)
            &&& w[1] == TomlView::Text(own->0.name)
            &&& own->0.executable is Some && w[2] == TomlView::Text(own->0.executable->0)
            &&& w.len() > 3 ==> w[3] == TomlView::Integer(own->0.mtu as int)
            &&& w.len() == 3 ==> own->0.mtu == 1280
        },
{
}

/// A mode is given by its name, or by a table of its name alone with nothing in it.
pub proof fn modes_are_named(s: Seq<char>, mode: Seq<char>, m: Map<Seq<char>, TomlView>)
    ensures
        names(TomlView::Text(s), mode) <==> s == mode,
        names(TomlView::Table(m), mode) <==> (forall|k: Seq<char>| #[trigger]
            m.dom().contains(k) <==> k == mode) && (match m[mode] {
            TomlView::Table(inner) => forall|k: Seq<char>| !#[trigger] inner.dom().contains(k),
            TomlView::List(v) => v.len() == 0,
            _ => false,
        }),
{
    assert(m.dom() =~= set![mode] <==> forall|k: Seq<char>| #[trigger]
        m.dom().contains(k) <==> k == mode) by {
        if m.dom() =~= set![mode] {
            assert forall|k: Seq<char>| #[trigger] m.dom().contains(k) <==> k == mode by {
                assert(set![mode].contains(k) <==> k == mode);
            }
        }
    }
    if let TomlView::Table(inner) = m[mode] {
        assert(inner.dom() =~= Set::<Seq<char>>::empty() <==> forall|k: Seq<char>|
            !#[trigger] inner.dom().contains(k));
    }
}

/// What a file gives: the configuration of its document, with the two paths of files taken from the
/// directory of the file and everything else as it stands, where that is accepted.
pub proof fn files_give_their_configuration(t: TomlView, path: Seq<char>)
    ensures
        ({
            let base = match path_parent(path) {
                Some(d) => d,
                None => "."@,
            };
            match taken(Some(t), path) {
                Ok(c) => decoded(t) matches Some(d) && {
                    &&& config_fault(c) is None
                    &&& c == (ConfigView { ca_file: c.ca_file, wireguard: c.wireguard, ..d })
                    &&& c.ca_file is Some <==> d.ca_file is Some
                    &&& d.ca_file is Some ==> c.ca_file == Some(path_join(base, d.ca_file->0))
                    &&& c.wireguard is Some <==> d.wireguard is Some
                    &&& d.wireguard is Some ==> c.wireguard == Some(
                        WireGuardView {
                            config: path_join(base, d.wireguard->0.config),
                            ..d.wireguard->0
                        },
                    )
                },
                Err(e) => {
                    &&& decoded(t) is None ==> e == ConfigError::Toml
                    &&& decoded(t) is Some ==> config_fault(placed(decoded(t)->0, base)) == Some(e)
                },
            }
        }),
        taken(None, path) == Err::<ConfigView, _>(ConfigError::Toml),
{
}

/// What is asked of the two URLs of a configuration is asked of its own.
pub proof fn configurations_are_judged_by_their_urls(c: ConfigView)
    ensures
        config_fault(c) == fault(c, url_of(c.server), url_of("udp://"@ + c.remote)),
{
}

} // verus!
