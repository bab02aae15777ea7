//! The WireGuard configuration that the tunnel runs with, made from the user's own.
//!
//! Only portable settings are read. Hooks are deliberately not executed.
use crate::accepted::{carries, settings_of_the_user_are_carried};
use crate::net::{
    ip_text, is_ip, localhost_addr, socket_string, socket_to_text, IpAddr, Ipv4Addr, SocketAddr,
};
use crate::numbers::{
    decimal, number_of, number_refusal, push_decimal, read_number, NumberFault,
};
use crate::outside::{base64_bytes, canonical, decode_base64, network, truncated_network};
use crate::pieces::{
    find, index_of, join, join_texts, lacks, lemma_lines_lack_breaks, lines, lines_of, split,
    split_at_each, split_first, split_once, texts, trim, trimmed, views,
};
use crate::prepared::{
    faithful, lemma_faithful_setting, lemma_setting_is_plain, prepared_text_is_stable,
    prepared_values_are_set_once, sets_once,
};
use crate::text::{chars_of, same, spells, text_of};
use vstd::prelude::*;
use vstd::slice::slice_subrange;

verus! {

/// Where in the configuration a line stands.
#[derive(Clone, Copy, PartialEq, Eq, Structural, Debug)]
pub enum Section {
    Start,
    Interface,
    Peer,
}

/// What a setting means to the tunnel.
#[derive(Clone, Copy, PartialEq, Eq, Structural, Debug)]
pub enum Field {
    /// A 32-byte key in Base64.
    Key,
    /// The networks of the interface.
    Addresses,
    /// The networks that are routed to the peer.
    Routes,
    /// The port that WireGuard sends from.
    ListenPort,
    /// Addresses of name servers.
    Dns,
    /// Accepted, and replaced by a value of the tunnel's own.
    Replaced,
    /// Not portable.
    Unsupported,
}

/// Why a configuration is refused.
#[derive(Clone, Copy, PartialEq, Eq, Structural, Debug)]
pub enum WgErrorKind {
    Sections,
    Setting,
    EmptyOrRepeated,
    Key,
    Network,
    ListenPort(NumberFault),
    Dns,
    Unsupported,
    NoPeer,
    Missing,
    SamePort,
}

/// A refusal, with the name of the setting that it is about.
#[derive(Debug)]
pub struct WgError {
    pub kind: WgErrorKind,
    pub key: String,
}

impl View for WgError {
    type V = (WgErrorKind, Seq<char>);

    open spec fn view(&self) -> (WgErrorKind, Seq<char>) {
        (self.kind, self.key@)
    }
}

/// The words in which a refusal is told.
pub open spec fn refusal(e: (WgErrorKind, Seq<char>)) -> Seq<char> {
    match e.0 {
        WgErrorKind::Sections => "expected one [Interface] followed by exactly one [Peer]"@,
        WgErrorKind::Setting => "invalid WireGuard setting"@,
        WgErrorKind::EmptyOrRepeated => "empty or repeated WireGuard field: "@ + e.1,
        WgErrorKind::Key => "invalid 32-byte key in "@ + e.1,
        WgErrorKind::Network => "invalid network in "@ + e.1 + ": invalid IP address syntax"@,
        WgErrorKind::ListenPort(fault) => "invalid ListenPort: "@ + number_refusal(fault),
        WgErrorKind::Dns => "DNS must contain IP addresses: invalid IP address syntax"@,
        WgErrorKind::Unsupported => "unsupported WireGuard field "@ + e.1
            + "; hooks, SaveConfig and custom tables are unsupported"@,
        WgErrorKind::NoPeer => "exactly one WireGuard peer is required"@,
        WgErrorKind::Missing => "missing WireGuard field "@ + e.1,
        WgErrorKind::SamePort => "WireGuard ListenPort must differ from relay listen port"@,
    }
}

impl WgError {
    fn new(kind: WgErrorKind, key: &[char]) -> (r: Self)
        ensures
            r@ == (kind, key@),
    {
        WgError { kind, key: text_of(key) }
    }

    fn plain(kind: WgErrorKind) -> (r: Self)
        ensures
            r@ == (kind, Seq::<char>::empty()),
    {
        WgError { kind, key: String::new() }
    }

    /// The refusal in words.
    pub fn message(&self) -> (r: String)
        ensures
            r@ == refusal(self@),
    {
        let mut out = String::new();
        match self.kind {
            WgErrorKind::Sections => out.append(
                "expected one [Interface] followed by exactly one [Peer]",
            ),
            WgErrorKind::Setting => out.append("invalid WireGuard setting"),
            WgErrorKind::EmptyOrRepeated => {
                out.append("empty or repeated WireGuard field: ");
                out.append(self.key.as_str());
            },
            WgErrorKind::Key => {
                out.append("invalid 32-byte key in ");
                out.append(self.key.as_str());
            },
            WgErrorKind::Network => {
                out.append("invalid network in ");
                out.append(self.key.as_str());
                out.append(": invalid IP address syntax");
            },
            WgErrorKind::ListenPort(fault) => {
                out.append("invalid ListenPort: ");
                out.append(fault.message());
            },
            WgErrorKind::Dns => out.append(
                "DNS must contain IP addresses: invalid IP address syntax",
            ),
            WgErrorKind::Unsupported => {
                out.append("unsupported WireGuard field ");
                out.append(self.key.as_str());
                out.append("; hooks, SaveConfig and custom tables are unsupported");
            },
            WgErrorKind::NoPeer => out.append("exactly one WireGuard peer is required"),
            WgErrorKind::Missing => {
                out.append("missing WireGuard field ");
                out.append(self.key.as_str());
            },
            WgErrorKind::SamePort => out.append(
                "WireGuard ListenPort must differ from relay listen port",
            ),
        }
        assert(out@ =~= refusal(self@));
        out
    }
}

// ---------------------------------------------------------------- settings

/// What a setting of a section means.
pub open spec fn field_of(section: Section, key: Seq<char>) -> Field {
    match section {
        Section::Start => Field::Unsupported,
        Section::Interface => if key == "PrivateKey"@ {
            Field::Key
        } else if key == "Address"@ {
            Field::Addresses
        } else if key == "ListenPort"@ {
            Field::ListenPort
        } else if key == "DNS"@ {
            Field::Dns
        } else if key == "MTU"@ {
            Field::Replaced
        } else {
            Field::Unsupported
        },
        Section::Peer => if key == "PublicKey"@ || key == "PresharedKey"@ {
            Field::Key
        } else if key == "AllowedIPs"@ {
            Field::Routes
        } else if key == "Endpoint"@ || key == "PersistentKeepalive"@ {
            Field::Replaced
        } else {
            Field::Unsupported
        },
    }
}

fn classify(section: Section, key: &[char]) -> (r: Field)
    ensures
        r == field_of(section, key@),
{
    match section {
        Section::Start => Field::Unsupported,
        Section::Interface => if spells(key, "PrivateKey") {
            Field::Key
        } else if spells(key, "Address") {
            Field::Addresses
        } else if spells(key, "ListenPort") {
            Field::ListenPort
        } else if spells(key, "DNS") {
            Field::Dns
        } else if spells(key, "MTU") {
            Field::Replaced
        } else {
            Field::Unsupported
        },
        Section::Peer => if spells(key, "PublicKey") || spells(key, "PresharedKey") {
            Field::Key
        } else if spells(key, "AllowedIPs") {
            Field::Routes
        } else if spells(key, "Endpoint") || spells(key, "PersistentKeepalive") {
            Field::Replaced
        } else {
            Field::Unsupported
        },
    }
}

/// What decoding and parsing found out about a value.
pub enum Found {
    Nothing,
    /// The decoded bytes of a key.
    Key(Option<Vec<u8>>),
    /// The canonical texts of the listed networks, where all of them are networks.
    Networks(Option<Vec<String>>),
}

/// `Found` over mathematical values.
pub enum FoundView {
    Nothing,
    Key(Option<Seq<u8>>),
    Networks(Option<Seq<Seq<char>>>),
}

impl View for Found {
    type V = FoundView;

    open spec fn view(&self) -> FoundView {
        match self {
            Found::Nothing => FoundView::Nothing,
            Found::Key(None) => FoundView::Key(None),
            Found::Key(Some(bytes)) => FoundView::Key(Some(bytes@)),
            Found::Networks(None) => FoundView::Networks(None),
            Found::Networks(Some(nets)) => FoundView::Networks(Some(texts(nets@))),
        }
    }
}

/// The canonical texts of pieces that are all networks.
pub open spec fn networks(pieces: Seq<Seq<char>>) -> Option<Seq<Seq<char>>> {
    if forall|i: int| 0 <= i < pieces.len() ==> network(trimmed(#[trigger] pieces[i])) is Some {
        Some(Seq::new(pieces.len(), |i: int| network(trimmed(pieces[i]))->0))
    } else {
        None
    }
}

/// What there is to find out about a value.
pub open spec fn examined(field: Field, value: Seq<char>) -> FoundView {
    match field {
        Field::Key => FoundView::Key(base64_bytes(value)),
        Field::Addresses | Field::Routes => FoundView::Networks(
            networks(split_at_each(value, ',')),
        ),
        _ => FoundView::Nothing,
    }
}

/// Whether each route of a canonical network is one as well.
pub open spec fn routable(net: Seq<char>) -> bool {
    forall|i: int| 0 <= i < halves(net).len() ==> canonical(#[trigger] halves(net)[i])
}

/// Whether each route of the networks that were found is a canonical network.
pub open spec fn found_routable(found: FoundView) -> bool {
    found matches FoundView::Networks(Some(nets)) ==> forall|i: int|
        0 <= i < nets.len() ==> routable(#[trigger] nets[i])
}

fn examine(field: Field, value: &[char]) -> (r: Found)
    ensures
        r@ == examined(field, value@),
        found_routable(r@),
{
    match field {
        Field::Key => {
            let text = text_of(value);
            Found::Key(decode_base64(text.as_str()))
        },
        Field::Addresses | Field::Routes => {
            let pieces = split(value, ',');
            let ghost all = split_at_each(value@, ',');
            let mut nets: Vec<String> = Vec::new();
            for i in 0..pieces.len()
                invariant
                    all == views(pieces@),
                    all == split_at_each(value@, ','),
                    field is Addresses || field is Routes,
                    nets.len() == i,
                    forall|j: int| 0 <= j < i ==> routable(#[trigger] texts(nets@)[j]),
                    forall|j: int| 0 <= j < i ==> network(trimmed(#[trigger] all[j])) == Some(nets@[j]@),
            {
                let piece = text_of(trim(pieces[i]));
                assert(all[i as int] == pieces@[i as int]@);
                match truncated_network(piece.as_str()) {
                    Some(net) => {
                        let ghost before = texts(nets@);
                        assert(routable(net@));
                        nets.push(net);
                        assert(texts(nets@) =~= before.push(net@));
                    },
                    None => {
                        assert(network(trimmed(all[i as int])) is None);
                        return Found::Networks(None);
                    },
                }
            }
            assert(texts(nets@) =~= Seq::new(all.len(), |i: int| network(trimmed(all[i]))->0));
            Found::Networks(Some(nets))
        },
        _ => Found::Nothing,
    }
}

/// The networks that a canonical network is routed as. On Windows a `/0` route turns on a
/// firewall that blocks the outer connection; its two halves route the same traffic without it.
pub open spec fn halves(net: Seq<char>) -> Seq<Seq<char>> {
    if net == "0.0.0.0/0"@ {
        seq!["0.0.0.0/1"@, "128.0.0.0/1"@]
    } else if net == "::/0"@ {
        seq!["::/1"@, "8000::/1"@]
    } else {
        seq![net]
    }
}

/// The routes of a list of canonical networks.
pub open spec fn routes(nets: Seq<Seq<char>>) -> Seq<Seq<char>>
    decreases nets.len(),
{
    if nets.len() == 0 {
        seq![]
    } else {
        routes(nets.drop_last()) + halves(nets.last())
    }
}

fn push_halves(out: &mut Vec<String>, net: &String)
    ensures
        texts(final(out)@) == texts(old(out)@) + halves(net@),
{
    let ghost before = texts(out@);
    if same(net.as_str(), "0.0.0.0/0") {
        out.push("0.0.0.0/1".to_owned());
        out.push("128.0.0.0/1".to_owned());
    } else if same(net.as_str(), "::/0") {
        out.push("::/1".to_owned());
        out.push("8000::/1".to_owned());
    } else {
        out.push(net.clone());
    }
    assert(texts(out@) =~= before + halves(net@));
}

/// The routes of canonical networks, with every default route in two halves.
pub fn split_default_routes(nets: &Vec<String>) -> (r: Vec<String>)
    ensures
        texts(r@) == routes(texts(nets@)),
{
    let mut out: Vec<String> = Vec::new();
    let ghost all = texts(nets@);
    assert(texts(out@) =~= routes(all.take(0)));
    for i in 0..nets.len()
        invariant
            all == texts(nets@),
            texts(out@) == routes(all.take(i as int)),
    {
        push_halves(&mut out, &nets[i]);
        assert(all.take(i + 1).drop_last() == all.take(i as int));
    }
    assert(all.take(all.len() as int) == all);
    out
}

/// Whether every piece of a comma-separated list is an address.
pub open spec fn all_addresses(value: Seq<char>) -> bool {
    let p = split_at_each(value, ',');
    forall|i: int| 0 <= i < p.len() ==> ip_text(trimmed(#[trigger] p[i]))
}

fn lists_addresses(value: &[char]) -> (r: bool)
    ensures
        r == all_addresses(value@),
{
    let p = split(value, ',');
    let ghost all = split_at_each(value@, ',');
    for i in 0..p.len()
        invariant
            all == views(p@),
            all == split_at_each(value@, ','),
            forall|j: int| 0 <= j < i ==> ip_text(trimmed(#[trigger] all[j])),
    {
        assert(all[i as int] == p@[i as int]@);
        if !is_ip(trim(p[i])) {
            assert(!ip_text(trimmed(all[i as int])));
            return false;
        }
    }
    true
}

// ---------------------------------------------------------------- reading

/// What has been read of a configuration.
pub struct Settings {
    pub section: Section,
    pub seen: Vec<(Section, String)>,
    pub interface: Vec<String>,
    pub peer: Vec<String>,
    pub port: u16,
}

/// `Settings` over mathematical values.
#[verifier::ext_equal]
pub struct SettingsView {
    pub section: Section,
    pub seen: Seq<(Section, Seq<char>)>,
    pub interface: Seq<Seq<char>>,
    pub peer: Seq<Seq<char>>,
    pub port: u16,
}

pub open spec fn seen_view(v: Seq<(Section, String)>) -> Seq<(Section, Seq<char>)> {
    Seq::new(v.len(), |i: int| (v[i].0, v[i].1@))
}

impl View for Settings {
    type V = SettingsView;

    open spec fn view(&self) -> SettingsView {
        SettingsView {
            section: self.section,
            seen: seen_view(self.seen@),
            interface: texts(self.interface@),
            peer: texts(self.peer@),
            port: self.port,
        }
    }
}

/// Nothing read yet.
pub open spec fn no_settings() -> SettingsView {
    SettingsView {
        section: Section::Start,
        seen: seq![],
        interface: seq![],
        peer: seq![],
        port: 0,
    }
}

/// A setting as it is written out.
pub open spec fn written(key: Seq<char>, value: Seq<char>) -> Seq<char> {
    key + " = "@ + value
}

/// The settings with one more line to write out.
pub open spec fn with_line(v: SettingsView, line: Seq<char>) -> SettingsView {
    if v.section == Section::Interface {
        SettingsView { interface: v.interface.push(line), ..v }
    } else {
        SettingsView { peer: v.peer.push(line), ..v }
    }
}

/// The settings with one more name that was set.
pub open spec fn noted(v: SettingsView, key: Seq<char>) -> SettingsView {
    SettingsView { seen: v.seen.push((v.section, key)), ..v }
}

/// The settings after a line `key = value`, given what was found out about the value.
pub open spec fn after_setting(
    v: SettingsView,
    key: Seq<char>,
    value: Seq<char>,
    found: FoundView,
) -> Result<SettingsView, (WgErrorKind, Seq<char>)> {
    let noted = noted(v, key);
    if value.len() == 0 || v.seen.contains((v.section, key)) {
        Err((WgErrorKind::EmptyOrRepeated, key))
    } else {
        match field_of(v.section, key) {
            Field::Key => match found {
                FoundView::Key(Some(bytes)) if bytes.len() == 32 => Ok(
                    with_line(noted, written(key, value)),
                ),
                _ => Err((WgErrorKind::Key, key)),
            },
            Field::Addresses => match found {
                FoundView::Networks(Some(_)) => Ok(with_line(noted, written(key, value))),
                _ => Err((WgErrorKind::Network, key)),
            },
            Field::Routes => match found {
                FoundView::Networks(Some(nets)) => Ok(
                    with_line(noted, written(key, join(routes(nets), ", "@))),
                ),
                _ => Err((WgErrorKind::Network, key)),
            },
            Field::ListenPort => match number_of(value, 0xffff) {
                Ok(port) => Ok(SettingsView { port: port as u16, ..noted }),
                Err(fault) => Err((WgErrorKind::ListenPort(fault), seq![])),
            },
            Field::Dns => if all_addresses(value) {
                Ok(with_line(noted, written(key, value)))
            } else {
                Err((WgErrorKind::Dns, seq![]))
            },
            Field::Replaced => Ok(noted),
            Field::Unsupported => Err((WgErrorKind::Unsupported, key)),
        }
    }
}

/// A line without its comment and the white space around it.
pub open spec fn content(raw: Seq<char>) -> Seq<char> {
    trimmed(raw.take(index_of(raw, '#')))
}

/// The settings after one more line.
pub open spec fn after_line(v: SettingsView, raw: Seq<char>) -> Result<
    SettingsView,
    (WgErrorKind, Seq<char>),
> {
    let line = content(raw);
    if line.len() == 0 {
        Ok(v)
    } else if line[0] == '[' {
        if line == "[Interface]"@ && v.section == Section::Start {
            Ok(SettingsView { section: Section::Interface, ..v })
        } else if line == "[Peer]"@ && v.section == Section::Interface {
            Ok(SettingsView { section: Section::Peer, ..v })
        } else {
            Err((WgErrorKind::Sections, seq![]))
        }
    } else {
        match split_first(line, '=') {
            None => Err((WgErrorKind::Setting, seq![])),
            Some((key, value)) => after_setting(
                v,
                trimmed(key),
                trimmed(value),
                examined(field_of(v.section, trimmed(key)), trimmed(value)),
            ),
        }
    }
}

/// The settings after all of the lines, or the first refusal.
pub open spec fn after_lines(v: SettingsView, all: Seq<Seq<char>>) -> Result<
    SettingsView,
    (WgErrorKind, Seq<char>),
>
    decreases all.len(),
{
    if all.len() == 0 {
        Ok(v)
    } else {
        match after_line(v, all[0]) {
            Ok(next) => after_lines(next, all.skip(1)),
            Err(e) => Err(e),
        }
    }
}

/// The settings that a configuration must hold, in the order in which they are asked for.
pub open spec fn missing(v: SettingsView) -> Option<Seq<char>> {
    if !v.seen.contains((Section::Interface, "PrivateKey"@)) {
        Some("Interface.PrivateKey"@)
    } else if !v.seen.contains((Section::Interface, "Address"@)) {
        Some("Interface.Address"@)
    } else if !v.seen.contains((Section::Peer, "PublicKey"@)) {
        Some("Peer.PublicKey"@)
    } else if !v.seen.contains((Section::Peer, "AllowedIPs"@)) {
        Some("Peer.AllowedIPs"@)
    } else {
        None
    }
}

/// The settings that a whole configuration stands for.
pub open spec fn understood(input: Seq<char>) -> Result<SettingsView, (WgErrorKind, Seq<char>)> {
    match after_lines(no_settings(), lines(input)) {
        Err(e) => Err(e),
        Ok(v) => if v.section != Section::Peer {
            Err((WgErrorKind::NoPeer, seq![]))
        } else {
            match missing(v) {
                Some(key) => Err((WgErrorKind::Missing, key)),
                None => Ok(v),
            }
        },
    }
}

fn written_line(key: &[char], value: &str) -> (r: String)
    ensures
        r@ == written(key@, value@),
{
    let mut out = text_of(key);
    out.append(" = ");
    out.append(value);
    out
}

impl Settings {
    /// Nothing read yet.
    pub fn new() -> (r: Self)
        ensures
            r@ == no_settings(),
    {
        let r = Settings {
            section: Section::Start,
            seen: Vec::new(),
            interface: Vec::new(),
            peer: Vec::new(),
            port: 0,
        };
        assert(r@ =~= no_settings());
        r
    }

    fn has_seen(&self, section: Section, key: &[char]) -> (r: bool)
        ensures
            r == self@.seen.contains((section, key@)),
    {
        for i in 0..self.seen.len()
            invariant
                forall|j: int| 0 <= j < i ==> #[trigger] self@.seen[j] != (section, key@),
        {
            assert(self@.seen[i as int] == (self.seen@[i as int].0, self.seen@[i as int].1@));
            if self.seen[i].0 == section && spells(key, self.seen[i].1.as_str()) {
                return true;
            }
        }
        false
    }

    fn add_line(&mut self, line: String)
        ensures
            final(self)@ == with_line(old(self)@, line@),
    {
        if self.section == Section::Interface {
            self.interface.push(line);
            assert(texts(self.interface@) =~= texts(old(self).interface@).push(line@));
        } else {
            self.peer.push(line);
            assert(texts(self.peer@) =~= texts(old(self).peer@).push(line@));
        }
        assert(self@ =~= with_line(old(self)@, line@));
    }

    /// Takes in a line `key = value`, given what was found out about the value.
    pub fn set(&mut self, key: &[char], value: &[char], found: Found) -> (r: Result<(), WgError>)
        ensures
            match r {
                Ok(_) => after_setting(old(self)@, key@, value@, found@) == Ok::<
                    SettingsView,
                    (WgErrorKind, Seq<char>),
                >(final(self)@),
                Err(e) => after_setting(old(self)@, key@, value@, found@) == Err::<
                    SettingsView,
                    (WgErrorKind, Seq<char>),
                >(e@) && final(self)@ == old(self)@,
            },
    {
        if value.len() == 0 || self.has_seen(self.section, key) {
            return Err(WgError::new(WgErrorKind::EmptyOrRepeated, key));
        }
        let text = text_of(value);
        let mut port: u16 = self.port;
        let line: Option<String> = match classify(self.section, key) {
            Field::Key => match found {
                Found::Key(Some(bytes)) => if bytes.len() == 32 {
                    Some(written_line(key, text.as_str()))
                } else {
                    return Err(WgError::new(WgErrorKind::Key, key));
                },
                _ => return Err(WgError::new(WgErrorKind::Key, key)),
            },
            Field::Addresses => match found {
                Found::Networks(Some(_)) => Some(written_line(key, text.as_str())),
                _ => return Err(WgError::new(WgErrorKind::Network, key)),
            },
            Field::Routes => match found {
                Found::Networks(Some(nets)) => {
                    let own = join_texts(&split_default_routes(&nets), ", ");
                    Some(written_line(key, own.as_str()))
                },
                _ => return Err(WgError::new(WgErrorKind::Network, key)),
            },
            Field::ListenPort => match read_number(value, 0xffff) {
                Ok(own) => {
                    port = own as u16;
                    None
                },
                Err(fault) => return Err(WgError::plain(WgErrorKind::ListenPort(fault))),
            },
            Field::Dns => if lists_addresses(value) {
                Some(written_line(key, text.as_str()))
            } else {
                return Err(WgError::plain(WgErrorKind::Dns));
            },
            Field::Replaced => None,
            Field::Unsupported => return Err(WgError::new(WgErrorKind::Unsupported, key)),
        };
        let ghost start = self@;
        self.seen.push((self.section, text_of(key)));
        self.port = port;
        assert(self@ =~= SettingsView { seen: start.seen.push((start.section, key@)), port, ..start })
            by {
            assert(seen_view(self.seen@) =~= start.seen.push((start.section, key@)));
        }
        if let Some(line) = line {
            self.add_line(line);
        }
        Ok(())
    }

    /// Takes in one line of a configuration.
    pub fn read_line(&mut self, raw: &[char]) -> (r: Result<(), WgError>)
        ensures
            match r {
                Ok(_) => after_line(old(self)@, raw@) == Ok::<
                    SettingsView,
                    (WgErrorKind, Seq<char>),
                >(final(self)@),
                Err(e) => after_line(old(self)@, raw@) == Err::<
                    SettingsView,
                    (WgErrorKind, Seq<char>),
                >(e@) && final(self)@ == old(self)@,
            },
            faithful(old(self)@) && lacks(raw@, '\n') ==> faithful(final(self)@),
    {
        let head = slice_subrange(raw, 0, find(raw, '#'));
        assert(head@ == raw@.take(index_of(raw@, '#')));
        let line = trim(head);
        if line.len() == 0 {
            return Ok(());
        }
        if line[0] == '[' {
            if spells(line, "[Interface]") && self.section == Section::Start {
                self.section = Section::Interface;
                assert(self@ =~= SettingsView { section: Section::Interface, ..old(self)@ });
                Ok(())
            } else if spells(line, "[Peer]") && self.section == Section::Interface {
                self.section = Section::Peer;
                assert(self@ =~= SettingsView { section: Section::Peer, ..old(self)@ });
                Ok(())
            } else {
                Err(WgError::plain(WgErrorKind::Sections))
            }
        } else {
            match split_once(line, '=') {
                None => Err(WgError::plain(WgErrorKind::Setting)),
                Some((key, value)) => {
                    let key = trim(key);
                    let value = trim(value);
                    let found = examine(classify(self.section, key), value);
                    proof {
                        if faithful(self@) && lacks(raw@, '\n') {
                            lemma_setting_is_plain(raw@);
                            lemma_faithful_setting(self@, key@, value@, found@);
                        }
                    }
                    self.set(key, value, found)
                },
            }
        }
    }

    fn first_missing(&self) -> (r: Option<&'static str>)
        ensures
            match r {
                Some(key) => missing(self@) == Some(key@),
                None => missing(self@) is None,
            },
    {
        if !self.has_seen(Section::Interface, &chars_of("PrivateKey")) {
            Some("Interface.PrivateKey")
        } else if !self.has_seen(Section::Interface, &chars_of("Address")) {
            Some("Interface.Address")
        } else if !self.has_seen(Section::Peer, &chars_of("PublicKey")) {
            Some("Peer.PublicKey")
        } else if !self.has_seen(Section::Peer, &chars_of("AllowedIPs")) {
            Some("Peer.AllowedIPs")
        } else {
            None
        }
    }
}

/// Reads a whole configuration.
pub fn understand(input: &str) -> (r: Result<Settings, WgError>)
    ensures
        match r {
            Ok(s) => understood(input@) == Ok::<SettingsView, (WgErrorKind, Seq<char>)>(s@)
                && faithful(s@),
            Err(e) => understood(input@) == Err::<SettingsView, (WgErrorKind, Seq<char>)>(e@),
        },
{
    let chars = chars_of(input);
    let all = lines_of(&chars);
    let ghost every = lines(input@);
    let mut settings = Settings::new();
    proof {
        lemma_lines_lack_breaks(input@);
        assert(every.skip(0) == every);
    }
    for i in 0..all.len()
        invariant
            every == views(all@),
            every == lines(input@),
            forall|j: int| 0 <= j < every.len() ==> lacks(#[trigger] every[j], '\n'),
            faithful(settings@),
            after_lines(no_settings(), every) == after_lines(settings@, every.skip(i as int)),
    {
        assert(every.skip(i as int)[0] == all@[i as int]@);
        assert(every.skip(i as int).skip(1) == every.skip(i + 1));
        assert(lacks(every[i as int], '\n'));
        match settings.read_line(all[i]) {
            Ok(_) => {},
            Err(e) => return Err(e),
        }
    }
    if settings.section != Section::Peer {
        return Err(WgError::plain(WgErrorKind::NoPeer));
    }
    match settings.first_missing() {
        Some(key) => Err(WgError { kind: WgErrorKind::Missing, key: key.to_owned() }),
        None => Ok(settings),
    }
}

// ---------------------------------------------------------------- writing

/// A configuration that is ready to run, and the address that its WireGuard sends from.
#[derive(Debug)]
pub struct Prepared {
    pub text: String,
    pub source: SocketAddr,
}

/// What preparing a configuration leads to.
#[derive(Debug)]
pub enum Preparation {
    Ready(Prepared),
    /// The configuration names no port: the system has to offer one that differs from the
    /// relay's.
    NeedPort,
}

/// The text of a configuration.
pub open spec fn configuration(v: SettingsView, endpoint: SocketAddr, mtu: u16, port: u16) -> Seq<
    char,
> {
    "[Interface]\n"@ + join(v.interface, "\n"@) + "\nListenPort = "@ + decimal(port as nat)
        + "\nMTU = "@ + decimal(mtu as nat) + "\n\n[Peer]\n"@ + join(v.peer, "\n"@)
        + "\nEndpoint = "@ + socket_string(endpoint) + "\nPersistentKeepalive = 25\n"@
}

/// The port that WireGuard sends from: the configured one, else the offered one where it differs
/// from the relay's.
pub open spec fn source_port(v: SettingsView, endpoint: SocketAddr, offered: Option<u16>) -> Option<
    u16,
> {
    if v.port != 0 {
        Some(v.port)
    } else {
        match offered {
            Some(port) if port != endpoint.port => Some(port),
            _ => None,
        }
    }
}

/// Whether a text is a configuration that is prepared for a relay: read again it gives the same
/// text, and it sets what the relay decides once each.
pub open spec fn complete(text: Seq<char>, endpoint: SocketAddr, mtu: u16, port: u16) -> bool {
    &&& understood(text) matches Ok(v) && v.port == port && configuration(v, endpoint, mtu, port)
        == text
    &&& sets_once(lines(text), "ListenPort"@, decimal(port as nat))
    &&& sets_once(lines(text), "MTU"@, decimal(mtu as nat))
    &&& sets_once(lines(text), "Endpoint"@, socket_string(endpoint))
    &&& sets_once(lines(text), "PersistentKeepalive"@, "25"@)
}

/// The configuration that the tunnel runs with: the user's own, with the peer reached through the
/// relay at `endpoint`. `offered` is a port that the system offers, asked for with `NeedPort`.
pub fn prepare(input: &str, endpoint: SocketAddr, mtu: u16, offered: Option<u16>) -> (r: Result<
    Preparation,
    WgError,
>)
    ensures
        match understood(input@) {
            Err(e) => r matches Err(own) && own@ == e,
            Ok(v) => match source_port(v, endpoint, offered) {
                None => r == Ok::<Preparation, WgError>(Preparation::NeedPort),
                Some(port) => if port == endpoint.port {
                    r matches Err(own) && own@ == (WgErrorKind::SamePort, Seq::<char>::empty())
                } else {
                    r matches Ok(Preparation::Ready(p)) && p.text@ == configuration(
                        v,
                        endpoint,
                        mtu,
                        port,
                    ) && p.source == (SocketAddr {
                        ip: IpAddr::V4(localhost_addr()),
                        scope: 0,
                        port,
                    })
                },
            },
        },
        r matches Ok(Preparation::Ready(p)) ==> p.source.port != endpoint.port && complete(
            p.text@,
            endpoint,
            mtu,
            p.source.port,
        ) && carries(input@, p.text@),
{
    let settings = match understand(input) {
        Ok(settings) => settings,
        Err(e) => return Err(e),
    };
    let port: u16 = if settings.port != 0 {
        settings.port
    } else {
        match offered {
            Some(port) => if port != endpoint.port {
                port
            } else {
                return Ok(Preparation::NeedPort);
            },
            None => return Ok(Preparation::NeedPort),
        }
    };
    if port == endpoint.port {
        return Err(WgError::plain(WgErrorKind::SamePort));
    }
    let mut text = String::new();
    text.append("[Interface]\n");
    text.append(join_texts(&settings.interface, "\n").as_str());
    text.append("\nListenPort = ");
    push_decimal(&mut text, port as u64);
    text.append("\nMTU = ");
    push_decimal(&mut text, mtu as u64);
    text.append("\n\n[Peer]\n");
    text.append(join_texts(&settings.peer, "\n").as_str());
    text.append("\nEndpoint = ");
    text.append(socket_to_text(&endpoint).as_str());
    text.append("\nPersistentKeepalive = 25\n");
    proof {
        assert(text@ =~= configuration(settings@, endpoint, mtu, port));
        prepared_text_is_stable(settings@, endpoint, mtu, port);
        prepared_values_are_set_once(settings@, endpoint, mtu, port);
        settings_of_the_user_are_carried(input@, endpoint, mtu, port);
    }
    Ok(Preparation::Ready(Prepared { text, source: SocketAddr::v4(Ipv4Addr::localhost(), port) }))
}

// ---------------------------------------------------------------- laws

/// The settings that a configuration may hold.
pub open spec fn portable(key: Seq<char>) -> bool {
    ||| key == "PrivateKey"@ || key == "Address"@ || key == "ListenPort"@ || key == "DNS"@
    ||| key == "MTU"@ || key == "PublicKey"@ || key == "PresharedKey"@ || key == "AllowedIPs"@
    ||| key == "Endpoint"@ || key == "PersistentKeepalive"@
}

/// Whether a line is nothing, a section header, or a portable setting with a value.
pub open spec fn portable_line(raw: Seq<char>) -> bool {
    let line = content(raw);
    ||| line.len() == 0
    ||| line == "[Interface]"@
    ||| line == "[Peer]"@
    ||| split_first(line, '=') matches Some((key, value)) && portable(trimmed(key)) && trimmed(
        value,
    ).len() > 0
}

proof fn lemma_portable_lines(v: SettingsView, all: Seq<Seq<char>>)
    requires
        after_lines(v, all) is Ok,
    ensures
        forall|i: int| 0 <= i < all.len() ==> portable_line(#[trigger] all[i]),
    decreases all.len(),
{
    if all.len() > 0 {
        let next = after_line(v, all[0])->Ok_0;
        let rest = all.skip(1);
        lemma_portable_lines(next, rest);
        assert forall|i: int| 0 <= i < all.len() implies portable_line(#[trigger] all[i]) by {
            if i > 0 {
                assert(rest[i - 1] == all[i]);
            }
        }
    }
}

/// A configuration that is accepted holds portable settings only: one hook, `SaveConfig` or
/// custom table is enough to have it refused.
pub proof fn accepted_lines_are_portable(input: Seq<char>)
    requires
        understood(input) is Ok,
    ensures
        forall|i: int| 0 <= i < lines(input).len() ==> portable_line(#[trigger] lines(input)[i]),
{
    lemma_portable_lines(no_settings(), lines(input));
}

pub open spec fn header(raw: Seq<char>) -> bool {
    content(raw).len() > 0 && content(raw)[0] == '['
}

/// The section headers, in order.
pub open spec fn headers(all: Seq<Seq<char>>) -> Seq<Seq<char>>
    decreases all.len(),
{
    if all.len() == 0 {
        seq![]
    } else if header(all[0]) {
        seq![content(all[0])] + headers(all.skip(1))
    } else {
        headers(all.skip(1))
    }
}

pub open spec fn headers_from(section: Section) -> Seq<Seq<char>> {
    match section {
        Section::Start => seq!["[Interface]"@, "[Peer]"@],
        Section::Interface => seq!["[Peer]"@],
        Section::Peer => seq![],
    }
}

proof fn lemma_headers(v: SettingsView, all: Seq<Seq<char>>)
    requires
        after_lines(v, all) matches Ok(end) && end.section == Section::Peer,
    ensures
        headers(all) == headers_from(v.section),
    decreases all.len(),
{
    if all.len() == 0 {
        assert(headers(all) =~= headers_from(v.section));
    } else {
        let next = after_line(v, all[0])->Ok_0;
        lemma_headers(next, all.skip(1));
        assert(headers(all) =~= headers_from(v.section));
    }
}

/// An accepted configuration holds one `[Interface]`, one `[Peer]` after it, and no other section.
pub proof fn accepted_has_one_interface_then_one_peer(input: Seq<char>)
    requires
        understood(input) is Ok,
    ensures
        headers(lines(input)) == seq!["[Interface]"@, "[Peer]"@],
{
    lemma_headers(no_settings(), lines(input));
}

/// Whether a written line is a setting under one of the given names.
pub open spec fn writes(line: Seq<char>, a: Seq<char>, b: Seq<char>, c: Seq<char>) -> bool {
    exists|key: Seq<char>, value: Seq<char>|
        line == #[trigger] written(key, value) && (key == a || key == b || key == c)
}

/// What holds of all settings on the way: each is taken in once, and what is written out is a
/// key, an address, a name server or a route.
pub open spec fn settled(v: SettingsView) -> bool {
    &&& v.seen.no_duplicates()
    &&& forall|i: int|
        0 <= i < v.interface.len() ==> writes(
            #[trigger] v.interface[i],
            "PrivateKey"@,
            "Address"@,
            "DNS"@,
        )
    &&& forall|i: int|
        0 <= i < v.peer.len() ==> writes(
            #[trigger] v.peer[i],
            "PublicKey"@,
            "PresharedKey"@,
            "AllowedIPs"@,
        )
}

proof fn lemma_settled_setting(
    v: SettingsView,
    key: Seq<char>,
    value: Seq<char>,
    found: FoundView,
)
    requires
        settled(v),
    ensures
        after_setting(v, key, value, found) matches Ok(next) ==> settled(next),
{
    if let Ok(next) = after_setting(v, key, value, found) {
        assert(next.seen == v.seen.push((v.section, key)));
        assert(next.seen.no_duplicates()) by {
            assert forall|i: int, j: int|
                0 <= i < next.seen.len() && 0 <= j < next.seen.len() && i != j implies next.seen[i]
                != next.seen[j] by {
                if i < v.seen.len() && j < v.seen.len() {
                    assert(v.seen[i] != v.seen[j]);
                } else if i < v.seen.len() {
                    assert(v.seen.contains(v.seen[i]));
                } else {
                    assert(v.seen.contains(v.seen[j]));
                }
            }
        }
        let line = match field_of(v.section, key) {
            Field::Routes => written(key, join(routes(found->Networks_0->0), ", "@)),
            _ => written(key, value),
        };
        assert forall|i: int| 0 <= i < next.interface.len() implies writes(
            #[trigger] next.interface[i],
            "PrivateKey"@,
            "Address"@,
            "DNS"@,
        ) by {
            if i < v.interface.len() {
                assert(v.interface[i] == next.interface[i]);
            } else {
                assert(next.interface[i] == line);
            }
        }
        assert forall|i: int| 0 <= i < next.peer.len() implies writes(
            #[trigger] next.peer[i],
            "PublicKey"@,
            "PresharedKey"@,
            "AllowedIPs"@,
        ) by {
            if i < v.peer.len() {
                assert(v.peer[i] == next.peer[i]);
            } else {
                assert(next.peer[i] == line);
            }
        }
    }
}

proof fn lemma_settled_lines(v: SettingsView, all: Seq<Seq<char>>)
    requires
        settled(v),
    ensures
        after_lines(v, all) matches Ok(end) ==> settled(end),
    decreases all.len(),
{
    if all.len() > 0 {
        let line = content(all[0]);
        if let Some((key, value)) = split_first(line, '=') {
            lemma_settled_setting(
                v,
                trimmed(key),
                trimmed(value),
                examined(field_of(v.section, trimmed(key)), trimmed(value)),
            );
        }
        if let Ok(next) = after_line(v, all[0]) {
            lemma_settled_lines(next, all.skip(1));
        }
    }
}

/// No setting of an accepted configuration is repeated, and of the user's lines only keys,
/// addresses, name servers and routes are written out: the user's endpoint, keepalive, MTU and
/// listening port never are.
pub proof fn accepted_settings_are_settled(input: Seq<char>)
    requires
        understood(input) is Ok,
    ensures
        settled(understood(input)->Ok_0),
{
    assert(settled(no_settings()));
    lemma_settled_lines(no_settings(), lines(input));
}

/// Whether a text is the default route of either family.
pub open spec fn default_route(net: Seq<char>) -> bool {
    net == "0.0.0.0/0"@ || net == "::/0"@
}

proof fn lemma_halves(net: Seq<char>)
    ensures
        forall|i: int| 0 <= i < halves(net).len() ==> !default_route(#[trigger] halves(net)[i]),
{
    reveal_strlit("0.0.0.0/0");
    reveal_strlit("::/0");
    reveal_strlit("0.0.0.0/1");
    reveal_strlit("128.0.0.0/1");
    reveal_strlit("::/1");
    reveal_strlit("8000::/1");
    assert("0.0.0.0/1"@[8] != "0.0.0.0/0"@[8]);
    assert("128.0.0.0/1"@.len() == 11 && "0.0.0.0/0"@.len() == 9 && "::/0"@.len() == 4);
    assert("::/1"@[3] != "::/0"@[3]);
    assert("8000::/1"@.len() == 8);
}

/// No default route reaches the configuration that runs: each is replaced by its two halves.
pub proof fn routes_hold_no_default_route(nets: Seq<Seq<char>>)
    ensures
        forall|i: int| 0 <= i < routes(nets).len() ==> !default_route(#[trigger] routes(nets)[i]),
    decreases nets.len(),
{
    if nets.len() > 0 {
        routes_hold_no_default_route(nets.drop_last());
        lemma_halves(nets.last());
        let head = routes(nets.drop_last());
        let tail = halves(nets.last());
        assert forall|i: int| 0 <= i < routes(nets).len() implies !default_route(
            #[trigger] routes(nets)[i],
        ) by {
            if i < head.len() {
                assert(routes(nets)[i] == head[i]);
            } else {
                assert(routes(nets)[i] == tail[i - head.len()]);
            }
        }
    }
}

/// Networks other than the default routes are routed as they are, in their order.
pub proof fn other_routes_are_kept(nets: Seq<Seq<char>>)
    requires
        forall|i: int| 0 <= i < nets.len() ==> !default_route(#[trigger] nets[i]),
    ensures
        routes(nets) == nets,
    decreases nets.len(),
{
    if nets.len() > 0 {
        assert forall|i: int| 0 <= i < nets.drop_last().len() implies !default_route(
            #[trigger] nets.drop_last()[i],
        ) by {
            assert(nets[i] == nets.drop_last()[i]);
        }
        other_routes_are_kept(nets.drop_last());
        assert(routes(nets) =~= nets);
    } else {
        assert(routes(nets) =~= nets);
    }
}

/// The port that WireGuard sends from is the user's where there is one, and else the one that the
/// system offers, which is never that of the relay; where it offers none, it is asked for one.
pub proof fn ports_are_chosen(v: SettingsView, endpoint: SocketAddr, offered: Option<u16>)
    ensures
        v.port != 0 ==> source_port(v, endpoint, offered) == Some(v.port),
        v.port == 0 && offered is None ==> source_port(v, endpoint, offered) is None,
        v.port == 0 && offered == Some(endpoint.port) ==> source_port(v, endpoint, offered) is None,
        v.port == 0 && offered is Some && offered != Some(endpoint.port) ==> source_port(
            v,
            endpoint,
            offered,
        ) == offered,
{
}

/// A comment begins with its mark and goes to the end of the line; it is no part of a setting, nor is
/// the white space around what stands before it.
pub proof fn comments_are_no_content(before: Seq<char>, comment: Seq<char>)
    requires
        lacks(before, '#'),
    ensures
        content(before + seq!['#'] + comment) == trimmed(before),
        content(before) == trimmed(before),
{
    let s = before + seq!['#'] + comment;
    let n = before.len() as int;
    assert forall|j: int| 0 <= j < n implies #[trigger] s[j] != '#' by {
        assert(s[j] == before[j]);
    }
    crate::pieces::lemma_index_of_is(s, '#', n);
    assert(s.take(n) =~= before);
    crate::pieces::lemma_index_of_is(before, '#', n);
    assert(before.take(n) =~= before);
}

/// Whatever stands behind a line that is refused, the configuration is refused for that line.
pub proof fn first_refusal_counts(before: Seq<Seq<char>>, raw: Seq<char>, behind: Seq<Seq<char>>)
    requires
        after_lines(no_settings(), before) is Ok,
        after_line(after_lines(no_settings(), before)->Ok_0, raw) is Err,
    ensures
        after_lines(no_settings(), before + seq![raw] + behind) == Err::<SettingsView, _>(
            after_line(after_lines(no_settings(), before)->Ok_0, raw)->Err_0,
        ),
{
    let one = seq![raw];
    crate::prepared::lemma_after_append(no_settings(), before, one);
    crate::prepared::lemma_after_append(no_settings(), before + one, behind);
    reveal_with_fuel(after_lines, 2);
    assert(one.skip(1) =~= Seq::<Seq<char>>::empty());
}

/// The reason that is told for a setting is one that holds: it has no value or was set before, is no
/// key, no network, no port or no address, or is none of the settings that are known; and it names the
/// setting.
pub proof fn refused_settings_have_their_reason(
    v: SettingsView,
    key: Seq<char>,
    value: Seq<char>,
)
    ensures
        ({
            let found = examined(field_of(v.section, key), value);
            match after_setting(v, key, value, found) {
                Ok(w) => value.len() > 0 && !v.seen.contains((v.section, key)) && w.seen
                    == v.seen.push((v.section, key)) && w.section == v.section,
                Err((kind, name)) => match kind {
                    WgErrorKind::EmptyOrRepeated => name == key && (value.len() == 0
                        || v.seen.contains((v.section, key))),
                    WgErrorKind::Key => name == key && !(base64_bytes(value) matches Some(bytes)
                        && bytes.len() == 32) && (key == "PrivateKey"@ || key == "PublicKey"@ || key
                        == "PresharedKey"@),
                    WgErrorKind::Network => name == key && networks(split_at_each(value, ',')) is None
                        && (key == "Address"@ || key == "AllowedIPs"@),
                    WgErrorKind::ListenPort(fault) => key == "ListenPort"@ && number_of(value, 65535)
                        == Err::<nat, _>(fault),
                    WgErrorKind::Dns => key == "DNS"@ && !all_addresses(value),
                    WgErrorKind::Unsupported => name == key,
                    _ => false,
                },
            }
        }),
{
}

/// What is told where one of the four settings is missing that have to be there: the first of them.
pub proof fn missing_settings_are_told(v: SettingsView)
    ensures
        ({
            let private = v.seen.contains((Section::Interface, "PrivateKey"@));
            let address = v.seen.contains((Section::Interface, "Address"@));
            let public = v.seen.contains((Section::Peer, "PublicKey"@));
            let routed = v.seen.contains((Section::Peer, "AllowedIPs"@));
            &&& missing(v) is None <==> private && address && public && routed
            &&& !private ==> missing(v) == Some("Interface.PrivateKey"@)
            &&& private && !address ==> missing(v) == Some("Interface.Address"@)
            &&& private && address && !public ==> missing(v) == Some("Peer.PublicKey"@)
            &&& private && address && public && !routed ==> missing(v) == Some("Peer.AllowedIPs"@)
        }),
{
}

/// What a line leads to: nothing where it is empty, the next section where it is its header, a setting
/// where it has an equals sign, and a refusal otherwise.
pub proof fn lines_lead_on(v: SettingsView, raw: Seq<char>)
    ensures
        ({
            let line = content(raw);
            let r = after_line(v, raw);
            &&& line.len() == 0 ==> r == Ok::<_, (WgErrorKind, Seq<char>)>(v)
            &&& line == "[Interface]"@ && v.section == Section::Start ==> r == Ok::<
                _,
                (WgErrorKind, Seq<char>),
            >(SettingsView { section: Section::Interface, ..v })
            &&& line == "[Peer]"@ && v.section == Section::Interface ==> r == Ok::<
                _,
                (WgErrorKind, Seq<char>),
            >(SettingsView { section: Section::Peer, ..v })
            &&& line.len() > 0 && line[0] == '[' && r is Ok ==> (line == "[Interface]"@ && v.section
                == Section::Start) || (line == "[Peer]"@ && v.section == Section::Interface)
            &&& line.len() > 0 && line[0] == '[' && r is Err ==> r == Err::<SettingsView, _>(
                (WgErrorKind::Sections, Seq::<char>::empty()),
            )
            &&& line.len() > 0 && line[0] != '[' && lacks(line, '=') ==> r == Err::<SettingsView, _>(
                (WgErrorKind::Setting, Seq::<char>::empty()),
            )
        }),
{
    reveal_strlit("[Interface]");
    reveal_strlit("[Peer]");
    assert("[Interface]"@.len() != "[Peer]"@.len());
    crate::pieces::first_separators_part_texts(content(raw), '=');
}

/// The text that is prepared: both sections with the lines that are kept, and behind them what the
/// relay decides.
pub proof fn prepared_texts(v: SettingsView, endpoint: SocketAddr, mtu: u16, port: u16)
    ensures
        configuration(v, endpoint, mtu, port) == "[Interface]\n"@ + join(v.interface, "\n"@)
            + "\nListenPort = "@ + decimal(port as nat) + "\nMTU = "@ + decimal(mtu as nat)
            + "\n\n[Peer]\n"@ + join(v.peer, "\n"@) + "\nEndpoint = "@ + socket_string(endpoint)
            + "\nPersistentKeepalive = 25\n"@,
{
}

} // verus!
