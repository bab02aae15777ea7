//! Calls into outside crates. Verus believes the contracts in this file without proof.
use crate::pieces::texts;
use crate::text::{hex_digit, text_view};
use crate::urls::UrlFault;
use base64::Engine;
use vstd::prelude::*;

verus! {

// ---------------------------------------------------------------- base64

/// The bytes that padded standard Base64 stands for, or `None` where the text is no such Base64.
pub uninterp spec fn base64_bytes(s: Seq<char>) -> Option<Seq<u8>>;

/// `Engine::decode` of `base64::engine::general_purpose::STANDARD`: the decoded bytes depend on
/// the text alone. Which texts are Base64 is not stated.
#[verifier::external_body]
pub(crate) fn decode_base64(text: &str) -> (r: Option<Vec<u8>>)
    ensures
        match r {
            Some(bytes) => base64_bytes(text@) == Some(bytes@),
            None => base64_bytes(text@) is None,
        },
{
    base64::engine::general_purpose::STANDARD.decode(text).ok()
}

/// The Base64 of the UTF-8 bytes of a text, in the alphabet that is safe in URLs and without
/// padding.
pub uninterp spec fn base64_url(s: Seq<char>) -> Seq<char>;

/// `Engine::encode` of `base64::engine::general_purpose::URL_SAFE_NO_PAD`: depends on the text
/// alone.
#[verifier::external_body]
pub(crate) fn encode_base64_url(text: &str) -> (r: String)
    ensures
        r@ == base64_url(text@),
{
    base64::engine::general_purpose::URL_SAFE_NO_PAD.encode(text)
}

// ---------------------------------------------------------------- fastwebsockets

/// `fastwebsockets::handshake::generate_key`: a random key, which is the Base64 of 16 bytes.
#[verifier::external_body]
pub(crate) fn websocket_key() -> (r: String)
    ensures
        match base64_bytes(r@) {
            Some(bytes) => bytes.len() == 16,
            None => false,
        },
{
    fastwebsockets::handshake::generate_key()
}

// ---------------------------------------------------------------- serde_json

/// A text as a JSON string, quoted and escaped.
pub uninterp spec fn json_string(s: Seq<char>) -> Seq<char>;

/// `Display` of `serde_json::Value::String`: depends on the text alone.
#[verifier::external_body]
pub(crate) fn quote_json(text: &str) -> (r: String)
    ensures
        r@ == json_string(text@),
{
    serde_json::Value::String(text.to_owned()).to_string()
}

#[verifier::external_type_specification]
#[verifier::external_body]
pub struct ExJsonValue(serde_json::Value);

/// What a JSON value holds.
#[verifier::ext_equal]
pub enum JsonView {
    Text(Seq<char>),
    /// A whole number that fits 64 bits without sign.
    Natural(u64),
    Object(Map<Seq<char>, JsonView>),
    /// Anything else.
    Other(serde_json::Value),
}

/// What a value of `serde_json` holds.
pub uninterp spec fn json_tree(v: serde_json::Value) -> JsonView;

/// What a JSON text holds; in words why it is none.
pub uninterp spec fn json_document(s: Seq<char>) -> Result<JsonView, Seq<char>>;

/// What the elements of a JSON text of a list hold; in words why it is none.
pub uninterp spec fn json_list(s: Seq<char>) -> Result<Seq<JsonView>, Seq<char>>;

/// `serde_json::from_str` into a `Value`: what the text holds, or the text of the error, depends on
/// the text alone.
#[verifier::external_body]
pub(crate) fn parse_json(text: &str) -> (r: Result<serde_json::Value, String>)
    ensures
        match r {
            Ok(v) => json_document(text@) == Ok::<_, Seq<char>>(json_tree(v)),
            Err(words) => json_document(text@) == Err::<JsonView, _>(words@),
        },
{
    serde_json::from_str(text).map_err(|e| e.to_string())
}

/// `serde_json::from_str` into a list of `Value`: what the elements hold, or the text of the error,
/// depends on the text alone.
#[verifier::external_body]
pub(crate) fn parse_json_list(text: &str) -> (r: Result<Vec<serde_json::Value>, String>)
    ensures
        match r {
            Ok(v) => json_list(text@) == Ok::<_, Seq<char>>(
                v@.map_values(|x: serde_json::Value| json_tree(x)),
            ),
            Err(words) => json_list(text@) == Err::<Seq<JsonView>, _>(words@),
        },
{
    serde_json::from_str(text).map_err(|e| e.to_string())
}

/// The text that a JSON text of a string stands for; in words why it stands for none.
pub uninterp spec fn json_quoted(s: Seq<char>) -> Result<Seq<char>, Seq<char>>;

/// `serde_json::from_str` into a `String`: the text of a document that is a string, and the text of
/// the error for any other, depend on the text alone.
#[verifier::external_body]
pub(crate) fn parse_json_text(text: &str) -> (r: Result<String, String>)
    ensures
        match r {
            Ok(s) => json_quoted(text@) == Ok::<_, Seq<char>>(s@) && json_document(text@) == Ok::<
                _,
                Seq<char>,
            >(JsonView::Text(s@)),
            Err(words) => json_quoted(text@) == Err::<Seq<char>, _>(words@) && !(json_document(
                text@,
            ) matches Ok(JsonView::Text(_))),
        },
{
    serde_json::from_str(text).map_err(|e| e.to_string())
}

/// `Value::as_str`: the text of a string, and `None` of anything else.
#[verifier::external_body]
pub(crate) fn json_text(v: &serde_json::Value) -> (r: Option<&str>)
    ensures
        match r {
            Some(s) => json_tree(*v) == JsonView::Text(s@),
            None => !(json_tree(*v) is Text),
        },
{
    v.as_str()
}

/// `Value::as_u64`: a whole number that fits 64 bits without sign, and `None` of anything else.
#[verifier::external_body]
pub(crate) fn json_natural(v: &serde_json::Value) -> (r: Option<u64>)
    ensures
        match r {
            Some(n) => json_tree(*v) == JsonView::Natural(n),
            None => !(json_tree(*v) is Natural),
        },
{
    v.as_u64()
}

/// `Value::get` with a text: the value at a key of an object, and `None` where there is none.
#[verifier::external_body]
pub(crate) fn json_at<'a>(v: &'a serde_json::Value, key: &str) -> (r: Option<&'a serde_json::Value>)
    ensures
        match r {
            Some(x) => json_tree(*v) is Object && json_tree(*v)->Object_0.dom().contains(key@)
                && json_tree(*v)->Object_0[key@] == json_tree(*x),
            None => json_tree(*v) is Object ==> !json_tree(*v)->Object_0.dom().contains(key@),
        },
{
    v.get(key)
}

// ---------------------------------------------------------------- ipnet

/// The canonical text of the network that a text such as `10.0.0.2/24` stands for, with the host
/// bits cleared, or `None` where the text is no network.
pub uninterp spec fn network(s: Seq<char>) -> Option<Seq<char>>;

/// The characters that the texts of networks are made of.
pub open spec fn network_char(c: char) -> bool {
    hex_digit(c) || c == '.' || c == ':' || c == '/'
}

/// Whether a text is the canonical text of a network with its host bits cleared.
pub open spec fn canonical(net: Seq<char>) -> bool {
    &&& network(net) == Some(net)
    &&& net.len() > 0
    &&& forall|i: int| 0 <= i < net.len() ==> network_char(#[trigger] net[i])
}

/// `IpNet::from_str`, and on success `IpNet::trunc` and the text of the result: all three depend
/// on the text alone. The text of a result is read as the same network again, and so are the texts
/// of the two halves of a default route. Which texts are networks is not stated.
#[verifier::external_body]
pub(crate) fn truncated_network(text: &str) -> (r: Option<String>)
    ensures
        match r {
            Some(net) => network(text@) == Some(net@) && canonical(net@) && (net@ == "0.0.0.0/0"@
                ==> canonical("0.0.0.0/1"@) && canonical("128.0.0.0/1"@)) && (net@ == "::/0"@
                ==> canonical("::/1"@) && canonical("8000::/1"@)),
            None => network(text@) is None,
        },
{
    text.parse::<ipnet::IpNet>().ok().map(|net| net.trunc().to_string())
}

// ---------------------------------------------------------------- url

/// The parts of an absolute URL.
#[derive(Debug)]
pub struct UrlParts {
    /// The whole URL.
    pub text: String,
    pub scheme: String,
    pub username: String,
    pub password: Option<String>,
    pub host: Option<String>,
    /// Whether the host is an IPv6 address.
    pub ipv6: bool,
    /// The port, where it is written and differs from the default of the scheme.
    pub port: Option<u16>,
    /// The port, or the default of the scheme.
    pub known_port: Option<u16>,
    pub path: String,
    pub query: Option<String>,
    pub fragment: Option<String>,
}

#[verifier::ext_equal]
pub struct UrlView {
    pub text: Seq<char>,
    pub scheme: Seq<char>,
    pub username: Seq<char>,
    pub password: Option<Seq<char>>,
    pub host: Option<Seq<char>>,
    pub ipv6: bool,
    pub port: Option<u16>,
    pub known_port: Option<u16>,
    pub path: Seq<char>,
    pub query: Option<Seq<char>>,
    pub fragment: Option<Seq<char>>,
}

impl View for UrlParts {
    type V = UrlView;

    open spec fn view(&self) -> UrlView {
        UrlView {
            text: self.text@,
            scheme: self.scheme@,
            username: self.username@,
            password: text_view(self.password),
            host: text_view(self.host),
            ipv6: self.ipv6,
            port: self.port,
            known_port: self.known_port,
            path: self.path@,
            query: text_view(self.query),
            fragment: text_view(self.fragment),
        }
    }
}

/// The parts of the URL that a text stands for, or why the text is no absolute URL.
pub uninterp spec fn url_of(s: Seq<char>) -> Result<UrlView, UrlFault>;

#[verifier::external_type_specification]
#[verifier::external_body]
pub struct ExUrlError(url::ParseError);

/// Which of its variants an error of `url` is.
pub uninterp spec fn url_error(e: url::ParseError) -> UrlFault;

/// The variants of `url::ParseError`, told apart.
#[verifier::external_body]
pub(crate) fn url_error_kind(e: &url::ParseError) -> (r: UrlFault)
    ensures
        r == url_error(*e),
{
    match e {
        url::ParseError::EmptyHost => UrlFault::EmptyHost,
        url::ParseError::IdnaError => UrlFault::Idna,
        url::ParseError::InvalidPort => UrlFault::Port,
        url::ParseError::InvalidIpv4Address => UrlFault::Ipv4,
        url::ParseError::InvalidIpv6Address => UrlFault::Ipv6,
        url::ParseError::InvalidDomainCharacter => UrlFault::DomainCharacter,
        url::ParseError::RelativeUrlWithoutBase => UrlFault::Relative,
        url::ParseError::RelativeUrlWithCannotBeABaseBase => UrlFault::RelativeToOpaque,
        url::ParseError::SetHostOnCannotBeABaseUrl => UrlFault::HostOfOpaque,
        _ => UrlFault::Overflow,
    }
}

/// `Url::parse`, and on success the getters of `Url` for its parts: all depend on the text alone.
/// Which texts are URLs, and how one is taken apart, is not stated.
#[verifier::external_body]
pub(crate) fn parse_url(text: &str) -> (r: Result<UrlParts, url::ParseError>)
    ensures
        match r {
            Ok(url) => url_of(text@) == Ok::<_, UrlFault>(url@),
            Err(e) => url_of(text@) == Err::<UrlView, _>(url_error(e)),
        },
{
    url::Url::parse(text).map(|u| UrlParts {
        text: u.as_str().to_owned(),
        scheme: u.scheme().to_owned(),
        username: u.username().to_owned(),
        password: u.password().map(str::to_owned),
        host: u.host_str().map(str::to_owned),
        ipv6: matches!(u.host(), Some(url::Host::Ipv6(_))),
        port: u.port(),
        known_port: u.port_or_known_default(),
        path: u.path().to_owned(),
        query: u.query().map(str::to_owned),
        fragment: u.fragment().map(str::to_owned),
    })
}

/// The text of the URL that a location, absolute or relative to a URL, stands for; in words why it
/// stands for none.
pub uninterp spec fn url_joined(base: Seq<char>, location: Seq<char>) -> Result<
    Seq<char>,
    Seq<char>,
>;

/// `Url::parse` of the base and `Url::join` with the location: the text of the result, or that of
/// the error, depends on the two texts alone.
#[verifier::external_body]
pub(crate) fn join_url(base: &str, location: &str) -> (r: Result<String, String>)
    ensures
        match r {
            Ok(url) => url_joined(base@, location@) == Ok::<_, Seq<char>>(url@),
            Err(words) => url_joined(base@, location@) == Err::<Seq<char>, _>(words@),
        },
{
    url::Url::parse(base).and_then(|u| u.join(location)).map(String::from).map_err(|e| e.to_string())
}

// ---------------------------------------------------------------- rustls_pemfile

/// The certificates in bytes of PEM, in their order, each in DER; in words why they cannot be read.
pub uninterp spec fn pem_certificates(bytes: Seq<u8>) -> Result<Seq<Seq<u8>>, Seq<char>>;

/// The bytes of each of a list.
pub open spec fn ders(v: Seq<Vec<u8>>) -> Seq<Seq<u8>> {
    v.map_values(|x: Vec<u8>| x@)
}

/// `rustls_pemfile::certs`, up to its first error: the certificates, or the text of the error,
/// depend on the bytes alone. Which bytes are PEM is not stated.
#[verifier::external_body]
pub(crate) fn parse_certificates(bytes: &[u8]) -> (r: Result<Vec<Vec<u8>>, String>)
    ensures
        match r {
            Ok(v) => pem_certificates(bytes@) == Ok::<_, Seq<char>>(ders(v@)),
            Err(words) => pem_certificates(bytes@) == Err::<Seq<Seq<u8>>, _>(words@),
        },
{
    let mut rest = bytes;
    let found: Result<Vec<_>, _> = rustls_pemfile::certs(&mut rest).collect();
    found.map(|v| v.iter().map(|c| c.to_vec()).collect()).map_err(|e| e.to_string())
}

// ---------------------------------------------------------------- sha2

/// A hash of `sha2` that takes bytes as they come.
#[verifier::external_body]
pub struct Digester {
    inner: sha2::Sha256,
}

/// The bytes that a hash has taken so far.
pub uninterp spec fn absorbed(h: Digester) -> Seq<u8>;

/// The SHA-256 digest of bytes.
pub uninterp spec fn sha256(bytes: Seq<u8>) -> Seq<u8>;

impl Digester {
    /// `Sha256::new`: a hash that has taken nothing.
    #[verifier::external_body]
    pub(crate) fn new() -> (r: Self)
        ensures
            absorbed(r) == Seq::<u8>::empty(),
    {
        Digester { inner: sha2::Digest::new() }
    }

    /// `Digest::update`: takes more bytes.
    #[verifier::external_body]
    pub(crate) fn update(&mut self, bytes: &[u8])
        ensures
            absorbed(*final(self)) == absorbed(*old(self)) + bytes@,
    {
        sha2::Digest::update(&mut self.inner, bytes);
    }

    /// `Digest::finalize`: the 32 bytes of the digest of what was taken.
    #[verifier::external_body]
    pub(crate) fn finalize(self) -> (r: Vec<u8>)
        ensures
            r@ == sha256(absorbed(self)),
            r@.len() == 32,
    {
        sha2::Digest::finalize(self.inner).to_vec()
    }
}

// ---------------------------------------------------------------- std::str

/// In words why bytes are no UTF-8.
pub uninterp spec fn utf8_refusal(bytes: Seq<u8>) -> Seq<char>;

/// `std::str::from_utf8`: the text of bytes that are UTF-8, and the text of the error, which depends
/// on the bytes alone, of others.
#[verifier::external_body]
pub(crate) fn decode_text(bytes: &[u8]) -> (r: Result<String, String>)
    ensures
        match r {
            Ok(text) => vstd::utf8::valid_utf8(bytes@) && text@ == vstd::utf8::decode_utf8(bytes@),
            Err(words) => !vstd::utf8::valid_utf8(bytes@) && words@ == utf8_refusal(bytes@),
        },
{
    std::str::from_utf8(bytes).map(str::to_owned).map_err(|e| e.to_string())
}

/// The text of bytes, with a replacement character for what is no UTF-8.
pub uninterp spec fn lossy_text(bytes: Seq<u8>) -> Seq<char>;

/// `String::from_utf8_lossy`: depends on the bytes alone. Bytes that are UTF-8 give their text.
#[verifier::external_body]
pub(crate) fn decode_lossy(bytes: &[u8]) -> (r: String)
    ensures
        r@ == lossy_text(bytes@),
        vstd::utf8::valid_utf8(bytes@) ==> r@ == vstd::utf8::decode_utf8(bytes@),
{
    String::from_utf8_lossy(bytes).into_owned()
}

// ---------------------------------------------------------------- toml

#[verifier::external_type_specification]
#[verifier::external_body]
pub struct ExTomlValue(toml::Value);

/// What a TOML value holds.
#[verifier::ext_equal]
pub enum TomlView {
    Text(Seq<char>),
    Integer(int),
    Flag(bool),
    List(Seq<TomlView>),
    Table(Map<Seq<char>, TomlView>),
    /// A floating-point number.
    Real(toml::Value),
    /// A date, a time, or both.
    Date(toml::Value),
}

/// What a value of `toml` holds.
pub uninterp spec fn toml_tree(v: toml::Value) -> TomlView;

/// What a TOML document is read as, or `None` where the text cannot be.
pub uninterp spec fn toml_document(s: Seq<char>) -> Option<TomlView>;

/// `toml::from_str` into a `toml::Value`: what the document is read as depends on the text alone.
/// Which texts are TOML is not stated; those with integers beyond 64 bits with sign are not read.
#[verifier::external_body]
pub(crate) fn parse_toml(text: &str) -> (r: Option<toml::Value>)
    ensures
        match r {
            Some(v) => toml_document(text@) == Some(toml_tree(v)),
            None => toml_document(text@) is None,
        },
{
    toml::from_str::<toml::Value>(text).ok()
}

/// `Value::as_str`: the text of a string, and `None` of anything else.
#[verifier::external_body]
pub(crate) fn toml_text(v: &toml::Value) -> (r: Option<&str>)
    ensures
        match r {
            Some(s) => toml_tree(*v) == TomlView::Text(s@),
            None => !(toml_tree(*v) is Text),
        },
{
    v.as_str()
}

/// `Value::as_table`, and on success `Map::keys`: the keys of a table, and `None` of anything
/// else.
#[verifier::external_body]
pub(crate) fn toml_keys(v: &toml::Value) -> (r: Option<Vec<String>>)
    ensures
        match r {
            Some(keys) => toml_tree(*v) is Table && toml_tree(*v)->Table_0.dom() == texts(
                keys@,
            ).to_set(),
            None => !(toml_tree(*v) is Table),
        },
{
    v.as_table().map(|t| t.keys().cloned().collect())
}

/// `Value::get` with a text: the value at a key of a table, and `None` where there is none.
#[verifier::external_body]
pub(crate) fn toml_at<'a>(v: &'a toml::Value, key: &str) -> (r: Option<&'a toml::Value>)
    ensures
        match r {
            Some(x) => toml_tree(*v) is Table && toml_tree(*v)->Table_0.dom().contains(key@)
                && toml_tree(*v)->Table_0[key@] == toml_tree(*x),
            None => toml_tree(*v) is Table ==> !toml_tree(*v)->Table_0.dom().contains(key@),
        },
{
    v.get(key)
}

/// `Value::as_table_mut` and `Map::insert`: a table with a text at a key, in place of what was
/// there.
#[verifier::external_body]
pub(crate) fn put_text(v: &mut toml::Value, key: &str, text: String)
    requires
        toml_tree(*old(v)) is Table,
    ensures
        toml_tree(*final(v)) == TomlView::Table(
            toml_tree(*old(v))->Table_0.insert(key@, TomlView::Text(text@)),
        ),
{
    if let Some(table) = v.as_table_mut() {
        table.insert(key.to_owned(), toml::Value::String(text));
    }
}

/// `Value::get_mut`, `Value::as_table_mut` and `Map::insert`: a table in which the table at a key
/// has a text at a key of its own, in place of what was there.
#[verifier::external_body]
pub(crate) fn put_inner_text(v: &mut toml::Value, outer: &str, key: &str, text: String)
    requires
        toml_tree(*old(v)) is Table,
        toml_tree(*old(v))->Table_0.dom().contains(outer@),
        toml_tree(*old(v))->Table_0[outer@] is Table,
    ensures
        toml_tree(*final(v)) == TomlView::Table(
            toml_tree(*old(v))->Table_0.insert(
                outer@,
                TomlView::Table(
                    toml_tree(*old(v))->Table_0[outer@]->Table_0.insert(
                        key@,
                        TomlView::Text(text@),
                    ),
                ),
            ),
        ),
{
    if let Some(table) = v.get_mut(outer).and_then(toml::Value::as_table_mut) {
        table.insert(key.to_owned(), toml::Value::String(text));
    }
}

/// A table with a text at a key, of its own or of the table at another key. There is none without
/// these tables, nor with the key that `toml` keeps for dates.
pub open spec fn edit(t: TomlView, outer: Option<Seq<char>>, key: Seq<char>, text: Seq<char>) -> Option<
    TomlView,
> {
    match (t, outer) {
        (TomlView::Table(m), None) if key != "$__toml_private_datetime"@ => Some(
            TomlView::Table(m.insert(key, TomlView::Text(text))),
        ),
        (TomlView::Table(m), Some(at)) if key != "$__toml_private_datetime"@ && m.dom().contains(at)
            && m[at] is Table => Some(
            TomlView::Table(
                m.insert(at, TomlView::Table(m[at]->Table_0.insert(key, TomlView::Text(text)))),
            ),
        ),
        _ => None,
    }
}

/// Whether a value is what some document is read as, after so many edits.
pub open spec fn edited(t: TomlView, edits: nat) -> bool
    decreases edits,
{
    if edits == 0 {
        exists|s: Seq<char>| #[trigger] toml_document(s) == Some(t)
    } else {
        exists|u: TomlView, outer: Option<Seq<char>>, key: Seq<char>, text: Seq<char>|
            edited(u, (edits - 1) as nat) && #[trigger] edit(u, outer, key, text) == Some(t)
    }
}

/// Whether a value holds no floating-point number and no table with the key that `toml` keeps for
/// dates, and its lists and tables are nested so many times at most.
pub open spec fn nested(t: TomlView, depth: nat) -> bool
    decreases depth,
{
    match t {
        TomlView::Text(_) => true,
        TomlView::Integer(_) => true,
        TomlView::Flag(_) => true,
        TomlView::Date(_) => true,
        TomlView::List(v) => depth > 0 && forall|i: int|
            0 <= i < v.len() ==> nested(#[trigger] v[i], (depth - 1) as nat),
        TomlView::Table(m) => depth > 0 && !m.dom().contains("$__toml_private_datetime"@) && forall|
            k: Seq<char>,
        |
            m.dom().contains(k) ==> nested(#[trigger] m[k], (depth - 1) as nat),
        TomlView::Real(_) => false,
    }
}

/// Whether a value holds no floating-point number and no table with the key that `toml` keeps for
/// dates, however its lists and tables are nested.
pub open spec fn unmixed(t: TomlView) -> bool {
    exists|depth: nat| nested(t, depth)
}

/// Whether such a value is surely not nested too deep to be read. `toml` reads nestings up to 80.
pub open spec fn settled(t: TomlView) -> bool {
    nested(t, 64)
}

/// Whether a text that a value was written as is read as that value, where the value was read from a
/// document and then edited, and the text is not nested too deep to be read.
pub open spec fn read_back(t: TomlView, text: Seq<char>) -> bool {
    (exists|edits: nat| edited(t, edits)) && (settled(t) || unmixed(t) && document_of(text) is Some)
        ==> toml_document(text) == Some(t) && document_of(text) == Some(t)
}

#[verifier::external_type_specification]
#[verifier::external_body]
pub struct ExDocumentValue<'i>(toml::de::DeValue<'i>);

/// What a value of a parsed document holds. A floating-point number or a date is told as the
/// value of `toml` that it is read as.
pub uninterp spec fn value_tree(v: toml::de::DeValue<'_>) -> TomlView;

/// What a parsed document holds, or `None` where the text is no TOML.
pub uninterp spec fn document_of(s: Seq<char>) -> Option<TomlView>;

/// `DeTable::parse`, which `toml::from_str` begins with: what the document holds depends on the text
/// alone. Integers are kept as they are written, however large. Which texts are TOML is not stated.
#[verifier::external_body]
pub(crate) fn parse_document(text: &str) -> (r: Option<toml::de::DeValue<'_>>)
    ensures
        match r {
            Some(v) => document_of(text@) == Some(value_tree(v)) && value_tree(v) is Table,
            None => document_of(text@) is None && toml_document(text@) is None,
        },
{
    toml::de::DeTable::parse(text).ok().map(|t| toml::de::DeValue::Table(t.into_inner()))
}

/// `DeValue::as_str`: the text of a string, and `None` of anything else.
#[verifier::external_body]
pub(crate) fn value_text<'a>(v: &'a toml::de::DeValue<'_>) -> (r: Option<&'a str>)
    ensures
        match r {
            Some(s) => value_tree(*v) == TomlView::Text(s@),
            None => !(value_tree(*v) is Text),
        },
{
    v.as_str()
}

/// `DeValue::as_integer`, and on success the digits of the integer read by `i128::from_str_radix`:
/// the value of an integer that fits 128 bits with sign, and `None` of anything else.
#[verifier::external_body]
pub(crate) fn value_integer(v: &toml::de::DeValue<'_>) -> (r: Option<i128>)
    ensures
        match r {
            Some(n) => value_tree(*v) == TomlView::Integer(n as int),
            None => !(value_tree(*v) matches TomlView::Integer(n) && i128::MIN <= n <= i128::MAX),
        },
{
    v.as_integer().and_then(|i| i128::from_str_radix(i.as_str(), i.radix()).ok())
}

/// `DeValue::as_array`: how many elements an array has, and `None` of anything else.
#[verifier::external_body]
pub(crate) fn value_count(v: &toml::de::DeValue<'_>) -> (r: Option<usize>)
    ensures
        match r {
            Some(n) => value_tree(*v) is List && value_tree(*v)->List_0.len() == n,
            None => !(value_tree(*v) is List),
        },
{
    v.as_array().map(|a| a.len())
}

/// `DeValue::get` with a number: the element at a place of an array, and `None` where there is none.
#[verifier::external_body]
pub(crate) fn value_item<'a, 'i>(v: &'a toml::de::DeValue<'i>, place: usize) -> (r: Option<
    &'a toml::de::DeValue<'i>,
>)
    ensures
        match r {
            Some(x) => value_tree(*v) is List && place < value_tree(*v)->List_0.len()
                && value_tree(*v)->List_0[place as int] == value_tree(*x),
            None => value_tree(*v) is List ==> place >= value_tree(*v)->List_0.len(),
        },
{
    v.get(place).map(|x| x.get_ref())
}

/// `DeValue::as_table`, and on success `Map::keys`: the keys of a table, and `None` of anything
/// else.
#[verifier::external_body]
pub(crate) fn value_keys(v: &toml::de::DeValue<'_>) -> (r: Option<Vec<String>>)
    ensures
        match r {
            Some(keys) => value_tree(*v) is Table && value_tree(*v)->Table_0.dom() == texts(
                keys@,
            ).to_set(),
            None => !(value_tree(*v) is Table),
        },
{
    v.as_table().map(|t| t.keys().map(|k| k.get_ref().to_string()).collect())
}

/// `DeValue::get` with a text: the value at a key of a table, and `None` where there is none.
#[verifier::external_body]
pub(crate) fn value_at<'a, 'i>(v: &'a toml::de::DeValue<'i>, key: &str) -> (r: Option<
    &'a toml::de::DeValue<'i>,
>)
    ensures
        match r {
            Some(x) => value_tree(*v) is Table && value_tree(*v)->Table_0.dom().contains(key@)
                && value_tree(*v)->Table_0[key@] == value_tree(*x),
            None => value_tree(*v) is Table ==> !value_tree(*v)->Table_0.dom().contains(key@),
        },
{
    v.get(key).map(|x| x.get_ref())
}

/// Whether a text has no carriage return, and no byte order mark at its start.
pub open spec fn clean(s: Seq<char>) -> bool {
    &&& forall|i: int| 0 <= i < s.len() ==> #[trigger] s[i] != '\r'
    &&& s.len() > 0 ==> s[0] != '\u{feff}'
}

/// The document that a value is written as, with lists over several lines; in words why it cannot
/// be one.
pub uninterp spec fn toml_printed(t: TomlView) -> Result<Seq<char>, Seq<char>>;

/// `toml::to_string_pretty`: the document, or the text of the error, depends on what the value holds
/// alone. Carriage returns are written as escapes, and a document begins with a key or a bracket.
/// What is written of a value that was read from a document, and into which texts were put, is read
/// back as the same, dates among it: they are written as they are read. A document may be written so
/// deep in itself that it is not read at all, which nestings up to 64 are not. The reading back of
/// floating-point numbers is not stated, nor that of a table with the key that `toml` keeps for
/// dates.
#[verifier::external_body]
pub(crate) fn print_toml(v: &toml::Value) -> (r: Result<String, String>)
    ensures
        match r {
            Ok(text) => toml_printed(toml_tree(*v)) == Ok::<_, Seq<char>>(text@) && clean(text@)
                && read_back(toml_tree(*v), text@),
            Err(words) => toml_printed(toml_tree(*v)) == Err::<Seq<char>, _>(words@),
        },
{
    toml::to_string_pretty(v).map_err(|e| e.to_string())
}

/// The document that a value is written as, with each list in one line; in words why it cannot be
/// one.
pub uninterp spec fn toml_plain(t: TomlView) -> Result<Seq<char>, Seq<char>>;

/// `toml::to_string`: the document, or the text of the error, depends on what the value holds alone.
/// What is written is read back as that of `toml::to_string_pretty` is.
#[verifier::external_body]
pub(crate) fn print_plain_toml(v: &toml::Value) -> (r: Result<String, String>)
    ensures
        match r {
            Ok(text) => toml_plain(toml_tree(*v)) == Ok::<_, Seq<char>>(text@) && read_back(
                toml_tree(*v),
                text@,
            ),
            Err(words) => toml_plain(toml_tree(*v)) == Err::<Seq<char>, _>(words@),
        },
{
    toml::to_string(v).map_err(|e| e.to_string())
}

// ---------------------------------------------------------------- std::path

/// The directory that a path lies in, or `None` of a root and of the empty path. The separators
/// and prefixes are those of the platform that the library is built for.
pub uninterp spec fn path_parent(p: Seq<char>) -> Option<Seq<char>>;

/// `Path::parent`: depends on the path alone.
#[verifier::external_body]
pub(crate) fn parent_of(p: &str) -> (r: Option<String>)
    ensures
        text_view(r) == path_parent(p@),
{
    std::path::Path::new(p).parent().map(|d| d.to_string_lossy().into_owned())
}

/// A path taken from a directory. The separators and prefixes are those of the platform that the
/// library is built for.
pub uninterp spec fn path_join(base: Seq<char>, part: Seq<char>) -> Seq<char>;

/// `Path::join`: depends on the two paths alone. An absolute path replaces the directory.
#[verifier::external_body]
pub(crate) fn join_path(base: &str, part: &str) -> (r: String)
    ensures
        r@ == path_join(base@, part@),
        path_is_absolute(part@) ==> r@ == part@,
{
    std::path::Path::new(base).join(part).to_string_lossy().into_owned()
}

/// Whether a path does not depend on a directory, on the platform that the library is built for.
pub uninterp spec fn path_is_absolute(p: Seq<char>) -> bool;

/// `Path::is_absolute`: depends on the path alone.
#[verifier::external_body]
pub(crate) fn is_absolute_path(p: &str) -> (r: bool)
    ensures
        r == path_is_absolute(p@),
{
    std::path::Path::new(p).is_absolute()
}

/// Whether two paths are equal part by part, on the platform that the library is built for.
pub uninterp spec fn path_same(a: Seq<char>, b: Seq<char>) -> bool;

/// `PartialEq` of `Path`: depends on the two paths alone.
#[verifier::external_body]
pub(crate) fn same_path(a: &str, b: &str) -> (r: bool)
    ensures
        r == path_same(a@, b@),
{
    std::path::Path::new(a) == std::path::Path::new(b)
}

/// The last part of a path, on the platform that the library is built for.
pub uninterp spec fn path_name(p: Seq<char>) -> Option<Seq<char>>;

/// `Path::file_name`: depends on the path alone.
#[verifier::external_body]
pub(crate) fn name_of(p: &str) -> (r: Option<String>)
    ensures
        text_view(r) == path_name(p@),
{
    std::path::Path::new(p).file_name().map(|s| s.to_string_lossy().into_owned())
}

/// The name of a file without its extension, on the platform that the library is built for.
pub uninterp spec fn path_stem(p: Seq<char>) -> Option<Seq<char>>;

/// `Path::file_stem`: depends on the path alone.
#[verifier::external_body]
pub(crate) fn stem_of(p: &str) -> (r: Option<String>)
    ensures
        text_view(r) == path_stem(p@),
{
    std::path::Path::new(p).file_stem().map(|s| s.to_string_lossy().into_owned())
}

/// The extension of a file, on the platform that the library is built for.
pub uninterp spec fn path_extension(p: Seq<char>) -> Option<Seq<char>>;

/// `Path::extension`: depends on the path alone.
#[verifier::external_body]
pub(crate) fn extension_of(p: &str) -> (r: Option<String>)
    ensures
        text_view(r) == path_extension(p@),
{
    std::path::Path::new(p).extension().map(|s| s.to_string_lossy().into_owned())
}

} // verus!
