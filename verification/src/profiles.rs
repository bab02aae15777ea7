//! The profiles of a user. Imported originals are never modified.
use crate::config::{
    base_of, config_fault, decoded, has_field, hollow, mode_field, names, parsed, placed, slot,
    transport_field, wireguard_field, Config, ConfigError, Group,
};
use crate::net::SocketAddr;
use crate::numbers::{hexadecimal, hexadecimal_text};
use crate::outside::{
    clean, document_of, edit, edited, extension_of, is_absolute_path, join_path, nested, parent_of,
    parse_toml, path_extension, path_is_absolute, path_join, path_parent, path_stem, print_toml,
    put_inner_text, put_text, settled, stem_of, toml_at, toml_document, toml_keys, toml_printed,
    toml_text, toml_tree, unmixed, TomlView,
};
use crate::pieces::{
    drop_leading, index_of, lemma_index_of_first, lines, split_first, to_unix_endings, trim,
    trim_end, trimmed, unix_endings, unix_endings_keep_unix_text, without_leading,
};
use crate::text::{
    all_hex, chars_of, control, is_control, lowered, only_hex, same, space, str_view, text_of,
    to_lower,
};
use crate::wgconfig::{
    after_line, content, no_settings, prepare, understood, WgError, WgErrorKind,
};
use vstd::prelude::*;
use vstd::utf8::encode_utf8;

verus! {

/// The tunnel configuration that a new profile begins with.
pub const TEMPLATE: &'static str = "# xxtab 隧道配置
server = \"wss://vpn.example.com\"
path_prefix = \"v1\"
remote = \"127.0.0.1:7007\"
listen = \"127.0.0.1:51820\"

[wireguard]
config = \"wg.conf\"
name = \"xxtab0\"
mtu = 1280

[transport]
latency_mode = \"balanced\"
diagnostics_interval_secs = 15
";

/// The WireGuard configuration that a new profile begins with.
pub const WG_TEMPLATE: &'static str = "[Interface]
PrivateKey = 填写客户端私钥
Address = 10.0.0.2/32

[Peer]
PublicKey = 填写服务端公钥
AllowedIPs = 10.0.0.0/24
Endpoint = 127.0.0.1:51820
PersistentKeepalive = 25
";

/// The largest file of a profile: 128 KiB.
pub const MAX_FILE: u64 = 131_072;

/// The largest number of profiles.
pub const MAX_PROFILES: usize = 100;

/// The largest number of characters of a name.
pub const MAX_NAME: usize = 60;

// ---------------------------------------------------------------- types

/// A profile: its name, and the name of the directory that holds it.
#[derive(Debug)]
pub struct Profile {
    pub name: String,
    pub id: String,
}

#[verifier::ext_equal]
pub struct ProfileView {
    pub name: Seq<char>,
    pub id: Seq<char>,
}

impl View for Profile {
    type V = ProfileView;

    open spec fn view(&self) -> ProfileView {
        ProfileView { name: self.name@, id: self.id@ }
    }
}

/// The profiles of a user, and which one is selected.
#[derive(Debug)]
pub struct Catalog {
    pub profiles: Vec<Profile>,
    pub selected: usize,
}

#[verifier::ext_equal]
pub struct CatalogView {
    pub profiles: Seq<ProfileView>,
    pub selected: usize,
}

pub open spec fn profile_views(s: Seq<Profile>) -> Seq<ProfileView> {
    s.map_values(|p: Profile| p@)
}

impl View for Catalog {
    type V = CatalogView;

    open spec fn view(&self) -> CatalogView {
        CatalogView { profiles: profile_views(self.profiles@), selected: self.selected }
    }
}

impl Default for Catalog {
    fn default() -> (r: Self)
        ensures
            r@ == (CatalogView { profiles: seq![], selected: 0 }),
    {
        let r = Catalog { profiles: Vec::new(), selected: 0 };
        assert(r@.profiles =~= seq![]);
        r
    }
}

/// The profiles below a directory.
#[derive(Debug)]
pub struct Store {
    pub root: String,
    pub catalog: Catalog,
}

/// A profile as it is edited.
#[derive(Debug)]
pub struct Draft {
    pub name: String,
    pub tunnel: String,
    pub wireguard: String,
}

#[verifier::ext_equal]
pub struct DraftView {
    pub name: Seq<char>,
    pub tunnel: Seq<char>,
    pub wireguard: Seq<char>,
}

impl View for Draft {
    type V = DraftView;

    open spec fn view(&self) -> DraftView {
        DraftView { name: self.name@, tunnel: self.tunnel@, wireguard: self.wireguard@ }
    }
}

/// Why a profile is refused.
#[derive(Debug)]
pub enum ProfileError {
    /// A file is longer than 128 KiB.
    FileTooLarge,
    TooManyProfiles,
    BadId,
    NotSelected,
    Name,
    TooLarge,
    Syntax,
    NotATable,
    NoParent,
    CaText,
    CaRelative,
    NoWireGuard,
    /// The document cannot be written, and why.
    Print(String),
    ImportedNoWireGuard,
    Full,
    Config(ConfigError),
    WireGuard(WgError),
}

#[verifier::ext_equal]
pub enum ProfileFault {
    FileTooLarge,
    TooManyProfiles,
    BadId,
    NotSelected,
    Name,
    TooLarge,
    Syntax,
    NotATable,
    NoParent,
    CaText,
    CaRelative,
    NoWireGuard,
    Print(Seq<char>),
    ImportedNoWireGuard,
    Full,
    Config(ConfigError),
    WireGuard((WgErrorKind, Seq<char>)),
}

impl View for ProfileError {
    type V = ProfileFault;

    open spec fn view(&self) -> ProfileFault {
        match *self {
            ProfileError::FileTooLarge => ProfileFault::FileTooLarge,
            ProfileError::TooManyProfiles => ProfileFault::TooManyProfiles,
            ProfileError::BadId => ProfileFault::BadId,
            ProfileError::NotSelected => ProfileFault::NotSelected,
            ProfileError::Name => ProfileFault::Name,
            ProfileError::TooLarge => ProfileFault::TooLarge,
            ProfileError::Syntax => ProfileFault::Syntax,
            ProfileError::NotATable => ProfileFault::NotATable,
            ProfileError::NoParent => ProfileFault::NoParent,
            ProfileError::CaText => ProfileFault::CaText,
            ProfileError::CaRelative => ProfileFault::CaRelative,
            ProfileError::NoWireGuard => ProfileFault::NoWireGuard,
            ProfileError::Print(words) => ProfileFault::Print(words@),
            ProfileError::ImportedNoWireGuard => ProfileFault::ImportedNoWireGuard,
            ProfileError::Full => ProfileFault::Full,
            ProfileError::Config(e) => ProfileFault::Config(e),
            ProfileError::WireGuard(e) => ProfileFault::WireGuard(e@),
        }
    }
}

/// The words in which a refusal is told.
pub open spec fn refusal(e: ProfileFault) -> Seq<char> {
    match e {
        ProfileFault::FileTooLarge => "配置文件超过 128 KiB"@,
        ProfileFault::TooManyProfiles => "最多支持 100 份配置"@,
        ProfileFault::BadId => "配置目录标识不合法"@,
        ProfileFault::NotSelected => "请选择配置"@,
        ProfileFault::Name => "配置名称需要 1–60 个字符"@,
        ProfileFault::TooLarge => "配置过大"@,
        ProfileFault::Syntax => "隧道 TOML 语法错误，请检查字段和值"@,
        ProfileFault::NotATable => "隧道配置必须是 TOML 表"@,
        ProfileFault::NoParent => "配置没有父目录"@,
        ProfileFault::CaText => "ca_file 必须是路径文本"@,
        ProfileFault::CaRelative => "界面配置中的 ca_file 请使用绝对路径；导入已有配置会自动转换"@,
        ProfileFault::NoWireGuard => "缺少 [wireguard] 配置段"@,
        ProfileFault::Print(words) => "无法生成 TOML 配置: "@ + words,
        ProfileFault::ImportedNoWireGuard => "导入的 TOML 缺少 [wireguard]"@,
        ProfileFault::Full => "配置数量已达到上限"@,
        ProfileFault::Config(e) => crate::config::refusal(e),
        ProfileFault::WireGuard(e) => "WireGuard 配置未通过检查: "@ + crate::wgconfig::refusal(e),
    }
}

impl ProfileError {
    /// The refusal in words.
    pub fn message(&self) -> (r: String)
        ensures
            r@ == refusal(self@),
    {
        let mut out = String::new();
        match self {
            ProfileError::FileTooLarge => out.append("配置文件超过 128 KiB"),
            ProfileError::TooManyProfiles => out.append("最多支持 100 份配置"),
            ProfileError::BadId => out.append("配置目录标识不合法"),
            ProfileError::NotSelected => out.append("请选择配置"),
            ProfileError::Name => out.append("配置名称需要 1–60 个字符"),
            ProfileError::TooLarge => out.append("配置过大"),
            ProfileError::Syntax => out.append("隧道 TOML 语法错误，请检查字段和值"),
            ProfileError::NotATable => out.append("隧道配置必须是 TOML 表"),
            ProfileError::NoParent => out.append("配置没有父目录"),
            ProfileError::CaText => out.append("ca_file 必须是路径文本"),
            ProfileError::CaRelative => out.append(
                "界面配置中的 ca_file 请使用绝对路径；导入已有配置会自动转换",
            ),
            ProfileError::NoWireGuard => out.append("缺少 [wireguard] 配置段"),
            ProfileError::Print(words) => {
                out.append("无法生成 TOML 配置: ");
                out.append(words.as_str());
            },
            ProfileError::ImportedNoWireGuard => out.append("导入的 TOML 缺少 [wireguard]"),
            ProfileError::Full => out.append("配置数量已达到上限"),
            ProfileError::Config(e) => out.append(e.message().as_str()),
            ProfileError::WireGuard(e) => {
                out.append("WireGuard 配置未通过检查: ");
                out.append(e.message().as_str());
            },
        }
        assert(out@ =~= refusal(self@));
        out
    }
}

// ---------------------------------------------------------------- files

/// The text of a file as it is worked with: without byte order marks, with Unix line endings.
pub open spec fn cleaned(s: Seq<char>) -> Seq<char> {
    unix_endings(without_leading(s, '\u{feff}'))
}

/// Whether a file of a size may be read.
pub fn check_size(size: u64) -> (r: Result<(), ProfileError>)
    ensures
        match r {
            Ok(()) => size <= MAX_FILE,
            Err(e) => size > MAX_FILE && e@ == ProfileFault::FileTooLarge,
        },
{
    if size <= MAX_FILE {
        Ok(())
    } else {
        Err(ProfileError::FileTooLarge)
    }
}

/// The text of a file as it is worked with.
pub fn read_text(text: &str) -> (r: String)
    ensures
        r@ == cleaned(text@),
{
    to_unix_endings(drop_leading(&chars_of(text), '\u{feff}'))
}

// ---------------------------------------------------------------- store

/// Whether the name of a directory is one that the store gives.
pub open spec fn id_ok(id: Seq<char>) -> bool {
    id.len() > 0 && all_hex(id)
}

/// Why a catalog is refused.
pub open spec fn catalog_fault(c: CatalogView) -> Option<ProfileFault> {
    if c.profiles.len() > MAX_PROFILES {
        Some(ProfileFault::TooManyProfiles)
    } else if exists|i: int| 0 <= i < c.profiles.len() && !id_ok((#[trigger] c.profiles[i]).id) {
        Some(ProfileFault::BadId)
    } else {
        None
    }
}

/// The path of the tunnel configuration of a profile.
pub open spec fn tunnel_path(root: Seq<char>, id: Seq<char>) -> Seq<char> {
    path_join(path_join(root, id), "xxtab.toml"@)
}

/// The path of the WireGuard configuration of a profile.
pub open spec fn wireguard_path(root: Seq<char>, id: Seq<char>) -> Seq<char> {
    path_join(path_join(root, id), "wg.conf"@)
}

/// A profile of a catalog to edit, given what its two files hold.
pub open spec fn loaded(c: CatalogView, index: usize, tunnel: Seq<char>, wireguard: Seq<char>) -> Result<
    DraftView,
    ProfileFault,
> {
    if index < c.profiles.len() {
        Ok(
            DraftView {
                name: c.profiles[index as int].name,
                tunnel: cleaned(tunnel),
                wireguard: cleaned(wireguard),
            },
        )
    } else {
        Err(ProfileFault::NotSelected)
    }
}

impl Store {
    /// Opens the store of a directory with its catalog.
    pub fn open(root: String, catalog: Catalog) -> (r: Result<Self, ProfileError>)
        ensures
            match r {
                Ok(s) => catalog_fault(catalog@) is None && s.root@ == root@ && s.catalog@
                    == catalog@,
                Err(e) => catalog_fault(catalog@) == Some(e@),
            },
    {
        if catalog.profiles.len() > MAX_PROFILES {
            return Err(ProfileError::TooManyProfiles);
        }
        for i in 0..catalog.profiles.len()
            invariant
                catalog@.profiles.len() <= MAX_PROFILES,
                forall|j: int| 0 <= j < i ==> id_ok((#[trigger] catalog@.profiles[j]).id),
        {
            let id = chars_of(catalog.profiles[i].id.as_str());
            assert(catalog@.profiles[i as int] == catalog.profiles@[i as int]@);
            if id.len() == 0 || !only_hex(&id) {
                return Err(ProfileError::BadId);
            }
        }
        Ok(Store { root, catalog })
    }

    /// The path of the tunnel configuration of a profile.
    pub fn path(&self, index: usize) -> (r: Result<String, ProfileError>)
        ensures
            match r {
                Ok(p) => index < self.catalog@.profiles.len() && p@ == tunnel_path(
                    self.root@,
                    self.catalog@.profiles[index as int].id,
                ),
                Err(e) => index >= self.catalog@.profiles.len() && e@ == ProfileFault::NotSelected,
            },
    {
        if index < self.catalog.profiles.len() {
            let dir = join_path(self.root.as_str(), self.catalog.profiles[index].id.as_str());
            Ok(join_path(dir.as_str(), "xxtab.toml"))
        } else {
            Err(ProfileError::NotSelected)
        }
    }

    /// The path of the WireGuard configuration of a profile.
    pub fn wireguard(&self, index: usize) -> (r: Result<String, ProfileError>)
        ensures
            match r {
                Ok(p) => index < self.catalog@.profiles.len() && p@ == wireguard_path(
                    self.root@,
                    self.catalog@.profiles[index as int].id,
                ),
                Err(e) => index >= self.catalog@.profiles.len() && e@ == ProfileFault::NotSelected,
            },
    {
        if index < self.catalog.profiles.len() {
            let dir = join_path(self.root.as_str(), self.catalog.profiles[index].id.as_str());
            Ok(join_path(dir.as_str(), "wg.conf"))
        } else {
            Err(ProfileError::NotSelected)
        }
    }

    /// A profile to edit, given what its two files hold.
    pub fn load(&self, index: usize, tunnel: &str, wireguard: &str) -> (r: Result<
        Draft,
        ProfileError,
    >)
        ensures
            match r {
                Ok(d) => loaded(self.catalog@, index, tunnel@, wireguard@) == Ok::<_, ProfileFault>(
                    d@,
                ),
                Err(e) => loaded(self.catalog@, index, tunnel@, wireguard@) == Err::<DraftView, _>(
                    e@,
                ),
            },
    {
        if index < self.catalog.profiles.len() {
            Ok(
                Draft {
                    name: self.catalog.profiles[index].name.clone(),
                    tunnel: read_text(tunnel),
                    wireguard: read_text(wireguard),
                },
            )
        } else {
            Err(ProfileError::NotSelected)
        }
    }

    /// Selects a profile.
    pub fn select(&mut self, index: usize) -> (r: Result<(), ProfileError>)
        ensures
            final(self).root@ == old(self).root@,
            match r {
                Ok(()) => index < old(self).catalog@.profiles.len() && final(self).catalog@ == (
                CatalogView { selected: index, ..old(self).catalog@ }),
                Err(e) => index >= old(self).catalog@.profiles.len() && e@
                    == ProfileFault::NotSelected && final(self).catalog@ == old(self).catalog@,
            },
    {
        if index < self.catalog.profiles.len() {
            self.catalog.selected = index;
            Ok(())
        } else {
            Err(ProfileError::NotSelected)
        }
    }
}

// ---------------------------------------------------------------- normal form

/// A table with a text at a key.
pub open spec fn with_text(m: Map<Seq<char>, TomlView>, key: Seq<char>, text: Seq<char>) -> Map<
    Seq<char>,
    TomlView,
> {
    m.insert(key, TomlView::Text(text))
}

/// The document with its `ca_file` made independent of a directory. One that is imported from a
/// file is taken from the directory of that file; one that is edited has to be absolute.
pub open spec fn with_ca(m: Map<Seq<char>, TomlView>, source: Option<Seq<char>>) -> Result<
    Map<Seq<char>, TomlView>,
    ProfileFault,
> {
    match source {
        Some(path) => match path_parent(path) {
            None => Err(ProfileFault::NoParent),
            Some(base) => if !m.dom().contains("ca_file"@) {
                Ok(m)
            } else {
                match m["ca_file"@] {
                    TomlView::Text(ca) => Ok(with_text(m, "ca_file"@, path_join(base, ca))),
                    _ => Err(ProfileFault::CaText),
                }
            },
        },
        None => if m.dom().contains("ca_file"@) && (m["ca_file"@] matches TomlView::Text(ca)
            && !path_is_absolute(ca)) {
            Err(ProfileFault::CaRelative)
        } else {
            Ok(m)
        },
    }
}

/// The document with `wg.conf` as the path of its WireGuard configuration.
pub open spec fn with_wireguard(m: Map<Seq<char>, TomlView>) -> Result<TomlView, ProfileFault> {
    if m.dom().contains("wireguard"@) && m["wireguard"@] is Table {
        Ok(
            TomlView::Table(
                m.insert(
                    "wireguard"@,
                    TomlView::Table(with_text(m["wireguard"@]->Table_0, "config"@, "wg.conf"@)),
                ),
            ),
        )
    } else {
        Err(ProfileFault::NoWireGuard)
    }
}

/// The normal form of a document: the managed WireGuard path, and a `ca_file` that keeps its
/// meaning.
pub open spec fn normal(document: Option<TomlView>, source: Option<Seq<char>>) -> Result<
    TomlView,
    ProfileFault,
> {
    match document {
        None => Err(ProfileFault::Syntax),
        Some(TomlView::Table(m)) => match with_ca(m, source) {
            Err(e) => Err(e),
            Ok(own) => with_wireguard(own),
        },
        Some(_) => Err(ProfileFault::NotATable),
    }
}

/// The text of the normal form of a document.
pub open spec fn normal_text(text: Seq<char>, source: Option<Seq<char>>) -> Result<
    Seq<char>,
    ProfileFault,
> {
    match normal(toml_document(text), source) {
        Err(e) => Err(e),
        Ok(t) => match toml_printed(t) {
            Ok(s) => Ok(s),
            Err(words) => Err(ProfileFault::Print(words)),
        },
    }
}

/// Puts a document into its normal form.
pub fn normalize_document(document: &mut toml::Value, source: Option<&str>) -> (r: Result<
    (),
    ProfileError,
>)
    ensures
        match r {
            Ok(()) => normal(
                Some(toml_tree(*old(document))),
                str_view(source),
            ) == Ok::<_, ProfileFault>(toml_tree(*final(document))),
            Err(e) => normal(Some(toml_tree(*old(document))), str_view(source))
                == Err::<TomlView, _>(e@) && *final(document) == *old(document),
        },
{
    if toml_keys(document).is_none() {
        return Err(ProfileError::NotATable);
    }
    let changed: Option<String> = match source {
        Some(path) => {
            let base = match parent_of(path) {
                None => return Err(ProfileError::NoParent),
                Some(base) => base,
            };
            match toml_at(document, "ca_file") {
                None => None,
                Some(ca) => match toml_text(ca) {
                    None => return Err(ProfileError::CaText),
                    Some(own) => Some(join_path(base.as_str(), own)),
                },
            }
        },
        None => {
            if let Some(ca) = toml_at(document, "ca_file") {
                if let Some(own) = toml_text(ca) {
                    if !is_absolute_path(own) {
                        return Err(ProfileError::CaRelative);
                    }
                }
            }
            None
        },
    };
    let has_table = match toml_at(document, "wireguard") {
        None => false,
        Some(wg) => toml_keys(wg).is_some(),
    };
    if !has_table {
        return Err(ProfileError::NoWireGuard);
    }
    if let Some(own) = changed {
        put_text(document, "ca_file", own);
    }
    put_inner_text(document, "wireguard", "config", "wg.conf".to_owned());
    Ok(())
}

/// The text of the normal form of a document.
pub fn normalize(text: &str, source: Option<&str>) -> (r: Result<String, ProfileError>)
    ensures
        match r {
            Ok(s) => normal_text(text@, str_view(source)) == Ok::<_, ProfileFault>(
                s@,
            ),
            Err(e) => normal_text(text@, str_view(source)) == Err::<Seq<char>, _>(
                e@,
            ),
        },
        r matches Ok(s) ==> clean(s@) && ({
            let t = normal(toml_document(text@), str_view(source))->Ok_0;
            settled(t) || unmixed(t) && document_of(s@) is Some ==> toml_document(s@) == Some(t)
                && document_of(s@) == Some(t)
        }),
{
    let mut document = match parse_toml(text) {
        None => return Err(ProfileError::Syntax),
        Some(v) => v,
    };
    match normalize_document(&mut document, source) {
        Err(e) => Err(e),
        Ok(()) => {
            proof {
                lemma_normal_is_edited(text@, str_view(source));
            }
            match print_toml(&document) {
                Err(words) => Err(ProfileError::Print(words)),
                Ok(s) => Ok(s),
            }
        },
    }
}

/// The normal form of a document is the document with one or two texts put into it.
proof fn lemma_normal_is_edited(text: Seq<char>, source: Option<Seq<char>>)
    requires
        normal(toml_document(text), source) is Ok,
    ensures
        exists|edits: nat| edited(normal(toml_document(text), source)->Ok_0, edits),
{
    lemma_dates_are_no_fields();
    let first = toml_document(text)->0;
    let m = first->Table_0;
    let t = normal(toml_document(text), source)->Ok_0;
    assert(edited(first, 0));
    let own = with_ca(m, source)->Ok_0;
    if own == m {
        assert(edit(first, Some("wireguard"@), "config"@, "wg.conf"@) == Some(t));
        assert(edited(t, 1));
    } else {
        let ca = own["ca_file"@]->Text_0;
        let second = TomlView::Table(own);
        assert(edit(first, None, "ca_file"@, ca) == Some(second));
        assert(edited(second, 1));
        assert(edit(second, Some("wireguard"@), "config"@, "wg.conf"@) == Some(t));
        assert(edited(t, 2));
    }
}

// ---------------------------------------------------------------- saving

/// Whether a name can be given to a profile.
pub open spec fn title_ok(name: Seq<char>) -> bool {
    &&& trimmed(name).len() > 0
    &&& name.len() <= MAX_NAME
    &&& forall|i: int| 0 <= i < name.len() ==> !control(#[trigger] name[i])
}

/// Why a WireGuard configuration is refused beside a relay that listens on an address.
pub open spec fn wireguard_refusal(text: Seq<char>, listen: SocketAddr) -> Option<
    (WgErrorKind, Seq<char>),
> {
    match understood(text) {
        Err(e) => Some(e),
        Ok(v) => if v.port != 0 && v.port == listen.port {
            Some((WgErrorKind::SamePort, Seq::empty()))
        } else {
            None
        },
    }
}

/// A draft that is ready to be saved: its place, its name, and its tunnel configuration in normal
/// form.
#[derive(Debug)]
pub struct Staged {
    pub index: usize,
    pub name: String,
    pub tunnel: String,
}

#[verifier::ext_equal]
pub struct StagedView {
    pub index: usize,
    pub name: Seq<char>,
    pub tunnel: Seq<char>,
}

impl View for Staged {
    type V = StagedView;

    open spec fn view(&self) -> StagedView {
        StagedView { index: self.index, name: self.name@, tunnel: self.tunnel@ }
    }
}

/// Why a draft with a tunnel configuration in normal form is refused.
pub open spec fn pair_fault(tunnel: Seq<char>, wireguard: Seq<char>, root: Seq<char>) -> Option<
    ProfileFault,
> {
    match parsed(tunnel, path_join(root, "xxtab.toml"@)) {
        Err(e) => Some(ProfileFault::Config(e)),
        Ok(c) => match c.wireguard {
            None => Some(ProfileFault::NoWireGuard),
            Some(_) => match wireguard_refusal(wireguard, c.listen) {
                Some(e) => Some(ProfileFault::WireGuard(e)),
                None => None,
            },
        },
    }
}

/// What a draft is saved as in a store of so many profiles, or why it is refused.
pub open spec fn staged(d: DraftView, root: Seq<char>, count: nat, index: Option<usize>) -> Result<
    StagedView,
    ProfileFault,
> {
    if !title_ok(d.name) {
        Err(ProfileFault::Name)
    } else if encode_utf8(d.tunnel).len() > MAX_FILE || encode_utf8(d.wireguard).len() > MAX_FILE {
        Err(ProfileFault::TooLarge)
    } else {
        match normal_text(d.tunnel, None) {
            Err(e) => Err(e),
            Ok(tunnel) => match pair_fault(tunnel, d.wireguard, root) {
                Some(e) => Err(e),
                None => {
                    let place = match index {
                        Some(i) => i as nat,
                        None => count,
                    };
                    if place <= count && place < MAX_PROFILES {
                        Ok(
                            StagedView {
                                index: place as usize,
                                name: trimmed(d.name),
                                tunnel,
                            },
                        )
                    } else {
                        Err(ProfileFault::Full)
                    }
                },
            },
        }
    }
}

/// A catalog with a profile at a place, and that place selected.
pub open spec fn committed(c: CatalogView, index: usize, profile: ProfileView) -> CatalogView {
    CatalogView {
        profiles: if index == c.profiles.len() {
            c.profiles.push(profile)
        } else {
            c.profiles.update(index as int, profile)
        },
        selected: index,
    }
}

/// What a catalog was before a profile was put in it.
#[derive(Debug)]
pub struct Undo {
    pub replaced: Option<Profile>,
    pub selected: usize,
}

/// A catalog without the profile that was put at a place.
pub open spec fn undone(
    c: CatalogView,
    index: usize,
    replaced: Option<ProfileView>,
    selected: usize,
) -> CatalogView {
    CatalogView {
        profiles: match replaced {
            Some(p) => c.profiles.update(index as int, p),
            None => c.profiles.drop_last(),
        },
        selected,
    }
}

/// What stood at a place of a catalog.
pub open spec fn at(c: CatalogView, index: usize) -> Option<ProfileView> {
    if index < c.profiles.len() {
        Some(c.profiles[index as int])
    } else {
        None
    }
}

pub open spec fn profile_view(p: Option<Profile>) -> Option<ProfileView> {
    match p {
        Some(p) => Some(p@),
        None => None,
    }
}

/// Whether a tunnel configuration names the `wg.conf` beside it, wherever it is kept.
pub open spec fn paired(tunnel: Seq<char>) -> bool {
    forall|path: Seq<char>| #[trigger]
        parsed(tunnel, path) matches Ok(c) && c.wireguard matches Some(w) && w.config == path_join(
            base_of(path),
            "wg.conf"@,
        )
}

/// Whether loading what a draft was saved as gives the draft back, whatever directory it got: the
/// trimmed name, the tunnel configuration that was saved, and the WireGuard configuration with Unix
/// line endings.
pub open spec fn gives_back(c: CatalogView, d: DraftView, s: StagedView) -> bool {
    forall|id: Seq<char>|
        loaded(
            #[trigger] committed(c, s.index, ProfileView { name: s.name, id }),
            s.index,
            s.tunnel,
            d.wireguard,
        ) == Ok::<_, ProfileFault>(
            DraftView {
                name: trimmed(d.name),
                tunnel: s.tunnel,
                wireguard: unix_endings(d.wireguard),
            },
        )
}

fn is_title(name: &str) -> (r: bool)
    ensures
        r == title_ok(name@),
{
    let chars = chars_of(name);
    if trim(&chars).len() == 0 || chars.len() > MAX_NAME {
        return false;
    }
    for i in 0..chars.len()
        invariant
            chars@ == name@,
            forall|j: int| 0 <= j < i ==> !control(#[trigger] name@[j]),
    {
        if is_control(chars[i]) {
            assert(control(name@[i as int]));
            return false;
        }
    }
    true
}

fn check_pair(tunnel: &str, wireguard: &str, root: &str) -> (r: Result<(), ProfileError>)
    ensures
        match r {
            Ok(()) => pair_fault(tunnel@, wireguard@, root@) is None,
            Err(e) => pair_fault(tunnel@, wireguard@, root@) == Some(e@),
        },
{
    let cfg = match Config::parse(tunnel, join_path(root, "xxtab.toml").as_str()) {
        Err(e) => return Err(ProfileError::Config(e)),
        Ok(cfg) => cfg,
    };
    match &cfg.wireguard {
        None => Err(ProfileError::NoWireGuard),
        Some(own) => match prepare(wireguard, cfg.listen, own.mtu, None) {
            Err(e) => Err(ProfileError::WireGuard(e)),
            Ok(_) => Ok(()),
        },
    }
}

impl Store {
    /// Checks a draft, in place of a profile or as a new one. Nothing is changed. Loading what is
    /// saved gives the draft back. The tunnel configuration that is saved holds what the draft holds
    /// in normal form, and names the WireGuard configuration beside it wherever it lies. Of one with a
    /// floating-point number, or with the key that `toml` keeps for dates, this is not stated: it can
    /// stand only behind the fields of a transport that is given as a list.
    pub fn stage(&self, index: Option<usize>, draft: &Draft) -> (r: Result<Staged, ProfileError>)
        ensures
            match r {
                Ok(s) => staged(draft@, self.root@, self.catalog@.profiles.len(), index) == Ok::<
                    _,
                    ProfileFault,
                >(s@),
                Err(e) => staged(draft@, self.root@, self.catalog@.profiles.len(), index) == Err::<
                    StagedView,
                    _,
                >(e@),
            },
            r matches Ok(s) ==> gives_back(self.catalog@, draft@, s@),
            r matches Ok(s) ==> (unmixed(normal(toml_document(draft@.tunnel), None)->Ok_0)
                ==> toml_document(s@.tunnel) == Some(
                normal(toml_document(draft@.tunnel), None)->Ok_0,
            ) && paired(s@.tunnel)),
    {
        if !is_title(draft.name.as_str()) {
            return Err(ProfileError::Name);
        }
        if draft.tunnel.as_str().as_bytes().len() > MAX_FILE as usize
            || draft.wireguard.as_str().as_bytes().len() > MAX_FILE as usize {
            return Err(ProfileError::TooLarge);
        }
        let tunnel = match normalize(draft.tunnel.as_str(), None) {
            Err(e) => return Err(e),
            Ok(t) => t,
        };
        if let Err(e) = check_pair(tunnel.as_str(), draft.wireguard.as_str(), self.root.as_str()) {
            return Err(e);
        }
        proof {
            if unmixed(normal(toml_document(draft@.tunnel), None)->Ok_0) {
                lemma_paired(draft@.tunnel, tunnel@, self.root@);
            }
            lemma_clean_is_cleaned(tunnel@);
            understood_text_has_no_mark(draft@.wireguard);
        }
        let count: usize = self.catalog.profiles.len();
        let place: usize = match index {
            Some(i) => i,
            None => count,
        };
        if !(place <= count && place < MAX_PROFILES) {
            return Err(ProfileError::Full);
        }
        Ok(
            Staged {
                index: place,
                name: text_of(trim(&chars_of(draft.name.as_str()))),
                tunnel,
            },
        )
    }

    /// Puts a profile whose files are complete into the catalog and selects it. What is returned
    /// takes it out again where the catalog cannot be written.
    pub fn commit(&mut self, index: usize, name: String, id: String) -> (r: Undo)
        requires
            index <= old(self).catalog@.profiles.len(),
        ensures
            final(self).root@ == old(self).root@,
            final(self).catalog@ == committed(
                old(self).catalog@,
                index,
                ProfileView { name: name@, id: id@ },
            ),
            profile_view(r.replaced) == at(old(self).catalog@, index),
            r.selected == old(self).catalog@.selected,
    {
        let ghost before = self.catalog@;
        let selected: usize = self.catalog.selected;
        let profile = Profile { name, id };
        let replaced = if index == self.catalog.profiles.len() {
            self.catalog.profiles.push(profile);
            None
        } else {
            let own = &self.catalog.profiles[index];
            let kept = Profile { name: own.name.clone(), id: own.id.clone() };
            assert(kept@ == before.profiles[index as int]);
            self.catalog.profiles[index] = profile;
            Some(kept)
        };
        self.catalog.selected = index;
        assert(self.catalog@.profiles =~= committed(before, index, profile@).profiles);
        Undo { replaced, selected }
    }

    /// Takes a profile out of the catalog again.
    pub fn undo(&mut self, index: usize, undo: Undo)
        requires
            index < old(self).catalog@.profiles.len(),
        ensures
            final(self).root@ == old(self).root@,
            final(self).catalog@ == undone(
                old(self).catalog@,
                index,
                profile_view(undo.replaced),
                undo.selected,
            ),
    {
        let ghost before = self.catalog@;
        match undo.replaced {
            Some(p) => {
                self.catalog.profiles[index] = p;
            },
            None => {
                let _ = self.catalog.profiles.pop();
            },
        }
        self.catalog.selected = undo.selected;
        assert(self.catalog@.profiles =~= undone(
            before,
            index,
            profile_view(undo.replaced),
            undo.selected,
        ).profiles);
    }
}

/// The name of the directory of a profile that is saved at so many nanoseconds.
pub fn new_id(nanos: u128) -> (r: String)
    ensures
        r@ == hexadecimal(nanos as nat),
        id_ok(r@),
{
    proof {
        crate::numbers::hexadecimal_is_hex(nanos as nat);
    }
    hexadecimal_text(nanos)
}

// ---------------------------------------------------------------- importing

/// A file that is imported.
#[derive(Debug)]
pub enum Import {
    /// A WireGuard configuration, which gets the tunnel configuration of a new profile.
    Whole(Draft),
    /// A tunnel configuration, and the path of its WireGuard configuration.
    Half(String, String, String),
}

#[verifier::ext_equal]
pub enum ImportView {
    Whole(DraftView),
    Half(Seq<char>, Seq<char>, Seq<char>),
}

impl View for Import {
    type V = ImportView;

    open spec fn view(&self) -> ImportView {
        match *self {
            Import::Whole(d) => ImportView::Whole(d@),
            Import::Half(name, tunnel, config) => ImportView::Half(name@, tunnel@, config@),
        }
    }
}

/// Whether the file of a path holds a tunnel configuration.
pub open spec fn is_toml(path: Seq<char>) -> bool {
    path_extension(path) matches Some(x) && lowered(x) == "toml"@
}

/// The name that the profile of an imported file gets.
pub open spec fn title_of(path: Seq<char>) -> Seq<char> {
    match path_stem(path) {
        Some(s) => s,
        None => Seq::empty(),
    }
}

/// What a file that is imported gives.
pub open spec fn imported(path: Seq<char>, text: Seq<char>) -> Result<ImportView, ProfileFault> {
    if is_toml(path) {
        match parsed(text, path) {
            Err(e) => Err(ProfileFault::Config(e)),
            Ok(c) => match c.wireguard {
                None => Err(ProfileFault::ImportedNoWireGuard),
                Some(w) => match normal_text(text, Some(path)) {
                    Err(e) => Err(e),
                    Ok(tunnel) => Ok(ImportView::Half(title_of(path), tunnel, w.config)),
                },
            },
        }
    } else {
        Ok(
            ImportView::Whole(
                DraftView { name: title_of(path), tunnel: TEMPLATE@, wireguard: text },
            ),
        )
    }
}

/// Imports the file of a path.
pub fn import(path: &str, text: &str) -> (r: Result<Import, ProfileError>)
    ensures
        match r {
            Ok(i) => imported(path@, text@) == Ok::<_, ProfileFault>(i@),
            Err(e) => imported(path@, text@) == Err::<ImportView, _>(e@),
        },
{
    let name = match stem_of(path) {
        Some(s) => s,
        None => String::new(),
    };
    assert(name@ =~= title_of(path@));
    let tunnel_file = match extension_of(path) {
        Some(x) => same(to_lower(&chars_of(x.as_str())).as_str(), "toml"),
        None => false,
    };
    if !tunnel_file {
        return Ok(
            Import::Whole(
                Draft { name, tunnel: TEMPLATE.to_owned(), wireguard: text.to_owned() },
            ),
        );
    }
    let cfg = match Config::parse(text, path) {
        Err(e) => return Err(ProfileError::Config(e)),
        Ok(cfg) => cfg,
    };
    match cfg.wireguard {
        None => Err(ProfileError::ImportedNoWireGuard),
        Some(own) => match normalize(text, Some(path)) {
            Err(e) => Err(e),
            Ok(tunnel) => Ok(Import::Half(name, tunnel, own.config)),
        },
    }
}

/// Completes an imported tunnel configuration with what its WireGuard configuration holds.
pub fn complete(name: String, tunnel: String, wireguard: &str) -> (r: Draft)
    ensures
        r@ == (DraftView { name: name@, tunnel: tunnel@, wireguard: cleaned(wireguard@) }),
{
    Draft { name, tunnel, wireguard: read_text(wireguard) }
}

// ---------------------------------------------------------------- laws

proof fn lemma_clean_is_cleaned(s: Seq<char>)
    requires
        clean(s),
    ensures
        cleaned(s) == s,
{
    unix_endings_keep_unix_text(s);
}

/// A WireGuard configuration that begins with a byte order mark is refused.
pub proof fn understood_text_has_no_mark(text: Seq<char>)
    requires
        understood(text) is Ok,
    ensures
        without_leading(text, '\u{feff}') == text,
{
    let mark = '\u{feff}';
    if text.len() > 0 && text[0] == mark {
        lemma_index_of_first(text, '\n');
        let raw = lines(text)[0];
        assert(raw.len() > 0 && raw[0] == mark);
        lemma_index_of_first(raw, '#');
        let head = raw.take(index_of(raw, '#'));
        lemma_head_stays(head);
        let line = content(raw);
        if let Some((key, value)) = split_first(line, '=') {
            lemma_index_of_first(line, '=');
            assert(key.len() > 0 && key[0] == mark);
        }
        assert(after_line(no_settings(), raw) is Err);
    }
}

proof fn lemma_head_stays(s: Seq<char>)
    requires
        s.len() > 0,
        !space(s[0]),
    ensures
        trim_end(s).len() > 0,
        trim_end(s)[0] == s[0],
    decreases s.len(),
{
    if space(s.last()) {
        lemma_head_stays(s.drop_last());
    }
}

proof fn lemma_paired(text: Seq<char>, tunnel: Seq<char>, root: Seq<char>)
    requires
        normal(toml_document(text), None) is Ok,
        document_of(tunnel) == Some(normal(toml_document(text), None)->Ok_0),
        parsed(tunnel, path_join(root, "xxtab.toml"@)) matches Ok(c) && c.wireguard is Some,
    ensures
        paired(tunnel),
{
    let t = normal(toml_document(text), None)->Ok_0;
    let c = decoded(t)->0;
    let m = t->Table_0["wireguard"@]->Table_0;
    assert(m.dom().contains("config"@) && m["config"@] == TomlView::Text("wg.conf"@));
    assert(slot(t, "wireguard"@, 6) == Some(TomlView::Table(m)));
    assert(slot(TomlView::Table(m), "config"@, 0) == Some(TomlView::Text("wg.conf"@)));
    assert(c.wireguard->0.config == "wg.conf"@);
    assert forall|path: Seq<char>| #[trigger]
        parsed(tunnel, path) matches Ok(c) && c.wireguard matches Some(w) && w.config == path_join(
            base_of(path),
            "wg.conf"@,
        ) by {
        let first = placed(c, base_of(path_join(root, "xxtab.toml"@)));
        let own = placed(c, base_of(path));
        assert(config_fault(first) is None);
        assert(config_fault(own) == config_fault(first));
    }
}

/// Whether a document describes a configuration, and gives its groups as tables.
pub open spec fn describes(t: TomlView) -> bool {
    &&& decoded(t) is Some
    &&& (slot(t, "wireguard"@, 6) matches Some(w) ==> w is Table)
    &&& (slot(t, "transport"@, 7) matches Some(x) ==> x is Table)
}

pub(crate) proof fn lemma_dates_are_no_fields()
    ensures
        !has_field(Group::Tunnel, "$__toml_private_datetime"@),
        !has_field(Group::WireGuard, "$__toml_private_datetime"@),
        !has_field(Group::Transport, "$__toml_private_datetime"@),
        "balanced"@ != "$__toml_private_datetime"@,
        "interactive"@ != "$__toml_private_datetime"@,
        "config"@ != "$__toml_private_datetime"@,
        "ca_file"@ != "$__toml_private_datetime"@,
        "name"@ != "$__toml_private_datetime"@,
        "executable"@ != "$__toml_private_datetime"@,
{
    reveal_strlit("$__toml_private_datetime");
    reveal_strlit("server");
    reveal_strlit("server_ip");
    reveal_strlit("path_prefix");
    reveal_strlit("remote");
    reveal_strlit("listen");
    reveal_strlit("ca_file");
    reveal_strlit("wireguard");
    reveal_strlit("transport");
    reveal_strlit("config");
    reveal_strlit("name");
    reveal_strlit("executable");
    reveal_strlit("mtu");
    reveal_strlit("latency_mode");
    reveal_strlit("diagnostics_interval_secs");
    reveal_strlit("balanced");
    reveal_strlit("interactive");
    assert("$__toml_private_datetime"@.len() == 24);
}

proof fn lemma_nested_grows(t: TomlView, depth: nat, more: nat)
    requires
        nested(t, depth),
        depth <= more,
    ensures
        nested(t, more),
    decreases depth,
{
    match t {
        TomlView::List(v) => {
            assert forall|i: int| 0 <= i < v.len() implies nested(
                #[trigger] v[i],
                (more - 1) as nat,
            ) by {
                lemma_nested_grows(v[i], (depth - 1) as nat, (more - 1) as nat);
            }
        },
        TomlView::Table(m) => {
            assert forall|k: Seq<char>| m.dom().contains(k) implies nested(
                #[trigger] m[k],
                (more - 1) as nat,
            ) by {
                lemma_nested_grows(m[k], (depth - 1) as nat, (more - 1) as nat);
            }
        },
        _ => {},
    }
}

proof fn lemma_mode_is_nested(t: TomlView, depth: nat)
    requires
        mode_field(Some(t)) is Some,
    ensures
        nested(t, depth + 2),
{
    reveal_with_fuel(nested, 3);
    lemma_dates_are_no_fields();
    if t is Table {
        let n = t->Table_0;
        assert(names(t, "balanced"@) || names(t, "interactive"@));
        assert(!n.dom().contains("$__toml_private_datetime"@));
        assert forall|i: Seq<char>| n.dom().contains(i) implies nested(
            #[trigger] n[i],
            (depth + 1) as nat,
        ) by {
            assert(hollow(n[i]));
        }
    }
}

/// A document that describes a configuration holds nothing that might not be read back as it is
/// written, unless it gives its transport as a list with something behind the fields.
pub proof fn configurations_are_unmixed(t: TomlView, depth: nat)
    requires
        decoded(t) is Some,
        t is Table,
        slot(t, "wireguard"@, 6) matches Some(w) ==> w is Table,
        slot(t, "transport"@, 7) matches Some(TomlView::List(l)) ==> forall|i: int|
            2 <= i < l.len() ==> nested(#[trigger] l[i], depth),
    ensures
        nested(t, depth + 5),
        unmixed(t),
{
    reveal_with_fuel(nested, 3);
    lemma_dates_are_no_fields();
    let m = t->Table_0;
    assert forall|k: Seq<char>| m.dom().contains(k) implies nested(
        #[trigger] m[k],
        (depth + 4) as nat,
    ) by {
        assert(has_field(Group::Tunnel, k));
        if k == "wireguard"@ {
            let w = m[k]->Table_0;
            assert(wireguard_field(Some(m[k])) is Some);
            assert(!w.dom().contains("$__toml_private_datetime"@));
            assert forall|j: Seq<char>| w.dom().contains(j) implies nested(
                #[trigger] w[j],
                (depth + 3) as nat,
            ) by {
                assert(has_field(Group::WireGuard, j));
            }
        } else if k == "transport"@ {
            assert(transport_field(Some(m[k])) is Some);
            match m[k] {
                TomlView::Table(x) => {
                    assert(!x.dom().contains("$__toml_private_datetime"@));
                    assert forall|j: Seq<char>| x.dom().contains(j) implies nested(
                        #[trigger] x[j],
                        (depth + 3) as nat,
                    ) by {
                        assert(has_field(Group::Transport, j));
                        if j == "latency_mode"@ {
                            lemma_mode_is_nested(x[j], (depth + 1) as nat);
                        }
                    }
                },
                TomlView::List(l) => {
                    assert forall|i: int| 0 <= i < l.len() implies nested(
                        #[trigger] l[i],
                        (depth + 3) as nat,
                    ) by {
                        if i == 0 {
                            assert(slot(m[k], "latency_mode"@, 0) == Some(l[0]));
                            lemma_mode_is_nested(l[i], (depth + 1) as nat);
                        } else if i == 1 {
                            assert(slot(m[k], "diagnostics_interval_secs"@, 1) == Some(l[1]));
                        } else {
                            lemma_nested_grows(l[i], depth, (depth + 3) as nat);
                        }
                    }
                },
                _ => {},
            }
        }
    }
}

/// A document that describes a configuration, and gives its groups as tables, is read back as it is
/// written.
pub proof fn configurations_are_settled(t: TomlView)
    requires
        describes(t),
    ensures
        settled(t),
{
    configurations_are_unmixed(t, 59);
}

/// A catalog that could not be written is what it was before.
pub proof fn failed_saves_change_nothing(c: CatalogView, index: usize, profile: ProfileView)
    requires
        index <= c.profiles.len(),
    ensures
        undone(committed(c, index, profile), index, at(c, index), c.selected) == c,
{
    assert(undone(committed(c, index, profile), index, at(c, index), c.selected).profiles
        =~= c.profiles);
}

/// Saving changes one profile at most, and selects it.
pub proof fn saves_change_one_profile(c: CatalogView, index: usize, profile: ProfileView, i: int)
    requires
        index <= c.profiles.len(),
        0 <= i < c.profiles.len(),
        i != index,
    ensures
        committed(c, index, profile).profiles[i] == c.profiles[i],
        committed(c, index, profile).profiles.len() == if index == c.profiles.len() {
            c.profiles.len() + 1
        } else {
            c.profiles.len()
        },
        committed(c, index, profile).selected == index,
{
}

/// A store stays one that can be opened: what is saved keeps the number of profiles and the names
/// of their directories within what is accepted.
pub proof fn saved_catalogs_can_be_opened(
    c: CatalogView,
    d: DraftView,
    root: Seq<char>,
    index: Option<usize>,
    nanos: nat,
)
    requires
        catalog_fault(c) is None,
        staged(d, root, c.profiles.len(), index) is Ok,
    ensures
        ({
            let s = staged(d, root, c.profiles.len(), index)->Ok_0;
            catalog_fault(
                committed(c, s.index, ProfileView { name: s.name, id: hexadecimal(nanos) }),
            ) is None
        }),
{
    let s = staged(d, root, c.profiles.len(), index)->Ok_0;
    let p = ProfileView { name: s.name, id: hexadecimal(nanos) };
    let after = committed(c, s.index, p);
    crate::numbers::hexadecimal_is_hex(nanos);
    assert forall|i: int| 0 <= i < after.profiles.len() implies id_ok(
        (#[trigger] after.profiles[i]).id,
    ) by {
        if i != s.index {
            assert(after.profiles[i] == c.profiles[i]);
        }
    }
}

/// Wherever an edited profile is kept, its `ca_file` means the same: it is absolute.
pub proof fn edited_ca_file_is_absolute(document: Option<TomlView>)
    requires
        normal(document, None) is Ok,
        decoded(normal(document, None)->Ok_0) matches Some(c) && c.ca_file is Some,
    ensures
        path_is_absolute(decoded(normal(document, None)->Ok_0)->0.ca_file->0),
{
    reveal_strlit("ca_file");
    reveal_strlit("wireguard");
    assert("ca_file"@.len() != "wireguard"@.len());
}

/// The normal form of a normal form is itself.
pub proof fn normal_form_is_stable(document: Option<TomlView>)
    requires
        normal(document, None) is Ok,
    ensures
        normal(Some(normal(document, None)->Ok_0), None) == normal(document, None),
{
    reveal_strlit("ca_file");
    reveal_strlit("wireguard");
    assert("ca_file"@.len() != "wireguard"@.len());
    let m = document->0->Table_0;
    let w = m["wireguard"@]->Table_0;
    let t = normal(document, None)->Ok_0->Table_0;
    assert(with_text(with_text(w, "config"@, "wg.conf"@), "config"@, "wg.conf"@) =~= with_text(
        w,
        "config"@,
        "wg.conf"@,
    ));
    assert(t.insert(
        "wireguard"@,
        TomlView::Table(with_text(w, "config"@, "wg.conf"@)),
    ) =~= t);
}

/// A catalog is opened exactly where it holds 100 profiles at most, and the directory of each is
/// named in hexadecimal digits.
pub proof fn catalogs_are_opened(c: CatalogView)
    ensures
        catalog_fault(c) is None <==> c.profiles.len() <= 100 && forall|i: int, j: int|
            0 <= i < c.profiles.len() ==> (#[trigger] c.profiles[i]).id.len() > 0 && (0 <= j
                < c.profiles[i].id.len() ==> ('0' <= #[trigger] c.profiles[i].id[j] <= '9' || 'a'
                <= c.profiles[i].id[j] <= 'f' || 'A' <= c.profiles[i].id[j] <= 'F')),
        c.profiles.len() > 100 ==> catalog_fault(c) == Some(ProfileFault::TooManyProfiles),
        c.profiles.len() <= 100 && catalog_fault(c) is Some ==> catalog_fault(c) == Some(
            ProfileFault::BadId,
        ),
{
    if catalog_fault(c) is None {
        assert forall|i: int, j: int| 0 <= i < c.profiles.len() implies (#[trigger] c.profiles[i]).id.len()
            > 0 && (0 <= j < c.profiles[i].id.len() ==> ('0' <= #[trigger] c.profiles[i].id[j] <= '9'
            || 'a' <= c.profiles[i].id[j] <= 'f' || 'A' <= c.profiles[i].id[j] <= 'F')) by {
            assert(id_ok(c.profiles[i].id));
            if 0 <= j < c.profiles[i].id.len() {
                assert(crate::text::hex_digit(c.profiles[i].id[j]));
            }
        }
    } else if c.profiles.len() <= 100 {
        let i = choose|i: int| 0 <= i < c.profiles.len() && !id_ok((#[trigger] c.profiles[i]).id);
        let id = c.profiles[i].id;
        if id.len() > 0 {
            let j = choose|j: int| 0 <= j < id.len() && !crate::text::hex_digit(#[trigger] id[j]);
            assert(!crate::text::hex_digit(c.profiles[i].id[j]));
        }
    }
}

/// Whether a name can be given to a profile: 60 characters at most, none of them a control
/// character, and not all of them white space.
pub open spec fn is_title_text(name: Seq<char>) -> bool {
    &&& name.len() <= 60
    &&& exists|i: int| 0 <= i < name.len() && !space(#[trigger] name[i])
    &&& forall|i: int|
        0 <= i < name.len() ==> (#[trigger] name[i]) as u32 > 0x1f && !(0x7f <= name[i] as u32
            <= 0x9f)
}

proof fn lemma_titles(name: Seq<char>)
    ensures
        title_ok(name) <==> is_title_text(name),
{
    crate::pieces::trimming_takes_white_space_only(name);
    let (a, b) = choose|a: int, b: int| #[trigger]
        crate::pieces::trims_to(name, trimmed(name), a, b);
    if trimmed(name).len() > 0 {
        assert(trimmed(name)[0] == name[a]);
        assert(!space(name[a]));
    } else {
        assert forall|i: int| 0 <= i < name.len() implies space(#[trigger] name[i]) by {
            assert(a == b);
            if i < a {
                assert(space(name[i]));
            }
        }
    }
    assert((forall|i: int| 0 <= i < name.len() ==> !control(#[trigger] name[i])) <==> (forall|i: int|
        0 <= i < name.len() ==> (#[trigger] name[i]) as u32 > 0x1f && !(0x7f <= name[i] as u32
            <= 0x9f)));
}

/// A draft is saved exactly where it has a name that can be given, both of its texts are no longer
/// than 128 KiB, its tunnel configuration has a normal form that is accepted and manages WireGuard,
/// its WireGuard configuration is accepted and does not take the port of the relay, and there is a
/// place for it among 100: the place that is asked for, or the next. Its name is trimmed.
pub proof fn drafts_are_saved(d: DraftView, root: Seq<char>, count: nat, index: Option<usize>)
    ensures
        ({
            let place = match index {
                Some(i) => i as nat,
                None => count,
            };
            let named = is_title_text(d.name);
            let short = encode_utf8(d.tunnel).len() <= 131_072 && encode_utf8(d.wireguard).len()
                <= 131_072;
            match staged(d, root, count, index) {
                Ok(s) => {
                    &&& named && short && place <= count && place < 100
                    &&& s.index == place
                    &&& s.name == trimmed(d.name)
                    &&& normal(toml_document(d.tunnel), None) matches Ok(t) && toml_printed(t)
                        == Ok::<_, Seq<char>>(s.tunnel)
                    &&& parsed(s.tunnel, path_join(root, "xxtab.toml"@)) matches Ok(c)
                        && c.wireguard is Some && (understood(d.wireguard) matches Ok(v) && (v.port
                        == 0 || v.port != c.listen.port))
                },
                Err(e) => {
                    ||| !named && e == ProfileFault::Name
                    ||| named && !short && e == ProfileFault::TooLarge
                    ||| named && short && normal(toml_document(d.tunnel), None) == Err::<TomlView, _>(
                        e,
                    )
                    ||| named && short && (normal(toml_document(d.tunnel), None) matches Ok(t) && (
                    toml_printed(t) matches Err(words) && e == ProfileFault::Print(words)))
                    ||| named && short && (normal(toml_document(d.tunnel), None) matches Ok(t) && (
                    toml_printed(t) matches Ok(text) && refused_pair(text, d.wireguard, root, e)))
                    ||| named && short && !(place <= count && place < 100) && e == ProfileFault::Full
                },
            }
        }),
{
    lemma_titles(d.name);
}

/// Why a pair of configurations is refused: the first is, it manages no WireGuard, or the second is
/// or takes the port of the relay.
pub open spec fn refused_pair(
    tunnel: Seq<char>,
    wireguard: Seq<char>,
    root: Seq<char>,
    e: ProfileFault,
) -> bool {
    match parsed(tunnel, path_join(root, "xxtab.toml"@)) {
        Err(own) => e == ProfileFault::Config(own),
        Ok(c) => {
            ||| c.wireguard is None && e == ProfileFault::NoWireGuard
            ||| c.wireguard is Some && (understood(wireguard) matches Err(own) && e
                == ProfileFault::WireGuard(own))
            ||| c.wireguard is Some && (understood(wireguard) matches Ok(v) && v.port != 0 && v.port
                == c.listen.port && e == ProfileFault::WireGuard(
                (WgErrorKind::SamePort, Seq::empty()),
            ))
        },
    }
}

/// What a normal form is: the document, with `wg.conf` as the path of its WireGuard configuration,
/// and with the path of its certificates taken from the directory of the file that it comes from.
/// Nothing else changes. Without a file that path has to be absolute.
pub proof fn normal_forms_change_two_paths(m: Map<Seq<char>, TomlView>, source: Option<Seq<char>>)
    ensures
        ({
            let ca = m.dom().contains("ca_file"@);
            let wg = m.dom().contains("wireguard"@) && m["wireguard"@] is Table;
            let good = wg && match source {
                None => ca && m["ca_file"@] is Text ==> path_is_absolute(m["ca_file"@]->Text_0),
                Some(path) => path_parent(path) is Some && (ca ==> m["ca_file"@] is Text),
            };
            let r = normal(Some(TomlView::Table(m)), source);
            &&& r is Ok <==> good
            &&& good ==> r->Ok_0 is Table && {
                let t = r->Ok_0->Table_0;
                let w = m["wireguard"@]->Table_0;
                &&& t.dom() == m.dom()
                &&& t["wireguard"@] == TomlView::Table(w.insert("config"@, TomlView::Text("wg.conf"@)))
                &&& forall|k: Seq<char>|
                    m.dom().contains(k) && k != "wireguard"@ && (k != "ca_file"@ || source is None)
                        ==> #[trigger] t[k] == m[k]
                &&& ca && source is Some ==> t["ca_file"@] == TomlView::Text(
                    path_join(path_parent(source->0)->0, m["ca_file"@]->Text_0),
                )
            }
        }),
        normal(None, source) == Err::<TomlView, _>(ProfileFault::Syntax),
{
    reveal_strlit("ca_file");
    reveal_strlit("wireguard");
    assert("ca_file"@.len() != "wireguard"@.len());
    if let Ok(t) = normal(Some(TomlView::Table(m)), source) {
        assert(t->Table_0.dom() =~= m.dom());
    }
}

/// What is put into a catalog stands at its place, and is selected; the others stay.
pub proof fn saved_profiles_stand_at_their_place(
    c: CatalogView,
    index: usize,
    p: ProfileView,
    tunnel: Seq<char>,
    wireguard: Seq<char>,
)
    requires
        index <= c.profiles.len(),
    ensures
        at(committed(c, index, p), index) == Some(p),
        committed(c, index, p).selected == index,
        forall|i: usize| i != index ==> #[trigger] at(committed(c, index, p), i) == at(c, i),
        loaded(committed(c, index, p), index, tunnel, wireguard) matches Ok(d) && d.name == p.name,
{
    assert forall|i: usize| i != index implies #[trigger] at(committed(c, index, p), i) == at(
        c,
        i,
    ) by {}
}

/// A profile is loaded under its name, with its texts without byte order marks and with Unix line
/// endings; there is nothing to load at a place without a profile.
pub proof fn profiles_are_loaded(c: CatalogView, index: usize, tunnel: Seq<char>, wireguard: Seq<char>)
    ensures
        match loaded(c, index, tunnel, wireguard) {
            Ok(d) => index < c.profiles.len() && d.name == c.profiles[index as int].name && d.tunnel
                == unix_endings(without_leading(tunnel, '\u{feff}')) && d.wireguard == unix_endings(
                without_leading(wireguard, '\u{feff}'),
            ),
            Err(e) => index >= c.profiles.len() && e == ProfileFault::NotSelected,
        },
{
}

/// The two files of a profile lie in its own directory.
pub proof fn profiles_have_their_own_files(root: Seq<char>, id: Seq<char>)
    ensures
        tunnel_path(root, id) == path_join(path_join(root, id), "xxtab.toml"@),
        wireguard_path(root, id) == path_join(path_join(root, id), "wg.conf"@),
{
}

/// What a file gives that is imported: one whose name ends in `.toml`, in capitals or not, its
/// normal form and the path of its WireGuard configuration, where it is accepted and manages
/// WireGuard; any other its text as a WireGuard configuration beside the template. It is named
/// after the file.
pub proof fn files_are_imported(path: Seq<char>, text: Seq<char>)
    ensures
        ({
            let toml = path_extension(path) matches Some(x) && lowered(x) == "toml"@;
            let name = match path_stem(path) {
                Some(s) => s,
                None => Seq::empty(),
            };
            &&& !toml ==> imported(path, text) == Ok::<_, ProfileFault>(
                ImportView::Whole(DraftView { name, tunnel: TEMPLATE@, wireguard: text }),
            )
            &&& toml ==> match imported(path, text) {
                Ok(ImportView::Whole(_)) => false,
                Ok(ImportView::Half(own, tunnel, config)) => {
                    &&& own == name
                    &&& parsed(text, path) matches Ok(c) && c.wireguard matches Some(w) && w.config
                        == config
                    &&& normal(toml_document(text), Some(path)) matches Ok(t) && toml_printed(t)
                        == Ok::<_, Seq<char>>(tunnel)
                },
                Err(e) => {
                    ||| parsed(text, path) matches Err(own) && e == ProfileFault::Config(own)
                    ||| parsed(text, path) matches Ok(c) && c.wireguard is None && e
                        == ProfileFault::ImportedNoWireGuard
                    ||| parsed(text, path) is Ok && normal(toml_document(text), Some(path)) == Err::<
                        TomlView,
                        _,
                    >(e)
                    ||| parsed(text, path) is Ok && (normal(toml_document(text), Some(path))
                        matches Ok(t) && (toml_printed(t) matches Err(words) && e
                        == ProfileFault::Print(words)))
                },
            }
        }),
{
}

} // verus!
