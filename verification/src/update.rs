//! Updates from the releases of the project: which release is newer, which addresses are trusted,
//! and when a package is accepted.
use crate::numbers::{
    decimal, decimal_value, hex_bytes, hex_bytes_text, number_of, number_refusal, push_decimal,
    read_digits, read_number, NumberFault,
};
use crate::outside::{
    absorbed, decode_text, join_url, sha256, url_joined, url_of, utf8_refusal, Digester, UrlParts,
    UrlView,
};
use crate::pieces::{
    drop_leading, split, split_at_each, texts, views, without_leading, words, words_of,
};
use crate::text::{
    all_digits, all_hex, chars_of, joined, lowered, only_digits, only_hex, same, spells, str_view, text_of,
    text_view, to_lower,
};
use crate::urls::{read_url, url_refusal, url_view, UrlFault};
use vstd::prelude::*;
use vstd::slice::slice_subrange;
use vstd::utf8::{decode_utf8, valid_utf8};

verus! {

/// The repository that updates come from.
pub const REPOSITORY: &'static str = "HZ-PRE/xxtab";

/// The page of the releases.
pub const RELEASES: &'static str = "https://github.com/HZ-PRE/xxtab/releases";

/// The version of this program.
pub const CURRENT_VERSION: &'static str = "0.1.3";

/// The largest package: 256 MiB.
pub const MAX_PACKAGE: u64 = 268_435_456;

/// The largest checksum file.
pub const MAX_CHECKSUM: u64 = 4096;

/// The largest description of a release: 2 MiB.
pub const MAX_DESCRIPTION: u64 = 2_097_152;

/// The largest number of requests that redirects may lead to.
pub const MAX_REQUESTS: u32 = 6;

/// The longest time of a check, in seconds.
pub const CHECK_SECS: u64 = 30;

/// The longest time of a download, in seconds.
pub const DOWNLOAD_SECS: u64 = 300;

// ---------------------------------------------------------------- refusals

/// Why an update is refused.
#[derive(Clone, Copy, PartialEq, Eq, Structural, Debug)]
pub enum UpdateErrorKind {
    VersionParts,
    VersionPart,
    VersionRange,
    Platform,
    ReleaseData,
    Unstable,
    Tag,
    MissingAsset,
    RepeatedAsset,
    ForeignAsset,
    PackageSize,
    ChecksumSize,
    Url(UrlFault),
    Untrusted,
    NoLocation,
    Location,
    Redirects,
    Proxy,
    Limited,
    Status,
    NoStatus,
    /// A length or a status that is no number.
    Length(NumberFault),
    TooLarge,
    OverLimit,
    Incomplete,
    Cancelled,
    NoChecksum,
    ChecksumEncoding,
    Checksum,
    NotNewer,
    ReleaseInfo,
    NoPackage,
    ShortPackage,
    Mismatch,
    NoUpdate,
    VersionChanged,
    ExpectedHash,
    ParentTimeout,
    ParentUnknown,
    Modified,
}

/// A refusal, with the number or the words that it tells.
#[derive(Debug)]
pub struct UpdateError {
    pub kind: UpdateErrorKind,
    pub detail: String,
}

impl View for UpdateError {
    type V = (UpdateErrorKind, Seq<char>);

    open spec fn view(&self) -> (UpdateErrorKind, Seq<char>) {
        (self.kind, self.detail@)
    }
}

/// A refusal that tells nothing more.
pub open spec fn plain(kind: UpdateErrorKind) -> (UpdateErrorKind, Seq<char>) {
    (kind, Seq::empty())
}

/// The words in which a refusal is told.
pub open spec fn refusal(e: (UpdateErrorKind, Seq<char>)) -> Seq<char> {
    match e.0 {
        UpdateErrorKind::VersionParts => "版本号必须为 major.minor.patch"@,
        UpdateErrorKind::VersionPart => "无效版本号"@,
        UpdateErrorKind::VersionRange => "版本号超出范围: "@ + number_refusal(NumberFault::TooLarge),
        UpdateErrorKind::Platform => "此系统架构暂无预编译更新包，请前往 GitHub Releases"@,
        UpdateErrorKind::ReleaseData => "GitHub Release 数据无效: "@ + e.1,
        UpdateErrorKind::Unstable => "更新源不是正式版本"@,
        UpdateErrorKind::Tag => "Release 标签必须以 v 开头"@,
        UpdateErrorKind::MissingAsset =>
            "此 Release 缺少当前平台安装包或 SHA256 文件，请等待发布完成"@,
        UpdateErrorKind::RepeatedAsset => "Release 包含重复文件"@,
        UpdateErrorKind::ForeignAsset => "Release 下载地址不属于指定仓库和版本"@,
        UpdateErrorKind::PackageSize => "安装包大小超出限制"@,
        UpdateErrorKind::ChecksumSize => "SHA256 文件大小无效"@,
        UpdateErrorKind::Url(fault) => "无效的更新地址: "@ + url_refusal(fault),
        UpdateErrorKind::Untrusted => "更新请求只能使用 GitHub 的 HTTPS 下载地址"@,
        UpdateErrorKind::NoLocation => "下载重定向缺少地址"@,
        UpdateErrorKind::Location => e.1,
        UpdateErrorKind::Redirects => "GitHub 下载重定向次数过多"@,
        UpdateErrorKind::Proxy => "系统代理要求身份验证，请配置无需交互认证的代理后重试"@,
        UpdateErrorKind::Limited => "GitHub 请求受限，请稍后重试（HTTP "@ + e.1 + "）"@,
        UpdateErrorKind::Status => "GitHub 返回 HTTP "@ + e.1,
        UpdateErrorKind::NoStatus => "缺少 HTTP 状态码"@,
        UpdateErrorKind::Length(fault) => number_refusal(fault),
        UpdateErrorKind::TooLarge => "更新文件过大"@,
        UpdateErrorKind::OverLimit => "更新文件超出大小限制"@,
        UpdateErrorKind::Incomplete => "更新文件下载不完整"@,
        UpdateErrorKind::Cancelled => "更新请求已取消"@,
        UpdateErrorKind::NoChecksum => "找不到 SHA256 文件"@,
        UpdateErrorKind::ChecksumEncoding => "SHA256 文件编码无效: "@ + e.1,
        UpdateErrorKind::Checksum => "SHA256 文件内容或文件名无效"@,
        UpdateErrorKind::NotNewer => "此版本无需更新"@,
        UpdateErrorKind::ReleaseInfo => "更新信息无效，请重新检查更新"@,
        UpdateErrorKind::NoPackage => "找不到更新安装包"@,
        UpdateErrorKind::ShortPackage => "安装包下载不完整"@,
        UpdateErrorKind::Mismatch => "安装包 SHA256 校验失败，已拒绝更新"@,
        UpdateErrorKind::NoUpdate => "没有可用的新版本"@,
        UpdateErrorKind::VersionChanged => "最新版本已变化，请重新检查更新"@,
        UpdateErrorKind::ExpectedHash => "无效的更新校验值"@,
        UpdateErrorKind::ParentTimeout => "等待旧程序退出超时，取消安装"@,
        UpdateErrorKind::ParentUnknown => "无法确认旧程序已退出"@,
        UpdateErrorKind::Modified => "安装包已被修改，取消安装"@,
    }
}

impl UpdateError {
    pub fn new(kind: UpdateErrorKind) -> (r: Self)
        ensures
            r@ == plain(kind),
    {
        UpdateError { kind, detail: String::new() }
    }

    fn of_status(kind: UpdateErrorKind, status: u16) -> (r: Self)
        ensures
            r@ == (kind, decimal(status as nat)),
    {
        let mut detail = String::new();
        push_decimal(&mut detail, status as u64);
        assert(detail@ =~= decimal(status as nat));
        UpdateError { kind, detail }
    }

    /// The refusal in words.
    pub fn message(&self) -> (r: String)
        ensures
            r@ == refusal(self@),
    {
        let mut out = String::new();
        match self.kind {
            UpdateErrorKind::VersionParts => out.append("版本号必须为 major.minor.patch"),
            UpdateErrorKind::VersionPart => out.append("无效版本号"),
            UpdateErrorKind::VersionRange => {
                out.append("版本号超出范围: ");
                out.append(NumberFault::TooLarge.message());
            },
            UpdateErrorKind::Platform => out.append(
                "此系统架构暂无预编译更新包，请前往 GitHub Releases",
            ),
            UpdateErrorKind::ReleaseData => {
                out.append("GitHub Release 数据无效: ");
                out.append(self.detail.as_str());
            },
            UpdateErrorKind::Unstable => out.append("更新源不是正式版本"),
            UpdateErrorKind::Tag => out.append("Release 标签必须以 v 开头"),
            UpdateErrorKind::MissingAsset => out.append(
                "此 Release 缺少当前平台安装包或 SHA256 文件，请等待发布完成",
            ),
            UpdateErrorKind::RepeatedAsset => out.append("Release 包含重复文件"),
            UpdateErrorKind::ForeignAsset => out.append("Release 下载地址不属于指定仓库和版本"),
            UpdateErrorKind::PackageSize => out.append("安装包大小超出限制"),
            UpdateErrorKind::ChecksumSize => out.append("SHA256 文件大小无效"),
            UpdateErrorKind::Url(fault) => {
                out.append("无效的更新地址: ");
                out.append(fault.message());
            },
            UpdateErrorKind::Untrusted => out.append("更新请求只能使用 GitHub 的 HTTPS 下载地址"),
            UpdateErrorKind::NoLocation => out.append("下载重定向缺少地址"),
            UpdateErrorKind::Location => out.append(self.detail.as_str()),
            UpdateErrorKind::Redirects => out.append("GitHub 下载重定向次数过多"),
            UpdateErrorKind::Proxy => out.append(
                "系统代理要求身份验证，请配置无需交互认证的代理后重试",
            ),
            UpdateErrorKind::Limited => {
                out.append("GitHub 请求受限，请稍后重试（HTTP ");
                out.append(self.detail.as_str());
                out.append("）");
            },
            UpdateErrorKind::Status => {
                out.append("GitHub 返回 HTTP ");
                out.append(self.detail.as_str());
            },
            UpdateErrorKind::NoStatus => out.append("缺少 HTTP 状态码"),
            UpdateErrorKind::Length(fault) => out.append(fault.message()),
            UpdateErrorKind::TooLarge => out.append("更新文件过大"),
            UpdateErrorKind::OverLimit => out.append("更新文件超出大小限制"),
            UpdateErrorKind::Incomplete => out.append("更新文件下载不完整"),
            UpdateErrorKind::Cancelled => out.append("更新请求已取消"),
            UpdateErrorKind::NoChecksum => out.append("找不到 SHA256 文件"),
            UpdateErrorKind::ChecksumEncoding => {
                out.append("SHA256 文件编码无效: ");
                out.append(self.detail.as_str());
            },
            UpdateErrorKind::Checksum => out.append("SHA256 文件内容或文件名无效"),
            UpdateErrorKind::NotNewer => out.append("此版本无需更新"),
            UpdateErrorKind::ReleaseInfo => out.append("更新信息无效，请重新检查更新"),
            UpdateErrorKind::NoPackage => out.append("找不到更新安装包"),
            UpdateErrorKind::ShortPackage => out.append("安装包下载不完整"),
            UpdateErrorKind::Mismatch => out.append("安装包 SHA256 校验失败，已拒绝更新"),
            UpdateErrorKind::NoUpdate => out.append("没有可用的新版本"),
            UpdateErrorKind::VersionChanged => out.append("最新版本已变化，请重新检查更新"),
            UpdateErrorKind::ExpectedHash => out.append("无效的更新校验值"),
            UpdateErrorKind::ParentTimeout => out.append("等待旧程序退出超时，取消安装"),
            UpdateErrorKind::ParentUnknown => out.append("无法确认旧程序已退出"),
            UpdateErrorKind::Modified => out.append("安装包已被修改，取消安装"),
        }
        assert(out@ =~= refusal(self@));
        out
    }
}

fn fail<T>(kind: UpdateErrorKind) -> (r: Result<T, UpdateError>)
    ensures
        r matches Err(e) && e@ == plain(kind),
{
    Err(UpdateError::new(kind))
}

// ---------------------------------------------------------------- versions

/// A part of a version: a decimal number without leading zeros.
pub open spec fn version_part(s: Seq<char>) -> Result<nat, UpdateErrorKind> {
    if s.len() == 0 || !all_digits(s) || (s[0] == '0' && s.len() > 1) {
        Err(UpdateErrorKind::VersionPart)
    } else if decimal_value(s) > u64::MAX {
        Err(UpdateErrorKind::VersionRange)
    } else {
        Ok(decimal_value(s))
    }
}

/// The three numbers of a version such as `0.1.3`.
pub open spec fn version_of(s: Seq<char>) -> Result<(nat, nat, nat), UpdateErrorKind> {
    let p = split_at_each(s, '.');
    if p.len() != 3 {
        Err(UpdateErrorKind::VersionParts)
    } else {
        match (version_part(p[0]), version_part(p[1]), version_part(p[2])) {
            (Err(e), _, _) => Err(e),
            (_, Err(e), _) => Err(e),
            (_, _, Err(e)) => Err(e),
            (Ok(major), Ok(minor), Ok(patch)) => Ok((major, minor, patch)),
        }
    }
}

/// Whether a version comes after another.
pub open spec fn after(a: (nat, nat, nat), b: (nat, nat, nat)) -> bool {
    a.0 > b.0 || (a.0 == b.0 && (a.1 > b.1 || (a.1 == b.1 && a.2 > b.2)))
}

fn read_version_part(s: &[char]) -> (r: Result<u64, UpdateErrorKind>)
    ensures
        match r {
            Ok(n) => version_part(s@) == Ok::<nat, UpdateErrorKind>(n as nat),
            Err(e) => version_part(s@) == Err::<nat, UpdateErrorKind>(e),
        },
{
    if s.len() == 0 || !only_digits(s) || (s[0] == '0' && s.len() > 1) {
        return Err(UpdateErrorKind::VersionPart);
    }
    match read_digits(s, u64::MAX) {
        Some(n) => Ok(n),
        None => Err(UpdateErrorKind::VersionRange),
    }
}

/// Reads a version.
pub fn version(value: &str) -> (r: Result<[u64; 3], UpdateError>)
    ensures
        match r {
            Ok(v) => version_of(value@) == Ok::<_, UpdateErrorKind>(
                (v@[0] as nat, v@[1] as nat, v@[2] as nat),
            ),
            Err(e) => version_of(value@) == Err::<(nat, nat, nat), _>(e@.0) && e@ == plain(e@.0),
        },
{
    let chars = chars_of(value);
    let parts = split(&chars, '.');
    if parts.len() != 3 {
        return fail(UpdateErrorKind::VersionParts);
    }
    assert(views(parts@)[0] == parts@[0]@ && views(parts@)[1] == parts@[1]@ && views(parts@)[2]
        == parts@[2]@);
    match (read_version_part(parts[0]), read_version_part(parts[1]), read_version_part(parts[2])) {
        (Err(e), _, _) => fail(e),
        (_, Err(e), _) => fail(e),
        (_, _, Err(e)) => fail(e),
        (Ok(major), Ok(minor), Ok(patch)) => {
            let v: [u64; 3] = [major, minor, patch];
            assert(v@ =~= seq![major, minor, patch]);
            Ok(v)
        },
    }
}

fn is_after(a: &[u64; 3], b: &[u64; 3]) -> (r: bool)
    ensures
        r == after(
            (a@[0] as nat, a@[1] as nat, a@[2] as nat),
            (b@[0] as nat, b@[1] as nat, b@[2] as nat),
        ),
{
    a[0] > b[0] || (a[0] == b[0] && (a[1] > b[1] || (a[1] == b[1] && a[2] > b[2])))
}

/// Whether one version text is newer than another, or why one of them is no version.
pub open spec fn newer(latest: Seq<char>, current: Seq<char>) -> Result<bool, UpdateErrorKind> {
    match (version_of(latest), version_of(current)) {
        (Err(e), _) => Err(e),
        (_, Err(e)) => Err(e),
        (Ok(a), Ok(b)) => Ok(after(a, b)),
    }
}

fn is_newer(latest: &str, current: &str) -> (r: Result<bool, UpdateError>)
    ensures
        match r {
            Ok(b) => newer(latest@, current@) == Ok::<_, UpdateErrorKind>(b),
            Err(e) => newer(latest@, current@) == Err::<bool, _>(e@.0) && e@ == plain(e@.0),
        },
{
    match (version(latest), version(current)) {
        (Err(e), _) => Err(e),
        (_, Err(e)) => Err(e),
        (Ok(a), Ok(b)) => Ok(is_after(&a, &b)),
    }
}

/// The suffix of the package for a system and an architecture.
pub open spec fn platform_of(os: Seq<char>, arch: Seq<char>) -> Option<Seq<char>> {
    if os == "windows"@ && arch == "x86_64"@ {
        Some("windows-x64-setup.exe"@)
    } else if os == "macos"@ && arch == "aarch64"@ {
        Some("macos-arm64.dmg"@)
    } else if os == "macos"@ && arch == "x86_64"@ {
        Some("macos-x86_64.dmg"@)
    } else if os == "linux"@ && arch == "x86_64"@ {
        Some("linux-x64.tar.gz"@)
    } else {
        None
    }
}

/// The suffix of the package for a system and an architecture.
pub fn platform(os: &str, arch: &str) -> (r: Result<&'static str, UpdateError>)
    ensures
        match r {
            Ok(p) => platform_of(os@, arch@) == Some(p@),
            Err(e) => platform_of(os@, arch@) is None && e@ == plain(UpdateErrorKind::Platform),
        },
{
    if same(os, "windows") && same(arch, "x86_64") {
        Ok("windows-x64-setup.exe")
    } else if same(os, "macos") && same(arch, "aarch64") {
        Ok("macos-arm64.dmg")
    } else if same(os, "macos") && same(arch, "x86_64") {
        Ok("macos-x86_64.dmg")
    } else if same(os, "linux") && same(arch, "x86_64") {
        Ok("linux-x64.tar.gz")
    } else {
        fail(UpdateErrorKind::Platform)
    }
}

/// The address of a file of a release.
pub open spec fn asset_address(version: Seq<char>, filename: Seq<char>) -> Seq<char> {
    "https://github.com/"@ + REPOSITORY@ + "/releases/download/v"@ + version + "/"@ + filename
}

/// The address of a file of a release.
pub fn asset_url(version: &str, filename: &str) -> (r: String)
    ensures
        r@ == asset_address(version@, filename@),
{
    let mut out = String::new();
    out.append("https://github.com/");
    out.append(REPOSITORY);
    out.append("/releases/download/v");
    out.append(version);
    out.append("/");
    out.append(filename);
    assert(out@ =~= asset_address(version@, filename@));
    out
}

/// The name of the package of a version for a platform.
pub open spec fn package_name(version: Seq<char>, platform: Seq<char>) -> Seq<char> {
    "xxtab-"@ + version + "-"@ + platform
}

pub fn package_filename(version: &str, platform: &str) -> (r: String)
    ensures
        r@ == package_name(version@, platform@),
{
    let mut out = String::new();
    out.append("xxtab-");
    out.append(version);
    out.append("-");
    out.append(platform);
    assert(out@ =~= package_name(version@, platform@));
    out
}

/// The name of the checksum file of a package.
pub open spec fn checksum_name(filename: Seq<char>) -> Seq<char> {
    filename + ".sha256"@
}

/// The page of a release.
pub open spec fn page_of(version: Seq<char>) -> Seq<char> {
    RELEASES@ + "/tag/v"@ + version
}

/// The address of the description of the latest release.
pub fn latest_url() -> (r: String)
    ensures
        r@ == "https://api.github.com/repos/"@ + REPOSITORY@ + "/releases/latest"@,
{
    let mut out = String::new();
    out.append("https://api.github.com/repos/");
    out.append(REPOSITORY);
    out.append("/releases/latest");
    assert(out@ =~= "https://api.github.com/repos/"@ + REPOSITORY@ + "/releases/latest"@);
    out
}

// ---------------------------------------------------------------- releases

/// A file of a release as its description gives it.
#[derive(Debug)]
pub struct Asset {
    pub name: String,
    pub browser_download_url: String,
    pub size: u64,
}

#[verifier::ext_equal]
pub struct AssetView {
    pub name: Seq<char>,
    pub url: Seq<char>,
    pub size: u64,
}

impl View for Asset {
    type V = AssetView;

    open spec fn view(&self) -> AssetView {
        AssetView { name: self.name@, url: self.browser_download_url@, size: self.size }
    }
}

/// The description of a release.
#[derive(Debug)]
pub struct ApiRelease {
    pub tag_name: String,
    pub draft: bool,
    pub prerelease: bool,
    pub assets: Vec<Asset>,
}

#[verifier::ext_equal]
pub struct ApiReleaseView {
    pub tag_name: Seq<char>,
    pub draft: bool,
    pub prerelease: bool,
    pub assets: Seq<AssetView>,
}

pub open spec fn asset_views(s: Seq<Asset>) -> Seq<AssetView> {
    s.map_values(|a: Asset| a@)
}

impl View for ApiRelease {
    type V = ApiReleaseView;

    open spec fn view(&self) -> ApiReleaseView {
        ApiReleaseView {
            tag_name: self.tag_name@,
            draft: self.draft,
            prerelease: self.prerelease,
            assets: asset_views(self.assets@),
        }
    }
}

/// A release that can be downloaded.
#[derive(Debug)]
pub struct Release {
    pub version: String,
    pub page: String,
    pub filename: String,
    pub url: String,
    pub checksum_url: String,
    pub size: u64,
}

#[verifier::ext_equal]
pub struct ReleaseView {
    pub version: Seq<char>,
    pub page: Seq<char>,
    pub filename: Seq<char>,
    pub url: Seq<char>,
    pub checksum_url: Seq<char>,
    pub size: u64,
}

impl View for Release {
    type V = ReleaseView;

    open spec fn view(&self) -> ReleaseView {
        ReleaseView {
            version: self.version@,
            page: self.page@,
            filename: self.filename@,
            url: self.url@,
            checksum_url: self.checksum_url@,
            size: self.size,
        }
    }
}

/// What a check found.
#[derive(Debug)]
pub struct Check {
    pub current: String,
    pub available: bool,
    pub release: Option<Release>,
}

#[verifier::ext_equal]
pub struct CheckView {
    pub current: Seq<char>,
    pub available: bool,
    pub release: Option<ReleaseView>,
}

impl View for Check {
    type V = CheckView;

    open spec fn view(&self) -> CheckView {
        CheckView {
            current: self.current@,
            available: self.available,
            release: match self.release {
                Some(r) => Some(r@),
                None => None,
            },
        }
    }
}

/// A package that was downloaded and verified.
#[derive(Debug)]
pub struct Download {
    pub version: String,
    pub path: String,
    pub sha256: String,
}

/// The files of a name, in their order.
pub open spec fn matching(all: Seq<AssetView>, name: Seq<char>) -> Seq<AssetView>
    decreases all.len(),
{
    if all.len() == 0 {
        seq![]
    } else if all.last().name == name {
        matching(all.drop_last(), name).push(all.last())
    } else {
        matching(all.drop_last(), name)
    }
}

/// The file of a name, which has to be there once and under its own address.
pub open spec fn found(all: Seq<AssetView>, version: Seq<char>, name: Seq<char>) -> Result<
    AssetView,
    UpdateErrorKind,
> {
    let m = matching(all, name);
    if m.len() == 0 {
        Err(UpdateErrorKind::MissingAsset)
    } else if m.len() > 1 {
        Err(UpdateErrorKind::RepeatedAsset)
    } else if m[0].url != asset_address(version, name) {
        Err(UpdateErrorKind::ForeignAsset)
    } else {
        Ok(m[0])
    }
}

/// What a description of the latest release means to a version on a platform.
pub open spec fn checked(api: ApiReleaseView, current: Seq<char>, platform: Seq<char>) -> Result<
    CheckView,
    UpdateErrorKind,
> {
    if api.draft || api.prerelease {
        Err(UpdateErrorKind::Unstable)
    } else if api.tag_name.len() == 0 || api.tag_name[0] != 'v' {
        Err(UpdateErrorKind::Tag)
    } else {
        let latest = api.tag_name.skip(1);
        let filename = package_name(latest, platform);
        match (
            newer(latest, current),
            found(api.assets, latest, filename),
            found(api.assets, latest, checksum_name(filename)),
        ) {
            (Err(e), _, _) => Err(e),
            (_, Err(e), _) => Err(e),
            (_, _, Err(e)) => Err(e),
            (Ok(available), Ok(asset), Ok(checksum)) => if !(0 < asset.size <= MAX_PACKAGE) {
                Err(UpdateErrorKind::PackageSize)
            } else if !(0 < checksum.size <= MAX_CHECKSUM) {
                Err(UpdateErrorKind::ChecksumSize)
            } else {
                Ok(
                    CheckView {
                        current,
                        available,
                        release: Some(
                            ReleaseView {
                                version: latest,
                                page: page_of(latest),
                                filename,
                                url: asset.url,
                                checksum_url: checksum.url,
                                size: asset.size,
                            },
                        ),
                    },
                )
            },
        }
    }
}

fn find_asset<'a>(all: &'a Vec<Asset>, version: &str, name: &str) -> (r: Result<
    &'a Asset,
    UpdateError,
>)
    ensures
        match r {
            Ok(a) => found(asset_views(all@), version@, name@) == Ok::<_, UpdateErrorKind>(a@),
            Err(e) => found(asset_views(all@), version@, name@) == Err::<AssetView, _>(e@.0) && e@
                == plain(e@.0),
        },
{
    let mut first: usize = 0;
    let mut times: usize = 0;
    let ghost v = asset_views(all@);
    for i in 0..all.len()
        invariant
            v == asset_views(all@),
            times == matching(v.take(i as int), name@).len(),
            times <= i,
            times > 0 ==> first < i && matching(v.take(i as int), name@)[0] == v[first as int],
    {
        assert(v.take(i + 1).drop_last() =~= v.take(i as int));
        assert(v.take(i + 1).last() == all@[i as int]@);
        if same(all[i].name.as_str(), name) {
            if times == 0 {
                first = i;
            }
            times = times + 1;
        }
    }
    assert(v.take(all@.len() as int) =~= v);
    if times == 0 {
        return fail(UpdateErrorKind::MissingAsset);
    }
    if times > 1 {
        return fail(UpdateErrorKind::RepeatedAsset);
    }
    let asset = &all[first];
    if !same(asset.browser_download_url.as_str(), asset_url(version, name).as_str()) {
        return fail(UpdateErrorKind::ForeignAsset);
    }
    Ok(asset)
}

/// Reads what the description of the latest release means to a version on a platform.
pub fn parse_release(api: &ApiRelease, current: &str, platform: &str) -> (r: Result<
    Check,
    UpdateError,
>)
    ensures
        match r {
            Ok(c) => checked(api@, current@, platform@) == Ok::<_, UpdateErrorKind>(c@),
            Err(e) => checked(api@, current@, platform@) == Err::<CheckView, _>(e@.0) && e@
                == plain(e@.0),
        },
{
    if api.draft || api.prerelease {
        return fail(UpdateErrorKind::Unstable);
    }
    let tag = chars_of(api.tag_name.as_str());
    if tag.len() == 0 || tag[0] != 'v' {
        return fail(UpdateErrorKind::Tag);
    }
    let latest = text_of(slice_subrange(&tag, 1, tag.len()));
    assert(latest@ == api@.tag_name.skip(1));
    let available = match is_newer(latest.as_str(), current) {
        Ok(b) => b,
        Err(e) => return Err(e),
    };
    let filename = package_filename(latest.as_str(), platform);
    let asset = match find_asset(&api.assets, latest.as_str(), filename.as_str()) {
        Ok(a) => a,
        Err(e) => return Err(e),
    };
    let checksum_file = joined(filename.as_str(), ".sha256");
    let sum = match find_asset(&api.assets, latest.as_str(), checksum_file.as_str()) {
        Ok(a) => a,
        Err(e) => return Err(e),
    };
    if !(0 < asset.size && asset.size <= MAX_PACKAGE) {
        return fail(UpdateErrorKind::PackageSize);
    }
    if !(0 < sum.size && sum.size <= MAX_CHECKSUM) {
        return fail(UpdateErrorKind::ChecksumSize);
    }
    let mut page = String::new();
    page.append(RELEASES);
    page.append("/tag/v");
    page.append(latest.as_str());
    assert(page@ =~= page_of(latest@));
    Ok(
        Check {
            current: current.to_owned(),
            available,
            release: Some(
                Release {
                    version: latest,
                    page,
                    filename,
                    url: asset.browser_download_url.clone(),
                    checksum_url: sum.browser_download_url.clone(),
                    size: asset.size,
                },
            ),
        },
    )
}

/// What a check found where nothing was released yet.
pub fn no_release(current: &str) -> (r: Check)
    ensures
        r@ == (CheckView { current: current@, available: false, release: None }),
{
    Check { current: current.to_owned(), available: false, release: None }
}

/// What the answer to the request for the latest release means. `api` is its description, or in
/// words why it could not be read.
pub open spec fn concluded(
    status: u16,
    api: Result<ApiReleaseView, Seq<char>>,
    current: Seq<char>,
    platform: Seq<char>,
) -> Result<CheckView, (UpdateErrorKind, Seq<char>)> {
    if status == 404 {
        Ok(CheckView { current, available: false, release: None })
    } else {
        match api {
            Err(words) => Err((UpdateErrorKind::ReleaseData, words)),
            Ok(api) => match checked(api, current, platform) {
                Ok(c) => Ok(c),
                Err(e) => Err(plain(e)),
            },
        }
    }
}

/// What a description of a release tells, or why there is none.
pub open spec fn api_view(api: Result<ApiRelease, String>) -> Result<ApiReleaseView, Seq<char>> {
    match api {
        Ok(api) => Ok(api@),
        Err(words) => Err(words@),
    }
}

/// Concludes a check from the answer to the request for the latest release.
pub fn conclude(status: u16, api: Result<ApiRelease, String>, current: &str, platform: &str) -> (r:
    Result<Check, UpdateError>)
    ensures
        match r {
            Ok(c) => concluded(status, api_view(api), current@, platform@) == Ok::<
                _,
                (UpdateErrorKind, Seq<char>),
            >(c@),
            Err(e) => concluded(status, api_view(api), current@, platform@) == Err::<
                CheckView,
                _,
            >(e@),
        },
{
    if status == 404 {
        return Ok(no_release(current));
    }
    match api {
        Err(words) => Err(UpdateError { kind: UpdateErrorKind::ReleaseData, detail: words }),
        Ok(api) => parse_release(&api, current, platform),
    }
}

// ---------------------------------------------------------------- addresses

/// The hosts that updates are fetched from.
pub open spec fn trusted_host(host: Seq<char>) -> bool {
    ||| host == "api.github.com"@
    ||| host == "github.com"@
    ||| host == "release-assets.githubusercontent.com"@
    ||| host == "objects.githubusercontent.com"@
}

/// Whether a URL may be fetched: HTTPS on its usual port of a trusted host, without credentials.
pub open spec fn trusted(u: UrlView) -> bool {
    &&& u.scheme == "https"@
    &&& u.username.len() == 0
    &&& u.password is None
    &&& u.known_port == Some(443u16)
    &&& u.fragment is None
    &&& u.host matches Some(host) && trusted_host(host)
}

/// Why a URL may not be fetched.
pub open spec fn url_fault(u: Result<UrlView, UrlFault>) -> Option<UpdateErrorKind> {
    match u {
        Err(e) => Some(UpdateErrorKind::Url(e)),
        Ok(u) => if trusted(u) {
            None
        } else {
            Some(UpdateErrorKind::Untrusted)
        },
    }
}

/// Whether an outcome is the URL itself where it may be fetched, and the reason where not.
pub open spec fn accepts_url(r: Result<UrlParts, UpdateError>, u: Result<UrlView, UrlFault>) -> bool {
    match r {
        Ok(parts) => url_fault(u) is None && u == Ok::<_, UrlFault>(parts@),
        Err(e) => url_fault(u) is Some && e@ == plain(url_fault(u)->0),
    }
}

fn is_trusted_host(host: &str) -> (r: bool)
    ensures
        r == trusted_host(host@),
{
    same(host, "api.github.com") || same(host, "github.com") || same(
        host,
        "release-assets.githubusercontent.com",
    ) || same(host, "objects.githubusercontent.com")
}

/// Accepts a URL that may be fetched.
pub fn accept_url(url: Result<UrlParts, UrlFault>) -> (r: Result<UrlParts, UpdateError>)
    ensures
        accepts_url(r, url_view(url)),
{
    let u = match url {
        Err(e) => return fail(UpdateErrorKind::Url(e)),
        Ok(u) => u,
    };
    let host_ok = match &u.host {
        Some(host) => is_trusted_host(host.as_str()),
        None => false,
    };
    let port_ok = match u.known_port {
        Some(port) => port == 443,
        None => false,
    };
    if same(u.scheme.as_str(), "https") && chars_of(u.username.as_str()).len() == 0
        && u.password.is_none() && port_ok && u.fragment.is_none() && host_ok {
        Ok(u)
    } else {
        fail(UpdateErrorKind::Untrusted)
    }
}

/// Reads a URL that may be fetched.
pub fn trusted_url(value: &str) -> (r: Result<UrlParts, UpdateError>)
    ensures
        accepts_url(r, url_of(value@)),
{
    accept_url(read_url(value))
}

// ---------------------------------------------------------------- requests

/// A fetch that follows redirects.
#[derive(Debug)]
pub struct Fetch {
    /// The URL to request next.
    pub url: UrlParts,
    /// How many requests were answered with a redirect.
    pub redirects: u32,
}

/// What the answer to a request leads to.
#[derive(Clone, Copy, PartialEq, Eq, Structural, Debug)]
pub enum Answer {
    /// Another request.
    Follow,
    /// There is no such file.
    Missing,
    /// The file follows, with its length where the answer gives one.
    Body(Option<u64>),
}

/// The statuses that redirect.
pub open spec fn redirects(status: u16) -> bool {
    status == 301 || status == 302 || status == 303 || status == 307 || status == 308
}

/// Whether an answer redirects, so that it has to say where to.
pub fn is_redirect(status: u16) -> (r: bool)
    ensures
        r == redirects(status),
{
    status == 301 || status == 302 || status == 303 || status == 307 || status == 308
}

/// Reads the status that an answer gives as text.
pub fn read_status(text: Option<&str>) -> (r: Result<u16, UpdateError>)
    ensures
        match str_view(text) {
            None => r matches Err(e) && e@ == plain(UpdateErrorKind::NoStatus),
            Some(s) => match number_of(s, 0xffff) {
                Ok(n) => r matches Ok(status) && status == n,
                Err(fault) => r matches Err(e) && e@ == plain(UpdateErrorKind::Length(fault)),
            },
        },
{
    match text {
        None => fail(UpdateErrorKind::NoStatus),
        Some(s) => match read_number(&chars_of(s), 0xffff) {
            Ok(n) => {
                proof {
                    crate::numbers::numbers_are_limited(s@, 0xffff);
                }
                Ok(n as u16)
            },
            Err(fault) => fail(UpdateErrorKind::Length(fault)),
        },
    }
}

/// The length that an answer gives.
pub open spec fn length_of(s: Seq<char>) -> Result<u64, UpdateErrorKind> {
    match number_of(s, u64::MAX as nat) {
        Ok(n) => Ok(n as u64),
        Err(fault) => Err(UpdateErrorKind::Length(fault)),
    }
}

/// What an answer that is no redirect leads to. A proxy answers for itself only where one may be
/// in use.
pub open spec fn direct_answer(
    status: u16,
    length: Option<Seq<char>>,
    limit: u64,
    proxied: bool,
) -> Result<Answer, (UpdateErrorKind, Seq<char>)> {
    if status == 404 {
        Ok(Answer::Missing)
    } else if proxied && status == 407 {
        Err(plain(UpdateErrorKind::Proxy))
    } else if status == 403 || status == 429 {
        Err((UpdateErrorKind::Limited, decimal(status as nat)))
    } else if status != 200 {
        Err((UpdateErrorKind::Status, decimal(status as nat)))
    } else {
        match length {
            None => Ok(Answer::Body(None)),
            Some(s) => match length_of(s) {
                Err(e) => Err(plain(e)),
                Ok(n) => if n > limit {
                    Err(plain(UpdateErrorKind::OverLimit))
                } else {
                    Ok(Answer::Body(Some(n)))
                },
            },
        }
    }
}

/// The URL that a redirect leads to, or why it is not followed.
pub open spec fn redirected(from: Seq<char>, location: Option<Seq<char>>) -> Result<
    UrlView,
    (UpdateErrorKind, Seq<char>),
> {
    match location {
        None => Err(plain(UpdateErrorKind::NoLocation)),
        Some(l) => match url_joined(from, l) {
            Err(words) => Err((UpdateErrorKind::Location, words)),
            Ok(to) => match url_fault(url_of(to)) {
                Some(e) => Err(plain(e)),
                None => Ok(url_of(to)->Ok_0),
            },
        },
    }
}

fn read_length(s: &str) -> (r: Result<u64, UpdateError>)
    ensures
        match r {
            Ok(n) => length_of(s@) == Ok::<_, UpdateErrorKind>(n),
            Err(e) => length_of(s@) == Err::<u64, _>(e@.0) && e@ == plain(e@.0),
        },
{
    match read_number(&chars_of(s), u64::MAX) {
        Ok(n) => Ok(n),
        Err(fault) => fail(UpdateErrorKind::Length(fault)),
    }
}

/// What an answer that is no redirect leads to.
fn read_answer(status: u16, length: Option<&str>, limit: u64, proxied: bool) -> (r: Result<
    Answer,
    UpdateError,
>)
    ensures
        match r {
            Ok(a) => direct_answer(status, str_view(length), limit, proxied) == Ok::<
                _,
                (UpdateErrorKind, Seq<char>),
            >(a),
            Err(e) => direct_answer(status, str_view(length), limit, proxied) == Err::<Answer, _>(
                e@,
            ),
        },
{
    if status == 404 {
        return Ok(Answer::Missing);
    }
    if proxied && status == 407 {
        return fail(UpdateErrorKind::Proxy);
    }
    if status == 403 || status == 429 {
        return Err(UpdateError::of_status(UpdateErrorKind::Limited, status));
    }
    if status != 200 {
        return Err(UpdateError::of_status(UpdateErrorKind::Status, status));
    }
    match length {
        None => Ok(Answer::Body(None)),
        Some(s) => match read_length(s) {
            Err(e) => Err(e),
            Ok(n) => if n > limit {
                fail(UpdateErrorKind::OverLimit)
            } else {
                Ok(Answer::Body(Some(n)))
            },
        },
    }
}

impl Fetch {
    /// The URL is one that may be fetched.
    pub open spec fn valid(&self) -> bool {
        trusted(self.url@) && self.redirects < MAX_REQUESTS
    }

    /// Begins to fetch a URL.
    pub fn begin(value: &str) -> (r: Result<Self, UpdateError>)
        ensures
            match r {
                Ok(f) => f.valid() && f.redirects == 0 && url_of(value@) == Ok::<_, UrlFault>(f.url@),
                Err(e) => url_fault(url_of(value@)) is Some && e@ == plain(
                    url_fault(url_of(value@))->0,
                ),
            },
    {
        match trusted_url(value) {
            Ok(url) => Ok(Fetch { url, redirects: 0 }),
            Err(e) => Err(e),
        }
    }

    /// Takes the status, the location and the length of an answer. `proxied` tells whether a
    /// proxy of the system may be in use.
    pub fn answer(
        &mut self,
        status: u16,
        location: Option<&str>,
        length: Option<&str>,
        limit: u64,
        proxied: bool,
    ) -> (r: Result<Answer, UpdateError>)
        requires
            old(self).valid(),
        ensures
            final(self).valid(),
            r is Err ==> final(self).url@ == old(self).url@ && final(self).redirects == old(
                self,
            ).redirects,
            !redirects(status) ==> final(self).url@ == old(self).url@ && final(self).redirects
                == old(self).redirects && match r {
                Ok(a) => direct_answer(status, str_view(length), limit, proxied) == Ok::<
                    _,
                    (UpdateErrorKind, Seq<char>),
                >(a),
                Err(e) => direct_answer(status, str_view(length), limit, proxied) == Err::<
                    Answer,
                    _,
                >(e@),
            },
            redirects(status) ==> match redirected(old(self).url@.text, str_view(location)) {
                Err(fault) => r matches Err(e) && e@ == fault,
                Ok(to) => if old(self).redirects + 1 == MAX_REQUESTS {
                    r matches Err(e) && e@ == plain(UpdateErrorKind::Redirects)
                } else {
                    &&& r == Ok::<_, UpdateError>(Answer::Follow)
                    &&& final(self).url@ == to
                    &&& final(self).redirects == old(self).redirects + 1
                },
            },
    {
        if is_redirect(status) {
            let to = match location {
                None => return fail(UpdateErrorKind::NoLocation),
                Some(l) => match join_url(self.url.text.as_str(), l) {
                    Err(detail) => {
                        return Err(UpdateError { kind: UpdateErrorKind::Location, detail });
                    },
                    Ok(to) => to,
                },
            };
            let url = match trusted_url(to.as_str()) {
                Ok(url) => url,
                Err(e) => return Err(e),
            };
            if self.redirects + 1 == MAX_REQUESTS {
                return fail(UpdateErrorKind::Redirects);
            }
            self.url = url;
            self.redirects = self.redirects + 1;
            return Ok(Answer::Follow);
        }
        read_answer(status, length, limit, proxied)
    }

    /// What the request says that it accepts.
    pub fn accept(&self) -> (r: &'static str)
        ensures
            r@ == if self.url@.host == Some("api.github.com"@) {
                "application/vnd.github+json"@
            } else {
                "application/octet-stream"@
            },
    {
        match &self.url.host {
            Some(host) if same(host.as_str(), "api.github.com") => "application/vnd.github+json",
            _ => "application/octet-stream",
        }
    }

    /// What is requested of the host: the path and the query.
    pub fn target(&self) -> (r: String)
        ensures
            r@ == match self.url@.query {
                Some(q) => self.url@.path + "?"@ + q,
                None => self.url@.path,
            },
    {
        let mut out = String::new();
        out.append(self.url.path.as_str());
        if let Some(q) = &self.url.query {
            out.append("?");
            out.append(q.as_str());
        }
        assert(out@ =~= match self.url@.query {
            Some(q) => self.url@.path + "?"@ + q,
            None => self.url@.path,
        });
        out
    }
}

/// How much of a file has come.
#[derive(Clone, Copy, PartialEq, Eq, Structural, Debug)]
pub struct Body {
    pub received: u64,
    pub limit: u64,
    pub length: Option<u64>,
}

impl Body {
    pub fn new(length: Option<u64>, limit: u64) -> (r: Self)
        ensures
            r == (Body { received: 0, limit, length }),
    {
        Body { received: 0, limit, length }
    }

    /// Takes a piece of the file.
    pub fn take(&mut self, bytes: u64) -> (r: Result<(), UpdateError>)
        ensures
            match r {
                Ok(()) => {
                    &&& old(self).received + bytes <= old(self).limit
                    &&& *final(self) == (Body {
                        received: (old(self).received + bytes) as u64,
                        ..*old(self)
                    })
                },
                Err(e) => {
                    &&& *final(self) == *old(self)
                    &&& old(self).received + bytes > old(self).limit
                    &&& e@ == plain(
                        if old(self).received + bytes > u64::MAX {
                            UpdateErrorKind::TooLarge
                        } else {
                            UpdateErrorKind::OverLimit
                        },
                    )
                },
            },
    {
        match self.received.checked_add(bytes) {
            None => fail(UpdateErrorKind::TooLarge),
            Some(received) => {
                if received > self.limit {
                    return fail(UpdateErrorKind::OverLimit);
                }
                self.received = received;
                Ok(())
            },
        }
    }

    /// Whether as much came as was announced.
    pub fn finish(&self) -> (r: Result<(), UpdateError>)
        ensures
            match r {
                Ok(()) => self.length matches Some(n) ==> n == self.received,
                Err(e) => self.length matches Some(n) && n != self.received && e@ == plain(
                    UpdateErrorKind::Incomplete,
                ),
            },
    {
        match self.length {
            Some(n) if n != self.received => fail(UpdateErrorKind::Incomplete),
            _ => Ok(()),
        }
    }
}

// ---------------------------------------------------------------- checksums

/// Whether a text is a SHA-256 digest in hexadecimal.
pub open spec fn is_digest(s: Seq<char>) -> bool {
    s.len() == 64 && all_hex(s)
}

/// The digest that a checksum file gives for a file.
pub open spec fn listed(text: Seq<char>, filename: Seq<char>) -> Option<Seq<char>> {
    let fields = words(text);
    if fields.len() == 2 && without_leading(fields[1], '*') == filename && is_digest(fields[0]) {
        Some(lowered(fields[0]))
    } else {
        None
    }
}

/// Reads the digest that a checksum file gives for a file.
pub fn checksum(bytes: &[u8], filename: &str) -> (r: Result<String, UpdateError>)
    ensures
        match r {
            Ok(d) => valid_utf8(bytes@) && listed(decode_utf8(bytes@), filename@) == Some(d@),
            Err(e) => if valid_utf8(bytes@) {
                &&& listed(decode_utf8(bytes@), filename@) is None
                &&& e@ == plain(UpdateErrorKind::Checksum)
            } else {
                e@ == (UpdateErrorKind::ChecksumEncoding, utf8_refusal(bytes@))
            },
        },
{
    let text = match decode_text(bytes) {
        Err(words) => {
            return Err(UpdateError { kind: UpdateErrorKind::ChecksumEncoding, detail: words });
        },
        Ok(t) => t,
    };
    let chars = chars_of(text.as_str());
    let fields = words_of(&chars);
    if fields.len() != 2 {
        return fail(UpdateErrorKind::Checksum);
    }
    assert(views(fields@)[0] == fields@[0]@ && views(fields@)[1] == fields@[1]@);
    if spells(drop_leading(fields[1], '*'), filename) && fields[0].len() == 64 && only_hex(
        fields[0],
    ) {
        Ok(to_lower(fields[0]))
    } else {
        fail(UpdateErrorKind::Checksum)
    }
}

// ---------------------------------------------------------------- downloads

/// What of a file has been written, and its hash so far.
pub struct Sink {
    pub hash: Digester,
    pub size: u64,
}

impl Sink {
    /// The bytes that have been written.
    pub open spec fn bytes(&self) -> Seq<u8> {
        absorbed(self.hash)
    }

    /// The size is that of what has been written.
    pub open spec fn valid(&self) -> bool {
        self.size == self.bytes().len()
    }

    pub fn new() -> (r: Self)
        ensures
            r.valid(),
            r.bytes() == Seq::<u8>::empty(),
    {
        Sink { hash: Digester::new(), size: 0 }
    }

    /// Takes bytes that were written.
    pub fn wrote(&mut self, bytes: &[u8])
        requires
            old(self).valid(),
            old(self).size + bytes@.len() <= u64::MAX,
        ensures
            final(self).valid(),
            final(self).bytes() == old(self).bytes() + bytes@,
    {
        self.hash.update(bytes);
        self.size = self.size + bytes.len() as u64;
    }

    /// The digest of what has been written, in hexadecimal.
    pub fn digest(self) -> (r: String)
        ensures
            r@ == hex_bytes(sha256(self.bytes())),
    {
        hex_bytes_text(&self.hash.finalize())
    }
}

/// Why a release is not downloaded by a version on a platform.
pub open spec fn release_fault(
    r: ReleaseView,
    current: Seq<char>,
    platform: Option<Seq<char>>,
) -> Option<UpdateErrorKind> {
    match (newer(r.version, current), platform) {
        (Err(e), _) => Some(e),
        (Ok(false), _) => Some(UpdateErrorKind::NotNewer),
        (_, None) => Some(UpdateErrorKind::Platform),
        (_, Some(platform)) => {
            let filename = package_name(r.version, platform);
            if r.filename == filename && r.url == asset_address(r.version, filename)
                && r.checksum_url == asset_address(r.version, checksum_name(filename)) && 0 < r.size
                <= MAX_PACKAGE {
                None
            } else {
                Some(UpdateErrorKind::ReleaseInfo)
            }
        },
    }
}

/// Accepts a release for download on a system and an architecture; the name of its package.
pub fn accept_release(release: &Release, current: &str, os: &str, arch: &str) -> (r: Result<
    String,
    UpdateError,
>)
    ensures
        match r {
            Ok(name) => release_fault(release@, current@, platform_of(os@, arch@)) is None && name@
                == release@.filename,
            Err(e) => release_fault(release@, current@, platform_of(os@, arch@)) == Some(e@.0)
                && e@ == plain(e@.0),
        },
{
    let own = release.version.as_str();
    match is_newer(own, current) {
        Err(e) => return Err(e),
        Ok(false) => return fail(UpdateErrorKind::NotNewer),
        Ok(true) => {},
    }
    let suffix = match platform(os, arch) {
        Err(e) => return Err(e),
        Ok(p) => p,
    };
    let filename = package_filename(own, suffix);
    let sum = joined(filename.as_str(), ".sha256");
    if same(release.filename.as_str(), filename.as_str()) && same(
        release.url.as_str(),
        asset_url(own, filename.as_str()).as_str(),
    ) && same(release.checksum_url.as_str(), asset_url(own, sum.as_str()).as_str()) && 0
        < release.size && release.size <= MAX_PACKAGE {
        Ok(filename)
    } else {
        fail(UpdateErrorKind::ReleaseInfo)
    }
}

/// Reads the digest of a package from the answer to the request for its checksum file.
pub fn accept_checksum(status: u16, bytes: &[u8], filename: &str) -> (r: Result<String, UpdateError>)
    ensures
        match r {
            Ok(d) => status == 200 && valid_utf8(bytes@) && listed(decode_utf8(bytes@), filename@)
                == Some(d@),
            Err(e) => if status != 200 {
                e@ == plain(UpdateErrorKind::NoChecksum)
            } else if !valid_utf8(bytes@) {
                e@ == (UpdateErrorKind::ChecksumEncoding, utf8_refusal(bytes@))
            } else {
                &&& listed(decode_utf8(bytes@), filename@) is None
                &&& e@ == plain(UpdateErrorKind::Checksum)
            },
        },
{
    if status != 200 {
        return fail(UpdateErrorKind::NoChecksum);
    }
    checksum(bytes, filename)
}

/// Why a package is refused: there was none, it has another size, or another digest.
pub open spec fn package_fault(
    status: u16,
    bytes: Seq<u8>,
    size: u64,
    expected: Seq<char>,
) -> Option<UpdateErrorKind> {
    if status != 200 {
        Some(UpdateErrorKind::NoPackage)
    } else if bytes.len() != size {
        Some(UpdateErrorKind::ShortPackage)
    } else if hex_bytes(sha256(bytes)) != expected {
        Some(UpdateErrorKind::Mismatch)
    } else {
        None
    }
}

/// Accepts a package that came whole and has its digest.
pub fn accept_package(status: u16, sink: Sink, size: u64, expected: &str) -> (r: Result<
    (),
    UpdateError,
>)
    requires
        sink.valid(),
    ensures
        match r {
            Ok(()) => package_fault(status, sink.bytes(), size, expected@) is None,
            Err(e) => package_fault(status, sink.bytes(), size, expected@) == Some(e@.0) && e@
                == plain(e@.0),
        },
{
    if status != 200 {
        return fail(UpdateErrorKind::NoPackage);
    }
    if sink.size != size {
        return fail(UpdateErrorKind::ShortPackage);
    }
    if !same(sink.digest().as_str(), expected) {
        return fail(UpdateErrorKind::Mismatch);
    }
    Ok(())
}

/// What was downloaded.
pub fn downloaded(release: &Release, path: &str, sha256: &str) -> (r: Download)
    ensures
        r.version@ == release@.version,
        r.path@ == path@,
        r.sha256@ == sha256@,
{
    Download {
        version: release.version.clone(),
        path: path.to_owned(),
        sha256: sha256.to_owned(),
    }
}

/// A file to fetch, and the most bytes that it may have.
#[derive(Debug)]
pub struct Wanted {
    pub url: String,
    pub limit: u64,
}

/// A release that was accepted for download. Its checksum file is fetched first.
pub struct Announced<'a> {
    pub release: &'a Release,
}

/// A release whose digest is known. Its package is fetched next.
pub struct Listed<'a> {
    pub release: &'a Release,
    pub expected: String,
}

impl<'a> Announced<'a> {
    /// Begins the download of a release by a version on a system and an architecture.
    pub fn begin(release: &'a Release, current: &str, os: &str, arch: &str) -> (r: Result<
        Self,
        UpdateError,
    >)
        ensures
            match r {
                Ok(a) => release_fault(release@, current@, platform_of(os@, arch@)) is None
                    && a.release@ == release@,
                Err(e) => release_fault(release@, current@, platform_of(os@, arch@)) == Some(e@.0)
                    && e@ == plain(e@.0),
            },
    {
        match accept_release(release, current, os, arch) {
            Ok(_) => Ok(Announced { release }),
            Err(e) => Err(e),
        }
    }

    /// The checksum file.
    pub fn wanted(&self) -> (r: Wanted)
        ensures
            r.url@ == self.release@.checksum_url,
            r.limit == MAX_CHECKSUM,
    {
        Wanted { url: self.release.checksum_url.clone(), limit: MAX_CHECKSUM }
    }

    /// Takes the answer to the request for the checksum file.
    pub fn checksum(self, status: u16, bytes: &[u8]) -> (r: Result<Listed<'a>, UpdateError>)
        ensures
            match r {
                Ok(l) => {
                    &&& status == 200 && valid_utf8(bytes@)
                    &&& listed(decode_utf8(bytes@), self.release@.filename) == Some(l.expected@)
                    &&& l.release@ == self.release@
                },
                Err(e) => if status != 200 {
                    e@ == plain(UpdateErrorKind::NoChecksum)
                } else if !valid_utf8(bytes@) {
                    e@ == (UpdateErrorKind::ChecksumEncoding, utf8_refusal(bytes@))
                } else {
                    &&& listed(decode_utf8(bytes@), self.release@.filename) is None
                    &&& e@ == plain(UpdateErrorKind::Checksum)
                },
            },
    {
        match accept_checksum(status, bytes, self.release.filename.as_str()) {
            Ok(expected) => Ok(Listed { release: self.release, expected }),
            Err(e) => Err(e),
        }
    }
}

impl<'a> Listed<'a> {
    /// The package.
    pub fn wanted(&self) -> (r: Wanted)
        ensures
            r.url@ == self.release@.url,
            r.limit == self.release@.size,
    {
        Wanted { url: self.release.url.clone(), limit: self.release.size }
    }

    /// Takes the answer to the request for the package, which was written to a path.
    pub fn package(self, status: u16, sink: Sink, path: &str) -> (r: Result<Download, UpdateError>)
        requires
            sink.valid(),
        ensures
            match r {
                Ok(d) => {
                    &&& package_fault(status, sink.bytes(), self.release@.size, self.expected@) is None
                    &&& d.version@ == self.release@.version
                    &&& d.path@ == path@
                    &&& d.sha256@ == self.expected@
                },
                Err(e) => package_fault(status, sink.bytes(), self.release@.size, self.expected@)
                    == Some(e@.0) && e@ == plain(e@.0),
            },
    {
        match accept_package(status, sink, self.release.size, self.expected.as_str()) {
            Ok(()) => Ok(downloaded(self.release, path, self.expected.as_str())),
            Err(e) => Err(e),
        }
    }
}

// ---------------------------------------------------------------- installation

/// The arguments of the helper that installs an update once this process is gone.
pub fn installer_arguments(pid: u32, download: &Download, directory: &str) -> (r: Vec<String>)
    ensures
        texts(r@) == seq![
            "update-install"@,
            decimal(pid as nat),
            download.sha256@,
            download.path@,
            directory@,
        ],
{
    let mut id = String::new();
    push_decimal(&mut id, pid as u64);
    assert(id@ =~= decimal(pid as nat));
    let mut out: Vec<String> = Vec::new();
    out.push("update-install".to_owned());
    out.push(id);
    out.push(download.sha256.clone());
    out.push(download.path.clone());
    out.push(directory.to_owned());
    assert(texts(out@) =~= seq![
        "update-install"@,
        decimal(pid as nat),
        download.sha256@,
        download.path@,
        directory@,
    ]);
    out
}

/// The digest that a package has to have, in lower case.
pub fn expected_digest(expected: &str) -> (r: Result<String, UpdateError>)
    ensures
        match r {
            Ok(d) => is_digest(expected@) && d@ == lowered(expected@),
            Err(e) => !is_digest(expected@) && e@ == plain(UpdateErrorKind::ExpectedHash),
        },
{
    let chars = chars_of(expected);
    if chars.len() == 64 && only_hex(&chars) {
        Ok(to_lower(&chars))
    } else {
        fail(UpdateErrorKind::ExpectedHash)
    }
}

/// What became of the process that the installation waits for.
#[derive(Clone, Copy, PartialEq, Eq, Structural, Debug)]
pub enum Parent {
    /// It was waited for, and ended or not.
    Waited(bool),
    /// It could not be opened, with the error of the system.
    NotOpened(Option<i32>),
}

/// Whether the process is gone. That it does not exist is the one error that says so.
pub fn parent_gone(parent: Parent) -> (r: Result<(), UpdateError>)
    ensures
        match parent {
            Parent::Waited(true) => r is Ok,
            Parent::Waited(false) => r matches Err(e) && e@ == plain(UpdateErrorKind::ParentTimeout),
            Parent::NotOpened(code) => if code == Some(87i32) {
                r is Ok
            } else {
                r matches Err(e) && e@ == plain(UpdateErrorKind::ParentUnknown)
            },
        },
{
    match parent {
        Parent::Waited(true) => Ok(()),
        Parent::Waited(false) => fail(UpdateErrorKind::ParentTimeout),
        Parent::NotOpened(Some(87)) => Ok(()),
        Parent::NotOpened(_) => fail(UpdateErrorKind::ParentUnknown),
    }
}

/// Accepts a package for installation where it still has its digest.
pub fn accept_installer(sink: Sink, expected: &str) -> (r: Result<(), UpdateError>)
    ensures
        match r {
            Ok(()) => hex_bytes(sha256(sink.bytes())) == expected@,
            Err(e) => hex_bytes(sha256(sink.bytes())) != expected@ && e@ == plain(
                UpdateErrorKind::Modified,
            ),
        },
{
    if same(sink.digest().as_str(), expected) {
        Ok(())
    } else {
        fail(UpdateErrorKind::Modified)
    }
}

/// The argument that tells the installer its directory.
pub fn directory_argument(directory: &str) -> (r: String)
    ensures
        r@ == "/DIR="@ + directory@,
{
    joined("/DIR=", directory)
}

// ---------------------------------------------------------------- notices

/// The notice of a new version.
pub open spec fn notice_text(version: Seq<char>, current: Seq<char>, page: Seq<char>) -> Seq<char> {
    "发现 xxtab 新版本 "@ + version + "（当前 "@ + current + "）\n下载并校验：xxtab update download "@
        + version + "\n停止连接后解压替换程序。\n"@ + page
}

/// What a start tells of a check: the notice of a new version, and nothing where there is none.
pub fn startup_notice(check: &Check) -> (r: Option<String>)
    ensures
        text_view(r) == match check@.release {
            Some(release) if check@.available => Some(
                notice_text(release.version, check@.current, release.page),
            ),
            _ => None,
        },
{
    if !check.available {
        return None;
    }
    match &check.release {
        None => None,
        Some(release) => {
            let mut out = String::new();
            out.append("发现 xxtab 新版本 ");
            out.append(release.version.as_str());
            out.append("（当前 ");
            out.append(check.current.as_str());
            out.append("）\n下载并校验：xxtab update download ");
            out.append(release.version.as_str());
            out.append("\n停止连接后解压替换程序。\n");
            out.append(release.page.as_str());
            assert(out@ =~= notice_text(release@.version, check@.current, release@.page));
            Some(out)
        },
    }
}

/// Whether there is a desktop to show a dialog on, given how long the values of `DISPLAY` and
/// `WAYLAND_DISPLAY` are.
pub fn has_desktop(display: Option<usize>, wayland: Option<usize>) -> (r: bool)
    ensures
        r == ((display matches Some(n) && n > 0) || (wayland matches Some(n) && n > 0)),
{
    let first = match display {
        Some(n) => n > 0,
        None => false,
    };
    let second = match wayland {
        Some(n) => n > 0,
        None => false,
    };
    first || second
}

/// A program that shows a dialog, with its arguments.
pub struct Dialog {
    pub program: String,
    pub arguments: Vec<String>,
}

/// The programs that can show a message, the preferred one first.
pub fn dialogs(message: &str) -> (r: Vec<Dialog>)
    ensures
        r@.len() == 2,
        r@[0].program@ == "zenity"@,
        texts(r@[0].arguments@) == seq![
            "--info"@,
            "--no-markup"@,
            "--title=xxtab 更新"@,
            "--text"@,
            message@,
        ],
        r@[1].program@ == "kdialog"@,
        texts(r@[1].arguments@) == seq!["--title"@, "xxtab 更新"@, "--msgbox"@, message@],
{
    let mut first: Vec<String> = Vec::new();
    first.push("--info".to_owned());
    first.push("--no-markup".to_owned());
    first.push("--title=xxtab 更新".to_owned());
    first.push("--text".to_owned());
    first.push(message.to_owned());
    assert(texts(first@) =~= seq![
        "--info"@,
        "--no-markup"@,
        "--title=xxtab 更新"@,
        "--text"@,
        message@,
    ]);
    let mut second: Vec<String> = Vec::new();
    second.push("--title".to_owned());
    second.push("xxtab 更新".to_owned());
    second.push("--msgbox".to_owned());
    second.push(message.to_owned());
    assert(texts(second@) =~= seq!["--title"@, "xxtab 更新"@, "--msgbox"@, message@]);
    let mut out: Vec<Dialog> = Vec::new();
    out.push(Dialog { program: "zenity".to_owned(), arguments: first });
    out.push(Dialog { program: "kdialog".to_owned(), arguments: second });
    out
}

/// Whether a dialog was shown, given the code that it ended with. Closing it counts as well.
pub fn was_shown(code: Option<i32>) -> (r: bool)
    ensures
        r == (code == Some(0i32) || code == Some(1i32)),
{
    match code {
        Some(n) => n == 0 || n == 1,
        None => false,
    }
}

// ---------------------------------------------------------------- choices

/// Whether a check can be acted on: an update that is available is described.
pub open spec fn actionable(c: CheckView) -> bool {
    c.available ==> c.release is Some
}

/// Chooses the release to download, which has to be of the version that was asked for.
pub fn choose_release<'a>(check: &'a Check, asked: Option<&str>) -> (r: Result<
    &'a Release,
    UpdateError,
>)
    requires
        actionable(check@),
    ensures
        match r {
            Ok(release) => check@.available && check@.release == Some(release@) && (asked matches Some(
                v,
            ) ==> v@ == release@.version),
            Err(e) => if !check@.available {
                e@ == plain(UpdateErrorKind::NoUpdate)
            } else {
                &&& asked matches Some(v) && v@ != check@.release->0.version
                &&& e@ == plain(UpdateErrorKind::VersionChanged)
            },
        },
{
    if !check.available {
        return fail(UpdateErrorKind::NoUpdate);
    }
    match &check.release {
        None => fail(UpdateErrorKind::NoUpdate),
        Some(release) => {
            if let Some(v) = asked {
                if !same(v, release.version.as_str()) {
                    return fail(UpdateErrorKind::VersionChanged);
                }
            }
            Ok(release)
        },
    }
}

// ---------------------------------------------------------------- laws

/// A version is never newer than itself, and two versions are never each newer than the other: an
/// update does not lead back.
pub proof fn updates_never_downgrade(a: Seq<char>, b: Seq<char>)
    ensures
        newer(a, a) != Ok::<_, UpdateErrorKind>(true),
        newer(a, b) == Ok::<_, UpdateErrorKind>(true) ==> newer(b, a) == Ok::<_, UpdateErrorKind>(
            false,
        ),
{
}

/// What comes after a later version comes after the earlier one.
pub proof fn newer_is_transitive(a: Seq<char>, b: Seq<char>, c: Seq<char>)
    requires
        newer(a, b) == Ok::<_, UpdateErrorKind>(true),
        newer(b, c) == Ok::<_, UpdateErrorKind>(true),
    ensures
        newer(a, c) == Ok::<_, UpdateErrorKind>(true),
{
}

/// Whatever a description says, what a check offers lies under the project's own address, has an
/// accepted size, and passes what a download asks of it.
pub proof fn offered_releases_are_downloadable(
    api: ApiReleaseView,
    current: Seq<char>,
    os: Seq<char>,
    arch: Seq<char>,
)
    requires
        platform_of(os, arch) is Some,
        checked(api, current, platform_of(os, arch)->0) is Ok,
        checked(api, current, platform_of(os, arch)->0)->Ok_0.available,
    ensures
        checked(api, current, platform_of(os, arch)->0)->Ok_0.release matches Some(release)
            && release_fault(release, current, platform_of(os, arch)) is None,
        actionable(checked(api, current, platform_of(os, arch)->0)->Ok_0),
{
}

/// What a check concludes can always be acted on.
pub proof fn checks_are_actionable(
    status: u16,
    api: Result<ApiReleaseView, Seq<char>>,
    current: Seq<char>,
    platform: Seq<char>,
)
    requires
        concluded(status, api, current, platform) is Ok,
    ensures
        actionable(concluded(status, api, current, platform)->Ok_0),
{
}

/// Drafts and previews are never offered.
pub proof fn unstable_releases_are_refused(
    api: ApiReleaseView,
    current: Seq<char>,
    platform: Seq<char>,
)
    requires
        api.draft || api.prerelease,
    ensures
        checked(api, current, platform) == Err::<CheckView, _>(UpdateErrorKind::Unstable),
{
}

/// A package that is accepted is the announced number of bytes with the announced digest; one that
/// was cut short or changed is refused.
pub proof fn accepted_packages_are_whole(bytes: Seq<u8>, size: u64, expected: Seq<char>)
    ensures
        package_fault(200, bytes, size, expected) is None <==> bytes.len() == size && hex_bytes(
            sha256(bytes),
        ) == expected,
        bytes.len() != size ==> package_fault(200, bytes, size, expected) == Some(
            UpdateErrorKind::ShortPackage,
        ),
{
}

/// No redirect leads away from the trusted hosts or from HTTPS.
pub proof fn redirects_stay_trusted(from: Seq<char>, location: Option<Seq<char>>)
    ensures
        redirected(from, location) matches Ok(to) ==> trusted(to),
{
}

/// The text of a version of three numbers.
pub open spec fn version_text(major: nat, minor: nat, patch: nat) -> Seq<char> {
    decimal(major) + "."@ + decimal(minor) + "."@ + decimal(patch)
}

proof fn lemma_version_text(major: nat, minor: nat, patch: nat)
    ensures
        split_at_each(version_text(major, minor, patch), '.') == seq![
            decimal(major),
            decimal(minor),
            decimal(patch),
        ],
{
    let parts = seq![decimal(major), decimal(minor), decimal(patch)];
    reveal_strlit(".");
    lemma_three_joined(decimal(major), decimal(minor), decimal(patch));
    crate::numbers::decimal_round_trip(major);
    crate::numbers::decimal_round_trip(minor);
    crate::numbers::decimal_round_trip(patch);
    assert forall|i: int| 0 <= i < parts.len() implies crate::pieces::lacks(
        #[trigger] parts[i],
        '.',
    ) by {
        assert(all_digits(parts[i]));
        assert forall|j: int| 0 <= j < parts[i].len() implies #[trigger] parts[i][j] != '.' by {
            assert(crate::text::digit(parts[i][j]));
        }
    }
    crate::pieces::joined_pieces_are_taken_apart(parts, '.');
}

proof fn lemma_three_joined(a: Seq<char>, b: Seq<char>, c: Seq<char>)
    ensures
        crate::pieces::join(seq![a, b, c], seq!['.']) == a + "."@ + b + "."@ + c,
{
    reveal_strlit(".");
    reveal_with_fuel(crate::pieces::join, 4);
    assert(seq!['.'] =~= "."@);
    assert(seq![a, b, c].drop_last() =~= seq![a, b]);
    assert(seq![a, b].drop_last() =~= seq![a]);
    assert(crate::pieces::join(seq![a], seq!['.']) == a);
    assert(crate::pieces::join(seq![a, b], seq!['.']) == a + seq!['.'] + b);
}

/// A version is read exactly where it is three numbers of 64 bits with dots between them, each
/// written without leading zeros: the text of the three numbers that are read is the version.
pub proof fn versions_are_three_numbers(s: Seq<char>, major: nat, minor: nat, patch: nat)
    ensures
        version_of(s) == Ok::<_, UpdateErrorKind>((major, minor, patch)) <==> s == decimal(major)
            + "."@ + decimal(minor) + "."@ + decimal(patch) && major <= u64::MAX && minor
            <= u64::MAX && patch <= u64::MAX,
{
    lemma_version_text(major, minor, patch);
    crate::numbers::decimal_round_trip(major);
    crate::numbers::decimal_round_trip(minor);
    crate::numbers::decimal_round_trip(patch);
    lemma_part_of_decimal(major);
    lemma_part_of_decimal(minor);
    lemma_part_of_decimal(patch);
    if version_of(s) == Ok::<_, UpdateErrorKind>((major, minor, patch)) {
        let p = split_at_each(s, '.');
        crate::numbers::digits_are_written_again(p[0]);
        crate::numbers::digits_are_written_again(p[1]);
        crate::numbers::digits_are_written_again(p[2]);
        crate::pieces::pieces_are_joined_again(s, '.');
        assert(p =~= seq![p[0], p[1], p[2]]);
        lemma_three_joined(p[0], p[1], p[2]);
    }
}

proof fn lemma_part_of_decimal(n: nat)
    ensures
        n <= u64::MAX ==> version_part(decimal(n)) == Ok::<_, UpdateErrorKind>(n),
{
    crate::numbers::decimal_round_trip(n);
    if n < 10 {
        assert(decimal(n).len() == 1);
    } else {
        if decimal(n)[0] == '0' {
            assert(n == 0);
        }
    }
}

/// Of two different versions exactly one is newer, and raising one number of a version, with those
/// before it unchanged, makes a newer one whatever becomes of those behind it.
pub proof fn raised_versions_are_newer(a: (nat, nat, nat), b: (nat, nat, nat))
    requires
        a.0 <= u64::MAX && a.1 <= u64::MAX && a.2 <= u64::MAX,
        b.0 <= u64::MAX && b.1 <= u64::MAX && b.2 <= u64::MAX,
    ensures
        ({
            let x = decimal(a.0) + "."@ + decimal(a.1) + "."@ + decimal(a.2);
            let y = decimal(b.0) + "."@ + decimal(b.1) + "."@ + decimal(b.2);
            let up = Ok::<bool, UpdateErrorKind>(true);
            let down = Ok::<bool, UpdateErrorKind>(false);
            &&& a == b ==> newer(x, y) == down
            &&& a != b ==> (newer(x, y) == up && newer(y, x) == down) || (newer(x, y) == down
                && newer(y, x) == up)
            &&& a.0 > b.0 ==> newer(x, y) == up
            &&& a.0 == b.0 && a.1 > b.1 ==> newer(x, y) == up
            &&& a.0 == b.0 && a.1 == b.1 && a.2 > b.2 ==> newer(x, y) == up
        }),
{
    let x = decimal(a.0) + "."@ + decimal(a.1) + "."@ + decimal(a.2);
    let y = decimal(b.0) + "."@ + decimal(b.1) + "."@ + decimal(b.2);
    versions_are_three_numbers(x, a.0, a.1, a.2);
    versions_are_three_numbers(y, b.0, b.1, b.2);
}

/// Which of two texts is newer is told exactly where both are versions.
pub proof fn only_versions_are_compared(a: Seq<char>, b: Seq<char>)
    ensures
        newer(a, b) is Ok <==> version_of(a) is Ok && version_of(b) is Ok,
{
}

/// Whether the file of a name is at a place of a release, and at no other.
pub open spec fn only_at(all: Seq<AssetView>, name: Seq<char>, i: int) -> bool {
    &&& 0 <= i < all.len()
    &&& all[i].name == name
    &&& forall|j: int| 0 <= j < all.len() && (#[trigger] all[j]).name == name ==> j == i
}

proof fn lemma_matching(all: Seq<AssetView>, name: Seq<char>)
    ensures
        matching(all, name).len() == 1 <==> exists|i: int| only_at(all, name, i),
        forall|i: int| only_at(all, name, i) ==> matching(all, name) == seq![all[i]],
        matching(all, name).len() == 0 <==> forall|i: int|
            0 <= i < all.len() ==> (#[trigger] all[i]).name != name,
    decreases all.len(),
{
    if all.len() > 0 {
        let head = all.drop_last();
        let n = head.len() as int;
        lemma_matching(head, name);
        if all.last().name == name {
            assert(all[n].name == name);
            if matching(head, name).len() == 0 {
                assert forall|j: int| 0 <= j < all.len() && (#[trigger] all[j]).name == name implies j
                    == n by {
                    if j < n {
                        assert(head[j].name != name);
                    }
                }
                assert(only_at(all, name, n));
                assert(matching(all, name) =~= seq![all[n]]);
                assert forall|i: int| only_at(all, name, i) implies matching(all, name)
                    == seq![all[i]] by {
                    assert(i == n);
                }
            } else {
                let k = choose|k: int| 0 <= k < head.len() && (#[trigger] head[k]).name == name;
                assert(all[k].name == name && all[n].name == name);
                assert forall|i: int| !only_at(all, name, i) by {
                    if only_at(all, name, i) {
                        assert(k == i && n == i);
                    }
                }
            }
        } else {
            assert forall|i: int| only_at(all, name, i) <==> only_at(head, name, i) by {
                if only_at(all, name, i) {
                    assert(i != n);
                    assert(head[i] == all[i]);
                    assert forall|j: int|
                        0 <= j < head.len() && (#[trigger] head[j]).name == name implies j == i by {
                        assert(all[j].name == name);
                    }
                }
                if only_at(head, name, i) {
                    assert(all[i] == head[i]);
                    assert forall|j: int|
                        0 <= j < all.len() && (#[trigger] all[j]).name == name implies j == i by {
                        assert(head[j].name == name);
                    }
                }
            }
            assert forall|i: int| only_at(all, name, i) implies matching(all, name) == seq![all[i]] by {
                assert(only_at(head, name, i));
                assert(head[i] == all[i]);
            }
            if exists|i: int| only_at(head, name, i) {
                let i = choose|i: int| only_at(head, name, i);
                assert(only_at(all, name, i));
            }
            if forall|i: int| 0 <= i < head.len() ==> (#[trigger] head[i]).name != name {
                assert forall|i: int| 0 <= i < all.len() implies (#[trigger] all[i]).name != name by {
                    if i < n {
                        assert(head[i].name != name);
                    }
                }
            } else {
                let k = choose|k: int| 0 <= k < head.len() && (#[trigger] head[k]).name == name;
                assert(all[k].name == name);
            }
        }
    }
}

/// Whether a release holds a file once, under the address of the project, of so many bytes at most
/// and not empty.
pub open spec fn holds(
    api: ApiReleaseView,
    version: Seq<char>,
    name: Seq<char>,
    most: int,
    i: int,
) -> bool {
    &&& only_at(api.assets, name, i)
    &&& api.assets[i].url == "https://github.com/HZ-PRE/xxtab/releases/download/v"@ + version + "/"@
        + name
    &&& 0 < api.assets[i].size <= most
}

/// What a description of a release is taken for: it is one that is published and final, its tag is
/// `v` and a version, and it holds the package for the platform and its checksum file. The update
/// is available where the version is newer than the current one. Any other description is refused.
pub proof fn releases_are_described(
    api: ApiReleaseView,
    current: Seq<char>,
    platform: Seq<char>,
    version: Seq<char>,
)
    requires
        api.tag_name == "v"@ + version,
    ensures
        ({
            let name = "xxtab-"@ + version + "-"@ + platform;
            let sum = name + ".sha256"@;
            let good = !api.draft && !api.prerelease && newer(version, current) is Ok && (exists|
                i: int,
            |
                holds(api, version, name, 268_435_456, i)) && (exists|i: int|
                holds(api, version, sum, 4096, i));
            &&& checked(api, current, platform) is Ok <==> good
            &&& checked(api, current, platform) matches Ok(c) ==> {
                &&& c.current == current
                &&& newer(version, current) == Ok::<_, UpdateErrorKind>(c.available)
                &&& c.release matches Some(r) && {
                    &&& r.version == version
                    &&& r.filename == name
                    &&& r.url == "https://github.com/HZ-PRE/xxtab/releases/download/v"@ + version
                        + "/"@ + name
                    &&& r.checksum_url == r.url + ".sha256"@
                    &&& r.page == "https://github.com/HZ-PRE/xxtab/releases/tag/v"@ + version
                    &&& exists|i: int| only_at(api.assets, name, i) && r.size == api.assets[i].size
                }
            }
        }),
{
    let name = "xxtab-"@ + version + "-"@ + platform;
    let sum = name + ".sha256"@;
    reveal_strlit("v");
    assert(api.tag_name[0] == 'v');
    assert(api.tag_name.skip(1) =~= version);
    lemma_matching(api.assets, name);
    lemma_matching(api.assets, sum);
    lemma_addresses();
    assert(asset_address(version, name) =~= "https://github.com/HZ-PRE/xxtab/releases/download/v"@
        + version + "/"@ + name);
    assert(asset_address(version, sum) =~= "https://github.com/HZ-PRE/xxtab/releases/download/v"@
        + version + "/"@ + sum);
    assert(asset_address(version, sum) =~= asset_address(version, name) + ".sha256"@);
    assert(package_name(version, platform) == name && checksum_name(name) == sum);
    if exists|i: int| only_at(api.assets, name, i) {
        let i = choose|i: int| only_at(api.assets, name, i);
        assert(matching(api.assets, name) == seq![api.assets[i]]);
        assert forall|j: int| only_at(api.assets, name, j) implies j == i by {
            assert(api.assets[j].name == name);
        }
    }
    if exists|i: int| only_at(api.assets, sum, i) {
        let i = choose|i: int| only_at(api.assets, sum, i);
        assert(matching(api.assets, sum) == seq![api.assets[i]]);
        assert forall|j: int| only_at(api.assets, sum, j) implies j == i by {
            assert(api.assets[j].name == sum);
        }
    }
    if checked(api, current, platform) is Ok {
        let i = choose|i: int| only_at(api.assets, name, i);
        let k = choose|i: int| only_at(api.assets, sum, i);
        assert(holds(api, version, name, 268_435_456, i));
        assert(holds(api, version, sum, 4096, k));
    }
}

proof fn lemma_addresses()
    ensures
        "https://github.com/"@ + REPOSITORY@ + "/releases/download/v"@
            == "https://github.com/HZ-PRE/xxtab/releases/download/v"@,
        RELEASES@ + "/tag/v"@ == "https://github.com/HZ-PRE/xxtab/releases/tag/v"@,
{
    reveal_strlit("https://github.com/");
    reveal_strlit("HZ-PRE/xxtab");
    reveal_strlit("/releases/download/v");
    reveal_strlit("https://github.com/HZ-PRE/xxtab/releases/download/v");
    reveal_strlit("https://github.com/HZ-PRE/xxtab/releases");
    reveal_strlit("/tag/v");
    reveal_strlit("https://github.com/HZ-PRE/xxtab/releases/tag/v");
    assert("https://github.com/"@ + REPOSITORY@ + "/releases/download/v"@
        =~= "https://github.com/HZ-PRE/xxtab/releases/download/v"@);
    assert(RELEASES@ + "/tag/v"@ =~= "https://github.com/HZ-PRE/xxtab/releases/tag/v"@);
}

/// A description whose tag does not begin with `v` is refused, and so is a draft or a preview.
pub proof fn foreign_tags_are_refused(api: ApiReleaseView, current: Seq<char>, platform: Seq<char>)
    requires
        api.tag_name.len() == 0 || api.tag_name[0] != 'v' || api.draft || api.prerelease,
    ensures
        checked(api, current, platform) is Err,
{
}

/// A release is downloaded exactly where it is newer, there is a package for the system, and its
/// addresses, its name and its size are those of that package.
pub proof fn downloads_are_checked_again(
    r: ReleaseView,
    current: Seq<char>,
    platform: Option<Seq<char>>,
)
    ensures
        release_fault(r, current, platform) is None <==> {
            &&& newer(r.version, current) == Ok::<_, UpdateErrorKind>(true)
            &&& platform matches Some(p) && {
                let name = "xxtab-"@ + r.version + "-"@ + p;
                &&& r.filename == name
                &&& r.url == "https://github.com/HZ-PRE/xxtab/releases/download/v"@ + r.version
                    + "/"@ + name
                &&& r.checksum_url == r.url + ".sha256"@
            }
            &&& 0 < r.size <= 268_435_456
        },
        newer(r.version, current) == Ok::<_, UpdateErrorKind>(false) ==> release_fault(
            r,
            current,
            platform,
        ) == Some(UpdateErrorKind::NotNewer),
{
    lemma_addresses();
    if let Some(p) = platform {
        let name = "xxtab-"@ + r.version + "-"@ + p;
        assert(asset_address(r.version, name)
            =~= "https://github.com/HZ-PRE/xxtab/releases/download/v"@ + r.version + "/"@ + name);
        assert(asset_address(r.version, name + ".sha256"@) =~= asset_address(r.version, name)
            + ".sha256"@);
    }
}

/// The systems that there are packages for, and the package of each.
pub proof fn packages_are_for_four_systems(os: Seq<char>, arch: Seq<char>)
    ensures
        platform_of("windows"@, "x86_64"@) == Some("windows-x64-setup.exe"@),
        platform_of("macos"@, "aarch64"@) == Some("macos-arm64.dmg"@),
        platform_of("macos"@, "x86_64"@) == Some("macos-x86_64.dmg"@),
        platform_of("linux"@, "x86_64"@) == Some("linux-x64.tar.gz"@),
        platform_of(os, arch) is Some ==> (os == "macos"@ && arch == "aarch64"@) || (arch
            == "x86_64"@ && (os == "windows"@ || os == "macos"@ || os == "linux"@)),
{
    reveal_strlit("windows");
    reveal_strlit("macos");
    reveal_strlit("linux");
    reveal_strlit("x86_64");
    reveal_strlit("aarch64");
    assert("windows"@.len() == 7 && "macos"@.len() == 5 && "linux"@.len() == 5);
    assert("macos"@[0] != "linux"@[0]);
    assert("x86_64"@.len() == 6 && "aarch64"@.len() == 7);
}

/// What is fetched: over HTTPS at its usual port, without a name, a password or a fragment, from one
/// of four hosts of GitHub, and from nowhere else.
pub proof fn only_github_is_fetched(u: UrlView)
    ensures
        trusted(u) <==> {
            &&& u.scheme == "https"@
            &&& u.username == Seq::<char>::empty()
            &&& u.password is None
            &&& u.fragment is None
            &&& u.known_port == Some(443u16)
            &&& u.host == Some("api.github.com"@) || u.host == Some("github.com"@) || u.host == Some(
                "release-assets.githubusercontent.com"@,
            ) || u.host == Some("objects.githubusercontent.com"@)
        },
        url_fault(Ok(u)) is None <==> trusted(u),
        !trusted(u) ==> url_fault(Ok(u)) == Some(UpdateErrorKind::Untrusted),
        forall|e: UrlFault| #[trigger] url_fault(Err(e)) == Some(UpdateErrorKind::Url(e)),
{
    assert(u.username.len() == 0 ==> u.username =~= Seq::<char>::empty());
}

/// Where a redirect leads is followed exactly where it may be fetched.
pub proof fn redirects_are_followed_where_trusted(from: Seq<char>, location: Seq<char>)
    ensures
        redirected(from, None) is Err,
        redirected(from, Some(location)) is Ok <==> (url_joined(from, location) matches Ok(to) && (
        url_of(to) matches Ok(u) && trusted(u))),
        redirected(from, Some(location)) matches Ok(u) ==> url_of(url_joined(from, location)->Ok_0)
            == Ok::<_, UrlFault>(u),
{
}

/// Which answers redirect.
pub proof fn redirecting_answers(status: u16)
    ensures
        redirects(status) <==> (301 <= status <= 303) || (307 <= status <= 308),
{
}

/// What an answer leads to: a file comes with 200 alone, and no longer than its limit where it
/// tells its length; nothing is there with 404; every other answer is refused.
pub proof fn answers_lead_on(status: u16, length: Option<Seq<char>>, limit: u64, proxied: bool)
    ensures
        ({
            let r = direct_answer(status, length, limit, proxied);
            &&& r is Ok ==> status == 200 || status == 404
            &&& status == 404 <==> r == Ok::<_, (UpdateErrorKind, Seq<char>)>(Answer::Missing)
            &&& status == 200 && length is None ==> r == Ok::<_, (UpdateErrorKind, Seq<char>)>(
                Answer::Body(None),
            )
            &&& status == 200 && length is Some ==> (r is Ok <==> number_of(
                length->0,
                limit as nat,
            ) is Ok)
            &&& status == 200 && length is Some && r is Ok ==> (r->Ok_0 matches Answer::Body(Some(n))
                && number_of(length->0, limit as nat) == Ok::<_, NumberFault>(n as nat))
            &&& status == 403 || status == 429 ==> r == Err::<Answer, _>(
                (UpdateErrorKind::Limited, decimal(status as nat)),
            )
            &&& status == 407 && proxied ==> r == Err::<Answer, _>(
                (UpdateErrorKind::Proxy, Seq::<char>::empty()),
            )
        }),
{
    if length is Some {
        crate::numbers::numbers_are_their_digits(length->0, u64::MAX as nat);
        crate::numbers::numbers_are_their_digits(length->0, limit as nat);
    }
}

/// A package is refused where it did not come, has another size or another digest, and is accepted
/// otherwise.
pub proof fn packages_are_refused_otherwise(
    status: u16,
    bytes: Seq<u8>,
    size: u64,
    expected: Seq<char>,
)
    ensures
        package_fault(status, bytes, size, expected) is None <==> status == 200 && bytes.len() == size
            && hex_bytes(sha256(bytes)) == expected,
        status != 200 ==> package_fault(status, bytes, size, expected) == Some(
            UpdateErrorKind::NoPackage,
        ),
        status == 200 && bytes.len() == size && hex_bytes(sha256(bytes)) != expected
            ==> package_fault(status, bytes, size, expected) == Some(UpdateErrorKind::Mismatch),
{
}

/// A checksum file that is read holds two words: 64 hexadecimal digits, and the name of the file,
/// behind a mark or not. The digest is told in lower case, and for no other file.
pub proof fn checksum_files_name_their_file(
    digest: Seq<char>,
    gap: Seq<char>,
    filename: Seq<char>,
    end: Seq<char>,
    other: Seq<char>,
)
    requires
        digest.len() == 64,
        all_hex(digest),
        gap.len() > 0,
        forall|i: int| 0 <= i < gap.len() ==> crate::text::space(#[trigger] gap[i]),
        forall|i: int| 0 <= i < end.len() ==> crate::text::space(#[trigger] end[i]),
        filename.len() > 0,
        filename[0] != '*',
        forall|i: int| 0 <= i < filename.len() ==> !crate::text::space(#[trigger] filename[i]),
    ensures
        listed(digest + gap + filename + end, filename) == Some(lowered(digest)),
        listed(digest + gap + seq!['*'] + filename + end, filename) == Some(lowered(digest)),
        other != filename ==> listed(digest + gap + filename + end, other) is None,
{
    assert forall|i: int| 0 <= i < digest.len() implies !crate::text::space(#[trigger] digest[i]) by {
        assert(crate::text::hex_digit(digest[i]));
    }
    lemma_two_words(digest, gap, filename, end);
    let marked = seq!['*'] + filename;
    assert forall|i: int| 0 <= i < marked.len() implies !crate::text::space(#[trigger] marked[i]) by {
        if i > 0 {
            assert(marked[i] == filename[i - 1]);
        }
    }
    lemma_two_words(digest, gap, marked, end);
    assert(digest + gap + seq!['*'] + filename + end =~= digest + gap + marked + end);
    assert(marked.skip(1) =~= filename);
    assert(without_leading(marked, '*') == without_leading(filename, '*'));
    assert(without_leading(filename, '*') == filename);
}

proof fn lemma_two_words(a: Seq<char>, gap: Seq<char>, b: Seq<char>, end: Seq<char>)
    requires
        a.len() > 0,
        b.len() > 0,
        gap.len() > 0,
        forall|i: int| 0 <= i < a.len() ==> !crate::text::space(#[trigger] a[i]),
        forall|i: int| 0 <= i < b.len() ==> !crate::text::space(#[trigger] b[i]),
        forall|i: int| 0 <= i < gap.len() ==> crate::text::space(#[trigger] gap[i]),
        forall|i: int| 0 <= i < end.len() ==> crate::text::space(#[trigger] end[i]),
    ensures
        words(a + gap + b + end) == seq![a, b],
{
    let none = Seq::<char>::empty();
    let rest = gap + b + end;
    if end.len() > 0 {
        assert(crate::text::space(end[0]));
    }
    assert(rest[0] == gap[0]);
    crate::pieces::words_stand_between_white_space(none, a, rest);
    crate::pieces::words_stand_between_white_space(gap, b, end);
    crate::pieces::words_stand_between_white_space(end, b, none);
    assert(a + gap + b + end =~= none + a + rest);
    assert(seq![a] + (seq![b] + Seq::<Seq<char>>::empty()) =~= seq![a, b]);
}

/// A digest that a checksum file gives is 64 hexadecimal digits without capitals.
pub proof fn listed_digests_are_lower_case(text: Seq<char>, filename: Seq<char>)
    ensures
        listed(text, filename) matches Some(d) ==> d.len() == 64 && forall|i: int|
            0 <= i < d.len() ==> ('0' <= #[trigger] d[i] <= '9' || 'a' <= d[i] <= 'f'),
{
    if let Some(d) = listed(text, filename) {
        let own = words(text)[0];
        assert forall|i: int| 0 <= i < d.len() implies ('0' <= #[trigger] d[i] <= '9' || 'a' <= d[i]
            <= 'f') by {
            assert(crate::text::hex_digit(own[i]));
            assert(d[i] == crate::text::lower(own[i]));
        }
    }
}

/// What the answer to the request for the latest release means: nothing is released yet with 404; with
/// any other status its description counts, or why it could not be read.
pub proof fn checks_are_concluded(
    status: u16,
    api: ApiReleaseView,
    words: Seq<char>,
    current: Seq<char>,
    platform: Seq<char>,
)
    ensures
        concluded(404, Ok(api), current, platform) == Ok::<_, (UpdateErrorKind, Seq<char>)>(
            CheckView { current, available: false, release: None },
        ),
        concluded(404, Err(words), current, platform) == Ok::<_, (UpdateErrorKind, Seq<char>)>(
            CheckView { current, available: false, release: None },
        ),
        status != 404 ==> concluded(status, Err(words), current, platform) == Err::<CheckView, _>(
            (UpdateErrorKind::ReleaseData, words),
        ),
        status != 404 && checked(api, current, platform) is Ok ==> concluded(
            status,
            Ok(api),
            current,
            platform,
        ) == Ok::<_, (UpdateErrorKind, Seq<char>)>(checked(api, current, platform)->Ok_0),
        status != 404 && checked(api, current, platform) is Err ==> concluded(
            status,
            Ok(api),
            current,
            platform,
        ) == Err::<CheckView, _>((checked(api, current, platform)->Err_0, Seq::<char>::empty())),
{
}

/// A digest is 64 hexadecimal digits, in capitals or not.
pub proof fn digests_are_hexadecimal(s: Seq<char>)
    ensures
        is_digest(s) <==> s.len() == 64 && forall|i: int|
            0 <= i < s.len() ==> ('0' <= #[trigger] s[i] <= '9' || 'a' <= s[i] <= 'f' || 'A' <= s[i]
                <= 'F'),
{
    assert(all_hex(s) <==> forall|i: int|
        0 <= i < s.len() ==> ('0' <= #[trigger] s[i] <= '9' || 'a' <= s[i] <= 'f' || 'A' <= s[i]
            <= 'F')) by {
        if all_hex(s) {
            assert forall|i: int| 0 <= i < s.len() implies ('0' <= #[trigger] s[i] <= '9' || 'a'
                <= s[i] <= 'f' || 'A' <= s[i] <= 'F') by {
                assert(crate::text::hex_digit(s[i]));
            }
        }
    }
}

/// The length that an answer tells is the number that its digits stand for.
pub proof fn lengths_are_numbers(s: Seq<char>)
    ensures
        length_of(s) is Ok <==> number_of(s, u64::MAX as nat) is Ok,
        length_of(s) matches Ok(n) ==> number_of(s, u64::MAX as nat) == Ok::<_, NumberFault>(n as nat),
{
    crate::numbers::numbers_are_limited(s, u64::MAX as nat);
}

/// The notice of a new version names it, the current one, and where to read of it.
pub proof fn notices_name_the_version(version: Seq<char>, current: Seq<char>, page: Seq<char>)
    ensures
        notice_text(version, current, page) == "发现 xxtab 新版本 "@ + version + "（当前 "@ + current
            + "）\n下载并校验：xxtab update download "@ + version
            + "\n停止连接后解压替换程序。\n"@ + page,
{
}

/// The bounds of an update: a package of 256 MiB, a checksum file of 4 KiB, a description of 2 MiB,
/// six requests, 30 seconds for a check and 300 for a download.
pub proof fn bounds_of_an_update()
    ensures
        MAX_PACKAGE == 268_435_456,
        MAX_CHECKSUM == 4096,
        MAX_DESCRIPTION == 2_097_152,
        MAX_REQUESTS == 6,
        CHECK_SECS == 30,
        DOWNLOAD_SECS == 300,
        CURRENT_VERSION@ == "0.1.3"@,
        REPOSITORY@ == "HZ-PRE/xxtab"@,
{
}

/// A checksum file gives a digest exactly where it is two words and no more: a digest, and the name of
/// the file behind any number of marks.
pub proof fn checksum_files_are_two_words(text: Seq<char>, filename: Seq<char>)
    ensures
        listed(text, filename) is Some <==> words(text).len() == 2 && without_leading(
            words(text)[1],
            '*',
        ) == filename && words(text)[0].len() == 64 && all_hex(words(text)[0]),
        listed(text, filename) matches Some(d) ==> d == lowered(words(text)[0]),
{
}

/// Why a text is no version: it has not three parts, or a part that is no number or one that begins
/// with a zero, or one that is too large.
pub proof fn refused_versions_have_their_reason(s: Seq<char>)
    ensures
        ({
            let p = split_at_each(s, '.');
            match version_of(s) {
                Ok(_) => p.len() == 3,
                Err(UpdateErrorKind::VersionParts) => p.len() != 3,
                Err(UpdateErrorKind::VersionPart) => p.len() == 3 && exists|i: int|
                    0 <= i < 3 && ((#[trigger] p[i]).len() == 0 || !all_digits(p[i]) || (p[i][0]
                        == '0' && p[i].len() > 1)),
                Err(UpdateErrorKind::VersionRange) => p.len() == 3 && exists|i: int|
                    0 <= i < 3 && all_digits(#[trigger] p[i]) && decimal_value(p[i]) > u64::MAX,
                Err(_) => false,
            }
        }),
{
    let p = split_at_each(s, '.');
    if p.len() == 3 {
        match (version_part(p[0]), version_part(p[1]), version_part(p[2])) {
            (Err(_), _, _) => {
                assert(p[0] == p[0]);
            },
            (_, Err(_), _) => {
                assert(p[1] == p[1]);
            },
            (_, _, Err(_)) => {
                assert(p[2] == p[2]);
            },
            _ => {},
        }
    }
}

/// Why a file of a release is not taken: there is none of its name, there are several, or it lies
/// elsewhere than under the address of the project.
pub proof fn refused_files_have_their_reason(
    all: Seq<AssetView>,
    version: Seq<char>,
    name: Seq<char>,
)
    ensures
        match found(all, version, name) {
            Ok(a) => exists|i: int|
                only_at(all, name, i) && #[trigger] all[i] == a && a.url
                    == "https://github.com/HZ-PRE/xxtab/releases/download/v"@ + version + "/"@ + name,
            Err(UpdateErrorKind::MissingAsset) => forall|i: int|
                0 <= i < all.len() ==> (#[trigger] all[i]).name != name,
            Err(UpdateErrorKind::RepeatedAsset) => (exists|i: int|
                0 <= i < all.len() && (#[trigger] all[i]).name == name) && forall|i: int|
                !only_at(all, name, i),
            Err(UpdateErrorKind::ForeignAsset) => exists|i: int|
                only_at(all, name, i) && (#[trigger] all[i]).url
                    != "https://github.com/HZ-PRE/xxtab/releases/download/v"@ + version + "/"@ + name,
            Err(_) => false,
        },
{
    lemma_matching(all, name);
    lemma_addresses();
    assert(asset_address(version, name) =~= "https://github.com/HZ-PRE/xxtab/releases/download/v"@
        + version + "/"@ + name);
    if matching(all, name).len() == 1 {
        let i = choose|i: int| only_at(all, name, i);
        assert(matching(all, name) == seq![all[i]]);
        assert(only_at(all, name, i) && all[i] == matching(all, name)[0]);
    } else if matching(all, name).len() > 1 {
        assert forall|i: int| !only_at(all, name, i) by {
            if only_at(all, name, i) {
                assert(matching(all, name) == seq![all[i]]);
            }
        }
    }
}

} // verus!
