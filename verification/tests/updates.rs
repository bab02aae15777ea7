use sha2::Digest;
use xxtab::urls::UrlFault;
use xxtab::update::{
    accept_checksum, accept_installer, accept_package, accept_release, asset_url, checksum,
    choose_release, conclude, dialogs, directory_argument, downloaded, expected_digest, has_desktop,
    installer_arguments, is_redirect, latest_url, no_release, package_filename, parent_gone, parse_release,
    platform, read_status, startup_notice, trusted_url, version, was_shown, Announced, Answer, ApiRelease, Asset, Body,
    Check, Fetch, Parent, Release, Sink, UpdateError, UpdateErrorKind, CURRENT_VERSION,
    MAX_CHECKSUM, MAX_PACKAGE,
};
use xxtab::numbers::NumberFault;

fn fixture(tag: &str, suffix: &str) -> ApiRelease {
    let filename = package_filename(tag, suffix);
    let sum = format!("{filename}.sha256");
    ApiRelease {
        tag_name: format!("v{tag}"),
        draft: false,
        prerelease: false,
        assets: vec![
            Asset {
                name: filename.clone(),
                browser_download_url: asset_url(tag, &filename),
                size: 123,
            },
            Asset { name: sum.clone(), browser_download_url: asset_url(tag, &sum), size: 100 },
        ],
    }
}

fn refused(api: &ApiRelease) -> UpdateErrorKind {
    parse_release(api, "0.1.1", "macos-arm64.dmg").unwrap_err().kind
}

fn sink(bytes: &[u8]) -> Sink {
    let mut sink = Sink::new();
    for piece in bytes.chunks(3) {
        sink.wrote(piece);
    }
    sink
}

#[test]
fn versions_and_platform_assets() {
    for suffix in [
        "windows-x64-setup.exe",
        "macos-arm64.dmg",
        "macos-x86_64.dmg",
        "linux-x64.tar.gz",
    ] {
        let api = fixture("0.10.0", suffix);
        assert!(parse_release(&api, "0.9.9", suffix).unwrap().available);
        assert!(!parse_release(&api, "0.10.0", suffix).unwrap().available);
        assert!(!parse_release(&api, "1.0.0", suffix).unwrap().available);
        assert!(parse_release(&api, "0.1.1", "other.exe").is_err());
    }
    for bad in ["1.2", "1.2.3-beta", "01.2.3", "1.2.3/evil", "1.2.-3"] {
        assert!(version(bad).is_err());
    }
}

#[test]
fn rejects_foreign_missing_and_unstable_assets() {
    let original = || fixture("1.0.0", "macos-arm64.dmg");
    let mut foreign = original();
    foreign.assets[0].browser_download_url = "https://github.com/other/repo/file".into();
    let mut missing = original();
    missing.assets.pop();
    let mut beta = original();
    beta.prerelease = true;
    let mut huge = original();
    huge.assets[0].size = MAX_PACKAGE + 1;
    for item in [foreign, missing, beta, huge] {
        assert!(parse_release(&item, "0.1.1", "macos-arm64.dmg").is_err());
    }
}

#[test]
fn validates_redirects_and_checksums() {
    assert!(trusted_url("https://release-assets.githubusercontent.com/file?token=abc").is_ok());
    for bad in [
        "http://github.com/file",
        "https://github.com.evil.test/file",
        "https://evil.test/file",
        "https://user@github.com/file",
        "https://github.com:444/file",
    ] {
        assert!(trusted_url(bad).is_err());
    }
    let hash = "a".repeat(64);
    assert_eq!(checksum(format!("{hash}  x.exe\n").as_bytes(), "x.exe").unwrap(), hash);
    assert!(checksum(format!("{hash}  y.exe").as_bytes(), "x.exe").is_err());
    assert!(checksum(b"bad x.exe", "x.exe").is_err());
}

#[test]
fn downloads_only_complete_verified_packages() {
    let filename = package_filename("999.0.0", platform("linux", "x86_64").unwrap());
    let release = Release {
        version: "999.0.0".into(),
        page: String::new(),
        filename: filename.clone(),
        url: asset_url("999.0.0", &filename),
        checksum_url: asset_url("999.0.0", &format!("{filename}.sha256")),
        size: 7,
    };
    assert_eq!(accept_release(&release, CURRENT_VERSION, "linux", "x86_64").unwrap(), filename);
    let hash = format!("{:x}", sha2::Sha256::digest(b"package"));
    let list = format!("{hash}  {filename}\n");
    let fetch = |payload: &[u8]| {
        let announced = Announced::begin(&release, CURRENT_VERSION, "linux", "x86_64").unwrap();
        assert_eq!(announced.wanted().url, release.checksum_url);
        assert_eq!(announced.wanted().limit, 4096);
        let listed = announced.checksum(200, list.as_bytes()).unwrap();
        assert_eq!(listed.wanted().url, release.url);
        assert_eq!(listed.wanted().limit, 7);
        listed.package(200, sink(payload), "/tmp/p")
    };
    let done = fetch(b"package").unwrap();
    assert_eq!((done.version.as_str(), done.path.as_str()), ("999.0.0", "/tmp/p"));
    assert_eq!(done.sha256, hash);
    assert!(fetch(b"changed").unwrap_err().message().contains("SHA256"));
    assert!(fetch(b"short").unwrap_err().message().contains("不完整"));
}

#[test]
fn every_fault_of_a_release_is_told() {
    let original = || fixture("1.0.0", "macos-arm64.dmg");
    let mut api = original();
    api.draft = true;
    assert_eq!(refused(&api), UpdateErrorKind::Unstable);
    let mut api = original();
    api.tag_name = "1.0.0".into();
    assert_eq!(refused(&api), UpdateErrorKind::Tag);
    let mut api = original();
    api.tag_name = "v1.0".into();
    assert_eq!(refused(&api), UpdateErrorKind::VersionParts);
    let mut api = original();
    api.assets.remove(0);
    assert_eq!(refused(&api), UpdateErrorKind::MissingAsset);
    let mut api = original();
    api.assets.push(Asset {
        name: package_filename("1.0.0", "macos-arm64.dmg"),
        browser_download_url: String::new(),
        size: 1,
    });
    assert_eq!(refused(&api), UpdateErrorKind::RepeatedAsset);
    let mut api = original();
    api.assets[1].browser_download_url.push('x');
    assert_eq!(refused(&api), UpdateErrorKind::ForeignAsset);
    let mut api = original();
    api.assets[0].size = 0;
    assert_eq!(refused(&api), UpdateErrorKind::PackageSize);
    let mut api = original();
    api.assets[1].size = MAX_CHECKSUM + 1;
    assert_eq!(refused(&api), UpdateErrorKind::ChecksumSize);
    let mut api = original();
    api.assets[0].size = MAX_PACKAGE;
    let check = parse_release(&api, "0.1.1", "macos-arm64.dmg").unwrap();
    let release = check.release.unwrap();
    assert_eq!(release.version, "1.0.0");
    assert_eq!(release.page, "https://github.com/HZ-PRE/xxtab/releases/tag/v1.0.0");
    assert_eq!(
        release.url,
        "https://github.com/HZ-PRE/xxtab/releases/download/v1.0.0/xxtab-1.0.0-macos-arm64.dmg"
    );
    assert_eq!(release.checksum_url, format!("{}.sha256", release.url));
}

#[test]
fn versions_have_three_parts_without_leading_zeros() {
    assert_eq!(version("1.2.3").unwrap(), [1, 2, 3]);
    assert_eq!(version("0.10.18446744073709551615").unwrap(), [0, 10, u64::MAX]);
    assert_eq!(version("1.2").unwrap_err().kind, UpdateErrorKind::VersionParts);
    assert_eq!(version("1.2.3.4").unwrap_err().kind, UpdateErrorKind::VersionParts);
    assert_eq!(version("1..3").unwrap_err().kind, UpdateErrorKind::VersionPart);
    assert_eq!(version("1.2.03").unwrap_err().kind, UpdateErrorKind::VersionPart);
    assert_eq!(
        version("1.2.18446744073709551616").unwrap_err().kind,
        UpdateErrorKind::VersionRange
    );
    assert_eq!(platform("linux", "aarch64").unwrap_err().kind, UpdateErrorKind::Platform);
    assert_eq!(platform("macos", "aarch64").unwrap(), "macos-arm64.dmg");
    assert_eq!(platform("windows", "x86_64").unwrap(), "windows-x64-setup.exe");
    assert_eq!(latest_url(), "https://api.github.com/repos/HZ-PRE/xxtab/releases/latest");
}

#[test]
fn newer_versions_are_ordered_by_number() {
    let available = |new: &str, current: &str| {
        parse_release(&fixture(new, "linux-x64.tar.gz"), current, "linux-x64.tar.gz")
            .unwrap()
            .available
    };
    assert!(available("0.10.0", "0.9.9"));
    assert!(available("1.0.0", "0.99.99"));
    assert!(available("1.0.1", "1.0.0"));
    assert!(!available("1.0.0", "1.0.1"));
    assert!(!no_release("1.0.0").available);
    assert!(conclude(404, Err(String::new()), "1.0.0", "x").unwrap().release.is_none());
    assert_eq!(
        conclude(200, Err("EOF".to_string()), "1.0.0", "x").unwrap_err().message(),
        "GitHub Release 数据无效: EOF"
    );
    let api = fixture("1.2.0", "linux-x64.tar.gz");
    assert!(conclude(200, Ok(api), "1.0.0", "linux-x64.tar.gz").unwrap().available);
    assert!(no_release("1.0.0").release.is_none());
}

#[test]
fn redirects_stay_on_trusted_hosts() {
    let mut fetch = Fetch::begin("https://github.com/a/b?c=d").unwrap();
    assert_eq!(fetch.target(), "/a/b?c=d");
    assert_eq!(fetch.accept(), "application/octet-stream");
    let r = fetch.answer(
        302,
        Some("https://objects.githubusercontent.com/x"),
        None,
        1000,
        false,
    );
    assert!(matches!(r, Ok(Answer::Follow)));
    assert_eq!(fetch.url.text, "https://objects.githubusercontent.com/x");
    let r = fetch.answer(301, Some("/y"), None, 1000, false);
    assert!(matches!(r, Ok(Answer::Follow)));
    assert_eq!(fetch.url.text, "https://objects.githubusercontent.com/y");
    let kind = |fetch: &mut Fetch, location| {
        fetch.answer(302, location, None, 1000, false).unwrap_err().kind
    };
    assert_eq!(kind(&mut fetch, Some("https://evil.test/")), UpdateErrorKind::Untrusted);
    let mut fetch = Fetch::begin("https://github.com/a").unwrap();
    assert_eq!(kind(&mut fetch, None), UpdateErrorKind::NoLocation);
    assert_eq!(
        Fetch::begin("nothing").unwrap_err().kind,
        UpdateErrorKind::Url(UrlFault::Relative)
    );
    let mut fetch = Fetch::begin("https://github.com/a").unwrap();
    for _ in 1..6 {
        assert!(matches!(fetch.answer(302, Some("/a"), None, 1000, false), Ok(Answer::Follow)));
    }
    assert_eq!(kind(&mut fetch, Some("/a")), UpdateErrorKind::Redirects);
}

#[test]
fn answers_are_told_apart() {
    let mut fetch = Fetch::begin("https://api.github.com/x").unwrap();
    assert_eq!(fetch.accept(), "application/vnd.github+json");
    let mut answer = |status, length, proxied| fetch.answer(status, None, length, 1000, proxied);
    assert!(matches!(answer(404, None, false), Ok(Answer::Missing)));
    assert!(matches!(answer(200, Some("1000"), false), Ok(Answer::Body(Some(1000)))));
    assert!(matches!(answer(200, None, false), Ok(Answer::Body(None))));
    assert_eq!(answer(200, Some("1001"), false).unwrap_err().kind, UpdateErrorKind::OverLimit);
    assert_eq!(
        answer(200, Some("x"), false).unwrap_err().kind,
        UpdateErrorKind::Length(NumberFault::Digit)
    );
    assert_eq!(answer(407, None, true).unwrap_err().kind, UpdateErrorKind::Proxy);
    let e = answer(403, None, false).unwrap_err();
    assert_eq!(e.kind, UpdateErrorKind::Limited);
    assert!(e.message().contains("403"));
    assert_eq!(answer(429, None, false).unwrap_err().kind, UpdateErrorKind::Limited);
    let e = answer(500, None, false).unwrap_err();
    assert_eq!(e.kind, UpdateErrorKind::Status);
    assert!(e.message().contains("500"));
}

#[test]
fn bodies_are_whole_and_bounded() {
    let mut body = Body::new(Some(5), 10);
    body.take(3).unwrap();
    assert_eq!(body.finish().unwrap_err().kind, UpdateErrorKind::Incomplete);
    body.take(2).unwrap();
    body.finish().unwrap();
    let mut body = Body::new(None, 10);
    body.take(10).unwrap();
    body.finish().unwrap();
    assert_eq!(body.take(1).unwrap_err().kind, UpdateErrorKind::OverLimit);
}

#[test]
fn checksums_name_their_file() {
    let hash = "A".repeat(64);
    assert_eq!(
        checksum(format!("{hash} *x.exe").as_bytes(), "x.exe").unwrap(),
        "a".repeat(64)
    );
    let error = checksum(&[0xff], "x").unwrap_err();
    assert_eq!(error.kind, UpdateErrorKind::ChecksumEncoding);
    assert_eq!(
        error.message(),
        "SHA256 文件编码无效: invalid utf-8 sequence of 1 bytes from index 0"
    );
    assert_eq!(
        checksum(format!("{hash}  x.exe extra").as_bytes(), "x.exe").unwrap_err().kind,
        UpdateErrorKind::Checksum
    );
    assert_eq!(
        accept_checksum(404, b"", "x").unwrap_err().kind,
        UpdateErrorKind::NoChecksum
    );
}

#[test]
fn releases_are_checked_again_before_a_download() {
    let filename = package_filename("999.0.0", "linux-x64.tar.gz");
    let release = || Release {
        version: "999.0.0".into(),
        page: String::new(),
        filename: filename.clone(),
        url: asset_url("999.0.0", &filename),
        checksum_url: asset_url("999.0.0", &format!("{filename}.sha256")),
        size: 7,
    };
    let kind = |r: &Release, current: &str| {
        accept_release(r, current, "linux", "x86_64").unwrap_err().kind
    };
    assert_eq!(kind(&release(), "999.0.0"), UpdateErrorKind::NotNewer);
    let mut r = release();
    r.url.push('x');
    assert_eq!(kind(&r, "0.1.3"), UpdateErrorKind::ReleaseInfo);
    let mut r = release();
    r.size = 0;
    assert!(accept_release(&r, "0.1.3", "linux", "x86_64").is_err());
    assert_eq!(
        accept_package(404, sink(b""), 7, "").unwrap_err().kind,
        UpdateErrorKind::NoPackage
    );
    assert_eq!(
        accept_package(200, sink(b"package"), 7, "0").unwrap_err().kind,
        UpdateErrorKind::Mismatch
    );
}

#[test]
fn installers_are_handed_over_and_checked_again() {
    let release = Release {
        version: "2.0.0".into(),
        page: String::new(),
        filename: String::new(),
        url: String::new(),
        checksum_url: String::new(),
        size: 1,
    };
    let hash = format!("{:x}", sha2::Sha256::digest(b"installer"));
    let done = downloaded(&release, "p.exe", &hash);
    assert_eq!(
        installer_arguments(17, &done, "C:\\App"),
        ["update-install", "17", hash.as_str(), "p.exe", "C:\\App"]
    );
    assert_eq!(expected_digest(&hash.to_uppercase()).unwrap(), hash);
    assert_eq!(expected_digest("12").unwrap_err().kind, UpdateErrorKind::ExpectedHash);
    accept_installer(sink(b"installer"), &hash).unwrap();
    let e = accept_installer(sink(b"changed"), &hash).unwrap_err();
    assert!(e.message().contains("已被修改"));
    parent_gone(Parent::Waited(true)).unwrap();
    assert_eq!(parent_gone(Parent::Waited(false)).unwrap_err().kind, UpdateErrorKind::ParentTimeout);
    parent_gone(Parent::NotOpened(Some(87))).unwrap();
    assert_eq!(
        parent_gone(Parent::NotOpened(Some(5))).unwrap_err().kind,
        UpdateErrorKind::ParentUnknown
    );
    assert_eq!(directory_argument("App With Spaces"), "/DIR=App With Spaces");
}

fn found(version: &str) -> Check {
    parse_release(&fixture(version, "linux-x64.tar.gz"), "0.1.3", "linux-x64.tar.gz").unwrap()
}

#[test]
fn a_start_tells_of_new_versions_only() {
    let notice = startup_notice(&found("0.2.0")).unwrap();
    assert_eq!(
        notice,
        "发现 xxtab 新版本 0.2.0（当前 0.1.3）\n下载并校验：xxtab update download 0.2.0\n停止连接后解压替换程序。\nhttps://github.com/HZ-PRE/xxtab/releases/tag/v0.2.0"
    );
    assert!(startup_notice(&found("0.1.3")).is_none());
    assert!(startup_notice(&no_release("0.1.3")).is_none());
}

#[test]
fn the_asked_version_has_to_be_the_latest() {
    let check = found("0.2.0");
    assert_eq!(choose_release(&check, None).unwrap().version, "0.2.0");
    assert_eq!(choose_release(&check, Some("0.2.0")).unwrap().version, "0.2.0");
    assert_eq!(
        choose_release(&check, Some("0.2.1")).unwrap_err().kind,
        UpdateErrorKind::VersionChanged
    );
    assert_eq!(
        choose_release(&found("0.1.0"), None).unwrap_err().kind,
        UpdateErrorKind::NoUpdate
    );
}

#[test]
fn dialogs_are_tried_in_turn() {
    assert!(has_desktop(Some(2), None) && has_desktop(None, Some(1)));
    assert!(!has_desktop(None, None) && !has_desktop(Some(0), Some(0)));
    let all = dialogs("text");
    assert_eq!(all[0].program, "zenity");
    assert_eq!(
        all[0].arguments,
        ["--info", "--no-markup", "--title=xxtab 更新", "--text", "text"]
    );
    assert_eq!(all[1].program, "kdialog");
    assert!(was_shown(Some(0)));
    assert!(!was_shown(Some(127)) && !was_shown(None));
}

#[test]
fn the_status_of_an_answer_is_a_number() {
    assert_eq!(read_status(Some("404")).unwrap(), 404);
    assert_eq!(read_status(None).unwrap_err().message(), "缺少 HTTP 状态码");
    assert_eq!(
        read_status(Some("70000")).unwrap_err().message(),
        "number too large to fit in target type"
    );
    assert_eq!(
        read_status(Some("2 00")).unwrap_err().message(),
        "invalid digit found in string"
    );
    assert!(is_redirect(308) && !is_redirect(304) && !is_redirect(200));
}

#[test]
fn errors_are_told_in_words() {
    assert_eq!(UpdateError::new(UpdateErrorKind::Cancelled).message(), "更新请求已取消");
    assert_eq!(
        UpdateError::new(UpdateErrorKind::VersionRange).message(),
        "版本号超出范围: number too large to fit in target type"
    );
    assert_eq!(
        trusted_url("nothing").unwrap_err().message(),
        "无效的更新地址: relative URL without a base"
    );
    assert_eq!(
        UpdateError::new(UpdateErrorKind::Length(NumberFault::Empty)).message(),
        "cannot parse integer from empty string"
    );
}
