use base64::Engine;
use xxtab::config::{Config, ConfigError};
use xxtab::desktop::{self, Command, Step};
use xxtab::editor::{self, Editor, EditorMessage, EditorReaction, EditorStep};
use xxtab::profiles::{
    check_size, complete, import, new_id, normalize, read_text, Catalog, Draft, Import, Profile,
    ProfileError, Store, MAX_FILE, MAX_PROFILES, TEMPLATE, WG_TEMPLATE,
};

fn wg() -> String {
    let key = base64::engine::general_purpose::STANDARD.encode([1; 32]);
    format!(
        "[Interface]\nPrivateKey={key}\nAddress=10.0.0.2/32\n[Peer]\nPublicKey={key}\nAllowedIPs=10.0.0.1/32\n"
    )
}

fn draft(name: &str, tunnel: &str, wireguard: &str) -> Draft {
    Draft { name: name.into(), tunnel: tunnel.into(), wireguard: wireguard.into() }
}

fn store() -> Store {
    Store::open("/profiles".to_string(), Catalog::default()).unwrap()
}

fn save(store: &mut Store, index: Option<usize>, draft: &Draft, id: &str) -> Result<usize, ProfileError> {
    let staged = store.stage(index, draft)?;
    let at = staged.index;
    store.commit(at, staged.name, id.to_string());
    Ok(at)
}

#[test]
fn import_and_save_leave_originals_unchanged_and_pair_profiles() {
    let tunnel = "server='ws://127.0.0.1:8080'\nca_file='ca.pem'\n[wireguard]\nconfig='source.conf'";
    let Ok(Import::Half(name, normal, path)) = import("/dir/source.toml", tunnel) else { panic!() };
    assert_eq!(name, "source");
    assert_eq!(path, "/dir/source.conf");
    let mut draft = complete(name, normal, &wg());
    let mut store = Store::open("/dir/profiles".to_string(), Catalog::default()).unwrap();
    let index = save(&mut store, None, &draft, &new_id(1)).unwrap();
    let first = store.path(index).unwrap();
    draft.name = "新版".into();
    let staged = store.stage(Some(index), &draft).unwrap();
    let text = staged.tunnel;
    store.commit(staged.index, staged.name, new_id(2));
    assert_ne!(first, store.path(index).unwrap());
    assert_eq!(store.catalog.profiles.len(), 1);
    let cfg = Config::parse(&text, &store.path(index).unwrap()).unwrap();
    assert!(cfg.ca_file.unwrap().starts_with('/'));
    assert_eq!(cfg.wireguard.unwrap().config, store.wireguard(index).unwrap());
    let loaded = store.load(index, &text, &draft.wireguard).unwrap();
    assert_eq!(loaded.wireguard, wg());
    let again = Store::open(store.root, store.catalog).unwrap();
    assert_eq!(again.catalog.profiles[0].name, "新版");
}

#[test]
fn invalid_draft_cannot_replace_saved_profile() {
    let mut store = store();
    let mut draft = draft("test", TEMPLATE, &wg());
    save(&mut store, None, &draft, &new_id(1)).unwrap();
    let path = store.path(0).unwrap();
    draft.wireguard.push_str("PostUp = bad\n");
    assert!(save(&mut store, Some(0), &draft, &new_id(2)).is_err());
    assert_eq!(store.path(0).unwrap(), path);
}

#[test]
fn bridge_round_trip_and_rejected_save_preserve_catalog() {
    let mut store = store();
    let key = base64::engine::general_purpose::STANDARD.encode([1; 32]);
    let first = draft(
        "macOS",
        TEMPLATE,
        &format!(
            "[Interface]\nPrivateKey={key}\nAddress=10.1.1.2/32\n[Peer]\nPublicKey={key}\nAllowedIPs=10.1.1.1/32\n"
        ),
    );
    let Ok(Step::Save(staged, wireguard)) =
        desktop::execute(&mut store, Command::Save(None, first), true)
    else {
        panic!()
    };
    assert_eq!(staged.index, 0);
    let tunnel = staged.tunnel;
    store.commit(staged.index, staged.name, new_id(1));
    let Ok(Step::Load(0, path, config)) = desktop::execute(&mut store, Command::Load(0), true) else {
        panic!()
    };
    assert_eq!(path, store.path(0).unwrap());
    assert_eq!(config, store.wireguard(0).unwrap());
    let mut invalid = store.load(0, &tunnel, &wireguard).unwrap();
    assert_eq!(invalid.name, "macOS");
    invalid.tunnel = "private-secret invalid TOML".into();
    let error = desktop::execute(&mut store, Command::Save(Some(0), invalid), true).unwrap_err();
    assert!(!error.message().contains("private-secret"));
    assert!(matches!(desktop::execute(&mut store, Command::List, true), Ok(Step::Catalog)));
    assert_eq!(store.catalog.profiles.len(), 1);
    assert!(desktop::execute(&mut store, Command::Select(99), true).is_err());
}

#[test]
fn every_fault_of_a_draft_is_told() {
    let store = store();
    let told = |d: Draft| store.stage(None, &d).unwrap_err().message();
    let good = wg();
    assert_eq!(told(draft("  ", TEMPLATE, &good)), "配置名称需要 1–60 个字符");
    assert_eq!(told(draft(&"x".repeat(61), TEMPLATE, &good)), "配置名称需要 1–60 个字符");
    assert_eq!(told(draft("x", &"#".repeat(131_073), &good)), "配置过大");
    assert_eq!(told(draft("x", "server", &good)), "隧道 TOML 语法错误，请检查字段和值");
    assert_eq!(
        told(draft("x", "ca_file=5\nserver='ws://a'\n[wireguard]\nconfig='x'", &good)),
        ConfigError::Toml.message()
    );
    assert_eq!(
        told(draft("x", "ca_file='a'\nserver='ws://a'\n[wireguard]\nconfig='x'", &good)),
        "界面配置中的 ca_file 请使用绝对路径；导入已有配置会自动转换"
    );
    assert_eq!(told(draft("x", "server='ws://a'", &good)), "缺少 [wireguard] 配置段");
    let words = told(draft("x", TEMPLATE, "[Interface]"));
    assert!(words.starts_with("WireGuard 配置未通过检查: "), "{words}");
    let faulty = "server='http://a'\n[wireguard]\nconfig='x'";
    assert_eq!(told(draft("x", faulty, &good)), ConfigError::Scheme.message());
    let mut full = Catalog::default();
    for i in 0..MAX_PROFILES {
        full.profiles.push(Profile { name: "x".into(), id: new_id(i as u128) });
    }
    let full = Store::open("/profiles".into(), full).unwrap();
    let e = full.stage(None, &draft("x", TEMPLATE, &good)).unwrap_err();
    assert_eq!(e.message(), "配置数量已达到上限");
    assert!(full.stage(Some(99), &draft("x", TEMPLATE, &good)).is_ok());
    assert_eq!(
        full.stage(Some(100), &draft("x", TEMPLATE, &good)).unwrap_err().message(),
        "配置数量已达到上限"
    );
}

#[test]
fn loading_gives_back_what_was_saved() {
    let mut store = store();
    let wireguard = wg().replace('\n', "\r\n");
    let tunnel = "server='ws://h'\npath_prefix=\"v1\"\n[wireguard]\nconfig='elsewhere.conf'\nname=\"\"\"a\"\"\"";
    let d = draft(" a ", tunnel, &wireguard);
    let staged = store.stage(None, &d).unwrap();
    let (index, saved) = (staged.index, staged.tunnel);
    store.commit(index, staged.name, new_id(5));
    let l = store.load(index, &saved, &d.wireguard).unwrap();
    assert_eq!((l.name.as_str(), l.wireguard.as_str()), ("a", wg().as_str()));
    let mut expected: toml::Value = toml::from_str(tunnel).unwrap();
    expected["wireguard"]["config"] = toml::Value::String("wg.conf".to_string());
    assert_eq!(toml::from_str::<toml::Value>(&l.tunnel).unwrap(), expected);
    assert!(store.load(1, "", "").is_err());
    // A byte order mark is no part of a configuration.
    let marked = format!("\u{feff}{}", wg());
    assert!(store.stage(None, &draft("a", tunnel, &marked)).is_err());
    // What is written holds no carriage return.
    let odd = "server='ws://h'\n[wireguard]\nconfig='x'\nexecutable=\"a\\r\\nb\\n\"";
    assert!(!normalize(odd, None).unwrap().contains('\r'));
}

#[test]
fn catalogs_are_checked_when_they_are_opened() {
    let open = |ids: Vec<String>, selected| {
        let profiles = ids.into_iter().map(|id| Profile { name: "x".into(), id }).collect();
        Store::open("/r".into(), Catalog { profiles, selected })
    };
    assert!(open(vec!["18c0".into()], 0).is_ok());
    assert!(matches!(open(vec!["../x".into()], 0), Err(ProfileError::BadId)));
    assert!(matches!(open(vec![new_id(0); 101], 0), Err(ProfileError::TooManyProfiles)));
    let mut store = open(vec![new_id(0), new_id(1)], 0).unwrap();
    store.select(1).unwrap();
    assert_eq!(store.catalog.selected, 1);
    assert!(matches!(store.select(2), Err(ProfileError::NotSelected)));
    assert!(matches!(store.path(2), Err(ProfileError::NotSelected)));
    assert_eq!(store.path(0).unwrap(), format!("/r/{}/xxtab.toml", new_id(0)));
    assert_eq!(store.wireguard(0).unwrap(), format!("/r/{}/wg.conf", new_id(0)));
}

#[test]
fn undoing_a_save_gives_the_catalog_back() {
    let mut store = store();
    let d = draft("a", TEMPLATE, &wg());
    save(&mut store, None, &d, &new_id(1)).unwrap();
    let staged = store.stage(None, &draft("b", TEMPLATE, &wg())).unwrap();
    let undo = store.commit(staged.index, staged.name, new_id(2));
    assert_eq!((store.catalog.profiles.len(), store.catalog.selected), (2, 1));
    store.undo(1, undo);
    assert_eq!((store.catalog.profiles.len(), store.catalog.selected), (1, 0));
    let staged = store.stage(Some(0), &draft("c", TEMPLATE, &wg())).unwrap();
    let undo = store.commit(staged.index, staged.name, new_id(3));
    assert_eq!(store.catalog.profiles[0].name, "c");
    store.undo(0, undo);
    assert_eq!(store.catalog.profiles[0].name, "a");
    assert_eq!(store.catalog.profiles[0].id, new_id(1));
}

#[test]
fn texts_are_read_and_normalized() {
    assert_eq!(read_text("\u{feff}a\r\nb"), "a\nb");
    assert_eq!(read_text("a"), "a");
    assert!(check_size(MAX_FILE).is_ok());
    assert!(matches!(check_size(MAX_FILE + 1), Err(ProfileError::FileTooLarge)));
    let once = normalize("server='ws://a'\n[wireguard]\nconfig='elsewhere'", None).unwrap();
    assert!(once.contains("config = \"wg.conf\""), "{once}");
    assert_eq!(normalize(&once, None).unwrap(), once);
    let moved = normalize("ca_file='c.pem'\n[wireguard]\nconfig='x'", Some("/dir/a.toml")).unwrap();
    assert!(moved.contains("ca_file = \"/dir/c.pem\""), "{moved}");
    assert_eq!(new_id(255), "ff");
}

#[test]
fn wireguard_files_are_imported_with_the_template() {
    let Ok(Import::Whole(d)) = import("/dir/My VPN.conf", &wg()) else { panic!() };
    assert_eq!(d.name, "My VPN");
    assert_eq!(d.tunnel, TEMPLATE);
    assert_eq!(d.wireguard, wg());
    assert!(matches!(
        import("/dir/a.TOML", "server='ws://a'"),
        Err(ProfileError::ImportedNoWireGuard) | Err(ProfileError::NoWireGuard)
    ));
    assert!(import("/dir/a.toml", "x").is_err());
}

#[test]
fn templates_are_ready_to_be_filled_in() {
    assert!(Config::parse(TEMPLATE, "/r/xxtab.toml").unwrap().wireguard.is_some());
    assert!(WG_TEMPLATE.contains("[Interface]") && WG_TEMPLATE.contains("[Peer]"));
}

#[test]
fn requests_are_answered_in_steps() {
    let mut store = store();
    let Ok(Step::Draft(d)) = desktop::execute(&mut store, Command::Template, false) else { panic!() };
    assert_eq!((d.name.as_str(), d.tunnel.as_str()), ("新配置", TEMPLATE));
    assert!(matches!(
        desktop::execute(&mut store, Command::Dependencies, true),
        Ok(Step::Ready(true))
    ));
    let Ok(Step::Import(p)) = desktop::execute(&mut store, Command::Import("/x".into()), true) else {
        panic!()
    };
    assert_eq!(p, "/x");
    assert!(desktop::execute(&mut store, Command::Load(0), true).is_err());
    save(&mut store, None, &draft("a", TEMPLATE, &wg()), &new_id(1)).unwrap();
    assert!(matches!(
        desktop::execute(&mut store, Command::Select(0), true),
        Ok(Step::Persist)
    ));
    assert_eq!(
        desktop::request_fault(desktop::MAX_REQUEST + 1, true),
        Some("desktop request too large")
    );
    assert_eq!(desktop::request_fault(5, false), Some("invalid desktop request"));
    assert_eq!(desktop::request_fault(5, true), None);
}

#[test]
fn editors_keep_untouched_texts() {
    let original = draft("n", "a\nb", "c\n\nd");
    let (e, opening) = Editor::open(Some(3), original, false);
    assert_eq!(opening.title, "编辑配置 — xxtab");
    assert_eq!(opening.tunnel, "a\r\nb");
    assert!(opening.editable);
    let shown = editor::draft(&opening.name, &opening.tunnel, &opening.wireguard);
    assert!(!e.changed(&shown) && e.closes_silently(&shown));
    let other = editor::draft("other", &opening.tunnel, &opening.wireguard);
    assert!(e.changed(&other) && !e.closes_silently(&other));
    assert!(matches!(e.command(editor::SAVE), EditorStep::Save));
    assert!(matches!(e.command(editor::CANCEL), EditorStep::Close));
    assert!(matches!(e.command(editor::IMPORT_WG), EditorStep::Import));
    assert!(matches!(
        e.react(EditorMessage::Command(editor::SAVE), false),
        EditorReaction::Run(EditorStep::Save)
    ));
    assert!(matches!(e.react(EditorMessage::Command(editor::SAVE), true), EditorReaction::Nothing));
    assert_eq!(editor::shown_text("a\nb\n"), "a\r\nb\r\n");
}

#[test]
fn read_only_editors_do_not_save() {
    let (e, opening) = Editor::open(Some(0), draft("n", "a", "b"), true);
    assert_eq!(opening.title, "当前配置（只读）— xxtab");
    assert_eq!(opening.cancel, "关闭");
    assert!(!opening.editable);
    assert!(!matches!(e.command(editor::SAVE), EditorStep::Save));
    assert!(e.closes_silently(&draft("changed", "", "")));
    let (_, opening) = Editor::open(None, draft("n", "a", "b"), false);
    assert_eq!(opening.title, "新建 / 导入配置 — xxtab");
}

#[test]
fn whatever_stands_behind_the_fields_of_a_transport_is_kept() {
    let store = store();
    let tails = [
        "1979-05-27T07:32:00.5-07:30, 1979-05-27, 07:32:00, 1979-05-27 07:32:00Z".to_string(),
        "{ a = [{ b = 07:32:01.000000001 }, []], c = true }, -3, 'x'".to_string(),
        format!("{}1{}", "[".repeat(70), "]".repeat(70)),
    ];
    for tail in tails {
        let tunnel = format!(
            "server='ws://h'\ntransport=['interactive', 20, {tail}]\n[wireguard]\nconfig='x'"
        );
        let staged = store.stage(None, &draft("a", &tunnel, &wg())).unwrap();
        let mut expected: toml::Value = toml::from_str(&tunnel).unwrap();
        expected["wireguard"]["config"] = toml::Value::String("wg.conf".to_string());
        assert_eq!(toml::from_str::<toml::Value>(&staged.tunnel).unwrap(), expected);
        let cfg = Config::parse(&staged.tunnel, "/p/xxtab.toml").unwrap();
        assert_eq!(cfg.transport.diagnostics_interval_secs, 20);
        assert_eq!(cfg.wireguard.unwrap().config, "/p/wg.conf");
    }
}

#[test]
fn loaded_texts_are_cleaned_once() {
    let mut store = store();
    let d = draft("a", "server='ws://h'\n[wireguard]\nconfig='x'", &wg());
    let index = save(&mut store, None, &d, &new_id(5)).unwrap();
    let l = store.load(index, "\u{feff}a\r\r\nb", "c\r\r\nd\r\n").unwrap();
    assert_eq!((l.tunnel.as_str(), l.wireguard.as_str()), ("a\r\nb", "c\r\nd\n"));
    let half = complete("n".to_string(), "t".to_string(), "c\r\r\nd");
    assert_eq!(half.wireguard, "c\r\nd");
}

#[test]
fn busy_editors_put_off_what_they_cannot_do() {
    let busy = editor::busy_reaction;
    assert!(matches!(busy(EditorMessage::Command(editor::CANCEL)), EditorReaction::Nothing));
    assert!(matches!(busy(EditorMessage::Close), EditorReaction::Nothing));
    assert!(matches!(busy(EditorMessage::Size), EditorReaction::Nothing));
    assert!(matches!(busy(EditorMessage::MinSize), EditorReaction::MinSize));
    assert!(matches!(busy(EditorMessage::DpiChanged), EditorReaction::Resize));
    assert!(matches!(busy(EditorMessage::Other), EditorReaction::Default));
    let (e, _) = Editor::open(None, draft("n", "a", "b"), true);
    assert!(matches!(e.react(EditorMessage::Close, false), EditorReaction::Run(EditorStep::Close)));
    assert!(matches!(e.react(EditorMessage::Size, false), EditorReaction::Layout));
    assert!(matches!(e.react(EditorMessage::Size, true), EditorReaction::Nothing));
}
