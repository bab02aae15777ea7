use xxtab::gui::{
    self, clamp_selection, selected, summary, tray_action, AfterWork, Clock, CloseStep,
    InstallStep, Message, Prompt, Reaction, Step, TrayAction, Ui,
};
use xxtab::layout::{
    dimensions, editor_layout, main_layout, place, scale, Rect, EDITOR_MIN, MAIN_MIN,
};
use xxtab::logging::{Feed, Status};
use xxtab::update::{no_release, Check, Download, Release};

const SEC: u64 = 1_000_000_000;

const CLOCK: Clock = Clock { hour: 1, minute: 2, second: 3 };

fn feed(lines: &[&str], status: Status) -> Feed {
    Feed { lines: lines.iter().map(|l| l.to_string()).collect(), status }
}

fn running() -> Ui {
    let mut ui = Ui::new();
    ui.connecting(CLOCK);
    ui.started();
    ui
}

fn release() -> Release {
    Release {
        version: "2.0.0".into(),
        page: "page".into(),
        filename: "f".into(),
        url: "u".into(),
        checksum_url: "c".into(),
        size: 1,
    }
}

#[test]
fn messages_are_stamped_and_bounded() {
    let mut ui = Ui::new();
    ui.append("a\nb", CLOCK);
    assert!(ui.log_text().starts_with("[01:02:03] "));
    assert!(!ui.history[0].contains('\n'));
    for i in 0..400 {
        ui.append(&format!("{i}"), CLOCK);
    }
    assert_eq!(ui.history.len(), gui::MAX_HISTORY);
    assert!(ui.history.back().unwrap().ends_with("399"));
    for _ in 0..100 {
        ui.append(&"y".repeat(2000), CLOCK);
    }
    assert!(ui.log_text().len() <= gui::MAX_HISTORY_BYTES + 2 * gui::MAX_HISTORY);
    ui.clear();
    assert_eq!(ui.log_text(), "");
}

#[test]
fn selections_are_kept_in_range() {
    assert_eq!(selected(-1, 3), None);
    assert_eq!(selected(2, 3), Some(2));
    assert_eq!(selected(3, 3), None);
    assert_eq!(clamp_selection(7, 3), Some(2));
    assert_eq!(clamp_selection(7, 0), None);
}

#[test]
fn buttons_follow_the_tunnel() {
    let idle = Ui::new();
    let b = idle.buttons(true);
    assert!(b.connect && !b.disconnect && b.edit && b.view && b.new && b.update);
    let b = idle.buttons(false);
    assert!(!b.connect && !b.edit && !b.view);
    let ui = running();
    let b = ui.buttons(true);
    assert!(!b.connect && b.disconnect && b.reconnect && !b.combo && !b.new && !b.import && !b.edit);
    assert!(matches!(ui.command(gui::NEW, Some(0)), Step::Nothing));
    assert!(matches!(ui.command(gui::VIEW, Some(0)), Step::View(0)));
    assert!(matches!(ui.command(gui::CONNECT, Some(0)), Step::Nothing));
    assert!(matches!(ui.command(gui::DISCONNECT, Some(0)), Step::Disconnect));
    assert!(matches!(ui.command(gui::RECONNECT, Some(0)), Step::Reconnect));
    assert!(matches!(idle.command(gui::CONNECT, Some(0)), Step::Connect));
    assert!(matches!(idle.command(gui::CONNECT, None), Step::Nothing));
    assert!(matches!(idle.command(gui::EDIT, Some(2)), Step::Edit(2)));
    assert!(matches!(idle.command(gui::CONFIG, Some(2)), Step::Select(Some(2))));
    assert!(matches!(idle.command(gui::UPDATE, None), Step::CheckUpdate));
    assert!(matches!(idle.command(gui::EXIT, None), Step::Exit));
    let menu = ui.tray_menu(true, true);
    assert_eq!((menu[0].label, menu[0].enabled), ("连接", false));
    assert_eq!((menu[1].label, menu[1].enabled), ("断开", true));
    assert_eq!(menu[3].id, gui::EXIT);
    assert!(!ui.tray_menu(false, true)[3].enabled);
}

#[test]
fn tunnels_are_started_and_end() {
    let mut ui = Ui::new();
    assert_eq!(ui.start(None), Err("请先导入或新建配置"));
    assert_eq!(ui.start(Some(1)), Ok(Some(1)));
    ui.connecting(CLOCK);
    ui.started();
    assert_eq!(ui.start(Some(1)), Ok(None));
    assert!(ui.observe(&mut feed(&["x"], Status::Connected), 10 * SEC, CLOCK));
    assert_eq!(ui.state_text((10 + 3661) * SEC), "● 隧道已连接    01:01:01");
    assert_eq!(ui.tip(), "xxtab · 隧道已连接");
    assert!(!ui.observe(&mut feed(&[], Status::Connected), 99, CLOCK));
    assert_eq!(ui.connected_at, Some(10 * SEC));
    assert!(ui.stop(false, CLOCK));
    assert_eq!(ui.state_text(0), "● 正在断开…");
    assert_eq!(ui.finished(None, CLOCK), AfterWork::Stay);
    assert_eq!(ui.status, Status::Idle);
    assert_eq!(ui.state_text(0), "● 未连接");
    assert!(!ui.stop(false, CLOCK));
    let mut ui = running();
    assert_eq!(ui.finished(Some("why"), CLOCK), AfterWork::Stay);
    assert_eq!(ui.status, Status::Failed);
    assert!(ui.log_text().ends_with("连接失败：why"));
}

#[test]
fn reconnecting_waits_for_a_clean_end() {
    let mut ui = running();
    assert!(ui.stop(true, CLOCK));
    assert_eq!(ui.finished(None, CLOCK), AfterWork::Restart);
    let mut ui = running();
    assert!(ui.stop(true, CLOCK));
    assert_eq!(ui.finished(Some("why"), CLOCK), AfterWork::Stay);
}

#[test]
fn closing_waits_for_the_tunnel() {
    let mut ui = Ui::new();
    assert_eq!(ui.close(CLOCK), CloseStep::Destroy);
    let mut ui = running();
    assert_eq!(ui.close(CLOCK), CloseStep::Wait);
    assert!(ui.closing);
    assert_eq!(ui.finished(None, CLOCK), AfterWork::Close);
}

#[test]
fn updates_are_installed_after_a_clean_end_only() {
    let mut ui = Ui::new();
    assert_eq!(ui.install(CLOCK), InstallStep::Launch);
    assert!(ui.take_pending() && !ui.take_pending());
    let mut ui = running();
    assert_eq!(ui.install(CLOCK), InstallStep::Wait);
    assert_eq!(ui.finished(None, CLOCK), AfterWork::Install);
    let mut ui = running();
    assert_eq!(ui.install(CLOCK), InstallStep::Wait);
    assert_eq!(ui.finished(Some("why"), CLOCK), AfterWork::Stay);
    assert!(!ui.pending && !ui.closing);
    ui.install_failed("x", CLOCK);
    assert!(ui.log_text().ends_with("无法安装更新：x"));
}

#[test]
fn quiet_searches_bring_only_news() {
    let mut ui = Ui::new();
    assert!(ui.start_update(false, true, CLOCK));
    assert!(!ui.start_update(false, false, CLOCK));
    assert!(ui.update_ready(true, true) && !ui.update_ready(false, true));
    assert!(matches!(ui.checked(&no_release("0.1.3"), CLOCK), Prompt::Nothing));
    assert!(ui.start_update(false, true, CLOCK));
    assert!(matches!(ui.update_failed("x", CLOCK), Prompt::Nothing));
    let news = Check { current: "0.1.3".into(), available: true, release: Some(release()) };
    assert!(ui.start_update(false, true, CLOCK));
    let Prompt::AskDownload(title, text) = ui.checked(&news, CLOCK) else { panic!() };
    assert_eq!(title, "发现新版本");
    assert!(text.starts_with("当前版本：0.1.3\n新版本：2.0.0"));
    assert!(ui.start_update(false, false, CLOCK));
    let Prompt::Tell(_, text) = ui.checked(&no_release("0.1.3"), CLOCK) else { panic!() };
    assert_eq!(text, "当前版本：0.1.3\nGitHub 尚未发布正式版本。");
    assert!(ui.start_update(false, false, CLOCK));
    let Prompt::Error(text) = ui.update_failed("x", CLOCK) else { panic!() };
    assert_eq!(text, "更新失败：x");
    assert!(ui.start_update(true, false, CLOCK));
    let done = Download { version: "2.0.0".into(), path: "p".into(), sha256: "h".into() };
    assert!(matches!(ui.downloaded(&done, CLOCK), Prompt::AskInstall(_, _)));
    assert!(ui.log_text().ends_with("更新 2.0.0 下载完成，SHA256 校验通过：p"));
}

#[test]
fn messages_are_reacted_to() {
    let ui = Ui::new();
    assert_eq!(tray_action(0x205), TrayAction::Menu);
    assert_eq!(tray_action(0x202), TrayAction::Restore);
    assert_eq!(tray_action(0x200), TrayAction::Nothing);
    assert_eq!(ui.react(Message::Timer, false, false, true), Reaction::Tick);
    assert_eq!(ui.react(Message::Command(gui::NEW), false, false, true), Reaction::Run(gui::NEW));
    assert_ne!(ui.react(Message::Command(gui::NEW), true, false, true), Reaction::Run(gui::NEW));
    assert_eq!(ui.react(Message::Size(true), false, false, true), Reaction::Minimize);
    assert_eq!(ui.react(Message::Size(false), false, false, true), Reaction::Layout);
    assert_eq!(ui.react(Message::Close, false, false, true), Reaction::Close);
    assert_eq!(ui.react(Message::Destroy, false, false, true), Reaction::Quit);
    assert_eq!(ui.react(Message::Other, false, false, true), Reaction::Default);
    let mut ui = ui;
    ui.command_failed("x", CLOCK);
    assert!(ui.log_text().ends_with("操作失败：x"));
}

#[test]
fn summaries_show_the_address_and_the_server() {
    assert_eq!(
        summary("[Interface]\nAddress = 10.0.0.2/32\n", "wss://a"),
        "10.0.0.2/32    ·    wss://a"
    );
}

#[test]
fn controls_are_placed_and_scaled() {
    assert_eq!(scale(100, 96), 100);
    assert_eq!(scale(100, 144), 150);
    assert_eq!(dimensions(1520, 1060, 192), (760, 530));
    let r = place(Rect { x: 10, y: 20, w: 30, h: 40 }, 192);
    assert_eq!((r.x, r.y, r.w, r.h), (20, 40, 60, 80));
    let (w, h) = MAIN_MIN;
    let m = main_layout(w, h);
    for r in [m.combo, m.status, m.detail, m.connect, m.disconnect, m.reconnect, m.log, m.path] {
        assert!(r.x >= 0 && r.y >= 0 && r.x + r.w <= w && r.y + r.h <= h);
    }
    let (w, h) = EDITOR_MIN;
    let e = editor_layout(w, h);
    for r in [e.name, e.tunnel, e.import, e.wg, e.save, e.cancel] {
        assert!(r.x >= 0 && r.y >= 0 && r.x + r.w <= w && r.y + r.h <= h);
    }
}
