use playbridge::daemon::launcher::{
    adopt_installed_client, apply_intent_package, resolve_client, IntentDecision, LaunchState, LaunchStep, LaunchStop,
};
use playbridge::sys::config::{latest_tag, toggled, update_available, update_check, Client, UpdateCheck};
use playbridge::sys::logging::{
    level_tag, line_depths, log_line, log_silent_reply, reset_log_depth, shift_depth, LogLevel, LogMode,
};
use playbridge::sys::maa::client_type;
use playbridge::sys::notification::{check_notification_registry, toast_record, Notification};

#[test]
fn client_names_round_trip() {
    for c in [Client::KR, Client::JP, Client::EN, Client::Empty] {
        assert_eq!(Client::from_str(c.as_str()), c);
    }
    assert_eq!(Client::from_str("Official"), Client::Empty);
    assert_eq!(Client::from_maa_client_type("YoStarKR"), Some(Client::KR));
    assert_eq!(Client::from_maa_client_type("Bilibili"), None);
    assert_eq!(Client::KR.package(), "com.YoStarKR.Arknights");
    assert_eq!(Client::JP.title(), "アークナイツ");
    assert_eq!(Client::default(), Client::Empty);
    let all = [Client::KR, Client::JP, Client::EN, Client::Empty];
    for a in all {
        for b in all {
            assert_eq!(a == b, a.package() == b.package());
        }
    }
}

#[test]
fn resolve_client_by_package_prefix() {
    assert_eq!(resolve_client("com.YoStarJP.Arknights.extra"), Some(Client::JP));
    assert_eq!(resolve_client("com.YoStarEN.Arknight"), None);
}

#[test]
fn intent_decisions() {
    assert!(matches!(apply_intent_package("com.YoStarEN.Arknights/a.B", Client::EN),
        IntentDecision::Matches { package } if package == "com.YoStarEN.Arknights"));
    assert!(matches!(apply_intent_package("com.YoStarEN.Arknights", Client::Empty), IntentDecision::Adopt(Client::EN)));
    let m = apply_intent_package("com.YoStarJP.Arknights/x", Client::KR);
    assert!(matches!(m, IntentDecision::Mismatch { requested: Client::JP, configured: Client::KR }));
    assert!(!m.launches());
    assert!(matches!(apply_intent_package("org.other/x", Client::KR),
        IntentDecision::Unsupported { package } if package == "org.other"));
}

#[test]
fn installed_client_only_when_unique() {
    assert_eq!(adopt_installed_client(Client::EN, false, true, true), Some(Client::JP));
    assert_eq!(adopt_installed_client(Client::Empty, true, true, false), None);
    assert_eq!(adopt_installed_client(Client::Empty, false, false, false), None);
    assert_eq!(adopt_installed_client(Client::KR, true, false, false), None);
}

#[test]
fn launcher_polls() {
    let mut s = LaunchState::new();
    assert_eq!(s.step(0, true, false, false), LaunchStep::Launch);
    assert_eq!(s.attempts, 1);
    assert_eq!(s.step(5_000, true, false, false), LaunchStep::Wait);
    assert_eq!(s.step(10_000, true, false, false), LaunchStep::Launch);
    assert_eq!(s.step(11_000, true, false, true), LaunchStep::Wait);
    // The loading screen vanished without the game: the cooldown is cleared.
    assert_eq!(s.step(12_000, true, false, false), LaunchStep::Launch);
    assert_eq!(s.attempts, 3);
    assert_eq!(s.step(13_000, true, true, false), LaunchStep::Stop(LaunchStop::Ready));
    assert_eq!(s.step(13_000, false, true, false), LaunchStep::Stop(LaunchStop::MaaGone));
    assert_eq!(s.step(180_000, true, false, false), LaunchStep::Stop(LaunchStop::GaveUp));
}

#[test]
fn update_checks() {
    assert_eq!(update_check("development", 0, 1_000_000), UpdateCheck::SkipDevelopment);
    assert_eq!(update_check("v1.0", 1_000_000, 1_000_100), UpdateCheck::SkipCooldown);
    assert_eq!(update_check("v1.0", 1_000_000, 1_086_400), UpdateCheck::Run);
    assert_eq!(update_check("v1.0", 2_000_000, 1_000_000), UpdateCheck::Run);
    assert!(update_available("v1.0", "v1.1"));
    assert!(!update_available("v1.1", "v1.1"));
    assert_eq!(toggled(0), 1);
    assert_eq!(toggled(7), 0);
}

#[test]
fn release_tag_from_json() {
    assert_eq!(latest_tag(r#"{"tag_name":"v2.3.0","name":"x"}"#), "v2.3.0");
    assert_eq!(latest_tag(r#"{"name":"x"}"#), "");
    assert_eq!(latest_tag(r#"{"tag_name":5}"#), "");
    assert_eq!(latest_tag("not json"), "");
}

#[test]
fn notification_levels_tags_cooldowns() {
    let n = Notification::WindowParked;
    assert_eq!(n.level(), LogLevel::Info);
    assert_eq!(n.tag(), "WindowParked");
    assert_eq!(n.cooldown(), Some(2));
    assert_eq!(n.title(Client::KR), "ℹ️ 정보");
    assert_eq!(n.title(Client::EN), "ℹ️ Info");
    let u = Notification::UpdateAvailable(String::from("v9"));
    assert_eq!(u.level(), LogLevel::Update);
    assert_eq!(u.tag(), "UpdateAvailable");
    assert_eq!(u.cooldown(), None);
    assert_eq!(Notification::Panic(String::new()).level(), LogLevel::Error);
    assert_eq!(Notification::GameNotInstalled(String::new()).cooldown(), Some(10));
}

#[test]
fn notification_bodies() {
    let n = Notification::InternalResolution { w: 1920, h: 1080 };
    assert_eq!(n.body(Client::EN), "The current resolution can cause issues\nCurrent 1920×1080 / Recommended 1280×720");
    assert_eq!(n.body(Client::KR), "현재 해상도는 문제가 생길 수 있어요\n현재 1920×1080 / 권장 1280×720");
    let m = Notification::ClientMismatch(String::from("a"), String::from("b"));
    assert_eq!(
        m.body(Client::JP),
        "The requested client does not match the installed version\nPlease check 'Client' in MAA 'Game Settings'\nRequested: a\nInstalled: b"
    );
    let r = Notification::WindowWrongRatio(String::from("10.00"));
    assert_eq!(r.body(Client::EN), "The current aspect ratio is not supported\nCurrent 16:10.00 / Recommended 16:9");
    assert_eq!(Notification::UpdateAvailable(String::from("v2")).body(Client::EN), "A new version is available (v2)");
}

#[test]
fn notification_cooldown_window() {
    assert!(check_notification_registry(0, 5, 2));
    assert!(!check_notification_registry(100, 105, 10));
    assert!(check_notification_registry(100, 110, 10));
}

#[test]
fn log_lines() {
    assert_eq!(level_tag(LogLevel::Update), "INF");
    assert_eq!(level_tag(LogLevel::Warn), "WRN");
    assert_eq!(
        log_line("2024-01-01 00:00:00.000", LogLevel::Error, LogMode::Start, 2, "a\tb\nc"),
        "[2024-01-01 00:00:00.000][ERR]││┌ a b c"
    );
    assert_eq!(log_line("t", LogLevel::Info, LogMode::Plain, 0, "m"), "[t][INF] m");
    assert_eq!(log_line("t", LogLevel::Info, LogMode::End, 1, "m"), "[t][INF]│└ m");
    assert_eq!(log_silent_reply(false), Some("→"));
    assert_eq!(log_silent_reply(true), None);
}

#[test]
fn log_depth_blocks_balance() {
    assert_eq!(shift_depth(0, -1), 0);
    assert_eq!(shift_depth(3, 1), 4);
    assert_eq!(reset_log_depth(), 0);
    let (open_at, inside) = line_depths(LogMode::Start, 2);
    let (plain_at, _) = line_depths(LogMode::Plain, inside);
    let (close_at, after) = line_depths(LogMode::End, inside);
    assert_eq!((open_at, inside, plain_at, close_at, after), (2, 3, 3, 2, 2));
    assert_eq!(line_depths(LogMode::End, 0), (0, 0));
}

#[test]
fn maa_client_type_from_current_configuration() {
    let gui = r#"{
        "Current": "Alt",
        "Configurations": {
            "Default": {"Gui": {"RuntimeSettings": {"ClientType": "YoStarEN"}}},
            "Alt": {"Gui": {"RuntimeSettings": {"ClientType": "YoStarJP"}}}
        }
    }"#;
    assert_eq!(client_type(gui), Some(String::from("YoStarJP")));
    let missing = r#"{"Current": "Missing", "Configurations": {}}"#;
    assert_eq!(client_type(missing), None);
    let unset = r#"{"Configurations": {"Default": {"Gui": {"RuntimeSettings": {"ClientType": "YoStarEN"}}}}}"#;
    assert_eq!(client_type(unset), None);
    let not_a_string = r#"{"Current": "A", "Configurations": {"A": {"Gui": {"RuntimeSettings": {"ClientType": 3}}}}}"#;
    assert_eq!(client_type(not_a_string), None);
    assert_eq!(client_type("not json"), None);
}

#[test]
fn notification_tag_is_debug_text_up_to_a_bracket() {
    assert_eq!(Notification::Panic(String::from("x")).tag(), "Panic");
    assert_eq!(Notification::WindowWrongRatio(String::from("1.50")).tag(), "WindowWrongRatio");
    assert_eq!(Notification::AdbInputUnsupported.tag(), "AdbInputUnsupported");
    assert_eq!(Notification::InternalResolution { w: 1, h: 2 }.tag(), "InternalResolution ");
}

#[test]
fn toast_without_cooldown_always_shows() {
    assert_eq!(toast_record(None, 0, 7), Some(7));
    assert_eq!(toast_record(None, 4_000_000_000, 7), Some(7));
    assert_eq!(toast_record(Some(10), 100, 105), None);
    assert_eq!(toast_record(Some(10), 100, 110), Some(110));
    assert_eq!(toast_record(Some(2), 0, (1u64 << 32) + 3), Some(3));
}

#[test]
fn block_lines_drawn_at_the_outer_depth() {
    let (open_at, inside) = line_depths(LogMode::Start, 2);
    let (close_at, after) = line_depths(LogMode::End, inside);
    assert_eq!(log_line("t", LogLevel::Info, LogMode::Start, open_at, "a\nb\tc"), "[t][INF]││┌ a b c");
    assert_eq!(log_line("t", LogLevel::Warn, LogMode::End, close_at, "done"), "[t][WRN]││└ done");
    assert_eq!(after, 2);
}
