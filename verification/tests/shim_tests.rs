use playbridge::shim::{apply_maa_client, execute_command, parse_command, screencap_nc_fallback, Action, Command};
use playbridge::sys::config::Client;
use playbridge::sys::logging::LogLevel;
use playbridge::sys::notification::Notification;

fn args(line: &str) -> Vec<String> {
    line.split_whitespace().map(String::from).collect()
}

fn replies(actions: &[Action]) -> Vec<String> {
    actions
        .iter()
        .filter_map(|a| match a {
            Action::Reply(t) => Some(t.clone()),
            _ => None,
        })
        .collect()
}

#[test]
fn empty_command_line() {
    assert!(matches!(parse_command(&[]), Command::Empty));
}

#[test]
fn connect_and_disconnect_both_connect() {
    assert!(matches!(parse_command(&args("connect 127.0.0.1:6000")), Command::Connect));
    assert!(matches!(parse_command(&args("disconnect 127.0.0.1:6000")), Command::Connect));
}

#[test]
fn start_activity_reads_word_six() {
    match parse_command(&args("-s 127.0.0.1:6000 shell am start -n com.YoStarEN.Arknights/com.u8.sdk.U8UnityContext")) {
        Command::StartActivity { intent } => assert_eq!(intent, "com.YoStarEN.Arknights/com.u8.sdk.U8UnityContext"),
        _ => panic!("not a start"),
    }
}

#[test]
fn echo_joins_from_word_four() {
    match parse_command(&args("-s 127.0.0.1:6000 shell echo hello world")) {
        Command::Echo { text } => assert_eq!(text, "hello world"),
        _ => panic!("not an echo"),
    }
}

#[test]
fn screencap_nc_reads_port() {
    match parse_command(&args("-s 127.0.0.1:6000 exec-out screencap | nc -w 3 10.0.2.2 12345")) {
        Command::ScreencapNc { port } => assert_eq!(port, 12345),
        _ => panic!("not a screencap"),
    }
    match parse_command(&args("-s 127.0.0.1:6000 exec-out screencap | nc -w 3 10.0.2.2 notaport")) {
        Command::ScreencapNc { port } => assert_eq!(port, 0),
        _ => panic!("not a screencap"),
    }
}

#[test]
fn keyevent_and_text() {
    match parse_command(&args("-s 127.0.0.1:6000 shell input keyevent 111")) {
        Command::KeyEvent { keycode } => assert_eq!(keycode, 111),
        _ => panic!("not a keyevent"),
    }
    match parse_command(&args("-s 127.0.0.1:6000 shell input text hello there")) {
        Command::Text { text } => assert_eq!(text, "hello there"),
        _ => panic!("not text"),
    }
    // HOME is a force stop, which the earlier rule catches.
    assert!(matches!(parse_command(&args("-s 127.0.0.1:6000 shell input keyevent HOME")), Command::ForceStop));
}

#[test]
fn info_commands() {
    assert!(matches!(parse_command(&args("-s x shell dumpsys window displays")), Command::WindowDisplays));
    assert!(matches!(parse_command(&args("-s x shell wm size")), Command::WindowDisplays));
    assert!(matches!(parse_command(&args("devices")), Command::Devices));
    assert!(matches!(parse_command(&args("-s x shell getprop ro.build.version.release")), Command::GetPropRelease));
    assert!(matches!(parse_command(&args("-s x shell settings get secure android_id")), Command::GetUuid));
    assert!(matches!(parse_command(&args("-s x shell dumpsys SurfaceFlinger --latency")), Command::Fps));
    assert!(matches!(parse_command(&args("-s x shell getprop ro.product.cpu.abilist")), Command::GetPropAbilist));
    assert!(matches!(
        parse_command(&args("-s x shell dumpsys input | grep SurfaceOrientation")),
        Command::DumpsysInputOrientation
    ));
    assert!(matches!(parse_command(&args("-s x shell input tap 1 2")), Command::AdbInputUnsupported));
    assert!(matches!(parse_command(&args("start-server")), Command::Ignore));
    assert!(matches!(parse_command(&args("-s x push minitouch /data/local/tmp/")), Command::Ignore));
    assert!(matches!(parse_command(&args("--touch-overlay")), Command::ToggleTouchOverlay));
    match parse_command(&args("frobnicate now")) {
        Command::Unknown(c) => assert_eq!(c, "frobnicate now"),
        _ => panic!("not unknown"),
    }
}

#[test]
fn execute_fixed_replies() {
    assert_eq!(replies(&execute_command(Command::Connect, true, Client::EN)), vec!["connected to Google Play Games"]);
    assert_eq!(replies(&execute_command(Command::WindowDisplays, true, Client::EN)), vec!["1280 720"]);
    assert_eq!(replies(&execute_command(Command::GetPropRelease, true, Client::EN)), vec!["14"]);
    assert_eq!(replies(&execute_command(Command::GetUuid, true, Client::EN)), vec!["0000000000000000"]);
    assert_eq!(replies(&execute_command(Command::Fps, true, Client::EN)), vec!["16666666"]);
    assert_eq!(
        replies(&execute_command(Command::GetPropAbilist, true, Client::EN)),
        vec!["x86_64,x86,arm64-v8a,armeabi-v7a,armeabi"]
    );
    assert_eq!(replies(&execute_command(Command::DumpsysInputOrientation, true, Client::EN)), vec!["0"]);
    assert!(execute_command(Command::Ignore, true, Client::EN).is_empty());
}

#[test]
fn execute_devices() {
    let a = execute_command(Command::Devices, false, Client::Empty);
    assert_eq!(replies(&a), vec!["List of devices attached", "127.0.0.1:6000\tdevice"]);
    assert!(matches!(a[2], Action::CheckVersion));
    assert!(matches!(a[3], Action::CheckForUpdate));
    assert!(matches!(a[4], Action::ApplyMaaClient));
}

#[test]
fn execute_empty_screenshot_or_notice() {
    let a = execute_command(Command::Empty, true, Client::EN);
    assert!(matches!(a[0], Action::Screenshot));
    let b = execute_command(Command::Empty, false, Client::EN);
    assert!(matches!(b[0], Action::Notify(Notification::ScreenshotFailed)));
}

#[test]
fn execute_start_activity_adopts_client() {
    let intent = String::from("com.YoStarKR.Arknights/com.u8.sdk.U8UnityContext");
    let a = execute_command(Command::StartActivity { intent }, true, Client::Empty);
    assert!(matches!(a[0], Action::SetClient(Client::KR)));
    assert!(matches!(a[1], Action::EnsureLauncher));
    assert_eq!(
        replies(&a),
        vec![
            "Starting: Intent { cmp=com.YoStarKR.Arknights/com.u8.sdk.U8UnityContext }",
            "Warning: Activity not started, intent has been delivered to currently running top-most instance."
        ]
    );
}

#[test]
fn execute_start_activity_mismatch_launches_nothing() {
    let intent = String::from("com.YoStarKR.Arknights/x");
    let a = execute_command(Command::StartActivity { intent }, true, Client::EN);
    match &a[0] {
        Action::Log(LogLevel::Warn, m) => {
            assert_eq!(m, "Client: intent com.YoStarKR.Arknights contradicts configured com.YoStarEN.Arknights")
        }
        _ => panic!("expected a warning"),
    }
    assert!(matches!(&a[1], Action::Notify(Notification::ClientMismatch(r, c))
        if r == "com.YoStarKR.Arknights" && c == "com.YoStarEN.Arknights"));
    assert!(!a.iter().any(|x| matches!(x, Action::EnsureLauncher)));
}

#[test]
fn execute_start_activity_unsupported() {
    let a = execute_command(Command::StartActivity { intent: String::from("com.hypergryph.arknights/x") }, true, Client::Empty);
    assert!(matches!(&a[1], Action::Notify(Notification::UnsupportedClient(p)) if p == "com.hypergryph.arknights"));
}

#[test]
fn execute_window_actions_need_window() {
    assert!(matches!(execute_command(Command::KeyEvent { keycode: 111 }, true, Client::EN)[0], Action::KeyEvent(111)));
    assert!(matches!(&execute_command(Command::KeyEvent { keycode: 111 }, false, Client::EN)[0],
        Action::Log(LogLevel::Warn, m) if m == "KeyEvent: window not found"));
    let f = execute_command(Command::ForceStop, false, Client::EN);
    assert!(matches!(&f[0], Action::Log(LogLevel::Warn, m) if m == "ForceStop: window not found"));
    assert!(matches!(f[1], Action::Notify(Notification::GpgShutdown)));
    assert!(matches!(execute_command(Command::ForceStop, true, Client::EN)[0], Action::Terminate));
}

#[test]
fn execute_screencap_and_unknown() {
    assert!(matches!(execute_command(Command::ScreencapNc { port: 4321 }, true, Client::EN)[0], Action::ScreencapNc(4321)));
    assert!(matches!(&execute_command(Command::Unknown(String::from("x y")), true, Client::EN)[0],
        Action::Notify(Notification::UnknownCommand(c)) if c == "x y"));
}

#[test]
fn maa_client_from_config() {
    let a = apply_maa_client(Some(42), Some(String::from("YoStarJP")));
    assert!(matches!(a[0], Action::StoreMaaPid(42)));
    assert!(matches!(&a[1], Action::Log(LogLevel::Info, m) if m == "Client: YoStarJP from MAA config"));
    assert!(matches!(a[2], Action::SetClient(Client::JP)));
    assert!(matches!(a[3], Action::EnsureLauncher));
    let b = apply_maa_client(None, Some(String::from("Official")));
    assert!(matches!(&b[0], Action::Notify(Notification::UnsupportedClient(c)) if c == "Official"));
    assert_eq!(b.len(), 1);
    let c = apply_maa_client(None, None);
    assert!(matches!(c[1], Action::EnsureLauncher));
}

#[test]
fn screencap_fallback_sends_black_frame() {
    let a = screencap_nc_fallback(5555, false);
    assert!(matches!(a[0], Action::EnsureDaemon));
    assert!(matches!(a[2], Action::SendBlackFrameNc(5555)));
    let b = screencap_nc_fallback(5555, true);
    assert_eq!(b.len(), 1);
}
