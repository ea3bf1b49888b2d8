//! The one-shot side of the bridge: what MAA gets when it calls PlayBridge like `adb`.
//!
//! `parse_command` reads the ADB command line; `execute_command` decides what answering it
//! takes, as a list of actions for the caller to carry out.

use vstd::prelude::*;

use crate::daemon::launcher::{apply_intent_package, package_of_intent, spec_apply_intent_package, IntentDecision, IntentView};
use crate::sys::config::{spec_as_str, spec_from_str, spec_package, Client};
use crate::sys::logging::LogLevel;
use crate::sys::maa::opt_view;
use crate::sys::notification::{Notification, NotificationView};
use crate::text::{
    chars_of, contains, contains_str, join_from, join_words, parse_i32, parse_u16, spec_parse_i32, spec_parse_u16,
    string_views,
};

verus! {

/// An ADB command MAA sends, as PlayBridge understands it.
pub enum Command {
    // lifecycle and system
    Empty,
    Connect,
    StartActivity { intent: String },
    Echo { text: String },
    ForceStop,
    ToggleTouchOverlay,
    // info and state
    WindowDisplays,
    Devices,
    GetPropRelease,
    GetUuid,
    Fps,
    // screen capture
    ScreencapNc { port: u16 },
    // minitouch
    GetPropAbilist,
    DumpsysInputOrientation,
    // key and text input
    KeyEvent { keycode: i32 },
    Text { text: String },
    // raw ADB touch input, which is not supported
    AdbInputUnsupported,
    // fallback
    Ignore,
    Unknown(String),
}

pub enum CommandView {
    Empty,
    Connect,
    StartActivity { intent: Seq<char> },
    Echo { text: Seq<char> },
    ForceStop,
    ToggleTouchOverlay,
    WindowDisplays,
    Devices,
    GetPropRelease,
    GetUuid,
    Fps,
    ScreencapNc { port: u16 },
    GetPropAbilist,
    DumpsysInputOrientation,
    KeyEvent { keycode: i32 },
    Text { text: Seq<char> },
    AdbInputUnsupported,
    Ignore,
    Unknown(Seq<char>),
}

impl View for Command {
    type V = CommandView;

    open spec fn view(&self) -> CommandView {
        match self {
            Command::Empty => CommandView::Empty,
            Command::Connect => CommandView::Connect,
            Command::StartActivity { intent } => CommandView::StartActivity { intent: intent@ },
            Command::Echo { text } => CommandView::Echo { text: text@ },
            Command::ForceStop => CommandView::ForceStop,
            Command::ToggleTouchOverlay => CommandView::ToggleTouchOverlay,
            Command::WindowDisplays => CommandView::WindowDisplays,
            Command::Devices => CommandView::Devices,
            Command::GetPropRelease => CommandView::GetPropRelease,
            Command::GetUuid => CommandView::GetUuid,
            Command::Fps => CommandView::Fps,
            Command::ScreencapNc { port } => CommandView::ScreencapNc { port: *port },
            Command::GetPropAbilist => CommandView::GetPropAbilist,
            Command::DumpsysInputOrientation => CommandView::DumpsysInputOrientation,
            Command::KeyEvent { keycode } => CommandView::KeyEvent { keycode: *keycode },
            Command::Text { text } => CommandView::Text { text: text@ },
            Command::AdbInputUnsupported => CommandView::AdbInputUnsupported,
            Command::Ignore => CommandView::Ignore,
            Command::Unknown(c) => CommandView::Unknown(c@),
        }
    }
}

/// Which rule a joined command line falls under, first match winning. `disconnect` contains
/// `connect`, so the first rule answers it too.
pub open spec fn command_rule(c: Seq<char>) -> int {
    if contains(c, "connect"@) {
        1
    } else if contains(c, "am start -n"@) {
        2
    } else if contains(c, "shell echo"@) {
        3
    } else if contains(c, "am force-stop"@) || contains(c, "input keyevent HOME"@) {
        4
    } else if contains(c, "--touch-overlay"@) {
        5
    } else if contains(c, "dumpsys window displays"@) || contains(c, "wm size"@) {
        6
    } else if contains(c, "devices"@) {
        7
    } else if contains(c, "getprop ro.build.version.release"@) {
        8
    } else if contains(c, "settings get secure android_id"@) {
        9
    } else if contains(c, "dumpsys SurfaceFlinger"@) {
        10
    } else if contains(c, "exec-out screencap | nc -w 3 10.0.2.2"@) {
        11
    } else if contains(c, "ro.product.cpu.abilist"@) {
        12
    } else if contains(c, "dumpsys input"@) && contains(c, "SurfaceOrientation"@) {
        13
    } else if contains(c, "input tap"@) || contains(c, "input swipe"@) {
        14
    } else if contains(c, "input keyevent"@) {
        15
    } else if contains(c, "input text"@) {
        16
    } else if contains(c, "cat /proc/net/arp"@) || contains(c, "exec-out screencap -p"@) || contains(
        c,
        "exec-out screencap | gzip -1"@,
    ) || contains(c, "start-server"@) || contains(c, "kill-server"@) || (contains(c, "push"@) && contains(
        c,
        "/data/local/tmp/"@,
    )) || (contains(c, "chmod"@) && contains(c, "/data/local/tmp/"@)) {
        17
    } else {
        18
    }
}

/// The rules that read a word at a fixed position need the line to be that long: the intent is
/// word 6, the port word 9, the key code word 5, and the text starts at word 5.
pub open spec fn command_words_present(args: Seq<Seq<char>>) -> bool {
    args.len() == 0 || {
        let rule = command_rule(join_words(args));
        &&& rule == 2 ==> args.len() > 6
        &&& rule == 11 ==> args.len() > 9
        &&& rule == 15 ==> args.len() > 5
        &&& rule == 16 ==> args.len() >= 5
    }
}

pub open spec fn spec_parse_command(args: Seq<Seq<char>>) -> CommandView {
    if args.len() == 0 {
        CommandView::Empty
    } else {
        let c = join_words(args);
        let rule = command_rule(c);
        if rule == 1 {
            CommandView::Connect
        } else if rule == 2 {
            CommandView::StartActivity { intent: args[6] }
        } else if rule == 3 {
            CommandView::Echo {
                text: if args.len() >= 4 {
                    join_words(args.subrange(4, args.len() as int))
                } else {
                    Seq::empty()
                },
            }
        } else if rule == 4 {
            CommandView::ForceStop
        } else if rule == 5 {
            CommandView::ToggleTouchOverlay
        } else if rule == 6 {
            CommandView::WindowDisplays
        } else if rule == 7 {
            CommandView::Devices
        } else if rule == 8 {
            CommandView::GetPropRelease
        } else if rule == 9 {
            CommandView::GetUuid
        } else if rule == 10 {
            CommandView::Fps
        } else if rule == 11 {
            CommandView::ScreencapNc {
                port: match spec_parse_u16(args[9]) {
                    Some(p) => p,
                    None => 0,
                },
            }
        } else if rule == 12 {
            CommandView::GetPropAbilist
        } else if rule == 13 {
            CommandView::DumpsysInputOrientation
        } else if rule == 14 {
            CommandView::AdbInputUnsupported
        } else if rule == 15 {
            CommandView::KeyEvent {
                keycode: match spec_parse_i32(args[5]) {
                    Some(k) => k,
                    None => 0,
                },
            }
        } else if rule == 16 {
            CommandView::Text { text: join_words(args.subrange(5, args.len() as int)) }
        } else if rule == 17 {
            CommandView::Ignore
        } else {
            CommandView::Unknown(c)
        }
    }
}

fn command_rule_exec(c: &Vec<char>) -> (r: u8)
    ensures
        r as int == command_rule(c@),
{
    if contains_str(c, "connect") {
        1
    } else if contains_str(c, "am start -n") {
        2
    } else if contains_str(c, "shell echo") {
        3
    } else if contains_str(c, "am force-stop") || contains_str(c, "input keyevent HOME") {
        4
    } else if contains_str(c, "--touch-overlay") {
        5
    } else if contains_str(c, "dumpsys window displays") || contains_str(c, "wm size") {
        6
    } else if contains_str(c, "devices") {
        7
    } else if contains_str(c, "getprop ro.build.version.release") {
        8
    } else if contains_str(c, "settings get secure android_id") {
        9
    } else if contains_str(c, "dumpsys SurfaceFlinger") {
        10
    } else if contains_str(c, "exec-out screencap | nc -w 3 10.0.2.2") {
        11
    } else if contains_str(c, "ro.product.cpu.abilist") {
        12
    } else if contains_str(c, "dumpsys input") && contains_str(c, "SurfaceOrientation") {
        13
    } else if contains_str(c, "input tap") || contains_str(c, "input swipe") {
        14
    } else if contains_str(c, "input keyevent") {
        15
    } else if contains_str(c, "input text") {
        16
    } else if contains_str(c, "cat /proc/net/arp") || contains_str(c, "exec-out screencap -p") || contains_str(
        c,
        "exec-out screencap | gzip -1",
    ) || contains_str(c, "start-server") || contains_str(c, "kill-server") || (contains_str(c, "push")
        && contains_str(c, "/data/local/tmp/")) || (contains_str(c, "chmod") && contains_str(
        c,
        "/data/local/tmp/",
    )) {
        17
    } else {
        18
    }
}

/// Whether `parse_command` may read `args`: a rule that reads a word at a fixed position finds
/// it there. Where this fails, reading the line is an out-of-bounds index.
pub fn command_words_ok(args: &[String]) -> (r: bool)
    ensures
        r == command_words_present(string_views(args@)),
{
    let ghost ws = string_views(args@);
    if args.len() == 0 {
        return true;
    }
    let full_command = join_from(args, 0);
    proof {
        assert(ws.subrange(0, ws.len() as int) =~= ws);
    }
    let chars = chars_of(full_command.as_str());
    let rule = command_rule_exec(&chars);
    (rule != 2 || args.len() > 6) && (rule != 11 || args.len() > 9) && (rule != 15 || args.len() > 5) && (rule
        != 16 || args.len() >= 5)
}

/// Reads an ADB command line, already split into words.
pub fn parse_command(args: &[String]) -> (r: Command)
    requires
        command_words_present(string_views(args@)),
    ensures
        r@ == spec_parse_command(string_views(args@)),
{
    let ghost ws = string_views(args@);
    if args.len() == 0 {
        return Command::Empty;
    }
    let full_command = join_from(args, 0);
    proof {
        assert(ws.subrange(0, ws.len() as int) =~= ws);
    }
    let chars = chars_of(full_command.as_str());
    let rule = command_rule_exec(&chars);
    proof {
        if args@.len() > 6 {
            assert(ws[6] == args@[6]@);
        }
        if args@.len() > 9 {
            assert(ws[9] == args@[9]@);
        }
        if args@.len() > 5 {
            assert(ws[5] == args@[5]@);
        }
    }
    match rule {
        1 => Command::Connect,
        2 => Command::StartActivity { intent: args[6].clone() },
        3 => Command::Echo {
            text: if args.len() >= 4 {
                join_from(args, 4)
            } else {
                String::new()
            },
        },
        4 => Command::ForceStop,
        5 => Command::ToggleTouchOverlay,
        6 => Command::WindowDisplays,
        7 => Command::Devices,
        8 => Command::GetPropRelease,
        9 => Command::GetUuid,
        10 => Command::Fps,
        11 => Command::ScreencapNc {
            port: match parse_u16(args[9].as_str()) {
                Some(p) => p,
                None => 0,
            },
        },
        12 => Command::GetPropAbilist,
        13 => Command::DumpsysInputOrientation,
        14 => Command::AdbInputUnsupported,
        15 => Command::KeyEvent {
            keycode: match parse_i32(args[5].as_str()) {
                Some(k) => k,
                None => 0,
            },
        },
        16 => Command::Text { text: join_from(args, 5) },
        17 => Command::Ignore,
        _ => Command::Unknown(full_command),
    }
}

/// One step of answering a command, for the caller to carry out in order.
pub enum Action {
    /// print a line back to MAA
    Reply(String),
    Log(LogLevel, String),
    Notify(Notification),
    /// save a desktop screenshot of the game window
    Screenshot,
    /// print and record the running version
    CheckVersion,
    CheckForUpdate,
    /// store the client
    SetClient(Client),
    /// start the launcher unless one is at work
    EnsureLauncher,
    /// read MAA's process id and configured client, then carry out `apply_maa_client`
    ApplyMaaClient,
    /// publish MAA's process id for the daemons
    StoreMaaPid(u32),
    /// ask the capture daemon to deliver a frame to this port, then carry out
    /// `screencap_nc_fallback` with the outcome
    ScreencapNc(u16),
    /// start the capture daemon
    EnsureDaemon,
    /// send an all-black frame to this port
    SendBlackFrameNc(u16),
    /// close the game window
    Terminate,
    /// post this Android key code to the game window
    KeyEvent(i32),
    /// type this text into the game window
    InputText(String),
    ToggleTouchOverlay,
}

pub enum ActionView {
    Reply(Seq<char>),
    Log(LogLevel, Seq<char>),
    Notify(NotificationView),
    Screenshot,
    CheckVersion,
    CheckForUpdate,
    SetClient(Client),
    EnsureLauncher,
    ApplyMaaClient,
    StoreMaaPid(u32),
    ScreencapNc(u16),
    EnsureDaemon,
    SendBlackFrameNc(u16),
    Terminate,
    KeyEvent(i32),
    InputText(Seq<char>),
    ToggleTouchOverlay,
}

impl View for Action {
    type V = ActionView;

    open spec fn view(&self) -> ActionView {
        match self {
            Action::Reply(t) => ActionView::Reply(t@),
            Action::Log(l, m) => ActionView::Log(*l, m@),
            Action::Notify(n) => ActionView::Notify(n@),
            Action::Screenshot => ActionView::Screenshot,
            Action::CheckVersion => ActionView::CheckVersion,
            Action::CheckForUpdate => ActionView::CheckForUpdate,
            Action::SetClient(c) => ActionView::SetClient(*c),
            Action::EnsureLauncher => ActionView::EnsureLauncher,
            Action::ApplyMaaClient => ActionView::ApplyMaaClient,
            Action::StoreMaaPid(p) => ActionView::StoreMaaPid(*p),
            Action::ScreencapNc(p) => ActionView::ScreencapNc(*p),
            Action::EnsureDaemon => ActionView::EnsureDaemon,
            Action::SendBlackFrameNc(p) => ActionView::SendBlackFrameNc(*p),
            Action::Terminate => ActionView::Terminate,
            Action::KeyEvent(k) => ActionView::KeyEvent(*k),
            Action::InputText(t) => ActionView::InputText(t@),
            Action::ToggleTouchOverlay => ActionView::ToggleTouchOverlay,
        }
    }
}

pub open spec fn actions_view(v: Seq<Action>) -> Seq<ActionView> {
    v.map_values(|a: Action| a@)
}

/// What the intent decision of `am start` takes.
pub open spec fn intent_actions(d: IntentView) -> Seq<ActionView> {
    match d {
        IntentView::Matches { package } => seq![
            ActionView::Log(LogLevel::Info, "Client: intent matches "@ + package),
            ActionView::EnsureLauncher,
        ],
        IntentView::Unsupported { package } => seq![
            ActionView::Log(LogLevel::Warn, "Client: unsupported package "@ + package),
            ActionView::Notify(NotificationView::UnsupportedClient(package)),
        ],
        IntentView::Mismatch { requested, configured } => seq![
            ActionView::Log(
                LogLevel::Warn,
                "Client: intent "@ + spec_package(requested) + " contradicts configured "@ + spec_package(configured),
            ),
            ActionView::Notify(NotificationView::ClientMismatch(spec_package(requested), spec_package(configured))),
        ],
        IntentView::Adopt(c) => seq![ActionView::SetClient(c), ActionView::EnsureLauncher],
    }
}

pub open spec fn window_or_warn(window_found: bool, a: ActionView, warning: Seq<char>) -> ActionView {
    if window_found {
        a
    } else {
        ActionView::Log(LogLevel::Warn, warning)
    }
}

/// What answering a command takes. `window_found` tells whether the game window is up;
/// `current` is the client stored so far.
pub open spec fn spec_execute_command(cmd: CommandView, window_found: bool, current: Client) -> Seq<ActionView> {
    match cmd {
        CommandView::Empty => seq![
            if window_found { ActionView::Screenshot } else { ActionView::Notify(NotificationView::ScreenshotFailed) },
            ActionView::CheckForUpdate,
        ],
        CommandView::Connect => seq![ActionView::Reply("connected to Google Play Games"@)],
        CommandView::StartActivity { intent } => intent_actions(spec_apply_intent_package(intent, current)) + seq![
            ActionView::Reply("Starting: Intent { cmp="@ + intent + " }"@),
            ActionView::Reply(
                "Warning: Activity not started, intent has been delivered to currently running top-most instance."@,
            ),
        ],
        CommandView::Echo { text } => seq![ActionView::Reply(text)],
        CommandView::ForceStop => seq![
            window_or_warn(window_found, ActionView::Terminate, "ForceStop: window not found"@),
            ActionView::Notify(NotificationView::GpgShutdown),
        ],
        CommandView::ToggleTouchOverlay => seq![ActionView::ToggleTouchOverlay],
        CommandView::WindowDisplays => seq![ActionView::Reply("1280 720"@)],
        CommandView::Devices => seq![
            ActionView::Reply("List of devices attached"@),
            ActionView::Reply("127.0.0.1:6000\tdevice"@),
            ActionView::CheckVersion,
            ActionView::CheckForUpdate,
            ActionView::ApplyMaaClient,
        ],
        CommandView::GetPropRelease => seq![ActionView::Reply("14"@)],
        CommandView::GetUuid => seq![ActionView::Reply("0000000000000000"@)],
        CommandView::Fps => seq![ActionView::Reply("16666666"@)],
        CommandView::ScreencapNc { port } => seq![ActionView::ScreencapNc(port)],
        CommandView::GetPropAbilist => seq![ActionView::Reply("x86_64,x86,arm64-v8a,armeabi-v7a,armeabi"@)],
        CommandView::DumpsysInputOrientation => seq![ActionView::Reply("0"@)],
        CommandView::KeyEvent { keycode } => seq![
            window_or_warn(window_found, ActionView::KeyEvent(keycode), "KeyEvent: window not found"@),
        ],
        CommandView::Text { text } => seq![
            window_or_warn(window_found, ActionView::InputText(text), "Text: window not found"@),
        ],
        CommandView::AdbInputUnsupported => seq![ActionView::Notify(NotificationView::AdbInputUnsupported)],
        CommandView::Ignore => Seq::empty(),
        CommandView::Unknown(c) => seq![ActionView::Notify(NotificationView::UnknownCommand(c))],
    }
}

fn reply(text: &str) -> (r: Action)
    ensures
        r@ == ActionView::Reply(text@),
{
    Action::Reply(String::from_str(text))
}

fn concat(a: &str, b: &str) -> (r: String)
    ensures
        r@ == a@ + b@,
{
    let mut s = String::from_str(a);
    s.append(b);
    s
}

/// Decides what answering `command` takes. `window_found` tells whether the game window is up;
/// `current` is the client stored so far.
pub fn execute_command(command: Command, window_found: bool, current: Client) -> (r: Vec<Action>)
    ensures
        actions_view(r@) == spec_execute_command(command@, window_found, current),
{
    let mut out: Vec<Action> = Vec::new();
    match command {
        Command::Empty => {
            out.push(if window_found { Action::Screenshot } else { Action::Notify(Notification::ScreenshotFailed) });
            out.push(Action::CheckForUpdate);
        },
        Command::Connect => out.push(reply("connected to Google Play Games")),
        Command::StartActivity { intent } => {
            match apply_intent_package(intent.as_str(), current) {
                IntentDecision::Matches { package } => {
                    out.push(Action::Log(LogLevel::Info, concat("Client: intent matches ", package.as_str())));
                    out.push(Action::EnsureLauncher);
                },
                IntentDecision::Unsupported { package } => {
                    out.push(Action::Log(LogLevel::Warn, concat("Client: unsupported package ", package.as_str())));
                    out.push(Action::Notify(Notification::UnsupportedClient(package)));
                },
                IntentDecision::Mismatch { requested, configured } => {
                    let mut m = concat("Client: intent ", requested.package());
                    m.append(" contradicts configured ");
                    m.append(configured.package());
                    out.push(Action::Log(LogLevel::Warn, m));
                    out.push(
                        Action::Notify(
                            Notification::ClientMismatch(
                                String::from_str(requested.package()),
                                String::from_str(configured.package()),
                            ),
                        ),
                    );
                },
                IntentDecision::Adopt(c) => {
                    out.push(Action::SetClient(c));
                    out.push(Action::EnsureLauncher);
                },
            }
            let mut started = concat("Starting: Intent { cmp=", intent.as_str());
            started.append(" }");
            out.push(Action::Reply(started));
            out.push(
                reply(
                    "Warning: Activity not started, intent has been delivered to currently running top-most instance.",
                ),
            );
        },
        Command::Echo { text } => out.push(Action::Reply(text)),
        Command::ForceStop => {
            out.push(
                if window_found {
                    Action::Terminate
                } else {
                    Action::Log(LogLevel::Warn, String::from_str("ForceStop: window not found"))
                },
            );
            out.push(Action::Notify(Notification::GpgShutdown));
        },
        Command::ToggleTouchOverlay => out.push(Action::ToggleTouchOverlay),
        Command::WindowDisplays => out.push(reply("1280 720")),
        Command::Devices => {
            out.push(reply("List of devices attached"));
            out.push(reply("127.0.0.1:6000\tdevice"));
            out.push(Action::CheckVersion);
            out.push(Action::CheckForUpdate);
            out.push(Action::ApplyMaaClient);
        },
        Command::GetPropRelease => out.push(reply("14")),
        Command::GetUuid => out.push(reply("0000000000000000")),
        Command::Fps => out.push(reply("16666666")),
        Command::ScreencapNc { port } => out.push(Action::ScreencapNc(port)),
        Command::GetPropAbilist => out.push(reply("x86_64,x86,arm64-v8a,armeabi-v7a,armeabi")),
        Command::DumpsysInputOrientation => out.push(reply("0")),
        Command::KeyEvent { keycode } => out.push(
            if window_found {
                Action::KeyEvent(keycode)
            } else {
                Action::Log(LogLevel::Warn, String::from_str("KeyEvent: window not found"))
            },
        ),
        Command::Text { text } => out.push(
            if window_found {
                Action::InputText(text)
            } else {
                Action::Log(LogLevel::Warn, String::from_str("Text: window not found"))
            },
        ),
        Command::AdbInputUnsupported => out.push(Action::Notify(Notification::AdbInputUnsupported)),
        Command::Ignore => {},
        Command::Unknown(cmd) => out.push(Action::Notify(Notification::UnknownCommand(cmd))),
    }
    assert(actions_view(out@) =~= spec_execute_command(command@, window_found, current));
    out
}

pub open spec fn spec_apply_maa_client(pid: Option<u32>, client_type: Option<Seq<char>>) -> Seq<ActionView> {
    let store = match pid {
        Some(p) => seq![ActionView::StoreMaaPid(p)],
        None => Seq::empty(),
    };
    store + match client_type {
        None => seq![
            ActionView::Log(LogLevel::Warn, "Client: MAA config unreadable, falling back to window title"@),
            ActionView::EnsureLauncher,
        ],
        Some(ct) => if spec_from_str(ct) == Client::Empty {
            seq![ActionView::Notify(NotificationView::UnsupportedClient(ct))]
        } else {
            seq![
                ActionView::Log(LogLevel::Info, "Client: "@ + spec_as_str(spec_from_str(ct)) + " from MAA config"@),
                ActionView::SetClient(spec_from_str(ct)),
                ActionView::EnsureLauncher,
            ]
        },
    }
}

/// Only the process answering `devices` has MAA as its parent, so nowhere else can read the
/// client MAA is set to. `pid` is MAA's process id and `client_type` its configured client, each
/// if it could be read. A client with no Google Play Games package launches nothing; an
/// unreadable configuration leaves the client to the window title.
pub fn apply_maa_client(pid: Option<u32>, client_type: Option<String>) -> (r: Vec<Action>)
    ensures
        actions_view(r@) == spec_apply_maa_client(pid, opt_view(client_type)),
{
    let mut out: Vec<Action> = Vec::new();
    if let Some(p) = pid {
        out.push(Action::StoreMaaPid(p));
    }
    match client_type {
        None => {
            out.push(
                Action::Log(
                    LogLevel::Warn,
                    String::from_str("Client: MAA config unreadable, falling back to window title"),
                ),
            );
            out.push(Action::EnsureLauncher);
        },
        Some(ct) => match Client::from_maa_client_type(ct.as_str()) {
            None => out.push(Action::Notify(Notification::UnsupportedClient(ct))),
            Some(client) => {
                let mut m = concat("Client: ", client.as_str());
                m.append(" from MAA config");
                out.push(Action::Log(LogLevel::Info, m));
                out.push(Action::SetClient(client));
                out.push(Action::EnsureLauncher);
            },
        },
    }
    assert(actions_view(out@) =~= spec_apply_maa_client(pid, opt_view(client_type)));
    out
}

pub open spec fn spec_screencap_nc_fallback(port: u16, delivered: bool) -> Seq<ActionView> {
    if delivered {
        seq![ActionView::Log(LogLevel::Info, "RawByNc: delivered via WGC daemon"@)]
    } else {
        seq![
            ActionView::EnsureDaemon,
            ActionView::Log(LogLevel::Info, "RawByNc: daemon cold, spawned + sent black frame"@),
            ActionView::SendBlackFrameNc(port),
        ]
    }
}

/// After asking the capture daemon for a RawByNc frame: a daemon that is not warm yet is
/// spawned, and this one request is answered with a black frame; the next hits the warm daemon.
pub fn screencap_nc_fallback(port: u16, delivered: bool) -> (r: Vec<Action>)
    ensures
        actions_view(r@) == spec_screencap_nc_fallback(port, delivered),
{
    let mut out: Vec<Action> = Vec::new();
    if delivered {
        out.push(Action::Log(LogLevel::Info, String::from_str("RawByNc: delivered via WGC daemon")));
    } else {
        out.push(Action::EnsureDaemon);
        out.push(Action::Log(LogLevel::Info, String::from_str("RawByNc: daemon cold, spawned + sent black frame")));
        out.push(Action::SendBlackFrameNc(port));
    }
    assert(actions_view(out@) =~= spec_screencap_nc_fallback(port, delivered));
    out
}

/// The text by which a command line falls under the `k`th rule of the command table (1 to 17):
/// ADB's own commands and the shell commands MAA issues, in the order they are tried.
pub open spec fn rule_text_found(c: Seq<char>, k: int) -> bool {
    if k == 1 {
        contains(c, "connect"@)
    } else if k == 2 {
        contains(c, "am start -n"@)
    } else if k == 3 {
        contains(c, "shell echo"@)
    } else if k == 4 {
        contains(c, "am force-stop"@) || contains(c, "input keyevent HOME"@)
    } else if k == 5 {
        contains(c, "--touch-overlay"@)
    } else if k == 6 {
        contains(c, "dumpsys window displays"@) || contains(c, "wm size"@)
    } else if k == 7 {
        contains(c, "devices"@)
    } else if k == 8 {
        contains(c, "getprop ro.build.version.release"@)
    } else if k == 9 {
        contains(c, "settings get secure android_id"@)
    } else if k == 10 {
        contains(c, "dumpsys SurfaceFlinger"@)
    } else if k == 11 {
        contains(c, "exec-out screencap | nc -w 3 10.0.2.2"@)
    } else if k == 12 {
        contains(c, "ro.product.cpu.abilist"@)
    } else if k == 13 {
        contains(c, "dumpsys input"@) && contains(c, "SurfaceOrientation"@)
    } else if k == 14 {
        contains(c, "input tap"@) || contains(c, "input swipe"@)
    } else if k == 15 {
        contains(c, "input keyevent"@)
    } else if k == 16 {
        contains(c, "input text"@)
    } else if k == 17 {
        contains(c, "cat /proc/net/arp"@) || contains(c, "exec-out screencap -p"@) || contains(
            c,
            "exec-out screencap | gzip -1"@,
        ) || contains(c, "start-server"@) || contains(c, "kill-server"@) || (contains(c, "push"@)
            && contains(c, "/data/local/tmp/"@)) || (contains(c, "chmod"@) && contains(
            c,
            "/data/local/tmp/"@,
        ))
    } else {
        false
    }
}

/// None of the rules before the `k`th finds its text in `c`.
pub open spec fn no_rule_before(c: Seq<char>, k: int) -> bool
    decreases k,
{
    if k <= 1 {
        true
    } else {
        !rule_text_found(c, k - 1) && no_rule_before(c, k - 1)
    }
}

/// The first rule whose text a command line holds decides the command: each rule's command
/// comes out exactly when its text is there and no earlier rule's is, and a line that holds
/// none of them is an unknown command carrying the whole line.
pub proof fn lemma_parse_command_first_rule(args: Seq<Seq<char>>)
    requires
        args.len() > 0,
    ensures
        ({
            let c = join_words(args);
            let cmd = spec_parse_command(args);
            &&& rule_text_found(c, 1) ==> cmd == CommandView::Connect
            &&& no_rule_before(c, 2) && rule_text_found(c, 2) ==> cmd == (CommandView::StartActivity {
                intent: args[6],
            })
            &&& no_rule_before(c, 3) && rule_text_found(c, 3) ==> cmd is Echo
            &&& no_rule_before(c, 4) && rule_text_found(c, 4) ==> cmd == CommandView::ForceStop
            &&& no_rule_before(c, 5) && rule_text_found(c, 5) ==> cmd == CommandView::ToggleTouchOverlay
            &&& no_rule_before(c, 6) && rule_text_found(c, 6) ==> cmd == CommandView::WindowDisplays
            &&& no_rule_before(c, 7) && rule_text_found(c, 7) ==> cmd == CommandView::Devices
            &&& no_rule_before(c, 8) && rule_text_found(c, 8) ==> cmd == CommandView::GetPropRelease
            &&& no_rule_before(c, 9) && rule_text_found(c, 9) ==> cmd == CommandView::GetUuid
            &&& no_rule_before(c, 10) && rule_text_found(c, 10) ==> cmd == CommandView::Fps
            &&& no_rule_before(c, 11) && rule_text_found(c, 11) ==> cmd is ScreencapNc
            &&& no_rule_before(c, 12) && rule_text_found(c, 12) ==> cmd == CommandView::GetPropAbilist
            &&& no_rule_before(c, 13) && rule_text_found(c, 13) ==> cmd == CommandView::DumpsysInputOrientation
            &&& no_rule_before(c, 14) && rule_text_found(c, 14) ==> cmd == CommandView::AdbInputUnsupported
            &&& no_rule_before(c, 15) && rule_text_found(c, 15) ==> cmd is KeyEvent
            &&& no_rule_before(c, 16) && rule_text_found(c, 16) ==> cmd == (CommandView::Text {
                text: join_words(args.subrange(5, args.len() as int)),
            })
            &&& no_rule_before(c, 17) && rule_text_found(c, 17) ==> cmd == CommandView::Ignore
            &&& no_rule_before(c, 18) ==> cmd == CommandView::Unknown(c)
        }),
{
    reveal_with_fuel(no_rule_before, 18);
}

/// A force-stop (or a HOME key) the earlier rules do not claim stops the game.
pub proof fn lemma_force_stop_command(args: Seq<Seq<char>>)
    requires
        args.len() > 0,
        contains(join_words(args), "am force-stop"@) || contains(join_words(args), "input keyevent HOME"@),
        !contains(join_words(args), "connect"@),
        !contains(join_words(args), "am start -n"@),
        !contains(join_words(args), "shell echo"@),
    ensures
        spec_parse_command(args) == CommandView::ForceStop,
{
}

/// Answering `am start` launches the game exactly when the intent's decision does (it matches
/// the stored client, or names a client to adopt); an intent for the stored client's own
/// package always launches.
pub proof fn lemma_start_activity_launches(intent: Seq<char>, window_found: bool, current: Client)
    ensures
        spec_execute_command(CommandView::StartActivity { intent }, window_found, current).contains(
            ActionView::EnsureLauncher,
        ) <==> (spec_apply_intent_package(intent, current) is Matches || spec_apply_intent_package(
            intent,
            current,
        ) is Adopt),
        spec_package(current) == package_of_intent(intent) ==> spec_execute_command(
            CommandView::StartActivity { intent },
            window_found,
            current,
        ).contains(ActionView::EnsureLauncher),
{
    let d = spec_apply_intent_package(intent, current);
    let acts = spec_execute_command(CommandView::StartActivity { intent }, window_found, current);
    let tail = seq![
        ActionView::Reply("Starting: Intent { cmp="@ + intent + " }"@),
        ActionView::Reply(
            "Warning: Activity not started, intent has been delivered to currently running top-most instance."@,
        ),
    ];
    assert(acts == intent_actions(d) + tail);
    assert(intent_actions(d).len() == 2);
    if d is Matches || d is Adopt {
        assert(acts[1] == ActionView::EnsureLauncher);
    } else {
        assert forall|i: int| 0 <= i < acts.len() implies acts[i] != ActionView::EnsureLauncher by {
            if i < 2 {
                assert(acts[i] == intent_actions(d)[i]);
            } else {
                assert(acts[i] == tail[i - 2]);
            }
        }
    }
}

} // verus!
