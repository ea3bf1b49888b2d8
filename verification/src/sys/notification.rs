//! The toasts PlayBridge raises: their severity, the tag a toast is throttled by, and the throttle.

use vstd::prelude::*;

use crate::sys::config::Client;
use crate::sys::logging::LogLevel;
use crate::text::{decimal, push_decimal};

verus! {

/// Something worth telling the user about.
pub enum Notification {
    Screenshot,
    ScreenshotFailed,
    GpgShutdown,
    WindowParked,
    /// The render is not 16:9; the text is its height per 16 of width, as shown (two decimals).
    WindowWrongRatio(String),
    InternalResolution { w: u32, h: u32 },
    UnknownCommand(String),
    Panic(String),
    UpdateAvailable(String),
    UnsupportedClient(String),
    ClientMismatch(String, String),
    GameNotInstalled(String),
    AdbInputUnsupported,
    /// Input is held while the user drags or resizes the window.
    InputHeld,
}

pub enum NotificationView {
    Screenshot,
    ScreenshotFailed,
    GpgShutdown,
    WindowParked,
    WindowWrongRatio(Seq<char>),
    InternalResolution { w: u32, h: u32 },
    UnknownCommand(Seq<char>),
    Panic(Seq<char>),
    UpdateAvailable(Seq<char>),
    UnsupportedClient(Seq<char>),
    ClientMismatch(Seq<char>, Seq<char>),
    GameNotInstalled(Seq<char>),
    AdbInputUnsupported,
    InputHeld,
}

impl View for Notification {
    type V = NotificationView;

    open spec fn view(&self) -> NotificationView {
        match self {
            Notification::Screenshot => NotificationView::Screenshot,
            Notification::ScreenshotFailed => NotificationView::ScreenshotFailed,
            Notification::GpgShutdown => NotificationView::GpgShutdown,
            Notification::WindowParked => NotificationView::WindowParked,
            Notification::WindowWrongRatio(ratio) => NotificationView::WindowWrongRatio(ratio@),
            Notification::InternalResolution { w, h } => NotificationView::InternalResolution { w: *w, h: *h },
            Notification::UnknownCommand(c) => NotificationView::UnknownCommand(c@),
            Notification::Panic(m) => NotificationView::Panic(m@),
            Notification::UpdateAvailable(v) => NotificationView::UpdateAvailable(v@),
            Notification::UnsupportedClient(c) => NotificationView::UnsupportedClient(c@),
            Notification::ClientMismatch(a, b) => NotificationView::ClientMismatch(a@, b@),
            Notification::GameNotInstalled(p) => NotificationView::GameNotInstalled(p@),
            Notification::AdbInputUnsupported => NotificationView::AdbInputUnsupported,
            Notification::InputHeld => NotificationView::InputHeld,
        }
    }
}

pub open spec fn spec_level(n: &Notification) -> LogLevel {
    match n {
        Notification::Screenshot | Notification::GpgShutdown | Notification::WindowParked => LogLevel::Info,
        Notification::InternalResolution { .. } | Notification::UnsupportedClient(..)
        | Notification::ClientMismatch(..) | Notification::GameNotInstalled(..)
        | Notification::AdbInputUnsupported | Notification::InputHeld => LogLevel::Warn,
        Notification::ScreenshotFailed | Notification::WindowWrongRatio(..)
        | Notification::UnknownCommand(..) | Notification::Panic(..) => LogLevel::Error,
        Notification::UpdateAvailable(..) => LogLevel::Update,
    }
}

pub open spec fn spec_tag(n: &Notification) -> Seq<char> {
    match n {
        Notification::Screenshot => "Screenshot"@,
        Notification::ScreenshotFailed => "ScreenshotFailed"@,
        Notification::GpgShutdown => "GpgShutdown"@,
        Notification::WindowParked => "WindowParked"@,
        Notification::WindowWrongRatio(..) => "WindowWrongRatio"@,
        Notification::InternalResolution { .. } => "InternalResolution "@,
        Notification::UnknownCommand(..) => "UnknownCommand"@,
        Notification::Panic(..) => "Panic"@,
        Notification::UpdateAvailable(..) => "UpdateAvailable"@,
        Notification::UnsupportedClient(..) => "UnsupportedClient"@,
        Notification::ClientMismatch(..) => "ClientMismatch"@,
        Notification::GameNotInstalled(..) => "GameNotInstalled"@,
        Notification::AdbInputUnsupported => "AdbInputUnsupported"@,
        Notification::InputHeld => "InputHeld"@,
    }
}

pub open spec fn spec_cooldown(n: &Notification) -> Option<u64> {
    match n {
        Notification::WindowWrongRatio(..) | Notification::AdbInputUnsupported
        | Notification::UnsupportedClient(..) | Notification::ClientMismatch(..)
        | Notification::GameNotInstalled(..) => Some(10),
        Notification::WindowParked => Some(2),
        Notification::InputHeld => Some(10),
        _ => None,
    }
}

impl Notification {
    /// How severe the toast is; the title and the log level follow it.
    pub fn level(&self) -> (r: LogLevel)
        ensures
            r == spec_level(self),
    {
        match self {
            Notification::Screenshot | Notification::GpgShutdown | Notification::WindowParked => LogLevel::Info,
            Notification::InternalResolution { .. } | Notification::UnsupportedClient(..)
            | Notification::ClientMismatch(..) | Notification::GameNotInstalled(..)
            | Notification::AdbInputUnsupported | Notification::InputHeld => LogLevel::Warn,
            Notification::ScreenshotFailed | Notification::WindowWrongRatio(..)
            | Notification::UnknownCommand(..) | Notification::Panic(..) => LogLevel::Error,
            Notification::UpdateAvailable(..) => LogLevel::Update,
        }
    }

    /// The toast's tag: its debug text up to the first `(` or `{`, which is the variant's name,
    /// followed by a space for a variant with named fields. A newer toast with the same tag
    /// replaces the older one, and the cooldown is kept per tag.
    pub fn tag(&self) -> (r: &'static str)
        ensures
            r@ == spec_tag(self),
    {
        match self {
            Notification::Screenshot => "Screenshot",
            Notification::ScreenshotFailed => "ScreenshotFailed",
            Notification::GpgShutdown => "GpgShutdown",
            Notification::WindowParked => "WindowParked",
            Notification::WindowWrongRatio(..) => "WindowWrongRatio",
            Notification::InternalResolution { .. } => "InternalResolution ",
            Notification::UnknownCommand(..) => "UnknownCommand",
            Notification::Panic(..) => "Panic",
            Notification::UpdateAvailable(..) => "UpdateAvailable",
            Notification::UnsupportedClient(..) => "UnsupportedClient",
            Notification::ClientMismatch(..) => "ClientMismatch",
            Notification::GameNotInstalled(..) => "GameNotInstalled",
            Notification::AdbInputUnsupported => "AdbInputUnsupported",
            Notification::InputHeld => "InputHeld",
        }
    }

    /// Seconds a toast of this kind stays quiet after it was last shown; `None` never waits.
    pub fn cooldown(&self) -> (r: Option<u64>)
        ensures
            r == spec_cooldown(self),
    {
        match self {
            Notification::WindowWrongRatio(..) | Notification::AdbInputUnsupported
            | Notification::UnsupportedClient(..) | Notification::ClientMismatch(..)
            | Notification::GameNotInstalled(..) => Some(10),
            Notification::WindowParked => Some(2),
            Notification::InputHeld => Some(10),
            _ => None,
        }
    }

    /// The toast's title, in Korean for the Korean client and in English otherwise.
    pub fn title(&self, client: Client) -> (r: &'static str)
        ensures
            r@ == spec_title_text(spec_level(self), client),
    {
        let kr = client == Client::KR;
        match self.level() {
            LogLevel::Update => if kr { "🎉 업데이트" } else { "🎉 Update" },
            LogLevel::Info => if kr { "ℹ️ 정보" } else { "ℹ️ Info" },
            LogLevel::Warn => if kr { "⚠️ 경고" } else { "⚠️ Warning" },
            LogLevel::Error => if kr { "⛔ 오류" } else { "⛔ Error" },
        }
    }
}

pub open spec fn spec_title_text(level: LogLevel, client: Client) -> Seq<char> {
    let kr = client == Client::KR;
    match level {
        LogLevel::Update => if kr { "🎉 업데이트"@ } else { "🎉 Update"@ },
        LogLevel::Info => if kr { "ℹ️ 정보"@ } else { "ℹ️ Info"@ },
        LogLevel::Warn => if kr { "⚠️ 경고"@ } else { "⚠️ Warning"@ },
        LogLevel::Error => if kr { "⛔ 오류"@ } else { "⛔ Error"@ },
    }
}

/// Whether a toast last shown at `last_time` may show again at `now`, `cooldown_seconds` later.
/// A toast never shown reads as shown at 0, so it always may.
pub fn check_notification_registry(last_time: u32, now: u64, cooldown_seconds: u64) -> (r: bool)
    requires
        last_time <= now,
    ensures
        r == (now - last_time >= cooldown_seconds),
{
    now - last_time as u64 >= cooldown_seconds
}


/// What showing a toast records: `Some(stamp)` where it shows, `stamp` being the time stored
/// for its tag (the low 32 bits of `now`), `None` where its cooldown holds it back. A toast
/// without a cooldown always shows; one with a cooldown shows once the cooldown has passed since
/// `last_time`.
pub open spec fn spec_toast_record(cooldown: Option<u64>, last_time: u32, now: u64) -> Option<u32> {
    let shows = match cooldown {
        None => true,
        Some(c) => now - last_time >= c,
    };
    if shows {
        Some(now as u32)
    } else {
        None
    }
}

/// Whether a toast shows at `now`, and the time to store for its tag when it does. The stored
/// time of a toast with a cooldown must not lie after `now`.
pub fn toast_record(cooldown: Option<u64>, last_time: u32, now: u64) -> (r: Option<u32>)
    requires
        cooldown is Some ==> last_time <= now,
    ensures
        r == spec_toast_record(cooldown, last_time, now),
{
    let shows = match cooldown {
        None => true,
        Some(c) => check_notification_registry(last_time, now, c),
    };
    if shows {
        Some(now as u32)
    } else {
        None
    }
}

/// A toast without a cooldown shows on every call, whatever was stored for its tag.
pub proof fn lemma_uncooled_toast_always_shows(n: Notification, last_time: u32, now: u64)
    requires
        spec_cooldown(&n) is None,
    ensures
        spec_toast_record(spec_cooldown(&n), last_time, now) == Some(now as u32),
{
}

/// The toast's text in English and in Korean.
pub open spec fn spec_body_texts(n: NotificationView) -> (Seq<char>, Seq<char>) {
    match n {
        NotificationView::Screenshot => ("Screenshot saved to the desktop"@, "스크린샷이 바탕화면에 저장됐어요"@),
        NotificationView::GpgShutdown => ("Google Play Games shut down"@, "Google Play Games 종료"@),
        NotificationView::WindowParked => (
            "Moved the window off-screen instead of minimizing"@,
            "최소화하는 대신 창을 화면 밖으로 옮겼어요"@,
        ),
        NotificationView::WindowWrongRatio(ratio) => (
            "The current aspect ratio is not supported\nCurrent 16:"@ + ratio + " / Recommended 16:9"@,
            "현재 화면 비율은 지원하지 않아요\n현재 16:"@ + ratio + " / 권장 16:9"@,
        ),
        NotificationView::InternalResolution { w, h } => (
            "The current resolution can cause issues\nCurrent "@ + decimal(w as nat) + "×"@ + decimal(h as nat)
                + " / Recommended 1280×720"@,
            "현재 해상도는 문제가 생길 수 있어요\n현재 "@ + decimal(w as nat) + "×"@ + decimal(h as nat)
                + " / 권장 1280×720"@,
        ),
        NotificationView::ScreenshotFailed => (
            "Screenshot failed; window not found"@,
            "창을 찾을 수 없어 스크린샷에 실패했어요"@,
        ),
        NotificationView::UnknownCommand(c) => ("Unknown command\n"@ + c, "알 수 없는 명령어\n"@ + c),
        NotificationView::Panic(m) => ("Fatal error\n"@ + m, "치명적인 오류 발생\n"@ + m),
        NotificationView::UpdateAvailable(v) => (
            "A new version is available ("@ + v + ")"@,
            "신규 버전을 발견했어요 ("@ + v + ")"@,
        ),
        NotificationView::UnsupportedClient(r) => (
            "The requested client is not supported\nPlease check 'Client' in MAA 'Game Settings'\nRequested: "@ + r,
            "요청된 클라이언트는 지원하지 않아요\nMAA '실행 설정'에서 '클라이언트'를 확인해주세요\n요청됨: "@ + r,
        ),
        NotificationView::ClientMismatch(r, i) => (
            "The requested client does not match the installed version\nPlease check 'Client' in MAA 'Game Settings'\nRequested: "@
                + r + "\nInstalled: "@ + i,
            "요청된 클라이언트와 설치된 클라이언트가 달라요\nMAA '실행 설정'에서 '클라이언트'를 확인해주세요\n요청됨: "@ + r
                + "\n설치됨: "@ + i,
        ),
        NotificationView::GameNotInstalled(p) => (
            "The game is not installed in Google Play Games\nPackage: "@ + p,
            "Google Play Games에 게임이 설치돼 있지 않아요\n패키지: "@ + p,
        ),
        NotificationView::AdbInputUnsupported => (
            "ADB Input is not supported\nPlease switch to Minitouch"@,
            "ADB Input은 지원하지 않아요\nMinitouch로 전환해주세요"@,
        ),
        NotificationView::InputHeld => (
            "Input is on hold while the window is moved, resized or in a menu"@,
            "창을 옮기거나 크기를 바꾸거나 메뉴를 여는 동안 입력이 멈춰요"@,
        ),
    }
}

/// The toast's text: Korean for the Korean client, English otherwise.
pub open spec fn spec_body(n: NotificationView, client: Client) -> Seq<char> {
    if client == Client::KR {
        spec_body_texts(n).1
    } else {
        spec_body_texts(n).0
    }
}

impl Notification {
    /// The toast's text, in the stored client's language.
    pub fn body(&self, client: Client) -> (r: String)
        ensures
            r@ == spec_body(self@, client),
    {
        let kr = client == Client::KR;
        let mut s = String::new();
        match self {
            Notification::Screenshot => {
                s.append(if kr { "스크린샷이 바탕화면에 저장됐어요" } else { "Screenshot saved to the desktop" });
            },
            Notification::GpgShutdown => {
                s.append(if kr { "Google Play Games 종료" } else { "Google Play Games shut down" });
            },
            Notification::WindowParked => {
                s.append(
                    if kr {
                        "최소화하는 대신 창을 화면 밖으로 옮겼어요"
                    } else {
                        "Moved the window off-screen instead of minimizing"
                    },
                );
            },
            Notification::WindowWrongRatio(ratio) => {
                s.append(
                    if kr {
                        "현재 화면 비율은 지원하지 않아요\n현재 16:"
                    } else {
                        "The current aspect ratio is not supported\nCurrent 16:"
                    },
                );
                s.append(ratio.as_str());
                s.append(if kr { " / 권장 16:9" } else { " / Recommended 16:9" });
            },
            Notification::InternalResolution { w, h } => {
                s.append(
                    if kr {
                        "현재 해상도는 문제가 생길 수 있어요\n현재 "
                    } else {
                        "The current resolution can cause issues\nCurrent "
                    },
                );
                push_decimal(&mut s, *w as u64);
                s.append("×");
                push_decimal(&mut s, *h as u64);
                s.append(if kr { " / 권장 1280×720" } else { " / Recommended 1280×720" });
            },
            Notification::ScreenshotFailed => {
                s.append(
                    if kr {
                        "창을 찾을 수 없어 스크린샷에 실패했어요"
                    } else {
                        "Screenshot failed; window not found"
                    },
                );
            },
            Notification::UnknownCommand(c) => {
                s.append(if kr { "알 수 없는 명령어\n" } else { "Unknown command\n" });
                s.append(c.as_str());
            },
            Notification::Panic(m) => {
                s.append(if kr { "치명적인 오류 발생\n" } else { "Fatal error\n" });
                s.append(m.as_str());
            },
            Notification::UpdateAvailable(v) => {
                s.append(if kr { "신규 버전을 발견했어요 (" } else { "A new version is available (" });
                s.append(v.as_str());
                s.append(")");
            },
            Notification::UnsupportedClient(r) => {
                s.append(
                    if kr {
                        "요청된 클라이언트는 지원하지 않아요\nMAA '실행 설정'에서 '클라이언트'를 확인해주세요\n요청됨: "
                    } else {
                        "The requested client is not supported\nPlease check 'Client' in MAA 'Game Settings'\nRequested: "
                    },
                );
                s.append(r.as_str());
            },
            Notification::ClientMismatch(r, i) => {
                s.append(
                    if kr {
                        "요청된 클라이언트와 설치된 클라이언트가 달라요\nMAA '실행 설정'에서 '클라이언트'를 확인해주세요\n요청됨: "
                    } else {
                        "The requested client does not match the installed version\nPlease check 'Client' in MAA 'Game Settings'\nRequested: "
                    },
                );
                s.append(r.as_str());
                s.append(if kr { "\n설치됨: " } else { "\nInstalled: " });
                s.append(i.as_str());
            },
            Notification::GameNotInstalled(p) => {
                s.append(
                    if kr {
                        "Google Play Games에 게임이 설치돼 있지 않아요\n패키지: "
                    } else {
                        "The game is not installed in Google Play Games\nPackage: "
                    },
                );
                s.append(p.as_str());
            },
            Notification::AdbInputUnsupported => {
                s.append(
                    if kr {
                        "ADB Input은 지원하지 않아요\nMinitouch로 전환해주세요"
                    } else {
                        "ADB Input is not supported\nPlease switch to Minitouch"
                    },
                );
            },
            Notification::InputHeld => {
                s.append(
                    if kr {
                        "창을 옮기거나 크기를 바꾸거나 메뉴를 여는 동안 입력이 멈춰요"
                    } else {
                        "Input is on hold while the window is moved, resized or in a menu"
                    },
                );
            },
        }
        proof {
            assert(s@ =~= spec_body(self@, client));
        }
        s
    }
}

} // verus!
