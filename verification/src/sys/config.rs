//! The game client (region) PlayBridge drives, and the decisions around the stored configuration.

use vstd::prelude::*;

use crate::sys::json::{json_str_path, json_str_path_at, string_views};
use crate::text::str_eq;

verus! {

pub const DISPLAY_WIDTH: u32 = 1280;
pub const DISPLAY_HEIGHT: u32 = 720;

/// Seconds between two checks for a newer release.
pub const UPDATE_CHECK_COOLDOWN: u64 = 86400;

/// The version string of a build made outside the release pipeline.
pub const DEVELOPMENT_VERSION: &'static str = "development";

/// Which regional client of the game is in use.
#[derive(Clone, Copy, PartialEq, Eq, Structural, Debug)]
pub enum Client {
    Empty,
    EN,
    KR,
    JP,
}

impl Default for Client {
    fn default() -> (r: Self)
        ensures
            r == Client::Empty,
    {
        Client::Empty
    }
}

pub open spec fn spec_as_str(c: Client) -> Seq<char> {
    match c {
        Client::KR => "YoStarKR"@,
        Client::JP => "YoStarJP"@,
        Client::EN => "YoStarEN"@,
        Client::Empty => ""@,
    }
}

pub open spec fn spec_title(c: Client) -> Seq<char> {
    match c {
        Client::KR => "명일방주"@,
        Client::JP => "アークナイツ"@,
        Client::EN => "Arknights"@,
        Client::Empty => ""@,
    }
}

pub open spec fn spec_package(c: Client) -> Seq<char> {
    match c {
        Client::KR => "com.YoStarKR.Arknights"@,
        Client::JP => "com.YoStarJP.Arknights"@,
        Client::EN => "com.YoStarEN.Arknights"@,
        Client::Empty => ""@,
    }
}

pub open spec fn spec_from_str(s: Seq<char>) -> Client {
    if s == "YoStarKR"@ {
        Client::KR
    } else if s == "YoStarJP"@ {
        Client::JP
    } else if s == "YoStarEN"@ {
        Client::EN
    } else {
        Client::Empty
    }
}

impl Client {
    /// The client a stored name stands for; anything unknown is `Empty`.
    pub fn from_str(s: &str) -> (r: Client)
        ensures
            r == spec_from_str(s@),
    {
        if str_eq(s, "YoStarKR") {
            Client::KR
        } else if str_eq(s, "YoStarJP") {
            Client::JP
        } else if str_eq(s, "YoStarEN") {
            Client::EN
        } else {
            Client::Empty
        }
    }

    /// The client MAA's `ClientType` names. MAA's `Official`, `Bilibili` and `txwy` have no
    /// Google Play Games package, so they name none.
    pub fn from_maa_client_type(s: &str) -> (r: Option<Client>)
        ensures
            r == (if spec_from_str(s@) == Client::Empty {
                None
            } else {
                Some(spec_from_str(s@))
            }),
    {
        match Client::from_str(s) {
            Client::Empty => None,
            c => Some(c),
        }
    }

    /// The name stored in the configuration, and MAA's `ClientType` for it.
    pub fn as_str(&self) -> (r: &'static str)
        ensures
            r@ == spec_as_str(*self),
    {
        match self {
            Client::KR => "YoStarKR",
            Client::JP => "YoStarJP",
            Client::EN => "YoStarEN",
            Client::Empty => "",
        }
    }

    /// The prefix of the game window's title.
    pub fn title(&self) -> (r: &'static str)
        ensures
            r@ == spec_title(*self),
    {
        match self {
            Client::KR => "명일방주",
            Client::JP => "アークナイツ",
            Client::EN => "Arknights",
            Client::Empty => "",
        }
    }

    /// The Android package of the client.
    pub fn package(&self) -> (r: &'static str)
        ensures
            r@ == spec_package(*self),
    {
        match self {
            Client::KR => "com.YoStarKR.Arknights",
            Client::JP => "com.YoStarJP.Arknights",
            Client::EN => "com.YoStarEN.Arknights",
            Client::Empty => "",
        }
    }
}

/// Reading back a stored client name gives the client that was stored.
pub proof fn lemma_from_str_as_str(c: Client)
    ensures
        spec_from_str(spec_as_str(c)) == c,
{
    reveal_strlit("YoStarKR");
    reveal_strlit("YoStarJP");
    reveal_strlit("YoStarEN");
    reveal_strlit("");
    assert("YoStarKR"@[6] != "YoStarJP"@[6]);
    assert("YoStarKR"@[6] != "YoStarEN"@[6]);
    assert("YoStarJP"@[6] != "YoStarEN"@[6]);
    assert(""@.len() == 0);
    assert("YoStarKR"@.len() == 8 && "YoStarJP"@.len() == 8 && "YoStarEN"@.len() == 8);
    match c {
        Client::KR => {},
        Client::JP => {
            assert(spec_as_str(c) != "YoStarKR"@);
        },
        Client::EN => {
            assert(spec_as_str(c) != "YoStarKR"@);
            assert(spec_as_str(c) != "YoStarJP"@);
        },
        Client::Empty => {
            assert(spec_as_str(c) != "YoStarKR"@);
            assert(spec_as_str(c) != "YoStarJP"@);
            assert(spec_as_str(c) != "YoStarEN"@);
        },
    }
}

/// Each client has a package of its own.
pub proof fn lemma_package_distinct(a: Client, b: Client)
    requires
        a != b,
    ensures
        spec_package(a) != spec_package(b),
{
    reveal_strlit("com.YoStarKR.Arknights");
    reveal_strlit("com.YoStarJP.Arknights");
    reveal_strlit("com.YoStarEN.Arknights");
    reveal_strlit("");
    assert("com.YoStarKR.Arknights"@[10] != "com.YoStarJP.Arknights"@[10]);
    assert("com.YoStarKR.Arknights"@[10] != "com.YoStarEN.Arknights"@[10]);
    assert("com.YoStarJP.Arknights"@[10] != "com.YoStarEN.Arknights"@[10]);
    assert(""@.len() == 0);
    assert("com.YoStarKR.Arknights"@.len() == 22);
    assert("com.YoStarJP.Arknights"@.len() == 22);
    assert("com.YoStarEN.Arknights"@.len() == 22);
    if spec_package(a) == spec_package(b) {
        assert(spec_package(a)[10] == spec_package(b)[10] || spec_package(a).len() == 0);
    }
}

/// Why an update check does or does not run.
#[derive(Clone, Copy, PartialEq, Eq, Structural, Debug)]
pub enum UpdateCheck {
    /// a development build never looks for releases
    SkipDevelopment,
    /// the last check is less than a day old
    SkipCooldown,
    Run,
}

pub open spec fn spec_update_check(current: Seq<char>, last_check: u64, now: u64) -> UpdateCheck {
    if current == DEVELOPMENT_VERSION@ {
        UpdateCheck::SkipDevelopment
    } else if now > last_check && now - last_check < UPDATE_CHECK_COOLDOWN {
        UpdateCheck::SkipCooldown
    } else {
        UpdateCheck::Run
    }
}

/// Whether to ask for the latest release, given the running version, the time of the last
/// check and now (both in seconds). A clock that went backwards does not hold the check back.
pub fn update_check(current: &str, last_check: u64, now: u64) -> (r: UpdateCheck)
    ensures
        r == spec_update_check(current@, last_check, now),
{
    if str_eq(current, DEVELOPMENT_VERSION) {
        UpdateCheck::SkipDevelopment
    } else if now > last_check && now - last_check < UPDATE_CHECK_COOLDOWN {
        UpdateCheck::SkipCooldown
    } else {
        UpdateCheck::Run
    }
}

/// Whether the latest release tag names another version than the running one.
pub fn update_available(current: &str, latest: &str) -> (r: bool)
    ensures
        r == (current@ != latest@),
{
    !str_eq(current, latest)
}

/// The value a switch stored as a number turns to: off (0) turns on (1), anything else off.
pub fn toggled(current: u32) -> (r: u32)
    ensures
        r == (if current == 0 { 1u32 } else { 0u32 }),
{
    if current == 0 {
        1
    } else {
        0
    }
}


/// The release tag a releases-API answer names: its `tag_name`, or empty where it has none.
pub open spec fn spec_latest_tag(body: Seq<char>) -> Seq<char> {
    match json_str_path_at(body, seq!["tag_name"@]) {
        Some(t) => t,
        None => Seq::empty(),
    }
}

pub fn latest_tag(body: &str) -> (r: String)
    ensures
        r@ == spec_latest_tag(body@),
{
    let path = vec![String::from_str("tag_name")];
    proof {
        assert(string_views(path@) =~= seq!["tag_name"@]);
    }
    match json_str_path(body, &path) {
        Some(t) => t,
        None => String::new(),
    }
}

} // verus!
