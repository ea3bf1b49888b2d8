//! Finding the game window by its title, and the modal loops that swallow its input.

use vstd::prelude::*;

use crate::sys::config::{spec_title, Client};
use crate::text::{is_prefix, starts_with, string_views};

verus! {

/// The client whose window title `title` starts with, trying KR, JP, then EN.
pub open spec fn spec_resolve_client_by_title(title: Seq<char>) -> Option<Client> {
    if is_prefix(spec_title(Client::KR), title) {
        Some(Client::KR)
    } else if is_prefix(spec_title(Client::JP), title) {
        Some(Client::JP)
    } else if is_prefix(spec_title(Client::EN), title) {
        Some(Client::EN)
    } else {
        None
    }
}

pub fn resolve_client_by_title(title: &str) -> (r: Option<Client>)
    ensures
        r == spec_resolve_client_by_title(title@),
{
    if starts_with(title, Client::KR.title()) {
        Some(Client::KR)
    } else if starts_with(title, Client::JP.title()) {
        Some(Client::JP)
    } else if starts_with(title, Client::EN.title()) {
        Some(Client::EN)
    } else {
        None
    }
}

/// Each client's window is found by its own title: a title that starts with a client's title
/// resolves to that client, and a resolved client's title is where the title starts.
pub proof fn lemma_resolve_client_by_title(title: Seq<char>, c: Client)
    ensures
        c != Client::Empty && is_prefix(spec_title(c), title) ==> spec_resolve_client_by_title(title)
            == Some(c),
        spec_resolve_client_by_title(title) == Some(c) ==> c != Client::Empty && is_prefix(
            spec_title(c),
            title,
        ),
        spec_resolve_client_by_title(title) is None ==> !is_prefix(spec_title(Client::KR), title)
            && !is_prefix(spec_title(Client::JP), title) && !is_prefix(spec_title(Client::EN), title),
{
    reveal_strlit("명일방주");
    reveal_strlit("アークナイツ");
    reveal_strlit("Arknights");
    if is_prefix(spec_title(Client::KR), title) {
        assert(title[0] == spec_title(Client::KR)[0]);
    }
    if is_prefix(spec_title(Client::JP), title) {
        assert(title[0] == spec_title(Client::JP)[0]);
    }
    if is_prefix(spec_title(Client::EN), title) {
        assert(title[0] == spec_title(Client::EN)[0]);
    }
}

/// What finding a running client's window means for the stored client.
#[derive(Clone, Copy, PartialEq, Eq, Structural, Debug)]
pub enum RunningClient {
    /// it is the one stored
    Same,
    /// store it; if another one was stored, tell the user the two differ
    Adopt { client: Client, mismatch_with: Option<Client> },
}

/// The client whose window is up wins: it is what MAA is looking at. The stored client is
/// updated before any toast, since the toast's language follows it.
pub fn adopt_running_client(previous: Client, client: Client) -> (r: RunningClient)
    ensures
        r == if previous == client {
            RunningClient::Same
        } else {
            RunningClient::Adopt {
                client,
                mismatch_with: if previous != Client::Empty { Some(previous) } else { None },
            }
        },
{
    if previous == client {
        RunningClient::Same
    } else {
        RunningClient::Adopt { client, mismatch_with: if previous != Client::Empty { Some(previous) } else { None } }
    }
}

/// The GUI thread flags of a modal loop: moving or sizing, menu mode, system menu, popup menu.
/// Such a loop drains mouse messages from the whole thread queue, so posted input is lost.
pub const MODAL_FLAGS: u32 = 0x2 | 0x4 | 0x8 | 0x10;

/// Whether the window's thread is in a modal loop, by its GUI thread flags.
pub fn in_modal_loop(flags: u32) -> (r: bool)
    ensures
        r == (flags & MODAL_FLAGS != 0),
{
    flags & MODAL_FLAGS != 0
}

/// Nanoseconds a hold lasts before the user is told input is held.
pub const HOLD_WARN_DELAY_NS: u64 = 3_000_000_000;

/// One poll of a hold, which waits out a modal loop before a commit is played.
#[derive(Clone, Copy, PartialEq, Eq, Structural, Debug)]
pub enum HoldStep {
    /// the window went away during the hold
    WindowGone,
    /// the loop ended after this many nanoseconds
    Ended(u64),
    /// still held; `warn` asks for the held-input toast (its cooldown spaces the toasts)
    Wait { warn: bool },
}

pub fn hold_step(window_alive: bool, modal: bool, held_ns: u64) -> (r: HoldStep)
    ensures
        r == if !window_alive {
            HoldStep::WindowGone
        } else if !modal {
            HoldStep::Ended(held_ns)
        } else {
            HoldStep::Wait { warn: held_ns >= HOLD_WARN_DELAY_NS }
        },
{
    if !window_alive {
        HoldStep::WindowGone
    } else if !modal {
        HoldStep::Ended(held_ns)
    } else {
        HoldStep::Wait { warn: held_ns >= HOLD_WARN_DELAY_NS }
    }
}


/// Whether `regex` finds a match for `pattern` in `text`; `None` where it refuses the pattern.
pub uninterp spec fn regex_match(pattern: Seq<char>, text: Seq<char>) -> Option<bool>;

/// `regex::Regex::new(pattern)`, then `is_match(text)`.
///
/// Trusted: the result is `regex_match` of the two arguments (matching depends on nothing else).
#[verifier::external_body]
fn regex_is_match(pattern: &str, text: &str) -> (r: Option<bool>)
    ensures
        r == regex_match(pattern@, text@),
{
    regex::Regex::new(pattern).ok().map(|re| re.is_match(text))
}

/// The title of a Google Play Games window other than a game's: its launcher or a loading screen.
pub const GPG_TITLE_PATTERN: &'static str = "^Google Play .+";

/// Whether some window, by its title, is Google Play Games still coming up.
pub fn is_gpg_loading(titles: &[String]) -> (r: bool)
    ensures
        r == exists|k: int|
            0 <= k < titles@.len() && #[trigger] regex_match(GPG_TITLE_PATTERN@, string_views(titles@)[k]) == Some(true),
{
    let mut k: usize = 0;
    while k < titles.len()
        invariant
            k <= titles@.len(),
            forall|j: int| 0 <= j < k ==> #[trigger] regex_match(GPG_TITLE_PATTERN@, string_views(titles@)[j]) != Some(true),
        decreases titles@.len() - k,
    {
        proof {
            assert(string_views(titles@)[k as int] == titles@[k as int]@);
        }
        if let Some(true) = regex_is_match(GPG_TITLE_PATTERN, titles[k].as_str()) {
            return true;
        }
        k += 1;
    }
    false
}

} // verus!
