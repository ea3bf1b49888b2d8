//! Which client to launch, and the launcher's polling loop. The launcher is a short-lived process
//! of its own: its lifetime is the "game is starting" signal, so nothing else tracks launch state.

use vstd::prelude::*;

use crate::sys::config::{spec_package, Client};
use crate::text::{chars_of, is_prefix, starts_with, str_eq};

verus! {

/// The whole of a launch attempt, in milliseconds; past it the game counts as unreachable.
pub const LAUNCH_TIMEOUT_MS: u64 = 180_000;
/// Milliseconds between two firings of the launch URI.
pub const LAUNCH_RETRY_COOLDOWN_MS: u64 = 10_000;

/// The first client, in the order KR, JP, EN, whose package `package` starts with.
pub open spec fn spec_resolve_client(package: Seq<char>) -> Option<Client> {
    if is_prefix(spec_package(Client::KR), package) {
        Some(Client::KR)
    } else if is_prefix(spec_package(Client::JP), package) {
        Some(Client::JP)
    } else if is_prefix(spec_package(Client::EN), package) {
        Some(Client::EN)
    } else {
        None
    }
}

pub fn resolve_client(package: &str) -> (r: Option<Client>)
    ensures
        r == spec_resolve_client(package@),
{
    if starts_with(package, Client::KR.package()) {
        Some(Client::KR)
    } else if starts_with(package, Client::JP.package()) {
        Some(Client::JP)
    } else if starts_with(package, Client::EN.package()) {
        Some(Client::EN)
    } else {
        None
    }
}

/// The part of an intent (`<package>/<activity>`) before the first `/`, or all of it.
pub open spec fn package_of_intent(intent: Seq<char>) -> Seq<char>
    decreases intent.len(),
{
    if intent.len() == 0 {
        intent
    } else if intent.last() == '/' && !intent.drop_last().contains('/') {
        intent.drop_last()
    } else if intent.drop_last().contains('/') {
        package_of_intent(intent.drop_last())
    } else {
        intent
    }
}

/// What an `am start` intent means for the stored client.
pub enum IntentDecision {
    /// the intent is for the client already stored
    Matches { package: String },
    /// the package belongs to no supported client
    Unsupported { package: String },
    /// the intent names another client than the one already stored
    Mismatch { requested: Client, configured: Client },
    /// no client was stored yet, or it is the one named: store it
    Adopt(Client),
}

pub enum IntentView {
    Matches { package: Seq<char> },
    Unsupported { package: Seq<char> },
    Mismatch { requested: Client, configured: Client },
    Adopt(Client),
}

impl View for IntentDecision {
    type V = IntentView;

    open spec fn view(&self) -> IntentView {
        match self {
            IntentDecision::Matches { package } => IntentView::Matches { package: package@ },
            IntentDecision::Unsupported { package } => IntentView::Unsupported { package: package@ },
            IntentDecision::Mismatch { requested, configured } => IntentView::Mismatch {
                requested: *requested,
                configured: *configured,
            },
            IntentDecision::Adopt(c) => IntentView::Adopt(*c),
        }
    }
}

impl IntentDecision {
    /// Whether the caller should go on to launch: an intent that contradicts the client MAA
    /// already told us about, or names no supported one, launches nothing.
    pub fn launches(&self) -> (r: bool)
        ensures
            r == (self@ is Matches || self@ is Adopt),
    {
        match self {
            IntentDecision::Matches { .. } | IntentDecision::Adopt(_) => true,
            _ => false,
        }
    }
}

pub open spec fn spec_apply_intent_package(intent: Seq<char>, current: Client) -> IntentView {
    let package = package_of_intent(intent);
    if spec_package(current) == package {
        IntentView::Matches { package }
    } else {
        match spec_resolve_client(package) {
            None => IntentView::Unsupported { package },
            Some(client) => if current != Client::Empty && current != client {
                IntentView::Mismatch { requested: client, configured: current }
            } else {
                IntentView::Adopt(client)
            },
        }
    }
}

proof fn lemma_package_of_intent(intent: Seq<char>, k: int)
    requires
        0 <= k <= intent.len(),
        forall|j: int| 0 <= j < k ==> intent[j] != '/',
        k == intent.len() || intent[k] == '/',
    ensures
        package_of_intent(intent) == intent.subrange(0, k),
    decreases intent.len(),
{
    if intent.len() == 0 {
        assert(intent.subrange(0, k) =~= intent);
    } else {
        let d = intent.drop_last();
        if k == intent.len() {
            assert(!d.contains('/')) by {
                if d.contains('/') {
                    let j = choose|j: int| 0 <= j < d.len() && d[j] == '/';
                    assert(intent[j] == '/');
                }
            }
            assert(intent.subrange(0, k) =~= intent);
        } else if k == intent.len() - 1 {
            assert(!d.contains('/')) by {
                if d.contains('/') {
                    let j = choose|j: int| 0 <= j < d.len() && d[j] == '/';
                    assert(intent[j] == '/');
                }
            }
            assert(d =~= intent.subrange(0, k));
        } else {
            assert(d[k] == '/');
            assert(d.contains('/'));
            lemma_package_of_intent(d, k);
            assert(d.subrange(0, k) =~= intent.subrange(0, k));
        }
    }
}

/// The package an intent is for.
fn intent_package(intent: &str) -> (r: String)
    ensures
        r@ == package_of_intent(intent@),
{
    let cs = chars_of(intent);
    let mut k: usize = 0;
    while k < cs.len() && cs[k] != '/'
        invariant
            cs@ == intent@,
            k <= cs@.len(),
            forall|j: int| 0 <= j < k ==> cs@[j] != '/',
        decreases cs@.len() - k,
    {
        k += 1;
    }
    proof {
        lemma_package_of_intent(intent@, k as int);
    }
    intent.substring_char(0, k).to_owned()
}

/// What the intent of `am start -n <intent>` means, given the client stored so far.
pub fn apply_intent_package(intent: &str, current: Client) -> (r: IntentDecision)
    ensures
        r@ == spec_apply_intent_package(intent@, current),
{
    let package = intent_package(intent);
    if str_eq(current.package(), package.as_str()) {
        return IntentDecision::Matches { package };
    }
    let Some(client) = resolve_client(package.as_str()) else {
        return IntentDecision::Unsupported { package };
    };
    if current != Client::Empty && current != client {
        return IntentDecision::Mismatch { requested: client, configured: current };
    }
    IntentDecision::Adopt(client)
}

/// With GPG closed, the store is the evidence of which client is installed: of the clients
/// other than `previous` (in the order KR, JP, EN), the one with a record, if exactly one has one.
/// Two installed side by side is assumed not to happen, and is not guessed at.
pub open spec fn spec_adopt_installed(previous: Client, kr: bool, jp: bool, en: bool) -> Option<Client> {
    let k = previous != Client::KR && kr;
    let j = previous != Client::JP && jp;
    let e = previous != Client::EN && en;
    if k && !j && !e {
        Some(Client::KR)
    } else if j && !k && !e {
        Some(Client::JP)
    } else if e && !k && !j {
        Some(Client::EN)
    } else {
        None
    }
}

/// `kr`, `jp` and `en` tell whether the store holds a record for each client's package.
pub fn adopt_installed_client(previous: Client, kr: bool, jp: bool, en: bool) -> (r: Option<Client>)
    ensures
        r == spec_adopt_installed(previous, kr, jp, en),
{
    let mut found: Option<Client> = None;
    let candidates = [(Client::KR, kr), (Client::JP, jp), (Client::EN, en)];
    let mut i: usize = 0;
    while i < 3
        invariant
            i <= 3,
            candidates@ == seq![(Client::KR, kr), (Client::JP, jp), (Client::EN, en)],
            found == (if i == 0 {
                None
            } else if i == 1 {
                if previous != Client::KR && kr { Some(Client::KR) } else { None }
            } else if i == 2 {
                if previous != Client::KR && kr { Some(Client::KR) } else if previous != Client::JP && jp { Some(Client::JP) } else { None }
            } else {
                if previous != Client::KR && kr { Some(Client::KR) } else if previous != Client::JP && jp { Some(Client::JP) } else if previous != Client::EN && en { Some(Client::EN) } else { None }
            }),
            (i >= 2 ==> !(previous != Client::KR && kr && previous != Client::JP && jp)),
            (i >= 3 ==> !((previous != Client::KR && kr || previous != Client::JP && jp) && previous != Client::EN && en)),
        decreases 3 - i,
    {
        let (client, has) = candidates[i];
        if client != previous && has {
            if found.is_some() {
                return None;
            }
            found = Some(client);
        }
        i += 1;
    }
    found
}

/// Why the launcher stops.
#[derive(Clone, Copy, PartialEq, Eq, Structural, Debug)]
pub enum LaunchStop {
    /// the MAA that spawned it is gone, so nothing else would end it
    MaaGone,
    /// the game window is up
    Ready,
    /// the launch timed out
    GaveUp,
}

/// What one poll of the launcher decides.
#[derive(Clone, Copy, PartialEq, Eq, Structural, Debug)]
pub enum LaunchStep {
    Stop(LaunchStop),
    /// fire the launch URI, then poll again
    Launch,
    /// poll again
    Wait,
}

/// Whether the launch URI may fire again at `now`, given when it last fired.
pub open spec fn launch_due(last: Option<u64>, now: u64) -> bool {
    match last {
        None => true,
        Some(t) => now >= t && now - t >= LAUNCH_RETRY_COOLDOWN_MS,
    }
}

/// One poll of the launcher at `now` (milliseconds since it started). Past the timeout it gives
/// up; MAA being gone wins over everything else, then a window that is up. While GPG shows its
/// loading screen nothing is fired; a loading screen that vanished without the game means the
/// launch died partway, so the cooldown is cleared. Otherwise the URI fires at most once per
/// cooldown.
pub open spec fn spec_launch_step(s: LaunchState, now: u64, maa_alive: bool, game_up: bool, loading: bool) -> (
    LaunchState,
    LaunchStep,
) {
    if now >= LAUNCH_TIMEOUT_MS {
        (s, LaunchStep::Stop(LaunchStop::GaveUp))
    } else if !maa_alive {
        (s, LaunchStep::Stop(LaunchStop::MaaGone))
    } else if game_up {
        (s, LaunchStep::Stop(LaunchStop::Ready))
    } else if loading {
        (LaunchState { was_loading: true, ..s }, LaunchStep::Wait)
    } else {
        let last = if s.was_loading { None } else { s.last_launch };
        if launch_due(last, now) {
            (
                LaunchState { last_launch: Some(now), was_loading: false, attempts: (s.attempts + 1) as u32 },
                LaunchStep::Launch,
            )
        } else {
            (LaunchState { last_launch: last, was_loading: false, ..s }, LaunchStep::Wait)
        }
    }
}

/// The launcher's memory between polls. Times are milliseconds since it started.
pub struct LaunchState {
    pub last_launch: Option<u64>,
    pub was_loading: bool,
    pub attempts: u32,
}

impl LaunchState {
    pub fn new() -> (r: LaunchState)
        ensures
            r.last_launch is None,
            !r.was_loading,
            r.attempts == 0,
    {
        LaunchState { last_launch: None, was_loading: false, attempts: 0 }
    }

    /// One poll at `now`: see `spec_launch_step`.
    pub fn step(&mut self, now: u64, maa_alive: bool, game_up: bool, loading: bool) -> (r: LaunchStep)
        requires
            old(self).attempts < u32::MAX,
        ensures
            (*final(self), r) == spec_launch_step(*old(self), now, maa_alive, game_up, loading),
    {
        if now >= LAUNCH_TIMEOUT_MS {
            return LaunchStep::Stop(LaunchStop::GaveUp);
        }
        if !maa_alive {
            return LaunchStep::Stop(LaunchStop::MaaGone);
        }
        if game_up {
            return LaunchStep::Stop(LaunchStop::Ready);
        }
        if loading {
            self.was_loading = true;
            return LaunchStep::Wait;
        }
        if self.was_loading {
            self.was_loading = false;
            self.last_launch = None;
        }
        let due = match self.last_launch {
            None => true,
            Some(t) => now >= t && now - t >= LAUNCH_RETRY_COOLDOWN_MS,
        };
        if due {
            self.last_launch = Some(now);
            self.attempts += 1;
            LaunchStep::Launch
        } else {
            LaunchStep::Wait
        }
    }
}


/// The title of Google Play Games' own window, which it shows while a game loads.
pub const LOADING_TITLE: &'static str = "Google Play Games";
/// The class prefix of the window that wraps a game (or the loading screen).
pub const WRAPPER_CLASS: &'static str = "HwndWrapper";

/// Whether a window with this title and class is the loading screen.
pub fn is_loading_screen(title: &str, class: Option<&str>) -> (r: bool)
    ensures
        r == (title@ == LOADING_TITLE@ && (class matches Some(c) && is_prefix(WRAPPER_CLASS@, c@))),
{
    if !str_eq(title, LOADING_TITLE) {
        return false;
    }
    match class {
        Some(c) => starts_with(c, WRAPPER_CLASS),
        None => false,
    }
}


/// Two launches with no loading screen seen between them are a cooldown apart: a poll that
/// follows a launch fires again only once the cooldown has passed.
pub proof fn lemma_launches_spaced(s: LaunchState, t1: u64, t2: u64, up: bool)
    requires
        spec_launch_step(s, t1, true, false, false).1 == LaunchStep::Launch,
        spec_launch_step(spec_launch_step(s, t1, true, false, false).0, t2, true, up, false).1 == LaunchStep::Launch,
    ensures
        t2 >= t1 + LAUNCH_RETRY_COOLDOWN_MS,
{
}

/// Once MAA is gone no poll launches anything.
pub proof fn lemma_no_launch_without_maa(s: LaunchState, now: u64, up: bool, loading: bool)
    ensures
        spec_launch_step(s, now, false, up, loading).1 is Stop,
        spec_launch_step(s, now, false, up, loading).0 == s,
{
}

} // verus!
