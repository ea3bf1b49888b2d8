//! The game window's state, which the capture daemon owns along with its pixels.
//!
//! Capture stops the moment a window is really minimized, so the daemon fakes the minimize: the
//! window stays restored but is parked just below the virtual desktop. Only Y moves, so the
//! taskbar button stays on its monitor. `ParkState` is the state machine behind that; the caller
//! observes the window, carries out the effects, and reports back.

use vstd::prelude::*;

use crate::text::{
    chars_of, lemma_decimal_reads_back, parse_i32, push_char, push_signed_decimal, signed_decimal, spec_parse_i32,
    decimal, all_digits, is_digit,
};

verus! {

/// Pixels between the bottom of the virtual desktop and a parked window.
pub const PARK_MARGIN: i32 = 32;

/// The packed value that means "no return point".
pub const PARK_RETURN_NONE: i64 = i64::MIN;

pub open spec fn spec_pack_point(x: i32, y: i32) -> i64 {
    (((x as u32 as u64) << 32u64) | (y as u32 as u64)) as i64
}

pub open spec fn spec_unpack_point(v: i64) -> (i32, i32) {
    ((((v as u64) >> 32u64) as u32) as i32, ((v as u64) as u32) as i32)
}

/// Packs a point into one 64-bit word, `x` in the high half, so one atomic holds it.
pub fn pack_point(x: i32, y: i32) -> (r: i64)
    ensures
        r == spec_pack_point(x, y),
{
    (((x as u32 as u64) << 32u64) | (y as u32 as u64)) as i64
}

pub fn unpack_point(v: i64) -> (r: (i32, i32))
    ensures
        r == spec_unpack_point(v),
{
    ((((v as u64) >> 32u64) as u32) as i32, ((v as u64) as u32) as i32)
}

/// Unpacking a packed point gives the point back.
pub proof fn lemma_unpack_pack(x: i32, y: i32)
    ensures
        spec_unpack_point(spec_pack_point(x, y)) == (x, y),
{
    assert(((((((x as u32 as u64) << 32u64) | (y as u32 as u64)) as i64 as u64) >> 32u64) as u32) as i32 == x)
        by (bit_vector);
    assert(((((((x as u32 as u64) << 32u64) | (y as u32 as u64)) as i64 as u64) as u32) as i32) == y) by (bit_vector);
}

/// Only the point `(i32::MIN, 0)` packs to the "no return point" marker.
pub proof fn lemma_pack_not_none(x: i32, y: i32)
    requires
        !(x == i32::MIN && y == 0),
    ensures
        spec_pack_point(x, y) != PARK_RETURN_NONE,
{
    lemma_unpack_pack(x, y);
    if spec_pack_point(x, y) == PARK_RETURN_NONE {
        let m: i64 = i64::MIN;
        assert((((m as u64) >> 32u64) as u32) as i32 == i32::MIN) by (bit_vector)
            requires m == i64::MIN;
        assert(((m as u64) as u32) as i32 == 0i32) by (bit_vector)
            requires m == i64::MIN;
    }
}

/// The Y a parked window sits at: just below the bottom of the virtual desktop.
pub fn park_y(virtual_top: i32, virtual_height: i32) -> (r: i32)
    requires
        i32::MIN <= virtual_top + virtual_height + PARK_MARGIN <= i32::MAX,
    ensures
        r == virtual_top + virtual_height + PARK_MARGIN,
{
    let y: i64 = virtual_top as i64 + virtual_height as i64 + PARK_MARGIN as i64;
    y as i32
}

/// An origin as stored: `x,y`. It is text because the origin is negative on any monitor left
/// of the primary one.
pub open spec fn spec_origin_text(x: i32, y: i32) -> Seq<char> {
    signed_decimal(x as int) + seq![','] + signed_decimal(y as int)
}

pub fn origin_text(x: i32, y: i32) -> (r: String)
    ensures
        r@ == spec_origin_text(x, y),
{
    let mut s = String::new();
    push_signed_decimal(&mut s, x as i64);
    push_char(&mut s, ',');
    push_signed_decimal(&mut s, y as i64);
    assert(s@ =~= spec_origin_text(x, y));
    s
}

/// The index of the first `,` in `s`, if any.
pub open spec fn first_comma(s: Seq<char>) -> Option<int>
    decreases s.len(),
{
    if s.len() == 0 {
        None
    } else if s.last() == ',' && !s.drop_last().contains(',') {
        Some(s.len() - 1)
    } else if s.drop_last().contains(',') {
        first_comma(s.drop_last())
    } else {
        None
    }
}

/// A stored origin: split at the first `,`, both halves numbers.
pub open spec fn spec_read_origin(raw: Seq<char>) -> Option<(i32, i32)> {
    match first_comma(raw) {
        Some(k) => match (spec_parse_i32(raw.subrange(0, k)), spec_parse_i32(raw.subrange(k + 1, raw.len() as int))) {
            (Some(x), Some(y)) => Some((x, y)),
            _ => None,
        },
        None => None,
    }
}

proof fn lemma_first_comma(s: Seq<char>, k: int)
    requires
        0 <= k <= s.len(),
        forall|j: int| 0 <= j < k ==> s[j] != ',',
        k == s.len() || s[k] == ',',
    ensures
        first_comma(s) == (if k == s.len() { None } else { Some(k) }),
    decreases s.len(),
{
    if s.len() > 0 {
        let d = s.drop_last();
        if k >= s.len() - 1 {
            assert(!d.contains(',')) by {
                if d.contains(',') {
                    let j = choose|j: int| 0 <= j < d.len() && d[j] == ',';
                    assert(s[j] == ',');
                }
            }
        } else {
            assert(d[k] == ',');
            lemma_first_comma(d, k);
        }
    }
}

/// Reads a stored origin back.
pub fn read_origin(raw: &str) -> (r: Option<(i32, i32)>)
    ensures
        r == spec_read_origin(raw@),
{
    let cs = chars_of(raw);
    let mut k: usize = 0;
    while k < cs.len() && cs[k] != ','
        invariant
            cs@ == raw@,
            k <= cs@.len(),
            forall|j: int| 0 <= j < k ==> cs@[j] != ',',
        decreases cs@.len() - k,
    {
        k += 1;
    }
    proof {
        lemma_first_comma(raw@, k as int);
    }
    if k == cs.len() {
        return None;
    }
    let x = parse_i32(raw.substring_char(0, k))?;
    let y = parse_i32(raw.substring_char(k + 1, cs.len()))?;
    Some((x, y))
}

proof fn lemma_signed_decimal_parses(x: i32)
    ensures
        spec_parse_i32(signed_decimal(x as int)) == Some(x),
        forall|j: int| 0 <= j < signed_decimal(x as int).len() ==> #[trigger] signed_decimal(x as int)[j] != ',',
{
    if x < 0 {
        let m = (-(x as int)) as nat;
        lemma_decimal_reads_back(m);
        let s = signed_decimal(x as int);
        assert(s.drop_first() =~= decimal(m));
        assert(is_digit(decimal(m)[0]));
        assert forall|j: int| 0 <= j < s.len() implies #[trigger] s[j] != ',' by {
            if j > 0 {
                assert(s[j] == decimal(m)[j - 1]);
                assert(is_digit(decimal(m)[j - 1]));
            }
        }
    } else {
        lemma_decimal_reads_back(x as nat);
        let s = signed_decimal(x as int);
        assert(is_digit(s[0]));
        assert(s[0] != '-' && s[0] != '+');
        assert forall|j: int| 0 <= j < s.len() implies #[trigger] s[j] != ',' by {
            assert(is_digit(s[j]));
        }
    }
}

/// Reading back a stored origin gives the origin that was stored.
pub proof fn lemma_read_origin_text(x: i32, y: i32)
    ensures
        spec_read_origin(spec_origin_text(x, y)) == Some((x, y)),
{
    lemma_signed_decimal_parses(x);
    lemma_signed_decimal_parses(y);
    let a = signed_decimal(x as int);
    let b = signed_decimal(y as int);
    let t = spec_origin_text(x, y);
    lemma_first_comma(t, a.len() as int);
    assert(t.subrange(0, a.len() as int) =~= a);
    assert(t.subrange(a.len() + 1int, t.len() as int) =~= b);
}

/// What the window looks like on one maintenance tick.
pub struct WindowObservation {
    /// really minimized
    pub iconic: bool,
    /// the window's top-left corner, if it could be read
    pub origin: Option<(i32, i32)>,
    /// the game is the foreground window
    pub foreground: bool,
    /// the window sits on no monitor at all
    pub off_monitors: bool,
}

/// What a tick asks of the caller.
#[derive(Clone, Copy, PartialEq, Eq, Structural, Debug)]
pub enum ParkEffect {
    /// store this origin as the window's home
    StoreHome(i32, i32),
    /// show the window without activating it, to read a real origin
    Surface,
    /// restore the window below the desktop, at this X; the home is this point
    Park(i32, i32),
    /// move the window back to its home and forget the park
    Unpark(i32, i32),
    /// the earlier move off-screen was dropped: move the window below the desktop again, at this X
    MoveOffscreen(i32),
}

/// The park state machine.
pub struct ParkState {
    home: Option<(i32, i32)>,
    parked: bool,
    /// carries the user's minimize across the pass that surfaces the window to read its origin
    pending_park: bool,
}

pub struct ParkView {
    pub home: Option<(i32, i32)>,
    pub parked: bool,
    pub pending_park: bool,
}

impl View for ParkState {
    type V = ParkView;

    closed spec fn view(&self) -> ParkView {
        ParkView { home: self.home, parked: self.parked, pending_park: self.pending_park }
    }
}

/// A parked window has a home to return to, and a park waits for an origin only while no
/// home is known (so a parked window is never also waiting to park).
pub open spec fn park_wf(v: ParkView) -> bool {
    &&& v.parked ==> v.home is Some
    &&& v.pending_park ==> v.home is None
}

impl ParkState {
    #[verifier::type_invariant]
    spec fn inv(self) -> bool {
        park_wf(self@)
    }
}

/// Remembering an origin as home stores it only when it moved.
pub open spec fn remember(home: Option<(i32, i32)>, origin: (i32, i32)) -> Seq<ParkEffect> {
    if home == Some(origin) {
        Seq::empty()
    } else {
        seq![ParkEffect::StoreHome(origin.0, origin.1)]
    }
}

/// One tick of the park state machine. The minimize check comes first, or a window minimized
/// while parked would fall into the foreground branch and unpark itself. While parked the home is
/// never refreshed: the parked origin would overwrite the real one. And an origin off every
/// monitor is never taken as home, since it is a parked position: a pending park waits for an
/// origin on a monitor.
pub open spec fn spec_park_update(s: ParkView, obs: WindowObservation) -> (ParkView, Seq<ParkEffect>) {
    if obs.iconic {
        match s.home {
            Some((x, y)) => (s, seq![ParkEffect::Park(x, y)]),
            None => (ParkView { pending_park: true, ..s }, seq![ParkEffect::Surface]),
        }
    } else if s.pending_park {
        match obs.origin {
            Some(o) => if obs.off_monitors {
                (s, Seq::empty())
            } else {
                (
                    ParkView { home: Some(o), pending_park: false, ..s },
                    remember(s.home, o) + seq![ParkEffect::Park(o.0, o.1)],
                )
            },
            None => (s, Seq::empty()),
        }
    } else if s.parked {
        if obs.foreground {
            match s.home {
                Some((x, y)) => (ParkView { parked: false, ..s }, seq![ParkEffect::Unpark(x, y)]),
                None => (s, Seq::empty()),
            }
        } else if !obs.off_monitors {
            match s.home {
                Some((x, _)) => (s, seq![ParkEffect::MoveOffscreen(x)]),
                None => (s, Seq::empty()),
            }
        } else {
            (s, Seq::empty())
        }
    } else if !obs.off_monitors {
        match obs.origin {
            Some(o) => (ParkView { home: Some(o), ..s }, remember(s.home, o)),
            None => (s, Seq::empty()),
        }
    } else {
        (s, Seq::empty())
    }
}

/// Appends what remembering `origin` as home asks for.
fn push_remembered(home: Option<(i32, i32)>, origin: (i32, i32), out: &mut Vec<ParkEffect>)
    ensures
        final(out)@ == old(out)@ + remember(home, origin),
{
    if home == Some(origin) {
        assert(old(out)@ + remember(home, origin) =~= old(out)@);
        return;
    }
    out.push(ParkEffect::StoreHome(origin.0, origin.1));
}

impl ParkState {
    /// A fresh state; `stored_home` is the home the previous daemon stored (empty if none), so a
    /// daemon that starts on an already-minimized window can park it straight away.
    pub fn new(stored_home: &str) -> (r: ParkState)
        ensures
            r@ == (ParkView { home: spec_read_origin(stored_home@), parked: false, pending_park: false }),
    {
        ParkState { home: read_origin(stored_home), parked: false, pending_park: false }
    }

    /// One maintenance tick.
    pub fn update(&mut self, obs: &WindowObservation) -> (r: Vec<ParkEffect>)
        ensures
            park_wf(old(self)@),
            park_wf(final(self)@),
            (final(self)@, r@) == spec_park_update(old(self)@, *obs),
    {
        proof {
            use_type_invariant(&*self);
            lemma_park_update_keeps_wf(self@, *obs);
        }
        let mut out: Vec<ParkEffect> = Vec::new();
        let mut home = self.home;
        let mut parked = self.parked;
        let mut pending_park = self.pending_park;
        if obs.iconic {
            match home {
                Some((x, y)) => out.push(ParkEffect::Park(x, y)),
                None => {
                    out.push(ParkEffect::Surface);
                    pending_park = true;
                },
            }
        } else if pending_park {
            if !obs.off_monitors {
                if let Some(origin) = obs.origin {
                    push_remembered(home, origin, &mut out);
                    home = Some(origin);
                    pending_park = false;
                    out.push(ParkEffect::Park(origin.0, origin.1));
                }
            }
        } else if parked {
            if obs.foreground {
                if let Some((x, y)) = home {
                    parked = false;
                    out.push(ParkEffect::Unpark(x, y));
                }
            } else if !obs.off_monitors {
                if let Some((x, _)) = home {
                    out.push(ParkEffect::MoveOffscreen(x));
                }
            }
        } else if !obs.off_monitors {
            if let Some(origin) = obs.origin {
                push_remembered(home, origin, &mut out);
                home = Some(origin);
            }
        }
        assert(out@ =~= spec_park_update(old(self)@, *obs).1);
        *self = ParkState { home, parked, pending_park };
        out
    }

    /// Reports that a `Park` effect moved the window off-screen. Returns whether this started a
    /// park, which is when the park is recorded and the user told; a re-entry means an earlier
    /// pass could not complete the move, so it stays quiet.
    /// A park always has a home: call it only while one is known (`arm_hook`).
    pub fn on_parked(&mut self) -> (first: bool)
        requires
            old(self)@.home is Some,
        ensures
            first == !old(self)@.parked,
            final(self)@ == (ParkView { parked: true, ..old(self)@ }),
    {
        proof {
            use_type_invariant(&*self);
        }
        let first = !self.parked;
        self.parked = true;
        first
    }

    /// Whether the minimize hook is armed for the window (rather than disarmed): parking without
    /// a known home leaves nowhere to return to.
    pub fn arm_hook(&self) -> (r: bool)
        ensures
            r == self@.home is Some,
    {
        self.home.is_some()
    }

    /// On a clean exit: where to put the window back (it is re-minimized there), if it is parked.
    /// The state is unparked either way.
    pub fn restore_on_exit(&mut self) -> (r: Option<(i32, i32)>)
        ensures
            r == (if old(self)@.parked { old(self)@.home } else { None }),
            final(self)@ == (ParkView { parked: false, ..old(self)@ }),
    {
        proof {
            use_type_invariant(&*self);
        }
        let target = if self.parked { self.home } else { None };
        self.parked = false;
        target
    }

    /// With no window left to move back, the park record is dropped; returns whether a park was
    /// thrown away with it, which is worth a warning.
    pub fn discard(&self) -> (r: bool)
        ensures
            r == self@.parked,
    {
        self.parked
    }
}

/// Every tick keeps the park state well formed.
pub proof fn lemma_park_update_keeps_wf(s: ParkView, obs: WindowObservation)
    requires
        park_wf(s),
    ensures
        park_wf(spec_park_update(s, obs).0),
{
}

/// While parked, a tick never changes the window's home: the parked origin would overwrite it.
pub proof fn lemma_park_keeps_home_while_parked(s: ParkView, obs: WindowObservation)
    requires
        park_wf(s),
        s.parked,
    ensures
        spec_park_update(s, obs).0.home == s.home,
{
}

/// A home that changes becomes the origin just read, on a monitor, outside a park, and the
/// tick asks for it to be stored.
pub proof fn lemma_home_changes_to_origin_on_monitor(s: ParkView, obs: WindowObservation)
    requires
        park_wf(s),
    ensures
        spec_park_update(s, obs).0.home != s.home ==> (obs.origin matches Some(o) && spec_park_update(
            s,
            obs,
        ).0.home == Some(o) && !obs.off_monitors && !s.parked && spec_park_update(s, obs).1.contains(
            ParkEffect::StoreHome(o.0, o.1),
        )),
{
    let (t, eff) = spec_park_update(s, obs);
    if t.home != s.home {
        let o = obs.origin->0;
        assert(eff[0] == ParkEffect::StoreHome(o.0, o.1));
    }
}

/// An origin off every monitor never becomes the home.
pub proof fn lemma_offscreen_origin_never_home(s: ParkView, obs: WindowObservation)
    requires
        obs.off_monitors,
    ensures
        spec_park_update(s, obs).0.home == s.home,
{
}

/// A tick never starts a park (only a `Park` move reported through `on_parked` does), ends one
/// only by moving the window back to its home, and a parked window keeps a known home.
pub proof fn lemma_park_update_keeps_record(s: ParkView, obs: WindowObservation)
    requires
        park_wf(s),
    ensures
        spec_park_update(s, obs).0.parked ==> s.parked,
        spec_park_update(s, obs).0.parked ==> spec_park_update(s, obs).0.home is Some,
        s.parked && !spec_park_update(s, obs).0.parked ==> (s.home matches Some((x, y))
            && spec_park_update(s, obs).1 == seq![ParkEffect::Unpark(x, y)]),
{
}

/// A `Park` a tick asks for goes to the home the state holds after the tick, so the park that
/// `on_parked` then records has that home to return to.
pub proof fn lemma_park_goes_to_home(s: ParkView, obs: WindowObservation, x: i32, y: i32)
    requires
        spec_park_update(s, obs).1.contains(ParkEffect::Park(x, y)),
    ensures
        spec_park_update(s, obs).0.home == Some((x, y)),
{
    let eff = spec_park_update(s, obs).1;
    let i = choose|i: int| 0 <= i < eff.len() && eff[i] == ParkEffect::Park(x, y);
    if !obs.iconic && s.pending_park {
        if let Some(o) = obs.origin {
            if !obs.off_monitors {
                let head = remember(s.home, o);
                assert(eff =~= head + seq![ParkEffect::Park(o.0, o.1)]);
                if i < head.len() {
                    assert(eff[i] == head[i]);
                }
            }
        }
    }
}

/// A parked window brought to the foreground goes back to its home.
pub proof fn lemma_foreground_unparks_home(s: ParkView, obs: WindowObservation, x: i32, y: i32)
    requires
        s.parked,
        park_wf(s),
        s.home == Some((x, y)),
        !obs.iconic,
        obs.foreground,
    ensures
        spec_park_update(s, obs) == (ParkView { parked: false, ..s }, seq![ParkEffect::Unpark(x, y)]),
{
}

/// A minimize always wins: with a home known, an iconic window is parked at that home, parked
/// already or not (a parked window minimized again is put back below the desktop), and the state
/// stays as it was.
pub proof fn lemma_minimize_parks_at_home(s: ParkView, obs: WindowObservation, x: i32, y: i32)
    requires
        s.home == Some((x, y)),
        obs.iconic,
    ensures
        spec_park_update(s, obs) == (s, seq![ParkEffect::Park(x, y)]),
{
}

/// Without a home, a minimize surfaces the window to learn one and remembers to park it.
pub proof fn lemma_minimize_without_home_surfaces(s: ParkView, obs: WindowObservation)
    requires
        s.home is None,
        obs.iconic,
    ensures
        spec_park_update(s, obs) == (ParkView { pending_park: true, ..s }, seq![ParkEffect::Surface]),
{
}

/// What a fresh daemon does with a park record left behind: the previous daemon died parked.
#[derive(Clone, Copy, PartialEq, Eq, Structural, Debug)]
pub enum StalePark {
    /// no record
    NoRecord,
    /// a record, but the window is gone
    WindowGone,
    /// the window is already on screen: drop the record
    Drop,
    /// move the window back to this home and drop the record
    MoveBack(i32, i32),
}

pub fn adopt_stale_park(record: Option<(i32, i32)>, window_found: bool, off_monitors: bool) -> (r: StalePark)
    ensures
        r == (match record {
            None => StalePark::NoRecord,
            Some((x, y)) => if !window_found {
                StalePark::WindowGone
            } else if !off_monitors {
                StalePark::Drop
            } else {
                StalePark::MoveBack(x, y)
            },
        }),
{
    match record {
        None => StalePark::NoRecord,
        Some((x, y)) => if !window_found {
            StalePark::WindowGone
        } else if !off_monitors {
            StalePark::Drop
        } else {
            StalePark::MoveBack(x, y)
        },
    }
}


/// Nanoseconds a stale activation must last before it is repaired: a handover to another window
/// passes through the same state.
pub const ACTIVATION_REPAIR_DELAY_NS: u64 = 500_000_000;
/// Repairs tried on one stale activation before giving up.
pub const ACTIVATION_REPAIR_ATTEMPTS: u32 = 3;

/// What a tick of the activation watch asks of the caller.
#[derive(Clone, Copy, PartialEq, Eq, Structural, Debug)]
pub enum ActivationStep {
    /// nothing to do
    Idle,
    /// the activation is healthy again after repairs: worth a line in the log
    Cleared,
    /// deactivate the window through its input queue; this is attempt `n` of the limit
    Repair(u32),
}

/// Watches for a game window that keeps its queue's active window while the foreground is
/// elsewhere: it then never gets another activation, so clicks never reach the guest again.
pub struct ActivationWatch {
    /// since when the activation has been stale, in nanoseconds of a monotonic clock
    pub stale_since_ns: Option<u64>,
    pub repairs: u32,
}

pub open spec fn activation_wf(w: ActivationWatch) -> bool {
    w.repairs <= ACTIVATION_REPAIR_ATTEMPTS
}

pub open spec fn elapsed_ns(now: u64, since: u64) -> int {
    if now >= since {
        now - since
    } else {
        0
    }
}

/// One tick: `stale` says whether the activation is stale now.
pub open spec fn spec_activation_update(w: ActivationWatch, stale: bool, now_ns: u64) -> (ActivationWatch, ActivationStep) {
    if !stale {
        (
            ActivationWatch { stale_since_ns: None, repairs: 0 },
            if w.repairs > 0 {
                ActivationStep::Cleared
            } else {
                ActivationStep::Idle
            },
        )
    } else {
        let since = match w.stale_since_ns {
            Some(t) => t,
            None => now_ns,
        };
        if elapsed_ns(now_ns, since) < ACTIVATION_REPAIR_DELAY_NS || w.repairs >= ACTIVATION_REPAIR_ATTEMPTS {
            (ActivationWatch { stale_since_ns: Some(since), repairs: w.repairs }, ActivationStep::Idle)
        } else {
            // Restarted, so the next attempt waits out the delay again.
            (
                ActivationWatch { stale_since_ns: Some(now_ns), repairs: (w.repairs + 1) as u32 },
                ActivationStep::Repair((w.repairs + 1) as u32),
            )
        }
    }
}

impl ActivationWatch {
    pub fn new() -> (r: ActivationWatch)
        ensures
            r.stale_since_ns is None,
            r.repairs == 0,
    {
        ActivationWatch { stale_since_ns: None, repairs: 0 }
    }

    /// One tick; `stale` says whether the activation is stale now.
    pub fn update(&mut self, stale: bool, now_ns: u64) -> (r: ActivationStep)
        ensures
            (*final(self), r) == spec_activation_update(*old(self), stale, now_ns),
    {
        if !stale {
            let had_repairs = self.repairs > 0;
            self.stale_since_ns = None;
            self.repairs = 0;
            return if had_repairs {
                ActivationStep::Cleared
            } else {
                ActivationStep::Idle
            };
        }
        let since = match self.stale_since_ns {
            Some(t) => t,
            None => now_ns,
        };
        self.stale_since_ns = Some(since);
        let elapsed = if now_ns >= since { now_ns - since } else { 0 };
        if elapsed < ACTIVATION_REPAIR_DELAY_NS || self.repairs >= ACTIVATION_REPAIR_ATTEMPTS {
            return ActivationStep::Idle;
        }
        self.stale_since_ns = Some(now_ns);
        self.repairs = self.repairs + 1;
        ActivationStep::Repair(self.repairs)
    }

    /// The window is gone: forget the stale state.
    pub fn discard(&mut self)
        ensures
            final(self).stale_since_ns is None,
            final(self).repairs == 0,
    {
        self.stale_since_ns = None;
        self.repairs = 0;
    }
}

/// However long an activation stays stale, it is repaired at most the limit's number of times,
/// and repairs are counted one by one.
pub proof fn lemma_repairs_bounded(w: ActivationWatch, stale: bool, now_ns: u64)
    requires
        activation_wf(w),
    ensures
        activation_wf(spec_activation_update(w, stale, now_ns).0),
        spec_activation_update(w, stale, now_ns).1 matches ActivationStep::Repair(n) ==> n == w.repairs + 1 && n
            <= ACTIVATION_REPAIR_ATTEMPTS,
{
}

/// A repair waits out the delay since the activation went stale, or since the last repair.
pub proof fn lemma_repair_waits(w: ActivationWatch, now_ns: u64)
    requires
        activation_wf(w),
        spec_activation_update(w, true, now_ns).1 is Repair,
    ensures
        w.stale_since_ns matches Some(t) && elapsed_ns(now_ns, t) >= ACTIVATION_REPAIR_DELAY_NS,
{
}

} // verus!
