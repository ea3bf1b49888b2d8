//! The minitouch protocol the client drives touches with, played onto the game window as mouse
//! messages. One touch at a time: contact 0 is the mouse.
//!
//! The caller reads lines, hands each to `parse_line`, and runs the commands: a commit or a reset
//! goes through `TouchState`, which answers with the messages to post.

use vstd::prelude::*;

use crate::text::{parse_i32, parse_u64, spec_parse_i32, spec_parse_u64, split_whitespace, str_eq, string_views, words};

verus! {

/// How long a hold may last before the touch it interrupted is given up, in nanoseconds.
pub const RESUME_LIMIT_NS: u64 = 500_000_000;

/// What a key line asks.
#[derive(Clone, Copy, PartialEq, Eq, Structural, Debug)]
pub enum KeyAction {
    Down,
    Up,
    Other,
}

/// One protocol line.
#[derive(Clone, Copy, PartialEq, Eq, Structural, Debug)]
pub enum TouchCommand {
    /// `d` or `m` for contact 0: the touch is at this display point
    Contact { x: i32, y: i32 },
    /// `u` for contact 0: the touch lifts
    Lift,
    /// `w` with a positive number of milliseconds
    Wait(u64),
    /// `c`: play what the touch did since the last commit
    Commit,
    /// `r`: let go of everything
    Reset,
    /// `k <keycode> <action>`
    Key { keycode: i32, action: KeyAction },
    /// anything else, or a line for another contact
    Ignored,
}

/// A number as the protocol reads it: what `str::parse` gives, or `default` where it fails.
pub open spec fn int_or(w: Seq<char>, default: i32) -> i32 {
    match spec_parse_i32(w) {
        Some(v) => v,
        None => default,
    }
}

pub open spec fn spec_parse_words(ws: Seq<Seq<char>>) -> TouchCommand {
    if ws.len() == 0 {
        TouchCommand::Ignored
    } else if ws[0] == "d"@ || ws[0] == "m"@ {
        if ws.len() >= 4 && int_or(ws[1], -1i32) == 0 {
            TouchCommand::Contact { x: int_or(ws[2], 0), y: int_or(ws[3], 0) }
        } else {
            TouchCommand::Ignored
        }
    } else if ws[0] == "u"@ {
        if ws.len() >= 2 && int_or(ws[1], -1i32) == 0 {
            TouchCommand::Lift
        } else {
            TouchCommand::Ignored
        }
    } else if ws[0] == "w"@ {
        if ws.len() >= 2 && (spec_parse_u64(ws[1]) matches Some(ms) && ms > 0) {
            TouchCommand::Wait(spec_parse_u64(ws[1])->0)
        } else {
            TouchCommand::Ignored
        }
    } else if ws[0] == "c"@ {
        TouchCommand::Commit
    } else if ws[0] == "r"@ {
        TouchCommand::Reset
    } else if ws[0] == "k"@ && ws.len() >= 3 {
        TouchCommand::Key {
            keycode: int_or(ws[1], 0),
            action: if ws[2] == "d"@ {
                KeyAction::Down
            } else if ws[2] == "u"@ {
                KeyAction::Up
            } else {
                KeyAction::Other
            },
        }
    } else {
        TouchCommand::Ignored
    }
}

/// What a line of the protocol asks, its words split at whitespace.
pub open spec fn spec_parse_line(line: Seq<char>) -> TouchCommand {
    spec_parse_words(words(line))
}

fn int_or_exec(w: &String, default: i32) -> (r: i32)
    ensures
        r == int_or(w@, default),
{
    match parse_i32(w.as_str()) {
        Some(v) => v,
        None => default,
    }
}

pub fn parse_line(line: &str) -> (r: TouchCommand)
    ensures
        r == spec_parse_line(line@),
{
    let ws = split_whitespace(line);
    let ghost v = string_views(ws@);
    if ws.len() == 0 {
        return TouchCommand::Ignored;
    }
    proof {
        assert forall|k: int| 0 <= k < ws@.len() implies #[trigger] v[k] == ws@[k]@ by {}
    }
    let head = ws[0].as_str();
    if str_eq(head, "d") || str_eq(head, "m") {
        if ws.len() >= 4 && int_or_exec(&ws[1], -1) == 0 {
            TouchCommand::Contact { x: int_or_exec(&ws[2], 0), y: int_or_exec(&ws[3], 0) }
        } else {
            TouchCommand::Ignored
        }
    } else if str_eq(head, "u") {
        if ws.len() >= 2 && int_or_exec(&ws[1], -1) == 0 {
            TouchCommand::Lift
        } else {
            TouchCommand::Ignored
        }
    } else if str_eq(head, "w") {
        if ws.len() >= 2 {
            match parse_u64(ws[1].as_str()) {
                Some(ms) => if ms > 0 {
                    TouchCommand::Wait(ms)
                } else {
                    TouchCommand::Ignored
                },
                None => TouchCommand::Ignored,
            }
        } else {
            TouchCommand::Ignored
        }
    } else if str_eq(head, "c") {
        TouchCommand::Commit
    } else if str_eq(head, "r") {
        TouchCommand::Reset
    } else if str_eq(head, "k") && ws.len() >= 3 {
        let action = if str_eq(ws[2].as_str(), "d") {
            KeyAction::Down
        } else if str_eq(ws[2].as_str(), "u") {
            KeyAction::Up
        } else {
            KeyAction::Other
        };
        TouchCommand::Key { keycode: int_or_exec(&ws[1], 0), action }
    } else {
        TouchCommand::Ignored
    }
}


/// A message to post to the game window, at a packed client point.
pub enum TouchEffect {
    Move(isize),
    Press(isize),
    Release(isize),
    /// a held touch was given up after a hold; `resized` says why: the window changed size,
    /// rather than the hold outlasting the limit or the window going
    Discarded { resized: bool },
    /// the touch ended: its path, for the debug overlay
    Finished(Vec<(i32, i32)>),
}

pub enum TouchEffectView {
    Move(isize),
    Press(isize),
    Release(isize),
    Discarded { resized: bool },
    Finished(Seq<(i32, i32)>),
}

impl View for TouchEffect {
    type V = TouchEffectView;

    open spec fn view(&self) -> TouchEffectView {
        match self {
            TouchEffect::Move(p) => TouchEffectView::Move(*p),
            TouchEffect::Press(p) => TouchEffectView::Press(*p),
            TouchEffect::Release(p) => TouchEffectView::Release(*p),
            TouchEffect::Discarded { resized } => TouchEffectView::Discarded { resized: *resized },
            TouchEffect::Finished(path) => TouchEffectView::Finished(path@),
        }
    }
}

pub open spec fn effects_view(v: Seq<TouchEffect>) -> Seq<TouchEffectView> {
    v.map_values(|e: TouchEffect| e@)
}

/// What the caller saw before a commit, and the packed client points it worked out for it
/// (scaling a display point to the window is floating-point work it does itself).
#[derive(Clone, Copy)]
pub struct CommitObservation {
    /// how long the window's modal loop held the commit, in nanoseconds; `None` where the loop
    /// never ended and the window was let go
    pub held_ns: Option<u64>,
    /// whether a window is there to post to, after any hold
    pub window_present: bool,
    /// whether the hold changed the window's client size
    pub resized: bool,
    /// the packed point of the touch path's last point, or of (0, 0) with no path
    pub path_end: isize,
    /// the packed point of the current touch position, if there is one
    pub current: isize,
}

/// The touch being played, and the last point it was sent at.
pub struct TouchState {
    pub current_pos: Option<(i32, i32)>,
    pub is_down: bool,
    pub last_relative_pos: isize,
    pub touch_path: Vec<(i32, i32)>,
}

pub struct TouchView {
    pub current_pos: Option<(i32, i32)>,
    pub is_down: bool,
    pub last_relative_pos: isize,
    pub touch_path: Seq<(i32, i32)>,
}

impl View for TouchState {
    type V = TouchView;

    open spec fn view(&self) -> TouchView {
        TouchView {
            current_pos: self.current_pos,
            is_down: self.is_down,
            last_relative_pos: self.last_relative_pos,
            touch_path: self.touch_path@,
        }
    }
}

/// A touch is down exactly while it has a path.
pub open spec fn touch_wf(s: TouchView) -> bool {
    s.is_down == (s.touch_path.len() > 0)
}

/// The touch let go of: up, no path.
pub open spec fn released(s: TouchView) -> TouchView {
    TouchView { is_down: false, touch_path: Seq::empty(), ..s }
}

/// A hold that paused a held touch: give the touch up when the window is gone, resized, or the
/// hold ran too long; otherwise nudge it where it was.
pub open spec fn spec_after_hold(s: TouchView, obs: CommitObservation, held: u64) -> (TouchView, Seq<TouchEffectView>) {
    if held == 0 || !s.is_down {
        (s, Seq::empty())
    } else {
        let discard = !obs.window_present || obs.resized || held >= RESUME_LIMIT_NS;
        if discard {
            let effects = if obs.window_present {
                seq![
                    TouchEffectView::Move(obs.path_end),
                    TouchEffectView::Release(obs.path_end),
                    TouchEffectView::Discarded { resized: obs.resized },
                ]
            } else {
                Seq::empty()
            };
            let last = if obs.window_present { obs.path_end } else { s.last_relative_pos };
            (TouchView { last_relative_pos: last, ..released(s) }, effects)
        } else {
            (s, seq![TouchEffectView::Move(s.last_relative_pos)])
        }
    }
}

/// The touch's move since the last commit, played on a present window.
pub open spec fn spec_play(s: TouchView, current: isize) -> (TouchView, Seq<TouchEffectView>) {
    match s.current_pos {
        Some(p) => if !s.is_down {
            (
                TouchView { is_down: true, touch_path: seq![p], last_relative_pos: current, ..s },
                seq![TouchEffectView::Move(current), TouchEffectView::Press(current)],
            )
        } else if current != s.last_relative_pos {
            (
                TouchView { touch_path: s.touch_path.push(p), last_relative_pos: current, ..s },
                seq![TouchEffectView::Move(current)],
            )
        } else {
            (s, Seq::empty())
        },
        None => if s.is_down {
            (
                released(s),
                seq![
                    TouchEffectView::Move(s.last_relative_pos),
                    TouchEffectView::Release(s.last_relative_pos),
                    TouchEffectView::Finished(s.touch_path),
                ],
            )
        } else {
            (s, Seq::empty())
        },
    }
}

/// A commit: see `TouchState::commit`.
pub open spec fn spec_commit(s: TouchView, obs: CommitObservation) -> (TouchView, Seq<TouchEffectView>) {
    match obs.held_ns {
        None => (released(s), Seq::empty()),
        Some(held) => {
            let (s1, e1) = spec_after_hold(s, obs, held);
            if !obs.window_present {
                (released(s1), e1)
            } else {
                let (s2, e2) = spec_play(s1, obs.current);
                (s2, e1 + e2)
            }
        },
    }
}

/// A reset: a held touch is released where it was, if there is a window to release it on, and
/// everything is forgotten.
pub open spec fn spec_reset(s: TouchView, window_present: bool) -> (TouchView, Seq<TouchEffectView>) {
    let effects = if s.is_down && window_present {
        seq![TouchEffectView::Move(s.last_relative_pos), TouchEffectView::Release(s.last_relative_pos)]
    } else {
        Seq::empty()
    };
    (TouchView { current_pos: None, ..released(s) }, effects)
}

/// Follows the button through `effects` from `down`: `None` where a press comes while it is down
/// or a release while it is up, else where it ends.
pub open spec fn button_after(down: bool, effects: Seq<TouchEffectView>) -> Option<bool>
    decreases effects.len(),
{
    if effects.len() == 0 {
        Some(down)
    } else {
        let next = match effects[0] {
            TouchEffectView::Press(_) => if down {
                None
            } else {
                Some(true)
            },
            TouchEffectView::Release(_) => if down {
                Some(false)
            } else {
                None
            },
            _ => Some(down),
        };
        match next {
            None => None,
            Some(d) => button_after(d, effects.drop_first()),
        }
    }
}

impl TouchState {
    pub fn new() -> (r: TouchState)
        ensures
            r@ == (TouchView { current_pos: None, is_down: false, last_relative_pos: 0, touch_path: Seq::empty() }),
            touch_wf(r@),
    {
        TouchState { current_pos: None, is_down: false, last_relative_pos: 0, touch_path: Vec::new() }
    }

    /// `d`/`m` and `u` for contact 0: where the touch is now, or that it lifted.
    pub fn set_position(&mut self, pos: Option<(i32, i32)>)
        ensures
            final(self)@ == (TouchView { current_pos: pos, ..old(self)@ }),
    {
        self.current_pos = pos;
    }

    fn release(&mut self)
        ensures
            final(self)@ == released(old(self)@),
    {
        self.is_down = false;
        self.touch_path.clear();
    }

    /// Plays a commit. With no end to the window's modal loop the touch is let go without a
    /// message. After a hold, a held touch is given up (released at its path's end) when the
    /// window went, was resized or the hold passed the limit, and nudged otherwise. With a window,
    /// the touch then presses, moves (only when its point changed) or releases.
    pub fn commit(&mut self, obs: CommitObservation) -> (r: Vec<TouchEffect>)
        ensures
            (final(self)@, effects_view(r@)) == spec_commit(old(self)@, obs),
    {
        let mut effects: Vec<TouchEffect> = Vec::new();
        let held = match obs.held_ns {
            None => {
                self.release();
                assert(effects_view(effects@) =~= Seq::<TouchEffectView>::empty());
                return effects;
            },
            Some(h) => h,
        };
        let ghost s0 = self@;
        if held != 0 && self.is_down {
            let discard = !obs.window_present || obs.resized || held >= RESUME_LIMIT_NS;
            if discard {
                if obs.window_present {
                    self.last_relative_pos = obs.path_end;
                    effects.push(TouchEffect::Move(obs.path_end));
                    effects.push(TouchEffect::Release(obs.path_end));
                    effects.push(TouchEffect::Discarded { resized: obs.resized });
                }
                self.release();
            } else {
                effects.push(TouchEffect::Move(self.last_relative_pos));
            }
        }
        let ghost s1 = self@;
        let ghost e1 = effects_view(effects@);
        assert((s1, e1) == spec_after_hold(s0, obs, held)) by {
            assert(effects_view(effects@) =~= spec_after_hold(s0, obs, held).1);
        }
        if !obs.window_present {
            self.release();
            return effects;
        }
        let mut more: Vec<TouchEffect> = Vec::new();
        match self.current_pos {
            Some(p) => {
                let pos = obs.current;
                if !self.is_down {
                    more.push(TouchEffect::Move(pos));
                    more.push(TouchEffect::Press(pos));
                    self.is_down = true;
                    self.touch_path.clear();
                    self.touch_path.push(p);
                } else if pos != self.last_relative_pos {
                    self.touch_path.push(p);
                    more.push(TouchEffect::Move(pos));
                }
                self.last_relative_pos = pos;
            },
            None => {
                if self.is_down {
                    let last = self.last_relative_pos;
                    more.push(TouchEffect::Move(last));
                    more.push(TouchEffect::Release(last));
                    let mut path: Vec<(i32, i32)> = Vec::new();
                    std::mem::swap(&mut path, &mut self.touch_path);
                    more.push(TouchEffect::Finished(path));
                    self.release();
                }
            },
        }
        proof {
            let (s2, e2) = spec_play(s1, obs.current);
            assert(self@.touch_path =~= s2.touch_path);
            assert(effects_view(more@) =~= e2);
        }
        let ghost first = effects@;
        effects.append(&mut more);
        proof {
            assert(effects_view(effects@) =~= effects_view(first) + spec_play(s1, obs.current).1);
        }
        effects
    }

    /// Plays a reset: see `spec_reset`.
    pub fn reset(&mut self, window_present: bool) -> (r: Vec<TouchEffect>)
        ensures
            (final(self)@, effects_view(r@)) == spec_reset(old(self)@, window_present),
    {
        let mut effects: Vec<TouchEffect> = Vec::new();
        if self.is_down && window_present {
            effects.push(TouchEffect::Move(self.last_relative_pos));
            effects.push(TouchEffect::Release(self.last_relative_pos));
        }
        let ghost e = effects_view(effects@);
        assert(e =~= spec_reset(self@, window_present).1);
        self.current_pos = None;
        self.release();
        effects
    }
}

/// Every commit keeps a touch down exactly while it has a path.
pub proof fn lemma_commit_keeps_wf(s: TouchView, obs: CommitObservation)
    requires
        touch_wf(s),
    ensures
        touch_wf(spec_commit(s, obs).0),
{
}

/// A commit never presses a button already down or releases one already up; while the window
/// stays, the button ends where the state says. (A window that goes takes its button with it:
/// the touch is then forgotten without a message.)
pub proof fn lemma_commit_button_alternates(s: TouchView, obs: CommitObservation)
    requires
        touch_wf(s),
    ensures
        button_after(s.is_down, spec_commit(s, obs).1) is Some,
        (obs.held_ns is Some && obs.window_present) ==> button_after(s.is_down, spec_commit(s, obs).1) == Some(
            spec_commit(s, obs).0.is_down,
        ),
{
    reveal_with_fuel(button_after, 7);
    match obs.held_ns {
        None => {},
        Some(held) => {
            let (s1, e1) = spec_after_hold(s, obs, held);
            if obs.window_present {
                let (s2, e2) = spec_play(s1, obs.current);
                lemma_button_after_concat(s.is_down, e1, e2);
            }
        },
    }
}

/// A reset releases only a button that is down, on a window that is there, and leaves the touch
/// up and forgotten.
pub proof fn lemma_reset_button_up(s: TouchView, window_present: bool)
    ensures
        button_after(s.is_down, spec_reset(s, window_present).1) is Some,
        window_present ==> button_after(s.is_down, spec_reset(s, window_present).1) == Some(false),
        !spec_reset(s, window_present).0.is_down,
        spec_reset(s, window_present).0.current_pos is None,
        touch_wf(spec_reset(s, window_present).0),
{
    reveal_with_fuel(button_after, 3);
}

proof fn lemma_button_after_concat(down: bool, a: Seq<TouchEffectView>, b: Seq<TouchEffectView>)
    ensures
        button_after(down, a + b) == match button_after(down, a) {
            None => None,
            Some(d) => button_after(d, b),
        },
    decreases a.len(),
{
    if a.len() == 0 {
        assert(a + b =~= b);
    } else {
        assert((a + b).drop_first() =~= a.drop_first() + b);
        assert((a + b)[0] == a[0]);
        let next = match a[0] {
            TouchEffectView::Press(_) => if down {
                None
            } else {
                Some(true)
            },
            TouchEffectView::Release(_) => if down {
                Some(false)
            } else {
                None
            },
            _ => Some(down),
        };
        match next {
            None => {},
            Some(d) => lemma_button_after_concat(d, a.drop_first(), b),
        }
    }
}

/// A touch held down through a hold is given up when the window changed size or the hold ran
/// past the limit: on the present window it is moved to the path's end and released there, the
/// drop is reported with its reason, and the touch no longer stays down from before.
/// Otherwise, after a short hold on an unchanged window, it is nudged where it was.
pub proof fn lemma_hold_gives_up_resized_or_long_touch(s: TouchView, obs: CommitObservation, held: u64)
    requires
        obs.held_ns == Some(held),
        held != 0,
        s.is_down,
        obs.window_present,
    ensures
        (obs.resized || held >= RESUME_LIMIT_NS) ==> ({
            let (t, e) = spec_commit(s, obs);
            &&& e.len() >= 3
            &&& e.subrange(0, 3) == seq![
                TouchEffectView::Move(obs.path_end),
                TouchEffectView::Release(obs.path_end),
                TouchEffectView::Discarded { resized: obs.resized },
            ]
            &&& (t.is_down ==> e.contains(TouchEffectView::Press(obs.current)))
        }),
        (!obs.resized && held < RESUME_LIMIT_NS) ==> ({
            let (t, e) = spec_commit(s, obs);
            &&& e.len() >= 1
            &&& e[0] == TouchEffectView::Move(s.last_relative_pos)
            &&& s.current_pos is Some ==> t.is_down && forall|i: int| 0 <= i < e.len() ==> !(#[trigger] e[i] is Release)
        }),
{
    let (s1, e1) = spec_after_hold(s, obs, held);
    let (s2, e2) = spec_play(s1, obs.current);
    assert(spec_commit(s, obs) == (s2, e1 + e2));
    if obs.resized || held >= RESUME_LIMIT_NS {
        assert((e1 + e2).subrange(0, 3) =~= e1);
        if s2.is_down {
            assert((e1 + e2)[4] == TouchEffectView::Press(obs.current));
        }
    } else {
        assert((e1 + e2)[0] == TouchEffectView::Move(s.last_relative_pos));
        if s.current_pos is Some {
            assert forall|i: int| 0 <= i < (e1 + e2).len() implies !((e1 + e2)[i] is Release) by {
                if i >= 1 {
                    assert((e1 + e2)[i] == e2[i - 1]);
                }
            }
        }
    }
}

} // verus!
