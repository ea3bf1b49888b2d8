//! The shape of a log line. The log is one file shared by every process, drawn as nested blocks:
//! a call opens a block and closes it, and the depth of the open blocks is kept in the registry.

use vstd::prelude::*;

use crate::text::push_char;

verus! {

#[derive(Clone, Copy, PartialEq, Eq, Structural, Debug)]
pub enum LogLevel {
    Info,
    Warn,
    Error,
    Update,
}

#[derive(Clone, Copy, PartialEq, Eq, Structural, Debug)]
pub enum LogMode {
    /// opens a block
    Start,
    /// closes a block
    End,
    /// a line inside the current block
    Plain,
}

pub open spec fn spec_level_tag(level: LogLevel) -> Seq<char> {
    match level {
        LogLevel::Info | LogLevel::Update => "INF"@,
        LogLevel::Warn => "WRN"@,
        LogLevel::Error => "ERR"@,
    }
}

/// The three-letter tag of a level.
pub fn level_tag(level: LogLevel) -> (r: &'static str)
    ensures
        r@ == spec_level_tag(level),
{
    match level {
        LogLevel::Info | LogLevel::Update => "INF",
        LogLevel::Warn => "WRN",
        LogLevel::Error => "ERR",
    }
}

/// The depth after shifting by `delta`, never below zero. The stored depth is read as a signed
/// number, as it was written.
pub open spec fn spec_shift_depth(depth: u32, delta: i32) -> u32 {
    let d = (depth as i32) + delta;
    if d < 0 {
        0
    } else {
        d as u32
    }
}

pub fn shift_depth(depth: u32, delta: i32) -> (r: u32)
    requires
        i32::MIN <= (depth as i32) + delta <= i32::MAX,
    ensures
        r == spec_shift_depth(depth, delta),
{
    let d = (#[verifier::truncate] (depth as i32)) + delta;
    if d < 0 {
        0
    } else {
        d as u32
    }
}

/// The message on one line: newlines and tabs become spaces.
pub open spec fn flatten(m: Seq<char>) -> Seq<char> {
    m.map_values(|c: char| if c == '\n' || c == '\t' { ' ' } else { c })
}

pub open spec fn indent(depth: nat) -> Seq<char> {
    Seq::new(depth, |i: int| '│')
}

pub open spec fn mode_marker(mode: LogMode) -> Seq<char> {
    match mode {
        LogMode::Plain => " "@,
        LogMode::Start => "┌ "@,
        LogMode::End => "└ "@,
    }
}

/// `[<time>][<tag>]<one bar per open block><marker><message>`.
pub open spec fn spec_log_line(now: Seq<char>, level: LogLevel, mode: LogMode, depth: u32, message: Seq<char>) -> Seq<
    char,
> {
    "["@ + now + "]["@ + spec_level_tag(level) + "]"@ + indent(depth as nat) + mode_marker(mode) + flatten(message)
}

/// One log line. `depth` is the depth to draw at: a block's closing line is drawn after its
/// depth was shifted back, so both lines of a block sit at the outer depth.
pub fn log_line(now: &str, level: LogLevel, mode: LogMode, depth: u32, message: &str) -> (r: String)
    ensures
        r@ == spec_log_line(now@, level, mode, depth, message@),
{
    let mut s = String::new();
    s.append("[");
    s.append(now);
    s.append("][");
    s.append(level_tag(level));
    s.append("]");
    let mut k: u32 = 0;
    while k < depth
        invariant
            k <= depth,
            s@ == "["@ + now@ + "]["@ + spec_level_tag(level) + "]"@ + indent(k as nat),
        decreases depth - k,
    {
        push_char(&mut s, '│');
        k += 1;
        assert(indent(k as nat) =~= indent((k - 1) as nat).push('│'));
    }
    match mode {
        LogMode::Plain => s.append(" "),
        LogMode::Start => s.append("┌ "),
        LogMode::End => s.append("└ "),
    }
    let n = message.unicode_len();
    let ghost base = s@;
    let mut i: usize = 0;
    while i < n
        invariant
            n == message@.len(),
            i <= n,
            s@ == base + flatten(message@.subrange(0, i as int)),
        decreases n - i,
    {
        let c = message.get_char(i);
        push_char(&mut s, if c == '\n' || c == '\t' { ' ' } else { c });
        i += 1;
        assert(flatten(message@.subrange(0, i as int)) =~= flatten(message@.subrange(0, i - 1)).push(
            if c == '\n' || c == '\t' { ' ' } else { c },
        ));
    }
    assert(message@.subrange(0, n as int) =~= message@);
    assert(s@ =~= spec_log_line(now@, level, mode, depth, message@));
    s
}

/// What a one-shot call that printed nothing leaves in the log: an empty reply arrow, so the
/// log still shows the call was answered.
pub fn log_silent_reply(replied: bool) -> (r: Option<&'static str>)
    ensures
        r matches Some(m) ==> m@ == "→"@,
        r is None <==> replied,
{
    if replied {
        None
    } else {
        Some("→")
    }
}


/// The depth a reset stores: zero. The stored depth outlives a process killed with a block open,
/// and a reboot after it, so it is reset when no daemon is left to hold a block open.
pub fn reset_log_depth() -> (r: u32)
    ensures
        r == 0,
{
    0
}

/// For a line of `mode` with `stored` blocks open: the depth it is drawn at and the depth stored
/// after it. A block's lines are both drawn at the outer depth, so a closing line shifts the
/// depth before it is drawn and an opening line after.
pub open spec fn spec_line_depths(mode: LogMode, stored: u32) -> (u32, u32) {
    match mode {
        LogMode::End => (spec_shift_depth(stored, -1i32), spec_shift_depth(stored, -1i32)),
        LogMode::Start => (stored, spec_shift_depth(stored, 1i32)),
        LogMode::Plain => (stored, stored),
    }
}

pub fn line_depths(mode: LogMode, stored: u32) -> (r: (u32, u32))
    requires
        mode == LogMode::End ==> (stored as i32) > i32::MIN,
        mode == LogMode::Start ==> (stored as i32) < i32::MAX,
    ensures
        r == spec_line_depths(mode, stored),
{
    match mode {
        LogMode::End => {
            let d = shift_depth(stored, -1);
            (d, d)
        },
        LogMode::Start => (stored, shift_depth(stored, 1)),
        LogMode::Plain => (stored, stored),
    }
}

/// A block's opening and closing lines are drawn at the same depth, and closing it gives back
/// the depth it was opened at; a line inside is drawn one deeper.
pub proof fn lemma_block_balanced(stored: u32)
    requires
        stored < i32::MAX,
    ensures
        ({
            let (open_at, inside) = spec_line_depths(LogMode::Start, stored);
            let (plain_at, _) = spec_line_depths(LogMode::Plain, inside);
            let (close_at, after) = spec_line_depths(LogMode::End, inside);
            &&& open_at == close_at
            &&& after == stored
            &&& plain_at == stored + 1
        }),
{
}


/// A block opened and closed with `stored` blocks already open draws its two lines at that
/// depth, one bar per open block, with the opening and closing markers and each message on one
/// line, and leaves `stored` blocks open.
pub proof fn lemma_block_lines(
    stored: u32,
    t1: Seq<char>,
    l1: LogLevel,
    m1: Seq<char>,
    t2: Seq<char>,
    l2: LogLevel,
    m2: Seq<char>,
)
    requires
        stored < i32::MAX,
    ensures
        ({
            let (open_at, inside) = spec_line_depths(LogMode::Start, stored);
            let (close_at, after) = spec_line_depths(LogMode::End, inside);
            &&& spec_log_line(t1, l1, LogMode::Start, open_at, m1) == "["@ + t1 + "]["@ + spec_level_tag(l1)
                + "]"@ + Seq::new(stored as nat, |i: int| '│') + "┌ "@ + flatten(m1)
            &&& spec_log_line(t2, l2, LogMode::End, close_at, m2) == "["@ + t2 + "]["@ + spec_level_tag(l2)
                + "]"@ + Seq::new(stored as nat, |i: int| '│') + "└ "@ + flatten(m2)
            &&& after == stored
        }),
{
    lemma_block_balanced(stored);
}

/// The size, in bytes, at which the log is moved aside to a backup and started afresh.
pub const MAX_LOG_FILE_SIZE: u64 = 1024 * 1024;

/// Whether a log of `len` bytes is due to be rotated.
pub fn rotation_due(len: u64) -> (r: bool)
    ensures
        r == (len >= MAX_LOG_FILE_SIZE),
{
    len >= MAX_LOG_FILE_SIZE
}

} // verus!
