//! What PlayBridge reads of MAA: the client its GUI configuration (`config/gui.new.json`) sets,
//! its parent process, and whether it is still running.

use vstd::prelude::*;

use crate::sys::json::{json_str_path, json_str_path_at, string_views};

verus! {

pub open spec fn opt_view(o: Option<String>) -> Option<Seq<char>> {
    match o {
        Some(s) => Some(s@),
        None => None,
    }
}

/// The client type MAA's GUI configuration text sets: the name under `Current`, then
/// `Configurations.<that name>.Gui.RuntimeSettings.ClientType`.
pub open spec fn spec_client_type(text: Seq<char>) -> Option<Seq<char>> {
    match json_str_path_at(text, seq!["Current"@]) {
        Some(current) => json_str_path_at(
            text,
            seq!["Configurations"@, current, "Gui"@, "RuntimeSettings"@, "ClientType"@],
        ),
        None => None,
    }
}

/// `Configurations[<Current>].Gui.RuntimeSettings.ClientType` of the GUI configuration `text`;
/// `None` where the text is not JSON or any step is missing or not a string.
pub fn client_type(text: &str) -> (r: Option<String>)
    ensures
        opt_view(r) == spec_client_type(text@),
{
    let current_path = vec![String::from_str("Current")];
    proof {
        assert(string_views(current_path@) =~= seq!["Current"@]);
    }
    let current = match json_str_path(text, &current_path) {
        Some(c) => c,
        None => return None,
    };
    let ghost current_view = current@;
    let path = vec![
        String::from_str("Configurations"),
        current,
        String::from_str("Gui"),
        String::from_str("RuntimeSettings"),
        String::from_str("ClientType"),
    ];
    proof {
        assert(string_views(path@) =~= seq![
            "Configurations"@,
            current_view,
            "Gui"@,
            "RuntimeSettings"@,
            "ClientType"@,
        ]);
    }
    json_str_path(text, &path)
}


/// The parent of process `pid` in a process snapshot of (process id, parent id) entries, walked
/// in order: the first entry for `pid` decides.
pub open spec fn spec_parent_in(entries: Seq<(u32, u32)>, pid: u32) -> Option<u32>
    decreases entries.len(),
{
    if entries.len() == 0 {
        None
    } else if entries[0].0 == pid {
        Some(entries[0].1)
    } else {
        spec_parent_in(entries.drop_first(), pid)
    }
}

pub fn parent_in(entries: &[(u32, u32)], pid: u32) -> (r: Option<u32>)
    ensures
        r == spec_parent_in(entries@, pid),
{
    let mut k: usize = 0;
    assert(entries@.subrange(0, entries@.len() as int) =~= entries@);
    while k < entries.len()
        invariant
            k <= entries@.len(),
            spec_parent_in(entries@, pid) == spec_parent_in(entries@.subrange(k as int, entries@.len() as int), pid),
        decreases entries@.len() - k,
    {
        proof {
            let rest = entries@.subrange(k as int, entries@.len() as int);
            assert(rest[0] == entries@[k as int]);
            assert(rest.drop_first() =~= entries@.subrange(k + 1, entries@.len() as int));
        }
        if entries[k].0 == pid {
            return Some(entries[k].1);
        }
        k += 1;
    }
    None
}

/// Whether the MAA that ran `devices` is still there. `stored_pid` is the id it published (0:
/// none); `waited` is `None` where its process could not be opened, else whether a zero-time wait
/// on it timed out. An unknown or unreadable id reports alive, so a failed lookup never ends a
/// daemon on its own: only a process seen to have exited reports gone.
pub fn maa_alive(stored_pid: u32, waited: Option<bool>) -> (r: bool)
    ensures
        r == (stored_pid == 0 || waited != Some(false)),
{
    if stored_pid == 0 {
        return true;
    }
    match waited {
        None => true,
        Some(timed_out) => timed_out,
    }
}

} // verus!
