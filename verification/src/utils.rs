//! Checks on the capture's window size and on the debug folder's growth, each remembering what
//! it last reported so a toast is not repeated.

use vstd::prelude::*;

verus! {

/// The smallest window captured without a warning: four fifths of the display size.
pub const MIN_WINDOW_WIDTH: u32 = 1024;
pub const MIN_WINDOW_HEIGHT: u32 = 576;

/// What a window size check reports.
#[derive(Clone, Copy, PartialEq, Eq, Structural, Debug)]
pub enum WindowSizeCheck {
    /// not 16:9
    WrongRatio,
    /// below the smallest size
    TooSmall,
    /// a size seen for the first time: store it and say so
    First,
    /// another size than the one stored: store it and say so
    Changed,
    /// the stored size
    Same,
}

pub open spec fn spec_check_window_size(width: u32, height: u32, distorted: bool, stored: (u32, u32)) -> WindowSizeCheck {
    if distorted {
        WindowSizeCheck::WrongRatio
    } else if width < MIN_WINDOW_WIDTH || height < MIN_WINDOW_HEIGHT {
        WindowSizeCheck::TooSmall
    } else if stored != (width, height) {
        if stored.0 == 0 || stored.1 == 0 {
            WindowSizeCheck::First
        } else {
            WindowSizeCheck::Changed
        }
    } else {
        WindowSizeCheck::Same
    }
}

/// Checks a captured window of `width` x `height`; `distorted` says whether its aspect is off
/// 16:9, and `stored` is the size last stored (zero where none is).
pub fn check_window_size(width: u32, height: u32, distorted: bool, stored: (u32, u32)) -> (r: WindowSizeCheck)
    ensures
        r == spec_check_window_size(width, height, distorted, stored),
{
    if distorted {
        WindowSizeCheck::WrongRatio
    } else if width < MIN_WINDOW_WIDTH || height < MIN_WINDOW_HEIGHT {
        WindowSizeCheck::TooSmall
    } else if stored.0 != width || stored.1 != height {
        if stored.0 == 0 || stored.1 == 0 {
            WindowSizeCheck::First
        } else {
            WindowSizeCheck::Changed
        }
    } else {
        WindowSizeCheck::Same
    }
}

/// Megabytes of debug output between two storage warnings.
pub const WARNING_INTERVAL_MB: u64 = 250;

/// What a look at the debug folder's size asks.
#[derive(Clone, Copy, PartialEq, Eq, Structural, Debug)]
pub enum FolderSizeStep {
    Nothing,
    /// back under the first step: clear the warning mark
    ClearMark,
    /// a new 250 MB step was crossed: warn with the size, and store this mark
    Warn { size_mb: u64, mark: u32 },
}

pub open spec fn spec_check_folder_size(debug_on: bool, current_mb: u64, last_warned: u32) -> FolderSizeStep {
    if !debug_on {
        FolderSizeStep::Nothing
    } else if current_mb < WARNING_INTERVAL_MB {
        if last_warned != 0 {
            FolderSizeStep::ClearMark
        } else {
            FolderSizeStep::Nothing
        }
    } else if current_mb / WARNING_INTERVAL_MB > last_warned / (WARNING_INTERVAL_MB as u32) {
        FolderSizeStep::Warn { size_mb: current_mb, mark: current_mb as u32 }
    } else {
        FolderSizeStep::Nothing
    }
}

/// Looks at the debug folder's size, `current_mb`, against the size last warned about; only
/// while debug output is on.
pub fn check_folder_size(debug_on: bool, current_mb: u64, last_warned: u32) -> (r: FolderSizeStep)
    ensures
        r == spec_check_folder_size(debug_on, current_mb, last_warned),
{
    if !debug_on {
        return FolderSizeStep::Nothing;
    }
    if current_mb < WARNING_INTERVAL_MB {
        return if last_warned != 0 {
            FolderSizeStep::ClearMark
        } else {
            FolderSizeStep::Nothing
        };
    }
    if current_mb / WARNING_INTERVAL_MB > (last_warned / 250) as u64 {
        #[verifier::truncate]
        let mark = current_mb as u32;
        FolderSizeStep::Warn { size_mb: current_mb, mark }
    } else {
        FolderSizeStep::Nothing
    }
}

/// A step is warned about once: with the mark a warning stored, the same size, or any size in
/// the same step, warns no more.
pub proof fn lemma_folder_warning_once(last_warned: u32, current_mb: u64, again_mb: u64)
    requires
        current_mb <= u32::MAX,
        spec_check_folder_size(true, current_mb, last_warned) is Warn,
        again_mb / WARNING_INTERVAL_MB == current_mb / WARNING_INTERVAL_MB,
    ensures
        spec_check_folder_size(true, again_mb, current_mb as u32) == FolderSizeStep::Nothing,
{
}


/// Debug captures kept at most; making room for a new one drops the oldest.
pub const MAX_DEBUG_CAPTURE_FILES: usize = 100;

/// How many of `count` saved captures to remove, oldest first, before one more is saved: none
/// under the limit, else enough to leave room for one.
pub fn excess_captures(count: usize) -> (r: usize)
    ensures
        r == if count < MAX_DEBUG_CAPTURE_FILES { 0 } else { count - (MAX_DEBUG_CAPTURE_FILES - 1) },
{
    if count < MAX_DEBUG_CAPTURE_FILES {
        0
    } else {
        count - (MAX_DEBUG_CAPTURE_FILES - 1)
    }
}

} // verus!
