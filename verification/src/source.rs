//! Source selector: decides at startup how media items will be
//! produced, and fails fatally on a bad configuration.
//!
//! The caller performs the decision: it exits the process with
//! [`CONFIG_ERROR_STATUS`] on the fatal plans, starts the folder
//! watcher or the playlist program otherwise, and hands the loop the
//! reinitialize flag, which starts out false.

use vstd::prelude::*;

use crate::text::str_eq;

verus! {

/// Process exit status for fatal configuration errors.
pub const CONFIG_ERROR_STATUS: i32 = 0x0100;

/// The two recognized run modes.
#[derive(PartialEq, Eq, Structural, Clone, Copy, Debug)]
pub enum RunMode {
    /// Items are discovered by watching a directory.
    Folder,
    /// Items are resolved from a clock-driven schedule.
    Playlist,
}

/// What the source selector decides.
#[derive(PartialEq, Eq, Structural, Clone, Copy, Debug)]
pub enum SourcePlan {
    /// Unrecognized run mode: terminate the process at once.
    ExitBadMode,
    /// Folder mode with a missing directory: terminate the process.
    ExitMissingFolder,
    /// Watch the folder and lazily drain the discovered items.
    WatchFolder,
    /// Resolve items from the schedule.
    RunPlaylist,
}

/// Selector outcome: the plan, and the reinitialize flag the playout
/// loop shares with the schedule producer.
pub struct SourceSetup {
    pub plan: SourcePlan,
    pub reinit: bool,
}

proof fn lemma_mode_words_differ()
    ensures
        "folder"@ != "playlist"@,
{
    reveal_strlit("folder");
    reveal_strlit("playlist");
    assert("folder"@.len() == 6);
    assert("playlist"@.len() == 8);
}

/// Parses the run-mode word; anything but the two known words is a
/// fatal configuration error for the caller.
pub fn parse_mode(mode: &str) -> (r: Option<RunMode>)
    ensures
        r == Some(RunMode::Folder) <==> mode@ == "folder"@,
        r == Some(RunMode::Playlist) <==> mode@ == "playlist"@,
        r is None <==> mode@ != "folder"@ && mode@ != "playlist"@,
{
    proof {
        lemma_mode_words_differ();
    }
    if str_eq(mode, "folder") {
        Some(RunMode::Folder)
    } else if str_eq(mode, "playlist") {
        Some(RunMode::Playlist)
    } else {
        None
    }
}

/// Decides how items will be produced.  `folder_exists` reports
/// whether the configured storage directory is present; the check
/// itself is the caller's filesystem work.
pub fn source_generator(mode: &str, folder_exists: bool) -> (r: SourceSetup)
    ensures
        !r.reinit,
        mode@ == "folder"@ && folder_exists ==> r.plan == SourcePlan::WatchFolder,
        mode@ == "folder"@ && !folder_exists ==> r.plan == SourcePlan::ExitMissingFolder,
        mode@ == "playlist"@ ==> r.plan == SourcePlan::RunPlaylist,
        mode@ != "folder"@ && mode@ != "playlist"@ ==> r.plan == SourcePlan::ExitBadMode,
{
    let plan = match parse_mode(mode) {
        Some(RunMode::Folder) => {
            if folder_exists {
                SourcePlan::WatchFolder
            } else {
                SourcePlan::ExitMissingFolder
            }
        },
        Some(RunMode::Playlist) => SourcePlan::RunPlaylist,
        None => SourcePlan::ExitBadMode,
    };
    SourceSetup { plan, reinit: false }
}

} // verus!
