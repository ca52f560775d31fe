//! Decisions of the directory watch loop.
//!
//! The loop itself lives with the caller, which owns the filesystem
//! watch and the event channel; every decision it takes on an observed
//! file goes through here: whether a created file's name is handled,
//! and — from the file's bytes — the parsed record, the rows to print,
//! whether the file is to be deleted, and whether the loop is to finish.

use vstd::prelude::*;
use crate::matcher::{filename_matches, matches_filename};
use crate::policy::{Disposition, disposition_of, decide, display_lines, display_rows};
use crate::record::{PropertyRecord, record_of, lossy_of, parse_record, pair_views};

verus! {

/// Immutable configuration of one watch-loop invocation: the requested
/// tag fragment and whether the interactive-edit mode is on.
pub struct WatchSession {
    pub fragment: Vec<u8>,
    pub editor: bool,
}

/// What the consumer loop does after one dispatched file.
#[derive(Clone, Copy, Debug, PartialEq, Eq, Structural)]
pub enum WatchSignal {
    /// Keep watching.
    Continue,
    /// Interactive-edit mode saw a Kept disposition: finish successfully.
    FinishKept,
    /// Interactive-edit mode saw a Deleted disposition: finish with
    /// failure so the caller can retry end-to-end.
    FinishDeleted,
}

/// The signal a disposition produces under the given mode: outside
/// interactive-edit mode the loop never finishes on its own.
pub open spec fn signal_of(editor: bool, d: Disposition) -> WatchSignal {
    if editor && d == Disposition::Kept {
        WatchSignal::FinishKept
    } else if editor && d == Disposition::Deleted {
        WatchSignal::FinishDeleted
    } else {
        WatchSignal::Continue
    }
}

/// Everything the loop needs to act on one matched file.
pub struct Dispatch {
    pub record: PropertyRecord,
    pub rows: Vec<(Vec<u8>, Vec<u8>)>,
    pub disposition: Disposition,
    pub delete_file: bool,
    pub signal: WatchSignal,
}

/// Whether a created file's name is handled by this session.
pub fn event_matches(session: &WatchSession, fname: &[u8]) -> (r: bool)
    ensures
        r == filename_matches(fname@, session.fragment@),
{
    matches_filename(fname, session.fragment.as_slice())
}

/// Decide everything about one matched file from its bytes: the record
/// it parses to, the display rows, the disposition, whether the file is
/// deleted (exactly on a Deleted disposition), and the loop signal.
pub fn dispatch_file(session: &WatchSession, contents: &[u8]) -> (r: Dispatch)
    ensures
        r.record.wf(),
        r.record@ == record_of(lossy_of(contents@)),
        pair_views(r.rows@) == display_rows(r.record@),
        r.disposition == disposition_of(r.record@),
        r.delete_file == (r.disposition == Disposition::Deleted),
        r.signal == signal_of(session.editor, r.disposition),
{
    let record = parse_record(contents);
    let rows = display_lines(&record);
    let disposition = decide(&record);
    let delete_file = matches!(disposition, Disposition::Deleted);
    let signal = if session.editor {
        match disposition {
            Disposition::Kept => WatchSignal::FinishKept,
            Disposition::Deleted => WatchSignal::FinishDeleted,
            Disposition::Unknown => WatchSignal::Continue,
        }
    } else {
        WatchSignal::Continue
    };
    Dispatch { record, rows, disposition, delete_file, signal }
}

/// The two states of the combined retrieve-then-watch mode's outer
/// control loop.
#[derive(Clone, Copy, Debug, PartialEq, Eq, Structural)]
pub enum OuterState {
    /// The watch failed: run the whole retrieve-then-watch sequence
    /// again.
    Retry,
    /// The watch finished successfully: the sequence is over.
    Done,
}

/// The retry-until-success rule of the combined mode: only a successful
/// watch ends the sequence.
pub fn combined_step(watch_succeeded: bool) -> (r: OuterState)
    ensures
        r == (if watch_succeeded {
            OuterState::Done
        } else {
            OuterState::Retry
        }),
{
    if watch_succeeded {
        OuterState::Done
    } else {
        OuterState::Retry
    }
}

} // verus!
