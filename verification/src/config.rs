//! The configuration the tool runs on: the deployment profile and the
//! parsed command line. Paths and argument parsing live with the caller;
//! the flag rules are decided here.

use vstd::prelude::*;

verus! {

/// The two deployment profiles, each selecting its own set of paths.
#[derive(Clone, Copy, Debug, PartialEq, Eq, Structural)]
pub enum Ambiente {
    PRD,
    QAS,
}

impl Default for Ambiente {
    /// The profile used when none is asked for.
    fn default() -> (r: Ambiente)
        ensures
            r == Ambiente::PRD,
    {
        Ambiente::PRD
    }
}

/// The command line, parsed: the tag fragment, whether to run the
/// retrieval workflow, the profile, and whether to edit interactively.
pub struct Args {
    pub prefix: Vec<u8>,
    pub get_nfe: bool,
    pub ambient: Ambiente,
    pub editor: bool,
}

/// Whether the flag combination is usable: interactive edit is only
/// valid together with retrieval.
pub open spec fn flags_valid(get_nfe: bool, editor: bool) -> bool {
    !(editor && !get_nfe)
}

/// Check the flag rule the command line must obey.
pub fn validate_args(args: &Args) -> (r: bool)
    ensures
        r == flags_valid(args.get_nfe, args.editor),
{
    !(args.editor && !args.get_nfe)
}

} // verus!
