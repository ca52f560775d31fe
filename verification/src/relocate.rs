//! The edit-and-relocate step's decisions: which editor program to run,
//! and the protocol for moving the edited file to its final directory.
//!
//! The move tries an atomic rename first. When the destination lies on
//! another volume, it falls back to copy-then-delete-source. The caller
//! performs each filesystem action and reports its outcome; the protocol
//! decides what comes next. The fallback is not atomic: a failure
//! between the copy and the delete leaves copies at both places, and the
//! step is re-run until it converges.

use vstd::prelude::*;

verus! {

/// The filesystem action the protocol asks for.
#[derive(Clone, Copy, Debug, PartialEq, Eq, Structural)]
pub enum MoveAction {
    Rename,
    CopyToDestination,
    DeleteSource,
}

/// The outcome the caller reports for one action.
#[derive(Clone, Copy, Debug, PartialEq, Eq, Structural)]
pub enum MoveEvent {
    RenameOk,
    /// The rename was refused because source and destination are on
    /// different volumes; nothing moved.
    RenameCrossVolume,
    RenameFailed,
    CopyOk,
    CopyFailed,
    DeleteOk,
    DeleteFailed,
}

/// The protocol's phases.
#[derive(Clone, Copy, Debug, PartialEq, Eq, Structural)]
pub enum MovePhase {
    Renaming,
    Copying,
    Deleting,
    Done,
    Failed,
}

/// The action each phase asks for; terminal phases ask for none.
pub open spec fn next_action_of(p: MovePhase) -> Option<MoveAction> {
    match p {
        MovePhase::Renaming => Option::Some(MoveAction::Rename),
        MovePhase::Copying => Option::Some(MoveAction::CopyToDestination),
        MovePhase::Deleting => Option::Some(MoveAction::DeleteSource),
        MovePhase::Done => Option::None,
        MovePhase::Failed => Option::None,
    }
}

/// The action to perform next, or nothing once the move is over.
pub fn next_action(p: MovePhase) -> (r: Option<MoveAction>)
    ensures
        r == next_action_of(p),
{
    match p {
        MovePhase::Renaming => Option::Some(MoveAction::Rename),
        MovePhase::Copying => Option::Some(MoveAction::CopyToDestination),
        MovePhase::Deleting => Option::Some(MoveAction::DeleteSource),
        MovePhase::Done => Option::None,
        MovePhase::Failed => Option::None,
    }
}

/// Whether an event can answer the action the phase asked for.
pub open spec fn event_fits(p: MovePhase, e: MoveEvent) -> bool {
    match p {
        MovePhase::Renaming => e == MoveEvent::RenameOk || e == MoveEvent::RenameCrossVolume || e
            == MoveEvent::RenameFailed,
        MovePhase::Copying => e == MoveEvent::CopyOk || e == MoveEvent::CopyFailed,
        MovePhase::Deleting => e == MoveEvent::DeleteOk || e == MoveEvent::DeleteFailed,
        MovePhase::Done => false,
        MovePhase::Failed => false,
    }
}

/// The phase after one reported event.
pub open spec fn advance_of(p: MovePhase, e: MoveEvent) -> MovePhase {
    match (p, e) {
        (MovePhase::Renaming, MoveEvent::RenameOk) => MovePhase::Done,
        (MovePhase::Renaming, MoveEvent::RenameCrossVolume) => MovePhase::Copying,
        (MovePhase::Renaming, MoveEvent::RenameFailed) => MovePhase::Failed,
        (MovePhase::Copying, MoveEvent::CopyOk) => MovePhase::Deleting,
        (MovePhase::Copying, MoveEvent::CopyFailed) => MovePhase::Failed,
        (MovePhase::Deleting, MoveEvent::DeleteOk) => MovePhase::Done,
        (MovePhase::Deleting, MoveEvent::DeleteFailed) => MovePhase::Failed,
        _ => p,
    }
}

/// Advance the protocol by one reported event.
pub fn advance(p: MovePhase, e: MoveEvent) -> (r: MovePhase)
    requires
        event_fits(p, e),
    ensures
        r == advance_of(p, e),
{
    match (p, e) {
        (MovePhase::Renaming, MoveEvent::RenameOk) => MovePhase::Done,
        (MovePhase::Renaming, MoveEvent::RenameCrossVolume) => MovePhase::Copying,
        (MovePhase::Renaming, MoveEvent::RenameFailed) => MovePhase::Failed,
        (MovePhase::Copying, MoveEvent::CopyOk) => MovePhase::Deleting,
        (MovePhase::Copying, MoveEvent::CopyFailed) => MovePhase::Failed,
        (MovePhase::Deleting, MoveEvent::DeleteOk) => MovePhase::Done,
        (MovePhase::Deleting, MoveEvent::DeleteFailed) => MovePhase::Failed,
        _ => p,
    }
}

/// Where copies of the file exist.
#[derive(Clone, Copy, Debug, PartialEq, Eq, Structural)]
pub struct Placement {
    pub at_source: bool,
    pub at_destination: bool,
}

/// The effect each reported outcome has on where copies exist: a rename
/// moves the file, a copy adds a destination copy (overwriting any), a
/// delete removes the source copy; refusals and failures move nothing.
pub open spec fn placement_after(pl: Placement, e: MoveEvent) -> Placement {
    match e {
        MoveEvent::RenameOk => Placement { at_source: false, at_destination: true },
        MoveEvent::CopyOk => Placement { at_source: pl.at_source, at_destination: true },
        MoveEvent::DeleteOk => Placement { at_source: false, at_destination: pl.at_destination },
        _ => pl,
    }
}

/// The phase a run of events ends in.
pub open spec fn run_phase(p: MovePhase, es: Seq<MoveEvent>) -> MovePhase
    decreases es.len(),
{
    if es.len() == 0 {
        p
    } else {
        run_phase(advance_of(p, es.first()), es.drop_first())
    }
}

/// Where copies exist after a run of events.
pub open spec fn run_placement(pl: Placement, es: Seq<MoveEvent>) -> Placement
    decreases es.len(),
{
    if es.len() == 0 {
        pl
    } else {
        run_placement(placement_after(pl, es.first()), es.drop_first())
    }
}

/// Every event of the run answers the phase current when it is reported.
pub open spec fn valid_run(p: MovePhase, es: Seq<MoveEvent>) -> bool
    decreases es.len(),
{
    if es.len() == 0 {
        true
    } else {
        event_fits(p, es.first()) && valid_run(advance_of(p, es.first()), es.drop_first())
    }
}

/// Law: a run of the move protocol that ends successfully leaves exactly
/// one copy of the file — at the destination, none at the source —
/// whatever the starting placement. Run from the placement a mid-fallback
/// failure left, this is the convergence of a re-run.
pub proof fn lemma_move_success(pl: Placement, es: Seq<MoveEvent>)
    requires
        valid_run(MovePhase::Renaming, es),
        run_phase(MovePhase::Renaming, es) == MovePhase::Done,
    ensures
        run_placement(pl, es) == (Placement { at_source: false, at_destination: true }),
{
    reveal_with_fuel(run_phase, 5);
    reveal_with_fuel(run_placement, 5);
    reveal_with_fuel(valid_run, 5);
    assert(es.len() > 0);
    let e0 = es.first();
    let r0 = es.drop_first();
    if e0 == MoveEvent::RenameOk {
        assert(r0.len() == 0) by {
            if r0.len() > 0 {
                assert(!event_fits(MovePhase::Done, r0.first()));
            }
        }
    } else if e0 == MoveEvent::RenameFailed {
        assert(r0.len() == 0) by {
            if r0.len() > 0 {
                assert(!event_fits(MovePhase::Failed, r0.first()));
            }
        }
        assert(false);
    } else {
        assert(e0 == MoveEvent::RenameCrossVolume);
        assert(r0.len() > 0);
        let e1 = r0.first();
        let r1 = r0.drop_first();
        if e1 == MoveEvent::CopyFailed {
            assert(r1.len() == 0) by {
                if r1.len() > 0 {
                    assert(!event_fits(MovePhase::Failed, r1.first()));
                }
            }
            assert(false);
        } else {
            assert(e1 == MoveEvent::CopyOk);
            assert(r1.len() > 0);
            let e2 = r1.first();
            let r2 = r1.drop_first();
            if e2 == MoveEvent::DeleteFailed {
                assert(r2.len() == 0) by {
                    if r2.len() > 0 {
                        assert(!event_fits(MovePhase::Failed, r2.first()));
                    }
                }
                assert(false);
            } else {
                assert(e2 == MoveEvent::DeleteOk);
                assert(r2.len() == 0) by {
                    if r2.len() > 0 {
                        assert(!event_fits(MovePhase::Done, r2.first()));
                    }
                }
            }
        }
    }
}

/// Law: a run that fails between the fallback's copy and its delete
/// leaves copies at both places — the source copy still present, the
/// destination copy already written.
pub proof fn lemma_move_mid_failure(pl: Placement, es: Seq<MoveEvent>)
    requires
        pl.at_source,
        valid_run(MovePhase::Renaming, es),
        run_phase(MovePhase::Renaming, es) == MovePhase::Failed,
        es.len() > 0,
        es.last() == MoveEvent::DeleteFailed,
    ensures
        run_placement(pl, es) == (Placement { at_source: true, at_destination: true }),
{
    reveal_with_fuel(run_phase, 5);
    reveal_with_fuel(run_placement, 5);
    reveal_with_fuel(valid_run, 5);
    let e0 = es.first();
    let r0 = es.drop_first();
    if e0 == MoveEvent::RenameOk {
        assert(r0.len() == 0) by {
            if r0.len() > 0 {
                assert(!event_fits(MovePhase::Done, r0.first()));
            }
        }
        assert(false);
    } else if e0 == MoveEvent::RenameFailed {
        assert(r0.len() == 0) by {
            if r0.len() > 0 {
                assert(!event_fits(MovePhase::Failed, r0.first()));
            }
        }
        assert(es.last() == e0);
        assert(false);
    } else {
        assert(e0 == MoveEvent::RenameCrossVolume);
        assert(r0.len() > 0);
        assert(es.last() == r0.last());
        let e1 = r0.first();
        let r1 = r0.drop_first();
        if e1 == MoveEvent::CopyFailed {
            assert(r1.len() == 0) by {
                if r1.len() > 0 {
                    assert(!event_fits(MovePhase::Failed, r1.first()));
                }
            }
            assert(r0.last() == e1);
            assert(false);
        } else {
            assert(e1 == MoveEvent::CopyOk);
            assert(r1.len() > 0);
            assert(r0.last() == r1.last());
            let e2 = r1.first();
            let r2 = r1.drop_first();
            if e2 == MoveEvent::DeleteOk {
                assert(r2.len() == 0) by {
                    if r2.len() > 0 {
                        assert(!event_fits(MovePhase::Done, r2.first()));
                    }
                }
                assert(false);
            } else {
                assert(e2 == MoveEvent::DeleteFailed);
                assert(r2.len() == 0) by {
                    if r2.len() > 0 {
                        assert(!event_fits(MovePhase::Failed, r2.first()));
                    }
                }
            }
        }
    }
}

/// Law: re-running the move after a mid-fallback failure converges to
/// the intended end state — the failed run leaves copies at both places,
/// and any successful re-run from there ends with exactly one copy, at
/// the destination.
pub proof fn lemma_move_rerun_converges(pl: Placement, es1: Seq<MoveEvent>, es2: Seq<MoveEvent>)
    requires
        pl.at_source,
        valid_run(MovePhase::Renaming, es1),
        run_phase(MovePhase::Renaming, es1) == MovePhase::Failed,
        es1.len() > 0,
        es1.last() == MoveEvent::DeleteFailed,
        valid_run(MovePhase::Renaming, es2),
        run_phase(MovePhase::Renaming, es2) == MovePhase::Done,
    ensures
        run_placement(pl, es1) == (Placement { at_source: true, at_destination: true }),
        run_placement(run_placement(pl, es1), es2) == (Placement {
            at_source: false,
            at_destination: true,
        }),
{
    lemma_move_mid_failure(pl, es1);
    lemma_move_success(run_placement(pl, es1), es2);
}

/// The platform default editor program name.
pub open spec fn editor_default() -> Seq<u8> {
    seq![110u8, 111u8, 116u8, 101u8, 112u8, 97u8, 100u8]
}

/// The editor to spawn: the configured override when one is set,
/// otherwise the platform default.
pub fn editor_program(override_name: Option<Vec<u8>>) -> (r: Vec<u8>)
    ensures
        r@ == (match override_name {
            Option::Some(v) => v@,
            Option::None => editor_default(),
        }),
{
    match override_name {
        Option::Some(v) => v,
        Option::None => {
            let r = vec![110u8, 111u8, 116u8, 101u8, 112u8, 97u8, 100u8];
            proof {
                assert(r@ =~= editor_default());
            }
            r
        },
    }
}

} // verus!
