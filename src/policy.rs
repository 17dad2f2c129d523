//! Decisions taken while the plan runs, from what was observed on disk or
//! returned by a command.
use vstd::prelude::*;
use crate::manifest::Item;
use crate::path::file_name;
use crate::plan::{asset_offset, assets_resolve, item_steps, PlaceModel, Stage, StepModel};

verus! {

/// What a path turned out to be.
#[derive(Clone, Copy, PartialEq, Eq, Structural, Debug)]
pub enum EntryKind {
    Directory,
    File,
    /// Neither a directory nor a regular file (typically: nothing there).
    Other,
}

/// What to do with one asset.
#[derive(Clone, Copy, PartialEq, Eq, Structural, Debug)]
pub enum CopyAction {
    /// Copy the directory tree, merging it into the destination directory.
    CopyTree,
    /// Copy the file to its target path.
    CopyFile,
    /// Leave the existing target alone, and say so.
    Skip,
    /// Do nothing and say nothing: the asset is not there.
    Nothing,
}

/// Why a run ended early.
#[derive(Clone, Copy, PartialEq, Eq, Structural, Debug)]
pub enum Failure {
    /// A temporary workspace could not be created.
    Workspace,
    /// A command could not be started or exited unsuccessfully.
    Command(Stage),
    /// A destination directory could not be created.
    CreateDir,
    /// A copy failed.
    Copy,
    /// An asset's path names no file to place.
    AssetName,
    /// A resolved path would be too long to hold.
    PathTooLong,
}

/// Whether an asset is copied: when its target is absent, or when
/// overwriting is on.
pub open spec fn should_copy(target_exists: bool, overwrite: bool) -> bool {
    !target_exists || overwrite
}

/// The action for an asset, given whether its target exists, whether
/// overwriting is on and what the asset's path holds.
pub open spec fn copy_action(target_exists: bool, overwrite: bool, kind: EntryKind) -> CopyAction {
    if !should_copy(target_exists, overwrite) {
        CopyAction::Skip
    } else {
        match kind {
            EntryKind::Directory => CopyAction::CopyTree,
            EntryKind::File => CopyAction::CopyFile,
            EntryKind::Other => CopyAction::Nothing,
        }
    }
}

/// Decides what to do with an asset.
pub fn decide_copy(target_exists: bool, overwrite: bool, kind: EntryKind) -> (r: CopyAction)
    ensures
        r == copy_action(target_exists, overwrite, kind),
        r == CopyAction::Skip <==> (target_exists && !overwrite),
{
    if target_exists && !overwrite {
        CopyAction::Skip
    } else {
        match kind {
            EntryKind::Directory => CopyAction::CopyTree,
            EntryKind::File => CopyAction::CopyFile,
            EntryKind::Other => CopyAction::Nothing,
        }
    }
}

/// The verdict on a command of the given stage: it passes only when it was
/// started and exited successfully; anything else ends the run.
pub fn command_verdict(stage: Stage, succeeded: bool) -> (r: Result<(), Failure>)
    ensures
        r is Ok <==> succeeded,
        !succeeded ==> r == Err::<(), Failure>(Failure::Command(stage)),
{
    if succeeded {
        Ok(())
    } else {
        Err(Failure::Command(stage))
    }
}

/// The overwrite policy as a plan runs it: an asset of an item whose target
/// already exists is skipped exactly when the item has no overwrite switch;
/// with the switch present, whatever its value, an existing file target is
/// replaced.
pub proof fn overwrite_follows_presence(
    item: Item,
    base: PlaceModel,
    i: int,
    target_exists: bool,
    kind: EntryKind,
)
    requires
        0 <= i < item.assets.len(),
        file_name(item.assets@[i]@) is Some,
    ensures
        item_steps(item, base)[asset_offset(item) + i] is Copy,
        ({
            let o = item_steps(item, base)[asset_offset(item) + i]->Copy_overwrite;
            &&& (copy_action(target_exists, o, kind) == CopyAction::Skip <==> (target_exists
                && item.overwrite is None))
            &&& (item.overwrite is Some && kind == EntryKind::File ==> copy_action(
                target_exists,
                o,
                kind,
            ) == CopyAction::CopyFile)
        }),
{
    assets_resolve(item, base);
    assert(item.assets@[i] == item.assets@[i]);
}

} // verus!
