//! Replacing the configuration file in one move.
//!
//! The new content is written to a temporary file beside the configuration
//! file, and that file is then renamed over it. The rename is the only step
//! that touches the configuration file, so a reader never sees it half
//! written, and a write that fails leaves it as it was.

use vstd::prelude::*;
use crate::failure::Failure;
use crate::text::{append_bytes, copy_range};

verus! {

/// The bytes of `.bitenew`: what the temporary file's name has more than
/// the name of the file it replaces.
pub open spec fn temp_suffix() -> Seq<u8> {
    seq![46u8, 98u8, 105u8, 116u8, 101u8, 110u8, 101u8, 119u8]
}

/// The byte that separates the directories of a path.
pub open spec fn separator() -> u8 {
    47u8
}

/// The length of the directory part of a path: all up to its last
/// separator, the separator included.
pub open spec fn directory_len(path: Seq<u8>) -> nat
    decreases path.len(),
{
    if path.len() == 0 {
        0
    } else if path.last() == separator() {
        path.len()
    } else {
        directory_len(path.drop_last())
    }
}

/// The directory part of a path.
pub open spec fn directory(path: Seq<u8>) -> Seq<u8> {
    path.take(directory_len(path) as int)
}

/// The directory part of a path is not longer than the path.
pub proof fn lemma_directory_len(path: Seq<u8>)
    ensures
        directory_len(path) <= path.len(),
    decreases path.len(),
{
    if path.len() > 0 && path.last() != separator() {
        lemma_directory_len(path.drop_last());
    }
}

/// A name that grows by bytes other than the separator stays in its
/// directory.
pub proof fn lemma_same_directory(path: Seq<u8>, more: Seq<u8>)
    requires
        forall|i: int| 0 <= i < more.len() ==> #[trigger] more[i] != separator(),
    ensures
        directory(path + more) == directory(path),
    decreases more.len(),
{
    lemma_directory_len(path);
    if more.len() == 0 {
        assert(path + more =~= path);
    } else {
        let shorter = more.drop_last();
        assert((path + more).drop_last() =~= path + shorter);
        assert((path + more).last() == more[more.len() - 1]);
        lemma_same_directory(path, shorter);
        lemma_directory_len(path + shorter);
        assert(directory(path + more) =~= directory(path + shorter));
    }
}

/// Names the temporary file for `path`: a file beside it, of another name.
pub fn temp_path(path: &[u8]) -> (temp: Vec<u8>)
    ensures
        temp@ == path@ + temp_suffix(),
        temp@ != path@,
        directory(temp@) == directory(path@),
{
    let suffix: Vec<u8> = vec![46u8, 98u8, 105u8, 116u8, 101u8, 110u8, 101u8, 119u8];
    let mut temp = copy_range(path, 0, path.len());
    append_bytes(&mut temp, suffix.as_slice());
    proof {
        assert(suffix@ =~= temp_suffix());
        assert(path@.subrange(0, path@.len() as int) =~= path@);
        assert(temp@.len() == path@.len() + 8);
        lemma_same_directory(path@, temp_suffix());
    }
    temp
}

/// Where the replacement stands.
#[derive(Clone, Copy, Debug, PartialEq, Eq, Structural)]
pub enum CommitStage {
    /// The temporary file is being written.
    Writing,
    /// The temporary file is being renamed over the file.
    Renaming,
    /// The file holds the new content.
    Committed,
    /// A step failed; the file holds what it held.
    Failed,
}

/// What the caller reports of the step it was told to do.
#[derive(Clone, Copy, Debug, PartialEq, Eq, Structural)]
pub enum CommitEvent {
    Written,
    WriteFailed,
    Renamed,
    RenameFailed,
}

/// What the caller is to do.
#[derive(Clone, Copy, Debug, PartialEq, Eq, Structural)]
pub enum CommitAction {
    /// Write the new content to the temporary file.
    WriteTemp,
    /// Rename the temporary file over the file.
    Rename,
    /// Report success.
    Finish,
    /// Report the failure.
    Abort { failure: Failure },
    /// Nothing: the event was not asked for, or the replacement is over.
    Idle,
}

/// The stage that follows and the action that goes with it. The rename
/// follows a write that succeeded and nothing else; a step that failed ends
/// the replacement with `ConfigIoError`.
pub open spec fn commit_next(stage: CommitStage, event: CommitEvent) -> (CommitStage, CommitAction) {
    match (stage, event) {
        (CommitStage::Writing, CommitEvent::Written) => (
            CommitStage::Renaming,
            CommitAction::Rename,
        ),
        (CommitStage::Writing, CommitEvent::WriteFailed) => (
            CommitStage::Failed,
            CommitAction::Abort { failure: Failure::ConfigIoError },
        ),
        (CommitStage::Renaming, CommitEvent::Renamed) => (
            CommitStage::Committed,
            CommitAction::Finish,
        ),
        (CommitStage::Renaming, CommitEvent::RenameFailed) => (
            CommitStage::Failed,
            CommitAction::Abort { failure: Failure::ConfigIoError },
        ),
        _ => (stage, CommitAction::Idle),
    }
}

/// Begins the replacement: the temporary file is to be written.
pub fn begin_commit() -> (r: (CommitStage, CommitAction))
    ensures
        r == (CommitStage::Writing, CommitAction::WriteTemp),
{
    (CommitStage::Writing, CommitAction::WriteTemp)
}

/// Takes the outcome of one step.
pub fn commit_step(stage: CommitStage, event: CommitEvent) -> (r: (CommitStage, CommitAction))
    ensures
        r == commit_next(stage, event),
{
    match stage {
        CommitStage::Writing => match event {
            CommitEvent::Written => (CommitStage::Renaming, CommitAction::Rename),
            CommitEvent::WriteFailed => (
                CommitStage::Failed,
                CommitAction::Abort { failure: Failure::ConfigIoError },
            ),
            _ => (stage, CommitAction::Idle),
        },
        CommitStage::Renaming => match event {
            CommitEvent::Renamed => (CommitStage::Committed, CommitAction::Finish),
            CommitEvent::RenameFailed => (
                CommitStage::Failed,
                CommitAction::Abort { failure: Failure::ConfigIoError },
            ),
            _ => (stage, CommitAction::Idle),
        },
        _ => (stage, CommitAction::Idle),
    }
}

/// The file is touched by the rename alone, and the rename is asked for
/// only when the write of the temporary file has succeeded.
pub proof fn lemma_rename_follows_write(stage: CommitStage, event: CommitEvent)
    requires
        commit_next(stage, event).1 == CommitAction::Rename,
    ensures
        stage == CommitStage::Writing,
        event == CommitEvent::Written,
{
}

/// A replacement that failed asks for nothing more, so after a write that
/// failed no rename is ever asked for.
pub proof fn lemma_failed_commit_stays_failed(later: CommitEvent)
    ensures
        commit_next(CommitStage::Writing, CommitEvent::WriteFailed).0 == CommitStage::Failed,
        commit_next(CommitStage::Failed, later) == (CommitStage::Failed, CommitAction::Idle),
        commit_next(CommitStage::Committed, later) == (CommitStage::Committed, CommitAction::Idle),
{
}

} // verus!
