use bite::commit::{begin_commit, commit_step, temp_path, CommitAction, CommitEvent, CommitStage};
use bite::failure::Failure;

fn events() -> [CommitEvent; 4] {
    [CommitEvent::Written, CommitEvent::WriteFailed, CommitEvent::Renamed, CommitEvent::RenameFailed]
}

fn stages() -> [CommitStage; 4] {
    [CommitStage::Writing, CommitStage::Renaming, CommitStage::Committed, CommitStage::Failed]
}

#[test]
fn temp_path_adds_its_suffix() {
    assert_eq!(temp_path(b"/home/op/.ssh/config"), b"/home/op/.ssh/config.bitenew".to_vec());
    assert_eq!(temp_path(b"config"), b"config.bitenew".to_vec());
    assert_eq!(temp_path(b""), b".bitenew".to_vec());
}

#[test]
fn temp_path_is_a_sibling_of_another_name() {
    for path in ["/home/op/.ssh/config", "config", "./a/b", "/"] {
        let temp = temp_path(path.as_bytes());
        assert_ne!(temp, path.as_bytes().to_vec());
        let cut = path.rfind('/').map(|i| i + 1).unwrap_or(0);
        let temp_cut = temp.iter().rposition(|b| *b == b'/').map(|i| i + 1).unwrap_or(0);
        assert_eq!(temp_cut, cut);
        assert_eq!(&temp[..temp_cut], &path.as_bytes()[..cut]);
    }
}

#[test]
fn commit_writes_then_renames() {
    assert_eq!(begin_commit(), (CommitStage::Writing, CommitAction::WriteTemp));
    assert_eq!(
        commit_step(CommitStage::Writing, CommitEvent::Written),
        (CommitStage::Renaming, CommitAction::Rename)
    );
    assert_eq!(
        commit_step(CommitStage::Renaming, CommitEvent::Renamed),
        (CommitStage::Committed, CommitAction::Finish)
    );
}

#[test]
fn a_failed_write_is_never_followed_by_a_rename() {
    let (stage, action) = commit_step(CommitStage::Writing, CommitEvent::WriteFailed);
    assert_eq!(stage, CommitStage::Failed);
    assert_eq!(action, CommitAction::Abort { failure: Failure::ConfigIoError });
    for first in events() {
        for second in events() {
            let (s1, a1) = commit_step(stage, first);
            let (s2, a2) = commit_step(s1, second);
            assert_eq!((s1, a1), (CommitStage::Failed, CommitAction::Idle));
            assert_eq!((s2, a2), (CommitStage::Failed, CommitAction::Idle));
        }
    }
}

#[test]
fn a_failed_rename_is_an_io_error() {
    assert_eq!(
        commit_step(CommitStage::Renaming, CommitEvent::RenameFailed),
        (CommitStage::Failed, CommitAction::Abort { failure: Failure::ConfigIoError })
    );
}

#[test]
fn a_rename_follows_only_a_write_that_succeeded() {
    for stage in stages() {
        for event in events() {
            let (_, action) = commit_step(stage, event);
            if action == CommitAction::Rename {
                assert_eq!((stage, event), (CommitStage::Writing, CommitEvent::Written));
            }
        }
    }
}

#[test]
fn a_commit_event_that_was_not_asked_for_changes_nothing() {
    for event in [CommitEvent::Renamed, CommitEvent::RenameFailed] {
        assert_eq!(commit_step(CommitStage::Writing, event), (CommitStage::Writing, CommitAction::Idle));
    }
    for event in [CommitEvent::Written, CommitEvent::WriteFailed] {
        assert_eq!(commit_step(CommitStage::Renaming, event), (CommitStage::Renaming, CommitAction::Idle));
    }
    for event in events() {
        assert_eq!(
            commit_step(CommitStage::Committed, event),
            (CommitStage::Committed, CommitAction::Idle)
        );
    }
}
