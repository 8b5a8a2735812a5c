//! Replacing a profile on disk safely: the content is checked before anything
//! is written, the new text goes to a temporary file that is checked again,
//! an existing profile is copied to its backup before it is removed, and the
//! backup is put back when the final rename fails.
//!
//! The decisions are a step function from the current stage and what the
//! last file operation reported to the next stage and operation; the caller
//! performs the operations.

use vstd::prelude::*;
use crate::paths::concat;

verus! {

broadcast use vstd::string::group_string_axioms;

/// How far the replacement has come.
#[derive(Debug, Clone, Copy, PartialEq, Eq, Structural)]
pub enum ProfileWriteState {
    /// Nothing done yet.
    Ready,
    /// The syntax of the new content is being checked.
    CheckingContent,
    /// The profile's folder is being created.
    CreatingDir,
    /// A temporary file left by an earlier attempt is being removed.
    RemovingTemp,
    /// The new content is being written to the temporary file.
    WritingTemp,
    /// The syntax of the temporary file is being checked.
    CheckingTemp,
    /// The existing profile is being copied to its backup.
    BackingUp,
    /// The existing profile is being removed.
    RemovingProfile,
    /// The temporary file is being renamed onto the profile; `had_profile`
    /// tells whether a profile existed (and was backed up) before.
    Renaming { had_profile: bool },
    /// The replacement is over.
    Finished,
}

/// What the last operation reported. Each `String` error is the text of the
/// error the operation failed with.
#[derive(Debug)]
pub enum ProfileWriteEvent {
    /// The replacement is asked for.
    Start,
    /// The syntax check of the content, with its error message.
    ContentChecked(Result<(), String>),
    /// Creating the profile's folder, and whether the temporary file exists.
    DirCreated { result: Result<(), String>, temp_exists: bool },
    /// Removing the stale temporary file.
    TempRemoved(Result<(), String>),
    /// Writing the temporary file.
    TempWritten(Result<(), String>),
    /// The syntax check of the temporary file, with its error message, and
    /// whether the profile exists.
    TempChecked { result: Result<(), String>, profile_exists: bool },
    /// Copying the profile to its backup.
    BackedUp(Result<(), String>),
    /// Removing the profile.
    ProfileRemoved(Result<(), String>),
    /// Renaming the temporary file onto the profile, and whether the profile
    /// and the backup exist afterwards.
    Renamed { result: Result<(), String>, profile_exists: bool, backup_exists: bool },
}

/// The next operation to perform.
#[derive(Debug)]
pub enum ProfileWriteAction {
    /// Check the syntax of the content.
    CheckContent,
    /// Create the profile's folder (with its parents), then tell whether the
    /// temporary file exists.
    CreateProfileDir,
    /// Remove the temporary file.
    RemoveTemp,
    /// Write the content, as profile bytes, to the temporary file.
    WriteTemp,
    /// Check the syntax of the temporary file, then tell whether the profile
    /// exists.
    CheckTemp,
    /// Copy the profile to its backup.
    CopyProfileToBackup,
    /// Remove the profile.
    RemoveProfile,
    /// Rename the temporary file onto the profile.
    RenameTempOntoProfile,
    /// Copy the backup onto the profile, ignoring the outcome, then fail with
    /// the message.
    RestoreBackupThenFinish(String),
    /// Stop with this result.
    Finish(Result<(), String>),
}

/// The event is the report of the operation the state waits for.
pub open spec fn event_fits(state: ProfileWriteState, event: ProfileWriteEvent) -> bool {
    match event {
        ProfileWriteEvent::Start => state == ProfileWriteState::Ready,
        ProfileWriteEvent::ContentChecked(_) => state == ProfileWriteState::CheckingContent,
        ProfileWriteEvent::DirCreated { .. } => state == ProfileWriteState::CreatingDir,
        ProfileWriteEvent::TempRemoved(_) => state == ProfileWriteState::RemovingTemp,
        ProfileWriteEvent::TempWritten(_) => state == ProfileWriteState::WritingTemp,
        ProfileWriteEvent::TempChecked { .. } => state == ProfileWriteState::CheckingTemp,
        ProfileWriteEvent::BackedUp(_) => state == ProfileWriteState::BackingUp,
        ProfileWriteEvent::ProfileRemoved(_) => state == ProfileWriteState::RemovingProfile,
        ProfileWriteEvent::Renamed { .. } => state is Renaming,
    }
}

/// The action stops with an error whose message is `message`.
pub open spec fn fails_with(action: ProfileWriteAction, message: Seq<char>) -> bool {
    action matches ProfileWriteAction::Finish(Err(m)) && m@ == message
}

/// The step: each successful operation leads to the next one; a failed
/// syntax check stops with its own message; any other failed operation stops
/// with a message naming the operation followed by the error; after a failed
/// rename the backup is put back exactly when a profile had existed, is gone,
/// and its backup exists.
pub open spec fn step_holds(
    state: ProfileWriteState,
    event: ProfileWriteEvent,
    r: (ProfileWriteState, ProfileWriteAction),
) -> bool {
    match event {
        ProfileWriteEvent::Start => r == (ProfileWriteState::CheckingContent, ProfileWriteAction::CheckContent),
        ProfileWriteEvent::ContentChecked(result) => match result {
            Ok(_) => r == (ProfileWriteState::CreatingDir, ProfileWriteAction::CreateProfileDir),
            Err(e) => r == (ProfileWriteState::Finished, ProfileWriteAction::Finish(Err(e))),
        },
        ProfileWriteEvent::DirCreated { result, temp_exists } => match result {
            Ok(_) => r == if temp_exists {
                (ProfileWriteState::RemovingTemp, ProfileWriteAction::RemoveTemp)
            } else {
                (ProfileWriteState::WritingTemp, ProfileWriteAction::WriteTemp)
            },
            Err(e) => r.0 == ProfileWriteState::Finished && fails_with(r.1, "创建 Profile 目录失败: "@ + e@),
        },
        ProfileWriteEvent::TempRemoved(result) => match result {
            Ok(_) => r == (ProfileWriteState::WritingTemp, ProfileWriteAction::WriteTemp),
            Err(e) => r.0 == ProfileWriteState::Finished && fails_with(r.1, "清理临时 Profile 失败: "@ + e@),
        },
        ProfileWriteEvent::TempWritten(result) => match result {
            Ok(_) => r == (ProfileWriteState::CheckingTemp, ProfileWriteAction::CheckTemp),
            Err(e) => r.0 == ProfileWriteState::Finished && fails_with(r.1, "写入临时 Profile 失败: "@ + e@),
        },
        ProfileWriteEvent::TempChecked { result, profile_exists } => match result {
            Ok(_) => r == if profile_exists {
                (ProfileWriteState::BackingUp, ProfileWriteAction::CopyProfileToBackup)
            } else {
                (ProfileWriteState::Renaming { had_profile: false }, ProfileWriteAction::RenameTempOntoProfile)
            },
            Err(e) => r == (ProfileWriteState::Finished, ProfileWriteAction::Finish(Err(e))),
        },
        ProfileWriteEvent::BackedUp(result) => match result {
            Ok(_) => r == (ProfileWriteState::RemovingProfile, ProfileWriteAction::RemoveProfile),
            Err(e) => r.0 == ProfileWriteState::Finished && fails_with(r.1, "备份 Profile 失败: "@ + e@),
        },
        ProfileWriteEvent::ProfileRemoved(result) => match result {
            Ok(_) => r == (
                ProfileWriteState::Renaming { had_profile: true },
                ProfileWriteAction::RenameTempOntoProfile,
            ),
            Err(e) => r.0 == ProfileWriteState::Finished && fails_with(r.1, "准备替换 Profile 失败: "@ + e@),
        },
        ProfileWriteEvent::Renamed { result, profile_exists, backup_exists } => match result {
            Ok(_) => r == (ProfileWriteState::Finished, ProfileWriteAction::Finish(Ok(()))),
            Err(e) => {
                let message = "替换 Profile 失败: "@ + e@;
                let restore = match state {
                    ProfileWriteState::Renaming { had_profile } => had_profile && !profile_exists
                        && backup_exists,
                    _ => false,
                };
                &&& r.0 == ProfileWriteState::Finished
                &&& if restore {
                    r.1 matches ProfileWriteAction::RestoreBackupThenFinish(m) && m@ == message
                } else {
                    fails_with(r.1, message)
                }
            },
        },
    }
}

/// See [`event_fits`].
pub fn event_fits_state(state: &ProfileWriteState, event: &ProfileWriteEvent) -> (r: bool)
    ensures
        r == event_fits(*state, *event),
{
    match event {
        ProfileWriteEvent::Start => *state == ProfileWriteState::Ready,
        ProfileWriteEvent::ContentChecked(_) => *state == ProfileWriteState::CheckingContent,
        ProfileWriteEvent::DirCreated { .. } => *state == ProfileWriteState::CreatingDir,
        ProfileWriteEvent::TempRemoved(_) => *state == ProfileWriteState::RemovingTemp,
        ProfileWriteEvent::TempWritten(_) => *state == ProfileWriteState::WritingTemp,
        ProfileWriteEvent::TempChecked { .. } => *state == ProfileWriteState::CheckingTemp,
        ProfileWriteEvent::BackedUp(_) => *state == ProfileWriteState::BackingUp,
        ProfileWriteEvent::ProfileRemoved(_) => *state == ProfileWriteState::RemovingProfile,
        ProfileWriteEvent::Renamed { .. } => match state {
            ProfileWriteState::Renaming { .. } => true,
            _ => false,
        },
    }
}

fn failure(prefix: &str, error: String) -> (r: ProfileWriteAction)
    ensures
        fails_with(r, prefix@ + error@),
{
    ProfileWriteAction::Finish(Err(concat(prefix, error.as_str())))
}

/// One step of replacing a profile, see [`step_holds`].
pub fn profile_write_step(state: ProfileWriteState, event: ProfileWriteEvent) -> (r: (
    ProfileWriteState,
    ProfileWriteAction,
))
    requires
        event_fits(state, event),
    ensures
        step_holds(state, event, r),
{
    proof {
        reveal_strlit("创建 Profile 目录失败: ");
        reveal_strlit("清理临时 Profile 失败: ");
        reveal_strlit("写入临时 Profile 失败: ");
        reveal_strlit("备份 Profile 失败: ");
        reveal_strlit("准备替换 Profile 失败: ");
        reveal_strlit("替换 Profile 失败: ");
    }
    match event {
        ProfileWriteEvent::Start => (ProfileWriteState::CheckingContent, ProfileWriteAction::CheckContent),
        ProfileWriteEvent::ContentChecked(result) => match result {
            Ok(()) => (ProfileWriteState::CreatingDir, ProfileWriteAction::CreateProfileDir),
            Err(e) => (ProfileWriteState::Finished, ProfileWriteAction::Finish(Err(e))),
        },
        ProfileWriteEvent::DirCreated { result, temp_exists } => match result {
            Ok(()) => if temp_exists {
                (ProfileWriteState::RemovingTemp, ProfileWriteAction::RemoveTemp)
            } else {
                (ProfileWriteState::WritingTemp, ProfileWriteAction::WriteTemp)
            },
            Err(e) => (ProfileWriteState::Finished, failure("创建 Profile 目录失败: ", e)),
        },
        ProfileWriteEvent::TempRemoved(result) => match result {
            Ok(()) => (ProfileWriteState::WritingTemp, ProfileWriteAction::WriteTemp),
            Err(e) => (ProfileWriteState::Finished, failure("清理临时 Profile 失败: ", e)),
        },
        ProfileWriteEvent::TempWritten(result) => match result {
            Ok(()) => (ProfileWriteState::CheckingTemp, ProfileWriteAction::CheckTemp),
            Err(e) => (ProfileWriteState::Finished, failure("写入临时 Profile 失败: ", e)),
        },
        ProfileWriteEvent::TempChecked { result, profile_exists } => match result {
            Ok(()) => if profile_exists {
                (ProfileWriteState::BackingUp, ProfileWriteAction::CopyProfileToBackup)
            } else {
                (ProfileWriteState::Renaming { had_profile: false }, ProfileWriteAction::RenameTempOntoProfile)
            },
            Err(e) => (ProfileWriteState::Finished, ProfileWriteAction::Finish(Err(e))),
        },
        ProfileWriteEvent::BackedUp(result) => match result {
            Ok(()) => (ProfileWriteState::RemovingProfile, ProfileWriteAction::RemoveProfile),
            Err(e) => (ProfileWriteState::Finished, failure("备份 Profile 失败: ", e)),
        },
        ProfileWriteEvent::ProfileRemoved(result) => match result {
            Ok(()) => (ProfileWriteState::Renaming { had_profile: true }, ProfileWriteAction::RenameTempOntoProfile),
            Err(e) => (ProfileWriteState::Finished, failure("准备替换 Profile 失败: ", e)),
        },
        ProfileWriteEvent::Renamed { result, profile_exists, backup_exists } => match result {
            Ok(()) => (ProfileWriteState::Finished, ProfileWriteAction::Finish(Ok(()))),
            Err(e) => {
                let had_profile = match state {
                    ProfileWriteState::Renaming { had_profile } => had_profile,
                    _ => false,
                };
                let message = concat("替换 Profile 失败: ", e.as_str());
                if had_profile && !profile_exists && backup_exists {
                    (ProfileWriteState::Finished, ProfileWriteAction::RestoreBackupThenFinish(message))
                } else {
                    (ProfileWriteState::Finished, ProfileWriteAction::Finish(Err(message)))
                }
            },
        },
    }
}

/// A run of the replacement: `states[0]` is [`ProfileWriteState::Ready`],
/// and step `i` takes `states[i]` and `events[i]` to `states[i + 1]` and
/// `actions[i]`.
pub open spec fn is_run(
    states: Seq<ProfileWriteState>,
    events: Seq<ProfileWriteEvent>,
    actions: Seq<ProfileWriteAction>,
) -> bool {
    &&& states.len() == events.len() + 1
    &&& actions.len() == events.len()
    &&& states[0] == ProfileWriteState::Ready
    &&& forall|i: int|
        0 <= i < events.len() ==> event_fits(states[i], #[trigger] events[i]) && step_holds(
            states[i],
            events[i],
            (states[i + 1], actions[i]),
        )
}

/// The action copies, removes or replaces the profile.
pub open spec fn touches_profile(action: ProfileWriteAction) -> bool {
    ||| action is CopyProfileToBackup
    ||| action is RemoveProfile
    ||| action is RenameTempOntoProfile
    ||| action is RestoreBackupThenFinish
}

/// Among the first `n` events the content check succeeded.
pub open spec fn content_checked_by(events: Seq<ProfileWriteEvent>, n: int) -> bool {
    exists|j: int| 0 <= j < n && #[trigger] events[j] matches ProfileWriteEvent::ContentChecked(Ok(_))
}

/// Among the first `n` events the check of the temporary file succeeded.
pub open spec fn temp_checked_by(events: Seq<ProfileWriteEvent>, n: int) -> bool {
    exists|j: int| 0 <= j < n && #[trigger] events[j] matches ProfileWriteEvent::TempChecked { result: Ok(_), .. }
}

/// The checks that each stage has passed.
spec fn stage_invariant(state: ProfileWriteState, events: Seq<ProfileWriteEvent>, n: int) -> bool {
    &&& (state == ProfileWriteState::CreatingDir || state == ProfileWriteState::RemovingTemp || state
        == ProfileWriteState::WritingTemp || state == ProfileWriteState::CheckingTemp || state
        == ProfileWriteState::BackingUp || state == ProfileWriteState::RemovingProfile
        || state is Renaming) ==> content_checked_by(events, n)
    &&& (state == ProfileWriteState::BackingUp || state == ProfileWriteState::RemovingProfile
        || state is Renaming) ==> temp_checked_by(events, n)
}

proof fn lemma_stage_invariant(
    states: Seq<ProfileWriteState>,
    events: Seq<ProfileWriteEvent>,
    actions: Seq<ProfileWriteAction>,
    n: int,
)
    requires
        is_run(states, events, actions),
        0 <= n <= events.len(),
    ensures
        stage_invariant(states[n], events, n),
    decreases n,
{
    if n > 0 {
        lemma_stage_invariant(states, events, actions, n - 1);
        let i = n - 1;
        assert(event_fits(states[i], events[i]) && step_holds(states[i], events[i], (states[i + 1], actions[i])));
        if content_checked_by(events, i) {
            let j = choose|j: int| 0 <= j < i && #[trigger] events[j] matches ProfileWriteEvent::ContentChecked(Ok(_));
            assert(events[j] matches ProfileWriteEvent::ContentChecked(Ok(_)));
        }
        if temp_checked_by(events, i) {
            let j = choose|j: int| 0 <= j < i && #[trigger] events[j] matches ProfileWriteEvent::TempChecked { result: Ok(_), .. };
            assert(events[j] matches ProfileWriteEvent::TempChecked { result: Ok(_), .. });
        }
        match events[i] {
            ProfileWriteEvent::ContentChecked(Ok(_)) => {
                assert(events[i] matches ProfileWriteEvent::ContentChecked(Ok(_)));
            },
            ProfileWriteEvent::TempChecked { result: Ok(_), .. } => {
                assert(events[i] matches ProfileWriteEvent::TempChecked { result: Ok(_), .. });
            },
            _ => {},
        }
    }
}

/// Law: the profile is copied, removed, replaced or restored only after both
/// the content and the temporary file passed their syntax checks.
pub proof fn lemma_profile_untouched_until_checked(
    states: Seq<ProfileWriteState>,
    events: Seq<ProfileWriteEvent>,
    actions: Seq<ProfileWriteAction>,
    i: int,
)
    requires
        is_run(states, events, actions),
        0 <= i < actions.len(),
        touches_profile(actions[i]),
    ensures
        content_checked_by(events, i + 1),
        temp_checked_by(events, i + 1),
{
    lemma_stage_invariant(states, events, actions, i);
    assert(event_fits(states[i], events[i]) && step_holds(states[i], events[i], (states[i + 1], actions[i])));
    if content_checked_by(events, i) {
        let j = choose|j: int| 0 <= j < i && #[trigger] events[j] matches ProfileWriteEvent::ContentChecked(Ok(_));
        assert(events[j] matches ProfileWriteEvent::ContentChecked(Ok(_)));
    }
    if temp_checked_by(events, i) {
        let j = choose|j: int| 0 <= j < i && #[trigger] events[j] matches ProfileWriteEvent::TempChecked { result: Ok(_), .. };
        assert(events[j] matches ProfileWriteEvent::TempChecked { result: Ok(_), .. });
    }
    match events[i] {
        ProfileWriteEvent::TempChecked { result: Ok(_), .. } => {
            assert(events[i] matches ProfileWriteEvent::TempChecked { result: Ok(_), .. });
        },
        _ => {},
    }
}

/// Law: the profile is copied to its backup only when it exists, and removed
/// only right after that copy succeeded; the temporary file is renamed onto
/// the profile only when no profile exists or right after it was removed; the
/// backup is put back exactly when the rename failed after a profile had
/// existed, the profile is gone and the backup exists.
pub proof fn lemma_backup_before_removal(
    states: Seq<ProfileWriteState>,
    events: Seq<ProfileWriteEvent>,
    actions: Seq<ProfileWriteAction>,
    i: int,
)
    requires
        is_run(states, events, actions),
        0 <= i < actions.len(),
    ensures
        actions[i] is CopyProfileToBackup ==> events[i] matches ProfileWriteEvent::TempChecked {
            result: Ok(_),
            profile_exists: true,
        },
        actions[i] is RemoveProfile ==> {
            &&& i >= 1
            &&& actions[i - 1] is CopyProfileToBackup
            &&& events[i] matches ProfileWriteEvent::BackedUp(Ok(_))
        },
        actions[i] is RenameTempOntoProfile ==> (events[i] matches ProfileWriteEvent::TempChecked {
            result: Ok(_),
            profile_exists: false,
        }) || (events[i] matches ProfileWriteEvent::ProfileRemoved(Ok(_))),
        actions[i] is RestoreBackupThenFinish <==> (events[i] matches ProfileWriteEvent::Renamed {
            result: Err(_),
            profile_exists: false,
            backup_exists: true,
        } && states[i] == ProfileWriteState::Renaming { had_profile: true }),
{
    assert(event_fits(states[i], events[i]) && step_holds(states[i], events[i], (states[i + 1], actions[i])));
    if actions[i] is RemoveProfile {
        assert(states[i] == ProfileWriteState::BackingUp);
        assert(i != 0);
        let k = i - 1;
        assert(event_fits(states[k], events[k]) && step_holds(states[k], events[k], (states[k + 1], actions[k])));
    }
    if actions[i] is RestoreBackupThenFinish {
        assert(states[i] is Renaming);
    }
}

} // verus!
