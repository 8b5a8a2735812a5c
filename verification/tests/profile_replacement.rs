use cx_manager::paths::backup_file_name;
use cx_manager::profile::{profile_file_bytes, strip_profile_bom};
use cx_manager::profile_write::{
    event_fits_state, profile_write_step, ProfileWriteAction, ProfileWriteEvent, ProfileWriteState,
};

/// A folder holding the profile, its backup and the temporary file, in memory.
#[derive(Default)]
struct Folder {
    profile: Option<Vec<u8>>,
    backup: Option<Vec<u8>>,
    temp: Option<Vec<u8>>,
    content_error: Option<String>,
    rename_error: Option<String>,
    log: Vec<&'static str>,
}

fn replace(folder: &mut Folder, content: &str) -> Result<(), String> {
    let mut state = ProfileWriteState::Ready;
    let mut event = ProfileWriteEvent::Start;
    loop {
        assert!(event_fits_state(&state, &event));
        let (next, action) = profile_write_step(state, event);
        state = next;
        event = match action {
            ProfileWriteAction::CheckContent => {
                folder.log.push("check content");
                ProfileWriteEvent::ContentChecked(match &folder.content_error {
                    Some(e) => Err(e.clone()),
                    None => Ok(()),
                })
            }
            ProfileWriteAction::CreateProfileDir => {
                folder.log.push("create dir");
                ProfileWriteEvent::DirCreated {
                    result: Ok(()),
                    temp_exists: folder.temp.is_some(),
                }
            }
            ProfileWriteAction::RemoveTemp => {
                folder.log.push("remove temp");
                folder.temp = None;
                ProfileWriteEvent::TempRemoved(Ok(()))
            }
            ProfileWriteAction::WriteTemp => {
                folder.log.push("write temp");
                folder.temp = Some(profile_file_bytes(content));
                ProfileWriteEvent::TempWritten(Ok(()))
            }
            ProfileWriteAction::CheckTemp => {
                folder.log.push("check temp");
                ProfileWriteEvent::TempChecked {
                    result: Ok(()),
                    profile_exists: folder.profile.is_some(),
                }
            }
            ProfileWriteAction::CopyProfileToBackup => {
                folder.log.push("backup");
                folder.backup = folder.profile.clone();
                ProfileWriteEvent::BackedUp(Ok(()))
            }
            ProfileWriteAction::RemoveProfile => {
                folder.log.push("remove profile");
                folder.profile = None;
                ProfileWriteEvent::ProfileRemoved(Ok(()))
            }
            ProfileWriteAction::RenameTempOntoProfile => {
                folder.log.push("rename");
                let result = match &folder.rename_error {
                    Some(e) => Err(e.clone()),
                    None => {
                        folder.profile = folder.temp.take();
                        Ok(())
                    }
                };
                ProfileWriteEvent::Renamed {
                    result,
                    profile_exists: folder.profile.is_some(),
                    backup_exists: folder.backup.is_some(),
                }
            }
            ProfileWriteAction::RestoreBackupThenFinish(message) => {
                folder.log.push("restore");
                folder.profile = folder.backup.clone();
                return Err(message);
            }
            ProfileWriteAction::Finish(result) => return result,
        };
    }
}

fn read(bytes: &Option<Vec<u8>>) -> String {
    let bytes = bytes.as_ref().expect("file");
    strip_profile_bom(std::str::from_utf8(bytes).expect("utf-8")).to_string()
}

#[test]
fn writing_existing_profile_creates_backup_before_replace() {
    let original = "Write-Host \"original\"\n";
    let replacement = "Write-Host \"replacement\"\n";
    let mut folder = Folder {
        profile: Some(original.as_bytes().to_vec()),
        ..Folder::default()
    };

    replace(&mut folder, replacement).expect("write replacement");

    assert_eq!(read(&folder.profile), replacement);
    assert_eq!(read(&folder.backup), original);
    assert_eq!(
        backup_file_name(Some("Microsoft.PowerShell_profile.ps1")),
        "Microsoft.PowerShell_profile.ps1.cxmanager.bak"
    );
    assert_eq!(
        folder.log,
        vec![
            "check content",
            "create dir",
            "write temp",
            "check temp",
            "backup",
            "remove profile",
            "rename"
        ]
    );
}

#[test]
fn new_profile_is_written_without_backup() {
    let mut folder = Folder {
        temp: Some(b"stale".to_vec()),
        ..Folder::default()
    };
    replace(&mut folder, "x").expect("write");
    assert_eq!(read(&folder.profile), "x");
    assert!(folder.backup.is_none());
    assert_eq!(
        folder.log,
        vec!["check content", "create dir", "remove temp", "write temp", "check temp", "rename"]
    );
}

#[test]
fn failed_content_check_touches_nothing() {
    let mut folder = Folder {
        profile: Some(b"old".to_vec()),
        content_error: Some("syntax error".to_string()),
        ..Folder::default()
    };
    assert_eq!(replace(&mut folder, "bad {"), Err("syntax error".to_string()));
    assert_eq!(folder.profile, Some(b"old".to_vec()));
    assert_eq!(folder.log, vec!["check content"]);
}

#[test]
fn failed_rename_restores_the_backup() {
    let mut folder = Folder {
        profile: Some(b"old".to_vec()),
        rename_error: Some("denied".to_string()),
        ..Folder::default()
    };
    assert_eq!(
        replace(&mut folder, "new"),
        Err("替换 Profile 失败: denied".to_string())
    );
    assert_eq!(folder.profile, Some(b"old".to_vec()));
    assert_eq!(folder.log.last(), Some(&"restore"));
}

#[test]
fn each_failed_operation_names_itself() {
    let cases: Vec<(ProfileWriteState, ProfileWriteEvent, &str)> = vec![
        (
            ProfileWriteState::CreatingDir,
            ProfileWriteEvent::DirCreated {
                result: Err("e".to_string()),
                temp_exists: false,
            },
            "创建 Profile 目录失败: e",
        ),
        (
            ProfileWriteState::RemovingTemp,
            ProfileWriteEvent::TempRemoved(Err("e".to_string())),
            "清理临时 Profile 失败: e",
        ),
        (
            ProfileWriteState::WritingTemp,
            ProfileWriteEvent::TempWritten(Err("e".to_string())),
            "写入临时 Profile 失败: e",
        ),
        (
            ProfileWriteState::CheckingTemp,
            ProfileWriteEvent::TempChecked {
                result: Err("e".to_string()),
                profile_exists: true,
            },
            "e",
        ),
        (
            ProfileWriteState::BackingUp,
            ProfileWriteEvent::BackedUp(Err("e".to_string())),
            "备份 Profile 失败: e",
        ),
        (
            ProfileWriteState::RemovingProfile,
            ProfileWriteEvent::ProfileRemoved(Err("e".to_string())),
            "准备替换 Profile 失败: e",
        ),
        (
            ProfileWriteState::Renaming { had_profile: false },
            ProfileWriteEvent::Renamed {
                result: Err("e".to_string()),
                profile_exists: false,
                backup_exists: true,
            },
            "替换 Profile 失败: e",
        ),
    ];
    for (state, event, message) in cases {
        let (next, action) = profile_write_step(state, event);
        assert_eq!(next, ProfileWriteState::Finished);
        match action {
            ProfileWriteAction::Finish(Err(m)) => assert_eq!(m, message),
            _ => panic!("expected a failure"),
        }
    }
}
