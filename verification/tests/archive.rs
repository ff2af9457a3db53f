use disco_save::archive::{
    backup_steps, base_name, display_name, format_system_time, is_archive, is_fatal,
    is_save_entry, member_kind, payload_name, rewrite_members, session_name, BackupProbe,
    BackupStep, PayloadKind, Payloads,
};

#[test]
fn base_name_drops_the_known_endings() {
    assert_eq!(base_name("save1.ntwtf.zip"), "save1");
    assert_eq!(base_name("save1.ntwtf"), "save1");
    assert_eq!(base_name("save1.zip"), "save1.zip");
    assert_eq!(base_name("save1"), "save1");
    assert_eq!(base_name(".ntwtf"), "");
    assert_eq!(base_name("é.ntwtf.zip"), "é");
    assert_eq!(session_name("save1.zip"), "save1");
    assert_eq!(session_name("save1.ntwtf.zip"), "save1");
    assert_eq!(session_name("save1.ntwtf"), "save1");
    assert_eq!(session_name("zip"), "zip");
}

#[test]
fn archives_end_in_zip() {
    assert!(is_archive("a.ntwtf.zip"));
    assert!(is_archive(".zip"));
    assert!(!is_archive("a.ntwtf"));
    assert!(!is_archive("zip"));
    assert!(is_save_entry("a.ntwtf", true));
    assert!(!is_save_entry("a.ntwtf", false));
    assert!(is_save_entry("a.ntwtf.zip", false));
    assert!(!is_save_entry("a.ntwtf.zip", true));
}

#[test]
fn display_name_drops_every_ending() {
    assert_eq!(display_name("a.ntwtf.zip"), "a");
    assert_eq!(display_name("a.ntwtf"), "a");
    assert_eq!(display_name("a.ntwtf.ntwtf.zipb.ntwtf"), "ab");
    assert_eq!(display_name(".ntwt.ntwtff.zip"), ".ntwtf.zip");
    assert_eq!(display_name("plain"), "plain");
    assert_eq!(
        display_name("x.ntwtf.zip.ntwtf"),
        "x.ntwtf.zip.ntwtf".replace(".ntwtf.zip", "").replace(".ntwtf", "")
    );
}

#[test]
fn payloads_have_their_four_names() {
    assert_eq!(payload_name("s", PayloadKind::FirstJson), "s.1st.ntwtf.json");
    assert_eq!(payload_name("s", PayloadKind::SecondJson), "s.2nd.ntwtf.json");
    assert_eq!(payload_name("s", PayloadKind::LuaDatabase), "s.ntwtf.lua");
    assert_eq!(payload_name("s", PayloadKind::TextStates), "s.states.lua");
    assert_eq!(member_kind("s.ntwtf.lua", "s"), Some(PayloadKind::LuaDatabase));
    assert_eq!(member_kind("s.states.lua", "s"), Some(PayloadKind::TextStates));
    assert_eq!(member_kind("t.states.lua", "s"), None);
    assert_eq!(member_kind("extra.txt", "s"), None);
}

#[test]
fn archive_keeps_other_members_byte_for_byte() {
    let members = vec![
        ("extra.txt".to_string(), vec![0u8, 159, 146, 150, 255]),
        ("s.1st.ntwtf.json".to_string(), b"old1".to_vec()),
        ("s.2nd.ntwtf.json".to_string(), b"old2".to_vec()),
        ("dir/".to_string(), Vec::new()),
        ("s.ntwtf.lua".to_string(), b"old3".to_vec()),
        ("s.states.lua".to_string(), b"old4".to_vec()),
        ("other.states.lua".to_string(), b"keep".to_vec()),
    ];
    let payloads = Payloads {
        first_json: b"new1".to_vec(),
        second_json: b"new2".to_vec(),
        lua_database: b"new3".to_vec(),
        text_states: b"new4".to_vec(),
    };
    let after = rewrite_members(members, "s", &payloads);
    assert_eq!(
        after,
        vec![
            ("extra.txt".to_string(), vec![0u8, 159, 146, 150, 255]),
            ("s.1st.ntwtf.json".to_string(), b"new1".to_vec()),
            ("s.2nd.ntwtf.json".to_string(), b"new2".to_vec()),
            ("dir/".to_string(), Vec::new()),
            ("s.ntwtf.lua".to_string(), b"new3".to_vec()),
            ("s.states.lua".to_string(), b"new4".to_vec()),
            ("other.states.lua".to_string(), b"keep".to_vec()),
        ]
    );
}

#[test]
fn archive_gets_no_member_that_it_did_not_have() {
    let members = vec![("extra.txt".to_string(), b"x".to_vec())];
    let after = rewrite_members(members, "s", &Payloads::default());
    assert_eq!(after, vec![("extra.txt".to_string(), b"x".to_vec())]);
}

fn probe(backup: bool, older: bool, older_dir: bool, live_dir: bool) -> BackupProbe {
    BackupProbe {
        backup_exists: backup,
        older_exists: older,
        older_is_dir: older_dir,
        live_is_dir: live_dir,
    }
}

#[test]
fn first_save_only_copies() {
    assert_eq!(backup_steps(probe(false, false, false, false)), vec![BackupStep::CopyLiveToBackup]);
    assert_eq!(
        backup_steps(probe(false, true, true, true)),
        vec![BackupStep::CreateBackupDir, BackupStep::CopyFilesIntoBackup]
    );
}

#[test]
fn later_saves_rotate_two_generations() {
    assert_eq!(
        backup_steps(probe(true, false, false, true)),
        vec![
            BackupStep::RenameBackupToOlder,
            BackupStep::CreateBackupDir,
            BackupStep::CopyFilesIntoBackup
        ]
    );
    assert_eq!(
        backup_steps(probe(true, true, true, true)),
        vec![
            BackupStep::RemoveOlderDir,
            BackupStep::RenameBackupToOlder,
            BackupStep::CreateBackupDir,
            BackupStep::CopyFilesIntoBackup
        ]
    );
    assert_eq!(
        backup_steps(probe(true, true, false, false)),
        vec![
            BackupStep::RemoveOlderFile,
            BackupStep::RenameBackupToOlder,
            BackupStep::CopyLiveToBackup
        ]
    );
}

#[test]
fn only_the_making_of_the_backup_is_fatal() {
    assert!(is_fatal(BackupStep::CreateBackupDir));
    assert!(is_fatal(BackupStep::CopyFilesIntoBackup));
    assert!(is_fatal(BackupStep::CopyLiveToBackup));
    assert!(!is_fatal(BackupStep::RemoveOlderDir));
    assert!(!is_fatal(BackupStep::RemoveOlderFile));
    assert!(!is_fatal(BackupStep::RenameBackupToOlder));
}

#[test]
fn time_is_days_hours_and_minutes() {
    assert_eq!(format_system_time(0), "0-00:00");
    assert_eq!(format_system_time(86400 * 19000 + 3600 * 7 + 60 * 5 + 59), "19000-07:05");
    assert_eq!(format_system_time(86399), "0-23:59");
    assert_eq!(format_system_time(u64::MAX), "213503982334601-07:00");
}
