//! The consent store and its timestamps.

use mcp_locator::consent::{
    civil_from_days, rfc3339, rfc3339_now, ConsentRecord, ConsentScope, ConsentState, ConsentStore, FileIdentity,
};
use mcp_locator::dirs::Platform;

fn store() -> ConsentStore {
    ConsentStore::load(Platform::Unix, "/state")
}

fn copy(records: &Vec<(String, ConsentRecord)>) -> Vec<(String, ConsentRecord)> {
    records.iter().map(|(n, r)| (n.clone(), r.duplicate())).collect()
}

fn identity(secs: u64, len: u64) -> Option<FileIdentity> {
    Some(FileIdentity { modified_secs: secs, modified_nanos: 0, len })
}

#[test]
fn timestamps_are_rfc3339() {
    let now = rfc3339_now();
    assert_eq!(now.len(), 20, "{now}");
    assert!(now.ends_with('Z'));
    assert_eq!(civil_from_days(0), (1970, 1, 1));
    assert_eq!(civil_from_days(19_723), (2024, 1, 1));
}

#[test]
fn rfc3339_formats_known_instants() {
    assert_eq!(rfc3339(0), "1970-01-01T00:00:00Z");
    assert_eq!(rfc3339(1_704_067_200), "2024-01-01T00:00:00Z");
    assert_eq!(rfc3339(951_782_400), "2000-02-29T00:00:00Z");
    assert_eq!(rfc3339(86_399), "1970-01-01T23:59:59Z");
    assert_eq!(rfc3339(-1), "1969-12-31T23:59:59Z");
    assert_eq!(civil_from_days(-719_468), (0, 3, 1));
}

#[test]
fn the_store_lives_in_the_state_directory() {
    assert_eq!(store().path(), "/state/consent.json");
}

#[test]
fn absent_store_reads_as_not_asked() {
    let mut s = store();
    s.refresh(None, None);
    assert_eq!(s.evaluate("com.example.app", "sha256:x").state, ConsentState::NotAsked);
}

#[test]
fn granted_survives_an_unchanged_launch_stanza() {
    let mut s = store();
    s.grant("com.example.app", "sha256:aaa", "notes.exe --serve", ConsentScope::User);
    assert_eq!(s.evaluate("com.example.app", "sha256:aaa").state, ConsentState::Granted);
    // A changed launch command must invalidate the approval rather than ride on the name.
    let stale = s.evaluate("com.example.app", "sha256:bbb");
    assert_eq!(stale.state, ConsentState::Stale);
    assert_eq!(stale.launch_command.as_deref(), Some("notes.exe --serve"));
}

#[test]
fn denial_is_never_reinterpreted() {
    let mut s = store();
    s.deny("com.example.app");
    assert_eq!(s.evaluate("com.example.app", "sha256:anything").state, ConsentState::Denied);
}

#[test]
fn forgetting_means_not_asked() {
    let mut s = store();
    s.deny("com.example.app");
    s.forget("com.example.app");
    assert_eq!(s.evaluate("com.example.app", "sha256:x").state, ConsentState::NotAsked);
}

#[test]
fn a_decision_written_by_someone_else_is_picked_up() {
    let mut held = store();
    held.refresh(None, None);
    assert_eq!(held.evaluate("com.example.app", "sha256:aaa").state, ConsentState::NotAsked);

    let mut other = store();
    other.grant("com.example.app", "sha256:aaa", "app.exe", ConsentScope::User);
    let on_disk = copy(other.records());

    held.refresh(identity(10, 100), Some(on_disk));
    assert_eq!(
        held.evaluate("com.example.app", "sha256:aaa").state,
        ConsentState::Granted,
        "the long-lived store must see a decision made by another process"
    );
}

#[test]
fn an_unchanged_file_is_not_read_again() {
    let mut s = store();
    s.refresh(identity(10, 100), Some(Vec::new()));
    s.grant("a.b", "sha256:a", "a.exe", ConsentScope::User);
    assert!(!s.needs_reload(identity(10, 100)));
    s.refresh(identity(10, 100), Some(Vec::new()));
    assert_eq!(s.evaluate("a.b", "sha256:a").state, ConsentState::Granted);
    assert!(s.needs_reload(identity(11, 100)));
}

#[test]
fn writing_does_not_erase_someone_elses_decision() {
    let mut held = store();
    held.grant("com.example.first", "sha256:a", "first.exe", ConsentScope::User);
    let mut other = store();
    other.refresh(identity(1, 10), Some(copy(held.records())));
    other.grant("com.example.second", "sha256:b", "second.exe", ConsentScope::User);
    let disk = copy(other.records());
    // `held` has never seen `second`; a write through it starts from what is on disk.
    held.refresh(identity(2, 20), Some(disk));
    held.deny("com.example.third");
    let names: Vec<&str> = held.records().iter().map(|(n, _)| n.as_str()).collect();
    assert_eq!(
        names,
        vec!["com.example.first", "com.example.second", "com.example.third"],
        "a write must merge with what is on disk, not replace it"
    );
}

#[test]
fn records_stay_in_name_order() {
    let mut s = store();
    s.deny("z.z");
    s.deny("a.a");
    s.grant("m.m", "sha256:m", "m", ConsentScope::Client);
    s.deny("a.a");
    let names: Vec<&str> = s.records().iter().map(|(n, _)| n.as_str()).collect();
    assert_eq!(names, vec!["a.a", "m.m", "z.z"]);
    assert_eq!(s.records()[1].1.scope, Some(ConsentScope::Client));
}

#[test]
fn a_write_modifies_what_is_on_disk() {
    let mut mine = store();
    mine.grant("a.b", "sha256:aa", "a", ConsentScope::User);
    mine.note_written(identity(1, 10));
    // Someone else wrote the file since: it now holds only their decision on c.d.
    let mut theirs = store();
    theirs.deny("c.d");
    let on_disk = copy(theirs.records());
    mine.refresh_and_grant(identity(2, 20), Some(on_disk), "e.f", "sha256:ee", "e", ConsentScope::User);
    assert_eq!(mine.evaluate("c.d", "x").state, ConsentState::Denied);
    assert_eq!(mine.evaluate("e.f", "sha256:ee").state, ConsentState::Granted);
    assert_eq!(mine.evaluate("a.b", "sha256:aa").state, ConsentState::NotAsked);
    // Unchanged file: what the store holds is kept and the contents are not looked at.
    mine.refresh_and_forget(identity(2, 20), None, "e.f");
    assert_eq!(mine.evaluate("e.f", "sha256:ee").state, ConsentState::NotAsked);
    assert_eq!(mine.evaluate("c.d", "x").state, ConsentState::Denied);
    mine.refresh_and_deny(identity(2, 20), None, "g.h");
    assert_eq!(mine.records().len(), 2);
}
