use sassytalkie::cohort_history::{CohortHistory, CohortRole, ParticipantSnapshot};

#[test]
fn test_lru_eviction_at_cap() {
    let mut h = CohortHistory::new(3);
    for i in 0..5 {
        h.upsert_host(1, &format!("g{}", i), None, "sid", 1000 + i as u64);
    }
    assert_eq!(h.list().len(), 3, "must evict to cap");
    let names: Vec<&str> = h.list().iter().map(|r| r.group_name.as_str()).collect();
    assert!(names.contains(&"g4"));
    assert!(names.contains(&"g3"));
    assert!(names.contains(&"g2"));
    assert!(!names.contains(&"g0"));
    assert!(!names.contains(&"g1"));
}

#[test]
fn test_remove() {
    let mut h = CohortHistory::new(50);
    let cid = h.upsert_host(1, "Alpha", None, "sid-1", 1000);
    h.upsert_host(2, "Beta", None, "sid-2", 1001);
    assert_eq!(h.list().len(), 2);
    h.remove(&cid);
    assert_eq!(h.list().len(), 1);
    assert_eq!(h.list()[0].group_name, "Beta");
}

#[test]
fn test_clear() {
    let mut h = CohortHistory::new(50);
    h.upsert_host(1, "Alpha", None, "sid", 1000);
    h.upsert_host(2, "Beta", None, "sid2", 1001);
    h.clear();
    assert_eq!(h.list().len(), 0);
}

#[test]
fn test_upsert_joiner_creates_joined_record() {
    let mut h = CohortHistory::new(50);
    let cid = h.upsert_joiner(1, "Alpha", Some("c-123"), "Sarah's Moto", "sid-1", 1000);
    assert_eq!(cid, "c-123");
    let rec = h.find("c-123").unwrap();
    assert_eq!(rec.role, CohortRole::Joined);
    assert_eq!(rec.host_device.as_deref(), Some("Sarah's Moto"));
    assert_eq!(rec.group_name, "Alpha");
}

#[test]
fn test_role_promotion_joined_then_hosted_becomes_both() {
    let mut h = CohortHistory::new(50);
    h.upsert_joiner(1, "Alpha", Some("c-1"), "Host", "sid-a", 1000);
    h.upsert_host(1, "Alpha", Some("c-1"), "sid-b", 1001);
    assert_eq!(h.find("c-1").unwrap().role, CohortRole::Both);
}

#[test]
fn test_role_promotion_hosted_then_joined_becomes_both() {
    let mut h = CohortHistory::new(50);
    h.upsert_host(1, "Alpha", Some("c-1"), "sid-a", 1000);
    h.upsert_joiner(1, "Alpha", Some("c-1"), "Host", "sid-b", 1001);
    assert_eq!(h.find("c-1").unwrap().role, CohortRole::Both);
}

#[test]
fn test_orphan_merge_within_window() {
    let mut h = CohortHistory::new(50);
    h.upsert_joiner(1, "Alpha", Some("c-local"), "Host", "sid-a", 1000);
    let result = h.upsert_joiner(1, "Alpha", Some("c-real"), "Host", "sid-b", 1000 + 29 * 24 * 3600);
    assert_eq!(result, "c-real", "must adopt incoming cohort_id");
    assert!(h.find("c-local").is_none(), "orphan must be merged away");
    let merged = h.find("c-real").unwrap();
    assert_eq!(merged.last_session_id, "sid-b");
}

#[test]
fn test_orphan_merge_skipped_outside_window() {
    let mut h = CohortHistory::new(50);
    h.upsert_joiner(1, "Alpha", Some("c-local"), "Host", "sid-a", 1000);
    h.upsert_joiner(1, "Alpha", Some("c-real"), "Host", "sid-b", 1000 + 31 * 24 * 3600);
    assert!(h.find("c-local").is_some(), "stale orphan stays");
    assert!(h.find("c-real").is_some(), "new record added separately");
}

#[test]
fn future_dated_orphan_is_not_merged() {
    let mut h = CohortHistory::new(50);
    h.upsert_joiner(1, "Alpha", Some("c-local"), "Host", "sid-a", 5000);
    h.upsert_joiner(1, "Alpha", Some("c-real"), "Host", "sid-b", 4000);
    assert!(h.find("c-local").is_some());
    assert_eq!(h.list()[0].cohort_id, "c-local");
}

#[test]
fn host_reuses_hosted_record_for_same_channel_and_group() {
    let mut h = CohortHistory::new(50);
    let first = h.upsert_host(3, "Gamma", None, "s1", 10);
    assert_eq!(first.len(), 36);
    let second = h.upsert_host(3, "Gamma", Some(""), "s2", 20);
    assert_eq!(first, second);
    assert_eq!(h.list().len(), 1);
    assert_eq!(h.list()[0].last_session_id, "s2");
    assert_eq!(h.list()[0].created_at, 10);
}

#[test]
fn joiner_without_id_mints_one() {
    let mut h = CohortHistory::new(0);
    let cid = h.upsert_joiner(1, "Delta", None, "Host", "sid", 7);
    assert_eq!(cid.len(), 36);
    h.upsert_joiner(2, "Echo", Some("c-e"), "Host", "sid", 8);
    // Cap 0 is raised to 1: only the most recent record stays.
    assert_eq!(h.list().len(), 1);
    assert_eq!(h.list()[0].cohort_id, "c-e");
}

#[test]
fn snapshot_replaces_participants_of_known_cohort_only() {
    let mut h = CohortHistory::new(50);
    h.upsert_joiner(2, "Beta", Some("c-2"), "HostDev", "session-uuid-2", 1001);
    h.snapshot_participants("c-2", vec![ParticipantSnapshot { id: "abcd1234".into(), name: "Alice".into() }]);
    h.snapshot_participants("c-unknown", vec![ParticipantSnapshot { id: "x".into(), name: "X".into() }]);
    let rec = h.find("c-2").unwrap();
    assert_eq!(rec.last_participants.len(), 1);
    assert_eq!(rec.last_participants[0].name, "Alice");
    assert!(h.find("c-unknown").is_none());
}

#[test]
fn from_records_sorts_and_caps() {
    let mut a = CohortHistory::new(10);
    a.upsert_host(1, "old", Some("a"), "s", 1);
    a.upsert_host(1, "new", Some("b"), "s", 3);
    a.upsert_host(1, "mid", Some("c"), "s", 2);
    let recs = a.into_records();
    let h = CohortHistory::from_records(recs, 2);
    let ids: Vec<&str> = h.list().iter().map(|r| r.cohort_id.as_str()).collect();
    assert_eq!(ids, vec!["b", "c"]);
}
