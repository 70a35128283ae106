use processfox_core::freshness::{classify, stale_paths, FreshnessTracker, StaleReason};
use processfox_core::paths::{FsPath, PathComponent};

fn path(t: &str) -> FsPath {
    let mut components = vec![PathComponent::RootDir];
    for part in t.split('/').filter(|p| !p.is_empty()) {
        components.push(PathComponent::Normal(part.as_bytes().to_vec()));
    }
    FsPath { components }
}

fn stale_reasons(t: &FreshnessTracker, agent: &str, now: &[Option<i128>]) -> Vec<StaleReason> {
    let reads = t.reads_for(agent);
    assert_eq!(reads.len(), now.len());
    stale_paths(&reads, &now.to_vec()).into_iter().map(|e| e.reason).collect()
}

#[test]
fn record_then_unchanged_is_not_stale() {
    let mut t = FreshnessTracker::new();
    t.record_read("agent1", Some((path("/d/a.md"), 100)));
    assert!(stale_reasons(&t, "agent1", &[Some(100)]).is_empty());
}

#[test]
fn external_modification_is_detected() {
    let mut t = FreshnessTracker::new();
    t.record_read("agent1", Some((path("/d/a.md"), 100)));
    assert_eq!(stale_reasons(&t, "agent1", &[Some(1_100_000_100)]), vec![StaleReason::Modified]);
}

#[test]
fn deletion_is_detected_as_removed() {
    let mut t = FreshnessTracker::new();
    t.record_read("agent1", Some((path("/d/a.md"), 100)));
    assert_eq!(stale_reasons(&t, "agent1", &[None]), vec![StaleReason::Removed]);
}

#[test]
fn agent_isolation() {
    let mut t = FreshnessTracker::new();
    t.record_read("agent_a", Some((path("/d/a.md"), 100)));
    assert_eq!(stale_reasons(&t, "agent_a", &[Some(200)]), vec![StaleReason::Modified]);
    assert!(t.reads_for("agent_b").is_empty());
}

#[test]
fn nonexistent_path_record_is_silent() {
    let mut t = FreshnessTracker::new();
    t.record_read("agent1", None);
    assert!(t.reads_for("agent1").is_empty());
}

#[test]
fn rereading_replaces_the_recorded_time() {
    let mut t = FreshnessTracker::new();
    t.record_read("agent1", Some((path("/d/a.md"), 100)));
    t.record_read("agent1", Some((path("/d/b.md"), 50)));
    t.record_read("agent1", Some((path("/d/a.md"), 300)));
    let reads = t.reads_for("agent1");
    assert_eq!(reads.len(), 2);
    assert_eq!(reads[0].1, 300);
    assert!(reads[0].0.equals(&path("/d/a.md")));
    assert_eq!(stale_reasons(&t, "agent1", &[Some(300), Some(50)]), Vec::<StaleReason>::new());
    assert_eq!(stale_reasons(&t, "agent1", &[Some(300), Some(40)]), vec![StaleReason::Modified]);
}

#[test]
fn classification_of_one_file() {
    assert_eq!(classify(10, Some(10)), None);
    assert_eq!(classify(10, Some(9)), Some(StaleReason::Modified));
    assert_eq!(classify(10, Some(11)), Some(StaleReason::Modified));
    assert_eq!(classify(10, None), Some(StaleReason::Removed));
}
