use emphasize::config::{Config, ConfigBuilder, OperatingMode};
use emphasize::walk::event::WalkerEvent;
use emphasize::walk::{
    translate_watch_event, BatchAction, Batcher, ChangeCounter, PollOutcome, WatchAction,
    WatchKind, QUIESCENCE_MILLIS,
};

#[test]
fn defaults_fill_unset_fields() {
    let config = ConfigBuilder::new().build_with_defaults();
    assert_eq!(config.cache_dir(), ".emphasize/cache");
    assert_eq!(config.db(), ".emphasize/content.db");
    assert_eq!(config.content_dir(), "blog");
    assert!(!config.debug());
    assert_eq!(config.operating_mode(), OperatingMode::ReadWrite);
    assert_eq!(Config::default().content_dir, "blog");
}

#[test]
fn later_sources_win_the_merge() {
    let lower = ConfigBuilder {
        cache_dir: Some("low-cache".to_string()),
        db: Some("low-db".to_string()),
        debug: None,
        content_dir: None,
        operating_mode: None,
    };
    let upper = ConfigBuilder {
        cache_dir: Some("high-cache".to_string()),
        db: None,
        debug: Some(true),
        content_dir: None,
        operating_mode: Some(OperatingMode::ReadOnly),
    };
    let merged = lower.or(upper).build_with_defaults();
    assert_eq!(merged.cache_dir(), "high-cache");
    assert_eq!(merged.db(), "low-db");
    assert!(merged.debug());
    assert_eq!(merged.content_dir(), "blog");
    assert_eq!(merged.operating_mode(), OperatingMode::ReadOnly);
}

#[test]
fn operating_modes_by_name() {
    assert_eq!(OperatingMode::from_name("Read"), Some(OperatingMode::ReadOnly));
    assert_eq!(OperatingMode::from_name("ReadWrite"), Some(OperatingMode::ReadWrite));
    assert_eq!(OperatingMode::from_name("write"), None);
}

#[test]
fn quiescence_batching() {
    assert_eq!(QUIESCENCE_MILLIS, 250);
    let mut batcher = Batcher::new();
    assert!(matches!(batcher.handle(PollOutcome::TimedOut), BatchAction::Wait));
    assert!(matches!(
        batcher.handle(PollOutcome::Received(WalkerEvent::Remove("a".to_string()))),
        BatchAction::Wait
    ));
    assert!(matches!(
        batcher.handle(PollOutcome::Received(WalkerEvent::Remove("b".to_string()))),
        BatchAction::Wait
    ));
    match batcher.handle(PollOutcome::TimedOut) {
        BatchAction::Build(batch) => assert_eq!(batch.len(), 2),
        _ => panic!("a quiet window seals a non-empty batch"),
    }
    assert!(matches!(batcher.handle(PollOutcome::TimedOut), BatchAction::Wait));
    assert!(matches!(batcher.handle(PollOutcome::Closed), BatchAction::Finish));
}

#[test]
fn closed_source_seals_what_is_pending() {
    let mut batcher = Batcher::new();
    batcher.handle(PollOutcome::Received(WalkerEvent::Remove("a".to_string())));
    match batcher.handle(PollOutcome::Closed) {
        BatchAction::Build(batch) => assert_eq!(batch.len(), 1),
        _ => panic!("pending events still seal on shutdown"),
    }
    assert!(matches!(batcher.handle(PollOutcome::Closed), BatchAction::Finish));
}

#[test]
fn watched_files_and_directories_dispatch() {
    assert!(matches!(
        translate_watch_event(WatchKind::Created, "blog/content/a.md", true, false, "blog"),
        Some(WatchAction::IngestFile { update: false })
    ));
    assert!(matches!(
        translate_watch_event(WatchKind::Modified, "blog/content/a.md", true, false, "blog"),
        Some(WatchAction::IngestFile { update: true })
    ));
    // A created directory's files may shadow previously known paths, so its
    // re-walk emits updates, exactly as a modified directory's does.
    assert!(matches!(
        translate_watch_event(WatchKind::Created, "blog/content", false, true, "blog"),
        Some(WatchAction::WalkSubtree { update: true })
    ));
    assert!(matches!(
        translate_watch_event(WatchKind::Modified, "blog/content", false, true, "blog"),
        Some(WatchAction::WalkSubtree { update: true })
    ));
    assert!(matches!(
        translate_watch_event(WatchKind::Created, "blog/gone", false, false, "blog"),
        Some(WatchAction::Ignore)
    ));
}

#[test]
fn removals_are_keyed_lexically_under_the_root() {
    match translate_watch_event(WatchKind::Removed, "blog/content/./a.md", false, false, "blog") {
        Some(WatchAction::Emit(WalkerEvent::Remove(p))) => assert_eq!(p, "content/a.md"),
        _ => panic!("a removal under the root emits its relative path"),
    }
    match translate_watch_event(WatchKind::Removed, "blog", false, false, "blog") {
        Some(WatchAction::Emit(WalkerEvent::Remove(p))) => assert_eq!(p, ""),
        _ => panic!("removing the root itself removes everything"),
    }
    assert!(translate_watch_event(WatchKind::Removed, "elsewhere/x", false, false, "blog")
        .is_none());
}

#[test]
fn the_notifier_counts_commits_monotonically() {
    let mut notifier = ChangeCounter::new();
    assert_eq!(notifier.count, 0);
    notifier.signal();
    notifier.signal();
    assert_eq!(notifier.count, 2);
}
