use std::time::Duration;

use hit_auto_login_core::{RunTrigger, WorkflowCoordinator};

#[test]
fn resume_events_are_deduplicated() {
    let mut coordinator = WorkflowCoordinator::new(Duration::from_secs(20));
    let guard = coordinator.try_begin(RunTrigger::Resume).unwrap();
    coordinator.finish(guard);
    assert!(coordinator.try_begin(RunTrigger::ScreenResume).is_none());
    assert!(coordinator.try_begin(RunTrigger::Manual).is_some());
}

#[test]
fn a_second_run_waits_for_the_first_to_finish() {
    let mut coordinator = WorkflowCoordinator::new(Duration::ZERO);
    let guard = coordinator.try_begin(RunTrigger::Manual).unwrap();
    assert!(coordinator.is_running());
    assert!(coordinator.try_begin(RunTrigger::Manual).is_none());
    assert!(coordinator.try_begin(RunTrigger::Launch).is_none());
    coordinator.finish(guard);
    assert!(!coordinator.is_running());
    assert!(coordinator.try_begin(RunTrigger::Manual).is_some());
}

#[test]
fn cooldown_is_measured_from_the_last_automatic_trigger() {
    let mut coordinator = WorkflowCoordinator::new(Duration::from_secs(20));
    let guard = coordinator.begin_at(RunTrigger::Resume, 1_000).unwrap();
    coordinator.finish(guard);
    assert!(coordinator.begin_at(RunTrigger::ScreenResume, 1_000 + 19_999_999_999).is_none());
    let guard = coordinator.begin_at(RunTrigger::SessionActive, 1_000 + 20_000_000_000).unwrap();
    coordinator.finish(guard);
    // A manual trigger ignores the cooldown and does not restart it.
    let guard = coordinator.begin_at(RunTrigger::Manual, 20_000_001_001).unwrap();
    coordinator.finish(guard);
    assert!(coordinator.begin_at(RunTrigger::Launch, 20_000_001_002).is_none());
}

#[test]
fn automatic_trigger_during_a_run_is_recorded_but_not_run() {
    let mut coordinator = WorkflowCoordinator::new(Duration::from_secs(20));
    let guard = coordinator.begin_at(RunTrigger::Manual, 0).unwrap();
    assert!(coordinator.begin_at(RunTrigger::Resume, 5).is_none());
    coordinator.finish(guard);
    // The refused Resume still started the cooldown.
    assert!(coordinator.begin_at(RunTrigger::ScreenResume, 10).is_none());
}

#[test]
fn trigger_labels_and_kinds() {
    assert!(!RunTrigger::Manual.is_automatic());
    assert!(RunTrigger::Launch.is_automatic());
    assert!(RunTrigger::Resume.is_automatic());
    assert!(RunTrigger::ScreenResume.is_automatic());
    assert!(RunTrigger::SessionActive.is_automatic());
    assert_eq!(RunTrigger::Launch.label(), "登录启动");
    assert_eq!(RunTrigger::Resume.label(), "系统唤醒");
    assert_eq!(RunTrigger::ScreenResume.label(), "屏幕恢复");
    assert_eq!(RunTrigger::SessionActive.label(), "会话恢复");
    assert_eq!(RunTrigger::Manual.label(), "手动检测");
}

#[test]
fn default_coordinator_is_idle() {
    let coordinator = WorkflowCoordinator::default();
    assert!(!coordinator.is_running());
}

/// Eight triggers arrive while no admitted run has finished (the coordinator is shared
/// behind a lock, so they reach it one after the other): exactly one run is admitted.
#[test]
fn concurrent_triggers_allow_only_one_run() {
    let mut coordinator = WorkflowCoordinator::new(Duration::ZERO);
    let mut admitted = Vec::new();
    for _ in 0..8 {
        if let Some(guard) = coordinator.try_begin(RunTrigger::Manual) {
            admitted.push(guard);
        }
    }
    assert_eq!(admitted.len(), 1);
}
