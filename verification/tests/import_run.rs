use platen::import_dto::{ImportFailure, ImportStatus, ImportSummary};
use platen::import_run::{Failure, ImportStateKind, ImportTracker, Outcome, Status, Summary};

#[test]
fn running_guard_marks_running_while_held() {
    let mut tracker = ImportTracker::default();
    tracker.try_begin_import().expect("begin when idle");
    assert!(
        tracker.status().running,
        "running must be true while the guard is held"
    );
}

#[test]
fn running_guard_clears_running_on_drop() {
    let mut tracker = ImportTracker::default();
    {
        tracker.try_begin_import().expect("begin when idle");
        assert!(
            tracker.status().running,
            "running must be true while the guard is held"
        );
        tracker.release();
    }
    assert!(
        !tracker.status().running,
        "running must be false after the guard drops"
    );
}

#[test]
fn running_guard_rejects_second_begin_while_held() {
    let mut tracker = ImportTracker::default();
    tracker.try_begin_import().expect("first begin when idle");
    let status = tracker
        .try_begin_import()
        .expect_err("a second begin while running must be rejected");
    assert!(status.running);
    assert!(status.last_summary.is_none());
}

#[test]
fn running_guard_allows_reacquire_after_drop() {
    let mut tracker = ImportTracker::default();
    {
        tracker.try_begin_import().expect("begin when idle");
        tracker.release();
    }
    tracker
        .try_begin_import()
        .expect("a fresh begin must succeed once the guard has dropped");
}

#[test]
fn a_finished_run_is_reported_with_its_summary() {
    let mut tracker = ImportTracker::default();
    tracker.try_begin_import().expect("begin when idle");
    let mut summary = Summary::new(4);
    summary.record("A".to_string(), Ok(Outcome::Created));
    summary.record("B".to_string(), Ok(Outcome::Linked));
    summary.skip();
    summary.record("C".to_string(), Err("no tidal matches".to_string()));
    tracker.finish(summary.copy());
    let status = tracker.status();
    assert!(!status.running);
    assert_eq!(status.state(), ImportStateKind::Idle);
    let last = status.last_summary.expect("last summary");
    assert_eq!((last.total_scanned, last.created, last.linked, last.skipped, last.failed), (4, 1, 1, 1, 1));
    assert_eq!(last.failures.len(), 1);
    assert_eq!(last.failures[0].name, "C");
    assert_eq!(last.failures[0].reason, "no tidal matches");
    tracker.try_begin_import().expect("begin again");
    let refused = tracker.try_begin_import().expect_err("refused while running");
    assert_eq!(refused.state(), ImportStateKind::Running);
    assert_eq!(refused.last_summary, Some(summary));
}

#[test]
fn client_status_names_the_state_and_keeps_the_summary() {
    let mut summary = Summary::new(3);
    summary.created = 1;
    summary.failed = 1;
    summary.failures.push(Failure { name: "Album".to_string(), reason: "no match".to_string() });
    let status = ImportStatus::from(Status { running: false, last_summary: Some(summary) });
    assert_eq!(status.state, ImportStateKind::Idle);
    assert_eq!(
        status.last_summary,
        Some(ImportSummary {
            total_scanned: 3,
            created: 1,
            linked: 0,
            skipped: 0,
            failed: 1,
            failures: vec![ImportFailure { name: "Album".to_string(), reason: "no match".to_string() }],
        })
    );
    let running = ImportStatus::from(Status { running: true, last_summary: None });
    assert_eq!(running.state, ImportStateKind::Running);
    assert_eq!(running.last_summary, None);
}
