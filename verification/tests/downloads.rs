use platen::antra::{
    check_album_directory, delivery_for, directory_shape, job_poll, single_subdirectory,
    tidal_album_url, AntraError, Delivery, DirectoryShape, JobPoll,
};
use platen::downloads::{
    plan_download, plan_download_with, CancelError, DownloadError, DownloadJobStatus, DownloadPlan,
    DownloadProgress, JobStatus, QueueState, HISTORY_LIMIT,
};

#[test]
fn reports_download_progress_every_five_percent() {
    let mut progress = DownloadProgress::new(Some(1_000));

    assert!(!progress.advance(49));
    assert!(progress.advance(1));
    assert_eq!(progress.percentage(), Some(5));
    assert!(!progress.advance(49));
    assert!(progress.advance(1));
    assert_eq!(progress.percentage(), Some(10));
}

#[test]
fn reports_completion_when_the_last_chunk_is_smaller_than_the_interval() {
    let mut progress = DownloadProgress::new(Some(1_000));

    assert!(progress.advance(960));
    assert!(progress.advance(40));
    assert_eq!(progress.percentage(), Some(100));
}

#[test]
fn does_not_report_progress_when_content_length_is_unknown() {
    let mut progress = DownloadProgress::new(None);

    assert!(!progress.advance(5 * 1024 * 1024));
    assert_eq!(progress.percentage(), None);
}

#[test]
fn a_zero_length_counts_as_unknown_and_percentages_stay_within_bounds() {
    let mut progress = DownloadProgress::new(Some(0));
    assert_eq!(progress.total_bytes, None);
    assert!(!progress.advance(10));
    let mut progress = DownloadProgress::new(Some(10));
    assert!(progress.advance(usize::MAX));
    assert_eq!(progress.percentage(), Some(100));
    assert_eq!(progress.downloaded_bytes, u64::MAX);
}

#[test]
fn the_queue_keeps_one_active_job_per_album() {
    let mut queue = QueueState::new();
    let (first, created) = queue.enqueue_with("album-1".to_string(), "job-1".to_string(), 10);
    assert!(created);
    assert_eq!(first.status, JobStatus::Queued);
    assert_eq!(first.enqueued_at, 10);
    let (again, created) = queue.enqueue_with("album-1".to_string(), "job-2".to_string(), 20);
    assert!(!created);
    assert_eq!(again.id, "job-1");
    assert_eq!(queue.active.len(), 1);
    let (fresh, created) = queue.enqueue("album-2".to_string());
    assert!(created);
    assert_eq!(fresh.id.len(), 21);
    assert_eq!(queue.active.len(), 2);
    queue.withdraw(&fresh.id);
    assert_eq!(queue.active.len(), 1);
}

#[test]
fn only_queued_jobs_can_be_cancelled() {
    let mut queue = QueueState::new();
    queue.enqueue_with("album-1".to_string(), "job-1".to_string(), 1);
    queue.enqueue_with("album-2".to_string(), "job-2".to_string(), 2);
    assert_eq!(queue.cancel_with("missing", 3), Err(CancelError::NotFound));
    let running = queue.mark_running_with("job-1", 4).expect("queued job starts");
    assert_eq!(running.status, JobStatus::Running);
    assert_eq!(running.started_at, Some(4));
    assert_eq!(queue.mark_running_with("job-1", 5), None);
    assert_eq!(queue.cancel_with("job-1", 6), Err(CancelError::Running));
    let cancelled = queue.cancel_with("job-2", 7).expect("queued job cancels");
    assert_eq!(cancelled.status, JobStatus::Cancelled);
    assert_eq!(cancelled.finished_at, Some(7));
    assert_eq!(queue.active.len(), 1);
    assert_eq!(queue.history.len(), 1);
    queue.finish_with("job-1", JobStatus::Failed, Some("Album download failed.".to_string()), 8);
    assert!(queue.active.is_empty());
    assert_eq!(queue.history[0].id, "job-1");
    assert_eq!(queue.history[0].failure_reason.as_deref(), Some("Album download failed."));
    assert_eq!(queue.history[1].id, "job-2");
}

#[test]
fn the_history_keeps_the_newest_hundred_jobs() {
    let mut queue = QueueState::new();
    for index in 0..(HISTORY_LIMIT + 5) {
        let id = format!("job-{index}");
        queue.enqueue_with(format!("album-{index}"), id.clone(), index as i64);
        queue.finish_with(&id, JobStatus::Succeeded, None, index as i64);
    }
    assert_eq!(queue.history.len(), HISTORY_LIMIT);
    assert_eq!(queue.history[0].id, format!("job-{}", HISTORY_LIMIT + 4));
    assert_eq!(queue.history[HISTORY_LIMIT - 1].id, "job-5");
    let (active, history) = queue.snapshot();
    assert!(active.is_empty());
    assert_eq!(history.len(), HISTORY_LIMIT);
}

#[test]
fn client_messages_name_each_failure() {
    assert_eq!(DownloadError::Catalog.client_message(), "Could not load album metadata.");
    assert_eq!(DownloadError::AlreadyDownloaded.client_message(), "Album is already downloaded.");
    assert_eq!(DownloadError::DestinationExists.client_message(), "Album destination already exists.");
    assert_eq!(DownloadError::Transfer.client_message(), "Album download failed.");
    assert_eq!(DownloadError::Save.client_message(), "Could not save the completed download.");
    assert_eq!(DownloadJobStatus::from(JobStatus::Cancelled), DownloadJobStatus::Cancelled);
}

#[test]
fn downloads_are_planned_from_catalog_metadata() {
    assert_eq!(
        plan_download_with("a1", "Title", 0, &None, Some("AC/DC"), 2025, "token"),
        Ok(DownloadPlan {
            relative_path: "AC - DC/Title (2025)".to_string(),
            staging_name: "a1-token".to_string(),
        })
    );
    assert_eq!(
        plan_download_with("a1", "Title", 1999, &None, Some("Artist"), 2025, "t"),
        Ok(DownloadPlan {
            relative_path: "Artist/Title (1999)".to_string(),
            staging_name: "a1-t".to_string(),
        })
    );
    assert_eq!(
        plan_download_with("a1", "Title", 1999, &Some("x/y".to_string()), None, 2025, "t"),
        Err(DownloadError::AlreadyDownloaded)
    );
    assert_eq!(
        plan_download_with("a1", "Title", 1999, &None, None, 2025, "t"),
        Err(DownloadError::Catalog)
    );
}

#[test]
fn job_statuses_are_read_as_complete_failed_or_pending() {
    assert_eq!(job_poll("complete".to_string()), Ok(JobPoll::Complete));
    assert_eq!(job_poll("Complete".to_string()), Ok(JobPoll::Pending));
    assert_eq!(
        job_poll("Cancelled".to_string()),
        Err(AntraError::JobFailed("Cancelled".to_string()))
    );
    assert_eq!(job_poll("ERROR".to_string()), Err(AntraError::JobFailed("ERROR".to_string())));
    assert_eq!(job_poll("running".to_string()), Ok(JobPoll::Pending));
    assert_eq!(
        AntraError::JobFailed("failed".to_string()).message(),
        "Antra job failed with status: failed"
    );
}

#[test]
fn deliveries_must_match_the_album_type() {
    assert_eq!(delivery_for(Some("single"), Some("FLAC")), Ok(Delivery::SingleFile));
    assert_eq!(delivery_for(Some("ALBUM"), Some("zip")), Ok(Delivery::Archive));
    assert_eq!(delivery_for(Some("Ep"), Some("ZIP")), Ok(Delivery::Archive));
    assert_eq!(delivery_for(Some("SINGLE"), Some("zip")), Err(AntraError::UnexpectedDownloadType));
    assert_eq!(delivery_for(Some("ALBUM"), Some("flac")), Err(AntraError::UnexpectedDownloadType));
    assert_eq!(delivery_for(Some("COMPILATION"), Some("zip")), Err(AntraError::UnexpectedDownloadType));
    assert_eq!(delivery_for(None, Some("zip")), Err(AntraError::UnexpectedDownloadType));
    assert_eq!(
        tidal_album_url("123"),
        "https://tidal.com/browse/album/123"
    );
}

#[test]
fn archives_must_hold_one_flat_album_directory() {
    let artist_level = directory_shape(&[("Artist".to_string(), true)]).unwrap();
    assert_eq!(single_subdirectory(artist_level), Ok("Artist".to_string()));
    assert_eq!(
        directory_shape(&[("a".to_string(), true), ("b".to_string(), true)]),
        Err(AntraError::UnexpectedArchiveShape)
    );
    let stray = directory_shape(&[("Album".to_string(), true), ("cover.jpg".to_string(), false)]).unwrap();
    assert_eq!(single_subdirectory(stray), Err(AntraError::UnexpectedArchiveShape));
    let files_only = directory_shape(&[("1.flac".to_string(), false)]).unwrap();
    assert_eq!(check_album_directory(&files_only), Ok(()));
    assert_eq!(single_subdirectory(files_only), Err(AntraError::NoAlbumDirectory));
    let empty = directory_shape(&[]).unwrap();
    assert_eq!(
        empty,
        DirectoryShape {
            subdirectory: None,
            holds_file: false
        }
    );
    assert_eq!(check_album_directory(&empty), Err(AntraError::EmptyArchive));
    assert_eq!(single_subdirectory(empty), Err(AntraError::EmptyArchive));
    let disc = DirectoryShape {
        subdirectory: Some("disc 1".to_string()),
        holds_file: true,
    };
    assert_eq!(check_album_directory(&disc), Err(AntraError::UnexpectedArchiveShape));
}

#[test]
fn a_whole_transfer_reports_growth_in_steps_and_always_its_completion() {
    let mut progress = DownloadProgress::new(Some(1_000));
    let mut reports = Vec::new();
    for chunk in [30, 30, 30, 333, 7, 500, 70] {
        if progress.advance(chunk) {
            reports.push(progress.percentage().unwrap());
        }
    }
    assert_eq!(reports, vec![6, 42, 93, 100]);
    assert!(reports.len() <= 20);
    assert!(reports.windows(2).all(|w| w[0] < w[1]));
}

#[test]
fn an_album_without_a_release_year_is_placed_under_the_current_year() {
    let plan = plan_download("a1", "Title", 0, &None, Some("Artist")).unwrap();
    let year: i32 = plan
        .relative_path
        .strip_prefix("Artist/Title (")
        .and_then(|rest| rest.strip_suffix(')'))
        .unwrap()
        .parse()
        .unwrap();
    assert!(year >= 1970);
    assert!(plan.staging_name.starts_with("a1-"));
    assert_eq!(plan.staging_name.len(), "a1-".len() + 21);
}
