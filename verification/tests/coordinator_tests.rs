use download_it::cli::Commands;
use download_it::download::{Download, DownloadStatus, TransferEvent};
use download_it::download_manager::{
    download_multi, download_multi_resume, download_single, download_single_resume, resolve_dir,
    resolve_name, DownloadManager,
};
use download_it::error::DownloadError;

fn ok_stream(total: u64) -> Vec<TransferEvent> {
    vec![TransferEvent::Total(total), TransferEvent::Chunk(total)]
}

fn faulty_stream(reason: &str) -> Vec<TransferEvent> {
    vec![
        TransferEvent::Chunk(1),
        TransferEvent::Fault(reason.to_string()),
    ]
}

#[test]
fn single_saves_under_derived_name_in_default_dir() {
    let events = ok_stream(10);
    let d = download_single(
        "https://host/file.zip".to_string(),
        None,
        None,
        None,
        Some("/downloads".to_string()),
        &events,
    )
    .unwrap();
    assert_eq!(d.file_name, "file.zip");
    assert_eq!(d.file_path, "/downloads");
    assert!(d.status == DownloadStatus::Completed);
    assert_eq!(d.bytes_transferred, 10);
}

#[test]
fn single_without_any_directory_is_a_configuration_error() {
    let events = ok_stream(10);
    let r = download_single(
        "https://host/file.zip".to_string(),
        None,
        None,
        None,
        None,
        &events,
    );
    assert!(matches!(r, Err(DownloadError::ConfigDirUnavailable)));
}

#[test]
fn interrupted_then_resumed_transfer_reaches_full_length() {
    let first = vec![
        TransferEvent::Total(5000),
        TransferEvent::Chunk(1000),
        TransferEvent::Fault("interrupted".to_string()),
    ];
    let d = download_single(
        "https://host/file".to_string(),
        Some("/tmp/d".to_string()),
        Some("out.bin".to_string()),
        None,
        None,
        &first,
    )
    .unwrap();
    assert!(d.status == DownloadStatus::Failed);
    assert_eq!(d.bytes_transferred, 1000);
    assert_eq!(d.file_path, "/tmp/d");
    assert_eq!(d.file_name, "out.bin");

    let second = vec![TransferEvent::Total(5000), TransferEvent::Chunk(4000)];
    let resumed = download_single_resume(
        "https://host/file",
        Some("/tmp/d".to_string()),
        Some("out.bin".to_string()),
        None,
        Some(1000),
        &second,
    )
    .unwrap();
    assert!(resumed.status == DownloadStatus::Completed);
    assert_eq!(resumed.bytes_transferred, 5000);
    assert_eq!(resumed.file_path, "/tmp/d");
    assert_eq!(resumed.file_name, "out.bin");
}

#[test]
fn resume_without_destination_is_rejected() {
    let events = ok_stream(1);
    let r = download_single_resume(
        "https://host/file",
        None,
        Some("out.bin".to_string()),
        None,
        Some(10),
        &events,
    );
    assert!(matches!(
        r,
        Err(DownloadError::CannotResumeWithoutDestination)
    ));
}

#[test]
fn resume_without_partial_file_is_rejected() {
    let events = ok_stream(1);
    let r = download_single_resume(
        "https://host/file",
        Some("/tmp/d".to_string()),
        Some("out.bin".to_string()),
        None,
        None,
        &events,
    );
    assert!(matches!(r, Err(DownloadError::ResumeTargetMissing)));
}

#[test]
fn one_failing_transfer_leaves_the_other_four_completed() {
    let urls: Vec<String> = (0..5).map(|i| format!("https://host/f{i}.bin")).collect();
    let events = vec![
        ok_stream(10),
        ok_stream(20),
        faulty_stream("connection refused"),
        ok_stream(30),
        ok_stream(40),
    ];
    let outcomes = download_multi(
        &urls,
        &Some(vec!["/shared".to_string()]),
        &None,
        &None,
        &events,
    );
    assert_eq!(outcomes.len(), 5);
    for (i, outcome) in outcomes.iter().enumerate() {
        let d = outcome.as_ref().unwrap();
        if i == 2 {
            assert!(d.status == DownloadStatus::Failed);
            assert_eq!(d.error.as_deref(), Some("connection refused"));
        } else {
            assert!(d.status == DownloadStatus::Completed);
            assert!(d.error.is_none());
        }
    }
}

#[test]
fn multi_with_shared_dir_names_each_file_from_its_url() {
    let urls = vec![
        "https://host/a.bin".to_string(),
        "https://host/b.bin".to_string(),
        "https://host/c.bin".to_string(),
    ];
    let events = vec![ok_stream(1), ok_stream(2), ok_stream(3)];
    let outcomes = download_multi(
        &urls,
        &Some(vec!["/shared".to_string()]),
        &None,
        &None,
        &events,
    );
    assert_eq!(outcomes.len(), 3);
    let names: Vec<String> = outcomes
        .iter()
        .map(|o| o.as_ref().unwrap().file_name.clone())
        .collect();
    assert_eq!(names, vec!["a.bin", "b.bin", "c.bin"]);
    for o in &outcomes {
        let d = o.as_ref().unwrap();
        assert_eq!(d.file_path, "/shared");
        assert!(d.status == DownloadStatus::Completed);
    }
}

#[test]
fn multi_name_list_applies_only_when_it_matches_the_url_count() {
    let names = Some(vec!["x.bin".to_string()]);
    assert_eq!(resolve_name(&names, 0, 1), Some("x.bin".to_string()));
    let short = Some(vec!["x.bin".to_string()]);
    assert_eq!(resolve_name(&short, 0, 2), None);
    assert_eq!(resolve_name(&None, 0, 2), None);
}

#[test]
fn multi_dir_list_is_shared_or_per_url() {
    let shared = Some(vec!["/d".to_string()]);
    assert_eq!(resolve_dir(&shared, 1, 3), Some("/d".to_string()));
    let per_url = Some(vec!["/a".to_string(), "/b".to_string()]);
    assert_eq!(resolve_dir(&per_url, 1, 2), Some("/b".to_string()));
    let mismatched = Some(vec!["/a".to_string(), "/b".to_string()]);
    assert_eq!(resolve_dir(&mismatched, 0, 3), None);
}

#[test]
fn multi_resume_needs_both_destination_lists() {
    let urls = vec!["https://host/a".to_string()];
    let lens = vec![Some(0u64)];
    let events = vec![ok_stream(1)];
    let r = download_multi_resume(&urls, &None, &Some(vec!["a".to_string()]), &lens, &events);
    assert!(matches!(
        r,
        Err(DownloadError::CannotResumeWithoutDestination)
    ));
}

#[test]
fn multi_resume_skips_only_urls_missing_a_destination() {
    let urls = vec![
        "https://host/a".to_string(),
        "https://host/b".to_string(),
    ];
    let paths = Some(vec!["/d".to_string(), "/d".to_string()]);
    let names = Some(vec!["a.bin".to_string()]);
    let lens = vec![Some(5u64), Some(5u64)];
    let events = vec![ok_stream(10), ok_stream(10)];
    let outcomes = download_multi_resume(&urls, &paths, &names, &lens, &events).unwrap();
    assert_eq!(outcomes.len(), 2);
    assert!(outcomes[0].is_ok());
    assert!(matches!(
        outcomes[1],
        Err(DownloadError::CannotResumeWithoutDestination)
    ));
}

#[test]
fn manager_records_every_outcome_in_the_store() {
    let mut manager = DownloadManager::with_default_dir(Some("/downloads".to_string()));
    let urls = vec![
        "https://host/good.bin".to_string(),
        "https://host/bad.bin".to_string(),
    ];
    let events = vec![ok_stream(10), faulty_stream("dns failure")];
    let outcomes = manager.download(&urls, &None, &None, true, &events);
    assert_eq!(outcomes.len(), 2);

    let good = manager
        .db
        .get_resume(&"https://host/good.bin".to_string())
        .unwrap();
    assert!(good.status == DownloadStatus::Completed);
    let bad = manager
        .db
        .get_resume(&"https://host/bad.bin".to_string())
        .unwrap();
    assert!(bad.status == DownloadStatus::Failed);
    assert_eq!(bad.error.as_deref(), Some("dns failure"));
}

#[test]
fn manager_resumes_a_failed_record_from_the_store() {
    let mut manager = DownloadManager::with_default_dir(Some("/downloads".to_string()));
    let urls = vec!["https://host/file.bin".to_string()];
    let first = vec![vec![
        TransferEvent::Total(5000),
        TransferEvent::Chunk(1000),
        TransferEvent::Fault("interrupted".to_string()),
    ]];
    manager.download(&urls, &None, &None, false, &first);

    let second = vec![vec![TransferEvent::Total(5000), TransferEvent::Chunk(4000)]];
    let lens = vec![Some(1000u64)];
    let outcomes = manager.resume_download(&urls, false, &lens, &second);
    let d = outcomes[0].as_ref().unwrap();
    assert!(d.status == DownloadStatus::Completed);
    assert_eq!(d.bytes_transferred, 5000);
    assert_eq!(d.file_name, "file.bin");
    assert_eq!(d.file_path, "/downloads");

    let stored = manager
        .db
        .get_resume(&"https://host/file.bin".to_string())
        .unwrap();
    assert!(stored.status == DownloadStatus::Completed);
}

#[test]
fn manager_never_offers_a_completed_record_for_resume() {
    let mut manager = DownloadManager::with_default_dir(Some("/downloads".to_string()));
    let urls = vec!["https://host/file.bin".to_string()];
    manager.download(&urls, &None, &None, false, &vec![ok_stream(10)]);

    let lens = vec![Some(10u64)];
    let outcomes = manager.resume_download(&urls, false, &lens, &vec![ok_stream(1)]);
    assert!(matches!(
        outcomes[0],
        Err(DownloadError::CannotResumeWithoutDestination)
    ));
}

#[test]
fn manager_resume_of_unknown_url_fails_alone() {
    let mut manager = DownloadManager::with_default_dir(None);
    let urls = vec!["https://host/never-seen".to_string()];
    let lens = vec![Some(0u64)];
    let outcomes = manager.resume_download(&urls, false, &lens, &vec![ok_stream(1)]);
    assert!(matches!(
        outcomes[0],
        Err(DownloadError::CannotResumeWithoutDestination)
    ));
}

#[test]
fn manager_resume_without_partial_file_reports_missing_target() {
    let mut manager = DownloadManager::with_default_dir(Some("/downloads".to_string()));
    let urls = vec!["https://host/file.bin".to_string()];
    let first = vec![faulty_stream("interrupted")];
    manager.download(&urls, &None, &None, false, &first);

    let lens = vec![None];
    let outcomes = manager.resume_download(&urls, false, &lens, &vec![ok_stream(1)]);
    assert!(matches!(
        outcomes[0],
        Err(DownloadError::ResumeTargetMissing)
    ));
}

#[test]
fn single_command_normalizes_to_a_one_element_batch() {
    let request = Commands::Single {
        resume: None,
        cookie: None,
        header_args: None,
        file_path: Some("/tmp/d".to_string()),
        file_name: Some("out.bin".to_string()),
        url: "https://host/file".to_string(),
    }
    .to_request();
    assert!(!request.multi);
    assert!(!request.resume);
    assert_eq!(request.urls, vec!["https://host/file"]);
    assert_eq!(request.file_paths, Some(vec!["/tmp/d".to_string()]));
    assert_eq!(request.file_names, Some(vec!["out.bin".to_string()]));
}

#[test]
fn multi_command_passes_urls_and_names_through() {
    let request = Commands::Multi {
        resume: Some(true),
        cookie: Some("cookies.txt".to_string()),
        header_args: None,
        file_path: Some("/shared".to_string()),
        file_names: Some(vec!["a".to_string(), "b".to_string()]),
        urls: vec!["u1".to_string(), "u2".to_string()],
    }
    .to_request();
    assert!(request.multi);
    assert!(request.resume);
    assert_eq!(request.urls.len(), 2);
    assert_eq!(request.file_paths, Some(vec!["/shared".to_string()]));
    assert_eq!(
        request.file_names,
        Some(vec!["a".to_string(), "b".to_string()])
    );
    assert_eq!(request.cookie, Some("cookies.txt".to_string()));
}

#[test]
fn explicit_false_resume_flag_requests_a_fresh_transfer() {
    let request = Commands::Single {
        resume: Some(false),
        cookie: None,
        header_args: None,
        file_path: None,
        file_name: None,
        url: "https://host/file".to_string(),
    }
    .to_request();
    assert!(!request.resume);
}

#[test]
fn manager_new_starts_with_an_empty_store() {
    let manager = DownloadManager::new();
    assert!(manager
        .db
        .get_resume(&"https://host/anything".to_string())
        .is_none());
}

#[test]
fn duplicate_is_an_exact_copy() {
    let d = Download {
        url: "u".to_string(),
        file_name: "n".to_string(),
        file_path: "p".to_string(),
        status: DownloadStatus::Failed,
        error: Some("boom".to_string()),
        bytes_expected: Some(7),
        bytes_transferred: 3,
    };
    let c = d.duplicate();
    assert_eq!(c.url, d.url);
    assert_eq!(c.file_name, d.file_name);
    assert_eq!(c.file_path, d.file_path);
    assert!(c.status == d.status);
    assert_eq!(c.error, d.error);
    assert_eq!(c.bytes_expected, d.bytes_expected);
    assert_eq!(c.bytes_transferred, d.bytes_transferred);
}
