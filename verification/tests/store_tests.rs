use download_it::db::{error_text, record_from_row, resume_db_path, ResumeDb};
use download_it::download::{status_to_text, Download, DownloadStatus};

fn sample(url: &str, status: DownloadStatus, error: Option<&str>) -> Download {
    Download {
        url: url.to_string(),
        file_name: "file.bin".to_string(),
        file_path: "/tmp".to_string(),
        status,
        error: error.map(|e| e.to_string()),
        bytes_expected: None,
        bytes_transferred: 0,
    }
}

#[test]
fn put_then_get_returns_identical_record() {
    let mut db = ResumeDb::new();
    let d = sample(
        "https://host/a",
        DownloadStatus::Failed,
        Some("connection reset"),
    );
    db.create_resume(&d).unwrap();
    let got = db.get_resume(&"https://host/a".to_string()).unwrap();
    assert_eq!(got.url, d.url);
    assert_eq!(got.file_name, d.file_name);
    assert_eq!(got.file_path, d.file_path);
    assert!(got.status == d.status);
    assert_eq!(got.error, d.error);
}

#[test]
fn delete_then_get_returns_absence() {
    let mut db = ResumeDb::new();
    let d = sample("https://host/a", DownloadStatus::Failed, Some("boom"));
    db.create_resume(&d).unwrap();
    db.delete_resume(&d).unwrap();
    assert!(db.get_resume(&"https://host/a".to_string()).is_none());
}

#[test]
fn delete_of_absent_record_is_not_an_error() {
    let mut db = ResumeDb::new();
    let d = sample("https://host/none", DownloadStatus::Pending, None);
    assert!(db.delete_resume(&d).is_ok());
}

#[test]
fn second_record_for_same_url_overwrites() {
    let mut db = ResumeDb::new();
    let first = sample("https://host/a", DownloadStatus::Failed, Some("boom"));
    let second = sample("https://host/a", DownloadStatus::Completed, None);
    db.create_resume(&first).unwrap();
    db.create_resume(&second).unwrap();
    let got = db.get_resume(&"https://host/a".to_string()).unwrap();
    assert!(got.status == DownloadStatus::Completed);
    assert!(got.error.is_none());
}

#[test]
fn update_of_absent_record_behaves_as_put() {
    let mut db = ResumeDb::new();
    let d = sample("https://host/a", DownloadStatus::InProgress, None);
    db.update_resume(&d).unwrap();
    let got = db.get_resume(&"https://host/a".to_string()).unwrap();
    assert!(got.status == DownloadStatus::InProgress);
}

#[test]
fn records_for_distinct_urls_are_independent() {
    let mut db = ResumeDb::new();
    let a = sample("https://host/a", DownloadStatus::Failed, Some("x"));
    let b = sample("https://host/b", DownloadStatus::Completed, None);
    db.create_resume(&a).unwrap();
    db.create_resume(&b).unwrap();
    db.delete_resume(&a).unwrap();
    assert!(db.get_resume(&"https://host/a".to_string()).is_none());
    let got_b = db.get_resume(&"https://host/b".to_string()).unwrap();
    assert!(got_b.status == DownloadStatus::Completed);
}

#[test]
fn lookup_is_by_exact_url_match() {
    let mut db = ResumeDb::new();
    let d = sample("https://host/a", DownloadStatus::Pending, None);
    db.create_resume(&d).unwrap();
    assert!(db.get_resume(&"https://host/A".to_string()).is_none());
    assert!(db.get_resume(&"https://host/a/".to_string()).is_none());
}

#[test]
fn row_encoding_round_trips_through_decode() {
    let d = sample("https://host/a", DownloadStatus::Failed, Some("boom"));
    let status_col = status_to_text(&d.status);
    let error_col = error_text(&d.error);
    let got = record_from_row(
        d.url.clone(),
        d.file_name.clone(),
        d.file_path.clone(),
        &status_col,
        error_col,
    )
    .unwrap();
    assert_eq!(got.url, d.url);
    assert_eq!(got.file_name, d.file_name);
    assert_eq!(got.file_path, d.file_path);
    assert!(got.status == d.status);
    assert_eq!(got.error, d.error);
}

#[test]
fn empty_error_column_decodes_to_no_error() {
    let got = record_from_row(
        "u".to_string(),
        "n".to_string(),
        "p".to_string(),
        &"\"Completed\"".to_string(),
        String::new(),
    )
    .unwrap();
    assert!(got.error.is_none());
}

#[test]
fn invalid_status_column_is_rejected() {
    let got = record_from_row(
        "u".to_string(),
        "n".to_string(),
        "p".to_string(),
        &"\"Paused\"".to_string(),
        String::new(),
    );
    assert!(got.is_none());
}

#[test]
fn error_column_without_failed_status_is_rejected() {
    let got = record_from_row(
        "u".to_string(),
        "n".to_string(),
        "p".to_string(),
        &"\"Completed\"".to_string(),
        "boom".to_string(),
    );
    assert!(got.is_none());
}

#[test]
fn resume_db_path_is_under_the_config_directory() {
    assert_eq!(
        resume_db_path("/home/user/.config"),
        "/home/user/.config/download_it/resume.db"
    );
}
