use std::path::PathBuf;

use filego::check::{Check, CheckResult, CheckResultErrorType, ChunkAudit};
use filego::error::ProcessErrorKind;

fn audit(file_size: usize, found: &[Option<usize>]) -> CheckResult {
    let mut audit = ChunkAudit::new(file_size, found.len());
    for &f in found {
        audit.record(f);
    }
    audit.finish()
}

#[test]
fn complete_set_of_the_right_size_succeeds() {
    let r = audit(10, &[Some(4), Some(4), Some(2)]);
    assert!(r.success);
    assert!(r.error.is_none());
}

#[test]
fn one_deleted_chunk_is_reported_alone() {
    let r = audit(10, &[Some(4), None, Some(2)]);
    assert!(!r.success);
    let e = r.error.unwrap();
    assert_eq!(e.error_type, CheckResultErrorType::Missing);
    assert_eq!(e.error_type.as_code(), "missing");
    assert_eq!(e.message, "Missing chunk(s)");
    assert_eq!(e.missing, Some(vec![1]));
}

#[test]
fn surplus_count_lists_the_highest_ordinals() {
    let r = audit(10, &[Some(4), Some(4), Some(2), None, None]);
    assert!(!r.success);
    let e = r.error.unwrap();
    assert_eq!(e.error_type, CheckResultErrorType::Missing);
    assert_eq!(e.missing, Some(vec![3, 4]));
}

#[test]
fn missing_takes_precedence_over_size() {
    let r = audit(99, &[None, Some(4), None]);
    let e = r.error.unwrap();
    assert_eq!(e.error_type, CheckResultErrorType::Missing);
    assert_eq!(e.missing, Some(vec![0, 2]));
}

#[test]
fn truncated_chunk_gives_size_error() {
    let r = audit(10, &[Some(4), Some(3), Some(2)]);
    assert!(!r.success);
    let e = r.error.unwrap();
    assert_eq!(e.error_type, CheckResultErrorType::Size);
    assert_eq!(e.error_type.as_code(), "size");
    assert_eq!(e.message, "the size of chunks is not equal to file_size parameter");
    assert_eq!(e.missing, None);
}

#[test]
fn extended_chunk_gives_size_error() {
    let r = audit(10, &[Some(4), Some(4), Some(3)]);
    assert_eq!(r.error.unwrap().error_type, CheckResultErrorType::Size);
}

#[test]
fn sizes_beyond_usize_give_size_error() {
    let r = audit(usize::MAX, &[Some(usize::MAX), Some(1)]);
    assert!(!r.success);
    assert_eq!(r.error.unwrap().error_type, CheckResultErrorType::Size);
}

#[test]
fn zero_chunks_of_zero_bytes_succeeds() {
    let r = audit(0, &[]);
    assert!(r.success);
}

#[test]
fn zero_chunks_of_some_bytes_is_a_size_error() {
    let r = audit(5, &[]);
    assert_eq!(r.error.unwrap().error_type, CheckResultErrorType::Size);
}

#[test]
fn audit_tracks_progress() {
    let mut a = ChunkAudit::new(3, 2);
    assert_eq!(a.next_ordinal(), 0);
    assert!(!a.is_complete());
    a.record(Some(1));
    assert_eq!(a.next_ordinal(), 1);
    a.record(Some(2));
    assert!(a.is_complete());
    assert!(a.finish().success);
}

#[test]
fn error_type_codes() {
    assert_eq!(CheckResultErrorType::from_code("missing"), Some(CheckResultErrorType::Missing));
    assert_eq!(CheckResultErrorType::from_code("size"), Some(CheckResultErrorType::Size));
    assert_eq!(CheckResultErrorType::from_code("Size"), None);
    assert_eq!(CheckResultErrorType::from_code(""), None);
    assert_eq!(CheckResultErrorType::from_code("missing "), None);
    assert_eq!(CheckResultErrorType::Missing.as_code(), "missing");
    assert_eq!(CheckResultErrorType::Size.to_code(), "size".to_string());
    assert_eq!(CheckResultErrorType::Missing.to_code(), "missing".to_string());
}

#[test]
fn check_options_report_the_first_unset_setting() {
    let e = Check::new().options().unwrap_err();
    assert_eq!(e.kind, ProcessErrorKind::InvalidInput);
    assert_eq!(e.message, "in_dir is not set");
    let e = Check::new().in_dir(PathBuf::from("d")).options().unwrap_err();
    assert_eq!(e.message, "file_size is not set");
    let e = Check::new().in_dir(PathBuf::from("d")).file_size(3).options().unwrap_err();
    assert_eq!(e.message, "total_chunks is not set");
}

#[test]
fn check_options_carry_the_settings() {
    let check = Check::new().in_dir(PathBuf::from("d")).file_size(7).total_chunks(2);
    let copy = Check::from(check.clone());
    assert_eq!(copy.file_size, Some(7));
    let options = copy.options().unwrap();
    assert_eq!(options.in_dir, PathBuf::from("d"));
    assert_eq!(options.file_size, 7);
    assert_eq!(options.total_chunks, 2);
    let d = Check::default();
    assert!(d.in_dir.is_none() && d.file_size.is_none() && d.total_chunks.is_none());
}
