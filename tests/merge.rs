use std::path::PathBuf;

use filego::config::{buffer_capacity, copy_buffer_len};
use filego::error::ProcessErrorKind;
use filego::merge::{merge_order, Merge};
use filego::BUFFER_CAPACITY_MAX_DEFAULT;

fn names(list: &[&str]) -> Vec<String> {
    list.iter().map(|s| s.to_string()).collect()
}

#[test]
fn empty_directory_is_not_found() {
    let e = merge_order(&Vec::new()).unwrap_err();
    assert_eq!(e.kind, ProcessErrorKind::NotFound);
    assert_eq!(e.message, "No files found in in_dir");
}

#[test]
fn order_is_numeric_not_lexicographic() {
    let order = merge_order(&names(&["10", "9", "0", "2", "1"])).unwrap();
    assert_eq!(order, vec![2, 4, 3, 1, 0]);
}

#[test]
fn single_file() {
    assert_eq!(merge_order(&names(&["0"])).unwrap(), vec![0]);
}

#[test]
fn equal_ordinals_keep_listing_order() {
    let order = merge_order(&names(&["1", "01", "0", "+1"])).unwrap();
    assert_eq!(order, vec![2, 0, 1, 3]);
}

#[test]
fn non_numeric_name_is_corrupt() {
    let e = merge_order(&names(&["0", "1", "notes.txt"])).unwrap_err();
    assert_eq!(e.kind, ProcessErrorKind::CorruptDirectory);
    assert_eq!(e.message, "a file in in_dir is not named by a chunk ordinal");
    let e = merge_order(&names(&["-1"])).unwrap_err();
    assert_eq!(e.kind, ProcessErrorKind::CorruptDirectory);
}

#[test]
fn buffer_capacity_is_bounded() {
    assert_eq!(buffer_capacity(2048, 1024), 1024);
    assert_eq!(buffer_capacity(100, 1024), 100);
    assert_eq!(buffer_capacity(0, 1024), 0);
    assert_eq!(copy_buffer_len(0), 1);
    assert_eq!(copy_buffer_len(4096), 4096);
}

#[test]
fn merge_options_report_the_first_unset_setting() {
    let e = Merge::new().options().unwrap_err();
    assert_eq!(e.kind, ProcessErrorKind::InvalidInput);
    assert_eq!(e.message, "in_dir is not set");
    let e = Merge::new().in_dir(PathBuf::from("d")).options().unwrap_err();
    assert_eq!(e.message, "out_file is not set");
}

#[test]
fn merge_options_carry_the_settings() {
    let merge = Merge::new()
        .in_dir(PathBuf::from("d"))
        .out_file(PathBuf::from("o").join("f"))
        .max_buffer_capacity(64);
    let options = Merge::from(merge).options().unwrap();
    assert_eq!(options.in_dir, PathBuf::from("d"));
    assert_eq!(options.out_file, PathBuf::from("o").join("f"));
    assert_eq!(options.max_buffer_capacity, 64);
    assert_eq!(options.buffer_capacity(100), 64);
    assert_eq!(options.buffer_capacity(10), 10);
    let d = Merge::default();
    assert_eq!(d.cap_max, BUFFER_CAPACITY_MAX_DEFAULT);
    assert!(d.in_dir.is_none() && d.out_file.is_none());
}
