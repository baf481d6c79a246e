use chrono::{Datelike, NaiveDate, Timelike};
use open_duck_playground::{
    checkpoint_names, checkpoint_names_at, format_timestamp, LocalTime, RunnerConfig, RunnerError,
};
use std::path::PathBuf;

fn time(year: i32, month: u32, day: u32, hour: u32, minute: u32, second: u32, nanosecond: u32) -> LocalTime {
    LocalTime { year, month, day, hour, minute, second, nanosecond }
}

#[test]
fn config_keeps_its_fields() {
    let config = RunnerConfig::new("./test_output", 128, 12, 24);
    assert_eq!(config.output_dir, PathBuf::from("./test_output"));
    assert_eq!(config.num_timesteps, 128);
    assert_eq!(config.action_size, 12);
    assert_eq!(config.obs_size, 24);
    let copy = config.clone();
    assert_eq!(copy.output_dir, config.output_dir);
}

#[test]
fn checkpoint_names_join_timestamp_and_step() {
    let names = checkpoint_names_at(&time(2024, 1, 2, 3, 4, 5, 0), 10);
    assert_eq!(names.directory, "2024_01_02_030405_10");
    assert_eq!(names.onnx_file, "2024_01_02_030405_10.onnx");
    let names = checkpoint_names_at(&time(1999, 12, 31, 23, 59, 58, 999_999_999), 0);
    assert_eq!(names.directory, "1999_12_31_235958_0");
    let names = checkpoint_names_at(&time(2024, 6, 30, 12, 0, 0, 0), usize::MAX);
    assert_eq!(names.directory, format!("2024_06_30_120000_{}", usize::MAX));
    assert_eq!(names.onnx_file, format!("2024_06_30_120000_{}.onnx", usize::MAX));
    let names = checkpoint_names_at(&time(2024, 6, 30, 12, 0, 0, 0), 1_000_007);
    assert_eq!(names.directory, "2024_06_30_120000_1000007");
}

#[test]
fn timestamps_pad_and_sign_like_chrono() {
    assert_eq!(format_timestamp(&time(7, 3, 9, 0, 5, 1, 0)), "0007_03_09_000501");
    assert_eq!(format_timestamp(&time(12345, 3, 9, 0, 5, 1, 0)), "+12345_03_09_000501");
    assert_eq!(format_timestamp(&time(-5, 3, 9, 0, 5, 1, 0)), "-0005_03_09_000501");
    // A leap second is shown as second 60.
    assert_eq!(format_timestamp(&time(2016, 12, 31, 23, 59, 59, 1_500_000_000)), "2016_12_31_235960");
    for (year, month, day, hour, minute, second) in [
        (2024, 2, 29, 13, 7, 9),
        (1, 1, 1, 0, 0, 0),
        (999, 10, 10, 10, 10, 10),
        (-44, 3, 15, 11, 59, 59),
        (20000, 7, 4, 9, 30, 0),
    ] {
        let when = NaiveDate::from_ymd_opt(year, month, day)
            .unwrap()
            .and_hms_opt(hour, minute, second)
            .unwrap();
        let expected = when.format("%Y_%m_%d_%H%M%S").to_string();
        let ours = format_timestamp(&time(
            when.year(),
            when.month(),
            when.day(),
            when.hour(),
            when.minute(),
            when.second(),
            when.nanosecond(),
        ));
        assert_eq!(ours, expected);
    }
}

#[test]
fn checkpoint_names_use_the_clock() {
    let names = checkpoint_names(42);
    assert!(names.directory.ends_with("_42"));
    assert_eq!(names.onnx_file, format!("{}.onnx", names.directory));
    // YYYY_MM_DD_HHMMSS
    let stamp = &names.directory[..names.directory.len() - 3];
    assert_eq!(stamp.len(), 17);
    assert!(stamp.chars().all(|c| c.is_ascii_digit() || c == '_'));
    let now = chrono::Local::now();
    assert!(stamp.starts_with(&format!("{:04}_", now.year())));
}

#[test]
fn runner_errors_carry_their_messages() {
    match RunnerError::Checkpoint("disk full".to_string()) {
        RunnerError::Checkpoint(message) => assert_eq!(message, "disk full"),
        _ => panic!("wrong variant"),
    }
    let io = std::io::Error::new(std::io::ErrorKind::Other, "boom");
    assert!(matches!(RunnerError::Io(io), RunnerError::Io(_)));
}
