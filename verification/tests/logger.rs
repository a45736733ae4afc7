use pipe_logger_lib::{
    PipeLogger, PipeLoggerBuilder, PipeLoggerBuilderError, RotateMethod, Tee, Timestamp,
    WriteStatus,
};

const LOG_FILE_NAME: &str = "logfile.log";

fn fresh_logger(builder: PipeLoggerBuilder) -> PipeLogger {
    builder.build(LOG_FILE_NAME.to_string(), 0, &Vec::new()).unwrap()
}

fn ts(second: u32, millisecond: u32) -> Timestamp {
    Timestamp { year: 2024, month: 1, day: 2, hour: 3, minute: 4, second, millisecond }
}

#[test]
fn build() {
    let builder = PipeLoggerBuilder::new(LOG_FILE_NAME.to_string());
    let logger = fresh_logger(builder);
    assert_eq!(0, logger.file_size);
    assert_eq!("logfile.log", logger.file_name);
    assert_eq!(7, logger.file_name_point_index);
    assert!(logger.rotated_log_file_names.is_empty());
}

#[test]
fn write() {
    let builder = PipeLoggerBuilder::new(LOG_FILE_NAME.to_string());
    let mut logger = fresh_logger(builder);
    let text = "This is a log.";
    let status = logger.note_write(text.as_bytes(), text.len());
    assert_eq!(WriteStatus::NoRotation, status);
    assert_eq!(14, logger.file_size);
}

#[test]
fn write_line() {
    let builder = PipeLoggerBuilder::new(LOG_FILE_NAME.to_string());
    let mut logger = fresh_logger(builder);
    let text = "This is a log.";
    let status = logger.note_write(text.as_bytes(), text.len());
    assert_eq!(WriteStatus::NoRotation, status);
    let status = logger.note_write("\n".as_bytes(), 1);
    assert_eq!(WriteStatus::NoRotation, status);
    assert_eq!(15, logger.file_size);
}

#[test]
fn write_twice() {
    let builder = PipeLoggerBuilder::new(LOG_FILE_NAME.to_string());
    let mut logger = fresh_logger(builder);
    logger.note_write("This is a log.".as_bytes(), 14);
    logger.note_write("\n".as_bytes(), 1);
    let status = logger.note_write("Isn't it?".as_bytes(), 9);
    assert_eq!(WriteStatus::NoRotation, status);
    assert_eq!(24, logger.file_size);
}

#[test]
fn write_tee_out() {
    let mut builder = PipeLoggerBuilder::new(LOG_FILE_NAME.to_string());
    builder.set_tee(Some(Tee::Stdout));
    let mut logger = fresh_logger(builder);
    assert_eq!(Some(Tee::Stdout), logger.tee);
    logger.note_write("This is a log.\n".as_bytes(), 15);
    let status = logger.note_write("Isn't it?\n".as_bytes(), 10);
    assert_eq!(WriteStatus::NoRotation, status);
    assert_eq!(25, logger.file_size);
}

#[test]
fn write_tee_err() {
    let mut builder = PipeLoggerBuilder::new(LOG_FILE_NAME.to_string());
    builder.set_tee(Some(Tee::Stderr));
    let mut logger = fresh_logger(builder);
    assert_eq!(Some(Tee::Stderr), logger.tee);
    logger.note_write("This is a log.\n".as_bytes(), 15);
    let status = logger.note_write("Isn't it?\n".as_bytes(), 10);
    assert_eq!(WriteStatus::NoRotation, status);
    assert_eq!(25, logger.file_size);
}

#[test]
fn write_rotate() {
    let mut builder = PipeLoggerBuilder::new(LOG_FILE_NAME.to_string());
    builder.set_rotate(Some(RotateMethod::FileSize(24)));
    let mut logger = fresh_logger(builder);

    // "This is a log.\n" is 15 bytes: under the 24-byte threshold
    let status = logger.note_write("This is a log.".as_bytes(), 14);
    assert_eq!(WriteStatus::NoRotation, status);
    let status = logger.note_write("\n".as_bytes(), 1);
    assert_eq!(WriteStatus::NoRotation, status);

    // "Isn't it?" brings the total to exactly 24: rotation is due
    let status = logger.note_write("Isn't it?".as_bytes(), 9);
    assert_eq!(WriteStatus::RotationNeeded, status);
    let plan = logger.perform_rotation(678, ts(5, 678));
    assert_eq!("logfile-2024-01-02-03-04-05-678.log", plan.rotated_file_name);
    assert_eq!(plan.rotated_file_name, plan.returned_name);
    assert!(!plan.compress);
    assert!(plan.evicted.is_empty());
    assert_eq!(0, logger.file_size);
    assert_eq!(678, logger.last_rotated_time);
    assert_eq!(
        vec!["logfile-2024-01-02-03-04-05-678.log".to_string()],
        logger.rotated_log_file_names
    );

    // the active file starts over
    let status = logger.note_write("New file!!!!".as_bytes(), 12);
    assert_eq!(WriteStatus::NoRotation, status);
    let status = logger.note_write("\n".as_bytes(), 1);
    assert_eq!(WriteStatus::NoRotation, status);
    assert_eq!(13, logger.file_size);
}

#[test]
fn write_rotate_with_count() {
    let mut builder = PipeLoggerBuilder::new(LOG_FILE_NAME.to_string());
    builder.set_rotate(Some(RotateMethod::FileSize(24)));
    builder.set_count(Some(5));
    let mut logger = fresh_logger(builder);

    let mut rotated = Vec::new();
    for round in 0..6u32 {
        logger.note_write("This is a log.\n".as_bytes(), 15);
        let status = logger.note_write("Isn't it?".as_bytes(), 9);
        assert_eq!(WriteStatus::RotationNeeded, status);
        let plan = logger.perform_rotation((round + 1) as i64, ts(5, 100 + round));
        rotated.push(plan.rotated_file_name.clone());
        if round < 4 {
            assert!(plan.evicted.is_empty());
            assert_eq!(round as usize + 1, logger.rotated_log_file_names.len());
        } else {
            // the list reached the count of 5: the oldest name leaves
            assert_eq!(vec![rotated[(round - 4) as usize].clone()], plan.evicted);
            assert_eq!(4, logger.rotated_log_file_names.len());
        }
    }

    // four retained rotated files beside the active file: five entries
    assert_eq!(4, logger.rotated_log_file_names.len());
    assert_eq!(rotated[2..6].to_vec(), logger.rotated_log_file_names);

    logger.note_write("New file!!!!\n".as_bytes(), 13);
    assert_eq!(13, logger.file_size);
}

#[test]
fn write_rotate_with_compress() {
    let mut builder = PipeLoggerBuilder::new(LOG_FILE_NAME.to_string());
    builder.set_rotate(Some(RotateMethod::FileSize(24)));
    builder.set_compress(true);
    let mut logger = fresh_logger(builder);

    logger.note_write("This is a log.\n".as_bytes(), 15);
    let status = logger.note_write("Isn't it?".as_bytes(), 9);
    assert_eq!(WriteStatus::RotationNeeded, status);
    let plan = logger.perform_rotation(1, ts(6, 0));
    assert!(plan.compress);
    assert_eq!("logfile-2024-01-02-03-04-06-000.log", plan.rotated_file_name);
    // the caller is handed the prospective compressed path
    assert_eq!("logfile-2024-01-02-03-04-06-000.log.xz", plan.returned_name);
    // retention tracks the uncompressed base name
    assert_eq!(
        vec!["logfile-2024-01-02-03-04-06-000.log".to_string()],
        logger.rotated_log_file_names
    );
}

#[test]
fn write_rotate_with_count_compress() {
    let mut builder = PipeLoggerBuilder::new(LOG_FILE_NAME.to_string());
    builder.set_rotate(Some(RotateMethod::FileSize(24)));
    builder.set_count(Some(5));
    builder.set_compress(true);
    let mut logger = fresh_logger(builder);

    let mut rotated = Vec::new();
    for round in 0..6u32 {
        logger.note_write("This is a log.\n".as_bytes(), 15);
        let status = logger.note_write("Isn't it?".as_bytes(), 9);
        assert_eq!(WriteStatus::RotationNeeded, status);
        let plan = logger.perform_rotation((round + 1) as i64, ts(5, 200 + round));
        assert!(plan.returned_name.ends_with(".xz"));
        rotated.push(plan.rotated_file_name.clone());
    }
    // the evicted names are deleted in both plain and compressed form by
    // the I/O layer; the core keeps the newest four base names
    assert_eq!(4, logger.rotated_log_file_names.len());
    assert_eq!(rotated[2..6].to_vec(), logger.rotated_log_file_names);
}

#[test]
fn build_rejects_small_threshold() {
    let mut builder = PipeLoggerBuilder::new(LOG_FILE_NAME.to_string());
    builder.set_rotate(Some(RotateMethod::FileSize(1)));
    let r = builder.build(LOG_FILE_NAME.to_string(), 0, &Vec::new());
    assert!(matches!(r, Err(PipeLoggerBuilderError::RotateFileSizeTooSmall)));
}

#[test]
fn build_rejects_zero_count() {
    let mut builder = PipeLoggerBuilder::new(LOG_FILE_NAME.to_string());
    builder.set_rotate(Some(RotateMethod::FileSize(24)));
    builder.set_count(Some(0));
    let r = builder.build(LOG_FILE_NAME.to_string(), 0, &Vec::new());
    assert!(matches!(r, Err(PipeLoggerBuilderError::CountTooSmall)));
}

#[test]
fn build_ignores_count_without_rotation() {
    let mut builder = PipeLoggerBuilder::new(LOG_FILE_NAME.to_string());
    builder.set_count(Some(0));
    let r = builder.build(LOG_FILE_NAME.to_string(), 0, &Vec::new());
    assert!(r.is_ok());
}

#[test]
fn build_recovers_existing_size_and_names() {
    let mut builder = PipeLoggerBuilder::new(LOG_FILE_NAME.to_string());
    builder.set_rotate(Some(RotateMethod::FileSize(1024)));
    let listing = vec![
        "logfile-2024-01-02-03-04-06-000.log".to_string(),
        "unrelated.txt".to_string(),
        "logfile-2024-01-02-03-04-05-000.log.xz".to_string(),
        "logfile.log".to_string(),
    ];
    let logger = builder.build(LOG_FILE_NAME.to_string(), 42, &listing).unwrap();
    assert_eq!(42, logger.file_size);
    assert_eq!(
        vec![
            "logfile-2024-01-02-03-04-05-000.log".to_string(),
            "logfile-2024-01-02-03-04-06-000.log".to_string(),
        ],
        logger.rotated_log_file_names
    );
}

#[test]
fn short_write_reports_space_and_never_rotates() {
    let mut builder = PipeLoggerBuilder::new(LOG_FILE_NAME.to_string());
    builder.set_rotate(Some(RotateMethod::FileSize(2)));
    let mut logger = fresh_logger(builder);
    // only 3 of 4 bytes reached the file: the counter still advances past
    // the threshold, but the call reports the failure instead of rotating
    let status = logger.note_write("abcd".as_bytes(), 3);
    assert_eq!(WriteStatus::InsufficientSpace, status);
    assert_eq!(3, logger.file_size);
}

#[test]
fn retention_count_one_keeps_nothing() {
    let mut builder = PipeLoggerBuilder::new(LOG_FILE_NAME.to_string());
    builder.set_rotate(Some(RotateMethod::FileSize(2)));
    builder.set_count(Some(1));
    let mut logger = fresh_logger(builder);
    let status = logger.note_write("ab".as_bytes(), 2);
    assert_eq!(WriteStatus::RotationNeeded, status);
    let plan = logger.perform_rotation(1, ts(0, 0));
    // with a count of 1 the eviction loop empties the list: even the name
    // just rotated to is deleted again
    assert!(logger.rotated_log_file_names.is_empty());
    assert_eq!(vec![plan.rotated_file_name.clone()], plan.evicted);
}

#[test]
fn build_accepts_minimum_threshold() {
    let mut builder = PipeLoggerBuilder::new(LOG_FILE_NAME.to_string());
    builder.set_rotate(Some(RotateMethod::FileSize(2)));
    builder.set_count(Some(1));
    assert!(builder.build(LOG_FILE_NAME.to_string(), 0, &Vec::new()).is_ok());
}

#[test]
fn builder_accessors_round_trip() {
    let mut builder = PipeLogger::builder(LOG_FILE_NAME.to_string());
    assert!(builder.rotate().is_none());
    assert!(builder.count().is_none());
    assert!(!builder.compress());
    assert!(builder.tee().is_none());
    assert_eq!(LOG_FILE_NAME, builder.log_path());
    builder.set_rotate(Some(RotateMethod::FileSize(30)));
    builder.set_count(Some(10));
    builder.set_compress(true);
    builder.set_tee(Some(Tee::Stdout));
    assert_eq!(&Some(RotateMethod::FileSize(30)), builder.rotate());
    assert_eq!(&Some(10), builder.count());
    assert!(builder.compress());
    assert!(matches!(builder.tee(), Some(Tee::Stdout)));
    assert!(builder.check_config().is_ok());
}

#[test]
fn empty_write_is_a_no_op() {
    assert!(pipe_logger_lib::is_empty_write(""));
    assert!(!pipe_logger_lib::is_empty_write("a"));
    assert!(!pipe_logger_lib::is_empty_write("\n"));
}

#[test]
fn terminator_follows_unrotated_writes_only() {
    assert!(pipe_logger_lib::terminator_due(&WriteStatus::NoRotation));
    assert!(!pipe_logger_lib::terminator_due(&WriteStatus::RotationNeeded));
    assert!(!pipe_logger_lib::terminator_due(&WriteStatus::InsufficientSpace));
}
