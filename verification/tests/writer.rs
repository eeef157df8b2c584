use obs_core::by_age::matching_by_age;
use obs_core::sink::writer::{
    should_rotate, Branch, NonBlockingHandle, RollingClock, RollingError, RollingState, RollingStep,
};
use obs_core::{
    FanOutSink, LevelSplitWriter, NonBlockingWriter, RollingFileWriter, RollingPolicy, Severity,
};

fn clock(secs: u64) -> RollingClock {
    RollingClock { now_secs: Some(secs), age_ns: 0 }
}

#[test]
fn test_should_rotate_size_based() {
    let mut writer = RollingFileWriter::builder()
        .directory("logs".to_string())
        .filename_prefix("test".to_string())
        .policy(RollingPolicy::SizeBased { max_bytes: 16 })
        .build()
        .unwrap();
    let mut entries = Vec::new();
    for i in 0..5u64 {
        let mut rotated = false;
        loop {
            match writer.next_step(rotated, clock(100 + i)) {
                RollingStep::Write => {
                    writer.note_bytes(b"hello world!".len() as u64);
                    break;
                }
                step => {
                    rotated = step == RollingStep::Rotate;
                    entries.push(writer.file_name(Some(100 + i), entries.len() as u64));
                    writer.opened(Some(100 + i));
                }
            }
        }
    }
    assert!(entries.len() >= 2, "expected size-based rotation to produce >1 file");
    let mut distinct = entries.clone();
    distinct.dedup();
    assert_eq!(distinct, entries);
    assert!(entries[0].starts_with("test"));
}

#[test]
fn test_non_blocking_writer_should_flush_on_drop() {
    let mut writer = NonBlockingWriter::new(16);
    let mut handle = NonBlockingHandle::new();
    assert_eq!(handle.write(b"hello\n"), 6);
    let sent = handle.flush().expect("a text to hand over");
    writer.handed_over(sent.len(), true);
    assert!(sent.starts_with(b"hello\n"));
    assert!(handle.flush().is_none());
    assert_eq!(writer.dropped_total(), 0);
}

#[test]
fn texts_that_the_worker_cannot_take_are_counted() {
    let mut writer = NonBlockingWriter::new(0);
    assert_eq!(writer.capacity(), 8192);
    writer.handed_over(6, false);
    assert_eq!(writer.dropped_total(), 6);
    writer.handed_over(10, true);
    writer.handed_over(1, false);
    assert_eq!(writer.dropped_total(), 7);
}

#[test]
fn policies_say_when_a_file_is_done() {
    let state = |bytes, secs| RollingState { bytes, opened_secs: Some(secs) };
    let size = RollingPolicy::SizeBased { max_bytes: 16 };
    assert!(!should_rotate(size, state(15, 0), clock(0)));
    assert!(should_rotate(size, state(16, 0), clock(0)));
    assert!(!should_rotate(RollingPolicy::Never, state(u64::MAX, 0), clock(1 << 40)));
    assert!(!should_rotate(RollingPolicy::Daily, state(0, 86_400), clock(172_799)));
    assert!(should_rotate(RollingPolicy::Daily, state(0, 86_400), clock(172_800)));
    assert!(should_rotate(RollingPolicy::Hourly, state(0, 3_599), clock(3_600)));
    let either = RollingPolicy::SizeOrAge { max_bytes: 100, max_age_ns: 5 };
    assert!(!should_rotate(either, state(99, 0), RollingClock { now_secs: Some(0), age_ns: 4 }));
    assert!(should_rotate(either, state(99, 0), RollingClock { now_secs: Some(0), age_ns: 5 }));
}

#[test]
fn a_writer_needs_a_directory() {
    let err = RollingFileWriter::builder().build().unwrap_err();
    assert_eq!(err, RollingError::MissingDirectory);
    assert!(err.message().contains("directory"));
}

#[test]
fn a_writer_needs_a_filename_prefix() {
    let err = RollingFileWriter::builder().directory("logs".to_string()).build().unwrap_err();
    assert_eq!(err, RollingError::MissingPrefix);
    assert!(err.message().contains("prefix"));
}

#[test]
fn the_oldest_files_go_first() {
    let writer = RollingFileWriter::builder()
        .directory("logs".to_string())
        .filename_prefix("app".to_string())
        .filename_suffix("log".to_string())
        .keep(2)
        .build()
        .unwrap();
    let names: Vec<String> =
        ["app.3.log", "app.1.log", "other.log", "app.2.log"].iter().map(|s| s.to_string()).collect();
    let modified = vec![30, 10, 0, 20];
    let order = matching_by_age(&names, &modified, "app", "log");
    assert_eq!(order, vec![1, 3, 0]);
    assert_eq!(writer.evictions(&names, &modified), vec![1]);
}

#[test]
fn severe_texts_go_the_other_way() {
    let split = LevelSplitWriter::new("low", "high");
    assert_eq!(*split.make_writer(), "low");
    assert!(matches!(split.make_writer_for(Severity::Info), Branch::Low(&"low")));
    assert!(matches!(split.make_writer_for(Severity::Warn), Branch::High(&"high")));
    let split = split.threshold(Severity::Error);
    assert!(matches!(split.make_writer_for(Severity::Warn), Branch::Low(_)));
}

#[test]
fn a_fan_out_keeps_its_children_in_order() {
    let fan = FanOutSink::new(vec!["a", "b"]);
    assert_eq!(fan.children(), 2);
    assert_eq!(*fan.child(0), "a");
    assert_eq!(*fan.child(1), "b");
}
