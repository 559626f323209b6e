use kodama_core::frame::{Channel, Frame, FrameFlags, SourceId};
use kodama_core::storage::{
    LocalStorage, LocalStorageConfig, Placement, SegmentInfo, StorageConfig, StorageError,
    StorageManager, Stored,
};

const MINUTE_US: u64 = 60_000_000;

fn config() -> LocalStorageConfig {
    LocalStorageConfig {
        root_path: String::from("/var/kodama"),
        max_size_bytes: 1_000_000,
        segment_duration_us: MINUTE_US,
    }
}

fn policy() -> StorageConfig {
    StorageConfig {
        max_size_bytes: 1_000_000,
        retention_secs: 604_800,
        keyframes_only: false,
        cleanup_interval_secs: 3600,
    }
}

fn frame(source: u64, channel: Channel, keyframe: bool, timestamp_us: u64, len: usize) -> Frame {
    Frame {
        source: SourceId(source),
        channel,
        flags: if keyframe { FrameFlags::keyframe() } else { FrameFlags::default() },
        timestamp_us,
        payload: vec![0u8; len],
    }
}

fn video(source: u64, keyframe: bool, timestamp_us: u64, len: usize) -> Frame {
    frame(source, Channel::Video, keyframe, timestamp_us, len)
}

#[test]
fn invalid_store_settings_are_refused() {
    let mut no_root = config();
    no_root.root_path = String::new();
    assert!(matches!(LocalStorage::new(no_root), Err(StorageError::InvalidConfig)));
    let mut no_size = config();
    no_size.max_size_bytes = 0;
    assert!(matches!(LocalStorage::new(no_size), Err(StorageError::InvalidConfig)));
    let mut no_duration = config();
    no_duration.segment_duration_us = 0;
    assert!(matches!(LocalStorage::new(no_duration), Err(StorageError::InvalidConfig)));
    let store = LocalStorage::new(config()).unwrap();
    assert_eq!(store.total_bytes(), 0);
    assert_eq!(store.max_size_bytes(), 1_000_000);
    assert!(store.open_segments().is_empty());
    assert!(store.sealed_segments().is_empty());
}

#[test]
fn invalid_policy_is_refused() {
    let mut no_size = policy();
    no_size.max_size_bytes = 0;
    assert!(matches!(
        StorageManager::new(no_size, LocalStorage::new(config()).unwrap()),
        Err(StorageError::InvalidConfig)
    ));
    let mut no_interval = policy();
    no_interval.cleanup_interval_secs = 0;
    assert!(matches!(
        StorageManager::new(no_interval, LocalStorage::new(config()).unwrap()),
        Err(StorageError::InvalidConfig)
    ));
    let mut no_retention = policy();
    no_retention.retention_secs = 0;
    let manager = StorageManager::new(no_retention, LocalStorage::new(config()).unwrap()).unwrap();
    assert_eq!(manager.config(), no_retention);
}

#[test]
fn frame_too_large_for_a_record_is_refused() {
    let mut store = LocalStorage::new(config()).unwrap();
    store.store(&video(1, true, 0, 10), 0).unwrap();
    let huge = video(1, false, 1, 16 * 1024 * 1024 + 1);
    assert_eq!(store.store(&huge, 0), Err(StorageError::FrameTooLarge));
    assert_eq!(store.total_bytes(), 32);
    assert_eq!(store.open_segments().len(), 1);
    let largest = video(1, false, 1, 16 * 1024 * 1024);
    assert_eq!(store.store(&largest, 0), Ok(Placement::Appended { segment: 0 }));
    assert_eq!(store.total_bytes(), 32 + 22 + 16 * 1024 * 1024);
}

#[test]
fn first_frame_opens_a_segment_and_later_frames_append() {
    let mut store = LocalStorage::new(config()).unwrap();
    assert_eq!(store.store(&video(1, false, 500, 78), 1000), Ok(Placement::Opened { segment: 0 }));
    assert_eq!(
        store.store(&video(1, false, 600, 10), 1001),
        Ok(Placement::Appended { segment: 0 })
    );
    assert_eq!(
        store.open_segments().as_slice(),
        &[SegmentInfo {
            id: 0,
            source: SourceId(1),
            channel: Channel::Video,
            start_us: 500,
            opened_secs: 1000,
            bytes: 100 + 32,
        }]
    );
    assert_eq!(store.total_bytes(), 132);
    assert!(store.sealed_segments().is_empty());
}

#[test]
fn every_camera_and_channel_has_its_own_segment() {
    let mut store = LocalStorage::new(config()).unwrap();
    assert_eq!(store.store(&video(1, true, 0, 1), 0), Ok(Placement::Opened { segment: 0 }));
    assert_eq!(
        store.store(&frame(1, Channel::Audio, false, 0, 1), 0),
        Ok(Placement::Opened { segment: 1 })
    );
    assert_eq!(store.store(&video(2, true, 0, 1), 0), Ok(Placement::Opened { segment: 2 }));
    assert_eq!(
        store.store(&frame(1, Channel::Telemetry, false, 0, 1), 0),
        Ok(Placement::Opened { segment: 3 })
    );
    assert_eq!(
        store.store(&frame(1, Channel::Audio, false, 5, 1), 0),
        Ok(Placement::Appended { segment: 1 })
    );
    assert_eq!(store.store(&video(2, false, 5, 1), 0), Ok(Placement::Appended { segment: 2 }));
    assert_eq!(store.open_segments().len(), 4);
    assert_eq!(store.total_bytes(), 6 * 23);
}

#[test]
fn video_rolls_over_only_at_a_keyframe() {
    let mut store = LocalStorage::new(config()).unwrap();
    assert_eq!(store.store(&video(1, true, 1_000, 10), 0), Ok(Placement::Opened { segment: 0 }));
    assert_eq!(
        store.store(&video(1, true, 1_000 + MINUTE_US - 1, 10), 59),
        Ok(Placement::Appended { segment: 0 })
    );
    assert_eq!(
        store.store(&video(1, false, 1_000 + MINUTE_US, 10), 60),
        Ok(Placement::Appended { segment: 0 })
    );
    assert_eq!(
        store.store(&video(1, false, 1_000 + 2 * MINUTE_US, 10), 120),
        Ok(Placement::Appended { segment: 0 })
    );
    assert_eq!(
        store.store(&video(1, true, 1_000 + 2 * MINUTE_US + 1, 10), 121),
        Ok(Placement::Rolled { sealed: 0, segment: 1 })
    );
    assert_eq!(
        store.sealed_segments().as_slice(),
        &[SegmentInfo {
            id: 0,
            source: SourceId(1),
            channel: Channel::Video,
            start_us: 1_000,
            opened_secs: 0,
            bytes: 4 * 32,
        }]
    );
    assert_eq!(
        store.open_segments().as_slice(),
        &[SegmentInfo {
            id: 1,
            source: SourceId(1),
            channel: Channel::Video,
            start_us: 1_000 + 2 * MINUTE_US + 1,
            opened_secs: 121,
            bytes: 32,
        }]
    );
    assert_eq!(store.total_bytes(), 5 * 32);
}

#[test]
fn video_rolls_over_exactly_when_the_age_reaches_the_duration() {
    let mut store = LocalStorage::new(config()).unwrap();
    store.store(&video(1, true, 7, 0), 0).unwrap();
    assert_eq!(
        store.store(&video(1, true, 7 + MINUTE_US, 0), 60),
        Ok(Placement::Rolled { sealed: 0, segment: 1 })
    );
}

#[test]
fn other_channels_roll_over_on_duration_alone() {
    let mut store = LocalStorage::new(config()).unwrap();
    store.store(&frame(1, Channel::Audio, false, 0, 4), 0).unwrap();
    assert_eq!(
        store.store(&frame(1, Channel::Audio, false, MINUTE_US - 1, 4), 59),
        Ok(Placement::Appended { segment: 0 })
    );
    assert_eq!(
        store.store(&frame(1, Channel::Audio, false, MINUTE_US, 4), 60),
        Ok(Placement::Rolled { sealed: 0, segment: 1 })
    );
    store.store(&frame(1, Channel::Telemetry, false, 0, 4), 60).unwrap();
    assert_eq!(
        store.store(&frame(1, Channel::Telemetry, false, 3 * MINUTE_US, 4), 240),
        Ok(Placement::Rolled { sealed: 2, segment: 3 })
    );
}

#[test]
fn frame_stamped_before_the_segment_start_appends() {
    let mut store = LocalStorage::new(config()).unwrap();
    store.store(&video(1, true, 10 * MINUTE_US, 0), 0).unwrap();
    assert_eq!(
        store.store(&video(1, true, 5, 0), 1),
        Ok(Placement::Appended { segment: 0 })
    );
}

#[test]
fn new_segment_after_a_boundary_starts_with_a_keyframe() {
    let mut store = LocalStorage::new(config()).unwrap();
    let mut last_segment: Option<u64> = None;
    let mut boundaries = 0;
    for n in 0..400u64 {
        let keyframe = n % 30 == 0;
        let f = video(3, keyframe, n * 1_000_000, 5);
        let segment = match store.store(&f, n).unwrap() {
            Placement::Appended { segment } => segment,
            Placement::Opened { segment } => segment,
            Placement::Rolled { segment, .. } => segment,
        };
        if let Some(before) = last_segment {
            if before != segment {
                boundaries += 1;
                assert!(f.flags.is_keyframe(), "frame {} starts a segment", n);
            }
        }
        last_segment = Some(segment);
    }
    assert_eq!(boundaries, 6);
    assert_eq!(store.sealed_segments().len(), 6);
}

#[test]
fn cleanup_deletes_only_the_older_sealed_segment() {
    let mut store = LocalStorage::new(config()).unwrap();
    store.store(&video(0xA, true, 0, 600_000 - 22), 100).unwrap();
    store.store(&video(0xB, true, 0, 600_000 - 22), 101).unwrap();
    assert_eq!(
        store.store(&video(0xA, true, MINUTE_US, 0), 160),
        Ok(Placement::Rolled { sealed: 0, segment: 2 })
    );
    assert_eq!(
        store.store(&video(0xB, true, MINUTE_US, 0), 161),
        Ok(Placement::Rolled { sealed: 1, segment: 3 })
    );
    assert_eq!(store.total_bytes(), 1_200_044);
    let open_before = store.open_segments().clone();
    let report = store.cleanup(1_000_000, 604_800, 200);
    assert_eq!(report.removed.len(), 1);
    assert_eq!(report.removed[0].id, 0);
    assert_eq!(report.removed[0].source, SourceId(0xA));
    assert_eq!(report.removed[0].bytes, 600_000);
    assert!(!report.over_limit);
    assert_eq!(store.total_bytes(), 600_044);
    assert!(store.total_bytes() <= 1_000_000);
    assert_eq!(store.sealed_segments().len(), 1);
    assert_eq!(store.sealed_segments()[0].id, 1);
    assert_eq!(store.open_segments(), &open_before);
}

#[test]
fn cleanup_never_deletes_an_open_segment() {
    let mut store = LocalStorage::new(config()).unwrap();
    store.store(&video(1, true, 0, 2_000_000), 0).unwrap();
    store.store(&frame(2, Channel::Audio, false, 0, 500_000), 0).unwrap();
    let open_before = store.open_segments().clone();
    let total_before = store.total_bytes();
    let report = store.cleanup(1_000_000, 10, 1_000_000);
    assert!(report.removed.is_empty());
    assert!(report.over_limit);
    assert_eq!(store.open_segments(), &open_before);
    assert_eq!(store.total_bytes(), total_before);
    assert_eq!(
        store.store(&video(1, false, 1, 0), 1_000_000),
        Ok(Placement::Appended { segment: 0 })
    );
}

#[test]
fn cleanup_stops_as_soon_as_the_store_fits() {
    let mut store = LocalStorage::new(config()).unwrap();
    for n in 0..5u64 {
        store.store(&frame(1, Channel::Audio, false, n * MINUTE_US, 300_000 - 22), n * 60).unwrap();
    }
    assert_eq!(store.sealed_segments().len(), 4);
    assert_eq!(store.total_bytes(), 1_500_000);
    let report = store.cleanup(1_000_000, 604_800, 400);
    let ids: Vec<u64> = report.removed.iter().map(|s| s.id).collect();
    assert_eq!(ids, vec![0, 1]);
    assert!(!report.over_limit);
    assert_eq!(store.total_bytes(), 900_000);
    let left: Vec<u64> = store.sealed_segments().iter().map(|s| s.id).collect();
    assert_eq!(left, vec![2, 3]);
    let again = store.cleanup(1_000_000, 604_800, 401);
    assert!(again.removed.is_empty());
    assert_eq!(store.total_bytes(), 900_000);
}

#[test]
fn cleanup_at_exactly_the_limit_deletes_nothing() {
    let mut store = LocalStorage::new(config()).unwrap();
    store.store(&frame(1, Channel::Audio, false, 0, 500_000 - 22), 0).unwrap();
    store.store(&frame(1, Channel::Audio, false, MINUTE_US, 500_000 - 22), 60).unwrap();
    assert_eq!(store.total_bytes(), 1_000_000);
    let report = store.cleanup(1_000_000, 604_800, 61);
    assert!(report.removed.is_empty());
    assert!(!report.over_limit);
    let tight = store.cleanup(999_999, 604_800, 61);
    assert_eq!(tight.removed.len(), 1);
    assert_eq!(store.total_bytes(), 500_000);
}

#[test]
fn cleanup_deletes_sealed_segments_past_retention() {
    let mut store = LocalStorage::new(config()).unwrap();
    store.store(&frame(1, Channel::Audio, false, 0, 10), 1_000).unwrap();
    store.store(&frame(2, Channel::Audio, false, 0, 10), 5_000).unwrap();
    store.store(&frame(1, Channel::Audio, false, MINUTE_US, 10), 5_060).unwrap();
    store.store(&frame(2, Channel::Audio, false, MINUTE_US, 10), 5_061).unwrap();
    let sealed: Vec<u64> = store.sealed_segments().iter().map(|s| s.id).collect();
    assert_eq!(sealed, vec![0, 1]);
    let none = store.cleanup(1_000_000, 3_600, 4_600);
    assert!(none.removed.is_empty());
    let report = store.cleanup(1_000_000, 3_600, 4_601);
    let ids: Vec<u64> = report.removed.iter().map(|s| s.id).collect();
    assert_eq!(ids, vec![0]);
    assert_eq!(store.total_bytes(), 3 * 32);
    let early = store.cleanup(1_000_000, 3_600, 0);
    assert!(early.removed.is_empty());
    let all = store.cleanup(1_000_000, 0, 5_001);
    let ids: Vec<u64> = all.removed.iter().map(|s| s.id).collect();
    assert_eq!(ids, vec![1]);
    assert_eq!(store.open_segments().len(), 2);
    assert_eq!(store.total_bytes(), 2 * 32);
}

#[test]
fn cleanup_lists_expired_segments_before_trimmed_ones() {
    let mut store = LocalStorage::new(config()).unwrap();
    store.store(&frame(1, Channel::Audio, false, 0, 400_000 - 22), 9_000).unwrap();
    store.store(&frame(2, Channel::Audio, false, 0, 400_000 - 22), 100).unwrap();
    store.store(&frame(3, Channel::Audio, false, 0, 400_000 - 22), 9_000).unwrap();
    store.store(&frame(1, Channel::Audio, false, MINUTE_US, 0), 9_060).unwrap();
    store.store(&frame(2, Channel::Audio, false, MINUTE_US, 0), 9_060).unwrap();
    store.store(&frame(3, Channel::Audio, false, MINUTE_US, 0), 9_060).unwrap();
    let report = store.cleanup(500_000, 3_600, 9_100);
    let ids: Vec<u64> = report.removed.iter().map(|s| s.id).collect();
    assert_eq!(ids, vec![1, 0]);
    let left: Vec<u64> = store.sealed_segments().iter().map(|s| s.id).collect();
    assert_eq!(left, vec![2]);
    assert_eq!(store.total_bytes(), 400_000 + 3 * 22);
}

#[test]
fn failed_write_is_taken_off_the_books_and_the_segment_stays_open() {
    let mut store = LocalStorage::new(config()).unwrap();
    store.store(&video(1, true, 0, 100), 0).unwrap();
    store.store(&video(1, false, 1, 50), 0).unwrap();
    assert_eq!(store.total_bytes(), 194);
    assert!(store.forget_write(SourceId(1), Channel::Video, 72));
    assert_eq!(store.total_bytes(), 122);
    assert_eq!(store.open_segments()[0].bytes, 122);
    assert_eq!(
        store.store(&video(1, false, 2, 50), 0),
        Ok(Placement::Appended { segment: 0 })
    );
    assert!(!store.forget_write(SourceId(1), Channel::Audio, 1));
    assert!(!store.forget_write(SourceId(2), Channel::Video, 1));
    assert!(!store.forget_write(SourceId(1), Channel::Video, 195));
    assert_eq!(store.total_bytes(), 194);
}

#[test]
fn keyframes_only_skips_other_video_frames_before_the_store() {
    let mut only = policy();
    only.keyframes_only = true;
    let mut manager = StorageManager::new(only, LocalStorage::new(config()).unwrap()).unwrap();
    assert_eq!(manager.store(&video(1, false, 0, 10), 0), Ok(Stored::Skipped));
    assert_eq!(manager.backend().total_bytes(), 0);
    assert!(manager.backend().open_segments().is_empty());
    assert_eq!(
        manager.store(&video(1, true, 1, 10), 0),
        Ok(Stored::Placed(Placement::Opened { segment: 0 }))
    );
    assert_eq!(manager.store(&video(1, false, 2, 10), 0), Ok(Stored::Skipped));
    assert_eq!(
        manager.store(&frame(1, Channel::Audio, false, 2, 10), 0),
        Ok(Stored::Placed(Placement::Opened { segment: 1 }))
    );
    assert_eq!(
        manager.store(&frame(1, Channel::Telemetry, false, 2, 10), 0),
        Ok(Stored::Placed(Placement::Opened { segment: 2 }))
    );
    assert_eq!(manager.backend().total_bytes(), 96);
}

#[test]
fn manager_without_keyframes_only_stores_every_frame() {
    let mut manager = StorageManager::new(policy(), LocalStorage::new(config()).unwrap()).unwrap();
    assert_eq!(
        manager.store(&video(1, false, 0, 10), 0),
        Ok(Stored::Placed(Placement::Opened { segment: 0 }))
    );
    assert_eq!(
        manager.store(&video(1, false, 1, 10), 0),
        Ok(Stored::Placed(Placement::Appended { segment: 0 }))
    );
    assert!(manager.forget_write(SourceId(1), Channel::Video, 32));
    assert_eq!(manager.backend().total_bytes(), 32);
}

#[test]
fn manager_cleans_up_under_its_own_policy() {
    let mut tight = policy();
    tight.max_size_bytes = 100;
    tight.retention_secs = 50;
    let mut manager = StorageManager::new(tight, LocalStorage::new(config()).unwrap()).unwrap();
    manager.store(&frame(1, Channel::Audio, false, 0, 78), 0).unwrap();
    manager.store(&frame(1, Channel::Audio, false, MINUTE_US, 78), 60).unwrap();
    manager.store(&frame(1, Channel::Audio, false, 2 * MINUTE_US, 78), 120).unwrap();
    assert_eq!(manager.backend().total_bytes(), 300);
    let report = manager.cleanup(121);
    let ids: Vec<u64> = report.removed.iter().map(|s| s.id).collect();
    assert_eq!(ids, vec![0, 1]);
    assert!(!report.over_limit);
    assert_eq!(manager.backend().total_bytes(), 100);
}

#[test]
fn oldest_means_opened_first_whichever_was_sealed_first() {
    let mut store = LocalStorage::new(config()).unwrap();
    store.store(&video(1, true, 0, 400_000 - 22), 10).unwrap();
    store.store(&frame(2, Channel::Audio, false, 0, 400_000 - 22), 20).unwrap();
    assert_eq!(
        store.store(&frame(2, Channel::Audio, false, MINUTE_US, 400_000 - 22), 80),
        Ok(Placement::Rolled { sealed: 1, segment: 2 })
    );
    let sealed: Vec<u64> = store.sealed_segments().iter().map(|s| s.id).collect();
    assert_eq!(sealed, vec![1]);
    assert_eq!(
        store.store(&video(1, false, 2 * MINUTE_US, 0), 130),
        Ok(Placement::Appended { segment: 0 })
    );
    assert_eq!(
        store.store(&video(1, true, 2 * MINUTE_US + 1, 0), 131),
        Ok(Placement::Rolled { sealed: 0, segment: 3 })
    );
    let sealed: Vec<u64> = store.sealed_segments().iter().map(|s| s.id).collect();
    assert_eq!(sealed, vec![0, 1]);
    assert_eq!(store.total_bytes(), 1_200_044);
    let report = store.cleanup(1_000_000, 604_800, 200);
    let ids: Vec<u64> = report.removed.iter().map(|s| s.id).collect();
    assert_eq!(ids, vec![0]);
    assert_eq!(report.removed[0].opened_secs, 10);
    let left: Vec<u64> = store.sealed_segments().iter().map(|s| s.id).collect();
    assert_eq!(left, vec![1]);
    assert_eq!(store.total_bytes(), 800_022);
}

#[test]
fn sealed_segments_stand_in_the_order_of_their_numbers() {
    let mut store = LocalStorage::new(config()).unwrap();
    for source in 1..=4u64 {
        store.store(&frame(source, Channel::Audio, false, 0, 1), source).unwrap();
    }
    for source in [3u64, 1, 4, 2] {
        store.store(&frame(source, Channel::Audio, false, MINUTE_US, 1), 100 + source).unwrap();
        let ids: Vec<u64> = store.sealed_segments().iter().map(|s| s.id).collect();
        let mut sorted = ids.clone();
        sorted.sort();
        assert_eq!(ids, sorted);
    }
    let ids: Vec<u64> = store.sealed_segments().iter().map(|s| s.id).collect();
    assert_eq!(ids, vec![0, 1, 2, 3]);
    let sources: Vec<u64> = store.sealed_segments().iter().map(|s| s.source.0).collect();
    assert_eq!(sources, vec![1, 2, 3, 4]);
}
