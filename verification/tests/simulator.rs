use kodama_core::h264::contains_keyframe;
use kodama_core::frame::{Channel, Frame, FrameFlags, SourceId};
use kodama_core::simulator::{
    after_send, checked_key, count_sent, encoded_video_frame, parse_args, plain_frame, server_key,
    timestamp_us, video_frame, AfterSend, SimArgs, SimError, UsageError, DEFAULT_CAMERAS,
};

fn args(words: &[&str]) -> Vec<String> {
    words.iter().map(|w| String::from(*w)).collect()
}

#[test]
fn missing_server_key_is_a_usage_error() {
    assert_eq!(parse_args(&args(&[])), Err(UsageError));
    assert_eq!(parse_args(&args(&["camera-sim"])), Err(UsageError));
}

#[test]
fn two_cameras_by_default() {
    assert_eq!(DEFAULT_CAMERAS, 2);
    assert_eq!(
        parse_args(&args(&["camera-sim", "abc"])),
        Ok(SimArgs { server_key: String::from("abc"), cameras: 2 })
    );
}

#[test]
fn cameras_flag_is_read() {
    assert_eq!(
        parse_args(&args(&["camera-sim", "abc", "--cameras", "5"])),
        Ok(SimArgs { server_key: String::from("abc"), cameras: 5 })
    );
    assert_eq!(
        parse_args(&args(&["camera-sim", "abc", "--verbose", "--cameras", "0"])),
        Ok(SimArgs { server_key: String::from("abc"), cameras: 0 })
    );
}

#[test]
fn cameras_flag_without_a_number_falls_back() {
    assert_eq!(parse_args(&args(&["camera-sim", "abc", "--cameras"])).unwrap().cameras, 2);
    assert_eq!(parse_args(&args(&["camera-sim", "abc", "--cameras", "many"])).unwrap().cameras, 2);
    assert_eq!(parse_args(&args(&["camera-sim", "abc", "--cameras", "-3"])).unwrap().cameras, 2);
}

#[test]
fn only_the_first_cameras_flag_counts() {
    assert_eq!(
        parse_args(&args(&["camera-sim", "abc", "--cameras", "x", "--cameras", "9"]))
            .unwrap()
            .cameras,
        2
    );
    assert_eq!(
        parse_args(&args(&["camera-sim", "abc", "--cameras", "4", "--cameras", "9"]))
            .unwrap()
            .cameras,
        4
    );
    assert_eq!(
        parse_args(&args(&["camera-sim", "--cameras", "3"])),
        Ok(SimArgs { server_key: String::from("--cameras"), cameras: 3 })
    );
}

#[test]
fn timestamps_keep_the_low_64_bits() {
    assert_eq!(timestamp_us(0), 0);
    assert_eq!(timestamp_us(1_500_000), 1_500_000);
    assert_eq!(timestamp_us(u64::MAX as u128), u64::MAX);
    assert_eq!(timestamp_us(u64::MAX as u128 + 1), 0);
    assert_eq!(timestamp_us(u64::MAX as u128 + 43), 42);
}

#[test]
fn video_frames_carry_the_keyframe_flag_when_told() {
    let key = video_frame(SourceId(3), vec![1, 2], true, 10);
    assert_eq!(
        key,
        Frame {
            source: SourceId(3),
            channel: Channel::Video,
            flags: FrameFlags::keyframe(),
            timestamp_us: 10,
            payload: vec![1, 2],
        }
    );
    assert!(key.flags.is_keyframe());
    let delta = video_frame(SourceId(3), vec![], false, 11);
    assert_eq!(delta.flags, FrameFlags::default());
    assert!(!delta.flags.is_keyframe());
    assert_eq!(delta.channel, Channel::Video);
}

#[test]
fn audio_and_telemetry_frames_carry_no_flag() {
    let audio = plain_frame(SourceId(3), Channel::Audio, vec![9], 20);
    assert_eq!(
        audio,
        Frame {
            source: SourceId(3),
            channel: Channel::Audio,
            flags: FrameFlags(0),
            timestamp_us: 20,
            payload: vec![9],
        }
    );
    let telemetry = plain_frame(SourceId(4), Channel::Telemetry, vec![], 21);
    assert_eq!(telemetry.channel, Channel::Telemetry);
    assert_eq!(telemetry.flags, FrameFlags::default());
}

#[test]
fn progress_is_due_every_150_frames() {
    assert_eq!(count_sent(0), (1, false));
    assert_eq!(count_sent(148), (149, false));
    assert_eq!(count_sent(149), (150, true));
    assert_eq!(count_sent(150), (151, false));
    assert_eq!(count_sent(299), (300, true));
    assert_eq!(count_sent(u64::MAX), (u64::MAX, false));
    assert_eq!(count_sent(u64::MAX - 1), (u64::MAX, false));
    assert_eq!(count_sent(u64::MAX - 16), (u64::MAX - 15, true));
}

#[test]
fn keyframes_are_found_behind_start_codes() {
    assert!(contains_keyframe(&[0, 0, 1, 0x65, 0x88]));
    assert!(contains_keyframe(&[0, 0, 0, 1, 0x65]));
    assert!(contains_keyframe(&[0, 0, 1, 0x25]));
    assert!(contains_keyframe(&[0, 0, 1, 0x67, 0x42, 0, 0, 1, 0x68, 0xCE, 0, 0, 0, 1, 0x65, 0x88]));
    assert!(contains_keyframe(&[9, 9, 0, 0, 1, 0x05]));
    assert!(!contains_keyframe(&[]));
    assert!(!contains_keyframe(&[0, 0, 1]));
    assert!(!contains_keyframe(&[0, 0, 1, 0x41, 0x9A]));
    assert!(!contains_keyframe(&[0, 0, 1, 0x67, 0, 0, 1, 0x68]));
    assert!(!contains_keyframe(&[0, 1, 0x65, 0, 0, 2, 0x65]));
    assert!(!contains_keyframe(&[0x65, 0x65, 0x65, 0x65, 0x65]));
    assert!(!contains_keyframe(&[1, 2, 3, 0, 0, 1]));
}

fn unhex(text: &str) -> Vec<u8> {
    let digits: Vec<u8> = text.bytes().map(|b| (b as char).to_digit(16).unwrap() as u8).collect();
    digits.chunks(2).map(|pair| pair[0] * 16 + pair[1]).collect()
}

#[test]
fn server_key_is_read_from_hex() {
    let text = "ae58ff8833241ac82d6ff7611046ed67b5072d142c588d0063e942d9a75502b6";
    let key = server_key(text).unwrap();
    assert_eq!(key.len(), 32);
    assert_eq!(key, unhex(text));
    assert_eq!(key[0], 0xae);
    assert_eq!(key[31], 0xb6);
}

#[test]
fn server_key_is_read_from_base32() {
    let hex = "ae58ff8833241ac82d6ff7611046ed67b5072d142c588d0063e942d9a75502b6";
    let base32 = "vzmp7cbteqnmqllp65qrarxnm62qoliufrmi2add5fbntj2vak3a";
    assert_eq!(server_key(base32), Ok(unhex(hex)));
    assert_eq!(server_key(&base32.to_uppercase()), Ok(unhex(hex)));
}

#[test]
fn text_that_is_no_key_is_refused() {
    assert_eq!(server_key(""), Err(SimError::InvalidServerKey));
    assert_eq!(server_key("abc"), Err(SimError::InvalidServerKey));
    assert_eq!(server_key("--cameras"), Err(SimError::InvalidServerKey));
    assert_eq!(
        server_key("zz58ff8833241ac82d6ff7611046ed67b5072d142c588d0063e942d9a75502b6"),
        Err(SimError::InvalidServerKey)
    );
    assert_eq!(
        server_key("ae58ff8833241ac82d6ff7611046ed67b5072d142c588d0063e942d9a75502"),
        Err(SimError::InvalidServerKey)
    );
}

#[test]
fn checked_key_passes_a_key_on_and_names_the_error() {
    assert_eq!(checked_key(Some(vec![1, 2, 3])), Ok(vec![1, 2, 3]));
    assert_eq!(checked_key(None), Err(SimError::InvalidServerKey));
}

#[test]
fn encoded_video_frames_are_flagged_by_what_they_hold() {
    let key = encoded_video_frame(SourceId(3), vec![0, 0, 0, 1, 0x65, 0x88], 10);
    assert_eq!(
        key,
        Frame {
            source: SourceId(3),
            channel: Channel::Video,
            flags: FrameFlags::keyframe(),
            timestamp_us: 10,
            payload: vec![0, 0, 0, 1, 0x65, 0x88],
        }
    );
    let delta = encoded_video_frame(SourceId(3), vec![0, 0, 0, 1, 0x41, 0x9A], 11);
    assert_eq!(delta.flags, FrameFlags::default());
    assert_eq!(delta.payload, vec![0, 0, 0, 1, 0x41, 0x9A]);
    assert_eq!(delta.timestamp_us, 11);
    let empty = encoded_video_frame(SourceId(3), vec![], u64::MAX as u128 + 5);
    assert_eq!(empty.flags, FrameFlags(0));
    assert_eq!(empty.timestamp_us, 4);
}

#[test]
fn only_a_lost_video_frame_stops_the_camera() {
    assert_eq!(after_send(Channel::Video, true), AfterSend::Continue);
    assert_eq!(after_send(Channel::Video, false), AfterSend::Stop);
    assert_eq!(after_send(Channel::Audio, true), AfterSend::Continue);
    assert_eq!(after_send(Channel::Audio, false), AfterSend::Continue);
    assert_eq!(after_send(Channel::Telemetry, true), AfterSend::Continue);
    assert_eq!(after_send(Channel::Telemetry, false), AfterSend::Continue);
}
