use kodama_core::frame::{FrameFlags, SourceId, FLAG_KEYFRAME, NODE_ID_LEN};
use kodama_core::transport::{
    handling, plan_identity, Failure, Handling, IdentityPlan, KeyError, KeyFile, SECRET_KEY_LEN,
};

#[test]
fn no_path_means_an_ephemeral_identity() {
    assert_eq!(plan_identity(&KeyFile::NoPath), Ok(IdentityPlan::Ephemeral));
}

#[test]
fn missing_file_triggers_generation() {
    assert_eq!(plan_identity(&KeyFile::Missing), Ok(IdentityPlan::Create));
}

#[test]
fn key_of_the_right_length_is_loaded() {
    assert_eq!(SECRET_KEY_LEN, 32);
    let bytes: Vec<u8> = (0..32u8).collect();
    assert_eq!(plan_identity(&KeyFile::Found(bytes.clone())), Ok(IdentityPlan::Load(bytes)));
}

#[test]
fn corrupt_or_unreadable_key_is_fatal() {
    assert_eq!(plan_identity(&KeyFile::Unreadable), Err(KeyError::Unreadable));
    assert_eq!(plan_identity(&KeyFile::Found(vec![])), Err(KeyError::Corrupt));
    assert_eq!(plan_identity(&KeyFile::Found(vec![1; 31])), Err(KeyError::Corrupt));
    assert_eq!(plan_identity(&KeyFile::Found(vec![1; 33])), Err(KeyError::Corrupt));
}

#[test]
fn source_id_is_the_little_endian_head_of_the_public_key() {
    assert_eq!(NODE_ID_LEN, 32);
    let mut key = [0u8; 32];
    for (i, b) in key.iter_mut().enumerate() {
        *b = i as u8 + 1;
    }
    let id = SourceId::from_node_id_bytes(&key);
    assert_eq!(id, SourceId(0x0807_0605_0403_0201));
    assert_eq!(id.as_u64(), 0x0807_0605_0403_0201);
}

#[test]
fn source_id_is_stable_and_ignores_the_tail() {
    let mut a = [7u8; 32];
    let b = [7u8; 32];
    assert_eq!(SourceId::from_node_id_bytes(&a), SourceId::from_node_id_bytes(&b));
    a[31] = 0;
    a[8] = 0;
    assert_eq!(SourceId::from_node_id_bytes(&a), SourceId::from_node_id_bytes(&b));
    a[0] = 0;
    assert_ne!(SourceId::from_node_id_bytes(&a), SourceId::from_node_id_bytes(&b));
}

#[test]
fn keyframe_flag_is_bit_zero() {
    assert_eq!(FLAG_KEYFRAME, 1);
    assert_eq!(FrameFlags::keyframe(), FrameFlags(1));
    assert_eq!(FrameFlags::default(), FrameFlags(0));
    assert!(FrameFlags(0x81).is_keyframe());
    assert!(!FrameFlags(0x80).is_keyframe());
}

#[test]
fn only_startup_and_shutdown_failures_are_fatal() {
    assert_eq!(handling(Failure::Settings), Handling::Fatal);
    assert_eq!(handling(Failure::Identity(KeyError::Corrupt)), Handling::Fatal);
    assert_eq!(handling(Failure::Identity(KeyError::Unreadable)), Handling::Fatal);
    assert_eq!(handling(Failure::Endpoint), Handling::Fatal);
    assert_eq!(handling(Failure::EndpointClosed), Handling::Fatal);
    for failure in [
        Failure::Connection,
        Failure::Classification,
        Failure::Stream,
        Failure::BusLag,
        Failure::StorageWrite,
        Failure::OverLimit,
    ] {
        assert_eq!(handling(failure), Handling::Logged);
    }
    assert_eq!(handling(Failure::QueueFull), Handling::Counted);
}
