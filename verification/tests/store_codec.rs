use rustflix::codec::{decode_users, decode_videos, encode_users, encode_videos};
use rustflix::users::User;
use rustflix::videos::Video;

fn sample_users() -> Vec<User> {
    vec![
        User { id: 7, name: "ann".to_string(), email: "ann@example.net".to_string() },
        User { id: 4000000000, name: "".to_string(), email: "b".to_string() },
        User { id: 0, name: "snowman \u{2603}".to_string(), email: "u\u{00e9}".to_string() },
    ]
}

#[test]
fn users_round_trip() {
    let users = sample_users();
    let bytes = encode_users(&users);
    let loaded = decode_users(&bytes).unwrap();
    assert_eq!(loaded.len(), users.len());
    for i in 0..users.len() {
        assert!(loaded[i] == users[i]);
    }
}

#[test]
fn saving_a_loaded_collection_is_byte_identical() {
    // Persisting what was just loaded writes the very same bytes, so a
    // second load-save cycle changes nothing either.
    let bytes = encode_users(&sample_users());
    let once = encode_users(&decode_users(&bytes).unwrap());
    assert_eq!(once, bytes);
    let twice = encode_users(&decode_users(&once).unwrap());
    assert_eq!(twice, bytes);
}

#[test]
fn empty_collection_round_trips() {
    let users: Vec<User> = Vec::new();
    let bytes = encode_users(&users);
    assert_eq!(bytes, vec![0u8; 8]);
    assert_eq!(decode_users(&bytes).unwrap().len(), 0);
}

#[test]
fn malformed_blobs_are_rejected() {
    assert!(decode_users(&vec![]).is_none());
    assert!(decode_users(&vec![1, 2, 3]).is_none());
    // A count of one but no record data.
    assert!(decode_users(&vec![1, 0, 0, 0, 0, 0, 0, 0]).is_none());
    // Invalid UTF-8 in a string field.
    let mut bad = vec![1, 0, 0, 0, 0, 0, 0, 0];
    bad.extend_from_slice(&[9, 0, 0, 0]);
    bad.extend_from_slice(&[1, 0, 0, 0, 0, 0, 0, 0, 0xff]);
    bad.extend_from_slice(&[0, 0, 0, 0, 0, 0, 0, 0]);
    assert!(decode_users(&bad).is_none());
}

#[test]
fn trailing_bytes_are_rejected() {
    let mut bytes = encode_users(&sample_users());
    bytes.push(0);
    assert!(decode_users(&bytes).is_none());
}

#[test]
fn videos_round_trip() {
    let videos = vec![
        Video { id: 2829304751, name: "test".to_string(), views: 17 },
        Video { id: 3, name: "caf\u{00e9}".to_string(), views: u32::MAX },
    ];
    let bytes = encode_videos(&videos);
    let loaded = decode_videos(&bytes).unwrap();
    assert_eq!(loaded.len(), 2);
    assert!(loaded[0] == videos[0]);
    assert!(loaded[1] == videos[1]);
    let again = encode_videos(&loaded);
    assert_eq!(again, bytes);
}

#[test]
fn video_blob_truncation_is_rejected() {
    let videos = vec![Video { id: 1, name: "clip".to_string(), views: 2 }];
    let bytes = encode_videos(&videos);
    for cut in 0..bytes.len() {
        assert!(decode_videos(&bytes[..cut].to_vec()).is_none());
    }
    assert!(decode_videos(&bytes).is_some());
}
