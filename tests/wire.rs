use repomons::event::{Category, Event};
use repomons::wire::{decode_event, encode_event, frame, split_frame};

#[test]
fn frame_round_trip() {
    let payload = vec![1u8, 2, 3, 250];
    let mut buf = frame(&payload);
    assert_eq!(&buf[..8], &[4, 0, 0, 0, 0, 0, 0, 0]);
    buf.extend_from_slice(&[9, 9]);
    assert_eq!(split_frame(&buf), Some((payload, 12)));
}

#[test]
fn incomplete_frames_are_not_read() {
    assert_eq!(split_frame(&[]), None);
    assert_eq!(split_frame(&[5, 0, 0, 0]), None);
    assert_eq!(split_frame(&[5, 0, 0, 0, 0, 0, 0, 0, 1, 2]), None);
    assert_eq!(split_frame(&[0, 0, 0, 0, 0, 0, 0, 0]), Some((vec![], 8)));
}

#[test]
fn event_encoding_is_framed_bincode() {
    let e = Event::new("r".to_string(), "b".to_string(), 1, &vec!["o".to_string()], &vec![(0, 0)]);
    let bytes = encode_event(&e);
    let mut payload = vec![1, 0, 0, 0, 0, 0, 0, 0, b'r', 1, 0, 0, 0, 0, 0, 0, 0, b'b'];
    payload.extend_from_slice(&1u128.to_le_bytes());
    payload.extend_from_slice(&[1, 0, 0, 0, 0, 0, 0, 0]);
    payload.extend_from_slice(&[1, 0, 0, 0, 0, 0, 0, 0, b'o']);
    payload.extend_from_slice(&[0; 16]);
    let mut expected = (payload.len() as u64).to_le_bytes().to_vec();
    expected.extend_from_slice(&payload);
    assert_eq!(bytes, expected);
    assert_eq!(split_frame(&bytes), Some((payload, expected.len())));
}

#[test]
fn equal_events_encode_equally() {
    let make = || {
        Event::new(
            "repo".to_string(),
            "main".to_string(),
            77,
            &vec!["origin".to_string(), "upstream".to_string()],
            &vec![(0, 0), (3, 0)],
        )
    };
    assert_eq!(encode_event(&make()), encode_event(&make()));
    let e = make();
    assert_eq!(e.statuses()[1].category, Category::Ahead(3));
    assert_eq!(e.id(), 77);
}

#[test]
fn event_round_trip() {
    let e = Event::new(
        "repo".to_string(),
        "main".to_string(),
        0x1234_5678_9abc_def0_0fed_cba9_8765_4321,
        &vec!["origin".to_string(), "upstream".to_string(), "fork".to_string()],
        &vec![(0, 0), (3, 0), (2, 5)],
    );
    let bytes = encode_event(&e);
    let (payload, used) = split_frame(&bytes).unwrap();
    assert_eq!(used, bytes.len());
    let d = decode_event(&payload).unwrap();
    assert_eq!(d.repo(), "repo");
    assert_eq!(d.branch(), "main");
    assert_eq!(d.id(), e.id());
    let got: Vec<(String, Category)> = d.statuses().iter().map(|s| (s.remote.clone(), s.category)).collect();
    assert_eq!(
        got,
        vec![
            ("origin".to_string(), Category::UpToDate),
            ("upstream".to_string(), Category::Ahead(3)),
            ("fork".to_string(), Category::Diverged(2, 5)),
        ]
    );
    assert_eq!(encode_event(&d), bytes);
}

#[test]
fn malformed_payloads_do_not_decode() {
    assert!(decode_event(&[]).is_none());
    assert!(decode_event(&[1, 0, 0, 0, 0, 0, 0, 0, 0xff]).is_none());
    assert!(decode_event(&[200, 0, 0, 0, 0, 0, 0, 0, b'a']).is_none());
}
