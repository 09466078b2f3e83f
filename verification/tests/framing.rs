use cybersub::framing::{frame_message, length_prefix, read_length, take_frames};

#[test]
fn messages_are_prefixed_with_their_length() {
    assert_eq!(frame_message(&vec![1, 2, 3]), vec![0, 0, 0, 3, 1, 2, 3]);
    assert_eq!(frame_message(&vec![]), vec![0, 0, 0, 0]);
    assert_eq!(length_prefix(0x0102_0304), [1, 2, 3, 4]);
    assert_eq!(length_prefix(300), 300u32.to_be_bytes());
    assert_eq!(read_length(1, 2, 3, 4), 0x0102_0304);
    assert_eq!(read_length(0xff, 0xff, 0xff, 0xff), u32::MAX);
}

#[test]
fn complete_frames_are_taken_and_the_rest_kept() {
    let mut buffer = frame_message(&vec![7, 8]);
    buffer.extend(frame_message(&vec![9]));
    buffer.extend(vec![0, 0, 0, 5, 1]);
    let messages = take_frames(&mut buffer);
    assert_eq!(messages, vec![vec![7, 8], vec![9]]);
    assert_eq!(buffer, vec![0, 0, 0, 5, 1]);
    buffer.extend(vec![2, 3, 4, 5]);
    let messages = take_frames(&mut buffer);
    assert_eq!(messages, vec![vec![1, 2, 3, 4, 5]]);
    assert!(buffer.is_empty());
}

#[test]
fn short_buffers_wait_for_more_bytes() {
    let mut buffer = vec![0, 0, 1];
    assert!(take_frames(&mut buffer).is_empty());
    assert_eq!(buffer, vec![0, 0, 1]);
    let mut empty = Vec::new();
    assert!(take_frames(&mut empty).is_empty());
    assert!(empty.is_empty());
}

#[test]
fn framed_messages_read_back_in_order() {
    let payloads = vec![vec![], vec![1], vec![2, 3, 4], vec![0; 300]];
    let mut stream = Vec::new();
    for payload in &payloads {
        stream.extend(frame_message(payload));
    }
    assert_eq!(take_frames(&mut stream), payloads);
    assert!(stream.is_empty());
}
