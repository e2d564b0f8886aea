use enclaver::json_transport::{frame, FrameReader, HEADER_LEN, MAX_BODY};

/// Reads one message off the front of a stream, and tells how much it took.
fn read(stream: &[u8]) -> (Vec<u8>, usize) {
    let mut reader = FrameReader::new();
    let mut at = 0;
    loop {
        let n = reader.wants();
        let bytes = stream[at..at + n].to_vec();
        at += n;
        if let Some(body) = reader.feed(bytes) {
            return (body, at);
        }
    }
}

#[test]
fn frame_is_length_and_body() {
    assert_eq!(frame(&[]), Some(vec![0, 0]));
    assert_eq!(frame(&[7]), Some(vec![1, 0, 7]));
    assert_eq!(frame(b"{}"), Some(vec![2, 0, b'{', b'}']));
    let long = frame(&vec![1u8; 0x1234]).unwrap();
    assert_eq!(long[..3], [0x34, 0x12, 1]);
    assert_eq!(long.len(), 0x1234 + 2);
    assert_eq!(HEADER_LEN, 2);
    assert_eq!(MAX_BODY, 65535);
}

#[test]
fn reading_gives_back_what_was_framed() {
    for len in [0, 1, 2, 255, 256, 257, 4096, MAX_BODY] {
        let body: Vec<u8> = (0..len).map(|i| (i * 7 % 251) as u8).collect();
        let bytes = frame(&body).unwrap();
        let (got, taken) = read(&bytes);
        assert_eq!(got, body);
        assert_eq!(taken, bytes.len());
    }
}

#[test]
fn a_message_that_is_too_long_is_refused() {
    let longest = frame(&vec![9u8; MAX_BODY]).unwrap();
    assert_eq!(longest[..3], [255, 255, 9]);
    assert_eq!(longest.len(), MAX_BODY + 2);
    for len in [MAX_BODY + 1, MAX_BODY + 4, 2 * MAX_BODY + 2, 1 << 20] {
        assert_eq!(frame(&vec![9u8; len]), None);
    }
}

#[test]
fn messages_come_out_in_order() {
    let mut stream = Vec::new();
    let bodies = [b"first".to_vec(), Vec::new(), b"third, the last".to_vec()];
    for body in &bodies {
        stream.extend(frame(body).unwrap());
    }
    let mut at = 0;
    for body in &bodies {
        let (got, taken) = read(&stream[at..]);
        assert_eq!(&got, body);
        at += taken;
    }
    assert_eq!(at, stream.len());
}

#[test]
fn reader_can_be_used_again() {
    let mut reader = FrameReader::new();
    assert_eq!(reader.wants(), 2);
    assert_eq!(reader.feed(vec![3, 1]), None);
    assert_eq!(reader.wants(), 259);
    assert_eq!(reader.feed(vec![5; 259]), Some(vec![5; 259]));
    assert_eq!(reader.wants(), 2);
    assert_eq!(reader.feed(vec![0, 0]), None);
    assert_eq!(reader.wants(), 0);
    assert_eq!(reader.feed(vec![]), Some(vec![]));
}
