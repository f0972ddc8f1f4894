use serde_json::Value;
use ty_resolver::framing::{content_length, frame_body, MessageReader};

fn read_all(stream: &[u8]) -> Vec<Value> {
    MessageReader::new().feed(stream)
}

fn document(text: &str) -> Value {
    serde_json::from_str(text).unwrap()
}

#[test]
fn bodies_get_a_header() {
    assert_eq!(frame_body(b"{}"), b"Content-Length: 2\r\n\r\n{}");
    assert_eq!(frame_body(b""), b"Content-Length: 0\r\n\r\n");
    let long = [b'x'; 1234];
    assert!(frame_body(&long).starts_with(b"Content-Length: 1234\r\n\r\nxx"));
    assert_eq!(frame_body(&long).len(), 24 + 1234);
}

#[test]
fn the_announced_length_is_read() {
    assert_eq!(content_length(b"Content-Length: 12\r\n\r\n"), 12);
    assert_eq!(content_length(b"Content-Length:12\r\n\r\n"), 12);
    assert_eq!(content_length(b"Content-Length: \t +12 \r\n\r\n"), 12);
    assert_eq!(content_length(b"Content-Length:\xc2\xa012\r\n\r\n"), 12);
    assert_eq!(content_length(b"Content-Type: x\r\nContent-Length: 7\r\n\r\n"), 7);
    assert_eq!(content_length(b"X: \xff\r\nContent-Length: 7\r\n\r\n"), 7);
    assert_eq!(content_length(b"Content-Length: 5"), 5);
}

#[test]
fn a_length_that_is_no_number_counts_as_zero() {
    assert_eq!(content_length(b""), 0);
    assert_eq!(content_length(b"\r\n\r\n"), 0);
    assert_eq!(content_length(b"content-length: 12\r\n\r\n"), 0);
    assert_eq!(content_length(b" Content-Length: 12\r\n\r\n"), 0);
    assert_eq!(content_length(b"Content-Length: x\r\n\r\n"), 0);
    assert_eq!(content_length(b"Content-Length: -1\r\n\r\n"), 0);
    assert_eq!(content_length(b"Content-Length: 99999999999999999999999\r\n\r\n"), 0);
}

#[test]
fn the_first_length_field_counts() {
    let header = b"Content-Length: 3\r\nContent-Length: 4\r\n\r\n";
    assert_eq!(content_length(header), 3);
    let unusable = b"Content-Length: x\r\nContent-Length: 4\r\n\r\n";
    assert_eq!(content_length(unusable), 0);
}

#[test]
fn the_reader_asks_for_the_header_byte_by_byte() {
    let mut reader = MessageReader::new();
    for byte in b"Content-Length: 4\r\n\r\n" {
        assert_eq!(reader.wanted(), 1);
        assert!(reader.feed(&[*byte]).is_empty());
    }
    assert_eq!(reader.wanted(), 4);
    assert!(reader.feed(b"tr").is_empty());
    assert_eq!(reader.wanted(), 2);
    assert_eq!(reader.feed(b"ue"), vec![Value::Bool(true)]);
    assert_eq!(reader.wanted(), 1);
}

#[test]
fn the_reader_asks_for_no_byte_of_the_next_frame() {
    let stream = [frame_body(b"[1]"), frame_body(b""), frame_body(b"[2]")].concat();
    let mut reader = MessageReader::new();
    let mut found = Vec::new();
    let mut at = 0;
    while at < stream.len() {
        let next = at + reader.wanted();
        found.extend(reader.feed(&stream[at..next]));
        at = next;
    }
    assert_eq!(at, stream.len());
    assert_eq!(found, vec![document("[1]"), document("[2]")]);
}

#[test]
fn a_stream_may_come_in_pieces_of_any_size() {
    let stream = [frame_body(b"1"), frame_body(b"x"), frame_body(b"[2,3]")].concat();
    let whole = read_all(&stream);
    assert_eq!(whole, vec![document("1"), document("[2,3]")]);
    for size in 1..=stream.len() {
        let mut reader = MessageReader::new();
        let mut found = Vec::new();
        for piece in stream.chunks(size) {
            found.extend(reader.feed(piece));
        }
        assert_eq!(found, whole, "{size}");
    }
}

#[test]
fn framed_documents_are_read_back_in_order() {
    let first = "{\"id\":1}";
    let second = "[1, 2.5, \"é\"]";
    let mut stream = frame_body(first.as_bytes());
    stream.extend(frame_body(second.as_bytes()));
    assert_eq!(read_all(&stream), vec![document(first), document(second)]);
}

#[test]
fn bodies_that_are_no_documents_are_passed_over() {
    let mut stream = frame_body(b"{");
    stream.extend(frame_body(b""));
    stream.extend(frame_body(b"null"));
    stream.extend(frame_body(b"\xff"));
    stream.extend(frame_body(b"1 2"));
    assert_eq!(read_all(&stream), vec![Value::Null]);
}

#[test]
fn unfinished_frames_give_no_message() {
    let stream = frame_body(b"{\"id\":1}");
    for end in 0..stream.len() {
        assert!(read_all(&stream[..end]).is_empty(), "{end}");
    }
    assert_eq!(read_all(&stream).len(), 1);
}

#[test]
fn more_bytes_keep_the_messages_before_them() {
    let mut stream = frame_body(b"1");
    stream.extend(frame_body(b"2"));
    stream.extend(b"Content-Length: 9\r\n\r\n");
    let whole = read_all(&stream);
    for end in 0..stream.len() {
        let part = read_all(&stream[..end]);
        assert_eq!(part, whole[..part.len()]);
    }
    assert_eq!(whole, vec![Value::from(1), Value::from(2)]);
}
