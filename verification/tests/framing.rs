use ipc_server::framing::{find_newline, LineBuffer, NEWLINE};

#[test]
fn newline_is_line_feed() {
    assert_eq!(NEWLINE, b'\n');
}

#[test]
fn find_newline_gives_the_first() {
    assert_eq!(find_newline(b"ab\ncd\n"), Some(2));
    assert_eq!(find_newline(b"\n"), Some(0));
    assert_eq!(find_newline(b"abc"), None);
    assert_eq!(find_newline(b""), None);
    assert_eq!(find_newline(b"a\r"), None);
}

#[test]
fn a_line_in_one_chunk() {
    let mut buffer = LineBuffer::new();
    assert_eq!(buffer.push(b"\"Outputs\"\n"), Some(b"\"Outputs\"\n".to_vec()));
}

#[test]
fn a_line_split_in_two_is_reassembled() {
    let mut buffer = LineBuffer::new();
    assert_eq!(buffer.push(b"{\"Q"), None);
    assert_eq!(buffer.push(b"uery\"}\n"), Some(b"{\"Query\"}\n".to_vec()));
}

#[test]
fn a_line_split_byte_by_byte_is_reassembled() {
    let line = b"\"Outputs\"\n";
    let mut buffer = LineBuffer::new();
    for (i, byte) in line.iter().enumerate() {
        let got = buffer.push(&[*byte]);
        if i + 1 < line.len() {
            assert_eq!(got, None);
        } else {
            assert_eq!(got, Some(line.to_vec()));
        }
    }
}

#[test]
fn every_split_gives_the_same_line() {
    let stream = b"{\"Action\":\"Quit\"}\ntrailing";
    let whole = LineBuffer::new().push(stream);
    assert_eq!(whole, Some(b"{\"Action\":\"Quit\"}\n".to_vec()));
    for cut in 0..=stream.len() {
        let mut buffer = LineBuffer::new();
        let first = buffer.push(&stream[..cut]);
        let got = match first {
            Some(line) => Some(line),
            None => buffer.push(&stream[cut..]),
        };
        assert_eq!(got, whole);
    }
}

#[test]
fn bytes_behind_the_newline_are_dropped() {
    let mut buffer = LineBuffer::new();
    assert_eq!(buffer.push(b"one\ntwo"), Some(b"one\n".to_vec()));
    assert_eq!(buffer.push(b"three\n"), Some(b"three\n".to_vec()));
}

#[test]
fn empty_chunks_change_nothing() {
    let mut buffer = LineBuffer::new();
    assert_eq!(buffer.push(b""), None);
    assert_eq!(buffer.push(b"ab"), None);
    assert_eq!(buffer.push(b""), None);
    assert_eq!(buffer.push(b"\n"), Some(b"ab\n".to_vec()));
}

#[test]
fn an_empty_line_is_a_line() {
    let mut buffer = LineBuffer::new();
    assert_eq!(buffer.push(b"\n"), Some(b"\n".to_vec()));
}
