use rustis::framing::{framed, FrameReader, NEWLINE};

fn feed_all(chunks: &[&[u8]]) -> (Vec<Vec<u8>>, Vec<Vec<u8>>) {
    let mut reader = FrameReader::new();
    let mut out = Vec::new();
    for chunk in chunks {
        out.extend(reader.feed(chunk));
    }
    let mut rest = Vec::new();
    rest.extend(reader.feed(b"\n\n"));
    (out, rest)
}

fn split_on_delimiter(stream: &[u8]) -> Vec<Vec<u8>> {
    let mut pieces = Vec::new();
    let mut start = 0;
    let mut i = 0;
    while i + 1 < stream.len() {
        if stream[i] == b'\n' && stream[i + 1] == b'\n' {
            pieces.push(stream[start..i].to_vec());
            i += 2;
            start = i;
        } else {
            i += 1;
        }
    }
    pieces
}

#[test]
fn newline_is_the_line_feed_byte() {
    assert_eq!(NEWLINE, b'\n');
}

#[test]
fn one_frame_in_one_read() {
    let mut reader = FrameReader::new();
    assert_eq!(reader.feed(b"hello\n\n"), vec![b"hello".to_vec()]);
    assert_eq!(reader.feed(b""), Vec::<Vec<u8>>::new());
}

#[test]
fn several_frames_in_one_read_all_come_out() {
    let mut reader = FrameReader::new();
    let frames = reader.feed(b"a\nb\n\nc\n\n\n\nrest");
    assert_eq!(frames, vec![b"a\nb".to_vec(), b"c".to_vec(), b"".to_vec()]);
    assert_eq!(reader.feed(b"\n\n"), vec![b"rest".to_vec()]);
}

#[test]
fn a_delimiter_split_across_reads_is_found() {
    let mut reader = FrameReader::new();
    assert_eq!(reader.feed(b"abc\n"), Vec::<Vec<u8>>::new());
    assert_eq!(reader.feed(b"\ndef"), vec![b"abc".to_vec()]);
    assert_eq!(reader.feed(b"\n"), Vec::<Vec<u8>>::new());
    assert_eq!(reader.feed(b"\n"), vec![b"def".to_vec()]);
}

#[test]
fn a_stream_that_starts_with_the_delimiter_gives_an_empty_frame() {
    let mut reader = FrameReader::new();
    assert_eq!(reader.feed(b"\n\nx\n\n"), vec![b"".to_vec(), b"x".to_vec()]);
}

#[test]
fn three_newlines_are_one_delimiter_and_one_newline() {
    let mut reader = FrameReader::new();
    assert_eq!(reader.feed(b"a\n\n\n"), vec![b"a".to_vec()]);
    assert_eq!(reader.feed(b"\n"), vec![b"".to_vec()]);
    let mut other = FrameReader::new();
    assert_eq!(other.feed(b"a\n\n\nb\n\n"), vec![b"a".to_vec(), b"\nb".to_vec()]);
}

#[test]
fn frames_do_not_depend_on_how_the_stream_is_cut() {
    let stream: &[u8] = b"Rustis 1.0.0\nget\nk\n\n\n\nab\n\n\ncd\n\nx\n\n\n\n\ntail";
    let whole = split_on_delimiter(stream);
    assert_eq!(whole.len(), 6);
    for cut in 0..=stream.len() {
        let (frames, _) = feed_all(&[&stream[..cut], &stream[cut..]]);
        assert_eq!(frames, whole, "cut at {}", cut);
    }
    for first in 0..=stream.len() {
        for second in first..=stream.len() {
            let (frames, rest) =
                feed_all(&[&stream[..first], &stream[first..second], &stream[second..]]);
            assert_eq!(frames, whole);
            assert_eq!(rest, vec![b"\ntail".to_vec()]);
        }
    }
    let bytes: Vec<&[u8]> = stream.chunks(1).collect();
    assert_eq!(feed_all(&bytes).0, whole);
}

#[test]
fn next_frame_hands_out_one_frame_at_a_time() {
    let mut reader = FrameReader::new();
    reader.push(b"one\n\ntwo\n");
    assert_eq!(reader.next_frame(), Some(b"one".to_vec()));
    assert_eq!(reader.next_frame(), None);
    assert_eq!(reader.next_frame(), None);
    reader.push(b"\nthree");
    assert_eq!(reader.next_frame(), Some(b"two".to_vec()));
    assert_eq!(reader.next_frame(), None);
    reader.push(b"\n\n");
    assert_eq!(reader.next_frame(), Some(b"three".to_vec()));
    assert_eq!(reader.next_frame(), None);
}

#[test]
fn a_lone_newline_is_no_frame() {
    let mut reader = FrameReader::new();
    assert_eq!(reader.feed(b"\n"), Vec::<Vec<u8>>::new());
    assert_eq!(reader.feed(b"a"), Vec::<Vec<u8>>::new());
    assert_eq!(reader.feed(b"\n"), Vec::<Vec<u8>>::new());
    assert_eq!(reader.feed(b"\n"), vec![b"\na".to_vec()]);
}

#[test]
fn framed_appends_the_delimiter() {
    assert_eq!(framed("set"), b"set\n\n".to_vec());
    assert_eq!(framed(""), b"\n\n".to_vec());
    assert_eq!(framed("1\nvalue"), b"1\nvalue\n\n".to_vec());
    assert_eq!(framed("é"), vec![0xc3, 0xa9, b'\n', b'\n']);
}

#[test]
fn what_was_framed_is_read_back() {
    let mut reader = FrameReader::new();
    let mut wire = framed("published");
    wire.extend(framed("1\nsome value"));
    assert_eq!(reader.feed(&wire), vec![b"published".to_vec(), b"1\nsome value".to_vec()]);
}
