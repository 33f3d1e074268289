use bytes::BytesMut;
use gust::errors::GitError;
use gust::pktline::{
    put_lines, put_str_to_buf, read_pkt_line, write_flush, write_pkt_line, PktLine,
};
use gust::protocol::SideBind;
use gust::sideband::{read_sideband, write_sideband};

#[test]
fn line_is_length_and_payload() {
    let mut buf = BytesMut::new();
    assert_eq!(put_str_to_buf(&mut buf, "hello\n".to_string()), Ok(()));
    assert_eq!(&buf[..], b"000ahello\n");
    assert_eq!(write_pkt_line(&mut buf, b""), Ok(()));
    assert_eq!(&buf[..], b"000ahello\n0004");
}

#[test]
fn flush_is_four_zeros() {
    let mut buf = BytesMut::new();
    assert_eq!(write_flush(&mut buf), Ok(()));
    assert_eq!(&buf[..], b"0000");
    assert_eq!(read_pkt_line(&buf[..]), Ok((PktLine::Flush, 4)));
}

#[test]
fn reading_a_written_line_gives_the_payload_back() {
    for len in [0usize, 1, 2, 255, 4096, 65530, 65531] {
        let payload: Vec<u8> = (0..len).map(|i| (i % 251) as u8).collect();
        let mut buf = BytesMut::new();
        assert_eq!(write_pkt_line(&mut buf, &payload), Ok(()));
        assert_eq!(buf.len(), len + 4);
        assert_eq!(read_pkt_line(&buf[..]), Ok((PktLine::Data(payload), len + 4)));
    }
}

#[test]
fn longest_line_has_length_ffff() {
    let payload = vec![b'x'; 65531];
    let mut buf = BytesMut::new();
    assert_eq!(write_pkt_line(&mut buf, &payload), Ok(()));
    assert_eq!(&buf[..4], b"ffff");
}

#[test]
fn payload_over_65531_bytes_is_refused() {
    let payload = vec![b'x'; 65532];
    let mut buf = BytesMut::new();
    assert_eq!(write_pkt_line(&mut buf, b"ab"), Ok(()));
    assert_eq!(write_pkt_line(&mut buf, &payload), Err(GitError::LimitExceeded));
    assert_eq!(&buf[..], b"0006ab");
    assert_eq!(
        write_sideband(&mut buf, SideBind::PackfileData, &payload[..65531]),
        Err(GitError::LimitExceeded)
    );
    assert_eq!(&buf[..], b"0006ab");
}

#[test]
fn lines_are_read_one_after_another() {
    let input = b"0006ab0000000ahello\n";
    assert_eq!(read_pkt_line(&input[..]), Ok((PktLine::Data(b"ab".to_vec()), 6)));
    assert_eq!(read_pkt_line(&input[6..]), Ok((PktLine::Flush, 4)));
    assert_eq!(read_pkt_line(&input[10..]), Ok((PktLine::Data(b"hello\n".to_vec()), 10)));
    assert_eq!(read_pkt_line(&input[20..]), Err(GitError::FormatError));
}

#[test]
fn malformed_lines_are_format_errors() {
    assert_eq!(read_pkt_line(b""), Err(GitError::FormatError));
    assert_eq!(read_pkt_line(b"000"), Err(GitError::FormatError));
    assert_eq!(read_pkt_line(b"00g0"), Err(GitError::FormatError));
    assert_eq!(read_pkt_line(b"+006ab"), Err(GitError::FormatError));
    assert_eq!(read_pkt_line(b"0001"), Err(GitError::FormatError));
    assert_eq!(read_pkt_line(b"0003"), Err(GitError::FormatError));
    assert_eq!(read_pkt_line(b"0006a"), Err(GitError::FormatError));
}

#[test]
fn digits_are_read_in_either_case_and_written_in_lower_case() {
    assert_eq!(read_pkt_line(b"000Ahello\n"), Ok((PktLine::Data(b"hello\n".to_vec()), 10)));
    assert_eq!(read_pkt_line(b"000ahello\n"), Ok((PktLine::Data(b"hello\n".to_vec()), 10)));
    let mut buf = BytesMut::new();
    assert_eq!(write_pkt_line(&mut buf, &[b'x'; 0xab - 4]), Ok(()));
    assert_eq!(&buf[..4], b"00ab");
    let mut buf = BytesMut::new();
    assert_eq!(write_pkt_line(&mut buf, &[b'x'; 0x1f0c - 4]), Ok(()));
    assert_eq!(&buf[..4], b"1f0c");
}

#[test]
fn lines_are_written_in_order() {
    let mut buf = BytesMut::new();
    let lines = vec!["a".to_string(), "".to_string(), "bc\n".to_string()];
    assert_eq!(put_lines(&mut buf, &lines), Ok(()));
    assert_eq!(&buf[..], b"0005a00040007bc\n");
    let long = vec!["x".to_string(), "y".repeat(65532), "z".to_string()];
    assert_eq!(put_lines(&mut buf, &long), Err(GitError::LimitExceeded));
    // the lines before the one that does not fit are written, none behind it
    assert_eq!(&buf[..], b"0005a00040007bc\n0005x");
}

#[test]
fn frame_carries_the_channel_in_its_first_byte() {
    let mut buf = BytesMut::new();
    assert_eq!(write_sideband(&mut buf, SideBind::PackfileData, b"PACK"), Ok(()));
    assert_eq!(&buf[..], b"0009\x01PACK");
    assert_eq!(write_sideband(&mut buf, SideBind::ProgressInfo, b"50%"), Ok(()));
    assert_eq!(write_sideband(&mut buf, SideBind::Error, b""), Ok(()));
    assert_eq!(&buf[..], b"0009\x01PACK0008\x0250%0005\x03");
}

#[test]
fn channel_one_frames_put_together_are_the_pack() {
    let pack: Vec<u8> = (0..200_000usize).map(|i| (i * 7 % 256) as u8).collect();
    let mut stream = BytesMut::new();
    let mut sent = 0;
    for (k, chunk) in pack.chunks(65530).enumerate() {
        assert_eq!(write_sideband(&mut stream, SideBind::PackfileData, chunk), Ok(()));
        let note = format!("chunk {}\n", k);
        assert_eq!(write_sideband(&mut stream, SideBind::ProgressInfo, note.as_bytes()), Ok(()));
        sent += chunk.len();
    }
    assert_eq!(sent, pack.len());
    assert_eq!(write_flush(&mut stream), Ok(()));
    assert_eq!(read_sideband(&stream[..], SideBind::PackfileData), Ok(pack));
    assert_eq!(
        read_sideband(&stream[..], SideBind::ProgressInfo),
        Ok(b"chunk 0\nchunk 1\nchunk 2\nchunk 3\n".to_vec())
    );
    assert_eq!(read_sideband(&stream[..], SideBind::Error), Ok(vec![]));
}

#[test]
fn stream_without_flush_or_with_a_bad_frame_is_a_format_error() {
    assert_eq!(read_sideband(b"0009\x01PACK", SideBind::PackfileData), Err(GitError::FormatError));
    assert_eq!(read_sideband(b"00040000", SideBind::PackfileData), Err(GitError::FormatError));
    assert_eq!(read_sideband(b"0006\x04a0000", SideBind::PackfileData), Err(GitError::FormatError));
    assert_eq!(read_sideband(b"0006\x00a0000", SideBind::PackfileData), Err(GitError::FormatError));
    assert_eq!(read_sideband(b"0000", SideBind::PackfileData), Ok(vec![]));
    // what follows the flush is not part of the stream
    assert_eq!(read_sideband(b"0006\x01a0000junk", SideBind::PackfileData), Ok(b"a".to_vec()));
}
