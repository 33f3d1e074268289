use bytes::BytesMut;
use gust::errors::GitError;
use gust::http_protocol::{response_head, Reference, ResponseKind, CAPABILITIES};
use gust::pktline::{read_pkt_line, PktLine};
use gust::protocol::{CommandStatus, HttpProtocol};
use gust::receive_pack::{parse_command, ReceivePack, ReceivePackState};
use gust::sideband::read_sideband;
use gust::protocol::SideBind;
use gust::upload_pack::{UploadPack, UploadPackState};

const HEAD: &str = "ffcb773734b46607d070ba4ad0559aac9496d9db";

fn refs() -> Vec<Reference> {
    vec![
        Reference { id: HEAD.to_string(), name: "HEAD".to_string() },
        Reference { id: HEAD.to_string(), name: "refs/heads/master".to_string() },
    ]
}

fn lines(input: &[u8]) -> Vec<PktLine> {
    let mut at = 0;
    let mut out = Vec::new();
    while at < input.len() {
        let (line, used) = read_pkt_line(&input[at..]).unwrap();
        out.push(line);
        at += used;
    }
    out
}

#[test]
fn info_refs_begins_with_the_service_and_a_flush() {
    let (head, body) =
        HttpProtocol::git_info_refs("git-upload-pack", &refs(), CAPABILITIES).unwrap();
    assert_eq!(head.content_type, "application/x-git-upload-pack-advertisement");
    assert_eq!(head.cache_control, "no-cache, max-age=0, must-revalidate");
    assert!(body.starts_with(b"001e# service=git-upload-pack\n0000"));
    let all = lines(&body[..]);
    assert_eq!(all.len(), 5);
    assert_eq!(all[0], PktLine::Data(b"# service=git-upload-pack\n".to_vec()));
    assert_eq!(all[1], PktLine::Flush);
    let first = format!("{} HEAD\0{}\n", HEAD, CAPABILITIES);
    assert_eq!(all[2], PktLine::Data(first.into_bytes()));
    let second = format!("{} refs/heads/master\n", HEAD);
    assert_eq!(all[3], PktLine::Data(second.into_bytes()));
    assert_eq!(all[4], PktLine::Flush);
}

#[test]
fn info_refs_without_refs_is_two_sections() {
    let (head, body) = HttpProtocol::git_info_refs("git-receive-pack", &vec![], "").unwrap();
    assert_eq!(head.content_type, "application/x-git-receive-pack-advertisement");
    assert_eq!(&body[..], b"001f# service=git-receive-pack\n00000000");
}

#[test]
fn info_refs_with_a_line_too_long_is_refused() {
    let long = vec![Reference { id: HEAD.to_string(), name: "r".repeat(70000) }];
    let r = HttpProtocol::git_info_refs("git-upload-pack", &long, "");
    assert!(matches!(r, Err(GitError::LimitExceeded)));
}

#[test]
fn result_heads_name_the_service() {
    let head = response_head("git-upload-pack", ResponseKind::ServiceResult);
    assert_eq!(head.content_type, "application/x-git-upload-pack-result");
    assert_eq!(head.cache_control, "no-cache, max-age=0, must-revalidate");
}

const WANT_A: &str = "a1bd835a33d12c185dd6bc94f7ad174a4a8ca009";
const WANT_B: &str = "FFCB773734B46607D070BA4AD0559AAC9496D9DB";

fn request() -> Vec<u8> {
    let mut body = Vec::new();
    let first = format!("want {} multi_ack_detailed side-band-64k\n", WANT_A);
    body.extend(format!("{:04x}{}", first.len() + 4, first).into_bytes());
    let second = format!("want {}\n", WANT_B);
    body.extend(format!("{:04x}{}", second.len() + 4, second).into_bytes());
    body.extend(b"0000");
    body.extend(b"0009done\n");
    body
}

#[test]
fn upload_pack_collects_the_wants_and_answers_nak() {
    let (head, session, opening) = HttpProtocol::git_upload_pack(&request()).unwrap();
    assert_eq!(head.content_type, "application/x-git-upload-pack-result");
    assert!(session.state == UploadPackState::StreamPack);
    assert_eq!(session.wants.len(), 2);
    assert_eq!(session.wants[0].to_plain_str(), WANT_A);
    assert_eq!(session.wants[1].to_plain_str(), WANT_B.to_lowercase());
    assert_eq!(&opening[..], b"0008NAK\n");
}

#[test]
fn upload_pack_streams_the_pack_on_channel_one() {
    let (_, mut session, opening) = HttpProtocol::git_upload_pack(&request()).unwrap();
    let pack: Vec<u8> = (0..100_000usize).map(|i| (i % 253) as u8).collect();
    let mut answer = BytesMut::new();
    answer.extend_from_slice(&opening);
    for chunk in pack.chunks(8192) {
        let frame = session.stream(chunk).unwrap();
        assert_eq!(frame.len(), chunk.len() + 5);
        answer.extend_from_slice(&frame);
        assert!(session.state == UploadPackState::StreamPack);
    }
    let end = session.stream(b"").unwrap();
    assert_eq!(&end[..], b"0000");
    answer.extend_from_slice(&end);
    assert!(session.state == UploadPackState::Closed);
    assert_eq!(&answer[..8], b"0008NAK\n");
    assert_eq!(read_sideband(&answer[8..], SideBind::PackfileData), Ok(pack));
    // nothing goes out once the fetch is closed
    assert!(matches!(session.stream(b"more"), Err(GitError::FormatError)));
    assert!(session.state == UploadPackState::Failed);
}

#[test]
fn chunk_over_65530_bytes_is_refused() {
    let (_, mut session, _) = HttpProtocol::git_upload_pack(&request()).unwrap();
    let chunk = vec![0u8; 65531];
    assert!(matches!(session.stream(&chunk), Err(GitError::LimitExceeded)));
    assert!(session.state == UploadPackState::Failed);
}

#[test]
fn upload_pack_passes_over_other_lines() {
    let mut body = Vec::new();
    body.extend(b"000dshallow x");
    let want = format!("want {}\n", WANT_A);
    body.extend(format!("{:04x}{}", want.len() + 4, want).into_bytes());
    body.extend(b"0000");
    let have = format!("have {}\n", WANT_B);
    body.extend(format!("{:04x}{}", have.len() + 4, have).into_bytes());
    let late = format!("want {}\n", WANT_B);
    body.extend(format!("{:04x}{}", late.len() + 4, late).into_bytes());
    body.extend(b"0008done");
    body.extend(b"junk that is never read");
    let (_, session, _) = HttpProtocol::git_upload_pack(&body).unwrap();
    assert_eq!(session.wants.len(), 2);
    assert_eq!(session.wants[0].to_plain_str(), WANT_A);
    assert_eq!(session.wants[1].to_plain_str(), WANT_B.to_lowercase());
}

#[test]
fn wants_behind_a_flush_are_counted() {
    let mut body = Vec::new();
    let first = format!("want {}\n", WANT_A);
    body.extend(format!("{:04x}{}", first.len() + 4, first).into_bytes());
    body.extend(b"0000");
    let second = format!("want {}\n", WANT_B);
    body.extend(format!("{:04x}{}", second.len() + 4, second).into_bytes());
    body.extend(b"0009done\n");
    let (_, session, _) = HttpProtocol::git_upload_pack(&body).unwrap();
    let ids: Vec<String> = session.wants.iter().map(|id| id.to_plain_str()).collect();
    assert_eq!(ids, vec![WANT_A.to_string(), WANT_B.to_lowercase()]);
}

#[test]
fn lines_that_name_no_object_are_passed_over() {
    let mut body = Vec::new();
    body.extend(b"0004");
    body.extend(b"0006ab");
    body.extend(b"000fwant a1bd83");
    let bad = format!("want {}\n", "g".repeat(40));
    body.extend(format!("{:04x}{}", bad.len() + 4, bad).into_bytes());
    let tab = format!("want\t{}\n", WANT_A);
    body.extend(format!("{:04x}{}", tab.len() + 4, tab).into_bytes());
    body.extend(b"0000");
    body.extend(b"0000");
    let good = format!("want {}", WANT_A);
    body.extend(format!("{:04x}{}", good.len() + 4, good).into_bytes());
    body.extend(b"0008done");
    let (_, session, _) = HttpProtocol::git_upload_pack(&body).unwrap();
    assert_eq!(session.wants.len(), 1);
    assert_eq!(session.wants[0].to_plain_str(), WANT_A);
}

#[test]
fn upload_pack_states_follow_the_packets() {
    let mut session = UploadPack::new();
    assert!(session.state == UploadPackState::AdvertiseRefs);
    session.advertised();
    assert!(session.state == UploadPackState::AwaitWantLines);
    let want = format!("want {}\n", WANT_A);
    session.receive(&PktLine::Data(want.into_bytes()));
    assert!(session.state == UploadPackState::AwaitWantLines);
    session.receive(&PktLine::Flush);
    assert!(session.state == UploadPackState::AwaitDone);
    session.receive(&PktLine::Flush);
    assert!(session.state == UploadPackState::AwaitDone);
    let late = format!("want {}\n", WANT_B);
    session.receive(&PktLine::Data(late.into_bytes()));
    assert!(session.state == UploadPackState::AwaitDone);
    assert_eq!(session.wants.len(), 2);
    assert!(matches!(session.acknowledge(), Err(GitError::FormatError)));
    assert!(session.state == UploadPackState::Failed);
    session.receive(&PktLine::Data(b"done\n".to_vec()));
    assert!(session.state == UploadPackState::Failed);
    let mut early = UploadPack::new();
    early.receive(&PktLine::Flush);
    assert!(early.state == UploadPackState::Failed);
}

#[test]
fn malformed_fetch_requests_are_format_errors() {
    // no done
    let want = format!("want {}\n", WANT_A);
    let mut body = format!("{:04x}{}", want.len() + 4, want).into_bytes();
    body.extend(b"0000");
    assert!(matches!(HttpProtocol::git_upload_pack(&body), Err(GitError::FormatError)));
    // empty
    assert!(matches!(HttpProtocol::git_upload_pack(b""), Err(GitError::FormatError)));
    // a line that is cut short
    assert!(matches!(
        HttpProtocol::git_upload_pack(b"0032want a1bd830009done\n"),
        Err(GitError::FormatError)
    ));
    // a length that is not hexadecimal
    assert!(matches!(HttpProtocol::git_upload_pack(b"00zzdone"), Err(GitError::FormatError)));
}

const ZERO: &str = "0000000000000000000000000000000000000000";
const NEW: &str = "1234567890abcdef1234567890abcdef12345678";

fn push(pack: &[u8]) -> Vec<u8> {
    let line = format!("{} {} refs/heads/main", ZERO, NEW);
    let mut body = format!("{:04x}{}", line.len() + 4, line).into_bytes();
    body.extend(b"0000");
    body.extend(pack);
    body
}

#[test]
fn push_with_a_valid_pack_is_reported_ok() {
    let body = push(b"PACK....");
    let (session, pack_at) = HttpProtocol::git_receive_pack(&body).unwrap();
    assert_eq!(&body[pack_at..], b"PACK....");
    assert!(session.state == ReceivePackState::UnpackAndValidate);
    assert_eq!(session.request.comand_list.len(), 1);
    let c = &session.request.comand_list[0];
    assert_eq!(c.old_id, ZERO);
    assert_eq!(c.new_id, NEW);
    assert_eq!(c.ref_name, "refs/heads/main");
    assert!(c.status == CommandStatus::Pending);
    let (head, report) = HttpProtocol::git_receive_pack_result(session, Ok(())).unwrap();
    assert_eq!(head.content_type, "application/x-git-receive-pack-result");
    assert_eq!(&report[..], b"000eunpack ok\n0016ok refs/heads/main0000");
    assert_eq!(
        lines(&report[..]),
        vec![
            PktLine::Data(b"unpack ok\n".to_vec()),
            PktLine::Data(b"ok refs/heads/main".to_vec()),
            PktLine::Flush,
        ]
    );
}

#[test]
fn push_with_a_corrupted_pack_is_reported_ng() {
    let body = push(b"PACKcorrupted");
    let (session, _) = HttpProtocol::git_receive_pack(&body).unwrap();
    let outcome = Err("inflate failed".to_string());
    let (_, report) = HttpProtocol::git_receive_pack_result(session, outcome).unwrap();
    assert_eq!(
        lines(&report[..]),
        vec![
            PktLine::Data(b"unpack inflate failed\n".to_vec()),
            PktLine::Data(b"ng refs/heads/main inflate failed".to_vec()),
            PktLine::Flush,
        ]
    );
}

#[test]
fn failure_never_reads_as_success() {
    for message in ["ok", ""] {
        let (session, _) = HttpProtocol::git_receive_pack(&push(b"PACK")).unwrap();
        let outcome = Err(message.to_string());
        let (_, report) = HttpProtocol::git_receive_pack_result(session, outcome).unwrap();
        assert_eq!(
            lines(&report[..]),
            vec![
                PktLine::Data(b"unpack unpacker error\n".to_vec()),
                PktLine::Data(b"ng refs/heads/main unpacker error".to_vec()),
                PktLine::Flush,
            ]
        );
    }
    let (session, _) = HttpProtocol::git_receive_pack(&push(b"PACK")).unwrap();
    let (_, report) =
        HttpProtocol::git_receive_pack_result(session, Err("ok\n".to_string())).unwrap();
    assert_eq!(lines(&report[..])[0], PktLine::Data(b"unpack ok\n\n".to_vec()));
    let mut set_by_hand = ReceivePack::new();
    set_by_hand.state = ReceivePackState::EmitStatusReport;
    set_by_hand.failure = Some("ok".to_string());
    let report = set_by_hand.report().unwrap();
    assert_eq!(&report[..], b"001aunpack unpacker error\n0000");
}

#[test]
fn push_of_several_refs_reports_each() {
    let first = format!("{} {} refs/heads/main\0 report-status side-band-64k\n", ZERO, NEW);
    let second = format!("{} {} refs/tags/v1\n", NEW, ZERO);
    let mut body = format!("{:04x}{}", first.len() + 4, first).into_bytes();
    body.extend(format!("{:04x}{}", second.len() + 4, second).into_bytes());
    body.extend(b"0000PACK");
    let mut session = ReceivePack::new();
    assert_eq!(session.read_commands(&body), Ok(body.len() - 4));
    assert!(session.state == ReceivePackState::AwaitPackData);
    assert_eq!(session.request.comand_list[0].ref_name, "refs/heads/main");
    assert_eq!(session.request.comand_list[1].ref_name, "refs/tags/v1");
    assert_eq!(session.request.comand_list[1].old_id, NEW);
    // the report cannot go out before the pack is unpacked
    let mut hasty = ReceivePack::new();
    assert!(matches!(hasty.report(), Err(GitError::FormatError)));
    assert!(hasty.state == ReceivePackState::Failed);
    session.pack_received();
    assert!(session.state == ReceivePackState::UnpackAndValidate);
    session.unpacked(Ok(()));
    assert!(session.state == ReceivePackState::EmitStatusReport);
    let report = session.report().unwrap();
    assert!(session.state == ReceivePackState::Closed);
    assert_eq!(&report[..], b"000eunpack ok\n0016ok refs/heads/main0013ok refs/tags/v10000");
}

#[test]
fn command_lines_are_parsed_strictly() {
    let good = format!("{} {} refs/heads/main", ZERO, NEW);
    assert!(parse_command(good.as_bytes()).is_ok());
    let no_name = format!("{} {} ", ZERO, NEW);
    assert!(matches!(parse_command(no_name.as_bytes()), Err(GitError::FormatError)));
    let empty_name = format!("{} {} \0caps", ZERO, NEW);
    assert!(matches!(parse_command(empty_name.as_bytes()), Err(GitError::FormatError)));
    let short_id = format!("{} {} refs/heads/main", &ZERO[..39], NEW);
    assert!(matches!(parse_command(short_id.as_bytes()), Err(GitError::FormatError)));
    let bad_id = format!("{} {} refs/heads/main", ZERO, "x".repeat(40));
    assert!(matches!(parse_command(bad_id.as_bytes()), Err(GitError::FormatError)));
    let tab = format!("{}\t{} refs/heads/main", ZERO, NEW);
    assert!(matches!(parse_command(tab.as_bytes()), Err(GitError::FormatError)));
    let mut not_text = format!("{} {} refs/heads/", ZERO, NEW).into_bytes();
    not_text.extend([0xff, 0xfe]);
    assert!(matches!(parse_command(&not_text), Err(GitError::FormatError)));
    let accents = format!("{} {} refs/heads/\u{e9}t\u{e9}\n", ZERO, NEW);
    assert_eq!(parse_command(accents.as_bytes()).unwrap().ref_name, "refs/heads/\u{e9}t\u{e9}");
    assert!(matches!(parse_command(b""), Err(GitError::FormatError)));
}

#[test]
fn malformed_push_requests_are_format_errors() {
    // no flush behind the commands
    let line = format!("{} {} refs/heads/main", ZERO, NEW);
    let body = format!("{:04x}{}", line.len() + 4, line).into_bytes();
    assert!(matches!(HttpProtocol::git_receive_pack(&body), Err(GitError::FormatError)));
    // a line that is no command
    assert!(matches!(
        HttpProtocol::git_receive_pack(b"0009hello0000"),
        Err(GitError::FormatError)
    ));
    // no command at all is a push of nothing
    let (session, pack_at) = HttpProtocol::git_receive_pack(b"0000PACK").unwrap();
    assert_eq!(pack_at, 4);
    assert_eq!(session.request.comand_list.len(), 0);
    let (_, report) = HttpProtocol::git_receive_pack_result(session, Ok(())).unwrap();
    assert_eq!(&report[..], b"000eunpack ok\n0000");
}

#[test]
fn outcome_is_taken_once_and_in_its_state() {
    let mut session = ReceivePack::new();
    session.unpacked(Ok(()));
    assert!(session.state == ReceivePackState::Failed);
    let r = HttpProtocol::git_receive_pack_result(session, Ok(()));
    assert!(matches!(r, Err(GitError::FormatError)));
    let mut other = ReceivePack::new();
    other.pack_received();
    assert!(other.state == ReceivePackState::Failed);
    let mut third = ReceivePack::new();
    third.receive(&PktLine::Flush);
    third.receive(&PktLine::Flush);
    assert!(third.state == ReceivePackState::Failed);
}
