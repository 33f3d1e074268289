use gust::errors::GitError;
use gust::http_protocol::RefResult;
use gust::protocol::{
    same_text, AckMode, CommandStatus, HttpProtocol, RefCommand, ServiceType, SideBind,
};

#[test]
fn services_have_their_names() {
    assert!(ServiceType::new("git-upload-pack") == ServiceType::UploadPack);
    assert!(ServiceType::new("git-receive-pack") == ServiceType::ReceivePack);
    assert_eq!(ServiceType::UploadPack.to_string(), "git-upload-pack");
    assert_eq!(ServiceType::ReceivePack.to_string(), "git-receive-pack");
    assert_eq!(ServiceType::parse("git-upload-pack"), Some(ServiceType::UploadPack));
    assert_eq!(ServiceType::parse("git-receive-pack"), Some(ServiceType::ReceivePack));
    assert_eq!(ServiceType::parse("git-upload-archive"), None);
    assert_eq!(ServiceType::parse(""), None);
}

#[test]
fn channels_have_their_tags() {
    assert_eq!(SideBind::PackfileData.value(), 1);
    assert_eq!(SideBind::ProgressInfo.value(), 2);
    assert_eq!(SideBind::Error.value(), 3);
}

#[test]
fn ack_modes_have_their_capabilities() {
    assert_eq!(HttpProtocol::value_in_ack_mode(&AckMode::MultiAck), "multi_ack");
    assert_eq!(HttpProtocol::value_in_ack_mode(&AckMode::MultiAckDetailed), "multi_ack_detailed");
    assert_eq!(HttpProtocol::value_in_ack_mode(&AckMode::Neither), "");
}

#[test]
fn default_protocol_acknowledges_in_detail() {
    let protocol = HttpProtocol::default();
    assert!(protocol.mode == AckMode::MultiAckDetailed);
    assert_eq!(protocol.repo_dir, "");
}

#[test]
fn texts_are_compared_by_their_characters() {
    assert!(same_text("abc", "abc"));
    assert!(!same_text("abc", "abd"));
    assert!(!same_text("abc", "ab"));
    assert!(same_text("", ""));
    assert!(same_text("\u{e9}t\u{e9}", "\u{e9}t\u{e9}"));
}

fn command() -> RefCommand {
    RefCommand::new(
        "0000000000000000000000000000000000000000".to_string(),
        "1111111111111111111111111111111111111111".to_string(),
        "refs/heads/main".to_string(),
    )
}

#[test]
fn new_command_is_pending() {
    let c = command();
    assert_eq!(c.ref_name, "refs/heads/main");
    assert_eq!(c.old_id, "0000000000000000000000000000000000000000");
    assert_eq!(c.new_id, "1111111111111111111111111111111111111111");
    assert!(c.status == CommandStatus::Pending);
    assert_eq!(c.error_msg, "");
}

#[test]
fn unpacked_command_reports_ok() {
    let mut c = command();
    assert_eq!(c.unpack(Ok::<u32, String>(7)), Ok(7));
    assert!(c.status == CommandStatus::Success);
    assert_eq!(c.status(), "ok refs/heads/main");
    let r = RefResult::of(&c);
    assert_eq!(r.reference, "refs/heads/main");
    assert_eq!(r.from_id, "0000000000000000000000000000000000000000");
    assert_eq!(r.to_id, "1111111111111111111111111111111111111111");
    assert_eq!(r.result, "ok");
}

#[test]
fn command_of_a_pack_that_failed_reports_ng() {
    let mut c = command();
    assert_eq!(c.unpack(Err::<u32, String>("bad checksum".to_string())), Err("bad checksum".to_string()));
    assert!(c.status == CommandStatus::Failed);
    assert_eq!(c.error_msg, "bad checksum");
    assert_eq!(c.status(), "ng refs/heads/main bad checksum");
    assert_eq!(RefResult::of(&c).result, "ng");
}

#[test]
fn status_is_set_once() {
    let mut c = command();
    let _ = c.unpack(Err::<(), String>("first".to_string()));
    let _ = c.unpack(Ok::<(), String>(()));
    assert!(c.status == CommandStatus::Failed);
    assert_eq!(c.error_msg, "first");
    let mut d = command();
    let _ = d.unpack(Ok::<(), String>(()));
    let _ = d.unpack(Err::<(), String>("late".to_string()));
    assert!(d.status == CommandStatus::Success);
    assert_eq!(d.error_msg, "");
}

#[test]
fn pending_command_is_not_reported_as_ok() {
    assert_eq!(command().status(), "ng refs/heads/main ");
}

#[test]
fn errors_are_told_apart() {
    assert_ne!(GitError::FormatError, GitError::LimitExceeded);
    assert_ne!(GitError::LookupError, GitError::TypeMismatch);
}
