//! The vocabulary of the smart transport: services, acknowledgement modes,
//! side-band channels and the commands of a push.

use vstd::prelude::*;
use vstd::string::*;

verus! {

/// How the server acknowledges the objects that a client names.
#[derive(Clone, Copy, Debug, PartialEq, Eq, Structural)]
pub enum AckMode {
    MultiAck,
    MultiAckDetailed,
    Neither,
}

/// What a request is served with: where the repository lies and how the
/// server acknowledges.
pub struct HttpProtocol {
    pub mode: AckMode,
    pub repo_dir: String,
}

impl Default for HttpProtocol {
    fn default() -> (r: Self)
        ensures
            r.mode == AckMode::MultiAckDetailed,
            r.repo_dir@ == Seq::<char>::empty(),
    {
        HttpProtocol { mode: AckMode::MultiAckDetailed, repo_dir: String::new() }
    }
}

/// The capability that announces an acknowledgement mode.
pub open spec fn ack_mode_name(mode: AckMode) -> Seq<char> {
    match mode {
        AckMode::MultiAck => "multi_ack"@,
        AckMode::MultiAckDetailed => "multi_ack_detailed"@,
        AckMode::Neither => ""@,
    }
}

impl HttpProtocol {
    /// The capability that announces `mode`; nothing for `Neither`.
    pub fn value_in_ack_mode(mode: &AckMode) -> (r: &'static str)
        ensures
            r@ == ack_mode_name(*mode),
    {
        match mode {
            AckMode::MultiAck => "multi_ack",
            AckMode::MultiAckDetailed => "multi_ack_detailed",
            AckMode::Neither => "",
        }
    }
}

/// The two services of the smart transport.
#[derive(Clone, Copy, Debug, PartialEq, Eq, Structural)]
pub enum ServiceType {
    UploadPack,
    ReceivePack,
}

/// The name that a request gives a service.
pub open spec fn service_name(service: ServiceType) -> Seq<char> {
    match service {
        ServiceType::UploadPack => "git-upload-pack"@,
        ServiceType::ReceivePack => "git-receive-pack"@,
    }
}

/// Whether `a` and `b` are the same text.
pub fn same_text(a: &str, b: &str) -> (same: bool)
    ensures
        same == (a@ == b@),
{
    let x = a.as_bytes();
    let y = b.as_bytes();
    proof {
        vstd::utf8::encode_utf8_decode_utf8(a@);
        vstd::utf8::encode_utf8_decode_utf8(b@);
    }
    if x.len() != y.len() {
        return false;
    }
    let mut i: usize = 0;
    while i < x.len()
        invariant
            i <= x@.len(),
            x@.len() == y@.len(),
            x@ == a.spec_bytes(),
            y@ == b.spec_bytes(),
            forall|j: int| 0 <= j < i ==> x@[j] == y@[j],
        decreases x@.len() - i,
    {
        if x[i] != y[i] {
            return false;
        }
        i += 1;
    }
    assert(x@ =~= y@);
    true
}

/// The two services have different names.
pub proof fn lemma_service_names_differ()
    ensures
        service_name(ServiceType::UploadPack) != service_name(ServiceType::ReceivePack),
{
    reveal_strlit("git-upload-pack");
    reveal_strlit("git-receive-pack");
    assert("git-upload-pack"@.len() == 15);
    assert("git-receive-pack"@.len() == 16);
}

impl ServiceType {
    /// The service that `service_name` names, if it names one.
    pub fn parse(service_name: &str) -> (r: Option<ServiceType>)
        ensures
            match r {
                Some(service) => self::service_name(service) == service_name@,
                None => service_name@ != "git-upload-pack"@ && service_name@
                    != "git-receive-pack"@,
            },
            r == Some(ServiceType::UploadPack) <==> service_name@ == "git-upload-pack"@,
            r == Some(ServiceType::ReceivePack) <==> service_name@ == "git-receive-pack"@,
    {
        proof {
            lemma_service_names_differ();
        }
        if same_text(service_name, "git-upload-pack") {
            Some(ServiceType::UploadPack)
        } else if same_text(service_name, "git-receive-pack") {
            Some(ServiceType::ReceivePack)
        } else {
            None
        }
    }

    /// The service that `service_name` names.
    pub fn new(service_name: &str) -> (r: ServiceType)
        requires
            service_name@ == "git-upload-pack"@ || service_name@ == "git-receive-pack"@,
        ensures
            self::service_name(r) == service_name@,
            r == ServiceType::UploadPack <==> service_name@ == "git-upload-pack"@,
    {
        proof {
            lemma_service_names_differ();
        }
        if same_text(service_name, "git-upload-pack") {
            ServiceType::UploadPack
        } else {
            ServiceType::ReceivePack
        }
    }

    /// The name of the service.
    pub fn to_string(&self) -> (r: String)
        ensures
            r@ == service_name(*self),
    {
        match self {
            ServiceType::UploadPack => "git-upload-pack".to_owned(),
            ServiceType::ReceivePack => "git-receive-pack".to_owned(),
        }
    }
}

/// The channels of a side-band stream.
#[derive(Clone, Copy, Debug, PartialEq, Eq, Structural)]
pub enum SideBind {
    /// Channel 1 carries the bytes of the pack.
    PackfileData,
    /// Channel 2 carries progress text, which a client shows to its user.
    ProgressInfo,
    /// Channel 3 carries the text of an error.
    Error,
}

/// The tag byte of a channel.
pub open spec fn channel_tag(channel: SideBind) -> u8 {
    match channel {
        SideBind::PackfileData => 1,
        SideBind::ProgressInfo => 2,
        SideBind::Error => 3,
    }
}

impl SideBind {
    /// The tag byte that opens a frame of this channel.
    pub fn value(&self) -> (r: u8)
        ensures
            r == channel_tag(*self),
    {
        match self {
            SideBind::PackfileData => 1,
            SideBind::ProgressInfo => 2,
            SideBind::Error => 3,
        }
    }
}

/// How far a command of a push has come.
#[derive(Clone, Copy, Debug, PartialEq, Eq, Structural)]
pub enum CommandStatus {
    /// The pack has not been unpacked yet.
    Pending,
    /// The pack was unpacked and the ref can move.
    Success,
    /// The pack could not be unpacked.
    Failed,
}

/// One command of a push: move `ref_name` from `old_id` to `new_id`.
#[derive(Clone, Debug)]
pub struct RefCommand {
    pub ref_name: String,
    pub old_id: String,
    pub new_id: String,
    pub status: CommandStatus,
    pub error_msg: String,
}

/// A command as the contracts see it: its fields as text.
pub struct CommandView {
    pub ref_name: Seq<char>,
    pub old_id: Seq<char>,
    pub new_id: Seq<char>,
    pub status: CommandStatus,
    pub error_msg: Seq<char>,
}

impl View for RefCommand {
    type V = CommandView;

    open spec fn view(&self) -> CommandView {
        CommandView {
            ref_name: self.ref_name@,
            old_id: self.old_id@,
            new_id: self.new_id@,
            status: self.status,
            error_msg: self.error_msg@,
        }
    }
}

/// A command once the pack is unpacked: a pending command succeeds where
/// the unpacking did, and fails with the message of the failure where it
/// did not; a command whose status is set keeps it.
pub open spec fn settled(c: CommandView, failure: Option<Seq<char>>) -> CommandView {
    if c.status != CommandStatus::Pending {
        c
    } else {
        match failure {
            None => CommandView { status: CommandStatus::Success, ..c },
            Some(msg) => CommandView { status: CommandStatus::Failed, error_msg: msg, ..c },
        }
    }
}

/// The commands of one push.
pub struct RefUpdateRequet {
    pub comand_list: Vec<RefCommand>,
}

/// The line that reports a command: `ok` and the ref where it succeeded,
/// `ng`, the ref and the message where it did not.
pub open spec fn status_line(
    status: CommandStatus,
    ref_name: Seq<char>,
    error_msg: Seq<char>,
) -> Seq<char> {
    if status == CommandStatus::Success {
        "ok "@ + ref_name
    } else {
        "ng "@ + ref_name + " "@ + error_msg
    }
}

impl RefCommand {
    /// A pending command that moves `ref_name` from `old_id` to `new_id`.
    pub fn new(old_id: String, new_id: String, ref_name: String) -> (c: RefCommand)
        ensures
            c.ref_name == ref_name,
            c.old_id == old_id,
            c.new_id == new_id,
            c.status == CommandStatus::Pending,
            c.error_msg@ == Seq::<char>::empty(),
    {
        RefCommand {
            ref_name,
            old_id,
            new_id,
            status: CommandStatus::Pending,
            error_msg: String::new(),
        }
    }

    /// Records how the unpacking of the pack ended, and hands the outcome
    /// on. A pending command succeeds with the pack, or fails with the
    /// message of the failure; a command whose status is set keeps it.
    pub fn unpack<P>(&mut self, decoded: Result<P, String>) -> (r: Result<P, String>)
        ensures
            r == decoded,
            final(self)@ == settled(
                old(self)@,
                match decoded {
                    Ok(_) => None,
                    Err(msg) => Some(msg@),
                },
            ),
            final(self).ref_name == old(self).ref_name,
            final(self).old_id == old(self).old_id,
            final(self).new_id == old(self).new_id,
            old(self).status != CommandStatus::Pending ==> *final(self) == *old(self),
            old(self).status == CommandStatus::Pending ==> match decoded {
                Ok(_) => final(self).status == CommandStatus::Success && final(self).error_msg
                    == old(self).error_msg,
                Err(msg) => final(self).status == CommandStatus::Failed && final(self).error_msg
                    == msg,
            },
    {
        if self.status == CommandStatus::Pending {
            match &decoded {
                Ok(_) => {
                    self.status = CommandStatus::Success;
                },
                Err(msg) => {
                    self.status = CommandStatus::Failed;
                    self.error_msg = msg.clone();
                },
            }
        }
        decoded
    }

    /// The line that reports this command to the client. A command that is
    /// not known to have succeeded is reported as failed.
    pub fn status(&self) -> (r: String)
        ensures
            r@ == status_line(self.status, self.ref_name@, self.error_msg@),
    {
        if self.status == CommandStatus::Success {
            let mut line = "ok ".to_owned();
            line.append(self.ref_name.as_str());
            line
        } else {
            let mut line = "ng ".to_owned();
            line.append(self.ref_name.as_str());
            line.append(" ");
            line.append(self.error_msg.as_str());
            line
        }
    }
}

/// What the server program is asked to do.
pub enum ServeCommand {
    /// Serve repositories over HTTP, on `port`, with the TLS key and
    /// certificate at the two paths where they are given.
    Serve { port: Option<u16>, key_path: Option<String>, cert_path: Option<String> },
}

} // verus!
