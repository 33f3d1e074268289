//! The smart HTTP transport: what the server answers to the three
//! requests of a client, without the sending and the receiving.

use crate::buffer::buf_bytes;
use crate::errors::GitError;
use crate::pktline::{
    flush_pkt, lines_encoding, lines_fit, put_lines, texts, write_flush, MAX_BUFFER,
};
use crate::protocol::{CommandStatus, HttpProtocol, RefCommand};
use crate::receive_pack::{
    command_all, failure_of, report_bytes, report_fits, ReceivePack, ReceivePackState,
};
use crate::upload_pack::{nak_line, negotiate_all, UploadPack, UploadPackState};
use bytes::BytesMut;
use vstd::prelude::*;
use vstd::string::*;

verus! {

/// The capabilities that the first advertised ref announces.
pub const CAPABILITIES: &'static str =
    "multi_ack thin-pack side-band side-band-64k ofs-delta shallow deepen-since deepen-not deepen-relative no-progress include-tag multi_ack_detailed no-done symref=HEAD:refs/heads/master object-format=sha1 agent=git/2.38.1";

/// The cache directive that every response carries.
pub const CACHE_CONTROL: &'static str = "no-cache, max-age=0, must-revalidate";

/// How a ref fared in a push.
#[derive(Debug, Clone)]
pub struct RefResult {
    pub reference: String,
    pub from_id: String,
    pub to_id: String,
    pub result: String,
}

/// The word that reports a status: `ok` for success, `ng` otherwise.
pub open spec fn result_word(status: CommandStatus) -> Seq<char> {
    if status == CommandStatus::Success {
        "ok"@
    } else {
        "ng"@
    }
}

impl RefResult {
    /// How the ref of `command` fared.
    pub fn of(command: &RefCommand) -> (r: RefResult)
        ensures
            r.reference@ == command.ref_name@,
            r.from_id@ == command.old_id@,
            r.to_id@ == command.new_id@,
            r.result@ == result_word(command.status),
    {
        RefResult {
            reference: command.ref_name.clone(),
            from_id: command.old_id.clone(),
            to_id: command.new_id.clone(),
            result: if command.status == CommandStatus::Success {
                "ok".to_owned()
            } else {
                "ng".to_owned()
            },
        }
    }
}

/// The two kinds of response.
#[derive(Clone, Copy, Debug, PartialEq, Eq, Structural)]
pub enum ResponseKind {
    /// The answer to `GET info/refs`.
    Advertisement,
    /// The answer to a `POST` to a service.
    ServiceResult,
}

/// The header fields of a response.
pub struct ResponseHead {
    pub content_type: String,
    pub cache_control: String,
}

/// The content type of a response of `kind` for `service`.
pub open spec fn content_type(service: Seq<char>, kind: ResponseKind) -> Seq<char> {
    "application/x-"@ + service + match kind {
        ResponseKind::Advertisement => "-advertisement"@,
        ResponseKind::ServiceResult => "-result"@,
    }
}

/// The header fields of a response of `kind` for `service`.
pub fn response_head(service: &str, kind: ResponseKind) -> (head: ResponseHead)
    ensures
        head.content_type@ == content_type(service@, kind),
        head.cache_control@ == CACHE_CONTROL@,
{
    let mut content_type = "application/x-".to_owned();
    content_type.append(service);
    match kind {
        ResponseKind::Advertisement => content_type.append("-advertisement"),
        ResponseKind::ServiceResult => content_type.append("-result"),
    }
    ResponseHead { content_type, cache_control: CACHE_CONTROL.to_owned() }
}

/// A ref as it is advertised: the id of its object in forty hexadecimal
/// digits, and its name.
pub struct Reference {
    pub id: String,
    pub name: String,
}

/// The line that names the service.
pub open spec fn service_line(service: Seq<char>) -> Seq<char> {
    "# service="@ + service + "\n"@
}

/// The line that advertises a ref; the first of them also announces the
/// capabilities, behind a NUL.
pub open spec fn ref_line(id: Seq<char>, name: Seq<char>, first: bool, capabilities: Seq<char>) -> Seq<
    char,
> {
    if first {
        id + " "@ + name + "\0"@ + capabilities + "\n"@
    } else {
        id + " "@ + name + "\n"@
    }
}

/// The lines that advertise `refs`, in order.
pub open spec fn ref_lines(refs: Seq<Reference>, capabilities: Seq<char>) -> Seq<Seq<char>> {
    Seq::new(refs.len(), |i: int| ref_line(refs[i].id@, refs[i].name@, i == 0, capabilities))
}

/// The advertisement: the line that names the service, a flush, the lines
/// of the refs, and a flush.
pub open spec fn advertisement(
    service: Seq<char>,
    refs: Seq<Reference>,
    capabilities: Seq<char>,
) -> Seq<u8> {
    lines_encoding(seq![service_line(service)]) + flush_pkt() + lines_encoding(
        ref_lines(refs, capabilities),
    ) + flush_pkt()
}

/// Whether the advertisement can be written.
pub open spec fn advertisement_fits(
    service: Seq<char>,
    refs: Seq<Reference>,
    capabilities: Seq<char>,
) -> bool {
    &&& lines_fit(0, seq![service_line(service)])
    &&& lines_fit(
        lines_encoding(seq![service_line(service)]).len() + 4,
        ref_lines(refs, capabilities),
    )
    &&& advertisement(service, refs, capabilities).len() <= MAX_BUFFER
}

impl HttpProtocol {
    /// The answer to `GET info/refs?service=<service>`: the header fields
    /// and the advertisement of `refs`. Fails with `LimitExceeded` where
    /// the advertisement cannot be written.
    pub fn git_info_refs(service: &str, refs: &Vec<Reference>, capabilities: &str) -> (r: Result<
        (ResponseHead, BytesMut),
        GitError,
    >)
        ensures
            match r {
                Ok((head, body)) => {
                    &&& head.content_type@ == content_type(service@, ResponseKind::Advertisement)
                    &&& head.cache_control@ == CACHE_CONTROL@
                    &&& buf_bytes(body) == advertisement(service@, refs@, capabilities@)
                },
                Err(e) => e == GitError::LimitExceeded && !advertisement_fits(
                    service@,
                    refs@,
                    capabilities@,
                ),
            },
    {
        let head = response_head(service, ResponseKind::Advertisement);
        let mut first = "# service=".to_owned();
        first.append(service);
        first.append("\n");
        let mut opening: Vec<String> = Vec::new();
        opening.push(first);
        proof {
            assert(texts(opening@) =~= seq![service_line(service@)]);
        }
        let mut lines: Vec<String> = Vec::new();
        let n: usize = refs.len();
        let mut i: usize = 0;
        while i < n
            invariant
                i <= n,
                n == refs@.len(),
                lines@.len() == i,
                forall|j: int|
                    0 <= j < i ==> (#[trigger] lines@[j])@ == ref_lines(refs@, capabilities@)[j],
            decreases n - i,
        {
            let mut line = refs[i].id.clone();
            line.append(" ");
            line.append(refs[i].name.as_str());
            if i == 0 {
                line.append("\0");
                line.append(capabilities);
            }
            line.append("\n");
            lines.push(line);
            i += 1;
        }
        proof {
            assert(texts(lines@) =~= ref_lines(refs@, capabilities@));
        }
        let mut body = BytesMut::new();
        put_lines(&mut body, &opening)?;
        write_flush(&mut body)?;
        proof {
            assert(flush_pkt().len() == 4);
        }
        put_lines(&mut body, &lines)?;
        write_flush(&mut body)?;
        Ok((head, body))
    }

    /// The answer to the request of a fetch: the wants are read from
    /// `body`, and where they end with `done` the answer opens with the
    /// header fields and the line `NAK`; the pack follows chunk by chunk,
    /// from `UploadPack::stream`. Fails with `FormatError` where the
    /// request is malformed.
    pub fn git_upload_pack(body: &[u8]) -> (r: Result<(ResponseHead, UploadPack, BytesMut), GitError>)
        ensures
            match r {
                Ok((head, session, opening)) => {
                    &&& head.content_type@ == content_type(
                        "git-upload-pack"@,
                        ResponseKind::ServiceResult,
                    )
                    &&& head.cache_control@ == CACHE_CONTROL@
                    &&& (session.state, session.wanted()) == negotiate_all(
                        UploadPackState::AwaitWantLines,
                        Seq::empty(),
                        body@,
                    )
                    &&& session.state == UploadPackState::StreamPack
                    &&& buf_bytes(opening) == nak_line()
                },
                Err(e) => e == GitError::FormatError && negotiate_all(
                    UploadPackState::AwaitWantLines,
                    Seq::empty(),
                    body@,
                ).0 != UploadPackState::StreamPack,
            },
    {
        let mut session = UploadPack::new();
        session.advertised();
        session.negotiate(body)?;
        let opening = session.acknowledge()?;
        let head = response_head("git-upload-pack", ResponseKind::ServiceResult);
        Ok((head, session, opening))
    }

    /// Reads the request of a push: the commands at the front of `body`.
    /// Gives the push, which now awaits the outcome of the unpacking, and
    /// where the pack starts in `body`. Fails with `FormatError` where the
    /// request is malformed.
    pub fn git_receive_pack(body: &[u8]) -> (r: Result<(ReceivePack, usize), GitError>)
        ensures
            match r {
                Ok((session, pack_at)) => {
                    &&& command_all(
                        ReceivePackState::AwaitRefUpdateLines,
                        Seq::empty(),
                        body@,
                    ) == (ReceivePackState::AwaitPackData, session.commands(), pack_at as nat)
                    &&& session.state == ReceivePackState::UnpackAndValidate
                    &&& session.failed_with() is None
                    &&& pack_at <= body@.len()
                },
                Err(e) => e == GitError::FormatError && command_all(
                    ReceivePackState::AwaitRefUpdateLines,
                    Seq::empty(),
                    body@,
                ).0 != ReceivePackState::AwaitPackData,
            },
    {
        let mut session = ReceivePack::new();
        let pack_at = session.read_commands(body)?;
        session.pack_received();
        Ok((session, pack_at))
    }

    /// The answer to a push once its pack is unpacked, with `outcome`: the
    /// header fields and the report. Fails with `FormatError` where the
    /// push does not await an outcome, and with `LimitExceeded` where the
    /// report cannot be written.
    pub fn git_receive_pack_result(session: ReceivePack, outcome: Result<(), String>) -> (r: Result<
        (ResponseHead, BytesMut),
        GitError,
    >)
        ensures
            match r {
                Ok((head, body)) => {
                    &&& session.state == ReceivePackState::UnpackAndValidate
                    &&& head.content_type@ == content_type(
                        "git-receive-pack"@,
                        ResponseKind::ServiceResult,
                    )
                    &&& head.cache_control@ == CACHE_CONTROL@
                    &&& buf_bytes(body) == report_bytes(
                        failure_of(outcome),
                        Seq::new(
                            session.commands().len(),
                            |i: int| crate::protocol::settled(session.commands()[i], failure_of(outcome)),
                        ),
                    )
                },
                Err(e) => if session.state != ReceivePackState::UnpackAndValidate {
                    e == GitError::FormatError
                } else {
                    e == GitError::LimitExceeded && !report_fits(
                        failure_of(outcome),
                        Seq::new(
                            session.commands().len(),
                            |i: int| crate::protocol::settled(session.commands()[i], failure_of(outcome)),
                        ),
                    )
                },
            },
    {
        let mut session = session;
        session.unpacked(outcome);
        let body = session.report()?;
        let head = response_head("git-receive-pack", ResponseKind::ServiceResult);
        Ok((head, body))
    }
}

} // verus!
