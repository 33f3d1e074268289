//! The receive-pack service, which serves a push: the client sends the
//! commands that move refs, a flush, and a pack; the server unpacks the
//! pack and reports on the unpacking and on every command.

use crate::buffer::buf_bytes;
use crate::errors::GitError;
use crate::hash::{is_hex, lemma_hex_is_text};
use crate::pktline::{
    decode_pkt, flush_pkt, lines_encoding, lines_fit, put_lines, read_pkt_at, texts,
    write_flush, Packet, PktLine, MAX_BUFFER,
};
use crate::protocol::{
    settled, status_line, CommandStatus, CommandView, RefCommand, RefUpdateRequet,
};
use crate::text::text_of_range;
use bytes::BytesMut;
use vstd::prelude::*;
use vstd::string::*;
use vstd::utf8::{decode_utf8, valid_utf8};

verus! {

/// Where a push stands.
#[derive(Clone, Copy, Debug, PartialEq, Eq, Structural)]
pub enum ReceivePackState {
    /// The client sends the commands.
    AwaitRefUpdateLines,
    /// The commands are in; the bytes that follow are the pack.
    AwaitPackData,
    /// The pack is staged and is being unpacked.
    UnpackAndValidate,
    /// The outcome is known and the report can go out.
    EmitStatusReport,
    /// The report is out.
    Closed,
    /// The client broke the protocol; the connection ends.
    Failed,
}

/// The length of the ref name at the front of `rest`: it ends before the
/// first NUL, which opens the capabilities, before the first line feed,
/// or with `rest`.
pub open spec fn name_end(rest: Seq<u8>) -> int
    decreases rest.len(),
{
    if rest.len() == 0 || rest[0] == 0 || rest[0] == 0x0a {
        0
    } else {
        1 + name_end(rest.skip(1))
    }
}

/// The command that a line of a push spells: the old id, a space, the new
/// id, a space and the name of the ref. The ids are forty hexadecimal
/// digits each, and the name is text that is not empty. There is none
/// where the line is not of this shape.
pub open spec fn command_of(payload: Seq<u8>) -> Option<CommandView> {
    let old_id = payload.subrange(0, 40);
    let new_id = payload.subrange(41, 81);
    let name = payload.subrange(82, 82 + name_end(payload.skip(82)));
    if payload.len() > 82 && payload[40] == 0x20 && payload[81] == 0x20 && is_hex(old_id)
        && is_hex(new_id) && name.len() > 0 && valid_utf8(name) {
        Some(
            CommandView {
                ref_name: decode_utf8(name),
                old_id: decode_utf8(old_id),
                new_id: decode_utf8(new_id),
                status: CommandStatus::Pending,
                error_msg: Seq::empty(),
            },
        )
    } else {
        None
    }
}

/// What one packet of the client does to a push that awaits commands: a
/// line adds the command it spells, and breaks the protocol where it
/// spells none; a flush ends the commands. No packet is expected in any
/// other state.
pub open spec fn command_step(
    state: ReceivePackState,
    commands: Seq<CommandView>,
    packet: Packet,
) -> (ReceivePackState, Seq<CommandView>) {
    if state != ReceivePackState::AwaitRefUpdateLines {
        (ReceivePackState::Failed, commands)
    } else {
        match packet {
            Packet::Flush => (ReceivePackState::AwaitPackData, commands),
            Packet::Data(payload) => match command_of(payload) {
                Some(c) => (ReceivePackState::AwaitRefUpdateLines, commands.push(c)),
                None => (ReceivePackState::Failed, commands),
            },
        }
    }
}

/// Where the packets of `input` leave a push, and how many bytes of
/// `input` they take: they are read one after another for as long as the
/// push awaits commands. Input that ends before the flush, and input that
/// holds a malformed packet, break the protocol.
pub open spec fn command_all(
    state: ReceivePackState,
    commands: Seq<CommandView>,
    input: Seq<u8>,
) -> (ReceivePackState, Seq<CommandView>, nat)
    decreases input.len(),
{
    if state != ReceivePackState::AwaitRefUpdateLines {
        (state, commands, 0)
    } else {
        match decode_pkt(input) {
            None => (ReceivePackState::Failed, commands, 0),
            Some((packet, used)) => {
                let next = command_step(state, commands, packet);
                let rest = command_all(next.0, next.1, input.skip(used as int));
                (rest.0, rest.1, used + rest.2)
            },
        }
    }
}

/// What is reported of a failure with the message `msg`: the message, or
/// the words `unpacker error` where the message is empty or is the word
/// `ok`, which would read as success.
pub open spec fn failure_detail(msg: Seq<char>) -> Seq<char> {
    if msg.len() == 0 || msg == "ok"@ {
        "unpacker error"@
    } else {
        msg
    }
}

/// What is reported of the failure that `outcome` holds, where it holds
/// one.
pub open spec fn failure_of(outcome: Result<(), String>) -> Option<Seq<char>> {
    match outcome {
        Ok(_) => None,
        Err(msg) => Some(failure_detail(msg@)),
    }
}

/// The line that reports on the unpacking: `unpack ok` where it
/// succeeded, `unpack` and what is reported of the failure where it did
/// not.
pub open spec fn unpack_line(failure: Option<Seq<char>>) -> Seq<char> {
    match failure {
        None => "unpack ok\n"@,
        Some(msg) => "unpack "@ + failure_detail(msg) + "\n"@,
    }
}

/// The line for a failure is never the line for success, whatever the
/// message of the failure.
pub proof fn lemma_unpack_line_tells(msg: Seq<char>)
    ensures
        unpack_line(Some(msg)) != unpack_line(None),
        failure_detail(msg).len() > 0,
        failure_detail(failure_detail(msg)) == failure_detail(msg),
{
    reveal_strlit("unpack ok\n");
    reveal_strlit("unpack ");
    reveal_strlit("\n");
    reveal_strlit("ok");
    reveal_strlit("unpacker error");
    let detail = failure_detail(msg);
    let line = "unpack "@ + detail + "\n"@;
    if line == "unpack ok\n"@ {
        assert(line.len() == 10);
        assert(detail.len() == 2);
        assert(detail[0] == line[7] && detail[1] == line[8]);
        assert(detail =~= "ok"@);
        assert(msg =~= "ok"@);
    }
}

/// What is reported of a failure with the message `msg`.
pub fn detail_of(msg: &str) -> (r: String)
    ensures
        r@ == failure_detail(msg@),
{
    if msg.is_empty() || crate::protocol::same_text(msg, "ok") {
        "unpacker error".to_owned()
    } else {
        msg.to_owned()
    }
}

/// The lines of the report of a push: the line on the unpacking, and one
/// line for every command, in order.
pub open spec fn report_lines(failure: Option<Seq<char>>, commands: Seq<CommandView>) -> Seq<
    Seq<char>,
> {
    seq![unpack_line(failure)] + Seq::new(
        commands.len(),
        |i: int| status_line(commands[i].status, commands[i].ref_name, commands[i].error_msg),
    )
}

/// The report of a push: its lines, one pkt-line for each, and a flush.
pub open spec fn report_bytes(failure: Option<Seq<char>>, commands: Seq<CommandView>) -> Seq<u8> {
    lines_encoding(report_lines(failure, commands)) + flush_pkt()
}

/// Whether the report can be written: no line is longer than a pkt-line
/// carries, and a buffer can hold the whole.
pub open spec fn report_fits(failure: Option<Seq<char>>, commands: Seq<CommandView>) -> bool {
    &&& lines_fit(0, report_lines(failure, commands))
    &&& report_bytes(failure, commands).len() <= MAX_BUFFER
}

/// Finds where the ref name that starts at `from` of `payload` ends.
fn find_name_end(payload: &[u8], from: usize) -> (end: usize)
    requires
        from <= payload@.len(),
    ensures
        from <= end <= payload@.len(),
        end - from == name_end(payload@.skip(from as int)),
{
    let n: usize = payload.len();
    let mut end: usize = from;
    while end < n && payload[end] != 0 && payload[end] != 0x0a
        invariant
            from <= end <= n,
            n == payload@.len(),
            name_end(payload@.skip(from as int)) == (end - from) + name_end(
                payload@.skip(end as int),
            ),
        decreases n - end,
    {
        proof {
            assert(payload@.skip(end as int)[0] == payload@[end as int]);
            assert(payload@.skip(end as int).skip(1) =~= payload@.skip(end + 1));
        }
        end += 1;
    }
    proof {
        if end < n {
            assert(payload@.skip(end as int)[0] == payload@[end as int]);
        }
    }
    end
}

/// Whether `text[from..to]` are hexadecimal digits.
fn all_hex(text: &[u8], from: usize, to: usize) -> (b: bool)
    requires
        from <= to <= text@.len(),
    ensures
        b == is_hex(text@.subrange(from as int, to as int)),
{
    let ghost part = text@.subrange(from as int, to as int);
    let mut i: usize = from;
    while i < to
        invariant
            from <= i <= to <= text@.len(),
            part == text@.subrange(from as int, to as int),
            forall|j: int| 0 <= j < i - from ==> (#[trigger] crate::hex::hex_value(part[j])) is Some,
        decreases to - i,
    {
        if crate::hex::value_of(text[i]).is_none() {
            assert(crate::hex::hex_value(part[i - from]) is None);
            return false;
        }
        i += 1;
    }
    true
}

/// Reads the command that the line `payload` spells.
pub fn parse_command(payload: &[u8]) -> (r: Result<RefCommand, GitError>)
    ensures
        match r {
            Ok(c) => command_of(payload@) == Some(c@),
            Err(e) => e == GitError::FormatError && command_of(payload@) is None,
        },
{
    let n: usize = payload.len();
    if n <= 82 || payload[40] != 0x20 || payload[81] != 0x20 {
        return Err(GitError::FormatError);
    }
    if !all_hex(payload, 0, 40) || !all_hex(payload, 41, 81) {
        return Err(GitError::FormatError);
    }
    let end = find_name_end(payload, 82);
    if end == 82 {
        return Err(GitError::FormatError);
    }
    proof {
        lemma_hex_is_text(payload@.subrange(0, 40));
        lemma_hex_is_text(payload@.subrange(41, 81));
        vstd::utf8::encode_utf8_decode_utf8(Seq::empty());
    }
    let old_id = text_of_range(payload, 0, 40);
    let new_id = text_of_range(payload, 41, 81);
    let name = text_of_range(payload, 82, end);
    match (old_id, new_id, name) {
        (Some(old_id), Some(new_id), Some(name)) => {
            proof {
                vstd::utf8::encode_utf8_decode_utf8(old_id@);
                vstd::utf8::encode_utf8_decode_utf8(new_id@);
                vstd::utf8::encode_utf8_decode_utf8(name@);
            }
            Ok(RefCommand::new(old_id, new_id, name))
        },
        _ => Err(GitError::FormatError),
    }
}

/// One push: where it stands, its commands, and the failure of the
/// unpacking where there was one.
pub struct ReceivePack {
    pub state: ReceivePackState,
    pub request: RefUpdateRequet,
    pub failure: Option<String>,
}

impl ReceivePack {
    /// The commands of the push, in the order in which they came.
    pub open spec fn commands(&self) -> Seq<CommandView> {
        Seq::new(self.request.comand_list@.len(), |i: int| self.request.comand_list@[i]@)
    }

    /// The message of the failure of the unpacking, where there was one.
    pub open spec fn failed_with(&self) -> Option<Seq<char>> {
        match self.failure {
            None => None,
            Some(msg) => Some(msg@),
        }
    }

    /// A push that awaits its commands.
    pub fn new() -> (session: ReceivePack)
        ensures
            session.state == ReceivePackState::AwaitRefUpdateLines,
            session.commands() == Seq::<CommandView>::empty(),
            session.failed_with() is None,
    {
        let session = ReceivePack {
            state: ReceivePackState::AwaitRefUpdateLines,
            request: RefUpdateRequet { comand_list: Vec::new() },
            failure: None,
        };
        assert(session.commands() =~= Seq::<CommandView>::empty());
        session
    }

    /// Takes in one packet of the client.
    pub fn receive(&mut self, packet: &PktLine)
        ensures
            (final(self).state, final(self).commands()) == command_step(
                old(self).state,
                old(self).commands(),
                packet@,
            ),
            final(self).failure == old(self).failure,
    {
        let ghost before = self.commands();
        if self.state != ReceivePackState::AwaitRefUpdateLines {
            self.state = ReceivePackState::Failed;
        } else {
            match packet {
                PktLine::Flush => {
                    self.state = ReceivePackState::AwaitPackData;
                },
                PktLine::Data(payload) => match parse_command(payload.as_slice()) {
                    Ok(c) => {
                        let ghost view = c@;
                        self.request.comand_list.push(c);
                        assert(self.commands() =~= before.push(view));
                    },
                    Err(_) => {
                        self.state = ReceivePackState::Failed;
                    },
                },
            }
        }
        assert(self.commands() =~= command_step(old(self).state, before, packet@).1);
    }

    /// Takes in the commands at the front of `body`, up to the flush that
    /// ends them, and says where the pack starts in `body`. Fails with
    /// `FormatError` where the commands do not end with a flush.
    pub fn read_commands(&mut self, body: &[u8]) -> (r: Result<usize, GitError>)
        ensures
            final(self).failure == old(self).failure,
            (final(self).state, final(self).commands()) == (
                command_all(old(self).state, old(self).commands(), body@).0,
                command_all(old(self).state, old(self).commands(), body@).1,
            ),
            match r {
                Ok(pack_at) => final(self).state == ReceivePackState::AwaitPackData && pack_at
                    == command_all(old(self).state, old(self).commands(), body@).2 && pack_at
                    <= body@.len(),
                Err(e) => e == GitError::FormatError && final(self).state
                    != ReceivePackState::AwaitPackData,
            },
    {
        let n: usize = body.len();
        let mut pos: usize = 0;
        let ghost goal = command_all(self.state, self.commands(), body@);
        proof {
            assert(body@.skip(0) =~= body@);
        }
        while self.state == ReceivePackState::AwaitRefUpdateLines
            invariant
                pos <= n,
                n == body@.len(),
                self.failure == old(self).failure,
                goal == command_all(old(self).state, old(self).commands(), body@),
                goal.0 == command_all(self.state, self.commands(), body@.skip(pos as int)).0,
                goal.1 == command_all(self.state, self.commands(), body@.skip(pos as int)).1,
                goal.2 == pos + command_all(self.state, self.commands(), body@.skip(pos as int)).2,
            decreases n - pos,
        {
            match read_pkt_at(body, pos) {
                Err(_) => {
                    self.state = ReceivePackState::Failed;
                    return Err(GitError::FormatError);
                },
                Ok((packet, next)) => {
                    proof {
                        assert(body@.skip(pos as int).skip(next - pos) =~= body@.skip(next as int));
                    }
                    self.receive(&packet);
                    pos = next;
                },
            }
        }
        if self.state == ReceivePackState::AwaitPackData {
            Ok(pos)
        } else {
            Err(GitError::FormatError)
        }
    }

    /// Notes that the pack is staged: it is now unpacked. In any state but
    /// `AwaitPackData` the protocol is broken.
    pub fn pack_received(&mut self)
        ensures
            final(self).request == old(self).request,
            final(self).failure == old(self).failure,
            final(self).state == if old(self).state == ReceivePackState::AwaitPackData {
                ReceivePackState::UnpackAndValidate
            } else {
                ReceivePackState::Failed
            },
    {
        if self.state == ReceivePackState::AwaitPackData {
            self.state = ReceivePackState::UnpackAndValidate;
        } else {
            self.state = ReceivePackState::Failed;
        }
    }

    /// Records how the unpacking ended: every pending command succeeds
    /// with it or fails with what is reported of its failure, and the
    /// report can go out. In any state but `UnpackAndValidate` the protocol
    /// is broken and nothing is recorded.
    pub fn unpacked(&mut self, outcome: Result<(), String>)
        ensures
            old(self).state == ReceivePackState::UnpackAndValidate ==> {
                &&& final(self).state == ReceivePackState::EmitStatusReport
                &&& final(self).failed_with() == failure_of(outcome)
                &&& final(self).commands() == Seq::new(
                    old(self).commands().len(),
                    |i: int| settled(old(self).commands()[i], final(self).failed_with()),
                )
            },
            old(self).state != ReceivePackState::UnpackAndValidate ==> {
                &&& final(self).state == ReceivePackState::Failed
                &&& final(self).commands() == old(self).commands()
                &&& final(self).failure == old(self).failure
            },
    {
        if self.state != ReceivePackState::UnpackAndValidate {
            self.state = ReceivePackState::Failed;
            return ;
        }
        let ghost before = self.commands();
        let ghost failure: Option<Seq<char>> = failure_of(outcome);
        let reported: Option<String> = match &outcome {
            Ok(_) => None,
            Err(msg) => Some(detail_of(msg.as_str())),
        };
        let n: usize = self.request.comand_list.len();
        let mut i: usize = 0;
        while i < n
            invariant
                i <= n,
                n == self.request.comand_list@.len(),
                before.len() == n,
                self.state == old(self).state,
                failure == failure_of(outcome),
                failure == match reported {
                    None => None::<Seq<char>>,
                    Some(text) => Some(text@),
                },
                forall|j: int| 0 <= j < i ==> (#[trigger] self.request.comand_list@[j])@ == settled(
                    before[j],
                    failure,
                ),
                forall|j: int| i <= j < n ==> (#[trigger] self.request.comand_list@[j])@ == before[j],
            decreases n - i,
        {
            let current = &self.request.comand_list[i];
            let mut c = RefCommand {
                ref_name: current.ref_name.clone(),
                old_id: current.old_id.clone(),
                new_id: current.new_id.clone(),
                status: current.status,
                error_msg: current.error_msg.clone(),
            };
            let copy: Result<(), String> = match &reported {
                None => Ok(()),
                Some(text) => Err(text.clone()),
            };
            let _ = c.unpack(copy);
            self.request.comand_list.set(i, c);
            i += 1;
        }
        self.failure = reported;
        self.state = ReceivePackState::EmitStatusReport;
        assert(self.commands() =~= Seq::new(
            before.len(),
            |i: int| settled(before[i], self.failed_with()),
        ));
    }

    /// Writes the report: the line on the unpacking, which says `ok` only
    /// where the pack was unpacked, one line for every command, and a
    /// flush; the push is closed. Fails with `FormatError` in any state
    /// but `EmitStatusReport`, and with `LimitExceeded` where the report
    /// cannot be written; either way the push has failed.
    pub fn report(&mut self) -> (r: Result<BytesMut, GitError>)
        ensures
            final(self).request == old(self).request,
            final(self).failure == old(self).failure,
            match r {
                Ok(out) => {
                    &&& old(self).state == ReceivePackState::EmitStatusReport
                    &&& final(self).state == ReceivePackState::Closed
                    &&& buf_bytes(out) == report_bytes(old(self).failed_with(), old(self).commands())
                    &&& (unpack_line(old(self).failed_with()) == unpack_line(None)) == (old(
                        self,
                    ).failed_with() is None)
                },
                Err(e) => {
                    &&& final(self).state == ReceivePackState::Failed
                    &&& e == if old(self).state != ReceivePackState::EmitStatusReport {
                        GitError::FormatError
                    } else {
                        GitError::LimitExceeded
                    }
                    &&& old(self).state == ReceivePackState::EmitStatusReport ==> !report_fits(
                        old(self).failed_with(),
                        old(self).commands(),
                    )
                },
            },
    {
        if self.state != ReceivePackState::EmitStatusReport {
            self.state = ReceivePackState::Failed;
            return Err(GitError::FormatError);
        }
        let ghost failure = self.failed_with();
        let ghost commands = self.commands();
        let first: String = match &self.failure {
            None => "unpack ok\n".to_owned(),
            Some(msg) => {
                let mut line = "unpack ".to_owned();
                line.append(detail_of(msg.as_str()).as_str());
                line.append("\n");
                line
            },
        };
        proof {
            if let Some(msg) = failure {
                lemma_unpack_line_tells(msg);
            }
        }
        let mut lines: Vec<String> = Vec::new();
        lines.push(first);
        let n: usize = self.request.comand_list.len();
        let mut i: usize = 0;
        while i < n
            invariant
                i <= n,
                n == self.request.comand_list@.len(),
                commands == self.commands(),
                lines@.len() == i + 1,
                forall|j: int|
                    0 <= j <= i ==> (#[trigger] lines@[j])@ == report_lines(failure, commands)[j],
            decreases n - i,
        {
            lines.push(self.request.comand_list[i].status());
            i += 1;
        }
        proof {
            assert(texts(lines@) =~= report_lines(failure, commands));
        }
        let mut out = BytesMut::new();
        match put_lines(&mut out, &lines) {
            Ok(()) => {},
            Err(e) => {
                self.state = ReceivePackState::Failed;
                return Err(e);
            },
        }
        match write_flush(&mut out) {
            Ok(()) => {
                self.state = ReceivePackState::Closed;
                Ok(out)
            },
            Err(e) => {
                self.state = ReceivePackState::Failed;
                Err(e)
            },
        }
    }
}

} // verus!
