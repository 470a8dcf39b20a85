//! Decisions of the interactive console loop: what a typed line asks for, what
//! a transport read means, when the transfer guard is set, and what an
//! interrupt does.

use vstd::prelude::*;
use crate::text::{
    equals_text, file_name, file_name_range, has_prefix, starts_with_text, trim, trim_text,
};

verus! {

/// A typed line that closes the connection.
pub const CLOSE_COMMAND: &'static str = "close conn";

/// Prefix of a line that fetches a file from the peer.
pub const GET_FILE_PREFIX: &'static str = "rspi getfile";

/// Prefix of a line that sends a file to the peer.
pub const SEND_FILE_PREFIX: &'static str = "rspi sendfile";

/// Name given to a fetched file whose requested path has no final component.
pub const DEFAULT_FILE_NAME: &'static str = "new_file";

/// What a typed line asks for.
pub enum Command {
    /// Close the connection and end the loop.
    Close,
    /// Fetch a file: `request` goes to the peer, the content is stored under
    /// `dest`, a bare file name in the working directory.
    GetFile { request: String, dest: String },
    /// Send the file `name`, relative to the working directory, after
    /// `request` has gone to the peer.
    SendFile { request: String, name: String },
    /// Send `text` to the peer as it is.
    Forward { text: String },
}

/// The meaning of a command, over character sequences.
pub enum CommandModel {
    Close,
    GetFile { request: Seq<char>, dest: Seq<char> },
    SendFile { request: Seq<char>, name: Seq<char> },
    Forward { text: Seq<char> },
}

impl View for Command {
    type V = CommandModel;

    open spec fn view(&self) -> CommandModel {
        match self {
            Command::Close => CommandModel::Close,
            Command::GetFile { request, dest } => CommandModel::GetFile { request: request@, dest: dest@ },
            Command::SendFile { request, name } => CommandModel::SendFile { request: request@, name: name@ },
            Command::Forward { text } => CommandModel::Forward { text: text@ },
        }
    }
}

/// The file name under which a fetched file is stored, for the requested path.
pub open spec fn destination_name(path: Seq<char>) -> Seq<char> {
    match file_name(path) {
        Some(name) => name,
        None => DEFAULT_FILE_NAME@,
    }
}

/// What the typed line `line` asks for. The line is trimmed first; a transfer
/// command takes the trimmed rest of the line as its path.
pub open spec fn command_of(line: Seq<char>) -> CommandModel {
    let t = trim(line);
    if t == CLOSE_COMMAND@ {
        CommandModel::Close
    } else if has_prefix(t, GET_FILE_PREFIX@) {
        CommandModel::GetFile {
            request: t,
            dest: destination_name(trim(t.skip(GET_FILE_PREFIX@.len() as int))),
        }
    } else if has_prefix(t, SEND_FILE_PREFIX@) {
        CommandModel::SendFile { request: t, name: trim(t.skip(SEND_FILE_PREFIX@.len() as int)) }
    } else {
        CommandModel::Forward { text: t }
    }
}

/// Classifies a typed line.
pub fn classify(line: &str) -> (r: Command)
    ensures
        r@ == command_of(line@),
{
    let t: &str = trim_text(line);
    if equals_text(t, CLOSE_COMMAND) {
        return Command::Close;
    }
    if starts_with_text(t, GET_FILE_PREFIX) {
        let rest: &str = t.substring_char(GET_FILE_PREFIX.unicode_len(), t.unicode_len());
        assert(rest@ =~= t@.skip(GET_FILE_PREFIX@.len() as int));
        let path: &str = trim_text(rest);
        let dest: String = match file_name_range(path) {
            Some((a, b)) => path.substring_char(a, b).to_owned(),
            None => DEFAULT_FILE_NAME.to_owned(),
        };
        return Command::GetFile { request: t.to_owned(), dest };
    }
    if starts_with_text(t, SEND_FILE_PREFIX) {
        let rest: &str = t.substring_char(SEND_FILE_PREFIX.unicode_len(), t.unicode_len());
        assert(rest@ =~= t@.skip(SEND_FILE_PREFIX@.len() as int));
        let name: &str = trim_text(rest);
        return Command::SendFile { request: t.to_owned(), name: name.to_owned() };
    }
    Command::Forward { text: t.to_owned() }
}

/// Why the console loop ended.
#[derive(Debug, Clone, Copy, PartialEq, Eq, Structural)]
pub enum CloseReason {
    /// The user typed the close command.
    LocalClose,
    /// A read returned no bytes: the peer closed the connection.
    PeerClosed,
    /// A read failed with an error other than a timeout.
    TransportFailure,
}

/// Where the console loop stands.
#[derive(Debug, Clone, Copy, PartialEq, Eq, Structural)]
pub enum Phase {
    /// Waiting for typed lines and peer output.
    Idle,
    /// A file transfer is under way.
    Transferring,
    /// The loop has ended.
    Closed(CloseReason),
}

/// How a transport read ended.
#[derive(Debug, Clone, Copy, PartialEq, Eq, Structural)]
pub enum ReadOutcome {
    /// The read returned this many bytes; zero means the peer closed.
    Bytes(usize),
    /// The read timeout expired, or the read would have blocked.
    TimedOut,
    /// Any other failure.
    Failed,
}

/// What the loop does after a transport read.
#[derive(Debug, Clone, Copy, PartialEq, Eq, Structural)]
pub enum ReadAction {
    /// Show this many received bytes, then go on.
    Print(usize),
    /// Nothing arrived yet: go on at once.
    Continue,
    /// End the loop.
    Stop(CloseReason),
}

/// What an interrupt signal does.
#[derive(Debug, Clone, Copy, PartialEq, Eq, Structural)]
pub enum InterruptAction {
    /// A transfer is under way: end the process at once.
    Abort,
    /// Send the interrupt sentinel to the peer.
    SendSentinel,
}

/// State of the console loop, with the transfer guard that the interrupt path
/// reads.
pub struct Session {
    pub phase: Phase,
    /// Set exactly while a transfer is under way.
    pub transfer_guard: bool,
}

impl Session {
    /// The guard is set exactly while a transfer is under way.
    pub open spec fn wf(&self) -> bool {
        self.transfer_guard == (self.phase == Phase::Transferring)
    }

    /// A session that has just connected and authenticated.
    pub fn new() -> (r: Session)
        ensures
            r.wf(),
            r.phase == Phase::Idle,
            !r.transfer_guard,
    {
        Session { phase: Phase::Idle, transfer_guard: false }
    }

    /// Whether a transfer is under way, as the interrupt path must see it.
    pub fn guard(&self) -> (r: bool)
        ensures
            r == self.transfer_guard,
    {
        self.transfer_guard
    }

    /// Handles a typed line: classifies it, and ends the loop on the close
    /// command.
    pub fn on_line(&mut self, line: &str) -> (r: Command)
        requires
            old(self).wf(),
            old(self).phase == Phase::Idle,
        ensures
            final(self).wf(),
            r@ == command_of(line@),
            final(self).phase == (if r@ is Close { Phase::Closed(CloseReason::LocalClose) } else { Phase::Idle }),
    {
        let c: Command = classify(line);
        if let Command::Close = c {
            self.phase = Phase::Closed(CloseReason::LocalClose);
        }
        c
    }

    /// A transfer starts: the guard is set.
    pub fn begin_transfer(&mut self)
        requires
            old(self).wf(),
            old(self).phase == Phase::Idle,
        ensures
            final(self).wf(),
            final(self).phase == Phase::Transferring,
            final(self).transfer_guard,
    {
        self.phase = Phase::Transferring;
        self.transfer_guard = true;
    }

    /// The transfer has ended, well or not: the guard is cleared.
    pub fn end_transfer(&mut self)
        requires
            old(self).wf(),
            old(self).phase == Phase::Transferring,
        ensures
            final(self).wf(),
            final(self).phase == Phase::Idle,
            !final(self).transfer_guard,
    {
        self.transfer_guard = false;
        self.phase = Phase::Idle;
    }

    /// Handles how a transport read ended. No bytes means the peer closed,
    /// which ends the loop; a timeout is no error and the loop goes on.
    pub fn on_read(&mut self, outcome: ReadOutcome) -> (r: ReadAction)
        requires
            old(self).wf(),
            old(self).phase == Phase::Idle,
        ensures
            final(self).wf(),
            r == (match outcome {
                ReadOutcome::Bytes(n) => if n == 0 {
                    ReadAction::Stop(CloseReason::PeerClosed)
                } else {
                    ReadAction::Print(n)
                },
                ReadOutcome::TimedOut => ReadAction::Continue,
                ReadOutcome::Failed => ReadAction::Stop(CloseReason::TransportFailure),
            }),
            final(self).phase == (match r {
                ReadAction::Stop(reason) => Phase::Closed(reason),
                _ => Phase::Idle,
            }),
    {
        let action: ReadAction = match outcome {
            ReadOutcome::Bytes(n) => if n == 0 {
                ReadAction::Stop(CloseReason::PeerClosed)
            } else {
                ReadAction::Print(n)
            },
            ReadOutcome::TimedOut => ReadAction::Continue,
            ReadOutcome::Failed => ReadAction::Stop(CloseReason::TransportFailure),
        };
        if let ReadAction::Stop(reason) = action {
            self.phase = Phase::Closed(reason);
        }
        action
    }
}

/// What an interrupt does, given the guard as read under its lock; a guard
/// that could not be read counts as clear.
pub fn on_interrupt(guard: Option<bool>) -> (r: InterruptAction)
    ensures
        r == (if guard == Some(true) { InterruptAction::Abort } else { InterruptAction::SendSentinel }),
{
    match guard {
        Some(true) => InterruptAction::Abort,
        _ => InterruptAction::SendSentinel,
    }
}

/// The bytes sent to the peer on an interrupt: `SIGINT` in ASCII.
pub fn interrupt_sentinel() -> (r: Vec<u8>)
    ensures
        r@ == seq!['S' as u8, 'I' as u8, 'G' as u8, 'I' as u8, 'N' as u8, 'T' as u8],
{
    vec!['S' as u8, 'I' as u8, 'G' as u8, 'I' as u8, 'N' as u8, 'T' as u8]
}

} // verus!
