//! The rules of the per-connection pipeline: the fixup byte between
//! transports, what a pump does on each outcome of a read or a write, and
//! when a listener may bind again.
//!
//! The socket layer performs the reads, writes and shutdowns; what to do
//! next is decided here.

use crate::formatter::decimal;
use crate::formatter::decimal_string;
use crate::formatter::Formatter;
use crate::network::Address;
use vstd::prelude::*;

verus! {

/// Size of the buffer that a pump reads into.
pub const BLOCKSIZE: usize = 8190;

/// The byte that a client sends first on a local socket, and that a server
/// on a local socket expects first: the digit zero.
pub const FIXUP_BYTE: u8 = 0x30;

/// What the pipeline does to the client's stream before the pumps start.
pub struct Fixup {
    /// Read the fixup byte from the client and keep it back.
    pub strip: bool,
    /// Send the fixup byte to the server ahead of everything else.
    pub insert: bool,
    /// What to tell the operator, where the two transports differ.
    pub note: Option<&'static str>,
}

/// The note on a fixup between a client and a server, where one is on a
/// local socket and the other is not.
pub open spec fn fixup_note(client_unix: bool) -> Seq<char> {
    if client_unix {
        "adjust unix->inet socket: remove leading '0'"@
    } else {
        "adjust inet->unix socket: insert '0'"@
    }
}

/// The fixup between a client and a server: the byte is taken from a client
/// on a local socket and given to a server on a local socket; a note is due
/// where the two transports differ.
pub fn plan_fixup(client_unix: bool, server_unix: bool) -> (fixup: Fixup)
    ensures
        fixup.strip == client_unix,
        fixup.insert == server_unix,
        fixup.note is Some <==> client_unix != server_unix,
        fixup.note matches Some(n) ==> n@ == fixup_note(client_unix),
{
    let note: Option<&'static str> = if client_unix && !server_unix {
        Some("adjust unix->inet socket: remove leading '0'")
    } else if !client_unix && server_unix {
        Some("adjust inet->unix socket: insert '0'")
    } else {
        None
    };
    Fixup { strip: client_unix, insert: server_unix, note }
}

/// The fixup between the endpoints `client` and `server`.
pub fn plan_fixup_for(client: &Address, server: &Address) -> (fixup: Fixup)
    ensures
        fixup.strip == (client@ is Unix),
        fixup.insert == (server@ is Unix),
        fixup.note is Some <==> (client@ is Unix) != (server@ is Unix),
        fixup.note matches Some(n) ==> n@ == fixup_note(client@ is Unix),
{
    plan_fixup(client.is_unix(), server.is_unix())
}

/// A first byte on a local socket that is not the fixup byte.
#[derive(Debug, Clone, Copy, PartialEq, Eq, Structural)]
pub struct InvalidPrefix {
    pub got: u8,
}

impl InvalidPrefix {
    /// The message of the error: what was expected and what came.
    pub fn message(&self) -> (m: String)
        ensures
            m@ == "expected first byte on unix socket to be '0', got "@ + decimal(
                self.got as nat,
            ),
    {
        let mut m = String::from_str("expected first byte on unix socket to be '0', got ");
        let got = decimal_string(self.got as usize);
        m.append(got.as_str());
        m
    }
}

/// Accepts the first byte of a client on a local socket if it is the fixup
/// byte, and rejects any other.
pub fn check_prefix(byte: u8) -> (r: Result<(), InvalidPrefix>)
    ensures
        r is Ok <==> byte == FIXUP_BYTE,
        r matches Err(e) ==> e.got == byte,
{
    if byte == FIXUP_BYTE {
        Ok(())
    } else {
        Err(InvalidPrefix { got: byte })
    }
}

/// What a pump reports its stream to.
///
/// Every call renders through the presenter `f`, which is outside any block
/// before the call and after it; a call only adds to the output.
pub trait Inspector {
    /// The inspector's own invariant.
    spec fn wf(&self) -> bool;

    /// The pump has read `data` from its side and is about to forward it.
    fn on_data<F: Formatter>(&mut self, f: &mut F, data: &[u8])
        requires
            old(self).wf(),
            old(f).wf(),
            !old(f).in_block(),
        ensures
            final(self).wf(),
            final(f).wf(),
            !final(f).in_block(),
            final(f).forced_binary() == old(f).forced_binary(),
            old(f).output().is_prefix_of(final(f).output()),
    ;

    /// The pump has read the end of the stream.
    fn on_close<F: Formatter>(&mut self, f: &mut F)
        requires
            old(self).wf(),
            old(f).wf(),
            !old(f).in_block(),
        ensures
            final(self).wf(),
            final(f).wf(),
            !final(f).in_block(),
            final(f).forced_binary() == old(f).forced_binary(),
            old(f).output().is_prefix_of(final(f).output()),
    ;

    /// An I/O error, worded as `err`, has ended the pump: a failed read of
    /// this side, or with `while_writing` a failed write to the peer.
    fn on_error<F: Formatter>(&mut self, f: &mut F, while_writing: bool, err: &str)
        requires
            old(self).wf(),
            old(f).wf(),
            !old(f).in_block(),
        ensures
            final(self).wf(),
            final(f).wf(),
            !final(f).in_block(),
            final(f).forced_binary() == old(f).forced_binary(),
            old(f).output().is_prefix_of(final(f).output()),
    ;

    /// The pipeline has dealt with the fixup byte: `data` is what it took
    /// out of the stream, `note` what the operator should hear of it.
    fn on_unix0<F: Formatter>(&mut self, f: &mut F, data: &[u8], note: Option<&str>)
        requires
            old(self).wf(),
            old(f).wf(),
            !old(f).in_block(),
        ensures
            final(self).wf(),
            final(f).wf(),
            !final(f).in_block(),
            final(f).forced_binary() == old(f).forced_binary(),
            old(f).output().is_prefix_of(final(f).output()),
    ;
}

/// What happened to a pump.
#[derive(Debug, Clone, Copy, PartialEq, Eq, Structural)]
pub enum PumpEvent {
    /// The read failed.
    ReadFailed,
    /// The read met the end of the stream.
    ReadEof,
    /// The read brought bytes.
    ReadData,
    /// The bytes could not be written to the peer.
    WriteFailed,
    /// The bytes were written to the peer.
    WriteDone,
}

/// What a pump tells its observer.
#[derive(Debug, Clone, Copy, PartialEq, Eq, Structural)]
pub enum Notify {
    Nothing,
    Data,
    Close,
    Error { while_writing: bool },
}

/// One direction of a connection.
#[derive(Debug, Clone, Copy, PartialEq, Eq, Structural)]
pub enum Half {
    /// The half that the pump reads from.
    Read,
    /// The half that the pump writes to.
    Write,
}

/// What a pump does next.
#[derive(Debug, Clone, Copy, PartialEq, Eq, Structural)]
pub struct PumpAction {
    /// What to tell the observer, first of all.
    pub notify: Notify,
    /// Write the bytes just read to the peer.
    pub forward: bool,
    /// The half to shut down, if any.
    pub shutdown: Option<Half>,
    /// Shut that half down even where the observer could not be told.
    pub close_anyway: bool,
    /// The pump ends; where `fail` is set, with the error at hand.
    pub stop: bool,
    /// The pump's result is the error that it met.
    pub fail: bool,
}

/// The rule of the pump.  Bytes read are shown to the observer and then
/// forwarded.  A failed read is reported and the end of the stream is
/// announced, each followed by closing the write half; after a failed read
/// that half is closed even if the report itself fails.  A failed write is
/// reported, the read half is closed, and the pump fails with that error.
pub open spec fn pump_rule(event: PumpEvent) -> PumpAction {
    match event {
        PumpEvent::ReadFailed => PumpAction {
            notify: Notify::Error { while_writing: false },
            forward: false,
            shutdown: Some(Half::Write),
            close_anyway: true,
            stop: true,
            fail: false,
        },
        PumpEvent::ReadEof => PumpAction {
            notify: Notify::Close,
            forward: false,
            shutdown: Some(Half::Write),
            close_anyway: false,
            stop: true,
            fail: false,
        },
        PumpEvent::ReadData => PumpAction {
            notify: Notify::Data,
            forward: true,
            shutdown: None,
            close_anyway: false,
            stop: false,
            fail: false,
        },
        PumpEvent::WriteFailed => PumpAction {
            notify: Notify::Error { while_writing: true },
            forward: false,
            shutdown: Some(Half::Read),
            close_anyway: false,
            stop: true,
            fail: true,
        },
        PumpEvent::WriteDone => PumpAction {
            notify: Notify::Nothing,
            forward: false,
            shutdown: None,
            close_anyway: false,
            stop: false,
            fail: false,
        },
    }
}

/// What the pump does on `event`.
pub fn pump_action(event: PumpEvent) -> (action: PumpAction)
    ensures
        action == pump_rule(event),
{
    match event {
        PumpEvent::ReadFailed => PumpAction {
            notify: Notify::Error { while_writing: false },
            forward: false,
            shutdown: Some(Half::Write),
            close_anyway: true,
            stop: true,
            fail: false,
        },
        PumpEvent::ReadEof => PumpAction {
            notify: Notify::Close,
            forward: false,
            shutdown: Some(Half::Write),
            close_anyway: false,
            stop: true,
            fail: false,
        },
        PumpEvent::ReadData => PumpAction {
            notify: Notify::Data,
            forward: true,
            shutdown: None,
            close_anyway: false,
            stop: false,
            fail: false,
        },
        PumpEvent::WriteFailed => PumpAction {
            notify: Notify::Error { while_writing: true },
            forward: false,
            shutdown: Some(Half::Read),
            close_anyway: false,
            stop: true,
            fail: true,
        },
        PumpEvent::WriteDone => PumpAction {
            notify: Notify::Nothing,
            forward: false,
            shutdown: None,
            close_anyway: false,
            stop: false,
            fail: false,
        },
    }
}

/// The observer of a pump hears of data any number of times and then, when
/// the pump ends, of exactly one close or error: an event ends the pump if
/// and only if it is reported as one of the two, and every ending closes a
/// half of the connection.
pub proof fn lemma_pump_ends_once(event: PumpEvent)
    ensures
        pump_rule(event).stop <==> (pump_rule(event).notify is Close || pump_rule(
            event,
        ).notify is Error),
        pump_rule(event).stop <==> pump_rule(event).shutdown is Some,
        pump_rule(event).forward <==> pump_rule(event).notify is Data,
        pump_rule(event).forward ==> !pump_rule(event).stop,
{
}

/// Whether a listener that failed to bind removes the path and binds once
/// more: only on a local socket whose path is in use, and only once.
pub fn retry_bind(unix: bool, addr_in_use: bool, retried: bool) -> (retry: bool)
    ensures
        retry == (unix && addr_in_use && !retried),
{
    unix && addr_in_use && !retried
}

/// Whether a failed attempt to connect to `candidate` ends the search: a
/// local socket that cannot be reached is passed over for the next
/// endpoint, a TCP endpoint that cannot be reached is the error.
pub fn connect_failure_is_final(candidate: &Address) -> (is_final: bool)
    ensures
        is_final == !(candidate@ is Unix),
{
    !candidate.is_unix()
}

/// The message of the error for an address that no transport could reach.
pub fn refused_message(addr: &Address) -> (m: String)
    ensures
        m@ == "can't connect to "@ + addr.spec_text(),
{
    let mut m = String::from_str("can't connect to ");
    let text = addr.to_text();
    m.append(text.as_str());
    m
}

} // verus!
